[package]
name = "webrascal_rewriter"
version = "0.1.0"
edition = "2021"
publish = false

[dependencies]
oxc = "=0.139.0"
anyhow = "=1.0.104"
clap = { version = "=4.6.7", features = ["derive"] }
walkdir = "=2.5.0"
boa_engine = "=0.22.0"
thiserror = "=2.0.21"
wasm-bindgen = "=0.2.129"
js-sys = "=0.3.106"
web-sys = { version = "=0.3.106", features = ["Url"] }
