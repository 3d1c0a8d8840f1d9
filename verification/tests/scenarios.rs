//! End-to-end scenarios: base `https://example.com/`, default
//! configuration, source maps off, script mode.

use webrascal_rewriter::cfg::{Config, Flags};
use webrascal_rewriter::native::NativeUrlRewriter;
use webrascal_rewriter::Rewriter;

fn flags(do_sourcemaps: bool) -> Flags {
    let mut f = Flags::default();
    f.base = "https://example.com/".to_string();
    f.is_module = false;
    f.do_sourcemaps = do_sourcemaps;
    f
}

fn rw(src: &str, do_sourcemaps: bool) -> Vec<u8> {
    let rewriter = Rewriter::new(Config::default(), NativeUrlRewriter);
    let res = rewriter.rewrite_bytes(src.as_bytes(), flags(do_sourcemaps)).unwrap();
    res.js
}

#[test]
fn wraps_location_reference() {
    assert_eq!(rw("location", false), b"$webrascal$wrap(location)".to_vec());
}

#[test]
fn rewrites_member_property() {
    assert_eq!(rw("a.location", false), b"a.$webrascal__location".to_vec());
}

#[test]
fn reroutes_dynamic_import() {
    assert_eq!(
        rw("import('./x.js')", false),
        b"$webrascal$import(\"/webrascal/\",'./x.js')".to_vec()
    );
}

#[test]
fn reroutes_import_meta() {
    assert_eq!(
        rw("import.meta", false),
        b"$webrascal$meta(import.meta, \"/webrascal/\")".to_vec()
    );
}

#[test]
fn deletes_debugger_statement() {
    assert_eq!(rw("debugger;", false), b"".to_vec());
}

#[test]
fn wraps_computed_member() {
    assert_eq!(rw("obj[key]", false), b"obj[$webrascal$prop(key)]".to_vec());
}

#[test]
fn redirects_post_message() {
    assert_eq!(
        rw("ws.postMessage(x)", false),
        b"ws.$webrascal$setrealm({}).postMessage(x)".to_vec()
    );
}

#[test]
fn source_tag_leads_the_output() {
    assert_eq!(
        rw("location", true),
        b"/*rascaltag 0 /webrascal/*/$webrascal$wrap(location)".to_vec()
    );
}

#[test]
fn declaration_is_not_a_reference() {
    assert_eq!(rw("var location = 5", false), b"var location = 5".to_vec());
}

#[test]
fn object_key_is_not_a_reference() {
    assert_eq!(rw("{location: 1}", false), b"{location: 1}".to_vec());
}

#[test]
fn string_literal_is_skipped() {
    assert_eq!(
        rw("'location' + location", false),
        b"'location' + $webrascal$wrap(location)".to_vec()
    );
}

#[test]
fn comments_are_skipped() {
    assert_eq!(
        rw("// location\n/* top */ eval", false),
        b"// location\n/* top */ $webrascal$wrap(eval)".to_vec()
    );
}

#[test]
fn wraps_top_and_parent() {
    assert_eq!(
        rw("top + parent", false),
        b"$webrascal$wrap(top) + $webrascal$wrap(parent)".to_vec()
    );
}

#[test]
fn debugger_swallows_trailing_whitespace_and_semicolon() {
    assert_eq!(rw("a; debugger  ;b", false), b"a; b".to_vec());
}

#[test]
fn nested_brackets_wrap_the_outer_region() {
    assert_eq!(rw("a[b[c]]", false), b"a[$webrascal$prop(b[c])]".to_vec());
}

#[test]
fn dynamic_import_with_space_before_paren() {
    assert_eq!(
        rw("import ('./x')", false),
        b"$webrascal$import(\"/webrascal/\",'./x')".to_vec()
    );
}
