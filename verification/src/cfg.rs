//! The naming table for injected shim identifiers, per-invocation flags,
//! and the URL-rewriter capability.

use vstd::prelude::*;
use vstd::string::StrSliceExecFns;
use vstd::string::StringExecFns;
use vstd::string::StringSliceAdditionalSpecFns;

verus! {

/// The UTF-8 bytes of a string literal; configuration values and payload
/// fragments are byte strings built from these.
pub open spec fn lit(s: &str) -> Seq<u8> {
    s.spec_bytes()
}

/// A fresh byte-string copy of `s`.
pub fn bytes_of(s: &str) -> (v: Vec<u8>)
    ensures
        v@ == lit(s),
{
    s.as_bytes_vec()
}

/// The naming table for everything the rewriter injects: the identifiers
/// of the runtime shim and the URL prefix. The names are reproduced
/// verbatim into the output; they are the ABI between the rewritten
/// script and the host runtime. All fields are byte strings.
#[derive(Debug, Clone)]
pub struct Config {
    pub prefix: Vec<u8>,
    pub wrapfn: Vec<u8>,
    pub wrappropertybase: Vec<u8>,
    pub wrappropertyfn: Vec<u8>,
    pub cleanrestfn: Vec<u8>,
    pub importfn: Vec<u8>,
    pub rewritefn: Vec<u8>,
    pub setrealmfn: Vec<u8>,
    pub metafn: Vec<u8>,
    pub pushsourcemapfn: Vec<u8>,
    pub trysetfn: Vec<u8>,
    pub templocid: Vec<u8>,
    pub tempunusedid: Vec<u8>,
}

/// Mathematical image of a configuration.
pub struct ConfigM {
    pub prefix: Seq<u8>,
    pub wrapfn: Seq<u8>,
    pub wrappropertybase: Seq<u8>,
    pub wrappropertyfn: Seq<u8>,
    pub cleanrestfn: Seq<u8>,
    pub importfn: Seq<u8>,
    pub rewritefn: Seq<u8>,
    pub setrealmfn: Seq<u8>,
    pub metafn: Seq<u8>,
    pub pushsourcemapfn: Seq<u8>,
    pub trysetfn: Seq<u8>,
    pub templocid: Seq<u8>,
    pub tempunusedid: Seq<u8>,
}

impl Config {
    pub open spec fn model(&self) -> ConfigM {
        ConfigM {
            prefix: self.prefix@,
            wrapfn: self.wrapfn@,
            wrappropertybase: self.wrappropertybase@,
            wrappropertyfn: self.wrappropertyfn@,
            cleanrestfn: self.cleanrestfn@,
            importfn: self.importfn@,
            rewritefn: self.rewritefn@,
            setrealmfn: self.setrealmfn@,
            metafn: self.metafn@,
            pushsourcemapfn: self.pushsourcemapfn@,
            trysetfn: self.trysetfn@,
            templocid: self.templocid@,
            tempunusedid: self.tempunusedid@,
        }
    }
}

/// The canonical shim naming table.
pub open spec fn default_config() -> ConfigM {
    ConfigM {
        prefix: lit("/webrascal/"),
        wrapfn: lit("$webrascal$wrap"),
        wrappropertybase: lit("$webrascal__"),
        wrappropertyfn: lit("$webrascal$prop"),
        cleanrestfn: lit("$webrascal$clean"),
        importfn: lit("$webrascal$import"),
        rewritefn: lit("$webrascal$rewrite"),
        setrealmfn: lit("$webrascal$setrealm"),
        metafn: lit("$webrascal$meta"),
        pushsourcemapfn: lit("$webrascal$pushsourcemap"),
        trysetfn: lit("$webrascal$tryset"),
        templocid: lit("$webrascal$temploc"),
        tempunusedid: lit("$webrascal$tempunused"),
    }
}

impl Default for Config {
    fn default() -> (c: Config)
        ensures
            c.model() == default_config(),
    {
        Config {
            prefix: bytes_of("/webrascal/"),
            wrapfn: bytes_of("$webrascal$wrap"),
            wrappropertybase: bytes_of("$webrascal__"),
            wrappropertyfn: bytes_of("$webrascal$prop"),
            cleanrestfn: bytes_of("$webrascal$clean"),
            importfn: bytes_of("$webrascal$import"),
            rewritefn: bytes_of("$webrascal$rewrite"),
            setrealmfn: bytes_of("$webrascal$setrealm"),
            metafn: bytes_of("$webrascal$meta"),
            pushsourcemapfn: bytes_of("$webrascal$pushsourcemap"),
            trysetfn: bytes_of("$webrascal$tryset"),
            templocid: bytes_of("$webrascal$temploc"),
            tempunusedid: bytes_of("$webrascal$tempunused"),
        }
    }
}

/// Per-invocation options, consumed by value and echoed in the result.
#[derive(Debug, Clone)]
pub struct Flags {
    /// Base URL that relative URLs resolve against; an empty base is
    /// replaced by `about:blank`.
    pub base: String,
    /// Opaque tag recorded in emitted source-tag comments.
    pub sourcetag: String,
    pub is_module: bool,
    pub capture_errors: bool,
    pub rascalitize: bool,
    pub do_sourcemaps: bool,
    pub strict_rewrites: bool,
    pub destructure_rewrites: bool,
}

impl Default for Flags {
    fn default() -> (f: Flags)
        ensures
            f.base@ == "about:blank"@,
            f.sourcetag@ == "default"@,
            !f.is_module,
            !f.capture_errors,
            !f.rascalitize,
            f.do_sourcemaps,
            f.strict_rewrites,
            f.destructure_rewrites,
    {
        Flags {
            base: String::from_str("about:blank"),
            sourcetag: String::from_str("default"),
            is_module: false,
            capture_errors: false,
            rascalitize: false,
            do_sourcemaps: true,
            strict_rewrites: true,
            destructure_rewrites: true,
        }
    }
}

/// A mutable byte builder that URL rewriters append to, so a rewritten
/// URL can be spliced into a larger payload without extra copies.
pub type StringBuilder = Vec<u8>;

/// The URL-rewriting capability: given a URL and the flags, append the
/// rewritten URL to the builder. Implementations must be shareable across
/// threads. What an implementation appends is its own affair, declared
/// through `rewritten`; on failure the builder is left untouched and the
/// caller surfaces a diagnostic.
pub trait UrlRewriter: Send + Sync {
    /// What this implementation appends for `url`, or `None` when it
    /// fails.
    spec fn rewritten(&self, cfg: &Config, flags: &Flags, url: Seq<u8>, module: bool) -> Option<
        Seq<u8>,
    >;

    fn rewrite(
        &self,
        cfg: &Config,
        flags: &Flags,
        url: &[u8],
        builder: &mut StringBuilder,
        module: bool,
    ) -> (r: Result<(), String>)
        ensures
            match self.rewritten(cfg, flags, url@, module) {
                Some(s) => r is Ok && final(builder)@ == old(builder)@ + s,
                None => r is Err && final(builder)@ == old(builder)@,
            },
    ;
}

} // verus!
