//! The native embedding: a URL rewriter that prepends the configured
//! prefix, and a ready-made rewriter around it.

use vstd::prelude::*;

use crate::cfg::{default_config, Config, Flags, StringBuilder, UrlRewriter};
use crate::transform::append_bytes;
use crate::{rewrite_ok, valid_utf8, Rewriter, RewriteError, RewriteResult};

verus! {

/// The native URL rewriter: prepend the configured prefix to the URL,
/// verbatim. It never fails.
pub struct NativeUrlRewriter;

impl UrlRewriter for NativeUrlRewriter {
    open spec fn rewritten(&self, cfg: &Config, flags: &Flags, url: Seq<u8>, module: bool) -> Option<
        Seq<u8>,
    > {
        Some(cfg.prefix@ + url)
    }

    fn rewrite(
        &self,
        cfg: &Config,
        flags: &Flags,
        url: &[u8],
        builder: &mut StringBuilder,
        module: bool,
    ) -> (r: Result<(), String>) {
        let pn = cfg.prefix.len();
        append_bytes(builder, cfg.prefix.as_slice(), 0, pn);
        let un = url.len();
        append_bytes(builder, url, 0, un);
        proof {
            assert(cfg.prefix@.subrange(0, pn as int) =~= cfg.prefix@);
            assert(url@.subrange(0, un as int) =~= url@);
            assert(builder@ =~= old(builder)@ + (cfg.prefix@ + url@));
        }
        Ok(())
    }
}

/// A rewriter with the canonical configuration and the native URL
/// rewriter.
pub struct NativeRewriter {
    pub inner: Rewriter<NativeUrlRewriter>,
}

impl Default for NativeRewriter {
    fn default() -> (r: NativeRewriter)
        ensures
            r.inner.cfg.model() == default_config(),
    {
        NativeRewriter::new()
    }
}

impl NativeRewriter {
    pub fn new() -> (r: NativeRewriter)
        ensures
            r.inner.cfg.model() == default_config(),
    {
        NativeRewriter { inner: Rewriter::new(Config::default(), NativeUrlRewriter) }
    }

    /// Rewrite one script against the given base URL, with the default
    /// flags otherwise. Rejects exactly the inputs that are not valid
    /// UTF-8.
    pub fn rewrite(&mut self, js: &[u8], base: String, url: String, module: bool) -> (res: Result<
        RewriteResult,
        RewriteError,
    >)
        requires
            js@.len() <= u32::MAX,
        ensures
            final(self).inner.cfg == old(self).inner.cfg,
            res is Ok <==> valid_utf8(js@),
            !valid_utf8(js@) ==> res == Err::<RewriteResult, RewriteError>(RewriteError::NotUtf8),
            valid_utf8(js@) ==> {
                &&& rewrite_ok(
                    res->Ok_0,
                    js@,
                    old(self).inner.cfg.model(),
                    res->Ok_0.flags,
                )
                &&& res->Ok_0.js@ == crate::rewritten_output(
                    js@,
                    old(self).inner.cfg.model(),
                    true,
                )
                &&& res->Ok_0.flags.is_module == module
                &&& res->Ok_0.flags.do_sourcemaps
            },
    {
        let _ = url;
        let defaults = Flags::default();
        let flags = Flags {
            base,
            is_module: module,
            sourcetag: defaults.sourcetag,
            capture_errors: defaults.capture_errors,
            rascalitize: defaults.rascalitize,
            do_sourcemaps: defaults.do_sourcemaps,
            strict_rewrites: defaults.strict_rewrites,
            destructure_rewrites: defaults.destructure_rewrites,
        };
        self.inner.rewrite_bytes(js, flags)
    }
}

} // verus!
