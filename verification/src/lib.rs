//! Rewrites JavaScript source text so that it runs inside a sandboxed
//! browsing context: every reference that could let untrusted script
//! escape the sandbox — `location`, `top`, `parent`, `eval`, dynamic
//! `import(...)`, `import.meta`, property accesses on those names,
//! computed member expressions, cross-realm `postMessage`, `debugger`
//! statements — is redirected into a call on a host-supplied runtime
//! shim. The rewriter emits the rewritten bytes together with a compact
//! binary source map that lets every edit be located and undone.

use vstd::prelude::*;
use vstd::string::StringExecFns;
use vstd::string::StringSliceAdditionalSpecFns;
use vstd::utf8::valid_utf8;

pub mod cfg;
pub mod changes;
pub mod native;
pub mod rewrite;
pub mod span;
pub mod tokens;
pub mod transform;
pub mod utf8;
pub mod visitor;

pub use cfg::{Config, Flags, StringBuilder, UrlRewriter};
pub use span::Span;

use cfg::ConfigM;
use changes::{models, ChangeM};
use rewrite::{lower_all, lower_all_from, rewrite_models, RewriteM};
use transform::{
    encode_map, out_of, recs_of, sum_delta, RecordM, Transformer,
};
use visitor::{
    debugger_at, ident_trigger, import_trigger, member_rw, meta_at, scan_close, scan_found,
    visit_model, JsVisitor,
};
use tokens::spec_tokens;

verus! {

/// A parser diagnostic, rendered as text.
pub type OxcDiagnostic = String;

/// What `rewrite_bytes` can reject: input that is not valid UTF-8.
#[derive(Debug, Clone, Copy, PartialEq, Eq, Structural)]
pub enum RewriteError {
    NotUtf8,
}

impl RewriteError {
    pub fn message(&self) -> (s: String)
        ensures
            s@ == "input js is not utf-8"@,
    {
        String::from_str("input js is not utf-8")
    }
}

/// What one rewrite call returns: the rewritten bytes, the binary source
/// map, the parser diagnostics (never fatal), and the flags echoed back
/// with the base URL defaulted.
#[derive(Debug)]
pub struct RewriteResult {
    pub js: Vec<u8>,
    pub sourcemap: Vec<u8>,
    pub errors: Vec<OxcDiagnostic>,
    pub flags: Flags,
}

/// The changes of the whole pipeline: everything the visitor emits,
/// lowered through the configuration.
pub open spec fn pipeline_changes(src: Seq<u8>, cfg: ConfigM, do_sourcemaps: bool) -> Seq<
    ChangeM,
> {
    lower_all(visit_model(src, do_sourcemaps), cfg)
}

/// The bytes the rewriter produces for a source.
pub open spec fn rewritten_output(src: Seq<u8>, cfg: ConfigM, do_sourcemaps: bool) -> Seq<u8> {
    out_of(src, pipeline_changes(src, cfg, do_sourcemaps))
}

/// The edit records the rewriter produces for a source.
pub open spec fn rewritten_records(src: Seq<u8>, cfg: ConfigM, do_sourcemaps: bool) -> Seq<
    RecordM,
> {
    recs_of(src, pipeline_changes(src, cfg, do_sourcemaps))
}

/// An empty base URL falls back to `about:blank`.
pub open spec fn base_defaulted(base: Seq<char>) -> Seq<char> {
    if base.len() == 0 {
        "about:blank"@
    } else {
        base
    }
}

/// Relies on oxc's parser (`oxc::parser::Parser`): parse the source in
/// script or module mode and render each syntax diagnostic as text.
/// Diagnostics are collected only; parsing never aborts a rewrite, so
/// nothing is claimed about them.
#[verifier::external_body]
fn parse_diagnostics(js: &[u8], is_module: bool) -> (errs: Vec<OxcDiagnostic>)
    requires
        valid_utf8(js@),
{
    let text = match std::str::from_utf8(js) {
        Ok(t) => t,
        Err(_) => return Vec::new(),
    };
    let alloc = oxc::allocator::Allocator::default();
    let source_type = oxc::span::SourceType::default().with_module(is_module);
    let parsed = oxc::parser::Parser::new(&alloc, text, source_type).parse();
    parsed.diagnostics.into_vec().into_iter().map(|e| format!("{e:?}")).collect()
}

/// A reusable rewriter: the shim naming table and the URL-rewriting
/// capability. Immutable after construction; each `rewrite` call is
/// independent.
pub struct Rewriter<E: UrlRewriter> {
    pub cfg: Config,
    pub url: E,
}

impl<E: UrlRewriter> Rewriter<E> {
    pub fn new(cfg: Config, url: E) -> (r: Rewriter<E>)
        ensures
            r.cfg == cfg,
            r.url == url,
    {
        Rewriter { cfg, url }
    }

    pub fn config(&self) -> (c: &Config)
        ensures
            c == &self.cfg,
    {
        &self.cfg
    }

    /// Rewrite a source already known to be text. Never fails: parse
    /// errors are collected as diagnostics and a best-effort edit set is
    /// applied.
    pub fn rewrite(&self, js: &str, flags: Flags) -> (res: Result<RewriteResult, RewriteError>)
        requires
            js.spec_bytes().len() <= u32::MAX,
        ensures
            res is Ok,
            rewrite_ok(res->Ok_0, js.spec_bytes(), self.cfg.model(), flags),
    {
        let bytes = js.as_bytes();
        proof {
            broadcast use vstd::utf8::encode_utf8_valid_utf8;

            assert(valid_utf8(bytes@));
        }
        Ok(self.rewrite_inner(bytes, flags))
    }

    /// Rewrite raw bytes. Rejects exactly the inputs that are not valid
    /// UTF-8; any other input is rewritten as `rewrite` would.
    pub fn rewrite_bytes(&self, js: &[u8], flags: Flags) -> (res: Result<
        RewriteResult,
        RewriteError,
    >)
        requires
            js@.len() <= u32::MAX,
        ensures
            res is Ok <==> valid_utf8(js@),
            !valid_utf8(js@) ==> res == Err::<RewriteResult, RewriteError>(RewriteError::NotUtf8),
            valid_utf8(js@) ==> rewrite_ok(res->Ok_0, js@, self.cfg.model(), flags),
    {
        if !crate::utf8::is_valid_utf8(js) {
            return Err(RewriteError::NotUtf8);
        }
        Ok(self.rewrite_inner(js, flags))
    }

    fn rewrite_inner(&self, js: &[u8], flags: Flags) -> (res: RewriteResult)
        requires
            js@.len() <= u32::MAX,
            valid_utf8(js@),
        ensures
            rewrite_ok(res, js@, self.cfg.model(), flags),
    {
        let mut flags = flags;
        let ghost flags0 = flags;
        if flags.base.as_str().is_empty() {
            flags.base = String::from_str("about:blank");
        }
        proof {
            assert(flags.base@ == base_defaulted(flags0.base@));
        }
        let errors = parse_diagnostics(js, flags.is_module);
        let visitor = JsVisitor::new(js, &self.cfg, &flags, &self.url);
        let mut rewrites = visitor.run();
        let ghost rwsm = visit_model(js@, flags.do_sourcemaps);
        let ghost cm = self.cfg.model();
        proof {
            assert(rewrite_models(rewrites@) =~= rwsm);
        }
        let mut transformer = Transformer::default();
        while rewrites.len() > 0
            invariant
                rewrite_models(rewrites@) =~= rwsm.skip(rwsm.len() - rewrites@.len()),
                rewrites@.len() <= rwsm.len(),
                cm == self.cfg.model(),
                models(transformer@) + lower_all_from(rwsm, cm, rwsm.len() - rewrites@.len()) =~=
                lower_all(rwsm, cm),
            decreases rewrites@.len(),
        {
            let ghost k = rwsm.len() - rewrites@.len();
            let ghost before = rewrite_models(rewrites@);
            let rw = rewrites.remove(0);
            proof {
                assert(before.remove(0) =~= rewrite_models(rewrites@));
                assert(before[0] == rw.model());
                assert(rwsm.skip(k)[0] == rwsm[k]);
                assert(rw.model() == rwsm[k]);
                assert(rewrite_models(rewrites@) =~= rwsm.skip(k + 1));
            }
            let chs = rw.into_inner(&self.cfg);
            let ghost tbefore = transformer@;
            transformer.extend(chs);
            proof {
                assert(models(transformer@) =~= models(tbefore) + models(chs@));
                assert(models(transformer@) + lower_all_from(rwsm, cm, k + 1) =~= lower_all(
                    rwsm,
                    cm,
                ));
            }
        }
        proof {
            assert(models(transformer@) =~= lower_all(rwsm, cm));
        }
        let out = transformer.perform(js);
        RewriteResult { js: out.output, sourcemap: out.sourcemap, errors, flags }
    }
}

/// The contract of one successful rewrite: the output bytes and source
/// map are exactly the pipeline's, the output length balances the edit
/// records, and the flags come back unchanged but for the defaulted base.
pub open spec fn rewrite_ok(res: RewriteResult, src: Seq<u8>, cfg: ConfigM, flags: Flags) -> bool {
    &&& res.js@ == rewritten_output(src, cfg, flags.do_sourcemaps)
    &&& res.sourcemap@ == encode_map(rewritten_records(src, cfg, flags.do_sourcemaps))
    &&& res.js@.len() == src.len() + sum_delta(rewritten_records(src, cfg, flags.do_sourcemaps))
    &&& res.flags.base@ == base_defaulted(flags.base@)
    &&& res.flags.sourcetag@ == flags.sourcetag@
    &&& res.flags.is_module == flags.is_module
    &&& res.flags.capture_errors == flags.capture_errors
    &&& res.flags.rascalitize == flags.rascalitize
    &&& res.flags.do_sourcemaps == flags.do_sourcemaps
    &&& res.flags.strict_rewrites == flags.strict_rewrites
    &&& res.flags.destructure_rewrites == flags.destructure_rewrites
}

/// Replace reversibility at the pipeline level: undoing the emitted
/// records on the rewritten bytes, in descending output position,
/// restores the source exactly.
pub proof fn lemma_rewrite_revert(src: Seq<u8>, cfg: ConfigM, do_sourcemaps: bool)
    ensures
        transform::unapply(
            rewritten_output(src, cfg, do_sourcemaps),
            rewritten_records(src, cfg, do_sourcemaps),
        ) == src,
{
    transform::lemma_records_revert(src, pipeline_changes(src, cfg, do_sourcemaps));
}

/// Identity: a source in which no pass finds anything — no unsafe
/// identifier reference, no unsafe or `postMessage` property, no
/// balanced non-empty bracket region, no dynamic `import(`, no
/// `import.meta`, no `debugger` — rewrites to itself byte for byte when
/// source maps are off.
pub proof fn lemma_identity(src: Seq<u8>, cfg: ConfigM)
    requires
        forall|k: int|
            0 <= k < spec_tokens(src).len() ==> !ident_trigger(#[trigger] spec_tokens(src)[k]),
        forall|k: int|
            0 <= k < spec_tokens(src).len() ==> member_rw(#[trigger] spec_tokens(src)[k])
                == Seq::<RewriteM>::empty(),
        forall|k: int|
            0 <= k < spec_tokens(src).len() ==> !import_trigger(#[trigger] spec_tokens(src)[k]),
        forall|p: int|
            0 <= p < src.len() && src[p] == 91 ==> !((#[trigger] scan_found(src, p + 1, 1)) && p
                + 1 < scan_close(src, p + 1, 1) - 1),
        forall|p: int| !(#[trigger] meta_at(src, p)),
        forall|p: int| !(#[trigger] debugger_at(src, p)),
    ensures
        rewritten_output(src, cfg, false) == src,
{
    visitor::lemma_pass_idents_empty(spec_tokens(src), 0);
    visitor::lemma_pass_members_empty(spec_tokens(src), 0);
    visitor::lemma_pass_brackets_empty(src, 0);
    visitor::lemma_pass_imports_empty(src, spec_tokens(src), 0);
    visitor::lemma_pass_meta_empty(src, 0);
    visitor::lemma_pass_debugger_empty(src, 0);
    assert(visit_model(src, false) =~= Seq::<RewriteM>::empty());
    assert(pipeline_changes(src, cfg, false) =~= Seq::<ChangeM>::empty());
    transform::lemma_out_of_empty(src);
}

} // verus!
