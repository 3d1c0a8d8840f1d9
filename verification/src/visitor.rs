//! The visitor: scans the source and emits semantic rewrites.
//!
//! A fixed set of passes runs in a fixed order over the identifier tokens
//! and the raw bytes: unsafe identifier references are wrapped, unsafe
//! member properties and `postMessage` are redirected, computed members
//! are intercepted, dynamic `import` and `import.meta` are rerouted,
//! `debugger` statements are deleted, and a source tag is planted when
//! source maps are wanted.

use vstd::prelude::*;

use crate::cfg::{lit, Config, Flags, UrlRewriter};
use crate::rewrite::{rewrite_models, Rewrite, RewriteM, RewriteType, RewriteTypeM};
use crate::span::Span;
use crate::tokens::{
    find_next_non_ws_pos, lemma_next_non_ws_pos, spec_next_non_ws_pos, spec_tokens, tokenize,
    Token, TokenM, ws_byte,
};

verus! {

/// The unsafe global names whose references and properties are
/// intercepted.
pub open spec fn unsafe_ident(t: Seq<u8>) -> bool {
    t == lit("parent") || t == lit("top") || t == lit("location") || t == lit("eval")
}

/// Keywords that introduce a binding: an identifier right after one is a
/// declaration, not a reference.
pub open spec fn decl_keyword(t: Option<Seq<u8>>) -> bool {
    match t {
        Some(s) => s == lit("function") || s == lit("var") || s == lit("let") || s == lit("const")
            || s == lit("catch") || s == lit("class"),
        None => false,
    }
}

/// An identifier token is wrapped when it is one of the unsafe names and
/// is a plain reference: not a member property (no `.` before), not an
/// object key or label (no `:` after), not a fresh binding (no
/// declaration keyword just before).
pub open spec fn ident_trigger(t: TokenM) -> bool {
    &&& unsafe_ident(t.text)
    &&& !decl_keyword(t.prev_token)
    &&& t.prev_non_ws != Some(46u8)
    &&& t.next_non_ws != Some(58u8)
}

pub open spec fn tok_span(t: TokenM) -> Span {
    Span { start: t.start as u32, end: t.end as u32 }
}

/// Identifier-reference pass: wrap each triggered token.
pub open spec fn pass_idents_from(toks: Seq<TokenM>, i: int) -> Seq<RewriteM>
    decreases toks.len() - i,
{
    if i < 0 || i >= toks.len() {
        Seq::empty()
    } else {
        (if ident_trigger(toks[i]) {
            seq![(RewriteM { span: tok_span(toks[i]), ty: RewriteTypeM::WrapFn { enclose: false } })]
        } else {
            Seq::empty()
        }) + pass_idents_from(toks, i + 1)
    }
}

/// What the member pass emits for one token: an unsafe name after `.`
/// becomes a property rewrite, `postMessage` after `.` a set-realm call.
pub open spec fn member_rw(t: TokenM) -> Seq<RewriteM> {
    if t.prev_non_ws == Some(46u8) {
        if unsafe_ident(t.text) {
            seq![
                (RewriteM { span: tok_span(t), ty: RewriteTypeM::RewriteProperty { ident: t.text } }),
            ]
        } else if t.text == lit("postMessage") {
            seq![(RewriteM { span: tok_span(t), ty: RewriteTypeM::SetRealmFn })]
        } else {
            Seq::empty()
        }
    } else {
        Seq::empty()
    }
}

pub open spec fn pass_members_from(toks: Seq<TokenM>, i: int) -> Seq<RewriteM>
    decreases toks.len() - i,
{
    if i < 0 || i >= toks.len() {
        Seq::empty()
    } else {
        member_rw(toks[i]) + pass_members_from(toks, i + 1)
    }
}

/// Position just after the bracket that brings `depth` back to zero.
pub open spec fn scan_close(src: Seq<u8>, i: int, depth: int) -> int
    decreases src.len() - i,
{
    if i < 0 || i >= src.len() {
        i
    } else {
        let d = if src[i] == 91 {
            depth + 1
        } else if src[i] == 93 {
            depth - 1
        } else {
            depth
        };
        if d == 0 {
            i + 1
        } else {
            scan_close(src, i + 1, d)
        }
    }
}

/// Whether the scan finds a closing bracket at all.
pub open spec fn scan_found(src: Seq<u8>, i: int, depth: int) -> bool
    decreases src.len() - i,
{
    if i < 0 || i >= src.len() {
        false
    } else {
        let d = if src[i] == 91 {
            depth + 1
        } else if src[i] == 93 {
            depth - 1
        } else {
            depth
        };
        d == 0 || scan_found(src, i + 1, d)
    }
}

pub proof fn lemma_scan_close_bounds(src: Seq<u8>, i: int, depth: int)
    requires
        0 <= i <= src.len(),
    ensures
        i <= scan_close(src, i, depth) <= src.len(),
    decreases src.len() - i,
{
    if i < src.len() {
        let d = if src[i] == 91 {
            depth + 1
        } else if src[i] == 93 {
            depth - 1
        } else {
            depth
        };
        if d != 0 {
            lemma_scan_close_bounds(src, i + 1, d);
        }
    }
}

/// Computed-member pass: every balanced, non-empty `[ ... ]` region is
/// wrapped around its inner expression.
pub open spec fn pass_brackets_from(src: Seq<u8>, i: int) -> Seq<RewriteM>
    decreases src.len() - i,
    when 0 <= i
    via pass_brackets_from_decreases
{
    if i >= src.len() {
        Seq::empty()
    } else if src[i] == 91 {
        let j = scan_close(src, i + 1, 1);
        (if scan_found(src, i + 1, 1) && i + 1 < j - 1 {
            seq![
                (RewriteM {
                    span: Span { start: (i + 1) as u32, end: (j - 1) as u32 },
                    ty: RewriteTypeM::WrapProperty,
                }),
            ]
        } else {
            Seq::empty()
        }) + pass_brackets_from(src, j)
    } else {
        pass_brackets_from(src, i + 1)
    }
}

#[via_fn]
proof fn pass_brackets_from_decreases(src: Seq<u8>, i: int) {
    if 0 <= i < src.len() && src[i] == 91 {
        lemma_scan_close_bounds(src, i + 1, 1);
    }
}

/// Dynamic-import pass: an `import` token whose next significant byte is
/// `(` becomes an import-function call.
pub open spec fn import_trigger(t: TokenM) -> bool {
    t.text == lit("import") && t.next_non_ws == Some(40u8)
}

/// The rewritten span runs from the token through the opening
/// parenthesis, so the import function takes the argument list over.
pub open spec fn import_span(src: Seq<u8>, t: TokenM) -> Span {
    Span { start: t.start as u32, end: (spec_next_non_ws_pos(src, t.end) + 1) as u32 }
}

pub open spec fn pass_imports_from(src: Seq<u8>, toks: Seq<TokenM>, i: int) -> Seq<RewriteM>
    decreases toks.len() - i,
{
    if i < 0 || i >= toks.len() {
        Seq::empty()
    } else {
        (if import_trigger(toks[i]) {
            seq![(RewriteM { span: import_span(src, toks[i]), ty: RewriteTypeM::ImportFn })]
        } else {
            Seq::empty()
        }) + pass_imports_from(src, toks, i + 1)
    }
}

/// A literal `import.meta` occurrence starting at `i`: eleven bytes.
pub open spec fn meta_at(src: Seq<u8>, i: int) -> bool {
    0 <= i && i + 11 <= src.len() && src.subrange(i, i + 11) == lit("import.meta")
}

/// Meta-property pass: every literal `import.meta` is rerouted.
pub open spec fn pass_meta_from(src: Seq<u8>, i: int) -> Seq<RewriteM>
    decreases src.len() - i,
{
    if i < 0 || i >= src.len() {
        Seq::empty()
    } else if meta_at(src, i) {
        seq![
            (RewriteM {
                span: Span { start: i as u32, end: (i + 11) as u32 },
                ty: RewriteTypeM::MetaFn,
            }),
        ] + pass_meta_from(src, i + 11)
    } else {
        pass_meta_from(src, i + 1)
    }
}

/// A literal `debugger` occurrence starting at `i`: eight bytes.
pub open spec fn debugger_at(src: Seq<u8>, i: int) -> bool {
    0 <= i && i + 8 <= src.len() && src.subrange(i, i + 8) == lit("debugger")
}

/// End of a debugger statement: optional whitespace, an optional `;`
/// taken inclusively; any other byte stops the extension.
pub open spec fn debugger_end(src: Seq<u8>, j: int) -> int
    decreases src.len() - j,
{
    if j < 0 || j >= src.len() {
        j
    } else if src[j] == 59 {
        j + 1
    } else if ws_byte(src[j]) {
        debugger_end(src, j + 1)
    } else {
        j
    }
}

pub proof fn lemma_debugger_end_bounds(src: Seq<u8>, j: int)
    requires
        0 <= j <= src.len(),
    ensures
        j <= debugger_end(src, j) <= src.len(),
    decreases src.len() - j,
{
    if j < src.len() && src[j] != 59 && ws_byte(src[j]) {
        lemma_debugger_end_bounds(src, j + 1);
    }
}

/// Debugger pass: every `debugger` with its trailing whitespace and
/// optional `;` is deleted.
pub open spec fn pass_debugger_from(src: Seq<u8>, i: int) -> Seq<RewriteM>
    decreases src.len() - i,
    when 0 <= i
    via pass_debugger_from_decreases
{
    if i >= src.len() {
        Seq::empty()
    } else if debugger_at(src, i) {
        let end = debugger_end(src, i + 8);
        seq![
            (RewriteM { span: Span { start: i as u32, end: end as u32 }, ty: RewriteTypeM::Delete }),
        ] + pass_debugger_from(src, end)
    } else {
        pass_debugger_from(src, i + 1)
    }
}

#[via_fn]
proof fn pass_debugger_from_decreases(src: Seq<u8>, i: int) {
    if 0 <= i < src.len() && debugger_at(src, i) {
        lemma_debugger_end_bounds(src, i + 8);
    }
}

/// The source tag planted at position zero.
pub open spec fn source_tag_rw() -> RewriteM {
    RewriteM { span: Span { start: 0, end: 0 }, ty: RewriteTypeM::SourceTag }
}

/// Everything the visitor emits for a source, in emission order: the six
/// passes, one after the other.
pub open spec fn visit_model(src: Seq<u8>, do_sourcemaps: bool) -> Seq<RewriteM> {
    pass_idents_from(spec_tokens(src), 0) + pass_members_from(spec_tokens(src), 0)
        + pass_brackets_from(src, 0) + pass_imports_from(src, spec_tokens(src), 0) + pass_meta_from(
        src,
        0,
    ) + pass_debugger_from(src, 0) + (if do_sourcemaps {
        seq![source_tag_rw()]
    } else {
        Seq::<RewriteM>::empty()
    })
}

/// Byte-string equality.
fn bytes_eq(a: &[u8], b: &[u8]) -> (r: bool)
    ensures
        r == (a@ == b@),
{
    let n = a.len();
    if n != b.len() {
        return false;
    }
    let mut i: usize = 0;
    while i < n
        invariant
            i <= n,
            n == a@.len() == b@.len(),
            forall|k: int| 0 <= k < i ==> a@[k] == b@[k],
        decreases n - i,
    {
        if a[i] != b[i] {
            return false;
        }
        i = i + 1;
    }
    proof {
        assert(a@ =~= b@);
    }
    true
}

fn is_unsafe_ident(t: &Vec<u8>) -> (r: bool)
    ensures
        r == unsafe_ident(t@),
{
    bytes_eq(t.as_slice(), "parent".as_bytes()) || bytes_eq(t.as_slice(), "top".as_bytes())
        || bytes_eq(t.as_slice(), "location".as_bytes()) || bytes_eq(
        t.as_slice(),
        "eval".as_bytes(),
    )
}

fn is_decl_keyword(t: &Option<Vec<u8>>) -> (r: bool)
    ensures
        r == decl_keyword(match t {
            Some(v) => Some(v@),
            None => None,
        }),
{
    match t {
        Some(v) => {
            bytes_eq(v.as_slice(), "function".as_bytes()) || bytes_eq(
                v.as_slice(),
                "var".as_bytes(),
            ) || bytes_eq(v.as_slice(), "let".as_bytes()) || bytes_eq(
                v.as_slice(),
                "const".as_bytes(),
            ) || bytes_eq(v.as_slice(), "catch".as_bytes()) || bytes_eq(
                v.as_slice(),
                "class".as_bytes(),
            )
        },
        None => false,
    }
}

/// The visitor: borrowed views of the source, the configuration, the
/// flags and the URL rewriter, and the rewrites accumulated so far.
pub struct JsVisitor<'a, E: UrlRewriter> {
    pub src: &'a [u8],
    pub cfg: &'a Config,
    pub flags: &'a Flags,
    pub url: &'a E,
    pub rewrites: Vec<Rewrite>,
}

impl<'a, E: UrlRewriter> JsVisitor<'a, E> {
    pub fn new(src: &'a [u8], cfg: &'a Config, flags: &'a Flags, url: &'a E) -> (v: JsVisitor<
        'a,
        E,
    >)
        ensures
            v.src == src,
            v.cfg == cfg,
            v.flags == flags,
            v.url == url,
            v.rewrites@ == Seq::<Rewrite>::empty(),
    {
        JsVisitor { src, cfg, flags, url, rewrites: Vec::new() }
    }

    pub fn config(&self) -> (c: &Config)
        ensures
            c == self.cfg,
    {
        self.cfg
    }

    /// Record a URL replacement over a byte range. The rewritten text is
    /// handed in ready-made; the module flag is reserved.
    pub fn rewrite_url(&mut self, start: u32, end: u32, text: Vec<u8>, module: bool)
        ensures
            final(self).src == old(self).src,
            final(self).cfg == old(self).cfg,
            final(self).flags == old(self).flags,
            final(self).url == old(self).url,
            rewrite_models(final(self).rewrites@) == rewrite_models(old(self).rewrites@).push(
                RewriteM {
                    span: Span { start, end },
                    ty: RewriteTypeM::Replace { text: text@ },
                },
            ),
    {
        let ghost before = rewrite_models(self.rewrites@);
        let _ = module;
        let rw = Rewrite { span: Span::new(start, end), ty: RewriteType::Replace { text } };
        let ghost rwm = rw.model();
        self.rewrites.push(rw);
        proof {
            assert(rewrite_models(self.rewrites@) =~= before.push(rwm));
        }
    }

    /// Identifier-reference pass.
    pub fn visit_identifier_reference(&mut self)
        requires
            old(self).src@.len() <= u32::MAX,
        ensures
            final(self).src == old(self).src,
            final(self).cfg == old(self).cfg,
            final(self).flags == old(self).flags,
            final(self).url == old(self).url,
            rewrite_models(final(self).rewrites@) == rewrite_models(old(self).rewrites@)
                + pass_idents_from(spec_tokens(old(self).src@), 0),
    {
        let ghost before = rewrite_models(self.rewrites@);
        let toks = tokenize(self.src);
        let ghost toksm = spec_tokens(self.src@);
        let n = toks.len();
        let mut i: usize = 0;
        proof {
            assert(toksm.len() == toks@.len());
        }
        while i < n
            invariant
                i <= n,
                n == toks@.len(),
                n == toksm.len(),
                toks@.map_values(|t: Token| t.model()) == toksm,
                self.src == old(self).src,
                self.cfg == old(self).cfg,
                self.flags == old(self).flags,
                self.url == old(self).url,
                self.src@.len() <= u32::MAX,
                forall|k: int|
                    0 <= k < toks@.len() ==> {
                        let t = #[trigger] toks@[k];
                        t.start < t.end <= self.src@.len()
                    },
                rewrite_models(self.rewrites@) + pass_idents_from(toksm, i as int) =~= before
                    + pass_idents_from(toksm, 0),
            decreases n - i,
        {
            let tok = &toks[i];
            proof {
                assert(toks@.map_values(|t: Token| t.model())[i as int] == toks@[i as int].model());
            }
            let hit = is_unsafe_ident(&tok.text) && !is_decl_keyword(&tok.prev_token) && !(
            match tok.prev_non_ws {
                Some(b) => b == 46,
                None => false,
            }) && !(match tok.next_non_ws {
                Some(b) => b == 58,
                None => false,
            });
            proof {
                assert(hit == ident_trigger(toksm[i as int]));
            }
            if hit {
                let ghost mid = rewrite_models(self.rewrites@);
                let rw = Rewrite {
                    span: Span::new(tok.start as u32, tok.end as u32),
                    ty: RewriteType::WrapFn { enclose: false },
                };
                let ghost rwm = rw.model();
                self.rewrites.push(rw);
                proof {
                    assert(rewrite_models(self.rewrites@) =~= mid.push(rwm));
                    assert(rwm == (RewriteM {
                        span: tok_span(toksm[i as int]),
                        ty: RewriteTypeM::WrapFn { enclose: false },
                    }));
                    assert(rewrite_models(self.rewrites@) + pass_idents_from(toksm, i + 1) =~=
                    before + pass_idents_from(toksm, 0));
                }
            }
            i = i + 1;
        }
        proof {
            assert(rewrite_models(self.rewrites@) =~= before + pass_idents_from(toksm, 0));
        }
    }

    /// Member-expression pass: property rewrites, set-realm rewrites, and
    /// computed-member interception.
    pub fn visit_member_expression(&mut self)
        requires
            old(self).src@.len() <= u32::MAX,
        ensures
            final(self).src == old(self).src,
            final(self).cfg == old(self).cfg,
            final(self).flags == old(self).flags,
            final(self).url == old(self).url,
            rewrite_models(final(self).rewrites@) == rewrite_models(old(self).rewrites@)
                + pass_members_from(spec_tokens(old(self).src@), 0) + pass_brackets_from(
                old(self).src@,
                0,
            ),
    {
        let ghost before = rewrite_models(self.rewrites@);
        let toks = tokenize(self.src);
        let ghost toksm = spec_tokens(self.src@);
        let n = toks.len();
        let mut i: usize = 0;
        while i < n
            invariant
                i <= n,
                n == toks@.len(),
                n == toksm.len(),
                toks@.map_values(|t: Token| t.model()) == toksm,
                self.src == old(self).src,
                self.cfg == old(self).cfg,
                self.flags == old(self).flags,
                self.url == old(self).url,
                self.src@.len() <= u32::MAX,
                forall|k: int|
                    0 <= k < toks@.len() ==> {
                        let t = #[trigger] toks@[k];
                        t.start < t.end <= self.src@.len() && t.text@ == self.src@.subrange(
                            t.start as int,
                            t.end as int,
                        )
                    },
                rewrite_models(self.rewrites@) + pass_members_from(toksm, i as int) =~= before
                    + pass_members_from(toksm, 0),
            decreases n - i,
        {
            let tok = &toks[i];
            proof {
                assert(toks@.map_values(|t: Token| t.model())[i as int] == toks@[i as int].model());
            }
            let after_dot = match tok.prev_non_ws {
                Some(b) => b == 46,
                None => false,
            };
            if after_dot {
                if is_unsafe_ident(&tok.text) {
                    let ghost mid = rewrite_models(self.rewrites@);
                    let ident = crate::tokens::copy_range(self.src, tok.start, tok.end);
                    proof {
                        assert(ident@ == toks@[i as int].text@);
                        assert(ident@ == toksm[i as int].text);
                    }
                    let rw = Rewrite {
                        span: Span::new(tok.start as u32, tok.end as u32),
                        ty: RewriteType::RewriteProperty { ident },
                    };
                    let ghost rwm = rw.model();
                    self.rewrites.push(rw);
                    proof {
                        assert(rewrite_models(self.rewrites@) =~= mid.push(rwm));
                        assert(seq![rwm] =~= member_rw(toksm[i as int]));
                        assert(rewrite_models(self.rewrites@) + pass_members_from(toksm, i + 1)
                            =~= before + pass_members_from(toksm, 0));
                    }
                } else if bytes_eq(tok.text.as_slice(), "postMessage".as_bytes()) {
                    let ghost mid = rewrite_models(self.rewrites@);
                    let rw = Rewrite {
                        span: Span::new(tok.start as u32, tok.end as u32),
                        ty: RewriteType::SetRealmFn,
                    };
                    let ghost rwm = rw.model();
                    self.rewrites.push(rw);
                    proof {
                        assert(rewrite_models(self.rewrites@) =~= mid.push(rwm));
                        assert(seq![rwm] =~= member_rw(toksm[i as int]));
                        assert(rewrite_models(self.rewrites@) + pass_members_from(toksm, i + 1)
                            =~= before + pass_members_from(toksm, 0));
                    }
                }
            }
            i = i + 1;
        }
        let ghost mid_members = before + pass_members_from(toksm, 0);
        proof {
            assert(rewrite_models(self.rewrites@) =~= mid_members);
        }

        // Computed members: wrap the inside of every balanced bracket pair.
        let src = self.src;
        let nn = src.len();
        let mut j: usize = 0;
        while j < nn
            invariant
                j <= nn,
                nn == src@.len(),
                src == old(self).src,
                self.src == old(self).src,
                self.cfg == old(self).cfg,
                self.flags == old(self).flags,
                self.url == old(self).url,
                self.src@.len() <= u32::MAX,
                rewrite_models(self.rewrites@) + pass_brackets_from(src@, j as int) =~=
                mid_members + pass_brackets_from(src@, 0),
            decreases nn - j,
        {
            if src[j] == 91 {
                let (close, found) = bracket_scan(src, j + 1);
                proof {
                    lemma_scan_close_bounds(src@, j + 1, 1);
                }
                if found && j + 1 < close - 1 {
                    let ghost mid = rewrite_models(self.rewrites@);
                    let rw = Rewrite {
                        span: Span::new((j + 1) as u32, (close - 1) as u32),
                        ty: RewriteType::WrapProperty,
                    };
                    let ghost rwm = rw.model();
                    self.rewrites.push(rw);
                    proof {
                        assert(rewrite_models(self.rewrites@) =~= mid.push(rwm));
                        assert(rewrite_models(self.rewrites@) + pass_brackets_from(
                            src@,
                            close as int,
                        ) =~= mid_members + pass_brackets_from(src@, 0));
                    }
                } else {
                    proof {
                        assert(rewrite_models(self.rewrites@) + pass_brackets_from(
                            src@,
                            close as int,
                        ) =~= mid_members + pass_brackets_from(src@, 0));
                    }
                }
                j = close;
            } else {
                j = j + 1;
            }
        }
        proof {
            assert(rewrite_models(self.rewrites@) =~= mid_members + pass_brackets_from(src@, 0));
        }
    }

    /// Dynamic-import pass.
    pub fn visit_import_expression(&mut self)
        requires
            old(self).src@.len() <= u32::MAX,
        ensures
            final(self).src == old(self).src,
            final(self).cfg == old(self).cfg,
            final(self).flags == old(self).flags,
            final(self).url == old(self).url,
            rewrite_models(final(self).rewrites@) == rewrite_models(old(self).rewrites@)
                + pass_imports_from(old(self).src@, spec_tokens(old(self).src@), 0),
    {
        let ghost before = rewrite_models(self.rewrites@);
        let toks = tokenize(self.src);
        let ghost toksm = spec_tokens(self.src@);
        let n = toks.len();
        let mut i: usize = 0;
        while i < n
            invariant
                i <= n,
                n == toks@.len(),
                n == toksm.len(),
                toks@.map_values(|t: Token| t.model()) == toksm,
                self.src == old(self).src,
                self.cfg == old(self).cfg,
                self.flags == old(self).flags,
                self.url == old(self).url,
                self.src@.len() <= u32::MAX,
                forall|k: int|
                    0 <= k < toks@.len() ==> {
                        let t = #[trigger] toks@[k];
                        t.start < t.end <= self.src@.len() && t.next_non_ws
                            == crate::tokens::spec_next_non_ws(self.src@, t.end as int)
                    },
                rewrite_models(self.rewrites@) + pass_imports_from(self.src@, toksm, i as int)
                    =~= before + pass_imports_from(self.src@, toksm, 0),
            decreases n - i,
        {
            let tok = &toks[i];
            proof {
                assert(toks@.map_values(|t: Token| t.model())[i as int] == toks@[i as int].model());
            }
            let hit = bytes_eq(tok.text.as_slice(), "import".as_bytes()) && (
            match tok.next_non_ws {
                Some(b) => b == 40,
                None => false,
            });
            proof {
                assert(hit == import_trigger(toksm[i as int]));
            }
            if hit {
                let pos = find_next_non_ws_pos(self.src, tok.end);
                proof {
                    lemma_next_non_ws_pos(self.src@, tok.end as int);
                    assert(crate::tokens::spec_next_non_ws(self.src@, tok.end as int)
                        == Some(40u8));
                    assert(pos < self.src@.len());
                }
                let ghost mid = rewrite_models(self.rewrites@);
                let rw = Rewrite {
                    span: Span::new(tok.start as u32, (pos + 1) as u32),
                    ty: RewriteType::ImportFn,
                };
                let ghost rwm = rw.model();
                self.rewrites.push(rw);
                proof {
                    assert(rewrite_models(self.rewrites@) =~= mid.push(rwm));
                    assert(rwm == (RewriteM {
                        span: import_span(self.src@, toksm[i as int]),
                        ty: RewriteTypeM::ImportFn,
                    }));
                    assert(rewrite_models(self.rewrites@) + pass_imports_from(
                        self.src@,
                        toksm,
                        i + 1,
                    ) =~= before + pass_imports_from(self.src@, toksm, 0));
                }
            }
            i = i + 1;
        }
        proof {
            assert(rewrite_models(self.rewrites@) =~= before + pass_imports_from(
                self.src@,
                toksm,
                0,
            ));
        }
    }

    /// Meta-property pass.
    pub fn visit_meta_property(&mut self)
        requires
            old(self).src@.len() <= u32::MAX,
        ensures
            final(self).src == old(self).src,
            final(self).cfg == old(self).cfg,
            final(self).flags == old(self).flags,
            final(self).url == old(self).url,
            rewrite_models(final(self).rewrites@) == rewrite_models(old(self).rewrites@)
                + pass_meta_from(old(self).src@, 0),
    {
        let ghost before = rewrite_models(self.rewrites@);
        let src = self.src;
        let n = src.len();
        let pat = "import.meta".as_bytes();
        let mut i: usize = 0;
        while i < n
            invariant
                i <= n,
                n == src@.len(),
                pat@ == lit("import.meta"),
                src == old(self).src,
                self.src == old(self).src,
                self.cfg == old(self).cfg,
                self.flags == old(self).flags,
                self.url == old(self).url,
                self.src@.len() <= u32::MAX,
                rewrite_models(self.rewrites@) + pass_meta_from(src@, i as int) =~= before
                    + pass_meta_from(src@, 0),
            decreases n - i,
        {
            let hit = n - i >= 11 && bytes_eq(vstd::slice::slice_subrange(src, i, i + 11), pat);
            proof {
                assert(hit == meta_at(src@, i as int));
            }
            if hit {
                let ghost mid = rewrite_models(self.rewrites@);
                let rw = Rewrite {
                    span: Span::new(i as u32, (i + 11) as u32),
                    ty: RewriteType::MetaFn,
                };
                let ghost rwm = rw.model();
                self.rewrites.push(rw);
                proof {
                    assert(rewrite_models(self.rewrites@) =~= mid.push(rwm));
                    assert(rewrite_models(self.rewrites@) + pass_meta_from(src@, i + 11) =~=
                    before + pass_meta_from(src@, 0));
                }
                i = i + 11;
            } else {
                i = i + 1;
            }
        }
        proof {
            assert(rewrite_models(self.rewrites@) =~= before + pass_meta_from(src@, 0));
        }
    }

    /// Debugger pass.
    pub fn visit_debugger_statement(&mut self)
        requires
            old(self).src@.len() <= u32::MAX,
        ensures
            final(self).src == old(self).src,
            final(self).cfg == old(self).cfg,
            final(self).flags == old(self).flags,
            final(self).url == old(self).url,
            rewrite_models(final(self).rewrites@) == rewrite_models(old(self).rewrites@)
                + pass_debugger_from(old(self).src@, 0),
    {
        let ghost before = rewrite_models(self.rewrites@);
        let src = self.src;
        let n = src.len();
        let pat = "debugger".as_bytes();
        let mut i: usize = 0;
        while i < n
            invariant
                i <= n,
                n == src@.len(),
                pat@ == lit("debugger"),
                src == old(self).src,
                self.src == old(self).src,
                self.cfg == old(self).cfg,
                self.flags == old(self).flags,
                self.url == old(self).url,
                self.src@.len() <= u32::MAX,
                rewrite_models(self.rewrites@) + pass_debugger_from(src@, i as int) =~= before
                    + pass_debugger_from(src@, 0),
            decreases n - i,
        {
            let hit = n - i >= 8 && bytes_eq(vstd::slice::slice_subrange(src, i, i + 8), pat);
            proof {
                assert(hit == debugger_at(src@, i as int));
            }
            if hit {
                let end = statement_end(src, i + 8);
                proof {
                    lemma_debugger_end_bounds(src@, i + 8);
                }
                let ghost mid = rewrite_models(self.rewrites@);
                let rw = Rewrite {
                    span: Span::new(i as u32, end as u32),
                    ty: RewriteType::Delete,
                };
                let ghost rwm = rw.model();
                self.rewrites.push(rw);
                proof {
                    assert(rewrite_models(self.rewrites@) =~= mid.push(rwm));
                    assert(rewrite_models(self.rewrites@) + pass_debugger_from(src@, end as int)
                        =~= before + pass_debugger_from(src@, 0));
                }
                i = end;
            } else {
                i = i + 1;
            }
        }
        proof {
            assert(rewrite_models(self.rewrites@) =~= before + pass_debugger_from(src@, 0));
        }
    }

    /// Source-tag pass: when source maps are wanted, one tag at position
    /// zero.
    pub fn visit_function_body(&mut self)
        ensures
            final(self).src == old(self).src,
            final(self).cfg == old(self).cfg,
            final(self).flags == old(self).flags,
            final(self).url == old(self).url,
            rewrite_models(final(self).rewrites@) == rewrite_models(old(self).rewrites@) + (
            if old(self).flags.do_sourcemaps {
                seq![source_tag_rw()]
            } else {
                Seq::<RewriteM>::empty()
            }),
    {
        let ghost before = rewrite_models(self.rewrites@);
        if self.flags.do_sourcemaps {
            let rw = Rewrite { span: Span::new(0, 0), ty: RewriteType::SourceTag };
            let ghost rwm = rw.model();
            self.rewrites.push(rw);
            proof {
                assert(rewrite_models(self.rewrites@) =~= before.push(rwm));
                assert(before.push(rwm) =~= before + seq![source_tag_rw()]);
            }
        } else {
            proof {
                assert(before + Seq::<RewriteM>::empty() =~= before);
            }
        }
    }

    // Reserved passes. They need scope and binding information that the
    // token scan does not carry; the rewrite variants they would emit are
    // fully supported by the lowering. Each leaves the visitor untouched.
    pub fn visit_assignment_expression(&mut self)
        ensures
            *final(self) == *old(self),
    {
    }

    pub fn visit_variable_declaration(&mut self)
        ensures
            *final(self) == *old(self),
    {
    }

    pub fn recurse_binding_pattern(&mut self)
        ensures
            *final(self) == *old(self),
    {
    }

    pub fn visit_function(&mut self)
        ensures
            *final(self) == *old(self),
    {
    }

    pub fn visit_arrow_function_expression(&mut self)
        ensures
            *final(self) == *old(self),
    {
    }

    pub fn visit_call_expression(&mut self)
        ensures
            *final(self) == *old(self),
    {
    }

    pub fn visit_unary_expression(&mut self)
        ensures
            *final(self) == *old(self),
    {
    }

    pub fn visit_update_expression(&mut self)
        ensures
            *final(self) == *old(self),
    {
    }

    pub fn visit_import_declaration(&mut self)
        ensures
            *final(self) == *old(self),
    {
    }

    pub fn visit_export_all_declaration(&mut self)
        ensures
            *final(self) == *old(self),
    {
    }

    pub fn visit_export_named_declaration(&mut self)
        ensures
            *final(self) == *old(self),
    {
    }

    pub fn visit_try_statement(&mut self)
        ensures
            *final(self) == *old(self),
    {
    }

    pub fn visit_for_of_statement(&mut self)
        ensures
            *final(self) == *old(self),
    {
    }

    pub fn visit_for_in_statement(&mut self)
        ensures
            *final(self) == *old(self),
    {
    }

    pub fn visit_for_statement(&mut self)
        ensures
            *final(self) == *old(self),
    {
    }

    pub fn handle_for_of_in(&mut self)
        ensures
            *final(self) == *old(self),
    {
    }

    /// Run the fixed passes in their fixed order and hand back everything
    /// emitted.
    #[verifier::rlimit(60)]
    pub fn run(self) -> (rws: Vec<Rewrite>)
        requires
            self.src@.len() <= u32::MAX,
        ensures
            rewrite_models(rws@) == rewrite_models(self.rewrites@) + visit_model(
                self.src@,
                self.flags.do_sourcemaps,
            ),
    {
        let mut v = self;
        v.visit_identifier_reference();
        v.visit_member_expression();
        v.visit_import_expression();
        v.visit_meta_property();
        v.visit_debugger_statement();
        v.visit_function_body();
        proof {
            assert(rewrite_models(v.rewrites@) =~= rewrite_models(self.rewrites@) + visit_model(
                self.src@,
                self.flags.do_sourcemaps,
            ));
        }
        v.rewrites
    }
}

/// Scan for the bracket that balances one opening bracket, starting at
/// `from` with depth one; yields the position after it and whether it was
/// found at all.
fn bracket_scan(src: &[u8], from: usize) -> (r: (usize, bool))
    requires
        1 <= from <= src@.len(),
    ensures
        r.0 as int == scan_close(src@, from as int, 1),
        r.1 == scan_found(src@, from as int, 1),
{
    let n = src.len();
    let mut i: usize = from;
    let mut depth: usize = 1;
    while i < n && depth > 0
        invariant
            1 <= from <= i <= n,
            n == src@.len(),
            depth <= i - from + 1,
            scan_close(src@, from as int, 1) == if depth == 0 {
                i as int
            } else {
                scan_close(src@, i as int, depth as int)
            },
            scan_found(src@, from as int, 1) == if depth == 0 {
                true
            } else {
                scan_found(src@, i as int, depth as int)
            },
        decreases n - i,
    {
        let c = src[i];
        if c == 91 {
            depth = depth + 1;
        } else if c == 93 {
            depth = depth - 1;
        }
        i = i + 1;
    }
    (i, depth == 0)
}

/// End of a debugger statement: skip whitespace, take one `;` if present.
fn statement_end(src: &[u8], from: usize) -> (r: usize)
    requires
        from <= src@.len(),
    ensures
        r as int == debugger_end(src@, from as int),
{
    let n = src.len();
    let mut i: usize = from;
    while i < n
        invariant
            from <= i <= n,
            n == src@.len(),
            debugger_end(src@, from as int) == debugger_end(src@, i as int),
        decreases n - i,
    {
        let c = src[i];
        if c == 59 {
            return i + 1;
        }
        if !(c == 32 || c == 9 || c == 13 || c == 10) {
            return i;
        }
        i = i + 1;
    }
    i
}


/// With no triggered token, the identifier pass emits nothing.
pub proof fn lemma_pass_idents_empty(toks: Seq<TokenM>, i: int)
    requires
        forall|k: int| 0 <= k < toks.len() ==> !ident_trigger(#[trigger] toks[k]),
    ensures
        pass_idents_from(toks, i) == Seq::<RewriteM>::empty(),
    decreases toks.len() - i,
{
    if 0 <= i < toks.len() {
        lemma_pass_idents_empty(toks, i + 1);
        assert(pass_idents_from(toks, i) =~= Seq::<RewriteM>::empty());
    }
}

/// With no member trigger, the member pass emits nothing.
pub proof fn lemma_pass_members_empty(toks: Seq<TokenM>, i: int)
    requires
        forall|k: int|
            0 <= k < toks.len() ==> member_rw(#[trigger] toks[k]) == Seq::<RewriteM>::empty(),
    ensures
        pass_members_from(toks, i) == Seq::<RewriteM>::empty(),
    decreases toks.len() - i,
{
    if 0 <= i < toks.len() {
        lemma_pass_members_empty(toks, i + 1);
        assert(pass_members_from(toks, i) =~= Seq::<RewriteM>::empty());
    }
}

/// With no balanced non-empty bracket region, the computed-member pass
/// emits nothing.
pub proof fn lemma_pass_brackets_empty(src: Seq<u8>, i: int)
    requires
        0 <= i,
        forall|p: int|
            0 <= p < src.len() && src[p] == 91 ==> !((#[trigger] scan_found(src, p + 1, 1)) && p
                + 1 < scan_close(src, p + 1, 1) - 1),
    ensures
        pass_brackets_from(src, i) == Seq::<RewriteM>::empty(),
    decreases src.len() - i,
{
    if i < src.len() {
        if src[i] == 91 {
            lemma_scan_close_bounds(src, i + 1, 1);
            lemma_pass_brackets_empty(src, scan_close(src, i + 1, 1));
            assert(pass_brackets_from(src, i) =~= Seq::<RewriteM>::empty());
        } else {
            lemma_pass_brackets_empty(src, i + 1);
        }
    }
}

/// With no triggered token, the import pass emits nothing.
pub proof fn lemma_pass_imports_empty(src: Seq<u8>, toks: Seq<TokenM>, i: int)
    requires
        forall|k: int| 0 <= k < toks.len() ==> !import_trigger(#[trigger] toks[k]),
    ensures
        pass_imports_from(src, toks, i) == Seq::<RewriteM>::empty(),
    decreases toks.len() - i,
{
    if 0 <= i < toks.len() {
        lemma_pass_imports_empty(src, toks, i + 1);
        assert(pass_imports_from(src, toks, i) =~= Seq::<RewriteM>::empty());
    }
}

/// With no `import.meta` occurrence, the meta pass emits nothing.
pub proof fn lemma_pass_meta_empty(src: Seq<u8>, i: int)
    requires
        0 <= i,
        forall|p: int| !(#[trigger] meta_at(src, p)),
    ensures
        pass_meta_from(src, i) == Seq::<RewriteM>::empty(),
    decreases src.len() - i,
{
    if i < src.len() {
        lemma_pass_meta_empty(src, i + 1);
    }
}

/// With no `debugger` occurrence, the debugger pass emits nothing.
pub proof fn lemma_pass_debugger_empty(src: Seq<u8>, i: int)
    requires
        0 <= i,
        forall|p: int| !(#[trigger] debugger_at(src, p)),
    ensures
        pass_debugger_from(src, i) == Seq::<RewriteM>::empty(),
    decreases src.len() - i,
{
    if i < src.len() {
        lemma_pass_debugger_empty(src, i + 1);
    }
}

} // verus!
