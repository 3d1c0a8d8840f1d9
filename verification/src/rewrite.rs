//! Semantic rewrites and their lowering to primitive changes.
//!
//! A rewrite is one high-level edit against a span of the source: wrap a
//! reference, redirect a property, intercept a dynamic import, and so on.
//! Lowering is a pure function from a rewrite and the configuration to one
//! or two changes; the shim identifier names come from the configuration
//! alone, so the visitor never needs to know them.

use vstd::prelude::*;

use crate::cfg::{lit, Config, ConfigM};
use crate::changes::{models, ChangeM, JsChange};
use crate::span::Span;
use crate::transform::spec_decimal;
use crate::transform::u32_decimal;

verus! {

/// Assignment operators a wrap-assignment rewrite may carry. The operator
/// is reserved for future differentiation; lowering treats them alike.
#[derive(Debug, Clone, Copy, PartialEq, Eq, Structural)]
pub enum AssignmentOp {
    Assign,
    AddAssign,
    SubAssign,
    MulAssign,
    DivAssign,
}

/// The closed set of semantic edits the visitor can emit.
#[derive(Debug, Clone)]
pub enum RewriteType {
    /// Wrap a reference in a call of the wrap function, optionally
    /// enclosing the whole call in parentheses.
    WrapFn { enclose: bool },
    /// Replace a `postMessage` property name with a set-realm call.
    SetRealmFn,
    /// Replace a dynamic `import` callee with the import function.
    ImportFn,
    /// Replace `import.meta` with a meta-function call.
    MetaFn,
    /// Replace an unsafe property name with its prefixed form.
    RewriteProperty { ident: Vec<u8> },
    /// Replace a shorthand binding with a prefixed property binding.
    RebindProperty { ident: Vec<u8>, tempvar: bool },
    /// Replace a binding with the temporary location identifier.
    TempVar,
    /// Wrap an object assignment so rest identifiers are cleaned and a
    /// location assignment goes through the try-set function.
    WrapObjectAssignment { restids: Vec<Vec<u8>>, location_assigned: bool },
    /// Wrap a computed member expression in the property-wrap function.
    WrapProperty,
    /// Error marker naming the offending identifier.
    RascalErr { ident: Vec<u8> },
    /// Wrap the whole span in the rascalitize function.
    Rascalitize,
    /// Wrap the inner span of an eval argument in the rewrite function.
    Eval { inner: Span },
    /// Replace an assignment with a try-set call applied to the bytes of
    /// its right-hand side.
    Assignment { name: Vec<u8>, rhs: Span, rhs_text: Vec<u8>, op: AssignmentOp },
    /// Replace a shorthand object member with an explicit wrapped value.
    ShorthandObj { name: Vec<u8> },
    /// Tag the output with a source-map comment.
    SourceTag,
    /// Prepend clean-up calls to a function body.
    CleanFunction {
        restids: Vec<Vec<u8>>,
        expression: bool,
        location_assigned: bool,
        wrap: bool,
    },
    /// Append clean-up calls to a variable declaration.
    CleanVariableDeclaration { restids: Vec<Vec<u8>>, location_assigned: bool },
    /// Replace the span with the given bytes.
    Replace { text: Vec<u8> },
    /// Delete the span.
    Delete,
}

/// A semantic edit: a span of the original source and what to do with it.
#[derive(Debug, Clone)]
pub struct Rewrite {
    pub span: Span,
    pub ty: RewriteType,
}

/// Mathematical image of a rewrite.
pub enum RewriteTypeM {
    WrapFn { enclose: bool },
    SetRealmFn,
    ImportFn,
    MetaFn,
    RewriteProperty { ident: Seq<u8> },
    RebindProperty { ident: Seq<u8>, tempvar: bool },
    TempVar,
    WrapObjectAssignment { restids: Seq<Seq<u8>>, location_assigned: bool },
    WrapProperty,
    RascalErr { ident: Seq<u8> },
    Rascalitize,
    Eval { inner: Span },
    Assignment { name: Seq<u8>, rhs: Span, rhs_text: Seq<u8>, op: AssignmentOp },
    ShorthandObj { name: Seq<u8> },
    SourceTag,
    CleanFunction {
        restids: Seq<Seq<u8>>,
        expression: bool,
        location_assigned: bool,
        wrap: bool,
    },
    CleanVariableDeclaration { restids: Seq<Seq<u8>>, location_assigned: bool },
    Replace { text: Seq<u8> },
    Delete,
}

pub struct RewriteM {
    pub span: Span,
    pub ty: RewriteTypeM,
}

/// Byte strings of a list of identifiers.
pub open spec fn deep_bytes(s: Seq<Vec<u8>>) -> Seq<Seq<u8>> {
    s.map_values(|v: Vec<u8>| v@)
}

impl Rewrite {
    pub open spec fn model(&self) -> RewriteM {
        RewriteM {
            span: self.span,
            ty: match self.ty {
                RewriteType::WrapFn { enclose } => RewriteTypeM::WrapFn { enclose },
                RewriteType::SetRealmFn => RewriteTypeM::SetRealmFn,
                RewriteType::ImportFn => RewriteTypeM::ImportFn,
                RewriteType::MetaFn => RewriteTypeM::MetaFn,
                RewriteType::RewriteProperty { ref ident } => RewriteTypeM::RewriteProperty {
                    ident: ident@,
                },
                RewriteType::RebindProperty { ref ident, tempvar } => {
                    RewriteTypeM::RebindProperty { ident: ident@, tempvar }
                },
                RewriteType::TempVar => RewriteTypeM::TempVar,
                RewriteType::WrapObjectAssignment { ref restids, location_assigned } => {
                    RewriteTypeM::WrapObjectAssignment {
                        restids: deep_bytes(restids@),
                        location_assigned,
                    }
                },
                RewriteType::WrapProperty => RewriteTypeM::WrapProperty,
                RewriteType::RascalErr { ref ident } => RewriteTypeM::RascalErr { ident: ident@ },
                RewriteType::Rascalitize => RewriteTypeM::Rascalitize,
                RewriteType::Eval { inner } => RewriteTypeM::Eval { inner },
                RewriteType::Assignment { ref name, rhs, ref rhs_text, op } => {
                    RewriteTypeM::Assignment { name: name@, rhs, rhs_text: rhs_text@, op }
                },
                RewriteType::ShorthandObj { ref name } => RewriteTypeM::ShorthandObj {
                    name: name@,
                },
                RewriteType::SourceTag => RewriteTypeM::SourceTag,
                RewriteType::CleanFunction {
                    ref restids,
                    expression,
                    location_assigned,
                    wrap,
                } => RewriteTypeM::CleanFunction {
                    restids: deep_bytes(restids@),
                    expression,
                    location_assigned,
                    wrap,
                },
                RewriteType::CleanVariableDeclaration { ref restids, location_assigned } => {
                    RewriteTypeM::CleanVariableDeclaration {
                        restids: deep_bytes(restids@),
                        location_assigned,
                    }
                },
                RewriteType::Replace { ref text } => RewriteTypeM::Replace { text: text@ },
                RewriteType::Delete => RewriteTypeM::Delete,
            },
        }
    }
}

pub open spec fn rewrite_models(s: Seq<Rewrite>) -> Seq<RewriteM> {
    s.map_values(|r: Rewrite| r.model())
}

// Change images anchored on a span, mirroring the change constructors.
pub open spec fn m_insert_left(sp: Span, p: Seq<u8>) -> ChangeM {
    ChangeM { start: sp.start as int, end: sp.start as int, tag: 2, payload: p }
}

pub open spec fn m_insert_right(sp: Span, p: Seq<u8>) -> ChangeM {
    ChangeM { start: sp.end as int, end: sp.end as int, tag: 3, payload: p }
}

pub open spec fn m_wrap_right(sp: Span, p: Seq<u8>) -> ChangeM {
    ChangeM { start: sp.end as int, end: sp.end as int, tag: 1, payload: p }
}

pub open spec fn m_error(sp: Span, p: Seq<u8>) -> ChangeM {
    ChangeM { start: sp.start as int, end: sp.start as int, tag: 0, payload: p }
}

pub open spec fn m_replace(sp: Span, p: Seq<u8>) -> ChangeM {
    ChangeM { start: sp.start as int, end: sp.end as int, tag: 4, payload: p }
}

/// Clean-up calls joined with `, `: `f(a), f(b)`.
pub open spec fn cleans_join_from(ids: Seq<Seq<u8>>, cfn: Seq<u8>, i: int) -> Seq<u8>
    decreases ids.len() - i,
{
    if i < 0 || i >= ids.len() {
        Seq::empty()
    } else {
        (if i > 0 {
            lit(", ")
        } else {
            Seq::empty()
        }) + cfn + lit("(") + ids[i] + lit(")") + cleans_join_from(ids, cfn, i + 1)
    }
}

/// Clean-up calls as statements: `f(a);f(b);`.
pub open spec fn clean_stmts_from(ids: Seq<Seq<u8>>, cfn: Seq<u8>, i: int) -> Seq<u8>
    decreases ids.len() - i,
{
    if i < 0 || i >= ids.len() {
        Seq::empty()
    } else {
        cfn + lit("(") + ids[i] + lit(");") + clean_stmts_from(ids, cfn, i + 1)
    }
}

/// Clean-up calls chained by commas: `f(a),f(b),`.
pub open spec fn clean_commas_from(ids: Seq<Seq<u8>>, cfn: Seq<u8>, i: int) -> Seq<u8>
    decreases ids.len() - i,
{
    if i < 0 || i >= ids.len() {
        Seq::empty()
    } else {
        cfn + lit("(") + ids[i] + lit("),") + clean_commas_from(ids, cfn, i + 1)
    }
}

/// The guarded location assignment as a statement, ending in `;`.
pub open spec fn loc_guard_stmt(cfg: ConfigM) -> Seq<u8> {
    cfg.trysetfn + lit("(location,\"=\",") + cfg.templocid + lit(")||(location=")
        + cfg.templocid + lit(");")
}

/// The guarded location assignment as a comma-chained expression.
pub open spec fn loc_guard_comma(cfg: ConfigM) -> Seq<u8> {
    cfg.trysetfn + lit("(location,\"=\",") + cfg.templocid + lit(")||(location=")
        + cfg.templocid + lit("),")
}

/// The deterministic lowering of one rewrite to its changes, following
/// the variant table of the design: which shim names are pasted where.
pub open spec fn lower_m(rw: RewriteM, cfg: ConfigM) -> Seq<ChangeM> {
    match rw.ty {
        RewriteTypeM::WrapFn { enclose } => seq![
            m_insert_left(
                rw.span,
                if enclose {
                    lit("(") + cfg.wrapfn + lit("(")
                } else {
                    cfg.wrapfn + lit("(")
                },
            ),
            m_wrap_right(
                rw.span,
                if enclose {
                    lit("))")
                } else {
                    lit(")")
                },
            ),
        ],
        RewriteTypeM::SetRealmFn => seq![
            m_replace(rw.span, cfg.setrealmfn + lit("({}).postMessage")),
        ],
        RewriteTypeM::ImportFn => seq![
            m_replace(rw.span, cfg.importfn + lit("(\"") + cfg.prefix + lit("\",")),
        ],
        RewriteTypeM::MetaFn => seq![
            m_replace(rw.span, cfg.metafn + lit("(import.meta, \"") + cfg.prefix + lit("\")")),
        ],
        RewriteTypeM::RewriteProperty { ident } => seq![
            m_replace(rw.span, cfg.wrappropertybase + ident),
        ],
        RewriteTypeM::RebindProperty { ident, tempvar } => seq![
            m_replace(
                rw.span,
                cfg.wrappropertybase + ident + lit(": ") + if tempvar {
                    cfg.templocid
                } else {
                    ident
                },
            ),
        ],
        RewriteTypeM::TempVar => seq![m_replace(rw.span, cfg.templocid)],
        RewriteTypeM::WrapObjectAssignment { restids, location_assigned } => seq![
            m_insert_left(
                rw.span,
                lit("((t)=>(") + cleans_join_from(restids, cfg.cleanrestfn, 0) + (
                if location_assigned {
                    lit(", ") + cfg.trysetfn + lit("(location, \"=\", t)||(location=t)")
                } else {
                    Seq::empty()
                }) + lit("))("),
            ),
            m_insert_right(rw.span, lit(")")),
        ],
        RewriteTypeM::WrapProperty => seq![
            m_insert_left(rw.span, cfg.wrappropertyfn + lit("(")),
            m_insert_right(rw.span, lit(")")),
        ],
        RewriteTypeM::RascalErr { ident } => seq![
            m_error(rw.span, lit("$rascalerr(") + ident + lit(");")),
        ],
        RewriteTypeM::Rascalitize => seq![
            m_insert_left(rw.span, lit("$rascalitize(")),
            m_insert_right(rw.span, lit(")")),
        ],
        RewriteTypeM::Eval { inner } => seq![
            m_insert_left(inner, cfg.rewritefn + lit("(")),
            m_insert_right(inner, lit(")")),
        ],
        RewriteTypeM::Assignment { name, rhs, rhs_text, op } => seq![
            m_replace(
                rw.span,
                lit("((t)=>") + cfg.trysetfn + lit("(") + name + lit(",\"=\",t)||(") + name + lit(
                    "=t))(",
                ) + rhs_text + lit(")"),
            ),
        ],
        RewriteTypeM::ShorthandObj { name } => seq![
            m_replace(rw.span, name + lit(": ") + cfg.wrapfn + lit("(") + name + lit(")")),
        ],
        // the tag takes the error-marker band so that it sorts ahead of
        // every other edit anchored at the same byte and lands at output
        // offset zero
        RewriteTypeM::SourceTag => seq![
            m_error(
                rw.span,
                lit("/*rascaltag ") + spec_decimal(rw.span.start as int) + lit(" ") + cfg.prefix
                    + lit("*/"),
            ),
        ],
        RewriteTypeM::CleanFunction { restids, expression, location_assigned, wrap } => {
            let body = clean_stmts_from(restids, cfg.cleanrestfn, 0) + (if location_assigned {
                loc_guard_stmt(cfg)
            } else {
                Seq::empty()
            });
            if expression {
                seq![
                    m_insert_left(rw.span, lit("(") + body + lit(",")),
                    m_insert_right(rw.span, lit(")")),
                ]
            } else if wrap {
                seq![
                    m_insert_left(rw.span, lit("{") + body),
                    m_insert_right(rw.span, lit("}")),
                ]
            } else {
                seq![m_insert_left(rw.span, lit(";") + body)]
            }
        },
        RewriteTypeM::CleanVariableDeclaration { restids, location_assigned } => {
            let suffix = clean_commas_from(restids, cfg.cleanrestfn, 0) + (if location_assigned {
                loc_guard_comma(cfg)
            } else {
                Seq::empty()
            });
            seq![
                m_insert_right(
                    rw.span,
                    lit(", ") + cfg.tempunusedid + lit(" = (") + suffix + lit(", 0)"),
                ),
            ]
        },
        RewriteTypeM::Replace { text } => seq![m_replace(rw.span, text)],
        RewriteTypeM::Delete => seq![m_replace(rw.span, Seq::empty())],
    }
}

/// Append the UTF-8 bytes of a literal.
fn push_lit(out: &mut Vec<u8>, s: &str)
    ensures
        final(out)@ == old(out)@ + lit(s),
{
    let b = s.as_bytes();
    let n = b.len();
    crate::transform::append_bytes(out, b, 0, n);
    proof {
        assert(b@.subrange(0, n as int) =~= b@);
    }
}

/// Append a byte string.
fn push_bytes(out: &mut Vec<u8>, v: &Vec<u8>)
    ensures
        final(out)@ == old(out)@ + v@,
{
    let n = v.len();
    crate::transform::append_bytes(out, v.as_slice(), 0, n);
    proof {
        assert(v@.subrange(0, n as int) =~= v@);
    }
}

/// Append a number in decimal.
fn push_decimal(out: &mut Vec<u8>, x: u32)
    ensures
        final(out)@ == old(out)@ + spec_decimal(x as int),
{
    let d = u32_decimal(x);
    push_bytes(out, &d);
}

/// Append clean-up calls joined with `, `.
fn push_cleans_join(out: &mut Vec<u8>, ids: &Vec<Vec<u8>>, cfn: &Vec<u8>)
    ensures
        final(out)@ == old(out)@ + cleans_join_from(deep_bytes(ids@), cfn@, 0),
{
    let n = ids.len();
    let mut i: usize = 0;
    while i < n
        invariant
            i <= n,
            n == ids@.len(),
            out@ + cleans_join_from(deep_bytes(ids@), cfn@, i as int) =~= old(out)@
                + cleans_join_from(deep_bytes(ids@), cfn@, 0),
        decreases n - i,
    {
        if i > 0 {
            push_lit(out, ", ");
        }
        push_bytes(out, cfn);
        push_lit(out, "(");
        push_bytes(out, &ids[i]);
        push_lit(out, ")");
        proof {
            assert(deep_bytes(ids@)[i as int] == ids@[i as int]@);
            assert(out@ + cleans_join_from(deep_bytes(ids@), cfn@, i + 1) =~= old(out)@
                + cleans_join_from(deep_bytes(ids@), cfn@, 0));
        }
        i = i + 1;
    }
}

/// Append clean-up calls as statements.
fn push_clean_stmts(out: &mut Vec<u8>, ids: &Vec<Vec<u8>>, cfn: &Vec<u8>)
    ensures
        final(out)@ == old(out)@ + clean_stmts_from(deep_bytes(ids@), cfn@, 0),
{
    let n = ids.len();
    let mut i: usize = 0;
    while i < n
        invariant
            i <= n,
            n == ids@.len(),
            out@ + clean_stmts_from(deep_bytes(ids@), cfn@, i as int) =~= old(out)@
                + clean_stmts_from(deep_bytes(ids@), cfn@, 0),
        decreases n - i,
    {
        push_bytes(out, cfn);
        push_lit(out, "(");
        push_bytes(out, &ids[i]);
        push_lit(out, ");");
        proof {
            assert(deep_bytes(ids@)[i as int] == ids@[i as int]@);
            assert(out@ + clean_stmts_from(deep_bytes(ids@), cfn@, i + 1) =~= old(out)@
                + clean_stmts_from(deep_bytes(ids@), cfn@, 0));
        }
        i = i + 1;
    }
}

/// Append clean-up calls chained by commas.
fn push_clean_commas(out: &mut Vec<u8>, ids: &Vec<Vec<u8>>, cfn: &Vec<u8>)
    ensures
        final(out)@ == old(out)@ + clean_commas_from(deep_bytes(ids@), cfn@, 0),
{
    let n = ids.len();
    let mut i: usize = 0;
    while i < n
        invariant
            i <= n,
            n == ids@.len(),
            out@ + clean_commas_from(deep_bytes(ids@), cfn@, i as int) =~= old(out)@
                + clean_commas_from(deep_bytes(ids@), cfn@, 0),
        decreases n - i,
    {
        push_bytes(out, cfn);
        push_lit(out, "(");
        push_bytes(out, &ids[i]);
        push_lit(out, "),");
        proof {
            assert(deep_bytes(ids@)[i as int] == ids@[i as int]@);
            assert(out@ + clean_commas_from(deep_bytes(ids@), cfn@, i + 1) =~= old(out)@
                + clean_commas_from(deep_bytes(ids@), cfn@, 0));
        }
        i = i + 1;
    }
}

/// Append the guarded location assignment, closed by the given tail.
fn push_loc_guard(out: &mut Vec<u8>, cfg: &Config, tail: &str)
    ensures
        final(out)@ == old(out)@ + cfg.model().trysetfn + lit("(location,\"=\",")
            + cfg.model().templocid + lit(")||(location=") + cfg.model().templocid + lit(tail),
{
    push_bytes(out, &cfg.trysetfn);
    push_lit(out, "(location,\"=\",");
    push_bytes(out, &cfg.templocid);
    push_lit(out, ")||(location=");
    push_bytes(out, &cfg.templocid);
    push_lit(out, tail);
}

impl Rewrite {
    /// Lower this rewrite to its changes, exactly as `lower_m` describes.
    pub fn into_inner(self, cfg: &Config) -> (out: Vec<JsChange>)
        ensures
            models(out@) == lower_m(self.model(), cfg.model()),
    {
        let ghost m = self.model();
        let ghost cm = cfg.model();
        let mut out: Vec<JsChange> = Vec::new();
        let span = self.span;
        match self.ty {
            RewriteType::WrapFn { enclose } => {
                let mut left: Vec<u8> = Vec::new();
                if enclose {
                    push_lit(&mut left, "(");
                }
                push_bytes(&mut left, &cfg.wrapfn);
                push_lit(&mut left, "(");
                let right = crate::cfg::bytes_of(if enclose {
                    "))"
                } else {
                    ")"
                });
                proof {
                    if enclose {
                        assert(left@ =~= lit("(") + cm.wrapfn + lit("("));
                    } else {
                        assert(left@ =~= cm.wrapfn + lit("("));
                    }
                }
                out.push(JsChange::insert_left(span, left));
                out.push(JsChange::wrap_fn_right(span, right));
                proof {
                    assert(models(out@) =~= lower_m(m, cm));
                }
            },
            RewriteType::SetRealmFn => {
                let mut p: Vec<u8> = Vec::new();
                push_bytes(&mut p, &cfg.setrealmfn);
                push_lit(&mut p, "({}).postMessage");
                proof {
                    assert(p@ =~= cm.setrealmfn + lit("({}).postMessage"));
                }
                out.push(JsChange::replace(span, p));
                proof {
                    assert(models(out@) =~= lower_m(m, cm));
                }
            },
            RewriteType::ImportFn => {
                let mut p: Vec<u8> = Vec::new();
                push_bytes(&mut p, &cfg.importfn);
                push_lit(&mut p, "(\"");
                push_bytes(&mut p, &cfg.prefix);
                push_lit(&mut p, "\",");
                proof {
                    assert(p@ =~= cm.importfn + lit("(\"") + cm.prefix + lit("\","));
                }
                out.push(JsChange::replace(span, p));
                proof {
                    assert(models(out@) =~= lower_m(m, cm));
                }
            },
            RewriteType::MetaFn => {
                let mut p: Vec<u8> = Vec::new();
                push_bytes(&mut p, &cfg.metafn);
                push_lit(&mut p, "(import.meta, \"");
                push_bytes(&mut p, &cfg.prefix);
                push_lit(&mut p, "\")");
                proof {
                    assert(p@ =~= cm.metafn + lit("(import.meta, \"") + cm.prefix + lit("\")"));
                }
                out.push(JsChange::replace(span, p));
                proof {
                    assert(models(out@) =~= lower_m(m, cm));
                }
            },
            RewriteType::RewriteProperty { ident } => {
                let mut p: Vec<u8> = Vec::new();
                push_bytes(&mut p, &cfg.wrappropertybase);
                push_bytes(&mut p, &ident);
                proof {
                    assert(p@ =~= cm.wrappropertybase + ident@);
                }
                out.push(JsChange::replace(span, p));
                proof {
                    assert(models(out@) =~= lower_m(m, cm));
                }
            },
            RewriteType::RebindProperty { ident, tempvar } => {
                let mut p: Vec<u8> = Vec::new();
                push_bytes(&mut p, &cfg.wrappropertybase);
                push_bytes(&mut p, &ident);
                push_lit(&mut p, ": ");
                if tempvar {
                    push_bytes(&mut p, &cfg.templocid);
                    proof {
                        assert(p@ =~= cm.wrappropertybase + ident@ + lit(": ") + cm.templocid);
                    }
                } else {
                    push_bytes(&mut p, &ident);
                    proof {
                        assert(p@ =~= cm.wrappropertybase + ident@ + lit(": ") + ident@);
                    }
                }
                out.push(JsChange::replace(span, p));
                proof {
                    assert(models(out@) =~= lower_m(m, cm));
                }
            },
            RewriteType::TempVar => {
                let mut p: Vec<u8> = Vec::new();
                push_bytes(&mut p, &cfg.templocid);
                proof {
                    assert(p@ =~= cm.templocid);
                }
                out.push(JsChange::replace(span, p));
                proof {
                    assert(models(out@) =~= lower_m(m, cm));
                }
            },
            RewriteType::WrapObjectAssignment { restids, location_assigned } => {
                let mut p: Vec<u8> = Vec::new();
                push_lit(&mut p, "((t)=>(");
                push_cleans_join(&mut p, &restids, &cfg.cleanrestfn);
                if location_assigned {
                    push_lit(&mut p, ", ");
                    push_bytes(&mut p, &cfg.trysetfn);
                    push_lit(&mut p, "(location, \"=\", t)||(location=t)");
                }
                push_lit(&mut p, "))(");
                proof {
                    let cleans = cleans_join_from(deep_bytes(restids@), cm.cleanrestfn, 0);
                    if location_assigned {
                        assert(p@ =~= lit("((t)=>(") + cleans + (lit(", ") + cm.trysetfn + lit(
                            "(location, \"=\", t)||(location=t)",
                        )) + lit("))("));
                    } else {
                        assert(p@ =~= lit("((t)=>(") + cleans + Seq::<u8>::empty() + lit("))("));
                    }
                }
                out.push(JsChange::insert_left(span, p));
                out.push(JsChange::insert_right(span, crate::cfg::bytes_of(")")));
                proof {
                    assert(models(out@) =~= lower_m(m, cm));
                }
            },
            RewriteType::WrapProperty => {
                let mut p: Vec<u8> = Vec::new();
                push_bytes(&mut p, &cfg.wrappropertyfn);
                push_lit(&mut p, "(");
                proof {
                    assert(p@ =~= cm.wrappropertyfn + lit("("));
                }
                out.push(JsChange::insert_left(span, p));
                out.push(JsChange::insert_right(span, crate::cfg::bytes_of(")")));
                proof {
                    assert(models(out@) =~= lower_m(m, cm));
                }
            },
            RewriteType::RascalErr { ident } => {
                let mut p: Vec<u8> = Vec::new();
                push_lit(&mut p, "$rascalerr(");
                push_bytes(&mut p, &ident);
                push_lit(&mut p, ");");
                proof {
                    assert(p@ =~= lit("$rascalerr(") + ident@ + lit(");"));
                }
                out.push(JsChange::error_marker(span, p));
                proof {
                    assert(models(out@) =~= lower_m(m, cm));
                }
            },
            RewriteType::Rascalitize => {
                out.push(JsChange::insert_left(span, crate::cfg::bytes_of("$rascalitize(")));
                out.push(JsChange::insert_right(span, crate::cfg::bytes_of(")")));
                proof {
                    assert(models(out@) =~= lower_m(m, cm));
                }
            },
            RewriteType::Eval { inner } => {
                let mut p: Vec<u8> = Vec::new();
                push_bytes(&mut p, &cfg.rewritefn);
                push_lit(&mut p, "(");
                proof {
                    assert(p@ =~= cm.rewritefn + lit("("));
                }
                out.push(JsChange::insert_left(inner, p));
                out.push(JsChange::insert_right(inner, crate::cfg::bytes_of(")")));
                proof {
                    assert(models(out@) =~= lower_m(m, cm));
                }
            },
            RewriteType::Assignment { name, rhs, rhs_text, op } => {
                let mut p: Vec<u8> = Vec::new();
                push_lit(&mut p, "((t)=>");
                push_bytes(&mut p, &cfg.trysetfn);
                push_lit(&mut p, "(");
                push_bytes(&mut p, &name);
                push_lit(&mut p, ",\"=\",t)||(");
                push_bytes(&mut p, &name);
                push_lit(&mut p, "=t))(");
                push_bytes(&mut p, &rhs_text);
                push_lit(&mut p, ")");
                proof {
                    assert(p@ =~= lit("((t)=>") + cm.trysetfn + lit("(") + name@ + lit(
                        ",\"=\",t)||(",
                    ) + name@ + lit("=t))(") + rhs_text@ + lit(")"));
                }
                out.push(JsChange::replace(span, p));
                proof {
                    assert(models(out@) =~= lower_m(m, cm));
                }
            },
            RewriteType::ShorthandObj { name } => {
                let mut p: Vec<u8> = Vec::new();
                push_bytes(&mut p, &name);
                push_lit(&mut p, ": ");
                push_bytes(&mut p, &cfg.wrapfn);
                push_lit(&mut p, "(");
                push_bytes(&mut p, &name);
                push_lit(&mut p, ")");
                proof {
                    assert(p@ =~= name@ + lit(": ") + cm.wrapfn + lit("(") + name@ + lit(")"));
                }
                out.push(JsChange::replace(span, p));
                proof {
                    assert(models(out@) =~= lower_m(m, cm));
                }
            },
            RewriteType::SourceTag => {
                let mut p: Vec<u8> = Vec::new();
                push_lit(&mut p, "/*rascaltag ");
                push_decimal(&mut p, span.start);
                push_lit(&mut p, " ");
                push_bytes(&mut p, &cfg.prefix);
                push_lit(&mut p, "*/");
                proof {
                    assert(p@ =~= lit("/*rascaltag ") + spec_decimal(span.start as int) + lit(" ")
                        + cm.prefix + lit("*/"));
                }
                out.push(JsChange::error_marker(span, p));
                proof {
                    assert(models(out@) =~= lower_m(m, cm));
                }
            },
            RewriteType::CleanFunction { restids, expression, location_assigned, wrap } => {
                let mut body: Vec<u8> = Vec::new();
                push_clean_stmts(&mut body, &restids, &cfg.cleanrestfn);
                if location_assigned {
                    push_loc_guard(&mut body, cfg, ");");
                }
                let ghost bodym = clean_stmts_from(deep_bytes(restids@), cm.cleanrestfn, 0) + (
                if location_assigned {
                    loc_guard_stmt(cm)
                } else {
                    Seq::empty()
                });
                proof {
                    assert(body@ =~= bodym);
                }
                if expression {
                    let mut p: Vec<u8> = Vec::new();
                    push_lit(&mut p, "(");
                    push_bytes(&mut p, &body);
                    push_lit(&mut p, ",");
                    proof {
                        assert(p@ =~= lit("(") + bodym + lit(","));
                    }
                    out.push(JsChange::insert_left(span, p));
                    out.push(JsChange::insert_right(span, crate::cfg::bytes_of(")")));
                } else if wrap {
                    let mut p: Vec<u8> = Vec::new();
                    push_lit(&mut p, "{");
                    push_bytes(&mut p, &body);
                    proof {
                        assert(p@ =~= lit("{") + bodym);
                    }
                    out.push(JsChange::insert_left(span, p));
                    out.push(JsChange::insert_right(span, crate::cfg::bytes_of("}")));
                } else {
                    let mut p: Vec<u8> = Vec::new();
                    push_lit(&mut p, ";");
                    push_bytes(&mut p, &body);
                    proof {
                        assert(p@ =~= lit(";") + bodym);
                    }
                    out.push(JsChange::insert_left(span, p));
                }
                proof {
                    assert(models(out@) =~= lower_m(m, cm));
                }
            },
            RewriteType::CleanVariableDeclaration { restids, location_assigned } => {
                let mut suffix: Vec<u8> = Vec::new();
                push_clean_commas(&mut suffix, &restids, &cfg.cleanrestfn);
                if location_assigned {
                    push_loc_guard(&mut suffix, cfg, "),");
                }
                let ghost suffixm = clean_commas_from(deep_bytes(restids@), cm.cleanrestfn, 0) + (
                if location_assigned {
                    loc_guard_comma(cm)
                } else {
                    Seq::empty()
                });
                proof {
                    assert(suffix@ =~= suffixm);
                }
                let mut p: Vec<u8> = Vec::new();
                push_lit(&mut p, ", ");
                push_bytes(&mut p, &cfg.tempunusedid);
                push_lit(&mut p, " = (");
                push_bytes(&mut p, &suffix);
                push_lit(&mut p, ", 0)");
                proof {
                    assert(p@ =~= lit(", ") + cm.tempunusedid + lit(" = (") + suffixm + lit(
                        ", 0)",
                    ));
                }
                out.push(JsChange::insert_right(span, p));
                proof {
                    assert(models(out@) =~= lower_m(m, cm));
                }
            },
            RewriteType::Replace { text } => {
                out.push(JsChange::replace(span, text));
                proof {
                    assert(models(out@) =~= lower_m(m, cm));
                }
            },
            RewriteType::Delete => {
                out.push(JsChange::replace(span, Vec::new()));
                proof {
                    assert(models(out@)[0].payload =~= Seq::<u8>::empty());
                    assert(models(out@) =~= lower_m(m, cm));
                }
            },
        }
        out
    }
}

/// The changes of a whole rewrite list, in emission order, from `i` on.
pub open spec fn lower_all_from(rws: Seq<RewriteM>, cfg: ConfigM, i: int) -> Seq<ChangeM>
    decreases rws.len() - i,
{
    if i < 0 || i >= rws.len() {
        Seq::empty()
    } else {
        lower_m(rws[i], cfg) + lower_all_from(rws, cfg, i + 1)
    }
}

pub open spec fn lower_all(rws: Seq<RewriteM>, cfg: ConfigM) -> Seq<ChangeM> {
    lower_all_from(rws, cfg, 0)
}

} // verus!
