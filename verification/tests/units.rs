//! Unit tests: the lowering table, the scanner, the transformer's
//! tolerance for conflicting spans, and the configuration defaults.

use webrascal_rewriter::cfg::{Config, Flags, UrlRewriter};
use webrascal_rewriter::changes::{JsChange, JsChangeType};
use webrascal_rewriter::native::{NativeRewriter, NativeUrlRewriter};
use webrascal_rewriter::rewrite::{AssignmentOp, Rewrite, RewriteType};
use webrascal_rewriter::span::Span;
use webrascal_rewriter::tokens::{find_next_non_ws, find_prev_non_ws, is_ident_start, tokenize};
use webrascal_rewriter::transform::{render_elements, u32_decimal, TransformElement, Transformer};
use webrascal_rewriter::utf8::is_valid_utf8;

fn payload(c: &JsChange) -> (u32, u32, &'static str, Vec<u8>) {
    let (kind, p) = match &c.ty {
        JsChangeType::InsertLeft(v) => ("left", v.clone()),
        JsChangeType::InsertRight(v) => ("right", v.clone()),
        JsChangeType::WrapFnRight(v) => ("wrapright", v.clone()),
        JsChangeType::RascalErrFn(v) => ("error", v.clone()),
        JsChangeType::Replace(v) => ("replace", v.clone()),
    };
    (c.span.start, c.span.end, kind, p)
}

fn lower(span: Span, ty: RewriteType) -> Vec<(u32, u32, &'static str, Vec<u8>)> {
    let cfg = Config::default();
    Rewrite { span, ty }
        .into_inner(&cfg)
        .iter()
        .map(payload)
        .collect()
}

#[test]
fn lowers_wrap_fn_enclosed() {
    let got = lower(Span::new(5, 9), RewriteType::WrapFn { enclose: true });
    assert_eq!(
        got,
        vec![
            (5, 5, "left", b"($webrascal$wrap(".to_vec()),
            (9, 9, "wrapright", b"))".to_vec()),
        ]
    );
}

#[test]
fn lowers_rebind_property() {
    let got = lower(
        Span::new(0, 3),
        RewriteType::RebindProperty { ident: b"top".to_vec(), tempvar: true },
    );
    assert_eq!(
        got,
        vec![(0, 3, "replace", b"$webrascal__top: $webrascal$temploc".to_vec())]
    );
    let got = lower(
        Span::new(0, 3),
        RewriteType::RebindProperty { ident: b"top".to_vec(), tempvar: false },
    );
    assert_eq!(got, vec![(0, 3, "replace", b"$webrascal__top: top".to_vec())]);
}

#[test]
fn lowers_temp_var() {
    let got = lower(Span::new(1, 4), RewriteType::TempVar);
    assert_eq!(got, vec![(1, 4, "replace", b"$webrascal$temploc".to_vec())]);
}

#[test]
fn lowers_wrap_object_assignment() {
    let got = lower(
        Span::new(2, 8),
        RewriteType::WrapObjectAssignment {
            restids: vec![b"a".to_vec(), b"b".to_vec()],
            location_assigned: true,
        },
    );
    let left = b"((t)=>($webrascal$clean(a), $webrascal$clean(b), \
$webrascal$tryset(location, \"=\", t)||(location=t)))("
        .to_vec();
    assert_eq!(
        got,
        vec![(2, 2, "left", left), (8, 8, "right", b")".to_vec())]
    );
}

#[test]
fn lowers_rascal_err_and_rascalitize() {
    let got = lower(Span::new(3, 7), RewriteType::RascalErr { ident: b"top".to_vec() });
    assert_eq!(got, vec![(3, 3, "error", b"$rascalerr(top);".to_vec())]);
    let got = lower(Span::new(3, 7), RewriteType::Rascalitize);
    assert_eq!(
        got,
        vec![
            (3, 3, "left", b"$rascalitize(".to_vec()),
            (7, 7, "right", b")".to_vec()),
        ]
    );
}

#[test]
fn lowers_eval_around_inner_span() {
    let got = lower(Span::new(0, 12), RewriteType::Eval { inner: Span::new(4, 8) });
    assert_eq!(
        got,
        vec![
            (4, 4, "left", b"$webrascal$rewrite(".to_vec()),
            (8, 8, "right", b")".to_vec()),
        ]
    );
}

#[test]
fn lowers_assignment_with_rhs_bytes() {
    let got = lower(
        Span::new(0, 14),
        RewriteType::Assignment {
            name: b"location".to_vec(),
            rhs: Span::new(11, 14),
            rhs_text: b"v+1".to_vec(),
            op: AssignmentOp::Assign,
        },
    );
    let expected =
        b"((t)=>$webrascal$tryset(location,\"=\",t)||(location=t))(v+1)".to_vec();
    assert_eq!(got, vec![(0, 14, "replace", expected)]);
}

#[test]
fn lowers_shorthand_object() {
    let got = lower(Span::new(1, 4), RewriteType::ShorthandObj { name: b"top".to_vec() });
    assert_eq!(
        got,
        vec![(1, 4, "replace", b"top: $webrascal$wrap(top)".to_vec())]
    );
}

#[test]
fn lowers_clean_function_forms() {
    let body = b"$webrascal$clean(r);$webrascal$tryset(location,\"=\",\
$webrascal$temploc)||(location=$webrascal$temploc);"
        .to_vec();
    let expr = lower(
        Span::new(0, 9),
        RewriteType::CleanFunction {
            restids: vec![b"r".to_vec()],
            expression: true,
            location_assigned: true,
            wrap: false,
        },
    );
    let mut left = b"(".to_vec();
    left.extend_from_slice(&body);
    left.push(b',');
    assert_eq!(
        expr,
        vec![(0, 0, "left", left), (9, 9, "right", b")".to_vec())]
    );
    let wrapped = lower(
        Span::new(0, 9),
        RewriteType::CleanFunction {
            restids: vec![b"r".to_vec()],
            expression: false,
            location_assigned: true,
            wrap: true,
        },
    );
    let mut left = b"{".to_vec();
    left.extend_from_slice(&body);
    assert_eq!(
        wrapped,
        vec![(0, 0, "left", left), (9, 9, "right", b"}".to_vec())]
    );
    let stmt = lower(
        Span::new(0, 9),
        RewriteType::CleanFunction {
            restids: vec![b"r".to_vec()],
            expression: false,
            location_assigned: true,
            wrap: false,
        },
    );
    let mut left = b";".to_vec();
    left.extend_from_slice(&body);
    assert_eq!(stmt, vec![(0, 0, "left", left)]);
}

#[test]
fn lowers_clean_variable_declaration() {
    let got = lower(
        Span::new(0, 9),
        RewriteType::CleanVariableDeclaration {
            restids: vec![b"r".to_vec()],
            location_assigned: false,
        },
    );
    assert_eq!(
        got,
        vec![(9, 9, "right", b", $webrascal$tempunused = ($webrascal$clean(r),, 0)".to_vec())]
    );
}

#[test]
fn lowers_source_tag_into_leading_band() {
    let got = lower(Span::new(7, 7), RewriteType::SourceTag);
    assert_eq!(
        got,
        vec![(7, 7, "error", b"/*rascaltag 7 /webrascal/*/".to_vec())]
    );
}

#[test]
fn renders_decimal_elements() {
    assert_eq!(u32_decimal(0), b"0".to_vec());
    assert_eq!(u32_decimal(120), b"120".to_vec());
    assert_eq!(u32_decimal(4294967295), b"4294967295".to_vec());
    let v = render_elements(vec![
        TransformElement::Str(b"x".to_vec()),
        TransformElement::U32(120),
    ]);
    assert_eq!(v, b"x120".to_vec());
}

#[test]
fn priority_bands_order_edits_at_one_anchor() {
    let mut t = Transformer::default();
    t.add(JsChange::insert_right(Span::new(0, 0), b"R".to_vec()));
    t.add(JsChange::insert_left(Span::new(0, 0), b"L".to_vec()));
    t.add(JsChange::wrap_fn_right(Span::new(0, 0), b"W".to_vec()));
    t.add(JsChange::error_marker(Span::new(0, 0), b"E".to_vec()));
    let out = t.perform(b"s");
    assert_eq!(out.output, b"EWLRs".to_vec());
}

#[test]
fn transformer_drops_conflicting_spans() {
    let mut t = Transformer::default();
    t.add(JsChange::replace(Span::new(0, 3), b"X".to_vec()));
    t.add(JsChange::replace(Span::new(2, 4), b"Y".to_vec()));
    let out = t.perform(b"abcdef");
    assert_eq!(out.output, b"Xdef".to_vec());
    assert_eq!(out.records.len(), 1);
}

#[test]
fn transformer_drops_out_of_range_spans() {
    let mut t = Transformer::default();
    t.add(JsChange::replace(Span::new(0, 100), b"X".to_vec()));
    let out = t.perform(b"abc");
    assert_eq!(out.output, b"abc".to_vec());
    assert!(out.records.is_empty());
    assert!(t.is_empty());
}

#[test]
fn scanner_reports_adjacency() {
    let toks = tokenize(b"var  location = eval");
    let texts: Vec<Vec<u8>> = toks.iter().map(|t| t.text.clone()).collect();
    assert_eq!(texts, vec![b"var".to_vec(), b"location".to_vec(), b"eval".to_vec()]);
    assert_eq!(toks[1].prev_token, Some(b"var".to_vec()));
    assert_eq!(toks[1].next_non_ws, Some(b'='));
    assert_eq!(toks[2].prev_token, None);
    assert_eq!(toks[2].prev_non_ws, Some(b'='));
    assert_eq!(toks[0].prev_non_ws, None);
    assert_eq!((toks[1].start, toks[1].end), (5, 13));
}

#[test]
fn scanner_skips_strings_and_comments() {
    let toks = tokenize(b"'a b' x /* y */ `z \\` w` q // t\nv");
    let texts: Vec<Vec<u8>> = toks.iter().map(|t| t.text.clone()).collect();
    assert_eq!(texts, vec![b"x".to_vec(), b"q".to_vec(), b"v".to_vec()]);
}

#[test]
fn adjacency_helpers() {
    assert!(is_ident_start(b'$'));
    assert!(is_ident_start(b'_'));
    assert!(!is_ident_start(b'1'));
    assert_eq!(find_prev_non_ws(b"a  ", 3), Some(b'a'));
    assert_eq!(find_prev_non_ws(b"   ", 3), None);
    assert_eq!(find_next_non_ws(b"  b", 0), Some(b'b'));
    assert_eq!(find_next_non_ws(b"  ", 0), None);
}

#[test]
fn utf8_check_agrees_with_std() {
    let cases: Vec<Vec<u8>> = vec![
        b"plain ascii".to_vec(),
        "héllo \u{1F600} \u{0800}".as_bytes().to_vec(),
        vec![0xc0, 0x80],
        vec![0xed, 0xa0, 0x80],
        vec![0xf4, 0x90, 0x80, 0x80],
        vec![0xe2, 0x82],
        vec![0x80],
        vec![0xff],
        vec![],
    ];
    for c in cases {
        assert_eq!(is_valid_utf8(&c), std::str::from_utf8(&c).is_ok());
    }
}

#[test]
fn config_defaults_name_the_shim() {
    let cfg = Config::default();
    assert_eq!(cfg.prefix, b"/webrascal/".to_vec());
    assert_eq!(cfg.wrapfn, b"$webrascal$wrap".to_vec());
    assert_eq!(cfg.wrappropertybase, b"$webrascal__".to_vec());
    assert_eq!(cfg.wrappropertyfn, b"$webrascal$prop".to_vec());
    assert_eq!(cfg.cleanrestfn, b"$webrascal$clean".to_vec());
    assert_eq!(cfg.importfn, b"$webrascal$import".to_vec());
    assert_eq!(cfg.rewritefn, b"$webrascal$rewrite".to_vec());
    assert_eq!(cfg.setrealmfn, b"$webrascal$setrealm".to_vec());
    assert_eq!(cfg.metafn, b"$webrascal$meta".to_vec());
    assert_eq!(cfg.pushsourcemapfn, b"$webrascal$pushsourcemap".to_vec());
    assert_eq!(cfg.trysetfn, b"$webrascal$tryset".to_vec());
    assert_eq!(cfg.templocid, b"$webrascal$temploc".to_vec());
    assert_eq!(cfg.tempunusedid, b"$webrascal$tempunused".to_vec());
}

#[test]
fn flags_defaults() {
    let f = Flags::default();
    assert_eq!(f.base, "about:blank".to_string());
    assert_eq!(f.sourcetag, "default".to_string());
    assert!(!f.is_module);
    assert!(!f.capture_errors);
    assert!(!f.rascalitize);
    assert!(f.do_sourcemaps);
    assert!(f.strict_rewrites);
    assert!(f.destructure_rewrites);
}

#[test]
fn native_url_rewriter_prepends_prefix() {
    let cfg = Config::default();
    let flags = Flags::default();
    let mut builder = b"q=".to_vec();
    let r = NativeUrlRewriter.rewrite(&cfg, &flags, b"https://x/y", &mut builder, false);
    assert!(r.is_ok());
    assert_eq!(builder, b"q=/webrascal/https://x/y".to_vec());
}

#[test]
fn native_rewriter_tags_and_wraps() {
    let mut rw = NativeRewriter::new();
    let res = rw
        .rewrite(b"location", "https://example.com/".to_string(), "x.js".to_string(), false)
        .unwrap();
    assert_eq!(
        res.js,
        b"/*rascaltag 0 /webrascal/*/$webrascal$wrap(location)".to_vec()
    );
    assert!(rw.rewrite(&[0xff], "b".to_string(), "u".to_string(), false).is_err());
}

#[test]
fn parser_diagnostics_are_collected() {
    let mut rw = NativeRewriter::new();
    let res = rw
        .rewrite(b"var 1x = ;", "https://example.com/".to_string(), "x.js".to_string(), false)
        .unwrap();
    assert!(!res.errors.is_empty());
    let clean = rw
        .rewrite(b"var x = 1;", "https://example.com/".to_string(), "y.js".to_string(), false)
        .unwrap();
    assert!(clean.errors.is_empty());
}
