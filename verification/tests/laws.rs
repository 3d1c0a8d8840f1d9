//! Concrete checks of the universal invariants: length consistency,
//! preservation, replace reversibility, order stability, identity, and
//! the UTF-8 gate.

use webrascal_rewriter::cfg::{Config, Flags};
use webrascal_rewriter::changes::JsChange;
use webrascal_rewriter::native::NativeUrlRewriter;
use webrascal_rewriter::span::Span;
use webrascal_rewriter::transform::Transformer;
use webrascal_rewriter::{RewriteError, Rewriter};

fn flags() -> Flags {
    let mut f = Flags::default();
    f.base = "https://example.com/".to_string();
    f.do_sourcemaps = false;
    f
}

/// One decoded source-map record.
struct Rec {
    pos: usize,
    size: usize,
    replace: bool,
    original: Vec<u8>,
}

fn decode_map(map: &[u8]) -> Vec<Rec> {
    let mut recs = Vec::new();
    let count = u32::from_le_bytes(map[0..4].try_into().unwrap()) as usize;
    let mut at = 4usize;
    for _ in 0..count {
        let pos = u32::from_le_bytes(map[at..at + 4].try_into().unwrap()) as usize;
        let size = u32::from_le_bytes(map[at + 4..at + 8].try_into().unwrap()) as usize;
        let tag = map[at + 8];
        at += 9;
        let mut original = Vec::new();
        let replace = tag == 1;
        if replace {
            let olen = u32::from_le_bytes(map[at..at + 4].try_into().unwrap()) as usize;
            at += 4;
            original.extend_from_slice(&map[at..at + olen]);
            at += olen;
        }
        recs.push(Rec { pos, size, replace, original });
    }
    assert_eq!(at, map.len());
    recs
}

const SAMPLE: &str = "a.location; debugger; import.meta; obj[key]; location";

fn rewrite_sample() -> (Vec<u8>, Vec<Rec>) {
    let rewriter = Rewriter::new(Config::default(), NativeUrlRewriter);
    let res = rewriter.rewrite_bytes(SAMPLE.as_bytes(), flags()).unwrap();
    let recs = decode_map(&res.sourcemap);
    (res.js, recs)
}

#[test]
fn length_consistency() {
    let (out, recs) = rewrite_sample();
    let mut expected = SAMPLE.len() as i64;
    for r in &recs {
        expected += r.size as i64 - r.original.len() as i64;
    }
    assert_eq!(out.len() as i64, expected);
}

#[test]
fn replace_reversibility() {
    let (out, recs) = rewrite_sample();
    let mut restored = out.clone();
    for r in recs.iter().rev() {
        let mut next = Vec::new();
        next.extend_from_slice(&restored[..r.pos]);
        if r.replace {
            next.extend_from_slice(&r.original);
        }
        next.extend_from_slice(&restored[r.pos + r.size..]);
        restored = next;
    }
    assert_eq!(restored, SAMPLE.as_bytes().to_vec());
}

#[test]
fn preservation_of_untouched_bytes() {
    // every byte outside the edited spans survives; spot-check the
    // verbatim stretches around the edits
    let (out, _) = rewrite_sample();
    let text = String::from_utf8(out).unwrap();
    assert!(text.starts_with("a."));
    assert!(text.contains(";  $webrascal$meta"));
    assert!(text.contains("; obj["));
    assert!(text.contains("key"));
    assert!(text.ends_with(")"));
}

#[test]
fn order_stability_under_permutation() {
    let source = b"abcdef";
    let mk = |order: &[usize]| {
        let parts: Vec<fn() -> JsChange> = vec![
            || JsChange::insert_left(Span::new(1, 1), b"X".to_vec()),
            || JsChange::replace(Span::new(2, 4), b"YY".to_vec()),
            || JsChange::wrap_fn_right(Span::new(0, 5), b")".to_vec()),
            || JsChange::error_marker(Span::new(5, 5), b"E".to_vec()),
        ];
        let mut t = Transformer::default();
        for &i in order {
            t.add(parts[i]());
        }
        t.perform(source)
    };
    let a = mk(&[0, 1, 2, 3]);
    let b = mk(&[3, 2, 1, 0]);
    let c = mk(&[2, 0, 3, 1]);
    assert_eq!(a.output, b.output);
    assert_eq!(a.output, c.output);
    assert_eq!(a.sourcemap, b.sourcemap);
    assert_eq!(a.sourcemap, c.sourcemap);
}

#[test]
fn identity_on_clean_source() {
    let src = "var x = 1 + 2;\nfunction f(a, b) { return a + b; }\n";
    let rewriter = Rewriter::new(Config::default(), NativeUrlRewriter);
    let res = rewriter.rewrite_bytes(src.as_bytes(), flags()).unwrap();
    assert_eq!(res.js, src.as_bytes().to_vec());
    assert_eq!(res.sourcemap, 0u32.to_le_bytes().to_vec());
}

#[test]
fn utf8_gate_rejects_bad_bytes() {
    let rewriter = Rewriter::new(Config::default(), NativeUrlRewriter);
    let res = rewriter.rewrite_bytes(&[0xff, 0xfe], flags());
    assert!(matches!(res, Err(RewriteError::NotUtf8)));
    assert_eq!(
        RewriteError::NotUtf8.message(),
        "input js is not utf-8".to_string()
    );
}

#[test]
fn utf8_gate_accepts_multibyte_text() {
    let rewriter = Rewriter::new(Config::default(), NativeUrlRewriter);
    let src = "let s = 'héllo \u{1F600}';".as_bytes();
    let res = rewriter.rewrite_bytes(src, flags()).unwrap();
    assert_eq!(res.js, src.to_vec());
}

#[test]
fn utf8_gate_rejects_overlong_and_surrogate_forms() {
    let rewriter = Rewriter::new(Config::default(), NativeUrlRewriter);
    // overlong two-byte encoding of NUL
    assert!(rewriter.rewrite_bytes(&[0xc0, 0x80], flags()).is_err());
    // encoded surrogate
    assert!(rewriter.rewrite_bytes(&[0xed, 0xa0, 0x80], flags()).is_err());
    // truncated continuation
    assert!(rewriter.rewrite_bytes(&[0xe2, 0x82], flags()).is_err());
    // bare continuation byte
    assert!(rewriter.rewrite_bytes(&[0x80], flags()).is_err());
}

#[test]
fn flags_are_echoed_and_base_defaulted() {
    let rewriter = Rewriter::new(Config::default(), NativeUrlRewriter);
    let mut f = Flags::default();
    f.base = String::new();
    f.sourcetag = "tag-1".to_string();
    f.is_module = true;
    f.do_sourcemaps = false;
    let res = rewriter.rewrite_bytes(b"1", f).unwrap();
    assert_eq!(res.flags.base, "about:blank".to_string());
    assert_eq!(res.flags.sourcetag, "tag-1".to_string());
    assert!(res.flags.is_module);
    assert!(!res.flags.do_sourcemaps);
}

#[test]
fn str_entry_point_matches_bytes_entry_point() {
    let rewriter = Rewriter::new(Config::default(), NativeUrlRewriter);
    let a = rewriter.rewrite("location", flags()).unwrap();
    let b = rewriter.rewrite_bytes(b"location", flags()).unwrap();
    assert_eq!(a.js, b.js);
    assert_eq!(a.sourcemap, b.sourcemap);
}
