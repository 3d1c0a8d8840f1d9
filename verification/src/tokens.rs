//! Byte-level scanning of JavaScript source.
//!
//! The scanner walks the source once, skipping string literals (with
//! backslash-escape consumption), line comments and block comments, and
//! collects every identifier together with its adjacency context: the
//! nearest non-whitespace byte on either side and the previous identifier
//! token (reset whenever a non-whitespace, non-identifier byte intervenes).

use vstd::prelude::*;

verus! {

pub const B_DQUOTE: u8 = 34;

pub const B_SQUOTE: u8 = 39;

pub const B_BACKTICK: u8 = 96;

pub const B_BACKSLASH: u8 = 92;

pub const B_SLASH: u8 = 47;

pub const B_STAR: u8 = 42;

pub const B_NEWLINE: u8 = 10;

/// Whitespace for adjacency queries: ASCII space, tab, CR, LF.
pub open spec fn ws_byte(b: u8) -> bool {
    b == 32 || b == 9 || b == 13 || b == 10
}

/// Identifiers begin with `[_$A-Za-z]`.
pub open spec fn ident_start_byte(b: u8) -> bool {
    b == 95 || b == 36 || (65 <= b && b <= 90) || (97 <= b && b <= 122)
}

/// Identifiers continue with `[_$A-Za-z0-9]`.
pub open spec fn ident_cont_byte(b: u8) -> bool {
    ident_start_byte(b) || (48 <= b && b <= 57)
}

pub fn is_ident_start(b: u8) -> (r: bool)
    ensures
        r == ident_start_byte(b),
{
    b == 95 || b == 36 || (65 <= b && b <= 90) || (97 <= b && b <= 122)
}

pub fn is_ident_continue(b: u8) -> (r: bool)
    ensures
        r == ident_cont_byte(b),
{
    is_ident_start(b) || (48 <= b && b <= 57)
}

fn is_ws(b: u8) -> (r: bool)
    ensures
        r == ws_byte(b),
{
    b == 32 || b == 9 || b == 13 || b == 10
}

/// The nearest non-whitespace byte strictly before `idx`, scanning left.
pub open spec fn spec_prev_non_ws(src: Seq<u8>, idx: int) -> Option<u8>
    decreases idx,
{
    if idx <= 0 {
        None
    } else if !ws_byte(src[idx - 1]) {
        Some(src[idx - 1])
    } else {
        spec_prev_non_ws(src, idx - 1)
    }
}

/// The nearest non-whitespace byte at or after `idx`, scanning right.
pub open spec fn spec_next_non_ws(src: Seq<u8>, idx: int) -> Option<u8>
    decreases src.len() - idx,
{
    if idx < 0 || idx >= src.len() {
        None
    } else if !ws_byte(src[idx]) {
        Some(src[idx])
    } else {
        spec_next_non_ws(src, idx + 1)
    }
}

pub fn find_prev_non_ws(src: &[u8], idx: usize) -> (r: Option<u8>)
    requires
        idx <= src@.len(),
    ensures
        r == spec_prev_non_ws(src@, idx as int),
{
    let mut i: usize = idx;
    while i > 0
        invariant
            i <= src@.len(),
            spec_prev_non_ws(src@, idx as int) == spec_prev_non_ws(src@, i as int),
        decreases i,
    {
        let b = src[i - 1];
        if !is_ws(b) {
            return Some(b);
        }
        i = i - 1;
    }
    None
}

pub fn find_next_non_ws(src: &[u8], idx: usize) -> (r: Option<u8>)
    ensures
        r == spec_next_non_ws(src@, idx as int),
{
    let n = src.len();
    let mut i: usize = idx;
    while i < n
        invariant
            n == src@.len(),
            idx <= i,
            spec_next_non_ws(src@, idx as int) == spec_next_non_ws(src@, i as int),
        decreases n - i,
    {
        let b = src[i];
        if !is_ws(b) {
            return Some(b);
        }
        i = i + 1;
    }
    None
}

/// Position just after the closing quote of a string literal whose body
/// starts at `i`; a backslash consumes the following byte. An unterminated
/// literal runs to the end of the source.
pub open spec fn spec_skip_string(src: Seq<u8>, i: int, q: u8) -> int
    decreases src.len() - i,
{
    if i < 0 || i >= src.len() {
        i
    } else if src[i] == B_BACKSLASH {
        spec_skip_string(
            src,
            if i + 2 <= src.len() {
                i + 2
            } else {
                src.len() as int
            },
            q,
        )
    } else if src[i] == q {
        i + 1
    } else {
        spec_skip_string(src, i + 1, q)
    }
}

pub proof fn lemma_skip_string_bounds(src: Seq<u8>, i: int, q: u8)
    requires
        0 <= i <= src.len(),
    ensures
        i <= spec_skip_string(src, i, q) <= src.len(),
    decreases src.len() - i,
{
    if i < src.len() {
        if src[i] == B_BACKSLASH {
            let j: int = if i + 2 <= src.len() {
                i + 2
            } else {
                src.len() as int
            };
            lemma_skip_string_bounds(src, j, q);
        } else if src[i] == q {
        } else {
            lemma_skip_string_bounds(src, i + 1, q);
        }
    }
}

/// First position at or after `i` holding a newline, or the end of source.
pub open spec fn spec_line_end(src: Seq<u8>, i: int) -> int
    decreases src.len() - i,
{
    if i < 0 || i >= src.len() {
        i
    } else if src[i] == B_NEWLINE {
        i
    } else {
        spec_line_end(src, i + 1)
    }
}

pub proof fn lemma_line_end_bounds(src: Seq<u8>, i: int)
    requires
        0 <= i <= src.len(),
    ensures
        i <= spec_line_end(src, i) <= src.len(),
    decreases src.len() - i,
{
    if i < src.len() && src[i] != B_NEWLINE {
        lemma_line_end_bounds(src, i + 1);
    }
}

/// Position just after the `*/` that closes a block comment whose body
/// starts at `i`; with no closer the scan stops one byte short of the end,
/// and that byte is scanned again as ordinary source.
pub open spec fn spec_block_end(src: Seq<u8>, i: int) -> int
    decreases src.len() - i,
{
    if i < 0 || i + 1 >= src.len() {
        i
    } else if src[i] == B_STAR && src[i + 1] == B_SLASH {
        i + 2
    } else {
        spec_block_end(src, i + 1)
    }
}

pub proof fn lemma_block_end_bounds(src: Seq<u8>, i: int)
    requires
        0 <= i <= src.len(),
    ensures
        i <= spec_block_end(src, i) <= src.len(),
    decreases src.len() - i,
{
    if i + 1 < src.len() && !(src[i] == B_STAR && src[i + 1] == B_SLASH) {
        lemma_block_end_bounds(src, i + 1);
    }
}

/// First position at or after `j` whose byte no longer continues an
/// identifier, or the end of source.
pub open spec fn spec_ident_end(src: Seq<u8>, j: int) -> int
    decreases src.len() - j,
{
    if j < 0 || j >= src.len() {
        j
    } else if ident_cont_byte(src[j]) {
        spec_ident_end(src, j + 1)
    } else {
        j
    }
}

pub proof fn lemma_ident_end_bounds(src: Seq<u8>, j: int)
    requires
        0 <= j <= src.len(),
    ensures
        j <= spec_ident_end(src, j) <= src.len(),
    decreases src.len() - j,
{
    if j < src.len() && ident_cont_byte(src[j]) {
        lemma_ident_end_bounds(src, j + 1);
    }
}

/// Mathematical image of one scanned identifier token.
pub struct TokenM {
    pub text: Seq<u8>,
    pub start: int,
    pub end: int,
    pub prev_non_ws: Option<u8>,
    pub next_non_ws: Option<u8>,
    pub prev_token: Option<Seq<u8>>,
}

/// The identifier tokens of `src` from position `i` on, with `prev` the
/// text of the identifier last seen with no other byte in between.
pub open spec fn spec_tokens_from(src: Seq<u8>, i: int, prev: Option<Seq<u8>>) -> Seq<TokenM>
    decreases src.len() - i,
    when 0 <= i
    via spec_tokens_from_decreases
{
    if i >= src.len() {
        Seq::empty()
    } else {
        let c = src[i];
        if c == B_DQUOTE || c == B_SQUOTE || c == B_BACKTICK {
            spec_tokens_from(src, spec_skip_string(src, i + 1, c), prev)
        } else if c == B_SLASH && i + 1 < src.len() && src[i + 1] == B_SLASH {
            spec_tokens_from(src, spec_line_end(src, i + 2), prev)
        } else if c == B_SLASH && i + 1 < src.len() && src[i + 1] == B_STAR {
            spec_tokens_from(src, spec_block_end(src, i + 2), prev)
        } else if ident_start_byte(c) {
            let end = spec_ident_end(src, i + 1);
            let text = src.subrange(i, end);
            seq![
                (TokenM {
                    text: text,
                    start: i,
                    end: end,
                    prev_non_ws: spec_prev_non_ws(src, i),
                    next_non_ws: spec_next_non_ws(src, end),
                    prev_token: prev,
                }),
            ] + spec_tokens_from(src, end, Some(text))
        } else if ws_byte(c) {
            spec_tokens_from(src, i + 1, prev)
        } else {
            spec_tokens_from(src, i + 1, None)
        }
    }
}

#[via_fn]
proof fn spec_tokens_from_decreases(src: Seq<u8>, i: int, prev: Option<Seq<u8>>) {
    if 0 <= i < src.len() {
        let c = src[i];
        if c == B_DQUOTE || c == B_SQUOTE || c == B_BACKTICK {
            lemma_skip_string_bounds(src, i + 1, c);
        } else if c == B_SLASH && i + 1 < src.len() && src[i + 1] == B_SLASH {
            lemma_line_end_bounds(src, i + 2);
        } else if c == B_SLASH && i + 1 < src.len() && src[i + 1] == B_STAR {
            lemma_block_end_bounds(src, i + 2);
        } else if ident_start_byte(c) {
            lemma_ident_end_bounds(src, i + 1);
        }
    }
}

/// All identifier tokens of `src`.
pub open spec fn spec_tokens(src: Seq<u8>) -> Seq<TokenM> {
    spec_tokens_from(src, 0, None)
}

/// One scanned identifier with its adjacency context.
pub struct Token {
    pub text: Vec<u8>,
    pub start: usize,
    pub end: usize,
    pub prev_non_ws: Option<u8>,
    pub next_non_ws: Option<u8>,
    pub prev_token: Option<Vec<u8>>,
}

impl Token {
    pub open spec fn model(&self) -> TokenM {
        TokenM {
            text: self.text@,
            start: self.start as int,
            end: self.end as int,
            prev_non_ws: self.prev_non_ws,
            next_non_ws: self.next_non_ws,
            prev_token: match self.prev_token {
                Some(ref v) => Some(v@),
                None => None,
            },
        }
    }
}

/// A fresh copy of `src[a..b]`.
pub fn copy_range(src: &[u8], a: usize, b: usize) -> (v: Vec<u8>)
    requires
        a <= b <= src@.len(),
    ensures
        v@ == src@.subrange(a as int, b as int),
{
    let s = vstd::slice::slice_subrange(src, a, b);
    vstd::slice::slice_to_vec(s)
}

fn skip_string(src: &[u8], start: usize, q: u8) -> (r: usize)
    requires
        start <= src@.len(),
    ensures
        r as int == spec_skip_string(src@, start as int, q),
        start <= r <= src@.len(),
{
    let n = src.len();
    let mut i: usize = start;
    while i < n
        invariant
            start <= i <= n,
            n == src@.len(),
            spec_skip_string(src@, start as int, q) == spec_skip_string(src@, i as int, q),
        decreases n - i,
    {
        let b = src[i];
        if b == B_BACKSLASH {
            i = if n - i >= 2 {
                i + 2
            } else {
                n
            };
        } else if b == q {
            return i + 1;
        } else {
            i = i + 1;
        }
    }
    i
}

fn line_end(src: &[u8], start: usize) -> (r: usize)
    requires
        start <= src@.len(),
    ensures
        r as int == spec_line_end(src@, start as int),
        start <= r <= src@.len(),
{
    let n = src.len();
    let mut i: usize = start;
    while i < n
        invariant
            start <= i <= n,
            n == src@.len(),
            spec_line_end(src@, start as int) == spec_line_end(src@, i as int),
        decreases n - i,
    {
        if src[i] == B_NEWLINE {
            return i;
        }
        i = i + 1;
    }
    i
}

fn block_end(src: &[u8], start: usize) -> (r: usize)
    requires
        start <= src@.len(),
    ensures
        r as int == spec_block_end(src@, start as int),
        start <= r <= src@.len(),
{
    let n = src.len();
    let mut i: usize = start;
    while n - i > 1
        invariant
            start <= i,
            i <= n,
            n == src@.len(),
            spec_block_end(src@, start as int) == spec_block_end(src@, i as int),
        decreases n - i,
    {
        if src[i] == B_STAR && src[i + 1] == B_SLASH {
            return i + 2;
        }
        i = i + 1;
    }
    i
}

fn ident_end(src: &[u8], start: usize) -> (r: usize)
    requires
        start <= src@.len(),
    ensures
        r as int == spec_ident_end(src@, start as int),
        start <= r <= src@.len(),
{
    let n = src.len();
    let mut j: usize = start;
    while j < n
        invariant
            start <= j <= n,
            n == src@.len(),
            spec_ident_end(src@, start as int) == spec_ident_end(src@, j as int),
        decreases n - j,
    {
        if !is_ident_continue(src[j]) {
            return j;
        }
        j = j + 1;
    }
    j
}

/// Spec image of the running previous-token state held as a byte range.
pub open spec fn prev_model(src: Seq<u8>, prev: Option<(usize, usize)>) -> Option<Seq<u8>> {
    match prev {
        Some((a, b)) => Some(src.subrange(a as int, b as int)),
        None => None,
    }
}

/// Scan the source once and return every identifier token, exactly as
/// `spec_tokens` describes them.
pub fn tokenize(src: &[u8]) -> (toks: Vec<Token>)
    ensures
        toks@.map_values(|t: Token| t.model()) == spec_tokens(src@),
        forall|k: int|
            0 <= k < toks@.len() ==> {
                let t = #[trigger] toks@[k];
                t.start < t.end <= src@.len() && t.text@ == src@.subrange(
                    t.start as int,
                    t.end as int,
                ) && t.next_non_ws == spec_next_non_ws(src@, t.end as int)
            },
{
    let n = src.len();
    let mut toks: Vec<Token> = Vec::new();
    let mut i: usize = 0;
    let mut prev: Option<(usize, usize)> = None;
    while i < n
        invariant
            i <= n,
            n == src@.len(),
            (match prev {
                Some((a, b)) => a < b && b <= n,
                None => true,
            }),
            toks@.map_values(|t: Token| t.model()) + spec_tokens_from(
                src@,
                i as int,
                prev_model(src@, prev),
            ) == spec_tokens(src@),
            forall|k: int|
                0 <= k < toks@.len() ==> {
                    let t = #[trigger] toks@[k];
                    t.start < t.end <= src@.len() && t.text@ == src@.subrange(
                        t.start as int,
                        t.end as int,
                    ) && t.next_non_ws == spec_next_non_ws(src@, t.end as int)
                },
        decreases n - i,
    {
        let c = src[i];
        if c == B_DQUOTE || c == B_SQUOTE || c == B_BACKTICK {
            let j = skip_string(src, i + 1, c);
            proof {
                lemma_skip_string_bounds(src@, i + 1, c);
            }
            i = j;
        } else if c == B_SLASH && i + 1 < n && src[i + 1] == B_SLASH {
            i = line_end(src, i + 2);
        } else if c == B_SLASH && i + 1 < n && src[i + 1] == B_STAR {
            i = block_end(src, i + 2);
        } else if is_ident_start(c) {
            let end = ident_end(src, i + 1);
            let text = copy_range(src, i, end);
            let prev_text = match prev {
                Some((a, b)) => Some(copy_range(src, a, b)),
                None => None,
            };
            let tok = Token {
                text,
                start: i,
                end,
                prev_non_ws: find_prev_non_ws(src, i),
                next_non_ws: find_next_non_ws(src, end),
                prev_token: prev_text,
            };
            let ghost old_toks = toks@;
            let ghost old_prev = prev_model(src@, prev);
            toks.push(tok);
            proof {
                assert(toks@.map_values(|t: Token| t.model()) =~= old_toks.map_values(
                    |t: Token| t.model(),
                ).push(tok.model()));
                assert(old_toks.map_values(|t: Token| t.model()).push(tok.model())
                    + spec_tokens_from(src@, end as int, Some(src@.subrange(i as int, end as int)))
                    =~= old_toks.map_values(|t: Token| t.model()) + (seq![tok.model()]
                    + spec_tokens_from(
                    src@,
                    end as int,
                    Some(src@.subrange(i as int, end as int)),
                )));
            }
            prev = Some((i, end));
            i = end;
        } else if is_ws(c) {
            i = i + 1;
        } else {
            prev = None;
            i = i + 1;
        }
    }
    toks
}


/// Position of the nearest non-whitespace byte at or after `idx`, or the
/// end of the source.
pub open spec fn spec_next_non_ws_pos(src: Seq<u8>, idx: int) -> int
    decreases src.len() - idx,
{
    if idx < 0 || idx >= src.len() {
        src.len() as int
    } else if !ws_byte(src[idx]) {
        idx
    } else {
        spec_next_non_ws_pos(src, idx + 1)
    }
}

/// The position scan and the value scan agree.
pub proof fn lemma_next_non_ws_pos(src: Seq<u8>, idx: int)
    requires
        0 <= idx <= src.len(),
    ensures
        idx <= spec_next_non_ws_pos(src, idx) <= src.len(),
        spec_next_non_ws(src, idx) == {
            let p = spec_next_non_ws_pos(src, idx);
            if p < src.len() {
                Some(src[p])
            } else {
                None::<u8>
            }
        },
    decreases src.len() - idx,
{
    if idx < src.len() && ws_byte(src[idx]) {
        lemma_next_non_ws_pos(src, idx + 1);
    }
}

/// Position of the nearest non-whitespace byte at or after `idx`.
pub fn find_next_non_ws_pos(src: &[u8], idx: usize) -> (r: usize)
    requires
        idx <= src@.len(),
    ensures
        r as int == spec_next_non_ws_pos(src@, idx as int),
        idx <= r <= src@.len(),
{
    let n = src.len();
    let mut i: usize = idx;
    while i < n
        invariant
            idx <= i <= n,
            n == src@.len(),
            spec_next_non_ws_pos(src@, idx as int) == spec_next_non_ws_pos(src@, i as int),
        decreases n - i,
    {
        if !is_ws(src[i]) {
            return i;
        }
        i = i + 1;
    }
    i
}

} // verus!
