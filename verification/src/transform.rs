//! Applying an unordered collection of changes to the source in one
//! linear pass.
//!
//! The transformer sorts its changes by the strict total order, walks the
//! source once with a monotone cursor, and emits the rewritten bytes, one
//! record per applied change, and a compact binary source map. A change
//! whose span would cross the cursor, is inverted, or reaches past the end
//! of the source is silently dropped; such changes are overlap conflicts
//! that the visitor is expected to avoid but the transformer tolerates.

use vstd::prelude::*;

use crate::changes::{models, sort_m, ChangeM, JsChange, JsChangeType};
use crate::changes::sort_changes;

verus! {

/// Whether a record's payload was inserted beside kept bytes or replaced
/// the spanned bytes.
#[derive(Debug, Clone, Copy, PartialEq, Eq, Structural)]
pub enum TransformType {
    Insert,
    Replace,
}

/// One element of a rendered payload: raw bytes, or a number rendered in
/// decimal.
#[derive(Debug, Clone)]
pub enum TransformElement {
    Str(Vec<u8>),
    U32(u32),
}

/// A change lowered to its wire form: a kind and the payload elements.
#[derive(Debug, Clone)]
pub struct TransformLL {
    pub ty: TransformType,
    pub change: Vec<TransformElement>,
}

/// Where one applied change sits in the output: its position, the number
/// of rendered bytes, and for a replacement the original bytes it covered.
#[derive(Debug, Clone)]
pub struct TransformRecord {
    pub output_pos: usize,
    pub size: usize,
    pub ty: TransformType,
    pub original: Vec<u8>,
}

/// The rewritten bytes, the binary source map, and the applied records.
#[derive(Debug, Clone)]
pub struct TransformOutput {
    pub output: Vec<u8>,
    pub sourcemap: Vec<u8>,
    pub records: Vec<TransformRecord>,
}

/// Mathematical image of an applied record.
pub struct RecordM {
    pub pos: int,
    pub size: int,
    pub replace: bool,
    pub original: Seq<u8>,
}

impl TransformRecord {
    pub open spec fn model(&self) -> RecordM {
        RecordM {
            pos: self.output_pos as int,
            size: self.size as int,
            replace: self.ty is Replace,
            original: self.original@,
        }
    }
}

pub open spec fn rec_models(s: Seq<TransformRecord>) -> Seq<RecordM> {
    s.map_values(|r: TransformRecord| r.model())
}

/// The digits of `n` written in decimal, most significant first; empty
/// for `n <= 0`.
pub open spec fn spec_digits(n: int) -> Seq<u8>
    decreases n,
{
    if n <= 0 {
        Seq::empty()
    } else {
        spec_digits(n / 10).push((48 + n % 10) as u8)
    }
}

/// The decimal rendering of a non-negative number.
pub open spec fn spec_decimal(n: int) -> Seq<u8> {
    if n == 0 {
        seq![48u8]
    } else {
        spec_digits(n)
    }
}

/// Render a `u32` in decimal.
pub fn u32_decimal(x: u32) -> (v: Vec<u8>)
    ensures
        v@ == spec_decimal(x as int),
{
    if x == 0 {
        let mut v: Vec<u8> = Vec::new();
        v.push(48);
        proof {
            assert(v@ =~= spec_decimal(0));
        }
        return v;
    }
    let mut tmp: Vec<u8> = Vec::new();
    let mut n: u32 = x;
    while n > 0
        invariant
            spec_digits(x as int) =~= spec_digits(n as int) + tmp@.reverse(),
        decreases n,
    {
        let d: u8 = (n % 10) as u8;
        let ghost old_tmp = tmp@;
        tmp.push(48 + d);
        n = n / 10;
        proof {
            assert(tmp@.reverse() =~= seq![(48 + d) as u8] + old_tmp.reverse());
            assert(spec_digits(x as int) =~= spec_digits(n as int) + tmp@.reverse());
        }
    }
    let mut v: Vec<u8> = Vec::new();
    let mut i: usize = tmp.len();
    while i > 0
        invariant
            i <= tmp@.len(),
            v@ =~= tmp@.reverse().take(tmp@.len() - i),
        decreases i,
    {
        i = i - 1;
        v.push(tmp[i]);
        proof {
            assert(tmp@.reverse()[tmp@.len() - i - 1] == tmp@[i as int]);
            assert(v@ =~= tmp@.reverse().take(tmp@.len() - i));
        }
    }
    proof {
        assert(tmp@.reverse().take(tmp@.len() as int) =~= tmp@.reverse());
        assert(spec_digits(x as int) =~= tmp@.reverse());
    }
    v
}

/// Bytes contributed by one payload element.
pub open spec fn elem_bytes(e: TransformElement) -> Seq<u8> {
    match e {
        TransformElement::Str(v) => v@,
        TransformElement::U32(x) => spec_decimal(x as int),
    }
}

/// Bytes of the whole payload, elements in order, from `i` on.
pub open spec fn render_from(es: Seq<TransformElement>, i: int) -> Seq<u8>
    decreases es.len() - i,
{
    if i < 0 || i >= es.len() {
        Seq::empty()
    } else {
        elem_bytes(es[i]) + render_from(es, i + 1)
    }
}

pub open spec fn render_m(es: Seq<TransformElement>) -> Seq<u8> {
    render_from(es, 0)
}

/// Append `s[a..b]` to `out`.
pub fn append_bytes(out: &mut Vec<u8>, s: &[u8], a: usize, b: usize)
    requires
        a <= b <= s@.len(),
    ensures
        final(out)@ == old(out)@ + s@.subrange(a as int, b as int),
{
    let mut i: usize = a;
    while i < b
        invariant
            a <= i <= b <= s@.len(),
            out@ =~= old(out)@ + s@.subrange(a as int, i as int),
        decreases b - i,
    {
        out.push(s[i]);
        i = i + 1;
        proof {
            assert(out@ =~= old(out)@ + s@.subrange(a as int, i as int));
        }
    }
    proof {
        assert(out@ =~= old(out)@ + s@.subrange(a as int, b as int));
    }
}

/// Render payload elements into bytes.
pub fn render_elements(es: Vec<TransformElement>) -> (v: Vec<u8>)
    ensures
        v@ == render_m(es@),
{
    let mut v: Vec<u8> = Vec::new();
    let n = es.len();
    let mut es = es;
    let ghost esm = es@;
    while es.len() > 0
        invariant
            es@.len() <= esm.len(),
            es@ =~= esm.skip(esm.len() - es@.len()),
            v@ + render_from(esm, esm.len() - es@.len()) =~= render_m(esm),
        decreases es@.len(),
    {
        let ghost k = esm.len() - es@.len();
        let ghost before = es@;
        let e = es.remove(0);
        proof {
            assert(before.remove(0) =~= es@);
            assert(es@ =~= esm.skip(k + 1));
            assert(e == esm[k]);
        }
        match e {
            TransformElement::Str(s) => {
                let len = s.len();
                append_bytes(&mut v, s.as_slice(), 0, len);
                proof {
                    assert(s@.subrange(0, len as int) =~= s@);
                }
            },
            TransformElement::U32(x) => {
                let d = u32_decimal(x);
                let dl = d.len();
                append_bytes(&mut v, d.as_slice(), 0, dl);
                proof {
                    assert(d@.subrange(0, dl as int) =~= d@);
                }
            },
        }
        proof {
            assert(v@ + render_from(esm, k + 1) =~= render_m(esm));
        }
    }
    proof {
        assert(v@ =~= render_m(esm));
    }
    v
}

impl JsChange {
    /// Lower this change to its wire form: replacements replace, every
    /// other kind inserts, and the payload is a single raw-byte element.
    pub fn into_low_level(self) -> (ll: TransformLL)
        ensures
            (ll.ty is Replace) == !self.model().is_insert(),
            render_m(ll.change@) == self.model().payload,
    {
        let ghost m = self.model();
        let (ty, payload) = match self.ty {
            JsChangeType::InsertLeft(v) => (TransformType::Insert, v),
            JsChangeType::InsertRight(v) => (TransformType::Insert, v),
            JsChangeType::WrapFnRight(v) => (TransformType::Insert, v),
            JsChangeType::RascalErrFn(v) => (TransformType::Insert, v),
            JsChangeType::Replace(v) => (TransformType::Replace, v),
        };
        let mut change: Vec<TransformElement> = Vec::new();
        let ghost pv = payload@;
        change.push(TransformElement::Str(payload));
        proof {
            assert(render_from(change@, 1) =~= Seq::<u8>::empty());
            assert(render_m(change@) =~= pv);
        }
        TransformLL { ty, change }
    }
}

/// The running state of the linear pass: output so far, the monotone
/// cursor into the source, and the records of applied changes.
pub struct ApplyState {
    pub out: Seq<u8>,
    pub cursor: int,
    pub records: Seq<RecordM>,
}

pub open spec fn init_state() -> ApplyState {
    ApplyState { out: Seq::empty(), cursor: 0, records: Seq::empty() }
}

/// One step of the pass: drop the change if its span crosses the cursor,
/// is inverted, or leaves the source; otherwise copy the bytes up to the
/// span, emit the payload (an insertion keeps the spanned bytes after it,
/// a replacement omits them), record the edit, and move the cursor to the
/// span end.
pub open spec fn apply_one(src: Seq<u8>, st: ApplyState, c: ChangeM) -> ApplyState {
    if c.start < st.cursor || c.end < c.start || c.end > src.len() {
        st
    } else {
        let copied = st.out + src.subrange(st.cursor, c.start);
        if c.is_insert() {
            ApplyState {
                out: copied + c.payload + src.subrange(c.start, c.end),
                cursor: c.end,
                records: st.records.push(
                    RecordM {
                        pos: copied.len() as int,
                        size: c.payload.len() as int,
                        replace: false,
                        original: Seq::empty(),
                    },
                ),
            }
        } else {
            ApplyState {
                out: copied + c.payload,
                cursor: c.end,
                records: st.records.push(
                    RecordM {
                        pos: copied.len() as int,
                        size: c.payload.len() as int,
                        replace: true,
                        original: src.subrange(c.start, c.end),
                    },
                ),
            }
        }
    }
}

/// Fold `apply_one` over the changes in order.
pub open spec fn apply_from(src: Seq<u8>, cs: Seq<ChangeM>, st: ApplyState) -> ApplyState
    decreases cs.len(),
{
    if cs.len() == 0 {
        st
    } else {
        apply_from(src, cs.drop_first(), apply_one(src, st, cs[0]))
    }
}

/// The records the transformer produces for a change collection.
pub open spec fn recs_of(src: Seq<u8>, cs: Seq<ChangeM>) -> Seq<RecordM> {
    apply_from(src, sort_m(cs), init_state()).records
}

/// The bytes the transformer produces for a change collection: the final
/// state's output plus the remaining tail of the source.
pub open spec fn out_of(src: Seq<u8>, cs: Seq<ChangeM>) -> Seq<u8> {
    let st = apply_from(src, sort_m(cs), init_state());
    st.out + src.subrange(st.cursor, src.len() as int)
}

/// Net length contribution of the records: rendered bytes added minus
/// original bytes removed.
pub open spec fn sum_delta(recs: Seq<RecordM>) -> int
    decreases recs.len(),
{
    if recs.len() == 0 {
        0
    } else {
        sum_delta(recs.drop_last()) + recs.last().size - recs.last().original.len()
    }
}

pub proof fn lemma_sum_delta_push(recs: Seq<RecordM>, r: RecordM)
    ensures
        sum_delta(recs.push(r)) == sum_delta(recs) + r.size - r.original.len(),
{
    assert(recs.push(r).drop_last() =~= recs);
    assert(recs.push(r).last() == r);
}

/// Bookkeeping facts about the pass: the cursor moves monotonically and
/// stays inside the source, output and records only grow, and the output
/// always runs ahead of the cursor by exactly the records' net length.
pub proof fn lemma_apply_basic(src: Seq<u8>, cs: Seq<ChangeM>, st: ApplyState)
    requires
        0 <= st.cursor <= src.len(),
    ensures
        st.cursor <= apply_from(src, cs, st).cursor <= src.len(),
        st.out.len() <= apply_from(src, cs, st).out.len(),
        forall|k: int|
            0 <= k < st.out.len() ==> apply_from(src, cs, st).out[k] == st.out[k],
        st.records.len() <= apply_from(src, cs, st).records.len(),
        forall|k: int|
            0 <= k < st.records.len() ==> apply_from(src, cs, st).records[k] == st.records[k],
        apply_from(src, cs, st).out.len() - apply_from(src, cs, st).cursor - sum_delta(
            apply_from(src, cs, st).records,
        ) == st.out.len() - st.cursor - sum_delta(st.records),
    decreases cs.len(),
{
    if cs.len() > 0 {
        let c = cs[0];
        let st1 = apply_one(src, st, c);
        if !(c.start < st.cursor || c.end < c.start || c.end > src.len()) {
            lemma_sum_delta_push(
                st.records,
                st1.records.last(),
            );
            assert(st1.records.drop_last() =~= st.records);
            assert(st1.out.len() >= st.out.len());
            assert(forall|k: int| 0 <= k < st.out.len() ==> st1.out[k] == st.out[k]);
            assert(forall|k: int| 0 <= k < st.records.len() ==> st1.records[k] == st.records[k]);
        }
        lemma_apply_basic(src, cs.drop_first(), st1);
    }
}

/// The transformer: collects changes, then applies them to the source in
/// one pass.
pub struct Transformer {
    inner: Vec<JsChange>,
}

impl View for Transformer {
    type V = Seq<JsChange>;

    closed spec fn view(&self) -> Seq<JsChange> {
        self.inner@
    }
}

impl Default for Transformer {
    fn default() -> (t: Transformer)
        ensures
            t@ == Seq::<JsChange>::empty(),
    {
        Transformer { inner: Vec::new() }
    }
}

impl Transformer {
    pub fn add(&mut self, transform: JsChange)
        ensures
            final(self)@ == old(self)@.push(transform),
    {
        self.inner.push(transform);
    }

    pub fn extend(&mut self, mut items: Vec<JsChange>)
        ensures
            final(self)@ == old(self)@ + items@,
    {
        self.inner.append(&mut items);
    }

    pub fn clear(&mut self)
        ensures
            final(self)@ == Seq::<JsChange>::empty(),
    {
        self.inner.clear();
    }

    pub fn is_empty(&self) -> (r: bool)
        ensures
            r == (self@.len() == 0),
    {
        self.inner.len() == 0
    }

    pub fn len(&self) -> (n: usize)
        ensures
            n == self@.len(),
    {
        self.inner.len()
    }

    /// Sort the collected changes, apply them to `source` in one pass,
    /// and emit the output bytes, the source map and the records. The
    /// collection is drained.
    pub fn perform(&mut self, source: &[u8]) -> (res: TransformOutput)
        ensures
            final(self)@ == Seq::<JsChange>::empty(),
            res.output@ == out_of(source@, models(old(self)@)),
            rec_models(res.records@) == recs_of(source@, models(old(self)@)),
            res.sourcemap@ == encode_map(recs_of(source@, models(old(self)@))),
            res.output@.len() == source@.len() + sum_delta(recs_of(source@, models(old(self)@))),
    {
        let ghost csm0 = models(self.inner@);
        let mut taken: Vec<JsChange> = Vec::new();
        core::mem::swap(&mut self.inner, &mut taken);
        let mut sorted = sort_changes(taken);
        let ghost csm = sort_m(csm0);
        proof {
            assert(models(sorted@) == csm);
        }

        let n = source.len();
        let mut out: Vec<u8> = Vec::new();
        let mut records: Vec<TransformRecord> = Vec::new();
        let mut cursor: usize = 0;
        proof {
            assert(csm.skip(0) =~= csm);
            assert(rec_models(records@) =~= Seq::<RecordM>::empty());
            assert((ApplyState { out: out@, cursor: cursor as int, records: rec_models(records@) })
                == init_state());
        }

        while sorted.len() > 0
            invariant
                n == source@.len(),
                cursor <= n,
                models(sorted@) =~= csm.skip(csm.len() - sorted@.len()),
                sorted@.len() <= csm.len(),
                apply_from(source@, csm, init_state()) == apply_from(
                    source@,
                    csm.skip(csm.len() - sorted@.len()),
                    (ApplyState { out: out@, cursor: cursor as int, records: rec_models(records@) }),
                ),
            decreases sorted@.len(),
        {
            let ghost k = csm.len() - sorted@.len();
            let ghost before = models(sorted@);
            let ghost st = ApplyState {
                out: out@,
                cursor: cursor as int,
                records: rec_models(records@),
            };
            let c = sorted.remove(0);
            proof {
                assert(before.remove(0) =~= models(sorted@));
                assert(before[0] == c.model());
                assert(before =~= csm.skip(k));
                assert(csm.skip(k)[0] == csm[k]);
                assert(c.model() == csm[k]);
                assert(models(sorted@) =~= csm.skip(k + 1));
                assert(csm.skip(k).drop_first() =~= csm.skip(k + 1));
            }
            let start = c.span.start as usize;
            let end = c.span.end as usize;
            if start < cursor || end < start || end > n {
                proof {
                    assert(apply_one(source@, st, csm[k]) == st);
                }
            } else {
                append_bytes(&mut out, source, cursor, start);
                let output_pos = out.len();
                let ghost copied = st.out + source@.subrange(cursor as int, start as int);
                proof {
                    assert(out@ =~= copied);
                }
                let ll = c.into_low_level();
                let is_replace = match ll.ty {
                    TransformType::Replace => true,
                    TransformType::Insert => false,
                };
                let rendered = render_elements(ll.change);
                let size = rendered.len();
                let rlen = rendered.len();
                append_bytes(&mut out, rendered.as_slice(), 0, rlen);
                proof {
                    assert(rendered@.subrange(0, rlen as int) =~= rendered@);
                }
                if is_replace {
                    let original = crate::tokens::copy_range(source, start, end);
                    records.push(
                        TransformRecord {
                            output_pos,
                            size,
                            ty: TransformType::Replace,
                            original,
                        },
                    );
                    proof {
                        let st1 = apply_one(source@, st, csm[k]);
                        assert(out@ =~= copied + csm[k].payload);
                        assert(rec_models(records@) =~= st1.records);
                        assert(out@ == st1.out);
                    }
                } else {
                    append_bytes(&mut out, source, start, end);
                    records.push(
                        TransformRecord {
                            output_pos,
                            size,
                            ty: TransformType::Insert,
                            original: Vec::new(),
                        },
                    );
                    proof {
                        let st1 = apply_one(source@, st, csm[k]);
                        assert(out@ =~= copied + csm[k].payload + source@.subrange(
                            start as int,
                            end as int,
                        ));
                        assert(rec_models(records@) =~= st1.records);
                        assert(out@ == st1.out);
                    }
                }
                cursor = end;
            }
            proof {
                let st1 = apply_one(source@, st, csm[k]);
                assert((ApplyState {
                    out: out@,
                    cursor: cursor as int,
                    records: rec_models(records@),
                }) == st1);
            }
        }
        proof {
            assert(csm.skip(0) =~= csm);
            assert(csm.skip(csm.len() - sorted@.len()) =~= Seq::<ChangeM>::empty());
            lemma_apply_basic(source@, csm, init_state());
        }
        let ghost fin = apply_from(source@, csm, init_state());
        proof {
            assert(fin == (ApplyState {
                out: out@,
                cursor: cursor as int,
                records: rec_models(records@),
            }));
        }
        append_bytes(&mut out, source, cursor, n);

        let sourcemap = encode_sourcemap(&records);

        proof {
            assert(out@ == out_of(source@, csm0));
            assert(rec_models(records@) == recs_of(source@, csm0));
            assert(sum_delta(fin.records) == fin.out.len() - fin.cursor);
        }
        TransformOutput { output: out, sourcemap, records }
    }
}

/// A number as four little-endian bytes, truncated to 32 bits as the wire
/// format is fixed-width.
pub open spec fn le32(n: int) -> Seq<u8> {
    vstd::bytes::spec_u32_to_le_bytes(n as u32)
}

/// Wire bytes of one record: position, rendered size, a type tag, and for
/// a replacement the original bytes, length-prefixed.
pub open spec fn record_bytes(r: RecordM) -> Seq<u8> {
    le32(r.pos) + le32(r.size) + seq![if r.replace { 1u8 } else { 0u8 }] + if r.replace {
        le32(r.original.len() as int) + r.original
    } else {
        Seq::empty()
    }
}

pub open spec fn encode_body(recs: Seq<RecordM>, i: int) -> Seq<u8>
    decreases recs.len() - i,
{
    if i < 0 || i >= recs.len() {
        Seq::empty()
    } else {
        record_bytes(recs[i]) + encode_body(recs, i + 1)
    }
}

/// The binary source map: a record count, then each record in order.
pub open spec fn encode_map(recs: Seq<RecordM>) -> Seq<u8> {
    le32(recs.len() as int) + encode_body(recs, 0)
}

fn encode_sourcemap(records: &Vec<TransformRecord>) -> (sm: Vec<u8>)
    ensures
        sm@ == encode_map(rec_models(records@)),
{
    let ghost recs = rec_models(records@);
    let mut sm: Vec<u8> = Vec::new();
    let count = records.len();
    let cnt = vstd::bytes::u32_to_le_bytes(#[verifier::truncate] (count as u32));
    let cl = cnt.len();
    append_bytes(&mut sm, cnt.as_slice(), 0, cl);
    proof {
        assert(cnt@.subrange(0, cl as int) =~= cnt@);
        assert(sm@ =~= le32(recs.len() as int));
    }
    let mut i: usize = 0;
    while i < count
        invariant
            i <= count,
            count == records@.len(),
            recs == rec_models(records@),
            sm@ =~= le32(recs.len() as int) + encode_body(recs, 0).subrange(
                0,
                le_prefix_len(recs, i as int),
            ),
            sm@.len() == 4 + le_prefix_len(recs, i as int),
        decreases count - i,
    {
        let r = &records[i];
        let ghost pre = sm@;
        let pb = vstd::bytes::u32_to_le_bytes(#[verifier::truncate] (r.output_pos as u32));
        let pbl = pb.len();
        append_bytes(&mut sm, pb.as_slice(), 0, pbl);
        let sb = vstd::bytes::u32_to_le_bytes(#[verifier::truncate] (r.size as u32));
        let sbl = sb.len();
        append_bytes(&mut sm, sb.as_slice(), 0, sbl);
        let is_replace = match r.ty {
            TransformType::Replace => true,
            TransformType::Insert => false,
        };
        sm.push(if is_replace {
            1
        } else {
            0
        });
        if is_replace {
            let ob = vstd::bytes::u32_to_le_bytes(#[verifier::truncate] (r.original.len() as u32));
            let obl = ob.len();
            append_bytes(&mut sm, ob.as_slice(), 0, obl);
            let olen = r.original.len();
            append_bytes(&mut sm, r.original.as_slice(), 0, olen);
            proof {
                assert(ob@.subrange(0, obl as int) =~= ob@);
                assert(r.original@.subrange(0, olen as int) =~= r.original@);
            }
        }
        proof {
            assert(pb@.subrange(0, pbl as int) =~= pb@);
            assert(sb@.subrange(0, sbl as int) =~= sb@);
            assert(recs[i as int] == records@[i as int].model());
            assert(sm@ =~= pre + record_bytes(recs[i as int]));
            lemma_encode_body_step(recs, i as int);
            assert(sm@ =~= le32(recs.len() as int) + encode_body(recs, 0).subrange(
                0,
                le_prefix_len(recs, i + 1),
            ));
        }
        i = i + 1;
    }
    proof {
        lemma_encode_prefix_total(recs);
        assert(encode_body(recs, 0).subrange(0, le_prefix_len(recs, recs.len() as int))
            =~= encode_body(recs, 0));
    }
    sm
}

/// Length of the wire bytes of the first `i` records.
pub open spec fn le_prefix_len(recs: Seq<RecordM>, i: int) -> int
    decreases i,
{
    if i <= 0 {
        0
    } else {
        le_prefix_len(recs, i - 1) + record_bytes(recs[i - 1]).len() as int
    }
}

proof fn lemma_encode_body_split(recs: Seq<RecordM>, i: int)
    requires
        0 <= i <= recs.len(),
    ensures
        encode_body(recs, 0).len() == le_prefix_len(recs, i) + encode_body(recs, i).len(),
        encode_body(recs, 0).subrange(0, le_prefix_len(recs, i)) + encode_body(recs, i)
            =~= encode_body(recs, 0),
        le_prefix_len(recs, i) >= 0,
    decreases i,
{
    if i == 0 {
        assert(encode_body(recs, 0).subrange(0, 0) =~= Seq::<u8>::empty());
    } else {
        lemma_encode_body_split(recs, i - 1);
        lemma_encode_body_cat(recs, i - 1);
    }
}

/// `encode_body` from `i` splits as record `i` then the rest.
proof fn lemma_encode_body_cat(recs: Seq<RecordM>, i: int)
    requires
        0 <= i < recs.len(),
    ensures
        encode_body(recs, i) =~= record_bytes(recs[i]) + encode_body(recs, i + 1),
{
}

proof fn lemma_encode_body_step(recs: Seq<RecordM>, i: int)
    requires
        0 <= i < recs.len(),
    ensures
        encode_body(recs, 0).subrange(0, le_prefix_len(recs, i)) + record_bytes(recs[i])
            =~= encode_body(recs, 0).subrange(0, le_prefix_len(recs, i + 1)),
        le_prefix_len(recs, i + 1) == le_prefix_len(recs, i) + record_bytes(recs[i]).len(),
        le_prefix_len(recs, i) >= 0,
{
    lemma_encode_body_split(recs, i);
    lemma_encode_body_split(recs, i + 1);
    assert(encode_body(recs, i) =~= record_bytes(recs[i]) + encode_body(recs, i + 1));
}

proof fn lemma_encode_prefix_total(recs: Seq<RecordM>)
    ensures
        le_prefix_len(recs, recs.len() as int) == encode_body(recs, 0).len(),
{
    lemma_encode_body_split(recs, recs.len() as int);
}


/// The state's output plus the untouched tail of the source: the bytes the
/// pass emits when it starts from `st` and applies `cs`.
pub open spec fn final_out(src: Seq<u8>, cs: Seq<ChangeM>, st: ApplyState) -> Seq<u8> {
    apply_from(src, cs, st).out + src.subrange(apply_from(src, cs, st).cursor, src.len() as int)
}

/// The transformer's output depends only on the multiset of collected
/// changes, never on the order in which they arrived: it sorts first, and
/// the strict total order leaves only one arrangement.
pub proof fn lemma_perform_permutation(src: Seq<u8>, cs1: Seq<ChangeM>, cs2: Seq<ChangeM>)
    requires
        cs1.to_multiset() == cs2.to_multiset(),
    ensures
        out_of(src, cs1) == out_of(src, cs2),
        recs_of(src, cs1) == recs_of(src, cs2),
{
    crate::changes::lemma_sort_m_permutation(cs1, cs2);
}

/// A transformer given no changes copies the source through unchanged and
/// records nothing.
pub proof fn lemma_out_of_empty(src: Seq<u8>)
    ensures
        out_of(src, Seq::<ChangeM>::empty()) == src,
        recs_of(src, Seq::<ChangeM>::empty()) == Seq::<RecordM>::empty(),
{
    assert(sort_m(Seq::<ChangeM>::empty()) =~= Seq::<ChangeM>::empty());
    assert(out_of(src, Seq::<ChangeM>::empty()) =~= src);
}

/// Undo one record against output bytes: a replacement's bytes give way to
/// the original bytes it covered, an insertion's bytes are deleted.
pub open spec fn undo_one(b: Seq<u8>, r: RecordM) -> Seq<u8> {
    b.take(r.pos) + (if r.replace {
        r.original
    } else {
        Seq::empty()
    }) + b.skip(r.pos + r.size)
}

/// Undo the records in descending output position, that is last first.
pub open spec fn unapply(b: Seq<u8>, recs: Seq<RecordM>) -> Seq<u8>
    decreases recs.len(),
{
    if recs.len() == 0 {
        b
    } else {
        unapply(undo_one(b, recs.last()), recs.drop_last())
    }
}

/// Records lie inside the first `outlen` output bytes, in ascending
/// position and without overlap.
pub open spec fn recs_wf(recs: Seq<RecordM>, outlen: int) -> bool {
    &&& forall|i: int|
        0 <= i < recs.len() ==> 0 <= #[trigger] recs[i].pos && recs[i].size >= 0 && recs[i].pos
            + recs[i].size <= outlen
    &&& forall|i: int, j: int|
        0 <= i < j < recs.len() ==> #[trigger] recs[i].pos + recs[i].size
            <= #[trigger] recs[j].pos
}

/// Bytes appended after every record are untouched by undoing.
proof fn lemma_unapply_append(b: Seq<u8>, recs: Seq<RecordM>, suf: Seq<u8>)
    requires
        recs_wf(recs, b.len() as int),
    ensures
        unapply(b + suf, recs) == unapply(b, recs) + suf,
    decreases recs.len(),
{
    if recs.len() > 0 {
        let r = recs.last();
        assert((b + suf).take(r.pos) =~= b.take(r.pos));
        assert((b + suf).skip(r.pos + r.size) =~= b.skip(r.pos + r.size) + suf);
        assert(undo_one(b + suf, r) =~= undo_one(b, r) + suf);
        assert(recs_wf(recs.drop_last(), undo_one(b, r).len() as int)) by {
            assert(undo_one(b, r).len() >= r.pos);
            assert(forall|i: int|
                0 <= i < recs.len() - 1 ==> #[trigger] recs.drop_last()[i] == recs[i]);
        }
        lemma_unapply_append(undo_one(b, r), recs.drop_last(), suf);
    }
}

/// Running the pass preserves the reverting property: undoing the records
/// produced so far on the output produced so far restores exactly the
/// prefix of the source the cursor has consumed.
proof fn lemma_apply_reverts(src: Seq<u8>, cs: Seq<ChangeM>, st: ApplyState)
    requires
        0 <= st.cursor <= src.len(),
        recs_wf(st.records, st.out.len() as int),
        unapply(st.out, st.records) == src.take(st.cursor),
    ensures
        recs_wf(apply_from(src, cs, st).records, apply_from(src, cs, st).out.len() as int),
        unapply(apply_from(src, cs, st).out, apply_from(src, cs, st).records) == src.take(
            apply_from(src, cs, st).cursor,
        ),
    decreases cs.len(),
{
    if cs.len() > 0 {
        let c = cs[0];
        let st1 = apply_one(src, st, c);
        if c.start < st.cursor || c.end < c.start || c.end > src.len() {
            lemma_apply_reverts(src, cs.drop_first(), st1);
        } else {
            let copied = st.out + src.subrange(st.cursor, c.start);
            let r = st1.records.last();
            assert(st1.records.drop_last() =~= st.records);
            assert(recs_wf(st1.records, st1.out.len() as int)) by {
                assert(forall|i: int|
                    0 <= i < st.records.len() ==> #[trigger] st1.records[i] == st.records[i]);
                assert(r.pos == copied.len());
                assert(r.pos + r.size <= st1.out.len());
            }
            assert(st1.out.take(r.pos) =~= copied);
            if c.is_insert() {
                assert(st1.out.skip(r.pos + r.size) =~= src.subrange(c.start, c.end));
                assert(undo_one(st1.out, r) =~= st.out + src.subrange(st.cursor, c.end));
            } else {
                assert(st1.out.skip(r.pos + r.size) =~= Seq::<u8>::empty());
                assert(undo_one(st1.out, r) =~= st.out + src.subrange(st.cursor, c.end));
            }
            lemma_unapply_append(st.out, st.records, src.subrange(st.cursor, c.end));
            assert(unapply(st1.out, st1.records) == unapply(
                undo_one(st1.out, r),
                st1.records.drop_last(),
            ));
            assert(unapply(st1.out, st1.records) == src.take(st.cursor) + src.subrange(
                st.cursor,
                c.end,
            ));
            assert(src.take(st.cursor) + src.subrange(st.cursor, c.end) =~= src.take(c.end));
            lemma_apply_reverts(src, cs.drop_first(), st1);
        }
    }
}

/// Replace reversibility: undoing the emitted records on the emitted
/// bytes, in descending output position, restores the source exactly.
/// A replacement gives way to the original bytes held in its record; an
/// insertion is deleted.
pub proof fn lemma_records_revert(src: Seq<u8>, cs: Seq<ChangeM>)
    ensures
        unapply(out_of(src, cs), recs_of(src, cs)) == src,
{
    let sorted = sort_m(cs);
    let init = init_state();
    assert(unapply(init.out, init.records) =~= src.take(0));
    lemma_apply_reverts(src, sorted, init);
    lemma_apply_basic(src, sorted, init);
    let fin = apply_from(src, sorted, init);
    lemma_unapply_append(fin.out, fin.records, src.subrange(fin.cursor, src.len() as int));
    assert(src.take(fin.cursor) + src.subrange(fin.cursor, src.len() as int) =~= src);
}

/// True when `p` lies inside some change's span.
pub open spec fn covered(cs: Seq<ChangeM>, p: int) -> bool {
    exists|i: int| 0 <= i < cs.len() && (#[trigger] cs[i]).start <= p < cs[i].end
}

/// A change list the pass applies without dropping anything: each span is
/// ordered, in range, and starts at or after the previous span's end.
pub open spec fn applicable(src: Seq<u8>, cs: Seq<ChangeM>, cursor: int) -> bool
    decreases cs.len(),
{
    if cs.len() == 0 {
        true
    } else {
        &&& cursor <= cs[0].start
        &&& cs[0].start <= cs[0].end
        &&& cs[0].end <= src.len()
        &&& applicable(src, cs.drop_first(), cs[0].end)
    }
}

/// Net length change contributed by the changes that land at or before
/// source position `p`: rendered bytes added, minus replaced bytes removed.
pub open spec fn offset_at(cs: Seq<ChangeM>, p: int) -> int
    decreases cs.len(),
{
    if cs.len() == 0 {
        0
    } else {
        (if cs[0].end <= p {
            cs[0].payload.len() - (if cs[0].is_insert() {
                0
            } else {
                cs[0].end - cs[0].start
            })
        } else {
            0
        }) + offset_at(cs.drop_first(), p)
    }
}

proof fn lemma_applicable_all(src: Seq<u8>, cs: Seq<ChangeM>, cursor: int)
    requires
        applicable(src, cs, cursor),
    ensures
        forall|j: int|
            0 <= j < cs.len() ==> cursor <= #[trigger] cs[j].start && cs[j].start <= cs[j].end
                && cs[j].end <= src.len(),
    decreases cs.len(),
{
    if cs.len() > 0 {
        lemma_applicable_all(src, cs.drop_first(), cs[0].end);
        assert(forall|j: int| 1 <= j < cs.len() ==> #[trigger] cs[j] == cs.drop_first()[j - 1]);
    }
}

/// Preservation: when the changes are applicable, every source byte not
/// covered by a change span reappears in the output, shifted right by the
/// cumulative length change of the edits that land at or before it.
proof fn lemma_preserved_from(src: Seq<u8>, cs: Seq<ChangeM>, st: ApplyState)
    requires
        0 <= st.cursor <= src.len(),
        applicable(src, cs, st.cursor),
    ensures
        forall|p: int|
            st.cursor <= p < src.len() && !covered(cs, p) ==> {
                let q = p + st.out.len() - st.cursor + #[trigger] offset_at(cs, p);
                0 <= q < final_out(src, cs, st).len() && final_out(src, cs, st)[q] == src[p]
            },
    decreases cs.len(),
{
    lemma_apply_basic(src, cs, st);
    if cs.len() == 0 {
        assert forall|p: int|
            st.cursor <= p < src.len() && !covered(cs, p) implies {
            let q = p + st.out.len() - st.cursor + offset_at(cs, p);
            0 <= q < final_out(src, cs, st).len() && final_out(src, cs, st)[q] == src[p]
        } by {
            let q = p + st.out.len() - st.cursor + offset_at(cs, p);
            assert(offset_at(cs, p) == 0);
            assert(final_out(src, cs, st)[q] == src.subrange(st.cursor, src.len() as int)[p
                - st.cursor]);
        }
    } else {
        let c = cs[0];
        let st1 = apply_one(src, st, c);
        assert(!(c.start < st.cursor || c.end < c.start || c.end > src.len()));
        lemma_applicable_all(src, cs, st.cursor);
        lemma_applicable_all(src, cs.drop_first(), c.end);
        lemma_preserved_from(src, cs.drop_first(), st1);
        lemma_apply_basic(src, cs.drop_first(), st1);
        let fin = apply_from(src, cs, st);
        assert(fin == apply_from(src, cs.drop_first(), st1));
        let copied = st.out + src.subrange(st.cursor, c.start);
        assert forall|p: int|
            st.cursor <= p < src.len() && !covered(cs, p) implies {
            let q = p + st.out.len() - st.cursor + offset_at(cs, p);
            0 <= q < final_out(src, cs, st).len() && final_out(src, cs, st)[q] == src[p]
        } by {
            let q = p + st.out.len() - st.cursor + offset_at(cs, p);
            assert(!covered(cs.drop_first(), p)) by {
                if covered(cs.drop_first(), p) {
                    let i = choose|i: int|
                        0 <= i < cs.drop_first().len() && (#[trigger] cs.drop_first()[i]).start
                            <= p < cs.drop_first()[i].end;
                    assert(cs[i + 1].start <= p < cs[i + 1].end);
                }
            }
            assert(!(c.start <= p < c.end));
            if p < c.start {
                // the byte was copied verbatim in this very step, and
                // nothing that comes later reaches back before the cursor
                assert(offset_at(cs.drop_first(), p) == 0) by {
                    lemma_offset_before(cs.drop_first(), p, c.end);
                }
                assert(offset_at(cs, p) == 0);
                assert(q == p + st.out.len() - st.cursor);
                assert(st1.out[q] == copied[q]);
                assert(copied[q] == src.subrange(st.cursor, c.start)[p - st.cursor]);
                assert(q < st1.out.len());
                assert(fin.out[q] == st1.out[q]);
                assert(final_out(src, cs, st)[q] == fin.out[q]);
            } else {
                // the byte lies at or past the span end: the step shifts it
                // by this change's net length, the rest by the remainder
                assert(c.end <= p);
                let delta_c = c.payload.len() - (if c.is_insert() {
                    0int
                } else {
                    c.end - c.start
                });
                assert(offset_at(cs, p) == delta_c + offset_at(cs.drop_first(), p));
                assert(st1.out.len() == st.out.len() + (c.start - st.cursor) + c.payload.len() + (
                if c.is_insert() {
                    c.end - c.start
                } else {
                    0int
                }));
                assert(q == p + st1.out.len() - st1.cursor + offset_at(cs.drop_first(), p));
                assert(final_out(src, cs.drop_first(), st1) == final_out(src, cs, st));
            }
        }
    }
}

/// Changes that all start at or after `lo` contribute no offset to a
/// position before `lo`.
proof fn lemma_offset_before(cs: Seq<ChangeM>, p: int, lo: int)
    requires
        p < lo,
        forall|j: int| 0 <= j < cs.len() ==> lo <= #[trigger] cs[j].start && cs[j].start <= cs[j].end,
    ensures
        offset_at(cs, p) == 0,
    decreases cs.len(),
{
    if cs.len() > 0 {
        assert(forall|j: int| 1 <= j < cs.len() ==> #[trigger] cs[j] == cs.drop_first()[j - 1]);
        lemma_offset_before(cs.drop_first(), p, lo);
    }
}

/// Preservation at the pass level: with applicable changes, every source
/// byte outside every change span appears in the output at its original
/// position plus the cumulative offset of the edits before it.
pub proof fn lemma_preservation(src: Seq<u8>, cs: Seq<ChangeM>)
    requires
        applicable(src, cs, 0),
    ensures
        forall|p: int|
            0 <= p < src.len() && !covered(cs, p) ==> {
                let q = p + #[trigger] offset_at(cs, p);
                0 <= q < final_out(src, cs, init_state()).len() && final_out(
                    src,
                    cs,
                    init_state(),
                )[q] == src[p]
            },
{
    lemma_preserved_from(src, cs, init_state());
}

} // verus!
