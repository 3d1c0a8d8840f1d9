//! Primitive edit records and their ordering.
//!
//! A change is an edit against a byte span of the original source: a
//! positional insertion (left of the span, right of the span, the closing
//! text of a wrap-call, or an error marker) or a replacement of the span.
//! Changes are applied in a strict total order: ascending span start, then
//! ascending span end, then a priority band in which an error marker
//! precedes a wrap-call closer, which precedes everything else. The order
//! here refines that key with the kind and the payload bytes so that it is
//! antisymmetric on values, which makes the transformer's output
//! independent of the order in which changes were collected.

use vstd::prelude::*;

use crate::span::Span;

verus! {

/// A primitive edit: where the payload goes relative to the span.
#[derive(Debug, Clone)]
pub enum JsChangeType {
    InsertLeft(Vec<u8>),
    InsertRight(Vec<u8>),
    WrapFnRight(Vec<u8>),
    RascalErrFn(Vec<u8>),
    Replace(Vec<u8>),
}

/// A primitive edit record against a span of the original source.
#[derive(Debug, Clone)]
pub struct JsChange {
    pub span: Span,
    pub ty: JsChangeType,
}

/// Mathematical image of a change. The tag orders the kinds inside the
/// priority bands: error marker 0, wrap-call closer 1, insert-left 2,
/// insert-right 3, replace 4; priority is 0, 1 and then 2 for the rest.
pub struct ChangeM {
    pub start: int,
    pub end: int,
    pub tag: int,
    pub payload: Seq<u8>,
}

impl ChangeM {
    /// Every change but a replacement keeps the spanned bytes in place.
    pub open spec fn is_insert(self) -> bool {
        self.tag != 4
    }
}

impl JsChange {
    pub open spec fn tag(&self) -> int {
        match self.ty {
            JsChangeType::RascalErrFn(_) => 0,
            JsChangeType::WrapFnRight(_) => 1,
            JsChangeType::InsertLeft(_) => 2,
            JsChangeType::InsertRight(_) => 3,
            JsChangeType::Replace(_) => 4,
        }
    }

    pub open spec fn payload_view(&self) -> Seq<u8> {
        match self.ty {
            JsChangeType::RascalErrFn(ref v) => v@,
            JsChangeType::WrapFnRight(ref v) => v@,
            JsChangeType::InsertLeft(ref v) => v@,
            JsChangeType::InsertRight(ref v) => v@,
            JsChangeType::Replace(ref v) => v@,
        }
    }

    pub open spec fn model(&self) -> ChangeM {
        ChangeM {
            start: self.span.start as int,
            end: self.span.end as int,
            tag: self.tag(),
            payload: self.payload_view(),
        }
    }

    /// Insertion anchored at the left edge of `span`.
    pub fn insert_left(span: Span, text: Vec<u8>) -> (c: JsChange)
        ensures
            c.model() == (ChangeM {
                start: span.start as int,
                end: span.start as int,
                tag: 2,
                payload: text@,
            }),
    {
        JsChange { span: Span::new(span.start, span.start), ty: JsChangeType::InsertLeft(text) }
    }

    /// Insertion anchored at the right edge of `span`, normal priority.
    pub fn insert_right(span: Span, text: Vec<u8>) -> (c: JsChange)
        ensures
            c.model() == (ChangeM {
                start: span.end as int,
                end: span.end as int,
                tag: 3,
                payload: text@,
            }),
    {
        JsChange { span: Span::new(span.end, span.end), ty: JsChangeType::InsertRight(text) }
    }

    /// Closing text of a wrap call, anchored right; precedes other
    /// insertions at the same byte.
    pub fn wrap_fn_right(span: Span, text: Vec<u8>) -> (c: JsChange)
        ensures
            c.model() == (ChangeM {
                start: span.end as int,
                end: span.end as int,
                tag: 1,
                payload: text@,
            }),
    {
        JsChange { span: Span::new(span.end, span.end), ty: JsChangeType::WrapFnRight(text) }
    }

    /// Error-reporting wrapper, anchored left; precedes everything else at
    /// the same byte.
    pub fn error_marker(span: Span, text: Vec<u8>) -> (c: JsChange)
        ensures
            c.model() == (ChangeM {
                start: span.start as int,
                end: span.start as int,
                tag: 0,
                payload: text@,
            }),
    {
        JsChange { span: Span::new(span.start, span.start), ty: JsChangeType::RascalErrFn(text) }
    }

    /// Replacement of the whole span by the payload.
    pub fn replace(span: Span, text: Vec<u8>) -> (c: JsChange)
        ensures
            c.model() == (ChangeM {
                start: span.start as int,
                end: span.end as int,
                tag: 4,
                payload: text@,
            }),
    {
        JsChange { span, ty: JsChangeType::Replace(text) }
    }
}

pub open spec fn models(s: Seq<JsChange>) -> Seq<ChangeM> {
    s.map_values(|c: JsChange| c.model())
}

/// Lexicographic order on byte strings.
pub open spec fn bytes_le(a: Seq<u8>, b: Seq<u8>) -> bool
    decreases a.len(),
{
    if a.len() == 0 {
        true
    } else if b.len() == 0 {
        false
    } else if a[0] < b[0] {
        true
    } else if a[0] > b[0] {
        false
    } else {
        bytes_le(a.drop_first(), b.drop_first())
    }
}

pub proof fn lemma_bytes_le_total(a: Seq<u8>, b: Seq<u8>)
    ensures
        bytes_le(a, b) || bytes_le(b, a),
    decreases a.len(),
{
    if a.len() > 0 && b.len() > 0 && a[0] == b[0] {
        lemma_bytes_le_total(a.drop_first(), b.drop_first());
    }
}

pub proof fn lemma_bytes_le_antisym(a: Seq<u8>, b: Seq<u8>)
    requires
        bytes_le(a, b),
        bytes_le(b, a),
    ensures
        a == b,
    decreases a.len(),
{
    if a.len() == 0 {
        assert(a =~= b);
    } else {
        lemma_bytes_le_antisym(a.drop_first(), b.drop_first());
        assert(a =~= seq![a[0]] + a.drop_first());
        assert(b =~= seq![b[0]] + b.drop_first());
    }
}

pub proof fn lemma_bytes_le_trans(a: Seq<u8>, b: Seq<u8>, c: Seq<u8>)
    requires
        bytes_le(a, b),
        bytes_le(b, c),
    ensures
        bytes_le(a, c),
    decreases a.len(),
{
    if a.len() > 0 && b.len() > 0 && c.len() > 0 && a[0] == b[0] && b[0] == c[0] {
        lemma_bytes_le_trans(a.drop_first(), b.drop_first(), c.drop_first());
    }
}

/// The strict total order on changes: span start, span end, kind tag
/// (which refines the priority bands), then payload bytes.
pub open spec fn change_le(a: ChangeM, b: ChangeM) -> bool {
    if a.start != b.start {
        a.start < b.start
    } else if a.end != b.end {
        a.end < b.end
    } else if a.tag != b.tag {
        a.tag < b.tag
    } else {
        bytes_le(a.payload, b.payload)
    }
}

pub proof fn lemma_change_le_total(a: ChangeM, b: ChangeM)
    ensures
        change_le(a, b) || change_le(b, a),
{
    lemma_bytes_le_total(a.payload, b.payload);
}

pub proof fn lemma_change_le_antisym(a: ChangeM, b: ChangeM)
    requires
        change_le(a, b),
        change_le(b, a),
    ensures
        a == b,
{
    lemma_bytes_le_antisym(a.payload, b.payload);
}

pub proof fn lemma_change_le_trans(a: ChangeM, b: ChangeM, c: ChangeM)
    requires
        change_le(a, b),
        change_le(b, c),
    ensures
        change_le(a, c),
{
    if a.start == b.start && b.start == c.start && a.end == b.end && b.end == c.end && a.tag
        == b.tag && b.tag == c.tag {
        lemma_bytes_le_trans(a.payload, b.payload, c.payload);
    }
}

fn bytes_le_exec(a: &Vec<u8>, b: &Vec<u8>) -> (r: bool)
    ensures
        r == bytes_le(a@, b@),
{
    let na = a.len();
    let nb = b.len();
    let mut i: usize = 0;
    proof {
        assert(a@.skip(0) =~= a@);
        assert(b@.skip(0) =~= b@);
    }
    while i < na && i < nb
        invariant
            i <= na,
            i <= nb,
            na == a@.len(),
            nb == b@.len(),
            bytes_le(a@, b@) == bytes_le(a@.skip(i as int), b@.skip(i as int)),
            forall|k: int| 0 <= k < i ==> a@[k] == b@[k],
        decreases na - i,
    {
        let x = a[i];
        let y = b[i];
        proof {
            assert(a@.skip(i as int)[0] == a@[i as int]);
            assert(b@.skip(i as int)[0] == b@[i as int]);
            assert(a@.skip(i as int).drop_first() =~= a@.skip(i + 1));
            assert(b@.skip(i as int).drop_first() =~= b@.skip(i + 1));
        }
        if x < y {
            return true;
        }
        if x > y {
            return false;
        }
        i = i + 1;
    }
    proof {
        assert(a@.skip(i as int).len() == na - i);
        assert(b@.skip(i as int).len() == nb - i);
    }
    na - i == 0
}

impl JsChange {
    fn tag_exec(&self) -> (t: u8)
        ensures
            t as int == self.tag(),
    {
        match self.ty {
            JsChangeType::RascalErrFn(_) => 0,
            JsChangeType::WrapFnRight(_) => 1,
            JsChangeType::InsertLeft(_) => 2,
            JsChangeType::InsertRight(_) => 3,
            JsChangeType::Replace(_) => 4,
        }
    }

    fn payload_ref(&self) -> (p: &Vec<u8>)
        ensures
            p@ == self.payload_view(),
    {
        match self.ty {
            JsChangeType::RascalErrFn(ref v) => v,
            JsChangeType::WrapFnRight(ref v) => v,
            JsChangeType::InsertLeft(ref v) => v,
            JsChangeType::InsertRight(ref v) => v,
            JsChangeType::Replace(ref v) => v,
        }
    }
}

fn change_le_exec(a: &JsChange, b: &JsChange) -> (r: bool)
    ensures
        r == change_le(a.model(), b.model()),
{
    if a.span.start != b.span.start {
        a.span.start < b.span.start
    } else if a.span.end != b.span.end {
        a.span.end < b.span.end
    } else {
        let ta = a.tag_exec();
        let tb = b.tag_exec();
        if ta != tb {
            ta < tb
        } else {
            bytes_le_exec(a.payload_ref(), b.payload_ref())
        }
    }
}

/// Nondecreasing under `change_le`.
pub open spec fn sorted_changes(s: Seq<ChangeM>) -> bool {
    forall|i: int, j: int| 0 <= i < j < s.len() ==> change_le(#[trigger] s[i], #[trigger] s[j])
}

/// Insert `c` behind every element at most `c`, in front of the rest.
pub open spec fn insert_sorted(s: Seq<ChangeM>, c: ChangeM) -> Seq<ChangeM>
    decreases s.len(),
{
    if s.len() == 0 {
        seq![c]
    } else if change_le(s.last(), c) {
        s.push(c)
    } else {
        insert_sorted(s.drop_last(), c).push(s.last())
    }
}

/// The changes in the strict total order; ties cannot arise between
/// distinct values, so this is the unique sorted arrangement.
pub open spec fn sort_m(s: Seq<ChangeM>) -> Seq<ChangeM>
    decreases s.len(),
{
    if s.len() == 0 {
        Seq::empty()
    } else {
        insert_sorted(sort_m(s.drop_last()), s.last())
    }
}

proof fn lemma_insert_sorted_at(s: Seq<ChangeM>, c: ChangeM, j: int)
    requires
        0 <= j <= s.len(),
        forall|k: int| j <= k < s.len() ==> !change_le(#[trigger] s[k], c),
        j > 0 ==> change_le(s[j - 1], c),
    ensures
        insert_sorted(s, c) =~= s.insert(j, c),
    decreases s.len(),
{
    if j == s.len() {
        if s.len() == 0 {
        } else {
            assert(change_le(s.last(), c));
        }
    } else {
        assert(!change_le(s.last(), c));
        lemma_insert_sorted_at(s.drop_last(), c, j);
    }
}

proof fn lemma_insert_sorted_multiset(s: Seq<ChangeM>, c: ChangeM)
    ensures
        insert_sorted(s, c).to_multiset() =~= s.to_multiset().insert(c),
    decreases s.len(),
{
    s.to_multiset_ensures();
    if s.len() == 0 {
        Seq::<ChangeM>::empty().to_multiset_ensures();
        assert(seq![c] =~= Seq::<ChangeM>::empty().push(c));
    } else if change_le(s.last(), c) {
    } else {
        lemma_insert_sorted_multiset(s.drop_last(), c);
        let inner = insert_sorted(s.drop_last(), c);
        inner.to_multiset_ensures();
        s.drop_last().to_multiset_ensures();
        assert(s.drop_last().push(s.last()) =~= s);
        assert(inner.push(s.last()).to_multiset() =~= inner.to_multiset().insert(s.last()));
        assert(inner.to_multiset().insert(s.last()) =~= s.drop_last().to_multiset().insert(
            c,
        ).insert(s.last()));
        assert(s.drop_last().to_multiset().insert(s.last()) =~= s.to_multiset());
    }
}

proof fn lemma_insert_sorted_sorted(s: Seq<ChangeM>, c: ChangeM)
    requires
        sorted_changes(s),
    ensures
        sorted_changes(insert_sorted(s, c)),
    decreases s.len(),
{
    if s.len() == 0 {
    } else if change_le(s.last(), c) {
        let r = s.push(c);
        assert forall|i: int, j: int| 0 <= i < j < r.len() implies change_le(r[i], r[j]) by {
            if j == r.len() - 1 {
                if i < s.len() - 1 {
                    lemma_change_le_trans(s[i], s.last(), c);
                }
            }
        }
    } else {
        assert(sorted_changes(s.drop_last()));
        lemma_insert_sorted_sorted(s.drop_last(), c);
        let inner = insert_sorted(s.drop_last(), c);
        let r = inner.push(s.last());
        lemma_insert_sorted_membership(s.drop_last(), c);
        assert forall|i: int, j: int| 0 <= i < j < r.len() implies change_le(r[i], r[j]) by {
            if j == r.len() - 1 {
                // every element of `inner` is either `c` or from `s.drop_last()`,
                // and both are at most `s.last()`
                let x = inner[i];
                if x == c {
                    lemma_change_le_total(c, s.last());
                } else {
                    let k = choose|k: int| 0 <= k < s.len() - 1 && s.drop_last()[k] == x;
                    assert(change_le(s[k], s.last()));
                }
            }
        }
    }
}

/// Each element of the insertion result is `c` or an element of `s`.
proof fn lemma_insert_sorted_membership(s: Seq<ChangeM>, c: ChangeM)
    ensures
        forall|i: int|
            0 <= i < insert_sorted(s, c).len() ==> (#[trigger] insert_sorted(s, c)[i] == c
                || exists|k: int| 0 <= k < s.len() && s[k] == insert_sorted(s, c)[i]),
    decreases s.len(),
{
    if s.len() == 0 {
    } else if change_le(s.last(), c) {
    } else {
        lemma_insert_sorted_membership(s.drop_last(), c);
        let inner = insert_sorted(s.drop_last(), c);
        assert forall|i: int|
            0 <= i < inner.push(s.last()).len() implies (#[trigger] inner.push(s.last())[i] == c
            || exists|k: int| 0 <= k < s.len() && s[k] == inner.push(s.last())[i]) by {
            if i == inner.len() {
                assert(s[s.len() - 1] == inner.push(s.last())[i]);
            } else {
                assert(inner.push(s.last())[i] == inner[i]);
                if inner[i] != c {
                    let k = choose|k: int| 0 <= k < s.drop_last().len() && s.drop_last()[k]
                        == inner[i];
                    assert(s[k] == inner[i]);
                }
            }
        }
    }
}

pub proof fn lemma_sort_m_sorted(s: Seq<ChangeM>)
    ensures
        sorted_changes(sort_m(s)),
    decreases s.len(),
{
    if s.len() > 0 {
        lemma_sort_m_sorted(s.drop_last());
        lemma_insert_sorted_sorted(sort_m(s.drop_last()), s.last());
    }
}

pub proof fn lemma_sort_m_multiset(s: Seq<ChangeM>)
    ensures
        sort_m(s).to_multiset() =~= s.to_multiset(),
    decreases s.len(),
{
    if s.len() > 0 {
        let dl = s.drop_last();
        let l = s.last();
        lemma_sort_m_multiset(dl);
        lemma_insert_sorted_multiset(sort_m(dl), l);
        s.to_multiset_ensures();
        dl.to_multiset_ensures();
        assert(dl.push(l) =~= s);
        assert(dl.push(l).to_multiset() =~= dl.to_multiset().insert(l));
        assert(sort_m(s).to_multiset() =~= sort_m(dl).to_multiset().insert(l));
    } else {
        assert(s =~= Seq::<ChangeM>::empty());
        assert(sort_m(s) =~= s);
    }
}

/// Two sorted sequences with the same multiset of changes are equal:
/// the total order leaves no room for rearrangement.
pub proof fn lemma_sorted_multiset_unique(s1: Seq<ChangeM>, s2: Seq<ChangeM>)
    requires
        sorted_changes(s1),
        sorted_changes(s2),
        s1.to_multiset() == s2.to_multiset(),
    ensures
        s1 =~= s2,
    decreases s1.len(),
{
    s1.to_multiset_ensures();
    s2.to_multiset_ensures();
    if s1.len() == 0 {
        assert(s2.len() == 0);
    } else {
        assert(s2.len() == s1.len());
        let a = s1.last();
        let b = s2.last();
        assert(s1.contains(a));
        assert(s1.to_multiset().count(a) > 0);
        assert(s2.contains(a));
        let ka = choose|k: int| 0 <= k < s2.len() && s2[k] == a;
        assert(change_le(a, b)) by {
            if ka < s2.len() - 1 {
                assert(change_le(s2[ka], s2[s2.len() - 1]));
            } else {
                lemma_change_le_total(a, b);
            }
        }
        assert(s2.to_multiset().count(b) > 0);
        assert(s1.contains(b));
        let kb = choose|k: int| 0 <= k < s1.len() && s1[k] == b;
        assert(change_le(b, a)) by {
            if kb < s1.len() - 1 {
                assert(change_le(s1[kb], s1[s1.len() - 1]));
            } else {
                lemma_change_le_total(a, b);
            }
        }
        lemma_change_le_antisym(a, b);
        assert(s1.drop_last() =~= s1.remove(s1.len() - 1));
        assert(s2.drop_last() =~= s2.remove(s2.len() - 1));
        assert(s1.remove(s1.len() - 1).to_multiset() =~= s1.to_multiset().remove(s1[s1.len() - 1]));
        assert(s2.remove(s2.len() - 1).to_multiset() =~= s2.to_multiset().remove(s2[s2.len() - 1]));
        assert(s1.drop_last().to_multiset() =~= s1.to_multiset().remove(a));
        assert(s2.drop_last().to_multiset() =~= s2.to_multiset().remove(b));
        assert(sorted_changes(s1.drop_last()));
        assert(sorted_changes(s2.drop_last()));
        lemma_sorted_multiset_unique(s1.drop_last(), s2.drop_last());
        assert forall|i: int| 0 <= i < s1.len() implies s1[i] == s2[i] by {
            if i < s1.len() - 1 {
                assert(s1.drop_last()[i] == s1[i]);
                assert(s2.drop_last()[i] == s2[i]);
            }
        }
    }
}

/// Sorting depends only on the multiset of changes, never on the order in
/// which they were collected.
pub proof fn lemma_sort_m_permutation(s1: Seq<ChangeM>, s2: Seq<ChangeM>)
    requires
        s1.to_multiset() == s2.to_multiset(),
    ensures
        sort_m(s1) =~= sort_m(s2),
{
    lemma_sort_m_sorted(s1);
    lemma_sort_m_sorted(s2);
    lemma_sort_m_multiset(s1);
    lemma_sort_m_multiset(s2);
    lemma_sorted_multiset_unique(sort_m(s1), sort_m(s2));
}

/// Arrange the changes in the strict total order by insertion sort.
pub fn sort_changes(changes: Vec<JsChange>) -> (r: Vec<JsChange>)
    ensures
        models(r@) == sort_m(models(changes@)),
{
    let ghost orig = models(changes@);
    let mut input = changes;
    let mut acc: Vec<JsChange> = Vec::new();
    while input.len() > 0
        invariant
            models(input@) =~= orig.skip(orig.len() - input@.len()),
            input@.len() <= orig.len(),
            models(acc@) =~= sort_m(orig.take(orig.len() - input@.len())),
        decreases input@.len(),
    {
        let ghost k = orig.len() - input@.len();
        let ghost before = models(input@);
        let x = input.remove(0);
        proof {
            assert(before.remove(0) =~= models(input@));
            assert(before =~= orig.skip(k));
            assert(before[0] == x.model());
            assert(orig.skip(k)[0] == orig[k]);
            assert(x.model() == orig[k]);
            assert(models(input@) =~= orig.skip(k + 1));
        }
        let ghost accm = models(acc@);
        let mut j: usize = acc.len();
        while j > 0 && !change_le_exec(&acc[j - 1], &x)
            invariant
                j <= acc@.len(),
                models(acc@) == accm,
                forall|t: int| j <= t < accm.len() ==> !change_le(#[trigger] accm[t], x.model()),
            decreases j,
        {
            j = j - 1;
        }
        proof {
            lemma_insert_sorted_at(accm, x.model(), j as int);
        }
        acc.insert(j, x);
        proof {
            assert(models(acc@) =~= accm.insert(j as int, x.model()));
            assert(orig.take(k + 1).drop_last() =~= orig.take(k));
            assert(orig.take(k + 1).last() == orig[k]);
            assert(models(acc@) =~= sort_m(orig.take(k + 1)));
        }
    }
    proof {
        assert(orig.take(orig.len() as int) =~= orig);
    }
    acc
}

} // verus!
