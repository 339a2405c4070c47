//! Ordering specifications shared by the merge primitives and the sorts.
//!
//! Every sorting entry point of this crate promises the same thing: the
//! output sequence is `sorted_version` of the input, the unique sorted
//! permutation of its contents.

use vstd::prelude::*;
use vstd::relations::{sorted_by, total_ordering};

verus! {

/// The total order on `u64` used throughout the crate.
pub open spec fn u64_le() -> spec_fn(u64, u64) -> bool {
    |x: u64, y: u64| x <= y
}

/// A sequence is sorted in non-decreasing order.
pub open spec fn sorted(s: Seq<u64>) -> bool {
    forall|i: int, j: int| 0 <= i < j < s.len() ==> #[trigger] s[i] <= #[trigger] s[j]
}

/// The unique sorted permutation of a sequence's contents.
pub open spec fn sorted_version(s: Seq<u64>) -> Seq<u64> {
    s.sort_by(u64_le())
}

/// The range `[from, to)` of a sequence is sorted in non-decreasing order.
pub open spec fn sorted_range(s: Seq<u64>, from: int, to: int) -> bool {
    forall|i: int, j: int| from <= i < j < to ==> #[trigger] s[i] <= #[trigger] s[j]
}

/// All elements of a sequence are equal to each other.
pub open spec fn all_eq(s: Seq<u64>) -> bool {
    forall|i: int, j: int| 0 <= i < s.len() && 0 <= j < s.len() ==> #[trigger] s[i] == #[trigger] s[j]
}

/// A sorted range, taken out as a subrange, is a sorted sequence.
pub proof fn lemma_sorted_range_subrange(s: Seq<u64>, from: int, to: int, a: int, b: int)
    requires
        sorted_range(s, from, to),
        from <= a <= b <= to <= s.len(),
        0 <= from,
    ensures
        sorted(s.subrange(a, b)),
{
    assert forall|i: int, j: int|
        0 <= i < j < s.subrange(a, b).len() implies #[trigger] s.subrange(a, b)[i]
        <= #[trigger] s.subrange(a, b)[j] by {
        assert(s[a + i] <= s[a + j]);
    }
}

/// Every element of `a` is no greater than every element of `b`.
pub open spec fn seq_le(a: Seq<u64>, b: Seq<u64>) -> bool {
    forall|i: int, j: int|
        0 <= i < a.len() && 0 <= j < b.len() ==> #[trigger] a[i] <= #[trigger] b[j]
}

pub proof fn lemma_u64_le_total_ordering()
    ensures
        total_ordering(u64_le()),
{
}

pub proof fn lemma_sorted_iff_sorted_by(s: Seq<u64>)
    ensures
        sorted(s) <==> sorted_by(s, u64_le()),
{
    let leq = u64_le();
    if sorted(s) {
        assert forall|i: int, j: int| 0 <= i < j < s.len() implies #[trigger] leq(s[i], s[j]) by {
            assert(s[i] <= s[j]);
        }
    }
    if sorted_by(s, leq) {
        assert forall|i: int, j: int| 0 <= i < j < s.len() implies #[trigger] s[i] <= #[trigger] s[j] by {
            assert(leq(s[i], s[j]));
        }
    }
}

/// `sorted_version` really is a sorted permutation of its argument.
pub proof fn lemma_sorted_version_ensures(s: Seq<u64>)
    ensures
        sorted(sorted_version(s)),
        sorted_version(s).to_multiset() == s.to_multiset(),
        sorted_version(s).len() == s.len(),
{
    lemma_u64_le_total_ordering();
    s.lemma_sort_by_ensures(u64_le());
    lemma_sorted_iff_sorted_by(sorted_version(s));
    assert(sorted_version(s).to_multiset() == s.to_multiset());
    s.to_multiset_ensures();
    sorted_version(s).to_multiset_ensures();
}

/// A sorted sequence with the contents of `s` is `sorted_version(s)`:
/// the sorted permutation is unique.
pub proof fn lemma_sorted_version_unique(a: Seq<u64>, s: Seq<u64>)
    requires
        sorted(a),
        a.to_multiset() == s.to_multiset(),
    ensures
        a == sorted_version(s),
{
    lemma_u64_le_total_ordering();
    lemma_sorted_version_ensures(s);
    lemma_sorted_iff_sorted_by(a);
    lemma_sorted_iff_sorted_by(sorted_version(s));
    vstd::seq_lib::lemma_sorted_unique(a, sorted_version(s), u64_le());
    assert(a =~= sorted_version(s));
}

/// Sorting an already-sorted sequence is the identity on its contents.
pub proof fn lemma_sort_of_sorted_is_identity(s: Seq<u64>)
    requires
        sorted(s),
    ensures
        sorted_version(s) == s,
{
    lemma_sorted_version_unique(s, s);
}

/// A subrange of a sorted sequence is sorted.
pub proof fn lemma_sorted_subrange(s: Seq<u64>, a: int, b: int)
    requires
        sorted(s),
        0 <= a <= b <= s.len(),
    ensures
        sorted(s.subrange(a, b)),
{
}

/// Concatenating sorted sequences separated by `seq_le` gives a sorted sequence.
pub proof fn lemma_sorted_concat(a: Seq<u64>, b: Seq<u64>)
    requires
        sorted(a),
        sorted(b),
        seq_le(a, b),
    ensures
        sorted(a + b),
{
    assert forall|i: int, j: int| 0 <= i < j < (a + b).len() implies (a + b)[i] <= (a + b)[j] by {
        if j < a.len() {
            assert(a[i] <= a[j]);
        } else if i >= a.len() {
            assert(b[i - a.len()] <= b[j - a.len()]);
        } else {
            assert(a[i] <= b[j - a.len()]);
        }
    }
}

/// The multiset of a concatenation is the sum of the multisets.
pub proof fn lemma_multiset_concat(a: Seq<u64>, b: Seq<u64>)
    ensures
        (a + b).to_multiset() == a.to_multiset().add(b.to_multiset()),
{
    vstd::seq_lib::lemma_multiset_commutative(a, b);
}

/// One step of a merge: moving `x` from the head of either source onto the
/// written output preserves the multiset accounting.
pub proof fn lemma_merge_step(w: Seq<u64>, aa: Seq<u64>, bb: Seq<u64>, x: u64)
    requires
        w.to_multiset() == (aa + bb).to_multiset(),
    ensures
        (w.push(x)).to_multiset() == (aa.push(x) + bb).to_multiset(),
        (w.push(x)).to_multiset() == (aa + bb.push(x)).to_multiset(),
{
    broadcast use vstd::seq_lib::group_to_multiset_ensures;
    broadcast use vstd::multiset::group_multiset_axioms;

    lemma_multiset_concat(aa, bb);
    lemma_multiset_concat(aa.push(x), bb);
    lemma_multiset_concat(aa, bb.push(x));
    assert((aa.push(x)).to_multiset() == aa.to_multiset().insert(x));
    assert((bb.push(x)).to_multiset() == bb.to_multiset().insert(x));
    assert((w.push(x)).to_multiset() == w.to_multiset().insert(x));
    assert(aa.to_multiset().insert(x).add(bb.to_multiset()) =~= aa.to_multiset().add(
        bb.to_multiset(),
    ).insert(x));
    assert(aa.to_multiset().add(bb.to_multiset().insert(x)) =~= aa.to_multiset().add(
        bb.to_multiset(),
    ).insert(x));
}

/// One step of a three-way merge: moving `x` from the head of any source
/// onto the written output preserves the multiset accounting.
pub proof fn lemma_merge_step_3(w: Seq<u64>, aa: Seq<u64>, bb: Seq<u64>, cc: Seq<u64>, x: u64)
    requires
        w.to_multiset() == (aa + bb + cc).to_multiset(),
    ensures
        (w.push(x)).to_multiset() == (aa.push(x) + bb + cc).to_multiset(),
        (w.push(x)).to_multiset() == (aa + bb.push(x) + cc).to_multiset(),
        (w.push(x)).to_multiset() == (aa + bb + cc.push(x)).to_multiset(),
{
    broadcast use vstd::seq_lib::group_to_multiset_ensures;
    broadcast use vstd::multiset::group_multiset_axioms;

    lemma_multiset_concat(aa, bb);
    lemma_multiset_concat(aa + bb, cc);
    lemma_multiset_concat(aa.push(x), bb);
    lemma_multiset_concat(aa.push(x) + bb, cc);
    lemma_multiset_concat(aa, bb.push(x));
    lemma_multiset_concat(aa + bb.push(x), cc);
    lemma_multiset_concat(aa + bb, cc.push(x));
    assert((aa.push(x)).to_multiset() == aa.to_multiset().insert(x));
    assert((bb.push(x)).to_multiset() == bb.to_multiset().insert(x));
    assert((cc.push(x)).to_multiset() == cc.to_multiset().insert(x));
    assert((w.push(x)).to_multiset() == w.to_multiset().insert(x));
    let m = aa.to_multiset().add(bb.to_multiset()).add(cc.to_multiset());
    assert(aa.to_multiset().insert(x).add(bb.to_multiset()).add(cc.to_multiset()) =~= m.insert(x));
    assert(aa.to_multiset().add(bb.to_multiset().insert(x)).add(cc.to_multiset()) =~= m.insert(x));
    assert(aa.to_multiset().add(bb.to_multiset()).add(cc.to_multiset().insert(x)) =~= m.insert(x));
}

/// Assembling a merge result: a sorted written prefix below a merged tail of
/// the remaining elements is the sorted version of the whole input.
pub proof fn lemma_merge_finish(v: Seq<u64>, o: int, rest_a: Seq<u64>, rest_b: Seq<u64>, whole: Seq<u64>)
    requires
        0 <= o <= v.len(),
        sorted(v.subrange(0, o)),
        v.subrange(o, v.len() as int) == sorted_version(rest_a + rest_b),
        seq_le(v.subrange(0, o), rest_a + rest_b),
        (v.subrange(0, o) + (rest_a + rest_b)).to_multiset() == whole.to_multiset(),
    ensures
        v == sorted_version(whole),
{
    let w = v.subrange(0, o);
    let u = rest_a + rest_b;
    let t = v.subrange(o, v.len() as int);
    lemma_sorted_version_ensures(u);
    lemma_seq_le_right_rearranged(w, t, u);
    lemma_sorted_concat(w, t);
    assert(v =~= w + t);
    lemma_multiset_concat(w, t);
    lemma_multiset_concat(w, u);
    assert(v.to_multiset() == whole.to_multiset());
    lemma_sorted_version_unique(v, whole);
}

/// Consumed prefixes plus (a rearrangement of) the remaining suffixes of
/// three sources account for all three sources.
pub proof fn lemma_consumed_plus_remaining(
    s1: Seq<u64>,
    s2: Seq<u64>,
    s3: Seq<u64>,
    i1: int,
    i2: int,
    i3: int,
    u: Seq<u64>,
)
    requires
        0 <= i1 <= s1.len(),
        0 <= i2 <= s2.len(),
        0 <= i3 <= s3.len(),
        u.to_multiset() == (s1.subrange(i1, s1.len() as int) + s2.subrange(i2, s2.len() as int)
            + s3.subrange(i3, s3.len() as int)).to_multiset(),
    ensures
        ((s1.subrange(0, i1) + s2.subrange(0, i2) + s3.subrange(0, i3))
            + u).to_multiset() == (s1 + s2 + s3).to_multiset(),
{
    broadcast use vstd::multiset::group_multiset_axioms;

    let c1 = s1.subrange(0, i1);
    let c2 = s2.subrange(0, i2);
    let c3 = s3.subrange(0, i3);
    let r1 = s1.subrange(i1, s1.len() as int);
    let r2 = s2.subrange(i2, s2.len() as int);
    let r3 = s3.subrange(i3, s3.len() as int);
    assert(s1 =~= c1 + r1);
    assert(s2 =~= c2 + r2);
    assert(s3 =~= c3 + r3);
    lemma_multiset_concat(c1, r1);
    lemma_multiset_concat(c2, r2);
    lemma_multiset_concat(c3, r3);
    lemma_multiset_concat(c1, c2);
    lemma_multiset_concat(c1 + c2, c3);
    lemma_multiset_concat(r1, r2);
    lemma_multiset_concat(r1 + r2, r3);
    lemma_multiset_concat(c1 + c2 + c3, u);
    lemma_multiset_concat(s1, s2);
    lemma_multiset_concat(s1 + s2, s3);
    assert(((c1 + c2 + c3) + u).to_multiset() =~= (s1 + s2 + s3).to_multiset());
}

/// Every element of the sequence equals `x`.
pub open spec fn all_eq_val(s: Seq<u64>, x: u64) -> bool {
    forall|k: int| 0 <= k < s.len() ==> #[trigger] s[k] == x
}

/// A sequence whose elements all equal one value has all-equal elements.
pub proof fn lemma_all_eq_from_val(s: Seq<u64>, x: u64)
    requires
        all_eq_val(s, x),
    ensures
        all_eq(s),
{
}

/// `sorted` is `sorted_range` over the full index range.
pub proof fn lemma_sorted_range_full(s: Seq<u64>)
    ensures
        sorted(s) <==> sorted_range(s, 0, s.len() as int),
{
}

/// Every element of the sequence is at most `x`.
pub open spec fn all_le_val(s: Seq<u64>, x: u64) -> bool {
    forall|k: int| 0 <= k < s.len() ==> #[trigger] s[k] <= x
}

/// Every element of the sequence is at least `x`.
pub open spec fn all_ge_val(s: Seq<u64>, x: u64) -> bool {
    forall|k: int| 0 <= k < s.len() ==> #[trigger] s[k] >= x
}

/// Two sequences separated by a pivot value satisfy `seq_le`.
pub proof fn lemma_seq_le_via_pivot(a: Seq<u64>, b: Seq<u64>, x: u64)
    requires
        all_le_val(a, x),
        all_ge_val(b, x),
    ensures
        seq_le(a, b),
{
}

/// Sequences with the same contents have the same sorted version.
pub proof fn lemma_sorted_version_congruence(x: Seq<u64>, y: Seq<u64>)
    requires
        x.to_multiset() == y.to_multiset(),
    ensures
        sorted_version(x) == sorted_version(y),
{
    lemma_sorted_version_ensures(x);
    lemma_sorted_version_unique(sorted_version(x), y);
}

/// `seq_le` distributes over concatenation on the left.
pub proof fn lemma_seq_le_concat_left(a: Seq<u64>, b: Seq<u64>, c: Seq<u64>)
    requires
        seq_le(a, c),
        seq_le(b, c),
    ensures
        seq_le(a + b, c),
{
    assert forall|i: int, j: int|
        0 <= i < (a + b).len() && 0 <= j < c.len() implies #[trigger] (a + b)[i]
        <= #[trigger] c[j] by {
        if i < a.len() {
            assert(a[i] <= c[j]);
        } else {
            assert(b[i - a.len()] <= c[j]);
        }
    }
}

/// `seq_le` distributes over concatenation on the right.
pub proof fn lemma_seq_le_concat_right(a: Seq<u64>, b: Seq<u64>, c: Seq<u64>)
    requires
        seq_le(a, b),
        seq_le(a, c),
    ensures
        seq_le(a, b + c),
{
    assert forall|i: int, j: int|
        0 <= i < a.len() && 0 <= j < (b + c).len() implies #[trigger] a[i]
        <= #[trigger] (b + c)[j] by {
        if j < b.len() {
            assert(a[i] <= b[j]);
        } else {
            assert(a[i] <= c[j - b.len()]);
        }
    }
}

/// A sequence whose elements are all equal is sorted.
pub proof fn lemma_all_eq_sorted(s: Seq<u64>)
    requires
        all_eq(s),
    ensures
        sorted(s),
{
}

/// `seq_le` against an upper sequence carries over to any rearrangement of it.
pub proof fn lemma_seq_le_right_rearranged(a: Seq<u64>, t: Seq<u64>, u: Seq<u64>)
    requires
        seq_le(a, u),
        t.to_multiset() == u.to_multiset(),
    ensures
        seq_le(a, t),
{
    broadcast use vstd::seq_lib::group_to_multiset_ensures;

    assert forall|i: int, j: int|
        0 <= i < a.len() && 0 <= j < t.len() implies #[trigger] a[i] <= #[trigger] t[j] by {
        assert(t.contains(t[j]));
        assert(t.to_multiset().contains(t[j]));
        assert(u.to_multiset().contains(t[j]));
        assert(u.contains(t[j]));
        let k = choose|k: int| 0 <= k < u.len() && u[k] == t[j];
        assert(a[i] <= u[k]);
    }
}

/// `seq_le` against a lower sequence carries over to any rearrangement of it.
pub proof fn lemma_seq_le_left_rearranged(b: Seq<u64>, t: Seq<u64>, u: Seq<u64>)
    requires
        seq_le(u, b),
        t.to_multiset() == u.to_multiset(),
    ensures
        seq_le(t, b),
{
    broadcast use vstd::seq_lib::group_to_multiset_ensures;

    assert forall|i: int, j: int|
        0 <= i < t.len() && 0 <= j < b.len() implies #[trigger] t[i] <= #[trigger] b[j] by {
        assert(t.contains(t[i]));
        assert(t.to_multiset().contains(t[i]));
        assert(u.to_multiset().contains(t[i]));
        assert(u.contains(t[i]));
        let k = choose|k: int| 0 <= k < u.len() && u[k] == t[i];
        assert(u[k] <= b[j]);
    }
}

} // verus!
