//! Pivot-aware merge primitives: run-skipping boundary searches on sorted
//! ranges, `split_around`, and the recursive three-way merge.

pub use crate::utils::merge_2;

use crate::sorted::{
    all_eq, all_eq_val, all_ge_val, all_le_val, lemma_all_eq_from_val, lemma_all_eq_sorted,
    lemma_multiset_concat,
    lemma_seq_le_concat_left, lemma_seq_le_left_rearranged, lemma_seq_le_right_rearranged,
    lemma_seq_le_via_pivot, lemma_sorted_concat, lemma_sorted_range_full,
    lemma_sorted_range_subrange, lemma_sorted_version_congruence, lemma_sorted_version_ensures,
    lemma_sorted_version_unique, seq_le, sorted, sorted_range, sorted_version,
};
use vstd::prelude::*;

verus! {

/// Find the end of the prefix of the sorted range `[from, to)` that excludes
/// the trailing run of its last value: an exponential probe from the end,
/// then a binary search restricted to the probed window, so the cost is
/// logarithmic in the run length rather than in the range length.
pub fn subslice_without_last_value(v: &Vec<u64>, from: usize, to: usize) -> (r: usize)
    requires
        from < to <= v.len(),
        sorted_range(v@, from as int, to as int),
    ensures
        from <= r < to,
        forall|k: int| r <= k < to ==> #[trigger] v@[k] == v@[to - 1],
        r > from ==> v@[r - 1] < v@[to - 1],
{
    let target = v[to - 1];
    let mut hi: usize = to - 1;
    let mut lo: usize = from;
    let mut found: bool = false;
    let mut step: usize = 1;
    while !found && hi > from
        invariant
            from < to <= v.len(),
            from <= hi <= to - 1,
            step >= 1,
            sorted_range(v@, from as int, to as int),
            target == v@[to - 1],
            forall|k: int| hi <= k < to ==> #[trigger] v@[k] == target,
            found ==> from <= lo && lo < hi && v@[lo as int] < target,
            !found ==> lo == from,
            hi > from ==> step > to - 1 - hi,
        decreases (if found { 0int } else { hi - from + 1 }),
    {
        let probe = if to - 1 - from >= step {
            to - 1 - step
        } else {
            from
        };
        assert(probe < hi);
        if v[probe] != target {
            proof {
                assert(v@[probe as int] <= v@[to - 1]);
            }
            lo = probe;
            found = true;
        } else {
            proof {
                assert forall|k: int| probe <= k < to implies v@[k] == target by {
                    if k < to - 1 {
                        assert(v@[probe as int] <= v@[k]);
                        assert(v@[k] <= v@[to - 1]);
                    }
                }
            }
            hi = probe;
            if probe > from {
                if step <= (to - 1 - from) / 2 {
                    step = step * 2;
                } else {
                    step = to - 1 - from;
                }
            }
        }
    }
    if !found {
        return from;
    }
    let mut a = lo;
    let mut b = hi;
    while b - a > 1
        invariant
            from <= a < b,
            b <= to - 1,
            to <= v.len(),
            sorted_range(v@, from as int, to as int),
            target == v@[to - 1],
            v@[a as int] < target,
            v@[b as int] == target,
        decreases b - a,
    {
        let mid = a + (b - a) / 2;
        if v[mid] == target {
            b = mid;
        } else {
            proof {
                assert(v@[mid as int] <= v@[b as int]);
            }
            a = mid;
        }
    }
    proof {
        assert forall|k: int| b <= k < to implies v@[k] == target by {
            if k < to - 1 {
                assert(v@[b as int] <= v@[k]);
                assert(v@[k] <= v@[to - 1]);
            }
        }
    }
    b
}

/// Find the start of the suffix of the sorted range `[from, to)` that
/// excludes the leading run of its first value; same probing strategy as
/// `subslice_without_last_value`, mirrored.
pub fn subslice_without_first_value(v: &Vec<u64>, from: usize, to: usize) -> (r: usize)
    requires
        from < to <= v.len(),
        sorted_range(v@, from as int, to as int),
    ensures
        from < r <= to,
        forall|k: int| from <= k < r ==> #[trigger] v@[k] == v@[from as int],
        r < to ==> v@[r as int] > v@[from as int],
{
    let target = v[from];
    let mut lo: usize = from + 1;
    let mut hi: usize = to;
    let mut found: bool = false;
    let mut step: usize = 1;
    while !found && lo < to
        invariant
            from < to <= v.len(),
            from + 1 <= lo <= to,
            step >= 1,
            sorted_range(v@, from as int, to as int),
            target == v@[from as int],
            forall|k: int| from <= k < lo ==> #[trigger] v@[k] == target,
            found ==> lo <= hi && hi < to && v@[hi as int] > target,
            lo < to ==> step > lo - from - 1,
        decreases (if found { 0int } else { to - lo + 1 }),
    {
        let probe = if to - from - 1 >= step {
            from + step
        } else {
            to - 1
        };
        assert(probe >= lo);
        if v[probe] != target {
            proof {
                assert(v@[from as int] <= v@[probe as int]);
            }
            hi = probe;
            found = true;
        } else {
            proof {
                assert forall|k: int| from <= k <= probe implies v@[k] == target by {
                    if k > from {
                        assert(v@[from as int] <= v@[k]);
                        assert(v@[k] <= v@[probe as int]);
                    }
                }
            }
            lo = probe + 1;
            if probe < to - 1 {
                if step <= (to - from - 1) / 2 {
                    step = step * 2;
                } else {
                    step = to - from - 1;
                }
            }
        }
    }
    if !found {
        return to;
    }
    let mut a = lo - 1;
    let mut b = hi;
    while b - a > 1
        invariant
            from <= a < b,
            b < to,
            to <= v.len(),
            sorted_range(v@, from as int, to as int),
            target == v@[from as int],
            v@[a as int] == target,
            v@[b as int] > target,
        decreases b - a,
    {
        let mid = a + (b - a) / 2;
        if v[mid] == target {
            a = mid;
        } else {
            proof {
                assert(v@[a as int] <= v@[mid as int]);
            }
            b = mid;
        }
    }
    proof {
        assert(b == a + 1);
        assert forall|k: int| from <= k < b implies v@[k] == target by {
            if from < k {
                assert(v@[from as int] <= v@[k]);
                assert(v@[k] <= v@[a as int]);
            }
        }
    }
    b
}

/// First position in the sorted range `[from, to)` whose value is at least
/// `target`; `to` if every value is below it.
pub fn lower_bound(v: &Vec<u64>, from: usize, to: usize, target: u64) -> (r: usize)
    requires
        from <= to <= v.len(),
        sorted_range(v@, from as int, to as int),
    ensures
        from <= r <= to,
        forall|k: int| from <= k < r ==> #[trigger] v@[k] < target,
        forall|k: int| r <= k < to ==> #[trigger] v@[k] >= target,
{
    let mut a = from;
    let mut b = to;
    while a < b
        invariant
            from <= a <= b <= to <= v.len(),
            sorted_range(v@, from as int, to as int),
            forall|k: int| from <= k < a ==> #[trigger] v@[k] < target,
            forall|k: int| b <= k < to ==> #[trigger] v@[k] >= target,
        decreases b - a,
    {
        let mid = a + (b - a) / 2;
        if v[mid] < target {
            proof {
                assert forall|k: int| from <= k <= mid implies v@[k] < target by {
                    if k < mid {
                        assert(v@[k] <= v@[mid as int]);
                    }
                }
            }
            a = mid + 1;
        } else {
            proof {
                assert forall|k: int| mid <= k < to implies v@[k] >= target by {
                    if k > mid {
                        assert(v@[mid as int] <= v@[k]);
                    }
                }
            }
            b = mid;
        }
    }
    a
}

/// Cut the sorted range `[from, to)` around the position `start`, splitting
/// off all values equal to `v[start]`: returns `(a, b)` such that `[from, a)`
/// is strictly below the pivot value, `[a, b)` is exactly the pivot run
/// (containing `start`), and `[b, to)` is strictly above it.
pub fn split_around(v: &Vec<u64>, from: usize, to: usize, start: usize) -> (r: (usize, usize))
    requires
        from <= start < to <= v.len(),
        sorted_range(v@, from as int, to as int),
    ensures
        from <= r.0 <= start < r.1 <= to,
        forall|k: int| from <= k < r.0 ==> #[trigger] v@[k] < v@[start as int],
        forall|k: int| r.0 <= k < r.1 ==> #[trigger] v@[k] == v@[start as int],
        forall|k: int| r.1 <= k < to ==> #[trigger] v@[k] > v@[start as int],
        v@.subrange(from as int, r.0 as int) + v@.subrange(r.0 as int, r.1 as int) + v@.subrange(
            r.1 as int,
            to as int,
        ) == v@.subrange(from as int, to as int),
{
    let a = subslice_without_last_value(v, from, start + 1);
    let b = subslice_without_first_value(v, start, to);
    proof {
        assert forall|k: int| from <= k < a implies v@[k] < v@[start as int] by {
            assert(v@[k] <= v@[a - 1]);
        }
        assert forall|k: int| a <= k < b implies v@[k] == v@[start as int] by {
            if k < start + 1 {
            } else {
                assert(start <= k < b);
            }
        }
        assert forall|k: int| b <= k < to implies v@[k] > v@[start as int] by {
            assert(v@[b as int] <= v@[k]);
        }
        assert(v@.subrange(from as int, a as int) + v@.subrange(a as int, b as int)
            + v@.subrange(b as int, to as int) =~= v@.subrange(from as int, to as int));
    }
    (a, b)
}

/// Copy of the range `[from, to)` of a vector.
pub(crate) fn subvec(v: &Vec<u64>, from: usize, to: usize) -> (r: Vec<u64>)
    requires
        from <= to <= v.len(),
    ensures
        r@ == v@.subrange(from as int, to as int),
{
    let mut r: Vec<u64> = Vec::new();
    let mut i = from;
    while i < to
        invariant
            from <= i <= to <= v.len(),
            r@ == v@.subrange(from as int, i as int),
        decreases to - i,
    {
        r.push(v[i]);
        proof {
            assert(v@.subrange(from as int, i + 1 as int) =~= v@.subrange(from as int, i as int)
                .push(v@[i as int]));
        }
        i += 1;
    }
    r
}

/// A scratch vector of the given length.
pub(crate) fn scratch_vec(n: usize) -> (r: Vec<u64>)
    ensures
        r.len() == n,
{
    let mut r: Vec<u64> = Vec::new();
    while r.len() < n
        invariant
            r.len() <= n,
        decreases n - r.len(),
    {
        r.push(0);
    }
    r
}

/// Append all elements of `src` onto `dst`.
pub(crate) fn append_all(dst: &mut Vec<u64>, src: &Vec<u64>)
    ensures
        final(dst)@ == old(dst)@ + src@,
{
    let mut i: usize = 0;
    while i < src.len()
        invariant
            i <= src.len(),
            dst@ == old(dst)@ + src@.subrange(0, i as int),
        decreases src.len() - i,
    {
        dst.push(src[i]);
        proof {
            assert(src@.subrange(0, i + 1 as int) =~= src@.subrange(0, i as int).push(
                src@[i as int],
            ));
            assert(old(dst)@ + src@.subrange(0, i + 1 as int) =~= (old(dst)@ + src@.subrange(
                0,
                i as int,
            )).push(src@[i as int]));
        }
        i += 1;
    }
    proof {
        assert(src@.subrange(0, src.len() as int) =~= src@);
    }
}

/// Overwrite `dst[at..at + src.len()]` with the contents of `src`.
pub(crate) fn copy_into(dst: &mut Vec<u64>, at: usize, src: &Vec<u64>)
    requires
        at + src.len() <= old(dst).len(),
    ensures
        final(dst).len() == old(dst).len(),
        final(dst)@.subrange(0, at as int) == old(dst)@.subrange(0, at as int),
        final(dst)@.subrange(at as int, at + src.len()) == src@,
        final(dst)@.subrange(at + src.len(), old(dst).len() as int) == old(dst)@.subrange(
            at + src.len(),
            old(dst).len() as int,
        ),
{
    let mut i: usize = 0;
    while i < src.len()
        invariant
            i <= src.len(),
            at + src.len() <= dst.len(),
            dst.len() == old(dst).len(),
            dst@.subrange(0, at as int) == old(dst)@.subrange(0, at as int),
            dst@.subrange(at as int, at + i) == src@.subrange(0, i as int),
            dst@.subrange(at + src.len(), old(dst).len() as int) == old(dst)@.subrange(
                at + src.len(),
                old(dst).len() as int,
            ),
        decreases src.len() - i,
    {
        let ghost prev = dst@;
        dst.set(at + i, src[i]);
        proof {
            assert(dst@.subrange(0, at as int) =~= prev.subrange(0, at as int));
            assert(dst@.subrange(at as int, at + i + 1) =~= prev.subrange(at as int, at + i).push(
                src@[i as int],
            ));
            assert(src@.subrange(0, i + 1 as int) =~= src@.subrange(0, i as int).push(
                src@[i as int],
            ));
            assert(dst@.subrange(at + src.len(), old(dst).len() as int) =~= prev.subrange(
                at + src.len(),
                old(dst).len() as int,
            ));
        }
        i += 1;
    }
    proof {
        assert(src@.subrange(0, src.len() as int) =~= src@);
    }
}

/// Takes three sorted vectors and fills `v` with the merged data.
/// This function is iterative.
pub fn merge_3(s1: &Vec<u64>, s2: &Vec<u64>, s3: &Vec<u64>, v: &mut Vec<u64>)
    requires
        sorted(s1@),
        sorted(s2@),
        sorted(s3@),
        old(v).len() == s1.len() + s2.len() + s3.len(),
    ensures
        final(v).len() == old(v).len(),
        final(v)@ == sorted_version(s1@ + s2@ + s3@),
{
    if s1.len() == 0 {
        merge_2(s2, 0, s3, 0, v, 0);
        proof {
            assert(s2@.subrange(0, s2.len() as int) =~= s2@);
            assert(s3@.subrange(0, s3.len() as int) =~= s3@);
            assert(s1@ + s2@ + s3@ =~= s2@ + s3@);
            assert(v@.subrange(0, v.len() as int) =~= v@);
        }
    } else {
        let m = crate::utils::merge_3(s1, s2, s3);
        proof {
            crate::sorted::lemma_sorted_version_ensures(s1@ + s2@ + s3@);
        }
        copy_into(v, 0, &m);
        proof {
            assert(v@.subrange(0, m.len() as int) =~= v@);
        }
    }
}

/// Locate the run of `pivot` in the sorted range `[from, to)` of `v`:
/// returns `(a, b)` such that `[from, a)` is strictly below `pivot`, `[a, b)`
/// is exactly the (possibly empty) run equal to `pivot`, and `[b, to)` is
/// strictly above it.
fn locate_pivot(v: &Vec<u64>, from: usize, to: usize, pivot: u64) -> (r: (usize, usize))
    requires
        from <= to <= v.len(),
        sorted_range(v@, from as int, to as int),
    ensures
        from <= r.0 <= r.1 <= to,
        forall|k: int| from <= k < r.0 ==> #[trigger] v@[k] < pivot,
        forall|k: int| r.0 <= k < r.1 ==> #[trigger] v@[k] == pivot,
        forall|k: int| r.1 <= k < to ==> #[trigger] v@[k] > pivot,
{
    let pos = lower_bound(v, from, to, pivot);
    if pos < to && v[pos] == pivot {
        split_around(v, from, to, pos)
    } else {
        proof {
            assert forall|k: int| pos <= k < to implies v@[k] > pivot by {
                if k > pos {
                    assert(v@[pos as int] <= v@[k]);
                }
            }
        }
        (pos, pos)
    }
}

/// The five aligned regions that one recursion step of the three-way merge
/// produces: strictly below the first pivot, the first pivot run, strictly
/// between the pivots, the second pivot run, and strictly above the second
/// pivot — each region cut out of all three sources, with the output offsets
/// `i1..i4` of the region boundaries.
pub struct MergeCut {
    pub low: (Vec<u64>, Vec<u64>, Vec<u64>),
    pub pivot1: (Vec<u64>, Vec<u64>, Vec<u64>),
    pub middle: (Vec<u64>, Vec<u64>, Vec<u64>),
    pub pivot2: (Vec<u64>, Vec<u64>, Vec<u64>),
    pub high: (Vec<u64>, Vec<u64>, Vec<u64>),
    pub i1: usize,
    pub i2: usize,
    pub i3: usize,
    pub i4: usize,
}

impl MergeCut {
    pub open spec fn low_all(&self) -> Seq<u64> {
        self.low.0@ + self.low.1@ + self.low.2@
    }

    pub open spec fn pivot1_all(&self) -> Seq<u64> {
        self.pivot1.0@ + self.pivot1.1@ + self.pivot1.2@
    }

    pub open spec fn middle_all(&self) -> Seq<u64> {
        self.middle.0@ + self.middle.1@ + self.middle.2@
    }

    pub open spec fn pivot2_all(&self) -> Seq<u64> {
        self.pivot2.0@ + self.pivot2.1@ + self.pivot2.2@
    }

    pub open spec fn high_all(&self) -> Seq<u64> {
        self.high.0@ + self.high.1@ + self.high.2@
    }

    /// Concatenating a source's five pieces restores that source exactly.
    pub open spec fn restores(&self, l: Seq<u64>, m: Seq<u64>, s: Seq<u64>) -> bool {
        &&& self.low.0@ + self.pivot1.0@ + self.middle.0@ + self.pivot2.0@ + self.high.0@ == l
        &&& self.low.1@ + self.pivot1.1@ + self.middle.1@ + self.pivot2.1@ + self.high.1@ == m
        &&& self.low.2@ + self.pivot1.2@ + self.middle.2@ + self.pivot2.2@ + self.high.2@ == s
    }

    /// The five regions hold pairwise non-decreasing values.
    pub open spec fn groups_ordered(&self) -> bool {
        &&& seq_le(self.low_all(), self.pivot1_all())
        &&& seq_le(self.low_all(), self.middle_all())
        &&& seq_le(self.low_all(), self.pivot2_all())
        &&& seq_le(self.low_all(), self.high_all())
        &&& seq_le(self.pivot1_all(), self.middle_all())
        &&& seq_le(self.pivot1_all(), self.pivot2_all())
        &&& seq_le(self.pivot1_all(), self.high_all())
        &&& seq_le(self.middle_all(), self.pivot2_all())
        &&& seq_le(self.middle_all(), self.high_all())
        &&& seq_le(self.pivot2_all(), self.high_all())
    }

    pub open spec fn pieces_sorted(&self) -> bool {
        &&& sorted(self.low.0@) && sorted(self.low.1@) && sorted(self.low.2@)
        &&& sorted(self.middle.0@) && sorted(self.middle.1@) && sorted(self.middle.2@)
        &&& sorted(self.high.0@) && sorted(self.high.1@) && sorted(self.high.2@)
    }

    pub open spec fn offsets_ok(&self) -> bool {
        &&& self.i1 == self.low_all().len()
        &&& self.i2 == self.i1 + self.pivot1_all().len()
        &&& self.i3 == self.i2 + self.middle_all().len()
        &&& self.i4 == self.i3 + self.pivot2_all().len()
    }

    pub open spec fn wf(&self, l: Seq<u64>, m: Seq<u64>, s: Seq<u64>) -> bool {
        &&& self.restores(l, m, s)
        &&& self.groups_ordered()
        &&& self.pieces_sorted()
        &&& all_eq(self.pivot1_all())
        &&& all_eq(self.pivot2_all())
        &&& self.offsets_ok()
    }
}

/// One recursion step of the three-way merge: cut `large` at its one-third
/// and two-thirds points, locate the two pivot runs in `mid` and `small`,
/// and hand back the five aligned regions.
pub fn merge_3_par_aux(large: &Vec<u64>, mid: &Vec<u64>, small: &Vec<u64>) -> (c: MergeCut)
    requires
        large.len() >= 1,
        large.len() + mid.len() + small.len() <= usize::MAX,
        sorted(large@),
        sorted(mid@),
        sorted(small@),
    ensures
        c.wf(large@, mid@, small@),
{
    let len_l = large.len();
    let len_m = mid.len();
    let len_s = small.len();
    proof {
        lemma_sorted_range_full(large@);
        lemma_sorted_range_full(mid@);
        lemma_sorted_range_full(small@);
    }
    let first_third = len_l / 3;
    let (la1, lb1) = split_around(large, 0, len_l, first_third);
    let p1 = large[first_third];
    let (ma1, mb1) = locate_pivot(mid, 0, len_m, p1);
    let (sa1, sb1) = locate_pivot(small, 0, len_s, p1);
    if lb1 < len_l {
        let second = lb1 + (len_l - lb1) / 2;
        let (la2, lb2) = split_around(large, lb1, len_l, second);
        let p2 = large[second];
        proof {
            assert(p2 > p1);
        }
        let (ma2, mb2) = locate_pivot(mid, mb1, len_m, p2);
        let (sa2, sb2) = locate_pivot(small, sb1, len_s, p2);
        let c = MergeCut {
            low: (subvec(large, 0, la1), subvec(mid, 0, ma1), subvec(small, 0, sa1)),
            pivot1: (subvec(large, la1, lb1), subvec(mid, ma1, mb1), subvec(small, sa1, sb1)),
            middle: (subvec(large, lb1, la2), subvec(mid, mb1, ma2), subvec(small, sb1, sa2)),
            pivot2: (subvec(large, la2, lb2), subvec(mid, ma2, mb2), subvec(small, sa2, sb2)),
            high: (subvec(large, lb2, len_l), subvec(mid, mb2, len_m), subvec(small, sb2, len_s)),
            i1: la1 + ma1 + sa1,
            i2: (la1 + ma1 + sa1) + ((lb1 - la1) + (mb1 - ma1) + (sb1 - sa1)),
            i3: (lb1 + mb1 + sb1) + ((la2 - lb1) + (ma2 - mb1) + (sa2 - sb1)),
            i4: (la2 + ma2 + sa2) + ((lb2 - la2) + (mb2 - ma2) + (sb2 - sa2)),
        };
        proof {
            lemma_merge_cut_wf(
                c,
                large@,
                mid@,
                small@,
                p1,
                p2,
                la1 as int,
                lb1 as int,
                la2 as int,
                lb2 as int,
                ma1 as int,
                mb1 as int,
                ma2 as int,
                mb2 as int,
                sa1 as int,
                sb1 as int,
                sa2 as int,
                sb2 as int,
            );
        }
        c
    } else {
        let c = MergeCut {
            low: (subvec(large, 0, la1), subvec(mid, 0, ma1), subvec(small, 0, sa1)),
            pivot1: (subvec(large, la1, lb1), subvec(mid, ma1, mb1), subvec(small, sa1, sb1)),
            middle: (subvec(large, lb1, len_l), subvec(mid, mb1, len_m), subvec(small, sb1, len_s)),
            pivot2: (subvec(large, len_l, len_l), subvec(mid, len_m, len_m), subvec(
                small,
                len_s,
                len_s,
            )),
            high: (subvec(large, len_l, len_l), subvec(mid, len_m, len_m), subvec(
                small,
                len_s,
                len_s,
            )),
            i1: la1 + ma1 + sa1,
            i2: (la1 + ma1 + sa1) + ((lb1 - la1) + (mb1 - ma1) + (sb1 - sa1)),
            i3: lb1 + len_m + len_s,
            i4: lb1 + len_m + len_s,
        };
        proof {
            lemma_merge_cut_wf(
                c,
                large@,
                mid@,
                small@,
                p1,
                u64::MAX,
                la1 as int,
                lb1 as int,
                len_l as int,
                len_l as int,
                ma1 as int,
                mb1 as int,
                len_m as int,
                len_m as int,
                sa1 as int,
                sb1 as int,
                len_s as int,
                len_s as int,
            );
        }
        c
    }
}

/// The region boundaries produced by the pivot cuts make a well-formed
/// `MergeCut`: the pieces restore the sources, the regions are ordered by
/// the two pivot values, and the offsets are the cumulative region lengths.
proof fn lemma_merge_cut_wf(
    c: MergeCut,
    l: Seq<u64>,
    m: Seq<u64>,
    s: Seq<u64>,
    p1: u64,
    p2: u64,
    la1: int,
    lb1: int,
    la2: int,
    lb2: int,
    ma1: int,
    mb1: int,
    ma2: int,
    mb2: int,
    sa1: int,
    sb1: int,
    sa2: int,
    sb2: int,
)
    requires
        p1 <= p2,
        0 <= la1 <= lb1 <= la2 <= lb2 <= l.len(),
        0 <= ma1 <= mb1 <= ma2 <= mb2 <= m.len(),
        0 <= sa1 <= sb1 <= sa2 <= sb2 <= s.len(),
        sorted(l),
        sorted(m),
        sorted(s),
        forall|k: int| 0 <= k < la1 ==> #[trigger] l[k] < p1,
        forall|k: int| la1 <= k < lb1 ==> #[trigger] l[k] == p1,
        forall|k: int| lb1 <= k < la2 ==> #[trigger] l[k] > p1 && #[trigger] l[k] <= p2,
        forall|k: int| la2 <= k < lb2 ==> #[trigger] l[k] == p2,
        forall|k: int| lb2 <= k < l.len() ==> #[trigger] l[k] >= p2,
        forall|k: int| 0 <= k < ma1 ==> #[trigger] m[k] < p1,
        forall|k: int| ma1 <= k < mb1 ==> #[trigger] m[k] == p1,
        forall|k: int| mb1 <= k < ma2 ==> #[trigger] m[k] > p1 && #[trigger] m[k] <= p2,
        forall|k: int| ma2 <= k < mb2 ==> #[trigger] m[k] == p2,
        forall|k: int| mb2 <= k < m.len() ==> #[trigger] m[k] >= p2,
        forall|k: int| 0 <= k < sa1 ==> #[trigger] s[k] < p1,
        forall|k: int| sa1 <= k < sb1 ==> #[trigger] s[k] == p1,
        forall|k: int| sb1 <= k < sa2 ==> #[trigger] s[k] > p1 && #[trigger] s[k] <= p2,
        forall|k: int| sa2 <= k < sb2 ==> #[trigger] s[k] == p2,
        forall|k: int| sb2 <= k < s.len() ==> #[trigger] s[k] >= p2,
        c.low.0@ == l.subrange(0, la1),
        c.pivot1.0@ == l.subrange(la1, lb1),
        c.middle.0@ == l.subrange(lb1, la2),
        c.pivot2.0@ == l.subrange(la2, lb2),
        c.high.0@ == l.subrange(lb2, l.len() as int),
        c.low.1@ == m.subrange(0, ma1),
        c.pivot1.1@ == m.subrange(ma1, mb1),
        c.middle.1@ == m.subrange(mb1, ma2),
        c.pivot2.1@ == m.subrange(ma2, mb2),
        c.high.1@ == m.subrange(mb2, m.len() as int),
        c.low.2@ == s.subrange(0, sa1),
        c.pivot1.2@ == s.subrange(sa1, sb1),
        c.middle.2@ == s.subrange(sb1, sa2),
        c.pivot2.2@ == s.subrange(sa2, sb2),
        c.high.2@ == s.subrange(sb2, s.len() as int),
        c.i1 == la1 + ma1 + sa1,
        c.i2 == c.i1 + (lb1 - la1) + (mb1 - ma1) + (sb1 - sa1),
        c.i3 == c.i2 + (la2 - lb1) + (ma2 - mb1) + (sa2 - sb1),
        c.i4 == c.i3 + (lb2 - la2) + (mb2 - ma2) + (sb2 - sa2),
    ensures
        c.wf(l, m, s),
{
    assert(c.low.0@ + c.pivot1.0@ + c.middle.0@ + c.pivot2.0@ + c.high.0@ =~= l);
    assert(c.low.1@ + c.pivot1.1@ + c.middle.1@ + c.pivot2.1@ + c.high.1@ =~= m);
    assert(c.low.2@ + c.pivot1.2@ + c.middle.2@ + c.pivot2.2@ + c.high.2@ =~= s);
    assert forall|k: int| 0 <= k < c.low_all().len() implies #[trigger] c.low_all()[k] < p1 by {
        let g = c.low_all();
        if k < la1 {
            assert(g[k] == l[k]);
        } else if k < la1 + ma1 {
            assert(g[k] == m[k - la1]);
        } else {
            assert(g[k] == s[k - la1 - ma1]);
        }
    }
    assert forall|k: int| 0 <= k < c.pivot1_all().len() implies #[trigger] c.pivot1_all()[k]
        == p1 by {
        let g = c.pivot1_all();
        let n0 = lb1 - la1;
        let n1 = mb1 - ma1;
        if k < n0 {
            assert(g[k] == l[la1 + k]);
        } else if k < n0 + n1 {
            assert(g[k] == m[ma1 + (k - n0)]);
        } else {
            assert(g[k] == s[sa1 + (k - n0 - n1)]);
        }
    }
    assert forall|k: int| 0 <= k < c.middle_all().len() implies #[trigger] c.middle_all()[k] > p1
        && #[trigger] c.middle_all()[k] <= p2 by {
        let g = c.middle_all();
        let n0 = la2 - lb1;
        let n1 = ma2 - mb1;
        if k < n0 {
            assert(g[k] == l[lb1 + k]);
        } else if k < n0 + n1 {
            assert(g[k] == m[mb1 + (k - n0)]);
        } else {
            assert(g[k] == s[sb1 + (k - n0 - n1)]);
        }
    }
    assert forall|k: int| 0 <= k < c.pivot2_all().len() implies #[trigger] c.pivot2_all()[k]
        == p2 by {
        let g = c.pivot2_all();
        let n0 = lb2 - la2;
        let n1 = mb2 - ma2;
        if k < n0 {
            assert(g[k] == l[la2 + k]);
        } else if k < n0 + n1 {
            assert(g[k] == m[ma2 + (k - n0)]);
        } else {
            assert(g[k] == s[sa2 + (k - n0 - n1)]);
        }
    }
    assert forall|k: int| 0 <= k < c.high_all().len() implies #[trigger] c.high_all()[k] >= p2 by {
        let g = c.high_all();
        let n0 = l.len() - lb2;
        let n1 = m.len() - mb2;
        if k < n0 {
            assert(g[k] == l[lb2 + k]);
        } else if k < n0 + n1 {
            assert(g[k] == m[mb2 + (k - n0)]);
        } else {
            assert(g[k] == s[sb2 + (k - n0 - n1)]);
        }
    }
    lemma_all_eq_from_val(c.pivot1_all(), p1);
    lemma_all_eq_from_val(c.pivot2_all(), p2);
    lemma_seq_le_via_pivot(c.low_all(), c.pivot1_all(), p1);
    lemma_seq_le_via_pivot(c.low_all(), c.middle_all(), p1);
    lemma_seq_le_via_pivot(c.low_all(), c.pivot2_all(), p1);
    lemma_seq_le_via_pivot(c.low_all(), c.high_all(), p1);
    lemma_seq_le_via_pivot(c.pivot1_all(), c.middle_all(), p1);
    lemma_seq_le_via_pivot(c.pivot1_all(), c.pivot2_all(), p1);
    lemma_seq_le_via_pivot(c.pivot1_all(), c.high_all(), p1);
    lemma_seq_le_via_pivot(c.middle_all(), c.pivot2_all(), p2);
    lemma_seq_le_via_pivot(c.middle_all(), c.high_all(), p2);
    lemma_seq_le_via_pivot(c.pivot2_all(), c.high_all(), p2);
    lemma_sorted_range_full(l);
    lemma_sorted_range_full(m);
    lemma_sorted_range_full(s);
    lemma_sorted_range_subrange(l, 0, l.len() as int, 0, la1);
    lemma_sorted_range_subrange(l, 0, l.len() as int, lb1, la2);
    lemma_sorted_range_subrange(l, 0, l.len() as int, lb2, l.len() as int);
    lemma_sorted_range_subrange(m, 0, m.len() as int, 0, ma1);
    lemma_sorted_range_subrange(m, 0, m.len() as int, mb1, ma2);
    lemma_sorted_range_subrange(m, 0, m.len() as int, mb2, m.len() as int);
    lemma_sorted_range_subrange(s, 0, s.len() as int, 0, sa1);
    lemma_sorted_range_subrange(s, 0, s.len() as int, sb1, sa2);
    lemma_sorted_range_subrange(s, 0, s.len() as int, sb2, s.len() as int);
}

/// The five regions of a cut hold, between them, exactly the contents of
/// the three sources.
proof fn lemma_cut_multiset(c: MergeCut, l: Seq<u64>, m: Seq<u64>, s: Seq<u64>)
    requires
        c.restores(l, m, s),
    ensures
        (c.low_all() + c.pivot1_all() + c.middle_all() + c.pivot2_all()
            + c.high_all()).to_multiset() == (l + m + s).to_multiset(),
{
    broadcast use vstd::multiset::group_multiset_axioms;

    lemma_multiset_concat(c.low.0@, c.low.1@);
    lemma_multiset_concat(c.low.0@ + c.low.1@, c.low.2@);
    lemma_multiset_concat(c.pivot1.0@, c.pivot1.1@);
    lemma_multiset_concat(c.pivot1.0@ + c.pivot1.1@, c.pivot1.2@);
    lemma_multiset_concat(c.middle.0@, c.middle.1@);
    lemma_multiset_concat(c.middle.0@ + c.middle.1@, c.middle.2@);
    lemma_multiset_concat(c.pivot2.0@, c.pivot2.1@);
    lemma_multiset_concat(c.pivot2.0@ + c.pivot2.1@, c.pivot2.2@);
    lemma_multiset_concat(c.high.0@, c.high.1@);
    lemma_multiset_concat(c.high.0@ + c.high.1@, c.high.2@);
    lemma_multiset_concat(c.low_all(), c.pivot1_all());
    lemma_multiset_concat(c.low_all() + c.pivot1_all(), c.middle_all());
    lemma_multiset_concat(c.low_all() + c.pivot1_all() + c.middle_all(), c.pivot2_all());
    lemma_multiset_concat(
        c.low_all() + c.pivot1_all() + c.middle_all() + c.pivot2_all(),
        c.high_all(),
    );
    lemma_multiset_concat(c.low.0@, c.pivot1.0@);
    lemma_multiset_concat(c.low.0@ + c.pivot1.0@, c.middle.0@);
    lemma_multiset_concat(c.low.0@ + c.pivot1.0@ + c.middle.0@, c.pivot2.0@);
    lemma_multiset_concat(c.low.0@ + c.pivot1.0@ + c.middle.0@ + c.pivot2.0@, c.high.0@);
    lemma_multiset_concat(c.low.1@, c.pivot1.1@);
    lemma_multiset_concat(c.low.1@ + c.pivot1.1@, c.middle.1@);
    lemma_multiset_concat(c.low.1@ + c.pivot1.1@ + c.middle.1@, c.pivot2.1@);
    lemma_multiset_concat(c.low.1@ + c.pivot1.1@ + c.middle.1@ + c.pivot2.1@, c.high.1@);
    lemma_multiset_concat(c.low.2@, c.pivot1.2@);
    lemma_multiset_concat(c.low.2@ + c.pivot1.2@, c.middle.2@);
    lemma_multiset_concat(c.low.2@ + c.pivot1.2@ + c.middle.2@, c.pivot2.2@);
    lemma_multiset_concat(c.low.2@ + c.pivot1.2@ + c.middle.2@ + c.pivot2.2@, c.high.2@);
    lemma_multiset_concat(l, m);
    lemma_multiset_concat(l + m, s);
    assert((c.low_all() + c.pivot1_all() + c.middle_all() + c.pivot2_all()
        + c.high_all()).to_multiset() =~= (l + m + s).to_multiset());
}

/// The assembled output of one recursion step — the three merged regions
/// interleaved with the two verbatim pivot runs — is the sorted version of
/// the three sources together.
proof fn lemma_merge_3_assembly(
    out: Seq<u64>,
    w1: Seq<u64>,
    w3: Seq<u64>,
    w5: Seq<u64>,
    c: MergeCut,
    l: Seq<u64>,
    m: Seq<u64>,
    s: Seq<u64>,
)
    requires
        c.wf(l, m, s),
        w1 == sorted_version(c.low_all()),
        w3 == sorted_version(c.middle_all()),
        w5 == sorted_version(c.high_all()),
        out == w1 + c.pivot1.0@ + c.pivot1.1@ + c.pivot1.2@ + w3 + c.pivot2.0@ + c.pivot2.1@
            + c.pivot2.2@ + w5,
    ensures
        out == sorted_version(l + m + s),
{
    let g2 = c.pivot1_all();
    let g4 = c.pivot2_all();
    assert(out =~= w1 + g2 + w3 + g4 + w5);
    lemma_sorted_version_ensures(c.low_all());
    lemma_sorted_version_ensures(c.middle_all());
    lemma_sorted_version_ensures(c.high_all());
    lemma_all_eq_sorted(g2);
    lemma_all_eq_sorted(g4);
    lemma_seq_le_left_rearranged(g2, w1, c.low_all());
    lemma_seq_le_left_rearranged(c.middle_all(), w1, c.low_all());
    lemma_seq_le_right_rearranged(w1, w3, c.middle_all());
    lemma_seq_le_left_rearranged(g4, w1, c.low_all());
    lemma_seq_le_left_rearranged(c.high_all(), w1, c.low_all());
    lemma_seq_le_right_rearranged(w1, w5, c.high_all());
    lemma_seq_le_right_rearranged(g2, w3, c.middle_all());
    lemma_seq_le_right_rearranged(g2, w5, c.high_all());
    lemma_seq_le_left_rearranged(g4, w3, c.middle_all());
    lemma_seq_le_left_rearranged(c.high_all(), w3, c.middle_all());
    lemma_seq_le_right_rearranged(w3, w5, c.high_all());
    lemma_seq_le_right_rearranged(g4, w5, c.high_all());
    lemma_sorted_concat(w1, g2);
    lemma_seq_le_concat_left(w1, g2, w3);
    lemma_sorted_concat(w1 + g2, w3);
    lemma_seq_le_concat_left(w1, g2, g4);
    lemma_seq_le_concat_left(w1 + g2, w3, g4);
    lemma_sorted_concat(w1 + g2 + w3, g4);
    lemma_seq_le_concat_left(w1, g2, w5);
    lemma_seq_le_concat_left(w1 + g2, w3, w5);
    lemma_seq_le_concat_left(w1 + g2 + w3, g4, w5);
    lemma_sorted_concat(w1 + g2 + w3 + g4, w5);
    lemma_cut_multiset(c, l, m, s);
    lemma_multiset_concat(w1, g2);
    lemma_multiset_concat(w1 + g2, w3);
    lemma_multiset_concat(w1 + g2 + w3, g4);
    lemma_multiset_concat(w1 + g2 + w3 + g4, w5);
    lemma_multiset_concat(c.low_all(), g2);
    lemma_multiset_concat(c.low_all() + g2, c.middle_all());
    lemma_multiset_concat(c.low_all() + g2 + c.middle_all(), g4);
    lemma_multiset_concat(c.low_all() + g2 + c.middle_all() + g4, c.high_all());
    assert(out.to_multiset() =~= (l + m + s).to_multiset());
    lemma_sorted_version_unique(out, l + m + s);
}

/// Relies on `rayon::join`: the three region merges run on the fork-join
/// pool and `join` returns both closures' results once they have finished,
/// so each buffer holds exactly what the verified recursive call it wraps
/// ensures of it.
#[verifier::external_body]
fn par_merge_3_regions(
    l0: &Vec<u64>,
    l1: &Vec<u64>,
    l2: &Vec<u64>,
    m0: &Vec<u64>,
    m1: &Vec<u64>,
    m2: &Vec<u64>,
    h0: &Vec<u64>,
    h1: &Vec<u64>,
    h2: &Vec<u64>,
    v_low: &mut Vec<u64>,
    v_mid: &mut Vec<u64>,
    v_high: &mut Vec<u64>,
    min_size: usize,
)
    requires
        min_size >= 1,
        sorted(l0@),
        sorted(l1@),
        sorted(l2@),
        sorted(m0@),
        sorted(m1@),
        sorted(m2@),
        sorted(h0@),
        sorted(h1@),
        sorted(h2@),
        old(v_low).len() == l0.len() + l1.len() + l2.len(),
        old(v_mid).len() == m0.len() + m1.len() + m2.len(),
        old(v_high).len() == h0.len() + h1.len() + h2.len(),
    ensures
        final(v_low).len() == old(v_low).len(),
        final(v_mid).len() == old(v_mid).len(),
        final(v_high).len() == old(v_high).len(),
        final(v_low)@ == sorted_version(l0@ + l1@ + l2@),
        final(v_mid)@ == sorted_version(m0@ + m1@ + m2@),
        final(v_high)@ == sorted_version(h0@ + h1@ + h2@),
{
    rayon::join(
        || {
            rayon::join(
                || merge_3_par(l0, l1, l2, v_low, min_size),
                || merge_3_par(m0, m1, m2, v_mid, min_size),
            )
        },
        || merge_3_par(h0, h1, h2, v_high, min_size),
    );
}

/// One splitting step of the recursive three-way merge, with `large` already
/// chosen as the source that is cut at its third points.
fn merge_3_par_from(
    large: &Vec<u64>,
    mid: &Vec<u64>,
    small: &Vec<u64>,
    v: &mut Vec<u64>,
    min_size: usize,
)
    requires
        min_size >= 1,
        large.len() >= 1,
        sorted(large@),
        sorted(mid@),
        sorted(small@),
        old(v).len() == large.len() + mid.len() + small.len(),
    ensures
        final(v).len() == old(v).len(),
        final(v)@ == sorted_version(large@ + mid@ + small@),
{
    let cut = merge_3_par_aux(large, mid, small);
    proof {
        assert(cut.low.0@ + cut.pivot1.0@ + cut.middle.0@ + cut.pivot2.0@ + cut.high.0@
            == large@);
        assert(cut.low.1@ + cut.pivot1.1@ + cut.middle.1@ + cut.pivot2.1@ + cut.high.1@ == mid@);
        assert(cut.low.2@ + cut.pivot1.2@ + cut.middle.2@ + cut.pivot2.2@ + cut.high.2@
            == small@);
    }
    let mut v_low = scratch_vec(cut.i1);
    let mut v_mid = scratch_vec(cut.i3 - cut.i2);
    let high_len = cut.high.0.len() + cut.high.1.len() + cut.high.2.len();
    let mut v_high = scratch_vec(high_len);
    par_merge_3_regions(
        &cut.low.0,
        &cut.low.1,
        &cut.low.2,
        &cut.middle.0,
        &cut.middle.1,
        &cut.middle.2,
        &cut.high.0,
        &cut.high.1,
        &cut.high.2,
        &mut v_low,
        &mut v_mid,
        &mut v_high,
        min_size,
    );
    let mut out: Vec<u64> = Vec::new();
    append_all(&mut out, &v_low);
    append_all(&mut out, &cut.pivot1.0);
    append_all(&mut out, &cut.pivot1.1);
    append_all(&mut out, &cut.pivot1.2);
    append_all(&mut out, &v_mid);
    append_all(&mut out, &cut.pivot2.0);
    append_all(&mut out, &cut.pivot2.1);
    append_all(&mut out, &cut.pivot2.2);
    append_all(&mut out, &v_high);
    proof {
        lemma_merge_3_assembly(out@, v_low@, v_mid@, v_high@, cut, large@, mid@, small@);
        lemma_sorted_version_ensures(large@ + mid@ + small@);
        lemma_multiset_concat(large@, mid@);
        lemma_multiset_concat(large@ + mid@, small@);
    }
    copy_into(v, 0, &out);
    proof {
        assert(v@.subrange(0, out.len() as int) =~= v@);
    }
}

/// Three-way sorted merge, splitting recursively around the third-point
/// pivots of the longest source; regions above the given size are merged in
/// parallel, the rest sequentially by `merge_3`.
pub fn merge_3_par(
    s1: &Vec<u64>,
    s2: &Vec<u64>,
    s3: &Vec<u64>,
    v: &mut Vec<u64>,
    min_size: usize,
)
    requires
        min_size >= 1,
        sorted(s1@),
        sorted(s2@),
        sorted(s3@),
        old(v).len() == s1.len() + s2.len() + s3.len(),
    ensures
        final(v).len() == old(v).len(),
        final(v)@ == sorted_version(s1@ + s2@ + s3@),
{
    let len1 = s1.len();
    let len2 = s2.len();
    let len3 = s3.len();
    if len1 <= min_size || len2 <= min_size || len3 <= min_size {
        merge_3(s1, s2, s3, v);
    } else if len1 >= len2 && len1 >= len3 {
        merge_3_par_from(s1, s2, s3, v, min_size);
    } else if len2 >= len1 && len2 >= len3 {
        merge_3_par_from(s2, s1, s3, v, min_size);
        proof {
            lemma_concat3_multiset_perm(s1@, s2@, s3@);
            lemma_sorted_version_congruence(s2@ + s1@ + s3@, s1@ + s2@ + s3@);
        }
    } else {
        merge_3_par_from(s3, s2, s1, v, min_size);
        proof {
            lemma_concat3_multiset_perm(s1@, s2@, s3@);
            lemma_sorted_version_congruence(s3@ + s2@ + s1@, s1@ + s2@ + s3@);
        }
    }
}

/// The parallel three-way merge agrees with the sequential one: whatever
/// split size drives the recursion, `merge_3_par` and `merge_3` both
/// ensure that the output is the sorted version of their sources, so their
/// outputs are equal.
pub proof fn lemma_merge_3_par_agrees_with_merge_3(
    v_par: Seq<u64>,
    v_seq: Seq<u64>,
    s1: Seq<u64>,
    s2: Seq<u64>,
    s3: Seq<u64>,
)
    requires
        v_par == sorted_version(s1 + s2 + s3),
        v_seq == sorted_version(s1 + s2 + s3),
    ensures
        v_par == v_seq,
{
}

/// Concatenating three sequences in any order gives the same contents.
proof fn lemma_concat3_multiset_perm(a: Seq<u64>, b: Seq<u64>, c: Seq<u64>)
    ensures
        (b + a + c).to_multiset() == (a + b + c).to_multiset(),
        (c + b + a).to_multiset() == (a + b + c).to_multiset(),
{
    broadcast use vstd::multiset::group_multiset_axioms;

    lemma_multiset_concat(a, b);
    lemma_multiset_concat(a + b, c);
    lemma_multiset_concat(b, a);
    lemma_multiset_concat(b + a, c);
    lemma_multiset_concat(c, b);
    lemma_multiset_concat(c + b, a);
    assert((b + a + c).to_multiset() =~= (a + b + c).to_multiset());
    assert((c + b + a).to_multiset() =~= (a + b + c).to_multiset());
}

/// The assembled output of one two-way recursion step — the merged low and
/// high halves around the verbatim pivot runs — is the sorted version of the
/// two sources together.
proof fn lemma_merge_2_assembly(
    out: Seq<u64>,
    w1: Seq<u64>,
    w3: Seq<u64>,
    l_low: Seq<u64>,
    l_eq: Seq<u64>,
    l_hi: Seq<u64>,
    s_low: Seq<u64>,
    s_eq: Seq<u64>,
    s_hi: Seq<u64>,
    l: Seq<u64>,
    m: Seq<u64>,
    p: u64,
)
    requires
        l_low + l_eq + l_hi == l,
        s_low + s_eq + s_hi == m,
        all_le_val(l_low, p),
        all_le_val(s_low, p),
        all_eq_val(l_eq, p),
        all_eq_val(s_eq, p),
        all_ge_val(l_hi, p),
        all_ge_val(s_hi, p),
        w1 == sorted_version(l_low + s_low),
        w3 == sorted_version(l_hi + s_hi),
        out == w1 + l_eq + s_eq + w3,
    ensures
        out == sorted_version(l + m),
{
    let g1 = l_low + s_low;
    let g2 = l_eq + s_eq;
    let g3 = l_hi + s_hi;
    assert(out =~= w1 + g2 + w3);
    assert forall|k: int| 0 <= k < g1.len() implies #[trigger] g1[k] <= p by {
        if k < l_low.len() {
            assert(g1[k] == l_low[k]);
        } else {
            assert(g1[k] == s_low[k - l_low.len()]);
        }
    }
    assert forall|k: int| 0 <= k < g2.len() implies #[trigger] g2[k] == p by {
        if k < l_eq.len() {
            assert(g2[k] == l_eq[k]);
        } else {
            assert(g2[k] == s_eq[k - l_eq.len()]);
        }
    }
    assert forall|k: int| 0 <= k < g3.len() implies #[trigger] g3[k] >= p by {
        if k < l_hi.len() {
            assert(g3[k] == l_hi[k]);
        } else {
            assert(g3[k] == s_hi[k - l_hi.len()]);
        }
    }
    lemma_all_eq_from_val(g2, p);
    lemma_all_eq_sorted(g2);
    lemma_sorted_version_ensures(g1);
    lemma_sorted_version_ensures(g3);
    lemma_seq_le_via_pivot(g1, g2, p);
    lemma_seq_le_via_pivot(g1, g3, p);
    lemma_seq_le_via_pivot(g2, g3, p);
    lemma_seq_le_left_rearranged(g2, w1, g1);
    lemma_seq_le_left_rearranged(g3, w1, g1);
    lemma_seq_le_right_rearranged(w1, w3, g3);
    lemma_seq_le_right_rearranged(g2, w3, g3);
    lemma_sorted_concat(w1, g2);
    lemma_seq_le_concat_left(w1, g2, w3);
    lemma_sorted_concat(w1 + g2, w3);
    lemma_multiset_concat(w1, g2);
    lemma_multiset_concat(w1 + g2, w3);
    lemma_multiset_concat(g1, g2);
    lemma_multiset_concat(g1 + g2, g3);
    lemma_multiset_concat(l_low, s_low);
    lemma_multiset_concat(l_eq, s_eq);
    lemma_multiset_concat(l_hi, s_hi);
    lemma_multiset_concat(l_low, l_eq);
    lemma_multiset_concat(l_low + l_eq, l_hi);
    lemma_multiset_concat(s_low, s_eq);
    lemma_multiset_concat(s_low + s_eq, s_hi);
    lemma_multiset_concat(l, m);
    assert(out.to_multiset() =~= (l + m).to_multiset());
    lemma_sorted_version_unique(out, l + m);
}

/// Relies on `rayon::join`: the two half merges run on the fork-join pool
/// and `join` returns both closures' results once they have finished, so
/// each buffer holds exactly what the verified recursive call it wraps
/// ensures of it.
#[verifier::external_body]
fn par_merge_2_halves(
    a0: &Vec<u64>,
    a1: &Vec<u64>,
    b0: &Vec<u64>,
    b1: &Vec<u64>,
    v_low: &mut Vec<u64>,
    v_high: &mut Vec<u64>,
    min_size: usize,
)
    requires
        min_size >= 1,
        sorted(a0@),
        sorted(a1@),
        sorted(b0@),
        sorted(b1@),
        old(v_low).len() == a0.len() + a1.len(),
        old(v_high).len() == b0.len() + b1.len(),
    ensures
        final(v_low).len() == old(v_low).len(),
        final(v_high).len() == old(v_high).len(),
        final(v_low)@ == sorted_version(a0@ + a1@),
        final(v_high)@ == sorted_version(b0@ + b1@),
{
    rayon::join(
        || merge_2_par(a0, a1, v_low, min_size),
        || merge_2_par(b0, b1, v_high, min_size),
    );
}

/// One splitting step of the recursive two-way merge, with `large` already
/// chosen as the source that is cut at its midpoint.
fn merge_2_par_from(large: &Vec<u64>, small: &Vec<u64>, v: &mut Vec<u64>, min_size: usize)
    requires
        min_size >= 1,
        large.len() >= 1,
        sorted(large@),
        sorted(small@),
        old(v).len() == large.len() + small.len(),
    ensures
        final(v).len() == old(v).len(),
        final(v)@ == sorted_version(large@ + small@),
{
    proof {
        lemma_sorted_range_full(large@);
        lemma_sorted_range_full(small@);
    }
    let len_l = large.len();
    let len_s = small.len();
    let pivot_idx = len_l / 2;
    let (la, lb) = split_around(large, 0, len_l, pivot_idx);
    let p = large[pivot_idx];
    let (sa, sb) = locate_pivot(small, 0, len_s, p);
    let l_low = subvec(large, 0, la);
    let l_eq = subvec(large, la, lb);
    let l_hi = subvec(large, lb, len_l);
    let s_low = subvec(small, 0, sa);
    let s_eq = subvec(small, sa, sb);
    let s_hi = subvec(small, sb, len_s);
    proof {
        assert(l_low@ + l_eq@ + l_hi@ =~= large@);
        assert(s_low@ + s_eq@ + s_hi@ =~= small@);
        lemma_sorted_range_subrange(large@, 0, len_l as int, 0, la as int);
        lemma_sorted_range_subrange(large@, 0, len_l as int, lb as int, len_l as int);
        lemma_sorted_range_subrange(small@, 0, len_s as int, 0, sa as int);
        lemma_sorted_range_subrange(small@, 0, len_s as int, sb as int, len_s as int);
    }
    let mut v_low = scratch_vec(la + sa);
    let hi_len = (len_l - lb) + (len_s - sb);
    let mut v_high = scratch_vec(hi_len);
    par_merge_2_halves(&l_low, &s_low, &l_hi, &s_hi, &mut v_low, &mut v_high, min_size);
    let mut out: Vec<u64> = Vec::new();
    append_all(&mut out, &v_low);
    append_all(&mut out, &l_eq);
    append_all(&mut out, &s_eq);
    append_all(&mut out, &v_high);
    proof {
        lemma_merge_2_assembly(
            out@,
            v_low@,
            v_high@,
            l_low@,
            l_eq@,
            l_hi@,
            s_low@,
            s_eq@,
            s_hi@,
            large@,
            small@,
            p,
        );
        lemma_sorted_version_ensures(large@ + small@);
        lemma_multiset_concat(large@, small@);
    }
    copy_into(v, 0, &out);
    proof {
        assert(v@.subrange(0, out.len() as int) =~= v@);
    }
}

/// Two-way sorted merge, splitting recursively around the midpoint pivot of
/// the longer source; halves above the given size are merged in parallel,
/// the rest sequentially by `merge_2`.
pub fn merge_2_par(s1: &Vec<u64>, s2: &Vec<u64>, v: &mut Vec<u64>, min_size: usize)
    requires
        min_size >= 1,
        sorted(s1@),
        sorted(s2@),
        old(v).len() == s1.len() + s2.len(),
    ensures
        final(v).len() == old(v).len(),
        final(v)@ == sorted_version(s1@ + s2@),
{
    let len1 = s1.len();
    let len2 = s2.len();
    if len1 <= min_size || len2 <= min_size {
        merge_2(s1, 0, s2, 0, v, 0);
        proof {
            assert(s1@.subrange(0, len1 as int) =~= s1@);
            assert(s2@.subrange(0, len2 as int) =~= s2@);
            assert(v@.subrange(0, v.len() as int) =~= v@);
        }
    } else if len1 >= len2 {
        merge_2_par_from(s1, s2, v, min_size);
    } else {
        merge_2_par_from(s2, s1, v, min_size);
        proof {
            lemma_multiset_concat(s1@, s2@);
            lemma_multiset_concat(s2@, s1@);
            assert((s2@ + s1@).to_multiset() =~= (s1@ + s2@).to_multiset()) by {
                broadcast use vstd::multiset::group_multiset_axioms;

            }
            lemma_sorted_version_congruence(s2@ + s1@, s1@ + s2@);
        }
    }
}

} // verus!
