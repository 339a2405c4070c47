//! Misc utilities: the sequential merge primitives on plain vectors.

use crate::sorted::{
    lemma_consumed_plus_remaining, lemma_merge_finish, lemma_merge_step, lemma_merge_step_3,
    lemma_multiset_concat, lemma_seq_le_right_rearranged, lemma_sorted_subrange,
    lemma_sorted_version_unique, seq_le, sorted, sorted_version,
};
use vstd::prelude::*;

verus! {

/// Takes two sorted tails, `s1[i1..]` and `s2[i2..]`, and fills `r[o..]`
/// with their merged contents, leaving `r[..o]` untouched.
pub fn merge_2(s1: &Vec<u64>, i1: usize, s2: &Vec<u64>, i2: usize, r: &mut Vec<u64>, o: usize)
    requires
        i1 <= s1.len(),
        i2 <= s2.len(),
        o <= old(r).len(),
        old(r).len() - o == (s1.len() - i1) + (s2.len() - i2),
        sorted(s1@.subrange(i1 as int, s1.len() as int)),
        sorted(s2@.subrange(i2 as int, s2.len() as int)),
    ensures
        final(r).len() == old(r).len(),
        final(r)@.subrange(0, o as int) == old(r)@.subrange(0, o as int),
        final(r)@.subrange(o as int, final(r).len() as int) == sorted_version(
            s1@.subrange(i1 as int, s1.len() as int) + s2@.subrange(i2 as int, s2.len() as int),
        ),
{
    broadcast use vstd::seq_lib::group_to_multiset_ensures;
    broadcast use vstd::multiset::group_multiset_axioms;

    let ghost a = s1@.subrange(i1 as int, s1.len() as int);
    let ghost b = s2@.subrange(i2 as int, s2.len() as int);
    let len1 = s1.len();
    let len2 = s2.len();
    let mut j1 = i1;
    let mut j2 = i2;
    let mut p = o;
    while j1 < len1 && j2 < len2
        invariant
            i1 <= j1 <= len1,
            i2 <= j2 <= len2,
            len1 == s1.len(),
            len2 == s2.len(),
            o <= p <= r.len(),
            r.len() == old(r).len(),
            p - o == (j1 - i1) + (j2 - i2),
            old(r).len() - o == (len1 - i1) + (len2 - i2),
            a == s1@.subrange(i1 as int, len1 as int),
            b == s2@.subrange(i2 as int, len2 as int),
            sorted(a),
            sorted(b),
            r@.subrange(0, o as int) == old(r)@.subrange(0, o as int),
            r@.subrange(o as int, p as int).to_multiset() == (s1@.subrange(
                i1 as int,
                j1 as int,
            ) + s2@.subrange(i2 as int, j2 as int)).to_multiset(),
            sorted(r@.subrange(o as int, p as int)),
            forall|k: int| o <= k < p && j1 < len1 ==> r@[k] <= s1@[j1 as int],
            forall|k: int| o <= k < p && j2 < len2 ==> r@[k] <= s2@[j2 as int],
        decreases (len1 - j1) + (len2 - j2),
    {
        let ghost prev = r@;
        let ghost w = r@.subrange(o as int, p as int);
        if s1[j1] <= s2[j2] {
            r.set(p, s1[j1]);
            proof {
                assert(r@.subrange(0, o as int) =~= prev.subrange(0, o as int));
                assert(r@.subrange(o as int, p + 1 as int) =~= w.push(s1@[j1 as int]));
                assert(s1@.subrange(i1 as int, j1 + 1 as int) =~= s1@.subrange(
                    i1 as int,
                    j1 as int,
                ).push(s1@[j1 as int]));
                lemma_merge_step(
                    w,
                    s1@.subrange(i1 as int, j1 as int),
                    s2@.subrange(i2 as int, j2 as int),
                    s1@[j1 as int],
                );
                assert forall|k: int| j1 + 1 <= k < len1 implies s1@[j1 as int] <= s1@[k] by {
                    assert(a[j1 - i1] <= a[k - i1]);
                }
            }
            j1 += 1;
        } else {
            r.set(p, s2[j2]);
            proof {
                assert(r@.subrange(0, o as int) =~= prev.subrange(0, o as int));
                assert(r@.subrange(o as int, p + 1 as int) =~= w.push(s2@[j2 as int]));
                assert(s2@.subrange(i2 as int, j2 + 1 as int) =~= s2@.subrange(
                    i2 as int,
                    j2 as int,
                ).push(s2@[j2 as int]));
                lemma_merge_step(
                    w,
                    s1@.subrange(i1 as int, j1 as int),
                    s2@.subrange(i2 as int, j2 as int),
                    s2@[j2 as int],
                );
                assert forall|k: int| j2 + 1 <= k < len2 implies s2@[j2 as int] <= s2@[k] by {
                    assert(b[j2 - i2] <= b[k - i2]);
                }
            }
            j2 += 1;
        }
        p += 1;
    }
    while j1 < len1
        invariant
            i1 <= j1 <= len1,
            i2 <= j2 <= len2,
            j1 < len1 ==> j2 == len2,
            len1 == s1.len(),
            len2 == s2.len(),
            o <= p <= r.len(),
            r.len() == old(r).len(),
            p - o == (j1 - i1) + (j2 - i2),
            old(r).len() - o == (len1 - i1) + (len2 - i2),
            a == s1@.subrange(i1 as int, len1 as int),
            sorted(a),
            r@.subrange(0, o as int) == old(r)@.subrange(0, o as int),
            r@.subrange(o as int, p as int).to_multiset() == (s1@.subrange(
                i1 as int,
                j1 as int,
            ) + s2@.subrange(i2 as int, j2 as int)).to_multiset(),
            sorted(r@.subrange(o as int, p as int)),
            forall|k: int| o <= k < p && j1 < len1 ==> r@[k] <= s1@[j1 as int],
            forall|k: int| o <= k < p && j2 < len2 ==> r@[k] <= s2@[j2 as int],
        decreases len1 - j1,
    {
        let ghost prev = r@;
        let ghost w = r@.subrange(o as int, p as int);
        r.set(p, s1[j1]);
        proof {
            assert(r@.subrange(0, o as int) =~= prev.subrange(0, o as int));
            assert(r@.subrange(o as int, p + 1 as int) =~= w.push(s1@[j1 as int]));
            assert(s1@.subrange(i1 as int, j1 + 1 as int) =~= s1@.subrange(
                i1 as int,
                j1 as int,
            ).push(s1@[j1 as int]));
            lemma_merge_step(
                w,
                s1@.subrange(i1 as int, j1 as int),
                s2@.subrange(i2 as int, j2 as int),
                s1@[j1 as int],
            );
            assert forall|k: int| j1 + 1 <= k < len1 implies s1@[j1 as int] <= s1@[k] by {
                assert(a[j1 - i1] <= a[k - i1]);
            }
        }
        j1 += 1;
        p += 1;
    }
    while j2 < len2
        invariant
            i1 <= j1 <= len1,
            i2 <= j2 <= len2,
            j2 < len2 ==> j1 == len1,
            len1 == s1.len(),
            len2 == s2.len(),
            o <= p <= r.len(),
            r.len() == old(r).len(),
            p - o == (j1 - i1) + (j2 - i2),
            old(r).len() - o == (len1 - i1) + (len2 - i2),
            b == s2@.subrange(i2 as int, len2 as int),
            sorted(b),
            r@.subrange(0, o as int) == old(r)@.subrange(0, o as int),
            r@.subrange(o as int, p as int).to_multiset() == (s1@.subrange(
                i1 as int,
                j1 as int,
            ) + s2@.subrange(i2 as int, j2 as int)).to_multiset(),
            sorted(r@.subrange(o as int, p as int)),
            forall|k: int| o <= k < p && j2 < len2 ==> r@[k] <= s2@[j2 as int],
        decreases len2 - j2,
    {
        let ghost prev = r@;
        let ghost w = r@.subrange(o as int, p as int);
        r.set(p, s2[j2]);
        proof {
            assert(r@.subrange(0, o as int) =~= prev.subrange(0, o as int));
            assert(r@.subrange(o as int, p + 1 as int) =~= w.push(s2@[j2 as int]));
            assert(s2@.subrange(i2 as int, j2 + 1 as int) =~= s2@.subrange(
                i2 as int,
                j2 as int,
            ).push(s2@[j2 as int]));
            lemma_merge_step(
                w,
                s1@.subrange(i1 as int, j1 as int),
                s2@.subrange(i2 as int, j2 as int),
                s2@[j2 as int],
            );
            assert forall|k: int| j2 + 1 <= k < len2 implies s2@[j2 as int] <= s2@[k] by {
                assert(b[j2 - i2] <= b[k - i2]);
            }
        }
        j2 += 1;
        p += 1;
    }
    proof {
        assert(s1@.subrange(i1 as int, j1 as int) == a);
        assert(s2@.subrange(i2 as int, j2 as int) == b);
        assert(p == r.len());
        lemma_sorted_version_unique(r@.subrange(o as int, p as int), a + b);
    }
}

/// What the two-way merge guarantees of its output: it is sorted, holds
/// exactly the contents of both inputs together, and has their combined
/// length.
pub proof fn lemma_merge_2_properties(r: Seq<u64>, a: Seq<u64>, b: Seq<u64>)
    requires
        r == sorted_version(a + b),
    ensures
        sorted(r),
        r.to_multiset() == a.to_multiset().add(b.to_multiset()),
        r.len() == a.len() + b.len(),
{
    crate::sorted::lemma_sorted_version_ensures(a + b);
    lemma_multiset_concat(a, b);
}

/// Takes three sorted vectors and returns the merged data in a vector.
/// This function is iterative: a three-pointer loop runs until one source
/// is exhausted, then the other two are finished by `merge_2`.
pub fn merge_3(s1: &Vec<u64>, s2: &Vec<u64>, s3: &Vec<u64>) -> (v: Vec<u64>)
    requires
        s1.len() >= 1,
        s1.len() + s2.len() + s3.len() <= usize::MAX,
        sorted(s1@),
        sorted(s2@),
        sorted(s3@),
    ensures
        v@ == sorted_version(s1@ + s2@ + s3@),
{
    let len1 = s1.len();
    let len2 = s2.len();
    let len3 = s3.len();
    let total = len1 + len2 + len3;
    let fill = s1[0];
    let mut v: Vec<u64> = Vec::new();
    while v.len() < total
        invariant
            v.len() <= total,
        decreases total - v.len(),
    {
        v.push(fill);
    }
    let mut idx1: usize = 0;
    let mut idx2: usize = 0;
    let mut idx3: usize = 0;
    let mut out: usize = 0;
    proof {
        assert(v@.subrange(0, 0) =~= s1@.subrange(0, 0) + s2@.subrange(0, 0) + s3@.subrange(
            0,
            0,
        ));
    }
    while idx1 < len1 && idx2 < len2 && idx3 < len3
        invariant
            idx1 <= len1,
            idx2 <= len2,
            idx3 <= len3,
            len1 == s1.len(),
            len2 == s2.len(),
            len3 == s3.len(),
            total == len1 + len2 + len3,
            v.len() == total,
            out == idx1 + idx2 + idx3,
            sorted(s1@),
            sorted(s2@),
            sorted(s3@),
            v@.subrange(0, out as int).to_multiset() == (s1@.subrange(0, idx1 as int)
                + s2@.subrange(0, idx2 as int) + s3@.subrange(0, idx3 as int)).to_multiset(),
            sorted(v@.subrange(0, out as int)),
            forall|k: int| 0 <= k < out && idx1 < len1 ==> v@[k] <= s1@[idx1 as int],
            forall|k: int| 0 <= k < out && idx2 < len2 ==> v@[k] <= s2@[idx2 as int],
            forall|k: int| 0 <= k < out && idx3 < len3 ==> v@[k] <= s3@[idx3 as int],
        decreases (len1 - idx1) + (len2 - idx2) + (len3 - idx3),
    {
        let ghost w = v@.subrange(0, out as int);
        if s1[idx1] <= s2[idx2] && s1[idx1] <= s3[idx3] {
            v.set(out, s1[idx1]);
            proof {
                assert(v@.subrange(0, out + 1 as int) =~= w.push(s1@[idx1 as int]));
                assert(s1@.subrange(0, idx1 + 1 as int) =~= s1@.subrange(0, idx1 as int).push(
                    s1@[idx1 as int],
                ));
                lemma_merge_step_3(
                    w,
                    s1@.subrange(0, idx1 as int),
                    s2@.subrange(0, idx2 as int),
                    s3@.subrange(0, idx3 as int),
                    s1@[idx1 as int],
                );
                if idx1 + 1 < len1 {
                    assert(s1@[idx1 as int] <= s1@[idx1 + 1 as int]);
                }
            }
            idx1 += 1;
        } else if s2[idx2] <= s1[idx1] && s2[idx2] <= s3[idx3] {
            v.set(out, s2[idx2]);
            proof {
                assert(v@.subrange(0, out + 1 as int) =~= w.push(s2@[idx2 as int]));
                assert(s2@.subrange(0, idx2 + 1 as int) =~= s2@.subrange(0, idx2 as int).push(
                    s2@[idx2 as int],
                ));
                lemma_merge_step_3(
                    w,
                    s1@.subrange(0, idx1 as int),
                    s2@.subrange(0, idx2 as int),
                    s3@.subrange(0, idx3 as int),
                    s2@[idx2 as int],
                );
                if idx2 + 1 < len2 {
                    assert(s2@[idx2 as int] <= s2@[idx2 + 1 as int]);
                }
            }
            idx2 += 1;
        } else {
            v.set(out, s3[idx3]);
            proof {
                assert(v@.subrange(0, out + 1 as int) =~= w.push(s3@[idx3 as int]));
                assert(s3@.subrange(0, idx3 + 1 as int) =~= s3@.subrange(0, idx3 as int).push(
                    s3@[idx3 as int],
                ));
                lemma_merge_step_3(
                    w,
                    s1@.subrange(0, idx1 as int),
                    s2@.subrange(0, idx2 as int),
                    s3@.subrange(0, idx3 as int),
                    s3@[idx3 as int],
                );
                if idx3 + 1 < len3 {
                    assert(s3@[idx3 as int] <= s3@[idx3 + 1 as int]);
                }
            }
            idx3 += 1;
        }
        out += 1;
    }
    let ghost w = v@.subrange(0, out as int);
    let ghost r1 = s1@.subrange(idx1 as int, len1 as int);
    let ghost r2 = s2@.subrange(idx2 as int, len2 as int);
    let ghost r3 = s3@.subrange(idx3 as int, len3 as int);
    proof {
        lemma_sorted_subrange(s1@, idx1 as int, len1 as int);
        lemma_sorted_subrange(s2@, idx2 as int, len2 as int);
        lemma_sorted_subrange(s3@, idx3 as int, len3 as int);
        assert forall|i: int, j: int|
            0 <= i < w.len() && 0 <= j < (r1 + r2 + r3).len() implies #[trigger] w[i]
            <= #[trigger] (r1 + r2 + r3)[j] by {
            if j < r1.len() {
                assert((r1 + r2 + r3)[j] == s1@[idx1 + j]);
                assert(s1@[idx1 as int] <= s1@[idx1 + j]);
            } else if j < r1.len() + r2.len() {
                assert((r1 + r2 + r3)[j] == s2@[idx2 + (j - r1.len())]);
                assert(s2@[idx2 as int] <= s2@[idx2 + (j - r1.len())]);
            } else {
                assert((r1 + r2 + r3)[j] == s3@[idx3 + (j - r1.len() - r2.len())]);
                assert(s3@[idx3 as int] <= s3@[idx3 + (j - r1.len() - r2.len())]);
            }
        }
    }
    if idx1 == len1 {
        merge_2(s2, idx2, s3, idx3, &mut v, out);
        proof {
            assert(r1.len() == 0);
            assert(r2 + r3 =~= r1 + r2 + r3);
            lemma_multiset_concat(w, r2 + r3);
            lemma_multiset_concat(
                s1@.subrange(0, idx1 as int) + s2@.subrange(0, idx2 as int) + s3@.subrange(
                    0,
                    idx3 as int,
                ),
                r2 + r3,
            );
            lemma_consumed_plus_remaining(
                s1@,
                s2@,
                s3@,
                idx1 as int,
                idx2 as int,
                idx3 as int,
                r2 + r3,
            );
            lemma_merge_finish(v@, out as int, r2, r3, s1@ + s2@ + s3@);
        }
    } else if idx2 == len2 {
        merge_2(s1, idx1, s3, idx3, &mut v, out);
        proof {
            assert(r2.len() == 0);
            lemma_multiset_concat(r1, r3);
            lemma_multiset_concat(r1, r2);
            lemma_multiset_concat(r1 + r2, r3);
            assert((r1 + r3).to_multiset() =~= (r1 + r2 + r3).to_multiset());
            lemma_seq_le_right_rearranged(w, r1 + r3, r1 + r2 + r3);
            lemma_multiset_concat(w, r1 + r3);
            lemma_multiset_concat(
                s1@.subrange(0, idx1 as int) + s2@.subrange(0, idx2 as int) + s3@.subrange(
                    0,
                    idx3 as int,
                ),
                r1 + r3,
            );
            lemma_consumed_plus_remaining(
                s1@,
                s2@,
                s3@,
                idx1 as int,
                idx2 as int,
                idx3 as int,
                r1 + r3,
            );
            lemma_merge_finish(v@, out as int, r1, r3, s1@ + s2@ + s3@);
        }
    } else {
        merge_2(s1, idx1, s2, idx2, &mut v, out);
        proof {
            assert(r3.len() == 0);
            lemma_multiset_concat(r1, r2);
            lemma_multiset_concat(r1 + r2, r3);
            assert((r1 + r2).to_multiset() =~= (r1 + r2 + r3).to_multiset());
            lemma_seq_le_right_rearranged(w, r1 + r2, r1 + r2 + r3);
            lemma_multiset_concat(w, r1 + r2);
            lemma_multiset_concat(
                s1@.subrange(0, idx1 as int) + s2@.subrange(0, idx2 as int) + s3@.subrange(
                    0,
                    idx3 as int,
                ),
                r1 + r2,
            );
            lemma_consumed_plus_remaining(
                s1@,
                s2@,
                s3@,
                idx1 as int,
                idx2 as int,
                idx3 as int,
                r1 + r2,
            );
            lemma_merge_finish(v@, out as int, r1, r2, s1@ + s2@ + s3@);
        }
    }
    v
}

} // verus!
