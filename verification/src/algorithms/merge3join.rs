//! Adaptive parallel merge sort with a three-way fuse over three rotating
//! buffers.

use crate::algorithms::merge2join::SortingSlices;
use crate::algorithms::merging_algorithms::{append_all, copy_into, merge_3_par, scratch_vec, subvec};
use crate::sorted::{
    lemma_multiset_concat, lemma_sorted_version_congruence, lemma_sorted_version_ensures, sorted,
    sorted_version,
};
use vstd::prelude::*;

verus! {

impl SortingSlices {
    /// Move the live contents into the buffer of the given index.
    pub fn with_live_at(self, j: usize) -> (r: SortingSlices)
        requires
            self.wf(),
            j < 3,
        ensures
            r.wf(),
            r.i == j,
            r.spec_len() == self.spec_len(),
            r.live() == self.live(),
    {
        if self.i == j {
            return self;
        }
        let n = self.base_length();
        let live_copy = subvec(self.live_ref(), 0, n);
        let SortingSlices { s: (mut a, mut b, mut c), i: _ } = self;
        if j == 0 {
            copy_into(&mut a, 0, &live_copy);
            proof {
                assert(a@.subrange(0, a.len() as int) =~= a@);
                assert(live_copy@ =~= self.live());
            }
        } else if j == 1 {
            copy_into(&mut b, 0, &live_copy);
            proof {
                assert(b@.subrange(0, b.len() as int) =~= b@);
                assert(live_copy@ =~= self.live());
            }
        } else {
            copy_into(&mut c, 0, &live_copy);
            proof {
                assert(c@.subrange(0, c.len() as int) =~= c@);
                assert(live_copy@ =~= self.live());
            }
        }
        SortingSlices { s: (a, b, c), i: j }
    }

    /// Call the three-way parallel merge on the right slices: merge the
    /// three live buffers into a buffer index free on all participants
    /// (first normalising the right sibling when all three indices differ,
    /// so that a free index always exists), and hand back the fused range.
    pub fn fuse3(self, mid: SortingSlices, right: SortingSlices, block_size_fuse: usize) -> (r:
        SortingSlices)
        requires
            self.wf(),
            mid.wf(),
            right.wf(),
            sorted(self.live()),
            sorted(mid.live()),
            sorted(right.live()),
            block_size_fuse >= 1,
            self.spec_len() + mid.spec_len() + right.spec_len() <= usize::MAX,
        ensures
            r.wf(),
            r.spec_len() == self.spec_len() + mid.spec_len() + right.spec_len(),
            r.live() == sorted_version(self.live() + mid.live() + right.live()),
            sorted(r.live()),
    {
        let ghost right_live = right.live();
        let right = if self.i != mid.i && mid.i != right.i && self.i != right.i {
            right.with_live_at(mid.i)
        } else {
            right
        };
        let destination_index: usize = if self.i != 0 && mid.i != 0 && right.i != 0 {
            0
        } else if self.i != 1 && mid.i != 1 && right.i != 1 {
            1
        } else {
            2
        };
        assert(destination_index != self.i && destination_index != mid.i && destination_index
            != right.i);
        let n1 = self.base_length();
        let n2 = mid.base_length();
        let n3 = right.base_length();
        let mut merged = scratch_vec(n1 + n2 + n3);
        merge_3_par(
            self.live_ref(),
            mid.live_ref(),
            right.live_ref(),
            &mut merged,
            block_size_fuse,
        );
        proof {
            lemma_sorted_version_ensures(self.live() + mid.live() + right_live);
        }
        let SortingSlices { s: (mut a0, mut a1, mut a2), i: _ } = self;
        let SortingSlices { s: (b0, b1, b2), i: _ } = mid;
        let SortingSlices { s: (c0, c1, c2), i: _ } = right;
        append_all(&mut a0, &b0);
        append_all(&mut a0, &c0);
        append_all(&mut a1, &b1);
        append_all(&mut a1, &c1);
        append_all(&mut a2, &b2);
        append_all(&mut a2, &c2);
        let s = if destination_index == 0 {
            (merged, a1, a2)
        } else if destination_index == 1 {
            (a0, merged, a2)
        } else {
            (a0, a1, merged)
        };
        SortingSlices { s, i: destination_index }
    }
}

/// Relies on `rayon::join`: the three recursive sub-sorts run on the
/// fork-join pool and `join` returns its closures' results, so each part
/// holds exactly what the verified recursive call it wraps ensures of it.
#[verifier::external_body]
fn join_sort3(
    a: SortingSlices,
    b: SortingSlices,
    c: SortingSlices,
    block_size: usize,
    block_size_fuse: usize,
) -> (r: (SortingSlices, SortingSlices, SortingSlices))
    requires
        a.wf(),
        b.wf(),
        c.wf(),
        block_size >= 1,
        block_size_fuse >= 1,
    ensures
        r.0.wf(),
        r.1.wf(),
        r.2.wf(),
        r.0.spec_len() == a.spec_len(),
        r.1.spec_len() == b.spec_len(),
        r.2.spec_len() == c.spec_len(),
        r.0.live() == sorted_version(a.live()),
        r.1.live() == sorted_version(b.live()),
        r.2.live() == sorted_version(c.live()),
        sorted(r.0.live()),
        sorted(r.1.live()),
        sorted(r.2.live()),
{
    let ((ra, rb), rc) = rayon::join(
        || {
            rayon::join(
                || schedule_join3(a, block_size, block_size_fuse),
                || schedule_join3(b, block_size, block_size_fuse),
            )
        },
        || schedule_join3(c, block_size, block_size_fuse),
    );
    (ra, rb, rc)
}

/// Recursive three-way splitting: sort ranges at most `block_size` long
/// directly, else sort the three parts through the fork-join pool and fuse
/// them with the three-way merge.
pub fn schedule_join3(
    input: SortingSlices,
    block_size: usize,
    block_size_fuse: usize,
) -> (r: SortingSlices)
    requires
        input.wf(),
        block_size >= 1,
        block_size_fuse >= 1,
    ensures
        r.wf(),
        r.spec_len() == input.spec_len(),
        r.live() == sorted_version(input.live()),
        sorted(r.live()),
{
    let len = input.base_length();
    if len <= block_size {
        input.sort_live()
    } else {
        let ghost whole = input.live();
        let (left, rest) = input.divide_at(len / 3);
        let rest_len = rest.base_length();
        let (middle, right) = rest.divide_at(rest_len / 2);
        proof {
            assert(left.live() + middle.live() + right.live() =~= whole);
        }
        let (sl, sm, sr) = join_sort3(left, middle, right, block_size, block_size_fuse);
        let fused = sl.fuse3(sm, sr, block_size_fuse);
        proof {
            lemma_sorted_version_ensures(left.live());
            lemma_sorted_version_ensures(middle.live());
            lemma_sorted_version_ensures(right.live());
            lemma_multiset_concat(left.live(), middle.live());
            lemma_multiset_concat(left.live() + middle.live(), right.live());
            lemma_multiset_concat(sorted_version(left.live()), sorted_version(middle.live()));
            lemma_multiset_concat(
                sorted_version(left.live()) + sorted_version(middle.live()),
                sorted_version(right.live()),
            );
            assert((sorted_version(left.live()) + sorted_version(middle.live()) + sorted_version(
                right.live(),
            )).to_multiset() =~= whole.to_multiset()) by {
                broadcast use vstd::multiset::group_multiset_axioms;

            }
            lemma_sorted_version_congruence(
                sorted_version(left.live()) + sorted_version(middle.live()) + sorted_version(
                    right.live(),
                ),
                whole,
            );
        }
        fused
    }
}

/// Parallel sort with three-way recursive splitting and three-way fuse.
pub fn adaptive_sort_join3(slice: &mut Vec<u64>, block_size: usize, block_size_fuse: usize)
    requires
        block_size >= 1,
        block_size_fuse >= 1,
    ensures
        final(slice).len() == old(slice).len(),
        final(slice)@ == sorted_version(old(slice)@),
        sorted(final(slice)@),
{
    let n = slice.len();
    let tmp_slice1 = scratch_vec(n);
    let tmp_slice2 = scratch_vec(n);
    let mut data: Vec<u64> = Vec::new();
    core::mem::swap(&mut data, slice);
    let slices = SortingSlices { s: (data, tmp_slice1, tmp_slice2), i: 0 };
    let result_slices = schedule_join3(slices, block_size, block_size_fuse);
    let mut sorted_data = result_slices.into_first_buffer();
    core::mem::swap(slice, &mut sorted_data);
    proof {
        lemma_sorted_version_ensures(old(slice)@);
    }
}

} // verus!