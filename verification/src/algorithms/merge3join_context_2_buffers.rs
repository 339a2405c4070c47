//! Adaptive parallel merge sort over two rotating buffers with a three-way
//! fuse: fixed, even recursion depth, so all three siblings reach each fuse
//! with the same live index, as the fuse requires.

use crate::algorithms::merge_join_context_2_buffers::SortingSlices2;
use crate::algorithms::merging_algorithms::{append_all, merge_3_par, scratch_vec};
use crate::sorted::{
    lemma_multiset_concat, lemma_sorted_version_congruence, lemma_sorted_version_ensures, sorted,
    sorted_version,
};
use vstd::prelude::*;

verus! {

impl SortingSlices2 {
    /// Call the three-way parallel merge on the right slices: with all
    /// three siblings live in the same buffer, merge into the other buffer,
    /// which becomes live.
    pub fn fuse3(self, mid: SortingSlices2, right: SortingSlices2, block_size_fuse: usize) -> (r:
        SortingSlices2)
        requires
            self.wf(),
            mid.wf(),
            right.wf(),
            self.i == mid.i,
            mid.i == right.i,
            sorted(self.live()),
            sorted(mid.live()),
            sorted(right.live()),
            block_size_fuse >= 1,
            self.spec_len() + mid.spec_len() + right.spec_len() <= usize::MAX,
        ensures
            r.wf(),
            r.i == 1 - self.i,
            r.spec_len() == self.spec_len() + mid.spec_len() + right.spec_len(),
            r.live() == sorted_version(self.live() + mid.live() + right.live()),
            sorted(r.live()),
    {
        let n1 = self.base_length();
        let n2 = mid.base_length();
        let n3 = right.base_length();
        let destination_index: usize = 1 - self.i;
        let mut merged = scratch_vec(n1 + n2 + n3);
        merge_3_par(
            self.live_ref(),
            mid.live_ref(),
            right.live_ref(),
            &mut merged,
            block_size_fuse,
        );
        proof {
            lemma_sorted_version_ensures(self.live() + mid.live() + right.live());
        }
        let SortingSlices2 { s: (mut a0, mut a1), i: _ } = self;
        let SortingSlices2 { s: (b0, b1), i: _ } = mid;
        let SortingSlices2 { s: (c0, c1), i: _ } = right;
        append_all(&mut a0, &b0);
        append_all(&mut a0, &c0);
        append_all(&mut a1, &b1);
        append_all(&mut a1, &c1);
        let s = if destination_index == 0 {
            (merged, a1)
        } else {
            (a0, merged)
        };
        SortingSlices2 { s, i: destination_index }
    }
}

/// Relies on `rayon::join_context`: the three recursive sub-sorts run on
/// the fork-join pool and the closures' results are returned. Whether or
/// not a branch was migrated it runs the same verified recursion: the
/// fixed fuse depth requires the full recursion on every side.
#[verifier::external_body]
fn join_context_sort3(
    a: SortingSlices2,
    b: SortingSlices2,
    c: SortingSlices2,
    depth: usize,
    block_size_fuse: usize,
) -> (r: (SortingSlices2, SortingSlices2, SortingSlices2))
    requires
        a.wf(),
        b.wf(),
        c.wf(),
        block_size_fuse >= 1,
    ensures
        r.0.wf(),
        r.1.wf(),
        r.2.wf(),
        r.0.spec_len() == a.spec_len(),
        r.1.spec_len() == b.spec_len(),
        r.2.spec_len() == c.spec_len(),
        r.0.live() == sorted_version(a.live()),
        r.1.live() == sorted_version(b.live()),
        r.2.live() == sorted_version(c.live()),
        sorted(r.0.live()),
        sorted(r.1.live()),
        sorted(r.2.live()),
        r.0.i as int == (if depth % 2 == 0 { a.i as int } else { 1 - a.i }),
        r.1.i as int == (if depth % 2 == 0 { b.i as int } else { 1 - b.i }),
        r.2.i as int == (if depth % 2 == 0 { c.i as int } else { 1 - c.i }),
{
    let ((ra, rb), rc) = rayon::join_context(
        |_| {
            rayon::join_context(
                |_| schedule_join_context3(a, depth, block_size_fuse),
                |_| schedule_join_context3(b, depth, block_size_fuse),
            )
        },
        |_| schedule_join_context3(c, depth, block_size_fuse),
    );
    (ra, rb, rc)
}

/// Recursion of a fixed depth: at depth zero sort the range directly, else
/// sort the three parts through `join_context` and fuse them with the
/// three-way merge. Each level moves the live index to the other buffer.
pub fn schedule_join_context3(
    input: SortingSlices2,
    depth: usize,
    block_size_fuse: usize,
) -> (r: SortingSlices2)
    requires
        input.wf(),
        block_size_fuse >= 1,
    ensures
        r.wf(),
        r.spec_len() == input.spec_len(),
        r.live() == sorted_version(input.live()),
        sorted(r.live()),
        r.i as int == (if depth % 2 == 0 { input.i as int } else { 1 - input.i }),
{
    if depth == 0 {
        input.sort_live()
    } else {
        let ghost whole = input.live();
        let len = input.base_length();
        let (left, rest) = input.divide_at(len / 3);
        let rest_len = rest.base_length();
        let (middle, right) = rest.divide_at(rest_len / 2);
        proof {
            assert(left.live() + middle.live() + right.live() =~= whole);
        }
        let (sl, sm, sr) = join_context_sort3(left, middle, right, depth - 1, block_size_fuse);
        let fused = sl.fuse3(sm, sr, block_size_fuse);
        proof {
            lemma_sorted_version_ensures(left.live());
            lemma_sorted_version_ensures(middle.live());
            lemma_sorted_version_ensures(right.live());
            lemma_multiset_concat(left.live(), middle.live());
            lemma_multiset_concat(left.live() + middle.live(), right.live());
            lemma_multiset_concat(sorted_version(left.live()), sorted_version(middle.live()));
            lemma_multiset_concat(
                sorted_version(left.live()) + sorted_version(middle.live()),
                sorted_version(right.live()),
            );
            assert((sorted_version(left.live()) + sorted_version(middle.live()) + sorted_version(
                right.live(),
            )).to_multiset() =~= whole.to_multiset()) by {
                broadcast use vstd::multiset::group_multiset_axioms;

            }
            lemma_sorted_version_congruence(
                sorted_version(left.live()) + sorted_version(middle.live()) + sorted_version(
                    right.live(),
                ),
                whole,
            );
        }
        fused
    }
}

/// Parallel sort over two buffers with three-way splitting and three-way
/// fuse through `join_context`, with an even recursion depth so the result
/// ends in the caller's buffer.
pub fn adaptive_sort_join_context3(slice: &mut Vec<u64>, block_size: usize, block_size_fuse: usize)
    requires
        block_size >= 1,
        block_size_fuse >= 1,
    ensures
        final(slice).len() == old(slice).len(),
        final(slice)@ == sorted_version(old(slice)@),
        sorted(final(slice)@),
{
    let n = slice.len();
    let tmp_slice1 = scratch_vec(n);
    let mut data: Vec<u64> = Vec::new();
    core::mem::swap(&mut data, slice);
    let slices = SortingSlices2 { s: (data, tmp_slice1), i: 0 };
    let recursions = crate::algorithms::merge_join_context_2_buffers::even_depth_for(
        n,
        block_size,
    );
    let result_slices = schedule_join_context3(slices, recursions, block_size_fuse);
    let mut sorted_data = result_slices.into_first_buffer();
    core::mem::swap(slice, &mut sorted_data);
    proof {
        lemma_sorted_version_ensures(old(slice)@);
    }
}

} // verus!
