//! Adaptive parallel merge sort over two rotating buffers with a two-way
//! fuse: the recursion runs to a fixed, even depth, so every pair of
//! siblings reaches its fuse with the same live index and the final live
//! index is the caller's buffer.

use crate::algorithms::merging_algorithms::{append_all, merge_2_par, scratch_vec};
use crate::sorted::{
    lemma_multiset_concat, lemma_sorted_version_congruence, lemma_sorted_version_ensures, sorted,
    sorted_version,
};
use vstd::prelude::*;

verus! {

/// Two equal-length buffers, of which the one at index `i` holds the
/// authoritative data for this range.
pub struct SortingSlices2 {
    pub s: (Vec<u64>, Vec<u64>),
    pub i: usize,
}

impl SortingSlices2 {
    pub open spec fn wf(&self) -> bool {
        &&& self.s.0.len() == self.s.1.len()
        &&& self.i < 2
    }

    pub open spec fn spec_len(&self) -> int {
        self.s.0@.len() as int
    }

    /// The contents of the live buffer.
    pub open spec fn live(&self) -> Seq<u64> {
        if self.i == 0 {
            self.s.0@
        } else {
            self.s.1@
        }
    }

    /// The common length of the two buffers.
    pub fn base_length(&self) -> (l: usize)
        ensures
            l == self.spec_len(),
    {
        self.s.0.len()
    }

    /// Borrow the live buffer.
    pub fn live_ref(&self) -> (r: &Vec<u64>)
        requires
            self.wf(),
        ensures
            r@ == self.live(),
    {
        if self.i == 0 {
            &self.s.0
        } else {
            &self.s.1
        }
    }

    /// Split both buffers at the same index; both halves keep the live
    /// index.
    pub fn divide_at(self, idx: usize) -> (r: (SortingSlices2, SortingSlices2))
        requires
            self.wf(),
            idx <= self.spec_len(),
        ensures
            r.0.wf(),
            r.1.wf(),
            r.0.i == self.i,
            r.1.i == self.i,
            r.0.spec_len() == idx,
            r.1.spec_len() == self.spec_len() - idx,
            r.0.live() == self.live().subrange(0, idx as int),
            r.1.live() == self.live().subrange(idx as int, self.spec_len()),
    {
        let SortingSlices2 { s: (mut a, mut b), i } = self;
        let a2 = a.split_off(idx);
        let b2 = b.split_off(idx);
        (SortingSlices2 { s: (a, b), i }, SortingSlices2 { s: (a2, b2), i })
    }

    /// Sort the live buffer in place.
    pub fn sort_live(self) -> (r: SortingSlices2)
        requires
            self.wf(),
        ensures
            r.wf(),
            r.i == self.i,
            r.spec_len() == self.spec_len(),
            r.live() == sorted_version(self.live()),
            sorted(r.live()),
    {
        let ghost pre = self.live();
        let SortingSlices2 { s: (mut a, mut b), i } = self;
        if i == 0 {
            crate::algorithms::merge2join::sort_vec(&mut a);
            proof {
                crate::sorted::lemma_sorted_version_unique(a@, pre);
            }
        } else {
            crate::algorithms::merge2join::sort_vec(&mut b);
            proof {
                crate::sorted::lemma_sorted_version_unique(b@, pre);
            }
        }
        SortingSlices2 { s: (a, b), i }
    }

    /// Call the parallel merge on the right slices: with both sides live in
    /// the same buffer, merge into the other buffer, which becomes live.
    pub fn fuse(self, right: SortingSlices2, block_size_fuse: usize) -> (r: SortingSlices2)
        requires
            self.wf(),
            right.wf(),
            self.i == right.i,
            sorted(self.live()),
            sorted(right.live()),
            block_size_fuse >= 1,
            self.spec_len() + right.spec_len() <= usize::MAX,
        ensures
            r.wf(),
            r.i == 1 - self.i,
            r.spec_len() == self.spec_len() + right.spec_len(),
            r.live() == sorted_version(self.live() + right.live()),
            sorted(r.live()),
    {
        let n1 = self.base_length();
        let n2 = right.base_length();
        let destination_index: usize = 1 - self.i;
        let mut merged = scratch_vec(n1 + n2);
        merge_2_par(self.live_ref(), right.live_ref(), &mut merged, block_size_fuse);
        proof {
            lemma_sorted_version_ensures(self.live() + right.live());
        }
        let SortingSlices2 { s: (mut a0, mut a1), i: _ } = self;
        let SortingSlices2 { s: (b0, b1), i: _ } = right;
        append_all(&mut a0, &b0);
        append_all(&mut a1, &b1);
        let s = if destination_index == 0 {
            (merged, a1)
        } else {
            (a0, merged)
        };
        SortingSlices2 { s, i: destination_index }
    }

    /// Hand the live contents out as the first buffer.
    pub fn into_first_buffer(self) -> (r: Vec<u64>)
        requires
            self.wf(),
        ensures
            r@ == self.live(),
    {
        let SortingSlices2 { s: (mut a, b), i } = self;
        if i == 0 {
            a
        } else {
            crate::algorithms::merging_algorithms::copy_into(&mut a, 0, &b);
            proof {
                assert(a@.subrange(0, a.len() as int) =~= a@);
            }
            a
        }
    }
}

/// Relies on `rayon::join_context`: both recursive half sorts run on the
/// fork-join pool and their results are returned. The second closure runs
/// the same verified recursion whether or not it was migrated: the fixed
/// fuse depth requires the full recursion on both sides, and a non-migrated
/// half simply executes it inline on the current worker.
#[verifier::external_body]
fn join_context_sort2(
    a: SortingSlices2,
    b: SortingSlices2,
    depth: usize,
    block_size_fuse: usize,
) -> (r: (SortingSlices2, SortingSlices2))
    requires
        a.wf(),
        b.wf(),
        block_size_fuse >= 1,
    ensures
        r.0.wf(),
        r.1.wf(),
        r.0.spec_len() == a.spec_len(),
        r.1.spec_len() == b.spec_len(),
        r.0.live() == sorted_version(a.live()),
        r.1.live() == sorted_version(b.live()),
        sorted(r.0.live()),
        sorted(r.1.live()),
        r.0.i as int == (if depth % 2 == 0 { a.i as int } else { 1 - a.i }),
        r.1.i as int == (if depth % 2 == 0 { b.i as int } else { 1 - b.i }),
{
    rayon::join_context(
        |_| schedule_join_context_join(a, depth, block_size_fuse),
        |_| schedule_join_context_join(b, depth, block_size_fuse),
    )
}

/// Recursion of a fixed depth: at depth zero sort the range directly, else
/// sort both halves through `join_context` and fuse. Each level moves the
/// live index to the other buffer, so the final index is determined by the
/// parity of the depth alone.
pub fn schedule_join_context_join(
    input: SortingSlices2,
    depth: usize,
    block_size_fuse: usize,
) -> (r: SortingSlices2)
    requires
        input.wf(),
        block_size_fuse >= 1,
    ensures
        r.wf(),
        r.spec_len() == input.spec_len(),
        r.live() == sorted_version(input.live()),
        sorted(r.live()),
        r.i as int == (if depth % 2 == 0 { input.i as int } else { 1 - input.i }),
{
    if depth == 0 {
        input.sort_live()
    } else {
        let ghost whole = input.live();
        let len = input.base_length();
        let (left, right) = input.divide_at(len / 2);
        let (sorted_left, sorted_right) = join_context_sort2(
            left,
            right,
            depth - 1,
            block_size_fuse,
        );
        let fused = sorted_left.fuse(sorted_right, block_size_fuse);
        proof {
            assert(left.live() + right.live() =~= whole);
            lemma_sorted_version_ensures(left.live());
            lemma_sorted_version_ensures(right.live());
            lemma_multiset_concat(left.live(), right.live());
            lemma_multiset_concat(sorted_version(left.live()), sorted_version(right.live()));
            lemma_sorted_version_congruence(
                sorted_version(left.live()) + sorted_version(right.live()),
                whole,
            );
        }
        fused
    }
}

/// The number of halving levels needed to bring ranges of length `len`
/// below `block_size`, rounded up to an even number so that the fused
/// result ends in the caller's buffer.
pub fn even_depth_for(len: usize, block_size: usize) -> (d: usize)
    requires
        block_size >= 1,
    ensures
        d % 2 == 0,
{
    let mut reach = block_size;
    let mut depth: usize = 0;
    while reach < len && depth < 64
        invariant
            reach >= 1,
            depth <= 64,
        decreases len - reach,
    {
        reach = if reach > len / 2 {
            len
        } else {
            reach * 2
        };
        depth = depth + 1;
    }
    if depth % 2 == 0 {
        depth
    } else {
        depth + 1
    }
}

/// Parallel sort over two buffers through `join_context`, with the block
/// size adjusted so that an even number of halving levels covers the whole
/// range.
pub fn adaptive_sort_join_context_join(
    slice: &mut Vec<u64>,
    block_size: usize,
    block_size_fuse: usize,
)
    requires
        block_size >= 1,
        block_size_fuse >= 1,
    ensures
        final(slice).len() == old(slice).len(),
        final(slice)@ == sorted_version(old(slice)@),
        sorted(final(slice)@),
{
    let n = slice.len();
    let tmp_slice1 = scratch_vec(n);
    let mut data: Vec<u64> = Vec::new();
    core::mem::swap(&mut data, slice);
    let slices = SortingSlices2 { s: (data, tmp_slice1), i: 0 };
    let recursions = even_depth_for(n, block_size);
    let result_slices = schedule_join_context_join(slices, recursions, block_size_fuse);
    let mut sorted_data = result_slices.into_first_buffer();
    core::mem::swap(slice, &mut sorted_data);
    proof {
        lemma_sorted_version_ensures(old(slice)@);
    }
}

} // verus!