//! Adaptive parallel merge sort with a two-way fuse over three rotating
//! buffers.

use crate::algorithms::merging_algorithms::{append_all, copy_into, merge_2_par, scratch_vec};
use crate::sorted::{
    lemma_sorted_version_ensures, lemma_sorted_version_unique, sorted, sorted_version,
};
use vstd::prelude::*;

verus! {

/// Relies on `<[u64]>::sort` (via `Vec`'s deref): sorts the vector in
/// place, so the result is a sorted permutation of the input.
#[verifier::external_body]
pub(crate) fn sort_vec(v: &mut Vec<u64>)
    ensures
        final(v).len() == old(v).len(),
        sorted(final(v)@),
        final(v)@.to_multiset() == old(v)@.to_multiset(),
{
    v.sort();
}

/// Slices of several vectors at once: three equal-length buffers, of which
/// the one at index `i` holds the authoritative data for this range.
pub struct SortingSlices {
    pub s: (Vec<u64>, Vec<u64>, Vec<u64>),
    pub i: usize,
}

impl SortingSlices {
    pub open spec fn wf(&self) -> bool {
        &&& self.s.0.len() == self.s.1.len()
        &&& self.s.1.len() == self.s.2.len()
        &&& self.i < 3
    }

    pub open spec fn spec_len(&self) -> int {
        self.s.0@.len() as int
    }

    /// The contents of the live buffer.
    pub open spec fn live(&self) -> Seq<u64> {
        if self.i == 0 {
            self.s.0@
        } else if self.i == 1 {
            self.s.1@
        } else {
            self.s.2@
        }
    }

    /// The common length of the three buffers.
    pub fn base_length(&self) -> (l: usize)
        ensures
            l == self.spec_len(),
    {
        self.s.0.len()
    }

    /// Borrow the live buffer.
    pub fn live_ref(&self) -> (r: &Vec<u64>)
        requires
            self.wf(),
        ensures
            r@ == self.live(),
    {
        if self.i == 0 {
            &self.s.0
        } else if self.i == 1 {
            &self.s.1
        } else {
            &self.s.2
        }
    }

    /// Split all three buffers at the same index; both halves keep the
    /// live index.
    pub fn divide_at(self, idx: usize) -> (r: (SortingSlices, SortingSlices))
        requires
            self.wf(),
            idx <= self.spec_len(),
        ensures
            r.0.wf(),
            r.1.wf(),
            r.0.i == self.i,
            r.1.i == self.i,
            r.0.spec_len() == idx,
            r.1.spec_len() == self.spec_len() - idx,
            r.0.live() == self.live().subrange(0, idx as int),
            r.1.live() == self.live().subrange(idx as int, self.spec_len()),
    {
        let SortingSlices { s: (mut a, mut b, mut c), i } = self;
        let a2 = a.split_off(idx);
        let b2 = b.split_off(idx);
        let c2 = c.split_off(idx);
        (SortingSlices { s: (a, b, c), i }, SortingSlices { s: (a2, b2, c2), i })
    }

    /// Sort the live buffer in place.
    pub fn sort_live(self) -> (r: SortingSlices)
        requires
            self.wf(),
        ensures
            r.wf(),
            r.i == self.i,
            r.spec_len() == self.spec_len(),
            r.live() == sorted_version(self.live()),
            sorted(r.live()),
    {
        let ghost pre = self.live();
        let SortingSlices { s: (mut a, mut b, mut c), i } = self;
        if i == 0 {
            sort_vec(&mut a);
            proof {
                lemma_sorted_version_unique(a@, pre);
            }
        } else if i == 1 {
            sort_vec(&mut b);
            proof {
                lemma_sorted_version_unique(b@, pre);
            }
        } else {
            sort_vec(&mut c);
            proof {
                lemma_sorted_version_unique(c@, pre);
            }
        }
        SortingSlices { s: (a, b, c), i }
    }

    /// Copy the live contents back into the caller-facing first buffer.
    pub fn into_first_buffer(self) -> (r: Vec<u64>)
        requires
            self.wf(),
        ensures
            r@ == self.live(),
    {
        let SortingSlices { s: (mut a, b, c), i } = self;
        if i == 0 {
            a
        } else if i == 1 {
            copy_into(&mut a, 0, &b);
            proof {
                assert(a@.subrange(0, a.len() as int) =~= a@);
            }
            a
        } else {
            copy_into(&mut a, 0, &c);
            proof {
                assert(a@.subrange(0, a.len() as int) =~= a@);
            }
            a
        }
    }

    /// Call the parallel merge on the right slices: merge the two live
    /// buffers into the buffer index that neither side uses, and hand back
    /// the fused range with that index live.
    pub fn fuse(self, right: SortingSlices, block_size_fuse: usize) -> (r: SortingSlices)
        requires
            self.wf(),
            right.wf(),
            sorted(self.live()),
            sorted(right.live()),
            block_size_fuse >= 1,
            self.spec_len() + right.spec_len() <= usize::MAX,
        ensures
            r.wf(),
            r.spec_len() == self.spec_len() + right.spec_len(),
            r.live() == sorted_version(self.live() + right.live()),
            sorted(r.live()),
    {
        let n1 = self.base_length();
        let n2 = right.base_length();
        let destination_index: usize = if self.i != 0 && right.i != 0 {
            0
        } else if self.i != 1 && right.i != 1 {
            1
        } else {
            2
        };
        let mut merged = scratch_vec(n1 + n2);
        merge_2_par(self.live_ref(), right.live_ref(), &mut merged, block_size_fuse);
        proof {
            lemma_sorted_version_ensures(self.live() + right.live());
        }
        let SortingSlices { s: (mut a0, mut a1, mut a2), i: _ } = self;
        let SortingSlices { s: (b0, b1, b2), i: _ } = right;
        append_all(&mut a0, &b0);
        append_all(&mut a1, &b1);
        append_all(&mut a2, &b2);
        let s = if destination_index == 0 {
            (merged, a1, a2)
        } else if destination_index == 1 {
            (a0, merged, a2)
        } else {
            (a0, a1, merged)
        };
        SortingSlices { s, i: destination_index }
    }
}

/// Relies on `rayon::join`: the two recursive half sorts run on the
/// fork-join pool and `join` returns both closures' results, so each half
/// holds exactly what the verified recursive call it wraps ensures of it.
#[verifier::external_body]
fn join_sort2(
    a: SortingSlices,
    b: SortingSlices,
    block_size: usize,
    block_size_fuse: usize,
) -> (r: (SortingSlices, SortingSlices))
    requires
        a.wf(),
        b.wf(),
        block_size >= 1,
        block_size_fuse >= 1,
    ensures
        r.0.wf(),
        r.1.wf(),
        r.0.spec_len() == a.spec_len(),
        r.1.spec_len() == b.spec_len(),
        r.0.live() == sorted_version(a.live()),
        r.1.live() == sorted_version(b.live()),
        sorted(r.0.live()),
        sorted(r.1.live()),
{
    rayon::join(
        || schedule_join2(a, block_size, block_size_fuse),
        || schedule_join2(b, block_size, block_size_fuse),
    )
}

/// Recursive halving: sort ranges at most `block_size` long directly, else
/// sort both halves through the fork-join pool and fuse them.
pub fn schedule_join2(
    input: SortingSlices,
    block_size: usize,
    block_size_fuse: usize,
) -> (r: SortingSlices)
    requires
        input.wf(),
        block_size >= 1,
        block_size_fuse >= 1,
    ensures
        r.wf(),
        r.spec_len() == input.spec_len(),
        r.live() == sorted_version(input.live()),
        sorted(r.live()),
{
    let len = input.base_length();
    if len <= block_size {
        input.sort_live()
    } else {
        let ghost whole = input.live();
        let (left, right) = input.divide_at(len / 2);
        let (sorted_left, sorted_right) = join_sort2(left, right, block_size, block_size_fuse);
        let fused = sorted_left.fuse(sorted_right, block_size_fuse);
        proof {
            assert(left.live() + right.live() =~= whole);
            lemma_sorted_version_ensures(left.live());
            lemma_sorted_version_ensures(right.live());
            crate::sorted::lemma_multiset_concat(left.live(), right.live());
            crate::sorted::lemma_multiset_concat(
                sorted_version(left.live()),
                sorted_version(right.live()),
            );
            crate::sorted::lemma_sorted_version_congruence(
                sorted_version(left.live()) + sorted_version(right.live()),
                whole,
            );
        }
        fused
    }
}

/// Parallel sort with two-way recursive splitting and two-way fuse.
pub fn adaptive_sort_join2(slice: &mut Vec<u64>, block_size: usize, block_size_fuse: usize)
    requires
        block_size >= 1,
        block_size_fuse >= 1,
    ensures
        final(slice).len() == old(slice).len(),
        final(slice)@ == sorted_version(old(slice)@),
        sorted(final(slice)@),
{
    let n = slice.len();
    let tmp_slice1 = scratch_vec(n);
    let tmp_slice2 = scratch_vec(n);
    let mut data: Vec<u64> = Vec::new();
    core::mem::swap(&mut data, slice);
    let slices = SortingSlices { s: (data, tmp_slice1, tmp_slice2), i: 0 };
    let result_slices = schedule_join2(slices, block_size, block_size_fuse);
    let mut sorted_data = result_slices.into_first_buffer();
    core::mem::swap(slice, &mut sorted_data);
    proof {
        lemma_sorted_version_ensures(old(slice)@);
    }
}

} // verus!