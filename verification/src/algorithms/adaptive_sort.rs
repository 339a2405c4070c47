//! The sorting workload handed to the generic scheduler, and the top-level
//! in-place sorting entry points.

use crate::algorithms::merge2join::{sort_vec, SortingSlices};
use crate::algorithms::merging_algorithms::{copy_into, merge_2, scratch_vec, subvec};
use crate::scheduling::{
    policy_wf, schedule, Divisible, NeverStolen, Policy, SchedulingContext, Workload,
};
use crate::sorted::{
    lemma_multiset_concat, lemma_sort_of_sorted_is_identity, lemma_sorted_range_full,
    lemma_sorted_range_subrange, lemma_sorted_version_congruence, lemma_sorted_version_ensures,
    sorted, sorted_range, sorted_version,
};
use vstd::prelude::*;

verus! {

/// Default block size used when no policy spells one out.
pub const DEFAULT_BLOCK_SIZE: usize = 1024;

/// The block size a fuse policy asks for; a sequential fuse merges in one
/// block covering the whole range.
pub fn policy_block_size(p: Policy, n: usize) -> (b: usize)
    requires
        policy_wf(p),
    ensures
        b >= 1,
{
    match p {
        Policy::Sequential => if n >= 1 {
            n
        } else {
            1
        },
        Policy::Join(b) => b,
        Policy::JoinContext(b) => b,
        Policy::DepJoin(b) => b,
        Policy::Adaptive(b) => b,
    }
}

/// The sorting workload: rotating buffers, the boundary of the
/// already-sorted prefix of the live buffer, and the merge granularity for
/// fuses.
pub struct SortWork {
    pub slices: SortingSlices,
    pub done: usize,
    pub fuse_block: usize,
}

impl Divisible for SortWork {
    open spec fn wf(&self) -> bool {
        &&& self.slices.wf()
        &&& self.done <= self.slices.spec_len()
        &&& sorted_range(self.slices.live(), 0, self.done as int)
        &&& self.fuse_block >= 1
    }

    open spec fn spec_len(&self) -> int {
        self.slices.spec_len() - self.done
    }

    open spec fn from_split(&self, i: int, left: &Self, right: &Self) -> bool {
        left.slices.live() + right.slices.live() == self.slices.live()
    }

    fn length(&self) -> (l: usize) {
        self.slices.base_length() - self.done
    }

    fn split_at(self, i: usize) -> (r: (Self, Self)) {
        let at = self.done + i;
        let ghost live = self.slices.live();
        let (a, b) = self.slices.divide_at(at);
        proof {
            assert forall|p: int, q: int|
                0 <= p < q < self.done implies #[trigger] a.live()[p] <= #[trigger] a.live()[q] by {
                assert(a.live()[p] == live[p]);
                assert(a.live()[q] == live[q]);
            }
            assert(a.live() + b.live() =~= live);
        }
        let left = SortWork { slices: a, done: self.done, fuse_block: self.fuse_block };
        let right = SortWork { slices: b, done: 0, fuse_block: self.fuse_block };
        (left, right)
    }
}

impl Workload for SortWork {
    type Output = SortWork;

    open spec fn post(&self, o: SortWork) -> bool {
        &&& o.slices.wf()
        &&& o.slices.spec_len() == self.slices.spec_len()
        &&& o.slices.live() == sorted_version(self.slices.live())
        &&& o.fuse_block >= 1
    }

    fn work(self, limit: usize) -> (r: Self) {
        let n = self.slices.base_length();
        let remaining = n - self.done;
        let l = if limit <= remaining {
            limit
        } else {
            remaining
        };
        let end = self.done + l;
        let ghost old_live = self.slices.live();
        let mut block = subvec(self.slices.live_ref(), self.done, end);
        sort_vec(&mut block);
        let prefix = subvec(self.slices.live_ref(), 0, self.done);
        let mut merged = scratch_vec(end);
        proof {
            lemma_sorted_range_subrange(old_live, 0, self.done as int, 0, self.done as int);
            assert(prefix@.subrange(0, prefix.len() as int) =~= prefix@);
            assert(block@.subrange(0, block.len() as int) =~= block@);
        }
        merge_2(&prefix, 0, &block, 0, &mut merged, 0);
        proof {
            assert(merged@.subrange(0, merged.len() as int) =~= merged@);
        }
        let SortingSlices { s: (mut s0, mut s1, mut s2), i } = self.slices;
        if i == 0 {
            copy_into(&mut s0, 0, &merged);
        } else if i == 1 {
            copy_into(&mut s1, 0, &merged);
        } else {
            copy_into(&mut s2, 0, &merged);
        }
        let slices = SortingSlices { s: (s0, s1, s2), i };
        let r = SortWork { slices, done: end, fuse_block: self.fuse_block };
        proof {
            let new_live = r.slices.live();
            let tail = old_live.subrange(end as int, n as int);
            assert(new_live.subrange(0, end as int) == merged@);
            assert(new_live.subrange(end as int, n as int) == tail);
            assert(new_live =~= merged@ + tail);
            lemma_sorted_version_ensures(prefix@ + block@);
            assert forall|p: int, q: int|
                0 <= p < q < end implies #[trigger] new_live[p] <= #[trigger] new_live[q] by {
                assert(new_live[p] == merged@[p]);
                assert(new_live[q] == merged@[q]);
            }
            assert(old_live =~= old_live.subrange(0, self.done as int) + old_live.subrange(
                self.done as int,
                end as int,
            ) + tail);
            lemma_multiset_concat(prefix@, block@);
            lemma_multiset_concat(merged@, tail);
            lemma_multiset_concat(
                old_live.subrange(0, self.done as int),
                old_live.subrange(self.done as int, end as int),
            );
            lemma_multiset_concat(
                old_live.subrange(0, self.done as int) + old_live.subrange(
                    self.done as int,
                    end as int,
                ),
                tail,
            );
            assert(new_live.to_multiset() =~= old_live.to_multiset()) by {
                broadcast use vstd::multiset::group_multiset_axioms;

            }
            lemma_sorted_version_congruence(new_live, old_live);
            assert forall|o: SortWork| #[trigger] r.post(o) implies self.post(o) by {}
        }
        r
    }

    fn finish(self) -> (o: SortWork) {
        proof {
            lemma_sorted_range_full(self.slices.live());
            lemma_sort_of_sorted_is_identity(self.slices.live());
        }
        self
    }

    fn reduce(
        a: SortWork,
        b: SortWork,
        parent: Ghost<SortWork>,
        left: Ghost<SortWork>,
        right: Ghost<SortWork>,
        at: Ghost<int>,
    ) -> (o: SortWork) {
        proof {
            lemma_sorted_version_ensures(left@.slices.live());
            lemma_sorted_version_ensures(right@.slices.live());
            assert(parent@.slices.live().len() <= usize::MAX) by {
                broadcast use vstd::std_specs::vec::axiom_spec_len;

                assert(parent@.slices.s.0.len() == parent@.slices.s.0@.len());
                assert(parent@.slices.s.1.len() == parent@.slices.s.1@.len());
                assert(parent@.slices.s.2.len() == parent@.slices.s.2@.len());
            }
        }
        let fuse_block = a.fuse_block;
        let fused = a.slices.fuse(b.slices, fuse_block);
        let n = fused.base_length();
        proof {
            lemma_multiset_concat(a.slices.live(), b.slices.live());
            lemma_multiset_concat(left@.slices.live(), right@.slices.live());
            assert((a.slices.live() + b.slices.live()).to_multiset() =~= (left@.slices.live()
                + right@.slices.live()).to_multiset()) by {
                broadcast use vstd::multiset::group_multiset_axioms;

                lemma_sorted_version_ensures(left@.slices.live());
                lemma_sorted_version_ensures(right@.slices.live());
            }
            lemma_sorted_version_congruence(
                a.slices.live() + b.slices.live(),
                left@.slices.live() + right@.slices.live(),
            );
        }
        SortWork { slices: fused, done: n, fuse_block }
    }
}

/// In-place parallel sort under the given scheduling policy for the
/// divide-and-sort phase and block granularity taken from the fuse policy.
pub fn adaptive_sort_with_policies(slice: &mut Vec<u64>, sort_policy: Policy, fuse_policy: Policy)
    requires
        policy_wf(sort_policy),
        policy_wf(fuse_policy),
    ensures
        final(slice).len() == old(slice).len(),
        final(slice)@ == sorted_version(old(slice)@),
        sorted(final(slice)@),
{
    let n = slice.len();
    let tmp_slice1 = scratch_vec(n);
    let tmp_slice2 = scratch_vec(n);
    let mut data: Vec<u64> = Vec::new();
    core::mem::swap(&mut data, slice);
    let slices = SortingSlices { s: (data, tmp_slice1, tmp_slice2), i: 0 };
    let fuse_block = policy_block_size(fuse_policy, n);
    let work = SortWork { slices, done: 0, fuse_block };
    let ctx = SchedulingContext::new();
    let mut signal = NeverStolen {};
    let result = schedule(work, sort_policy, &ctx, &mut signal);
    let mut sorted_data = result.slices.into_first_buffer();
    core::mem::swap(slice, &mut sorted_data);
    proof {
        lemma_sorted_version_ensures(old(slice)@);
    }
}

/// In-place parallel sort under the default policy.
pub fn adaptive_sort(slice: &mut Vec<u64>)
    ensures
        final(slice).len() == old(slice).len(),
        final(slice)@ == sorted_version(old(slice)@),
        sorted(final(slice)@),
{
    adaptive_sort_with_policies(
        slice,
        Policy::Adaptive(DEFAULT_BLOCK_SIZE),
        Policy::Join(DEFAULT_BLOCK_SIZE),
    );
}

/// Sorting is deterministic across policies, block sizes, worker counts
/// and steal timings: any two outputs that meet the sorting contract for
/// the same input are equal, sorted, and hold exactly the input's contents.
pub proof fn lemma_sort_deterministic(o1: Seq<u64>, o2: Seq<u64>, input: Seq<u64>)
    requires
        o1 == sorted_version(input),
        o2 == sorted_version(input),
    ensures
        o1 == o2,
        sorted(o1),
        o1.to_multiset() == input.to_multiset(),
        o1.len() == input.len(),
{
    lemma_sorted_version_ensures(input);
}

} // verus!