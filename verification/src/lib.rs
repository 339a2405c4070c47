//! Adaptive divide-and-conquer execution engine, demonstrated through a
//! recursive multi-way parallel merge sort.
//!
//! The crate is organised around three layers:
//! * ordering specifications and the sequential merge primitives,
//! * the rotating-buffer sort (`SortingSlices` and the `adaptive_sort_*`
//!   entry points),
//! * the generic scheduler with its family of policies, including the
//!   adaptive steal-responsive worker.

pub mod algorithms;
pub mod scheduling;
mod sorted;
pub mod utils;

pub use algorithms::adaptive_sort::adaptive_sort;
pub use algorithms::adaptive_sort::adaptive_sort_with_policies;
pub use algorithms::merge2join::adaptive_sort_join2;
pub use algorithms::merging_algorithms::merge_2;
pub use algorithms::merge3join::adaptive_sort_join3;
pub use algorithms::merge3join_context_2_buffers::adaptive_sort_join_context3;
pub use algorithms::merge_join_context_2_buffers::adaptive_sort_join_context_join;
pub use scheduling::Policy;

pub use sorted::lemma_sort_of_sorted_is_identity;
pub use sorted::lemma_sorted_version_ensures;
pub use sorted::lemma_sorted_version_unique;
pub use sorted::sorted;
pub use sorted::sorted_version;
