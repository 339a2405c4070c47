//! The merging algorithms and the sorting entry points built on them.

pub mod adaptive_sort;
pub mod merge2join;
pub mod merge3join;
pub mod merge3join_context_2_buffers;
pub mod merge_join_context_2_buffers;
pub mod merging_algorithms;
