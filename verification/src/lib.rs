//! An iterative subset generator for a vectorized data set.
//!
//! Given a borrowed `Vec` of N items, the generator lazily produces every
//! subset (optionally including the empty one) one at a time, keeping only an
//! N-bit counter as working state. Each advance increments the counter as a
//! binary number and projects its set bits onto the items, so memory stays
//! O(N) while 2^N subsets are visited in all.

mod bits;
mod counter;
mod generator;
mod laws;

pub use counter::{all_set, none_set, pattern_of, pow2, value_of};
pub use generator::{deref_all, project, SubsetGenerator, SubsetIter};
pub use laws::{
    lemma_full_session_with_empty, lemma_full_session_without_empty, lemma_subset_keeps_index_order,
    selected_indices,
};
