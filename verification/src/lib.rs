//! An array-backed segment tree: O(log n) point updates and O(log n)
//! range aggregation over a fixed-length sequence, for any caller-supplied
//! associative merge operator with a neutral (identity) element.

mod bounds;
mod errors;
mod merge;
mod segtree;
mod static_segtree;

pub use bounds::bounds_to_inclusive;
pub use bounds::spec_end_inclusive;
pub use bounds::spec_start_inclusive;
pub use bounds::IndexBound;
pub use errors::SegtreeAccessError;
pub use errors::SegtreeRangeError;
pub use merge::associative;
pub use merge::clone_faithful;
pub use merge::fold_merge;
pub use merge::is_identity;
pub use merge::lemma_fold_merge_concat;
pub use merge::lemma_fold_merge_is_fold_left;
pub use merge::lemma_fold_merge_singleton;
pub use merge::merge_fn_obeys;
pub use merge::valid_merge;
pub use segtree::Segtree;
pub use static_segtree::lemma_empty_rejects;
pub use static_segtree::lemma_set_get_round_trip;
pub use static_segtree::lemma_singleton_query;
pub use static_segtree::tree_inv;
pub use static_segtree::StaticSegtree;
