//! The capability abstraction: the operation set every backing variant of
//! the structure exposes — construction from a sequence, length and
//! emptiness, checked and unchecked point access, and checked and
//! unchecked range aggregation — together with the contract each
//! operation obeys. Callers written against this trait can swap one
//! backing variant for another without changing call sites.

use vstd::prelude::*;

use crate::merge::clone_faithful;
use crate::merge::fold_merge;
use crate::merge::valid_merge;

verus! {

/// A segment tree over elements of `T`, merged by an executable function
/// of type `F`.
///
/// The specification surface is the abstract state: the stored elements
/// (`data`), their count (`spec_len`), the specification-level merge
/// operator (`merge`) with its neutral element (`neutral`), and a
/// well-formedness predicate (`wf`) that construction establishes and
/// every operation preserves.
pub trait Segtree<T: Clone, F: Fn(&T, &T) -> T>: Sized {
    /// The number of stored elements.
    spec fn spec_len(self) -> nat;

    /// The stored elements.
    spec fn data(self) -> Seq<T>;

    /// The specification-level merge operator.
    spec fn merge(self) -> spec_fn(T, T) -> T;

    /// The neutral element.
    spec fn neutral(self) -> T;

    /// Well-formedness, established at construction and preserved by every
    /// operation.
    spec fn wf(self) -> bool;

    /// Builds the structure from a slice, a merge function and a neutral
    /// element; an empty slice yields the empty structure.
    fn from_slice(original: &[T], merge_fn: F, neutral_elem: T) -> (result: Self)
        requires
            exists|m: spec_fn(T, T) -> T| valid_merge(merge_fn, m, neutral_elem),
            clone_faithful::<T>(),
            original@.len() <= usize::MAX / 2,
        ensures
            result.wf(),
            result.spec_len() == original@.len(),
            result.data() == original@,
            result.neutral() == neutral_elem,
            valid_merge(merge_fn, result.merge(), neutral_elem),
    ;

    /// The number of stored elements.
    fn len(&self) -> (result: usize)
        ensures
            result == self.spec_len(),
    ;

    /// Whether the structure holds no elements.
    fn is_empty(&self) -> (result: bool)
        ensures
            result == (self.spec_len() == 0),
    ;

    /// Overwrites the leaf at `index`; the caller must guarantee that the
    /// index is valid.
    fn set(&mut self, index: usize, value: T)
        requires
            old(self).wf(),
            index < old(self).spec_len(),
        ensures
            final(self).wf(),
            final(self).spec_len() == old(self).spec_len(),
            final(self).data() == old(self).data().update(index as int, value),
            final(self).merge() == old(self).merge(),
            final(self).neutral() == old(self).neutral(),
    ;

    /// Overwrites the leaf at `index` as `set` does, or reports
    /// `IndexOutOfBounds` and leaves the structure unchanged.
    fn try_set(&mut self, index: usize, value: T) -> (result: Result<
        (),
        crate::SegtreeAccessError,
    >)
        requires
            old(self).wf(),
        ensures
            final(self).wf(),
            match result {
                Ok(_) => {
                    &&& index < old(self).spec_len()
                    &&& final(self).spec_len() == old(self).spec_len()
                    &&& final(self).data() == old(self).data().update(index as int, value)
                    &&& final(self).merge() == old(self).merge()
                    &&& final(self).neutral() == old(self).neutral()
                },
                Err(e) => {
                    &&& index >= old(self).spec_len()
                    &&& e == crate::SegtreeAccessError::IndexOutOfBounds
                    &&& *final(self) == *old(self)
                },
            },
    ;

    /// Reads the leaf at `index`; the caller must guarantee that the index
    /// is valid.
    fn get(&self, index: usize) -> (result: &T)
        requires
            self.wf(),
            index < self.spec_len(),
        ensures
            *result == self.data()[index as int],
    ;

    /// Reads the leaf at `index`, or reports `IndexOutOfBounds`.
    fn try_get(&self, index: usize) -> (result: Result<&T, crate::SegtreeAccessError>)
        requires
            self.wf(),
        ensures
            match result {
                Ok(v) => index < self.spec_len() && *v == self.data()[index as int],
                Err(e) => index >= self.spec_len() && e
                    == crate::SegtreeAccessError::IndexOutOfBounds,
            },
    ;

    /// Aggregates the closed range `[l, r]`: the left-to-right fold of the
    /// merge operator over `data[l..=r]` starting from the neutral
    /// element. The caller must guarantee `l <= r < len`.
    fn query(&self, l: usize, r: usize) -> (result: T)
        requires
            self.wf(),
            l <= r,
            r < self.spec_len(),
        ensures
            result == fold_merge(
                self.merge(),
                self.neutral(),
                self.data().subrange(l as int, r as int + 1),
            ),
    ;

    /// Aggregates the closed range `[l, r]` through the checked path,
    /// reporting `InvalidRange` when `l > r` and `RangeOutOfBounds` when
    /// `r >= len`.
    fn try_query(&self, l: usize, r: usize) -> (result: Result<T, crate::SegtreeRangeError>)
        requires
            self.wf(),
        ensures
            match result {
                Ok(v) => l <= r && r < self.spec_len() && v == fold_merge(
                    self.merge(),
                    self.neutral(),
                    self.data().subrange(l as int, r as int + 1),
                ),
                Err(crate::SegtreeRangeError::InvalidRange) => l > r,
                Err(crate::SegtreeRangeError::RangeOutOfBounds) => l <= r && r
                    >= self.spec_len(),
            },
    ;
}

impl<T: Clone, F: Fn(&T, &T) -> T> Segtree<T, F> for crate::StaticSegtree<T, F> {
    open spec fn spec_len(self) -> nat {
        crate::StaticSegtree::spec_len(self)
    }

    open spec fn data(self) -> Seq<T> {
        crate::StaticSegtree::data(self)
    }

    open spec fn merge(self) -> spec_fn(T, T) -> T {
        crate::StaticSegtree::merge(self)
    }

    open spec fn neutral(self) -> T {
        crate::StaticSegtree::neutral(self)
    }

    open spec fn wf(self) -> bool {
        crate::StaticSegtree::wf(self)
    }

    fn from_slice(original: &[T], merge_fn: F, neutral_elem: T) -> (result: Self) {
        crate::StaticSegtree::from_slice(original, merge_fn, neutral_elem)
    }

    fn len(&self) -> (result: usize) {
        crate::StaticSegtree::len(self)
    }

    fn is_empty(&self) -> (result: bool) {
        crate::StaticSegtree::is_empty(self)
    }

    fn set(&mut self, index: usize, value: T) {
        crate::StaticSegtree::set(self, index, value)
    }

    fn try_set(&mut self, index: usize, value: T) -> (result: Result<
        (),
        crate::SegtreeAccessError,
    >) {
        crate::StaticSegtree::try_set(self, index, value)
    }

    fn get(&self, index: usize) -> (result: &T) {
        crate::StaticSegtree::get(self, index)
    }

    fn try_get(&self, index: usize) -> (result: Result<&T, crate::SegtreeAccessError>) {
        crate::StaticSegtree::try_get(self, index)
    }

    fn query(&self, l: usize, r: usize) -> (result: T) {
        crate::StaticSegtree::query(self, l, r)
    }

    fn try_query(&self, l: usize, r: usize) -> (result: Result<T, crate::SegtreeRangeError>) {
        crate::StaticSegtree::try_query(self, l, r)
    }
}

} // verus!
