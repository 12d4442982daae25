//! Fixed-size segment tree: a flat array holding a complete binary tree in
//! 1-indexed layout (root at slot 1, children of slot `i` at `2i` and
//! `2i + 1`, leaves in `[data_len, 2 * data_len)`; slot 0 is an unused
//! sentinel).

use vstd::prelude::*;

use crate::bounds::bounds_to_inclusive;
use crate::bounds::spec_end_inclusive;
use crate::bounds::spec_start_inclusive;
use crate::bounds::IndexBound;
use crate::merge::associative;
use crate::merge::clone_faithful;
use crate::merge::fold_merge;
use crate::merge::is_identity;
use crate::merge::lemma_fold_merge_concat;
use crate::merge::valid_merge;

verus! {

/// `2^k`.
spec fn pow2(k: nat) -> int
    decreases k,
{
    if k == 0 {
        1
    } else {
        2 * pow2((k - 1) as nat)
    }
}

/// Every internal slot of `tree` holds the merge of its two children; this
/// is the structure's central invariant.
pub open spec fn tree_inv<T>(tree: Seq<T>, n: int, m: spec_fn(T, T) -> T) -> bool {
    forall|i: int| 1 <= i < n ==> #[trigger] tree[i] == m(tree[2 * i], tree[2 * i + 1])
}

/// `i` lies on the chain `p, p / 2, p / 4, ..., 0` of repeated halvings.
spec fn in_chain(p: int, i: int) -> bool
    decreases p,
{
    if p <= 0 {
        p == 0 && i == 0
    } else {
        i == p || in_chain(p / 2, i)
    }
}

/// A node `i` whose subtree spans leaf slots `[i * 2^k, (i + 1) * 2^k)`, all
/// of them inside the leaf band `[n, 2n)`, holds the in-order fold of those
/// leaves.
proof fn lemma_node_fold<T>(tree: Seq<T>, n: int, m: spec_fn(T, T) -> T, e: T, i: int, k: nat)
    requires
        tree.len() == 2 * n,
        n >= 1,
        tree_inv(tree, n, m),
        associative(m),
        is_identity(m, e),
        i >= 1,
        n <= i * pow2(k),
        (i + 1) * pow2(k) <= 2 * n,
    ensures
        tree[i] == fold_merge(m, e, tree.subrange(i * pow2(k), (i + 1) * pow2(k))),
    decreases k,
{
    let p = pow2(k);
    if k == 0 {
        crate::merge::lemma_fold_merge_singleton(m, e, tree, i);
        assert(tree.subrange(i, i + 1) == tree.subrange(i * pow2(0), (i + 1) * pow2(0)));
    } else {
        let h = pow2((k - 1) as nat);
        assert(p == 2 * h);
        assert(h >= 1) by {
            lemma_pow2_pos((k - 1) as nat);
        }
        // `i` is an internal node: were `i >= n`, the window would overrun `2n`.
        assert(i < n) by (nonlinear_arith)
            requires
                n <= i * p,
                (i + 1) * p <= 2 * n,
                p >= 2,
                n >= 1,
                i >= 1,
        ;
        // Both children span adjacent half-windows inside the leaf band.
        assert(2 * i * h == i * p && (2 * i + 2) * h == (i + 1) * p && (2 * i + 1) * h >= n
            && (2 * i + 1) * h <= 2 * n && 2 * i * h <= (2 * i + 1) * h && (2 * i + 1) * h <= (2 * i
            + 2) * h) by (nonlinear_arith)
            requires
                p == 2 * h,
                h >= 1,
                n <= i * p,
                (i + 1) * p <= 2 * n,
                i >= 1,
        ;
        lemma_node_fold(tree, n, m, e, 2 * i, (k - 1) as nat);
        lemma_node_fold(tree, n, m, e, 2 * i + 1, (k - 1) as nat);
        let left = tree.subrange(2 * i * h, (2 * i + 1) * h);
        let right = tree.subrange((2 * i + 1) * h, (2 * i + 2) * h);
        lemma_fold_merge_concat(m, e, left, right);
        assert(left + right =~= tree.subrange(i * p, (i + 1) * p));
        assert(tree[i] == m(tree[2 * i], tree[2 * i + 1]));
    }
}

proof fn lemma_pow2_pos(k: nat)
    ensures
        pow2(k) >= 1,
    decreases k,
{
    if k > 0 {
        lemma_pow2_pos((k - 1) as nat);
    }
}

/// Constant-sized segment tree over a caller-supplied associative merge
/// operator and its neutral element.
#[derive(Clone)]
#[verifier::reject_recursive_types(T)]
pub struct StaticSegtree<T: Clone, F: Fn(&T, &T) -> T> {
    tree: Vec<T>,
    data_len: usize,
    merge_fn: F,
    neutral_elem: T,
    spec_merge: Ghost<spec_fn(T, T) -> T>,
}

impl<T: Clone, F: Fn(&T, &T) -> T> StaticSegtree<T, F> {
    /// The number of stored elements, fixed at construction.
    pub closed spec fn spec_len(self) -> nat {
        self.data_len as nat
    }

    /// The stored elements, read off the leaf band of the backing array.
    pub closed spec fn data(self) -> Seq<T> {
        self.tree@.subrange(self.data_len as int, 2 * self.data_len as int)
    }

    /// The specification-level merge operator that the stored executable
    /// merge function computes.
    pub closed spec fn merge(self) -> spec_fn(T, T) -> T {
        self.spec_merge@
    }

    /// The neutral element supplied at construction.
    pub closed spec fn neutral(self) -> T {
        self.neutral_elem
    }

    /// Well-formedness: the backing array has `2 * len` slots; the merge
    /// function computes an associative operator whose identity is the
    /// neutral element, and clones of `T` equal their source; and every
    /// internal slot `i` in `[1, len)` holds the merge of its children,
    /// `tree[i] == merge(tree[2i], tree[2i + 1])`.
    pub closed spec fn wf(self) -> bool {
        &&& self.data_len <= usize::MAX / 2
        &&& self.tree@.len() == 2 * self.data_len
        &&& valid_merge(self.merge_fn, self.spec_merge@, self.neutral_elem)
        &&& clone_faithful::<T>()
        &&& tree_inv(self.tree@, self.data_len as int, self.spec_merge@)
    }

    /// Builds the tree from a slice: leaves are copies of `original`, and
    /// every internal slot is filled bottom-up with the merge of its
    /// children. An empty slice yields the empty structure.
    pub fn from_slice(original: &[T], merge_fn: F, neutral_elem: T) -> (result: Self)
        requires
            exists|m: spec_fn(T, T) -> T| valid_merge(merge_fn, m, neutral_elem),
            clone_faithful::<T>(),
            original@.len() <= usize::MAX / 2,
        ensures
            result.wf(),
            result.spec_len() == original@.len(),
            result.data() == original@,
            result.neutral() == neutral_elem,
            valid_merge(merge_fn, result.merge(), neutral_elem),
    {
        let ghost m = choose|m: spec_fn(T, T) -> T| valid_merge(merge_fn, m, neutral_elem);
        Self::from_slice_with(original, merge_fn, neutral_elem, Ghost(m))
    }

    /// As `from_slice`, with the specification-level merge operator passed
    /// explicitly as a ghost argument, so that the caller's own contracts
    /// can speak of the structure's operator by name.
    pub fn from_slice_with(
        original: &[T],
        merge_fn: F,
        neutral_elem: T,
        Ghost(m): Ghost<spec_fn(T, T) -> T>,
    ) -> (result: Self)
        requires
            valid_merge(merge_fn, m, neutral_elem),
            clone_faithful::<T>(),
            original@.len() <= usize::MAX / 2,
        ensures
            result.wf(),
            result.spec_len() == original@.len(),
            result.data() == original@,
            result.neutral() == neutral_elem,
            result.merge() == m,
    {
        let len: usize = original.len();
        if len == 0 {
            let result = StaticSegtree {
                tree: Vec::new(),
                data_len: 0,
                merge_fn,
                neutral_elem,
                spec_merge: Ghost(m),
            };
            proof {
                assert(result.data() =~= original@);
            }
            return result;
        }

        let mut tree: Vec<T> = Vec::with_capacity(2 * len);
        // Slots [0, len) start as copies of the neutral element; all but the
        // sentinel slot 0 are overwritten by the bottom-up pass below.
        let mut j: usize = 0;
        while j < len
            invariant
                j <= len,
                tree@.len() == j,
            decreases len - j,
        {
            tree.push(neutral_elem.clone());
            j = j + 1;
        }
        let mut j: usize = 0;
        while j < len
            invariant
                j <= len,
                len == original@.len(),
                tree@.len() == len + j,
                tree@.subrange(len as int, (len + j) as int) =~= original@.subrange(0, j as int),
                clone_faithful::<T>(),
            decreases len - j,
        {
            tree.push(original[j].clone());
            proof {
                assert(tree@.subrange(len as int, (len + j + 1) as int) =~= original@.subrange(
                    0,
                    j + 1,
                ));
            }
            j = j + 1;
        }
        proof {
            assert(tree@.subrange(len as int, 2 * len as int) =~= original@);
        }
        let mut i: usize = len - 1;
        while i >= 1
            invariant
                i < len,
                len == original@.len(),
                len >= 1,
                2 * len <= usize::MAX,
                tree@.len() == 2 * len,
                tree@.subrange(len as int, 2 * len as int) =~= original@,
                valid_merge(merge_fn, m, neutral_elem),
                forall|jj: int|
                    i < jj < len ==> #[trigger] tree@[jj] == m(tree@[2 * jj], tree@[2 * jj + 1]),
            decreases i,
        {
            let merged = merge_fn(&tree[2 * i], &tree[2 * i + 1]);
            proof {
                assert(merged == m(tree@[2 * i], tree@[2 * i + 1]));
            }
            tree[i] = merged;
            proof {
                assert(tree@.subrange(len as int, 2 * len as int) =~= original@);
            }
            i = i - 1;
        }
        let result = StaticSegtree {
            tree,
            data_len: len,
            merge_fn,
            neutral_elem,
            spec_merge: Ghost(m),
        };
        proof {
            assert(result.data() =~= original@);
        }
        result
    }

    /// The number of stored elements.
    pub fn len(&self) -> (result: usize)
        ensures
            result == self.spec_len(),
    {
        self.data_len
    }

    /// Whether the structure holds no elements.
    pub fn is_empty(&self) -> (result: bool)
        ensures
            result == (self.spec_len() == 0),
    {
        self.data_len == 0
    }

    /// Overwrites the leaf at `index` and restores the invariant along the
    /// leaf's ancestor chain, without a bounds check; the caller must
    /// guarantee that the index is valid.
    pub fn set(&mut self, index: usize, value: T)
        requires
            old(self).wf(),
            index < old(self).spec_len(),
        ensures
            final(self).wf(),
            final(self).spec_len() == old(self).spec_len(),
            final(self).data() == old(self).data().update(index as int, value),
            final(self).merge() == old(self).merge(),
            final(self).neutral() == old(self).neutral(),
    {
        let ghost m = self.spec_merge@;
        let n: usize = self.data_len;
        let mut crr: usize = index + n;
        self.tree[crr] = value;
        proof {
            assert(self.tree@.subrange(n as int, 2 * n as int) =~= old(self).data().update(
                index as int,
                value,
            ));
        }
        crr = crr / 2;
        proof {
            assert forall|j: int|
                1 <= j < n && !in_chain(crr as int, j) implies #[trigger] self.tree@[j] == m(
                self.tree@[2 * j],
                self.tree@[2 * j + 1],
            ) by {
                assert(in_chain(crr as int, crr as int));
                assert(j != (index + n) as int / 2);
                assert(old(self).tree@[j] == m(old(self).tree@[2 * j], old(self).tree@[2 * j + 1]));
            }
        }
        while crr != 0
            invariant
                old(self).wf(),
                n == self.data_len,
                n == old(self).data_len,
                1 <= n,
                crr < n,
                self.merge_fn == old(self).merge_fn,
                self.neutral_elem == old(self).neutral_elem,
                self.spec_merge == old(self).spec_merge,
                m == self.spec_merge@,
                self.tree@.len() == 2 * n,
                self.tree@.subrange(n as int, 2 * n as int) == old(self).data().update(
                    index as int,
                    value,
                ),
                forall|j: int|
                    1 <= j < n && !in_chain(crr as int, j) ==> #[trigger] self.tree@[j] == m(
                        self.tree@[2 * j],
                        self.tree@[2 * j + 1],
                    ),
            decreases crr,
        {
            let merged = (self.merge_fn)(&self.tree[2 * crr], &self.tree[2 * crr + 1]);
            proof {
                assert(merged == m(self.tree@[2 * crr], self.tree@[2 * crr + 1]));
            }
            let ghost prev = self.tree@;
            self.tree[crr] = merged;
            proof {
                assert(self.tree@.subrange(n as int, 2 * n as int) =~= prev.subrange(
                    n as int,
                    2 * n as int,
                ));
                let next = crr as int / 2;
                assert forall|j: int|
                    1 <= j < n && !in_chain(next, j) implies #[trigger] self.tree@[j] == m(
                    self.tree@[2 * j],
                    self.tree@[2 * j + 1],
                ) by {
                    assert(in_chain(crr as int, j) == (j == crr as int || in_chain(next, j)));
                    if j == crr as int {
                    } else {
                        assert(prev[j] == m(prev[2 * j], prev[2 * j + 1]));
                        assert(in_chain(next, next));
                    }
                }
            }
            crr = crr / 2;
        }
        proof {
            assert forall|j: int| 1 <= j < n implies !in_chain(0, j) by {}
            assert(self.data() == old(self).data().update(index as int, value));
        }
    }

    /// Overwrites the leaf at `index` as `set` does, or reports
    /// `IndexOutOfBounds` when the index is not below the length and leaves
    /// the structure unchanged.
    pub fn try_set(&mut self, index: usize, value: T) -> (result: Result<
        (),
        crate::SegtreeAccessError,
    >)
        requires
            old(self).wf(),
        ensures
            final(self).wf(),
            match result {
                Ok(_) => {
                    &&& index < old(self).spec_len()
                    &&& final(self).spec_len() == old(self).spec_len()
                    &&& final(self).data() == old(self).data().update(index as int, value)
                    &&& final(self).merge() == old(self).merge()
                    &&& final(self).neutral() == old(self).neutral()
                },
                Err(e) => {
                    &&& index >= old(self).spec_len()
                    &&& e == crate::SegtreeAccessError::IndexOutOfBounds
                    &&& *final(self) == *old(self)
                },
            },
    {
        if index >= self.data_len {
            return Err(crate::SegtreeAccessError::IndexOutOfBounds);
        }
        self.set(index, value);
        Ok(())
    }

    /// Reads the leaf at `index` without a bounds check; the caller must
    /// guarantee that the index is valid.
    pub fn get(&self, index: usize) -> (result: &T)
        requires
            self.wf(),
            index < self.spec_len(),
        ensures
            *result == self.data()[index as int],
    {
        &self.tree[index + self.data_len]
    }

    /// Aggregates the closed range `[l, r]` without checks: the result is
    /// the left-to-right fold of the merge operator over `data[l..=r]`,
    /// starting from the neutral element, so the combination order is kept
    /// even for a non-commutative operator. The caller must guarantee
    /// `l <= r < len`.
    pub fn query(&self, l: usize, r: usize) -> (result: T)
        requires
            self.wf(),
            l <= r,
            r < self.spec_len(),
        ensures
            result == fold_merge(
                self.merge(),
                self.neutral(),
                self.data().subrange(l as int, r as int + 1),
            ),
    {
        let ghost m = self.spec_merge@;
        let ghost e = self.neutral_elem;
        let ghost target = fold_merge(m, e, self.data().subrange(l as int, r as int + 1));
        let n: usize = self.data_len;
        let mut resl = self.neutral_elem.clone();
        let mut resr = self.neutral_elem.clone();
        let mut l = l + n;
        let mut r = r + n;
        let ghost mut k: nat = 0;
        proof {
            assert(self.data().subrange(l - n, r + 1 - n) =~= self.tree@.subrange(
                l as int,
                r as int + 1,
            ));
            let w0 = fold_merge(m, e, self.tree@.subrange(l as int, r as int + 1));
            assert(m(e, w0) == w0 && m(w0, e) == w0);
            assert(pow2(0) == 1);
        }
        while l < r
            invariant
                self.wf(),
                n == self.data_len,
                1 <= n,
                m == self.spec_merge@,
                e == self.neutral_elem,
                pow2(k) >= 1,
                1 <= l <= r + 1,
                l <= r ==> n <= l as int * pow2(k) && (r as int + 1) * pow2(k) <= 2 * n && target
                    == m(
                    m(
                        resl,
                        fold_merge(
                            m,
                            e,
                            self.tree@.subrange(l as int * pow2(k), (r as int + 1) * pow2(k)),
                        ),
                    ),
                    resr,
                ),
                l > r ==> target == m(resl, resr),
            decreases r,
        {
            let ghost p = pow2(k);
            proof {
                assert(l as int <= l as int * p && l as int * p < (l as int + 1) * p && (l as int
                    + 1) * p <= (r as int + 1) * p && r as int <= r as int * p && l as int * p <= r
                    as int * p && r as int * p < (r as int + 1) * p) by (nonlinear_arith)
                    requires
                        p >= 1,
                        1 <= l as int,
                        l <= r,
                ;
            }
            if l % 2 == 1 {
                let t = (self.merge_fn)(&resl, &self.tree[l]);
                proof {
                    lemma_node_fold(self.tree@, n as int, m, e, l as int, k);
                    let wl = self.tree@.subrange(l as int * p, (l as int + 1) * p);
                    let rest = self.tree@.subrange((l as int + 1) * p, (r as int + 1) * p);
                    lemma_fold_merge_concat(m, e, wl, rest);
                    assert(wl + rest =~= self.tree@.subrange(l as int * p, (r as int + 1) * p));
                    assert(m(m(resl, fold_merge(m, e, wl)), fold_merge(m, e, rest)) == m(
                        resl,
                        m(fold_merge(m, e, wl), fold_merge(m, e, rest)),
                    ));
                    assert(t == m(resl, self.tree@[l as int]));
                }
                resl = t;
                l = l + 1;
            }
            if r % 2 == 0 {
                let t = (self.merge_fn)(&self.tree[r], &resr);
                proof {
                    assert(l as int * p <= r as int * p) by (nonlinear_arith)
                        requires
                            p >= 1,
                            l <= r,
                    ;
                    lemma_node_fold(self.tree@, n as int, m, e, r as int, k);
                    let wr = self.tree@.subrange(r as int * p, (r as int + 1) * p);
                    let rest = self.tree@.subrange(l as int * p, r as int * p);
                    lemma_fold_merge_concat(m, e, rest, wr);
                    assert(rest + wr =~= self.tree@.subrange(l as int * p, (r as int + 1) * p));
                    assert(m(m(resl, fold_merge(m, e, rest)), fold_merge(m, e, wr)) == m(
                        resl,
                        m(fold_merge(m, e, rest), fold_merge(m, e, wr)),
                    ));
                    assert(m(
                        m(m(resl, fold_merge(m, e, rest)), fold_merge(m, e, wr)),
                        resr,
                    ) == m(m(resl, fold_merge(m, e, rest)), m(fold_merge(m, e, wr), resr)));
                    assert(t == m(self.tree@[r as int], resr));
                    if l as int == r as int {
                        assert(rest =~= Seq::<T>::empty());
                        assert(m(resl, e) == resl);
                    }
                }
                resr = t;
                r = r - 1;
            }
            proof {
                if l <= r {
                    // Here `l` is even and `r` is odd, so halving both keeps
                    // the covered leaf window exactly.
                    let lh = l as int / 2;
                    let rh = r as int / 2;
                    assert(l as int == 2 * lh && r as int == 2 * rh + 1);
                    assert(lh * (2 * p) == l as int * p && (rh + 1) * (2 * p) == (r as int + 1)
                        * p) by (nonlinear_arith)
                        requires
                            l as int == 2 * lh,
                            r as int == 2 * rh + 1,
                    ;
                } else {
                    assert(l == r + 1);
                }
                assert(pow2(k + 1) == 2 * p);
            }
            l = l / 2;
            r = r / 2;
            proof {
                k = k + 1;
            }
        }
        if l == r && l > 0 {
            proof {
                let p = pow2(k);
                assert(l as int <= l as int * p && l as int * p < (l as int + 1) * p)
                    by (nonlinear_arith)
                    requires
                        p >= 1,
                        1 <= l as int,
                ;
                lemma_node_fold(self.tree@, n as int, m, e, l as int, k);
            }
            let t = (self.merge_fn)(&resl, &self.tree[l]);
            proof {
                assert(t == m(resl, self.tree@[l as int]));
            }
            resl = t;
        }
        let out = (self.merge_fn)(&resl, &resr);
        proof {
            assert(out == m(resl, resr));
        }
        out
    }

    /// Aggregates the closed range `[l, r]` through the checked path:
    /// reports `InvalidRange` when `l > r`, `RangeOutOfBounds` when
    /// `r >= len`, and otherwise returns what `query` returns; the
    /// structure is never modified.
    pub fn try_query(&self, l: usize, r: usize) -> (result: Result<T, crate::SegtreeRangeError>)
        requires
            self.wf(),
        ensures
            match result {
                Ok(v) => l <= r && r < self.spec_len() && v == fold_merge(
                    self.merge(),
                    self.neutral(),
                    self.data().subrange(l as int, r as int + 1),
                ),
                Err(crate::SegtreeRangeError::InvalidRange) => l > r,
                Err(crate::SegtreeRangeError::RangeOutOfBounds) => l <= r && r >= self.spec_len(),
            },
    {
        if l > r {
            Err(crate::SegtreeRangeError::InvalidRange)
        } else if r >= self.data_len {
            Err(crate::SegtreeRangeError::RangeOutOfBounds)
        } else if l == r {
            let v = self.get(l).clone();
            proof {
                crate::merge::lemma_fold_merge_singleton(
                    self.merge(),
                    self.neutral(),
                    self.data(),
                    l as int,
                );
            }
            Ok(v)
        } else {
            Ok(self.query(l, r))
        }
    }

    /// Aggregates over a flexible range specification: the endpoints are
    /// first normalized by `bounds_to_inclusive` into the canonical closed
    /// interval (an unbounded start defaults to `0`, an unbounded end to
    /// `len - 1`), which is then checked exactly as `try_query` checks its
    /// arguments. A specification whose canonical interval is inverted —
    /// including the corner forms whose canonical endpoint would leave the
    /// `usize` domain — reports `InvalidRange`.
    pub fn try_query_bounds(&self, start: IndexBound, end: IndexBound) -> (result: Result<
        T,
        crate::SegtreeRangeError,
    >)
        requires
            self.wf(),
        ensures
            match result {
                Ok(v) => {
                    let ls = spec_start_inclusive(start, 0);
                    let es = spec_end_inclusive(end, self.spec_len() as int - 1);
                    &&& ls <= es
                    &&& es < self.spec_len()
                    &&& v == fold_merge(self.merge(), self.neutral(), self.data().subrange(ls, es + 1))
                },
                Err(crate::SegtreeRangeError::InvalidRange) => spec_start_inclusive(start, 0)
                    > spec_end_inclusive(end, self.spec_len() as int - 1),
                Err(crate::SegtreeRangeError::RangeOutOfBounds) => {
                    let ls = spec_start_inclusive(start, 0);
                    let es = spec_end_inclusive(end, self.spec_len() as int - 1);
                    &&& ls <= es
                    &&& es >= self.spec_len()
                },
            },
    {
        // The canonical interval must stay inside the usize domain; the two
        // corner forms below denote inverted intervals in every case.
        if let IndexBound::Excluded(v) = start {
            if v == usize::MAX {
                return Err(crate::SegtreeRangeError::InvalidRange);
            }
        }
        if let IndexBound::Excluded(v) = end {
            if v == 0 {
                return Err(crate::SegtreeRangeError::InvalidRange);
            }
        }
        if self.data_len == 0 {
            if let IndexBound::Unbounded = end {
                return Err(crate::SegtreeRangeError::InvalidRange);
            }
        }
        let max: usize = if self.data_len == 0 {
            0
        } else {
            self.data_len - 1
        };
        let (l, r) = bounds_to_inclusive(start, end, 0, max);
        self.try_query(l, r)
    }

    /// Reads the leaf at `index`, or reports `IndexOutOfBounds` when the
    /// index is not below the length; the structure is never modified.
    pub fn try_get(&self, index: usize) -> (result: Result<&T, crate::SegtreeAccessError>)
        requires
            self.wf(),
        ensures
            match result {
                Ok(v) => index < self.spec_len() && *v == self.data()[index as int],
                Err(e) => index >= self.spec_len() && e == crate::SegtreeAccessError::IndexOutOfBounds,
            },
    {
        if index >= self.data_len {
            Err(crate::SegtreeAccessError::IndexOutOfBounds)
        } else {
            Ok(self.get(index))
        }
    }
}

/// Round trip: after `set(i, v)` — whose contract states that the new data
/// is the old data with slot `i` replaced by `v` — the value that `get(i)`
/// returns is exactly `v`, and every other slot is unchanged.
pub proof fn lemma_set_get_round_trip<T: Clone, F: Fn(&T, &T) -> T>(
    pre: StaticSegtree<T, F>,
    post: StaticSegtree<T, F>,
    i: int,
    v: T,
)
    requires
        pre.wf(),
        0 <= i < pre.spec_len(),
        post.spec_len() == pre.spec_len(),
        post.data() == pre.data().update(i, v),
    ensures
        post.data()[i] == v,
        forall|j: int| 0 <= j < pre.spec_len() && j != i ==> post.data()[j] == pre.data()[j],
{
}

/// Boundary: a singleton query yields the raw leaf. The fold that
/// `query`'s contract states for the range `[i, i]` is `data[i]` itself.
pub proof fn lemma_singleton_query<T: Clone, F: Fn(&T, &T) -> T>(t: StaticSegtree<T, F>, i: int)
    requires
        t.wf(),
        0 <= i < t.spec_len(),
    ensures
        fold_merge(t.merge(), t.neutral(), t.data().subrange(i, i + 1)) == t.data()[i],
{
    crate::merge::lemma_fold_merge_singleton(t.merge(), t.neutral(), t.data(), i);
}

/// An empty structure rejects every access: no index is valid for
/// `try_get` or `try_set` (each reports `IndexOutOfBounds`), and every
/// interval is inverted or out of range for `try_query` (which reports
/// `InvalidRange` or `RangeOutOfBounds`).
pub proof fn lemma_empty_rejects<T: Clone, F: Fn(&T, &T) -> T>(
    t: StaticSegtree<T, F>,
    index: usize,
    l: usize,
    r: usize,
)
    requires
        t.spec_len() == 0,
    ensures
        index >= t.spec_len(),
        l > r || r >= t.spec_len(),
{
}

} // verus!
