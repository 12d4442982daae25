//! The mathematical side of a merge operator: associativity, identity,
//! the left-to-right fold that range queries are specified against, and
//! the agreement between an executable merge function and its
//! specification-level counterpart.

use vstd::prelude::*;

verus! {

/// `m` is associative.
pub open spec fn associative<T>(m: spec_fn(T, T) -> T) -> bool {
    forall|a: T, b: T, c: T| #[trigger] m(m(a, b), c) == m(a, m(b, c))
}

/// `e` is a two-sided identity of `m`.
pub open spec fn is_identity<T>(m: spec_fn(T, T) -> T, e: T) -> bool {
    &&& forall|a: T| #[trigger] m(e, a) == a
    &&& forall|a: T| #[trigger] m(a, e) == a
}

/// Every call of the executable merge function `f` may be made, and every
/// value it can return equals what the specification-level operator `m`
/// gives for the same arguments.
pub open spec fn merge_fn_obeys<T, F: Fn(&T, &T) -> T>(f: F, m: spec_fn(T, T) -> T) -> bool {
    &&& forall|a: &T, b: &T| #[trigger] call_requires(f, (a, b))
    &&& forall|a: &T, b: &T, r: T| #[trigger] call_ensures(f, (a, b), r) ==> r == m(*a, *b)
}

/// Every value that `T::clone` can return equals the value it was cloned
/// from, so a clone is indistinguishable from its source.
pub open spec fn clone_faithful<T: Clone>() -> bool {
    forall|a: &T, b: T| #[trigger] call_ensures(T::clone, (a,), b) ==> b == *a
}

/// `f` computes the associative operator `m`, whose identity is `e`: the
/// caller-enforced precondition under which a segment tree answers range
/// queries by the left-to-right fold of `m`.
pub open spec fn valid_merge<T, F: Fn(&T, &T) -> T>(
    f: F,
    m: spec_fn(T, T) -> T,
    e: T,
) -> bool {
    &&& merge_fn_obeys(f, m)
    &&& associative(m)
    &&& is_identity(m, e)
}

/// The left-to-right fold of `m` over `s`, starting from `e`:
/// `m(...m(m(e, s[0]), s[1])..., s[len - 1])`.
pub open spec fn fold_merge<T>(m: spec_fn(T, T) -> T, e: T, s: Seq<T>) -> T
    decreases s.len(),
{
    if s.len() == 0 {
        e
    } else {
        m(fold_merge(m, e, s.drop_last()), s.last())
    }
}

/// `fold_merge` is `Seq::fold_left`: the same left-to-right fold, written
/// over a two-argument operator instead of a folding closure.
pub proof fn lemma_fold_merge_is_fold_left<T>(m: spec_fn(T, T) -> T, e: T, s: Seq<T>)
    ensures
        fold_merge(m, e, s) == s.fold_left(e, m),
    decreases s.len(),
{
    if s.len() > 0 {
        lemma_fold_merge_is_fold_left(m, e, s.drop_last());
    }
}

/// For an associative `m` with identity `e`, the fold of a concatenation is
/// the merge of the folds.
pub proof fn lemma_fold_merge_concat<T>(m: spec_fn(T, T) -> T, e: T, s1: Seq<T>, s2: Seq<T>)
    requires
        associative(m),
        is_identity(m, e),
    ensures
        fold_merge(m, e, s1 + s2) == m(fold_merge(m, e, s1), fold_merge(m, e, s2)),
    decreases s2.len(),
{
    if s2.len() == 0 {
        assert(s1 + s2 =~= s1);
        assert(m(fold_merge(m, e, s1), e) == fold_merge(m, e, s1));
    } else {
        lemma_fold_merge_concat(m, e, s1, s2.drop_last());
        assert((s1 + s2).drop_last() =~= s1 + s2.drop_last());
        assert((s1 + s2).last() == s2.last());
        assert(m(m(fold_merge(m, e, s1), fold_merge(m, e, s2.drop_last())), s2.last())
            == m(fold_merge(m, e, s1), m(fold_merge(m, e, s2.drop_last()), s2.last())));
    }
}

/// The fold of a one-element sequence is that element.
pub proof fn lemma_fold_merge_singleton<T>(m: spec_fn(T, T) -> T, e: T, s: Seq<T>, i: int)
    requires
        is_identity(m, e),
        0 <= i < s.len(),
    ensures
        fold_merge(m, e, s.subrange(i, i + 1)) == s[i],
{
    reveal_with_fuel(fold_merge, 2);
    let one = s.subrange(i, i + 1);
    assert(one.last() == s[i]);
    assert(one.drop_last() =~= Seq::<T>::empty());
    assert(m(e, s[i]) == s[i]);
}

} // verus!
