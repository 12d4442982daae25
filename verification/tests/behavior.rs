use segtree_rs::bounds_to_inclusive;
use segtree_rs::IndexBound;
use segtree_rs::Segtree;
use segtree_rs::SegtreeAccessError;
use segtree_rs::SegtreeRangeError;
use segtree_rs::StaticSegtree;

fn add(a: &i64, b: &i64) -> i64 {
    *a + *b
}

fn concat(a: &Vec<i32>, b: &Vec<i32>) -> Vec<i32> {
    let mut out: Vec<i32> = a.clone();
    out.extend_from_slice(b);
    out
}

fn sum_tree() -> StaticSegtree<i64, fn(&i64, &i64) -> i64> {
    StaticSegtree::from_slice(&[1, 2, 3, 4, 5], add, 0)
}

#[test]
fn commutative_sum_scenario() {
    let mut t = sum_tree();
    assert_eq!(t.query(0, 4), 15);
    t.set(2, 10);
    assert_eq!(t.query(0, 4), 22);
    assert_eq!(t.query(1, 3), 16);
}

#[test]
fn non_commutative_concat_scenario() {
    let data: Vec<Vec<i32>> = vec![vec![1], vec![2], vec![3]];
    let t = StaticSegtree::from_slice(&data, concat, Vec::new());
    assert_eq!(t.query(0, 2), vec![1, 2, 3]);
}

#[test]
fn singleton_query_equals_leaf() {
    let t = sum_tree();
    for i in 0..5 {
        assert_eq!(t.query(i, i), (i as i64) + 1);
        assert_eq!(t.try_query(i, i), Ok((i as i64) + 1));
        assert_eq!(*t.get(i), (i as i64) + 1);
    }
}

#[test]
fn set_get_round_trip() {
    let mut t = sum_tree();
    for i in 0..5 {
        t.set(i, 100 + i as i64);
        assert_eq!(*t.get(i), 100 + i as i64);
        assert_eq!(t.try_get(i), Ok(&(100 + i as i64)));
    }
}

#[test]
fn try_set_out_of_range_leaves_state() {
    let mut t = sum_tree();
    assert_eq!(t.try_set(5, 42), Err(SegtreeAccessError::IndexOutOfBounds));
    assert_eq!(t.try_set(usize::MAX, 42), Err(SegtreeAccessError::IndexOutOfBounds));
    assert_eq!(t.query(0, 4), 15);
    assert_eq!(t.try_set(4, 42), Ok(()));
    assert_eq!(t.query(0, 4), 52);
}

#[test]
fn try_get_out_of_range() {
    let t = sum_tree();
    assert_eq!(t.try_get(5), Err(SegtreeAccessError::IndexOutOfBounds));
    assert_eq!(t.try_get(0), Ok(&1));
}

#[test]
fn try_query_errors() {
    let t = sum_tree();
    assert_eq!(t.try_query(3, 1), Err(SegtreeRangeError::InvalidRange));
    assert_eq!(t.try_query(0, 5), Err(SegtreeRangeError::RangeOutOfBounds));
    assert_eq!(t.try_query(5, 5), Err(SegtreeRangeError::RangeOutOfBounds));
    assert_eq!(t.try_query(1, 3), Ok(9));
    assert_eq!(t.query(0, 4), 15);
}

#[test]
fn empty_structure_rejects_everything() {
    let data: Vec<i64> = Vec::new();
    let mut t = StaticSegtree::from_slice(&data, add, 0);
    assert_eq!(t.len(), 0);
    assert!(t.is_empty());
    assert_eq!(t.try_get(0), Err(SegtreeAccessError::IndexOutOfBounds));
    assert_eq!(t.try_set(0, 7), Err(SegtreeAccessError::IndexOutOfBounds));
    assert_eq!(t.try_query(0, 0), Err(SegtreeRangeError::RangeOutOfBounds));
    assert_eq!(t.try_query(1, 0), Err(SegtreeRangeError::InvalidRange));
}

#[test]
fn len_and_is_empty() {
    let t = sum_tree();
    assert_eq!(t.len(), 5);
    assert!(!t.is_empty());
}

#[test]
fn bounds_conversion() {
    assert_eq!(bounds_to_inclusive(IndexBound::Included(2), IndexBound::Excluded(5), 0, 9), (2, 4));
    assert_eq!(bounds_to_inclusive(IndexBound::Excluded(1), IndexBound::Included(3), 0, 9), (2, 3));
    assert_eq!(bounds_to_inclusive(IndexBound::Unbounded, IndexBound::Unbounded, 0, 9), (0, 9));
    assert_eq!(bounds_to_inclusive(IndexBound::Included(4), IndexBound::Unbounded, 0, 9), (4, 9));
}

#[test]
fn query_over_flexible_bounds() {
    let t = sum_tree();
    assert_eq!(t.try_query_bounds(IndexBound::Unbounded, IndexBound::Unbounded), Ok(15));
    assert_eq!(t.try_query_bounds(IndexBound::Included(1), IndexBound::Excluded(4)), Ok(9));
    assert_eq!(t.try_query_bounds(IndexBound::Excluded(0), IndexBound::Unbounded), Ok(14));
    assert_eq!(
        t.try_query_bounds(IndexBound::Included(3), IndexBound::Included(1)),
        Err(SegtreeRangeError::InvalidRange)
    );
    assert_eq!(
        t.try_query_bounds(IndexBound::Included(0), IndexBound::Included(10)),
        Err(SegtreeRangeError::RangeOutOfBounds)
    );
    assert_eq!(
        t.try_query_bounds(IndexBound::Included(0), IndexBound::Excluded(0)),
        Err(SegtreeRangeError::InvalidRange)
    );
    assert_eq!(
        t.try_query_bounds(IndexBound::Excluded(usize::MAX), IndexBound::Unbounded),
        Err(SegtreeRangeError::InvalidRange)
    );
    let empty: StaticSegtree<i64, fn(&i64, &i64) -> i64> =
        StaticSegtree::from_slice(&[], add, 0);
    assert_eq!(
        empty.try_query_bounds(IndexBound::Unbounded, IndexBound::Unbounded),
        Err(SegtreeRangeError::InvalidRange)
    );
}

#[test]
fn through_capability_trait() {
    let data: Vec<i64> = vec![4, 5, 6];
    let mut t: StaticSegtree<i64, fn(&i64, &i64) -> i64> =
        Segtree::from_slice(&data, add as fn(&i64, &i64) -> i64, 0);
    assert_eq!(Segtree::len(&t), 3);
    assert!(!Segtree::is_empty(&t));
    assert_eq!(Segtree::query(&t, 0, 2), 15);
    Segtree::set(&mut t, 0, 10);
    assert_eq!(*Segtree::get(&t, 0), 10);
    assert_eq!(Segtree::try_query(&t, 0, 2), Ok(21));
    assert_eq!(Segtree::try_set(&mut t, 9, 0), Err(SegtreeAccessError::IndexOutOfBounds));
    assert_eq!(Segtree::try_get(&t, 2), Ok(&6));
}
