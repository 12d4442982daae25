use rand::rngs::StdRng;
use rand::Rng;
use rand::SeedableRng;
use segtree_rs::StaticSegtree;

fn merge_fn(a: &Vec<i32>, b: &Vec<i32>) -> Vec<i32> {
    [a.to_owned(), b.to_owned()].concat()
}

#[test]
fn static_segtree() {
    let mut rng: StdRng = StdRng::seed_from_u64(0);
    let n: usize = 1024;
    let m: usize = 16;

    // generating non-commutative on sum dataset
    let mut data: Vec<Vec<i32>> = Vec::with_capacity(n);
    for _ in 0..n {
        let len: usize = rng.gen_range(0..m);
        let mut inner: Vec<i32> = Vec::with_capacity(len);
        for _ in 0..len {
            inner.push(rng.gen_range(-512..512));
        }
        data.push(inner);
    }

    let mut segtree = StaticSegtree::from_slice(&data, merge_fn, Vec::new());

    let data_query = data.iter().fold(Vec::new(), |a: Vec<i32>, b: &Vec<i32>| merge_fn(&a, b));
    let tree_query = segtree.query(0, n - 1);

    assert_eq!(data_query, tree_query);

    // perform N queries
    for _ in 0..n {
        if rng.gen_bool(0.5) {
            let index: usize = rng.gen_range(0..n);
            let len: usize = rng.gen_range(0..m);
            let mut value: Vec<i32> = Vec::with_capacity(len);
            for _ in 0..len {
                value.push(rng.gen_range(-512..512));
            }

            data[index] = value.clone();
            segtree.set(index, value);

            assert_eq!(data[index], *segtree.get(index))
        } else {
            let l: usize = rng.gen_range(0..n);
            let r: usize = rng.gen_range(l..n);
            let data_query =
                data[l..=r].iter().fold(Vec::new(), |a: Vec<i32>, b: &Vec<i32>| merge_fn(&a, b));
            let tree_query = segtree.query(l, r);

            assert_eq!(data_query, tree_query);
        }
    }
}
