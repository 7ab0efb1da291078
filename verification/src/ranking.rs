//! Ranking by a key: the entries that have one, highest first, and of equal keys the earlier entry
//! first.
use vstd::prelude::*;

verus! {

/// Whether entry `i` ranks above entry `j`: it has a higher key, or the same key and comes earlier.
pub open spec fn higher(keys: Seq<Option<usize>>, i: int, j: int) -> bool {
    keys[i]->Some_0 > keys[j]->Some_0 || (keys[i]->Some_0 == keys[j]->Some_0 && i < j)
}

/// Whether `order` lists exactly the first `n` entries that have a key, highest first.
pub open spec fn highest_first(order: Seq<usize>, keys: Seq<Option<usize>>, n: int) -> bool {
    &&& forall|k: int| 0 <= k < order.len() ==> #[trigger] order[k] < n && keys[order[k] as int] is Some
    &&& forall|i: int| 0 <= i < n && #[trigger] keys[i] is Some ==> order.contains(i as usize)
    &&& forall|a: int, b: int|
        0 <= a < b < order.len() ==> higher(
            keys,
            #[trigger] order[a] as int,
            #[trigger] order[b] as int,
        )
}

proof fn lemma_insert(
    order: Seq<usize>,
    keys: Seq<Option<usize>>,
    at: int,
    i: int,
)
    requires
        highest_first(order, keys, i),
        0 <= i < keys.len() <= usize::MAX,
        keys[i] is Some,
        0 <= at <= order.len(),
        forall|k: int| 0 <= k < at ==> keys[#[trigger] order[k] as int]->Some_0 >= keys[i]->Some_0,
        at < order.len() ==> keys[order[at] as int]->Some_0 < keys[i]->Some_0,
    ensures
        highest_first(order.insert(at, i as usize), keys, i + 1),
{
    let new_order = order.insert(at, i as usize);
    assert forall|j: int| 0 <= j < i + 1 && #[trigger] keys[j] is Some implies new_order.contains(
        j as usize,
    ) by {
        if j == i {
            assert(new_order[at] == j as usize);
        } else {
            assert(order.contains(j as usize));
            let k = choose|k: int| 0 <= k < order.len() && order[k] == j as usize;
            if k < at {
                assert(new_order[k] == order[k]);
            } else {
                assert(new_order[k + 1] == order[k]);
            }
        }
    }
    assert forall|a: int, b: int| 0 <= a < b < new_order.len() implies higher(
        keys,
        #[trigger] new_order[a] as int,
        #[trigger] new_order[b] as int,
    ) by {
        let old_a = if a < at { a } else { a - 1 };
        let old_b = if b < at { b } else { b - 1 };
        if a == at {
            assert(new_order[b] == order[old_b]);
            if old_b > at {
                assert(higher(keys, order[at] as int, order[old_b] as int));
            }
        } else if b == at {
            assert(new_order[a] == order[old_a]);
        } else {
            assert(new_order[a] == order[old_a]);
            assert(new_order[b] == order[old_b]);
        }
    }
    assert forall|k: int| 0 <= k < new_order.len() implies #[trigger] new_order[k] < i + 1
        && keys[new_order[k] as int] is Some by {
        if k < at {
            assert(new_order[k] == order[k]);
        } else if k > at {
            assert(new_order[k] == order[k - 1]);
        }
    }
}

/// The entries that have a key, highest first.
pub fn rank_highest_first(keys: &Vec<Option<usize>>) -> (order: Vec<usize>)
    ensures
        highest_first(order@, keys@, keys@.len() as int),
{
    let mut order: Vec<usize> = Vec::new();
    let n: usize = keys.len();
    let mut i: usize = 0;
    while i < n
        invariant
            i <= n,
            n == keys@.len(),
            highest_first(order@, keys@, i as int),
        decreases n - i,
    {
        match keys[i] {
            Some(key) => {
                let mut at: usize = 0;
                while at < order.len() && key_at(keys, order[at]) >= key
                    invariant
                        at <= order@.len(),
                        i < keys@.len(),
                        keys@[i as int] == Some(key),
                        highest_first(order@, keys@, i as int),
                        forall|k: int|
                            0 <= k < at ==> keys@[#[trigger] order@[k] as int]->Some_0 >= key,
                    decreases order.len() - at,
                {
                    at += 1;
                }
                proof {
                    lemma_insert(order@, keys@, at as int, i as int);
                }
                order.insert(at, i);
            },
            None => {
                assert(highest_first(order@, keys@, i + 1));
            },
        }
        i += 1;
    }
    order
}

/// The key of an entry that has one.
pub fn key_at(keys: &Vec<Option<usize>>, i: usize) -> (key: usize)
    requires
        i < keys@.len(),
        keys@[i as int] is Some,
    ensures
        key == keys@[i as int]->Some_0,
{
    match keys[i] {
        Some(key) => key,
        None => 0,
    }
}

/// There is one ranking of the entries: the keys alone settle it.
pub proof fn law_one_ranking(
    a: Seq<usize>,
    b: Seq<usize>,
    keys: Seq<Option<usize>>,
)
    requires
        keys.len() <= usize::MAX,
        highest_first(a, keys, keys.len() as int),
        highest_first(b, keys, keys.len() as int),
    ensures
        a == b,
{
    lemma_same_prefix(a, b, keys, a.len() as int);
    assert(a.take(a.len() as int) =~= a);
    if b.len() > a.len() {
        let last = b[a.len() as int];
        assert(keys[last as int] is Some);
        assert(a.contains(last as int as usize));
        let j = choose|j: int| 0 <= j < a.len() && a[j] == last;
        assert(a.take(a.len() as int)[j] == b.take(a.len() as int)[j]);
        assert(higher(keys, b[j] as int, b[a.len() as int] as int));
    }
}

proof fn lemma_same_prefix(
    a: Seq<usize>,
    b: Seq<usize>,
    keys: Seq<Option<usize>>,
    n: int,
)
    requires
        0 <= n <= a.len(),
        keys.len() <= usize::MAX,
        highest_first(a, keys, keys.len() as int),
        highest_first(b, keys, keys.len() as int),
    ensures
        n <= b.len(),
        a.take(n) == b.take(n),
    decreases n,
{
    if n > 0 {
        lemma_same_prefix(a, b, keys, n - 1);
        let m = n - 1;
        assert(a[m] < keys.len() && keys[a[m] as int] is Some);
        assert(b.contains(a[m] as int as usize));
        let p = choose|p: int| 0 <= p < b.len() && b[p] == a[m];
        if p < m {
            assert(a.take(m)[p] == b.take(m)[p]);
            assert(higher(keys, a[p] as int, a[m] as int));
        }
        assert(p >= m);
        assert(b[m] < keys.len() && keys[b[m] as int] is Some);
        assert(a.contains(b[m] as int as usize));
        let q = choose|q: int| 0 <= q < a.len() && a[q] == b[m];
        if q < m {
            assert(a.take(m)[q] == b.take(m)[q]);
            assert(higher(keys, b[q] as int, b[m] as int));
        }
        if p > m && q > m {
            assert(higher(keys, b[m] as int, b[p] as int));
            assert(higher(keys, a[m] as int, a[q] as int));
        }
        assert(a[m] == b[m]);
        assert(a.take(n) =~= a.take(m).push(a[m]));
        assert(b.take(n) =~= b.take(m).push(b[m]));
    }
}

/// Where every entry has a key, a ranking holds them all.
pub proof fn lemma_ranks_all(order: Seq<usize>, keys: Seq<Option<usize>>)
    requires
        keys.len() <= usize::MAX,
        highest_first(order, keys, keys.len() as int),
        forall|i: int| 0 <= i < keys.len() ==> #[trigger] keys[i] is Some,
    ensures
        order.len() == keys.len(),
{
    let all = Seq::new(keys.len(), |i: int| i as usize);
    assert(order.no_duplicates()) by {
        assert forall|a: int, b: int| 0 <= a < order.len() && 0 <= b < order.len() && a != b implies order[a]
            != order[b] by {
            if a < b {
                assert(higher(keys, order[a] as int, order[b] as int));
            } else {
                assert(higher(keys, order[b] as int, order[a] as int));
            }
        }
    }
    assert(all.no_duplicates());
    assert(order.to_set() =~= all.to_set()) by {
        assert forall|x: usize| order.to_set().contains(x) implies all.to_set().contains(x) by {
            let k = choose|k: int| 0 <= k < order.len() && order[k] == x;
            assert(order[k] < keys.len());
            assert(all[x as int] == x);
        }
        assert forall|x: usize| all.to_set().contains(x) implies order.to_set().contains(x) by {
            let k = choose|k: int| 0 <= k < all.len() && all[k] == x;
            assert(keys[k] is Some);
            assert(order.contains(k as usize));
        }
    }
    order.unique_seq_to_set();
    all.unique_seq_to_set();
}

/// A ranking holds every entry that has a key and no other, none twice; those with higher keys come
/// first, and of equal ones the earlier.
pub proof fn law_rankings_go_down(
    order: Seq<usize>,
    keys: Seq<Option<usize>>,
    a: int,
    b: int,
    i: int,
)
    requires
        keys.len() <= usize::MAX,
        highest_first(order, keys, keys.len() as int),
    ensures
        0 <= a < b < order.len() ==> {
            let x = order[a] as int;
            let y = order[b] as int;
            &&& keys[x] is Some && keys[y] is Some
            &&& keys[x]->Some_0 >= keys[y]->Some_0
            &&& keys[x]->Some_0 == keys[y]->Some_0 ==> x < y
            &&& x != y
        },
        0 <= i < keys.len() ==> (order.contains(i as usize) <==> keys[i] is Some),
{
    if 0 <= a < b < order.len() {
        assert(higher(keys, order[a] as int, order[b] as int));
    }
    if 0 <= i < keys.len() && order.contains(i as usize) {
        let k = order.index_of(i as usize);
        assert(order[k] == i);
    }
}

} // verus!
