//! A stable sort by integer keys.
//!
//! The sort does not move the items themselves: it returns the order in
//! which to read them, as a sequence of positions. Items with equal keys
//! are read in the order in which they were given.

use vstd::prelude::*;

verus! {

/// The item at position `a` is read before the item at position `b`: its
/// key is smaller, or the keys are equal and it was given first.
pub open spec fn comes_before(keys: Seq<u64>, a: int, b: int) -> bool {
    keys[a] < keys[b] || (keys[a] == keys[b] && a < b)
}

/// The position `i` is named somewhere in `order`.
pub open spec fn occurs(order: Seq<usize>, i: int) -> bool {
    exists|k: int| 0 <= k < order.len() && #[trigger] order[k] == i
}

/// `order` names every position of `keys` once, by ascending key, and
/// positions with equal keys in ascending order.
pub open spec fn is_stable_order(keys: Seq<u64>, order: Seq<usize>) -> bool {
    &&& order.len() == keys.len()
    &&& forall|k: int| 0 <= k < order.len() ==> (#[trigger] order[k]) < keys.len()
    &&& forall|i: int| 0 <= i < keys.len() ==> #[trigger] occurs(order, i)
    &&& forall|a: int, b: int|
        0 <= a < b < order.len() ==> comes_before(
            keys,
            #[trigger] order[a] as int,
            #[trigger] order[b] as int,
        )
}

/// The order in which a stable sort reads the positions of `keys`.
pub open spec fn sorted_order(keys: Seq<u64>) -> Seq<usize> {
    choose|order: Seq<usize>| is_stable_order(keys, order)
}

/// The items of `items`, read in the given order.
pub open spec fn permuted<T>(items: Seq<T>, order: Seq<usize>) -> Seq<T> {
    Seq::new(order.len(), |k: int| items[order[k] as int])
}

proof fn lemma_orders_agree_below(keys: Seq<u64>, a: Seq<usize>, b: Seq<usize>, n: int)
    requires
        is_stable_order(keys, a),
        is_stable_order(keys, b),
        0 <= n <= keys.len(),
    ensures
        forall|k: int| 0 <= k < n ==> a[k] == b[k],
    decreases n,
{
    if n > 0 {
        lemma_orders_agree_below(keys, a, b, n - 1);
        let k = n - 1;
        if a[k] != b[k] {
            let x = a[k] as int;
            let y = b[k] as int;
            if comes_before(keys, x, y) {
                assert(occurs(b, x));
                let m = choose|m: int| 0 <= m < b.len() && #[trigger] b[m] == x;
                if m < k {
                    assert(comes_before(keys, a[m] as int, a[k] as int));
                } else {
                    assert(comes_before(keys, b[k] as int, b[m] as int));
                }
            } else {
                assert(comes_before(keys, y, x));
                assert(occurs(a, y));
                let m = choose|m: int| 0 <= m < a.len() && #[trigger] a[m] == y;
                if m < k {
                    assert(comes_before(keys, b[m] as int, b[k] as int));
                } else {
                    assert(comes_before(keys, a[k] as int, a[m] as int));
                }
            }
        }
    }
}

/// A sequence of keys has at most one stable order.
pub proof fn lemma_stable_order_unique(keys: Seq<u64>, a: Seq<usize>, b: Seq<usize>)
    requires
        is_stable_order(keys, a),
        is_stable_order(keys, b),
    ensures
        a == b,
{
    lemma_orders_agree_below(keys, a, b, keys.len() as int);
    assert(a =~= b);
}

/// No position is named twice in a stable order.
pub proof fn lemma_stable_order_injective(keys: Seq<u64>, order: Seq<usize>, a: int, b: int)
    requires
        is_stable_order(keys, order),
        0 <= a < order.len(),
        0 <= b < order.len(),
        order[a] == order[b],
    ensures
        a == b,
{
    if a < b {
        assert(comes_before(keys, order[a] as int, order[b] as int));
    } else if b < a {
        assert(comes_before(keys, order[b] as int, order[a] as int));
    }
}

/// A stable order of all keys but the last stays one of all keys when the
/// last position is put behind the positions with keys that are no
/// larger, and before those with larger keys.
proof fn lemma_insert_keeps_order(keys: Seq<u64>, before: Seq<usize>, p: int)
    requires
        keys.len() > 0,
        keys.len() - 1 <= usize::MAX,
        is_stable_order(keys.drop_last(), before),
        0 <= p <= before.len(),
        forall|k: int| 0 <= k < p ==> keys[#[trigger] before[k] as int] <= keys.last(),
        forall|k: int| p <= k < before.len() ==> keys[#[trigger] before[k] as int] > keys.last(),
    ensures
        is_stable_order(keys, before.insert(p, (keys.len() - 1) as usize)),
{
    let i = (keys.len() - 1) as usize;
    let after = before.insert(p, i);
    let shorter = keys.drop_last();
    before.insert_ensures(p, i);
    assert forall|v: int| 0 <= v < keys.len() implies #[trigger] occurs(after, v) by {
        if v < i {
            assert(occurs(before, v));
            let k = choose|k: int| 0 <= k < before.len() && #[trigger] before[k] == v;
            if k < p {
                assert(after[k] == v);
            } else {
                assert(after[k + 1] == v);
            }
        } else {
            assert(after[p] == v);
        }
    }
    assert forall|a: int, b: int| 0 <= a < b < after.len() implies comes_before(
        keys,
        #[trigger] after[a] as int,
        #[trigger] after[b] as int,
    ) by {
        if b < p {
            assert(comes_before(shorter, before[a] as int, before[b] as int));
        } else if b == p {
            assert(after[a] == before[a]);
        } else if a < p {
            assert(comes_before(shorter, before[a] as int, before[b - 1] as int));
        } else if a == p {
            assert(keys[before[b - 1] as int] > keys.last());
        } else {
            assert(comes_before(shorter, before[a - 1] as int, before[b - 1] as int));
        }
    }
    assert forall|k: int| 0 <= k < after.len() implies (#[trigger] after[k]) < keys.len() by {
        if k < p {
            assert(after[k] == before[k]);
        } else if k > p {
            assert(after[k] == before[k - 1]);
        }
    }
}

/// In a stable order the positions with keys up to `key` come first. The
/// result is the number of them.
proof fn lemma_insert_position(keys: Seq<u64>, order: Seq<usize>, key: u64, n: int) -> (p: int)
    requires
        is_stable_order(keys, order),
        0 <= n <= order.len(),
        forall|k: int| n <= k < order.len() ==> keys[#[trigger] order[k] as int] > key,
    ensures
        0 <= p <= order.len(),
        forall|k: int| 0 <= k < p ==> keys[#[trigger] order[k] as int] <= key,
        forall|k: int| p <= k < order.len() ==> keys[#[trigger] order[k] as int] > key,
    decreases n,
{
    if n == 0 {
        0
    } else if keys[order[n - 1] as int] <= key {
        assert forall|k: int| 0 <= k < n implies keys[#[trigger] order[k] as int] <= key by {
            if k < n - 1 {
                assert(comes_before(keys, order[k] as int, order[n - 1] as int));
            }
        }
        n
    } else {
        lemma_insert_position(keys, order, key, n - 1)
    }
}

/// Every sequence of keys has a stable order, so that the order in which
/// a stable sort reads them is one.
pub proof fn lemma_stable_order_exists(keys: Seq<u64>)
    requires
        keys.len() <= usize::MAX,
    ensures
        is_stable_order(keys, sorted_order(keys)),
    decreases keys.len(),
{
    if keys.len() == 0 {
        assert(is_stable_order(keys, Seq::<usize>::empty()));
    } else {
        let shorter = keys.drop_last();
        lemma_stable_order_exists(shorter);
        let before = sorted_order(shorter);
        let p = lemma_insert_position(shorter, before, keys.last(), before.len() as int);
        lemma_insert_keeps_order(keys, before, p);
    }
}

/// Keys that are given in ascending order are read in the order in which
/// they were given.
pub proof fn lemma_sorted_keys_keep_their_order(keys: Seq<u64>)
    requires
        keys.len() <= usize::MAX,
        forall|a: int, b: int| 0 <= a <= b < keys.len() ==> keys[a] <= keys[b],
    ensures
        sorted_order(keys) == Seq::new(keys.len(), |i: int| i as usize),
{
    let same = Seq::new(keys.len(), |i: int| i as usize);
    assert forall|i: int| 0 <= i < keys.len() implies #[trigger] occurs(same, i) by {
        assert(same[i] == i);
    }
    assert(is_stable_order(keys, same));
    lemma_stable_order_exists(keys);
    lemma_stable_order_unique(keys, same, sorted_order(keys));
}

/// Sorts the positions of `keys` by ascending key; positions with equal
/// keys stay in ascending order.
pub fn stable_order(keys: &Vec<u64>) -> (order: Vec<usize>)
    ensures
        is_stable_order(keys@, order@),
        order@ == sorted_order(keys@),
{
    let mut order: Vec<usize> = Vec::new();
    let mut i: usize = 0;
    while i < keys.len()
        invariant
            i <= keys.len(),
            is_stable_order(keys@.take(i as int), order@),
        decreases keys.len() - i,
    {
        let key: u64 = keys[i];
        let mut p: usize = order.len();
        while p > 0 && keys[order[p - 1]] > key
            invariant
                p <= order.len(),
                order.len() == i,
                i < keys.len(),
                key == keys[i as int],
                is_stable_order(keys@.take(i as int), order@),
                forall|k: int| p <= k < order.len() ==> keys[#[trigger] order[k] as int] > key,
            decreases p,
        {
            p -= 1;
        }
        let ghost before = order@;
        order.insert(p, i);
        proof {
            assert(keys@.take(i + 1).drop_last() =~= keys@.take(i as int));
            lemma_insert_keeps_order(keys@.take(i + 1), before, p as int);
        }
        i += 1;
    }
    proof {
        assert(keys@.take(keys.len() as int) =~= keys@);
        lemma_stable_order_unique(keys@, order@, sorted_order(keys@));
    }
    order
}

} // verus!
