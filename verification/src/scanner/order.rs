//! Putting finds in order without moving them.

use vstd::prelude::*;

verus! {

/// Position `x` comes before position `y`: by the first key, then by the second, and equal keys
/// in the order in which they stand.
pub open spec fn comes_before(keys: Seq<(u64, u64)>, x: int, y: int) -> bool {
    let (a, b) = (keys[x], keys[y]);
    a.0 < b.0 || (a.0 == b.0 && (a.1 < b.1 || (a.1 == b.1 && x < y)))
}

/// `order` lists the positions from `from` up to `to`, each once, in order.
pub open spec fn is_order_of(keys: Seq<(u64, u64)>, order: Seq<usize>, from: int, to: int) -> bool {
    &&& order.len() == to - from
    &&& forall|i: int| 0 <= i < order.len() ==> from <= #[trigger] order[i] < to
    &&& forall|p: int| from <= p < to ==> #[trigger] order.contains(p as usize)
    &&& forall|i: int, j: int|
        0 <= i < j < order.len() ==> comes_before(
            keys,
            #[trigger] order[i] as int,
            #[trigger] order[j] as int,
        )
}

/// `order` lists all positions of `keys`, each once, in order.
pub open spec fn is_order(keys: Seq<(u64, u64)>, order: Seq<usize>) -> bool {
    is_order_of(keys, order, 0, keys.len() as int)
}

/// There is only one such order.
pub proof fn law_order_is_unique(keys: Seq<(u64, u64)>, a: Seq<usize>, b: Seq<usize>)
    requires
        is_order(keys, a),
        is_order(keys, b),
        keys.len() <= usize::MAX,
    ensures
        a == b,
{
    lemma_orders_agree(keys, a, b, a.len() as int);
    assert(a =~= b);
}

proof fn lemma_orders_agree(keys: Seq<(u64, u64)>, a: Seq<usize>, b: Seq<usize>, n: int)
    requires
        is_order(keys, a),
        is_order(keys, b),
        keys.len() <= usize::MAX,
        0 <= n <= a.len(),
    ensures
        forall|i: int| 0 <= i < n ==> a[i] == b[i],
    decreases n,
{
    if n > 0 {
        lemma_orders_agree(keys, a, b, n - 1);
        let x = a[n - 1];
        let y = b[n - 1];
        if x != y {
            assert(b.contains(x as int as usize));
            assert(a.contains(y as int as usize));
            let p = choose|p: int| 0 <= p < b.len() && b[p] == x;
            let q = choose|q: int| 0 <= q < a.len() && a[q] == y;
            if p < n - 1 {
                assert(a[p] == x);
                assert(comes_before(keys, a[p] as int, a[n - 1] as int));
            }
            if q < n - 1 {
                assert(b[q] == y);
                assert(comes_before(keys, b[q] as int, b[n - 1] as int));
            }
            assert(comes_before(keys, b[n - 1] as int, b[p] as int));
            assert(comes_before(keys, a[n - 1] as int, a[q] as int));
        }
    }
}

/// There always is such an order.
pub proof fn law_order_exists(keys: Seq<(u64, u64)>)
    requires
        keys.len() <= usize::MAX,
    ensures
        exists|order: Seq<usize>| is_order(keys, order),
{
    let order = lemma_insert_one_by_one(keys, keys.len() as int);
    assert(is_order(keys, order));
}

proof fn lemma_insert_one_by_one(keys: Seq<(u64, u64)>, n: int) -> (order: Seq<usize>)
    requires
        0 <= n <= keys.len() <= usize::MAX,
    ensures
        is_order_of(keys, order, 0, n),
    decreases n,
{
    if n == 0 {
        Seq::empty()
    } else {
        let rest = lemma_insert_one_by_one(keys, n - 1);
        let last = (n - 1) as usize;
        let at = lemma_find_place(keys, rest, n - 1, rest.len() as int);
        let order = rest.insert(at, last);
        assert(order[at] == last);
        assert forall|i: int| 0 <= i < order.len() implies 0 <= #[trigger] order[i] < n by {
            if i > at {
                assert(order[i] == rest[i - 1]);
            }
        }
        assert forall|p: int| 0 <= p < n implies #[trigger] order.contains(p as usize) by {
            if p < n - 1 {
                assert(rest.contains(p as usize));
                let k = choose|k: int| 0 <= k < rest.len() && rest[k] == p as usize;
                assert(order[if k < at { k } else { k + 1 }] == p as usize);
            }
        }
        assert forall|i: int, j: int| 0 <= i < j < order.len() implies comes_before(
            keys,
            #[trigger] order[i] as int,
            #[trigger] order[j] as int,
        ) by {
            let a = if i < at { rest[i] } else if i > at { rest[i - 1] } else { last };
            let b = if j < at { rest[j] } else if j > at { rest[j - 1] } else { last };
            assert(order[i] == a && order[j] == b);
            if i < at && j > at + 1 {
                assert(comes_before(keys, rest[i] as int, rest[j - 1] as int));
            }
        }
        order
    }
}

proof fn lemma_find_place(
    keys: Seq<(u64, u64)>,
    rest: Seq<usize>,
    n: int,
    upto: int,
) -> (at: int)
    requires
        0 <= n < keys.len() <= usize::MAX,
        is_order_of(keys, rest, 0, n),
        0 <= upto <= rest.len(),
        forall|k: int| upto <= k < rest.len() ==> comes_before(keys, n, #[trigger] rest[k] as int),
    ensures
        0 <= at <= rest.len(),
        forall|k: int| 0 <= k < at ==> comes_before(keys, #[trigger] rest[k] as int, n),
        forall|k: int| at <= k < rest.len() ==> comes_before(keys, n, #[trigger] rest[k] as int),
    decreases upto,
{
    if upto == 0 {
        0
    } else if comes_before(keys, rest[upto - 1] as int, n) {
        assert forall|k: int| 0 <= k < upto implies comes_before(
            keys,
            #[trigger] rest[k] as int,
            n,
        ) by {
            if k < upto - 1 {
                assert(comes_before(keys, rest[k] as int, rest[upto - 1] as int));
            }
        }
        upto
    } else {
        lemma_find_place(keys, rest, n, upto - 1)
    }
}

fn precedes(keys: &Vec<(u64, u64)>, x: usize, y: usize) -> (yes: bool)
    requires
        x < keys@.len(),
        y < keys@.len(),
    ensures
        yes == comes_before(keys@, x as int, y as int),
{
    let (a0, a1): (u64, u64) = keys[x];
    let (b0, b1): (u64, u64) = keys[y];
    a0 < b0 || (a0 == b0 && (a1 < b1 || (a1 == b1 && x < y)))
}

fn merge(
    keys: &Vec<(u64, u64)>,
    left: Vec<usize>,
    right: Vec<usize>,
    Ghost(from): Ghost<int>,
    Ghost(mid): Ghost<int>,
    Ghost(to): Ghost<int>,
) -> (order: Vec<usize>)
    requires
        0 <= from <= mid <= to <= keys@.len(),
        is_order_of(keys@, left@, from, mid),
        is_order_of(keys@, right@, mid, to),
    ensures
        is_order_of(keys@, order@, from, to),
{
    let mut order: Vec<usize> = Vec::new();
    let mut i: usize = 0;
    let mut j: usize = 0;
    while i < left.len() || j < right.len()
        invariant
            0 <= from <= mid <= to <= keys@.len(),
            is_order_of(keys@, left@, from, mid),
            is_order_of(keys@, right@, mid, to),
            i <= left@.len(),
            j <= right@.len(),
            order@.len() == i + j,
            forall|k: int| 0 <= k < order@.len() ==> from <= #[trigger] order@[k] < to,
            forall|k: int| 0 <= k < i ==> order@.contains(#[trigger] left@[k]),
            forall|k: int| 0 <= k < j ==> order@.contains(#[trigger] right@[k]),
            forall|k: int, l: int|
                0 <= k < l < order@.len() ==> comes_before(
                    keys@,
                    #[trigger] order@[k] as int,
                    #[trigger] order@[l] as int,
                ),
            forall|k: int, l: int|
                0 <= k < order@.len() && i <= l < left@.len() ==> comes_before(
                    keys@,
                    #[trigger] order@[k] as int,
                    #[trigger] left@[l] as int,
                ),
            forall|k: int, l: int|
                0 <= k < order@.len() && j <= l < right@.len() ==> comes_before(
                    keys@,
                    #[trigger] order@[k] as int,
                    #[trigger] right@[l] as int,
                ),
        decreases left@.len() - i + right@.len() - j,
    {
        let take_left = j >= right.len() || (i < left.len() && precedes(keys, left[i], right[j]));
        let ghost before = order@;
        let next: usize = if take_left { left[i] } else { right[j] };
        order.push(next);
        proof {
            assert forall|v: usize| before.contains(v) implies order@.contains(v) by {
                let k = choose|k: int| 0 <= k < before.len() && before[k] == v;
                assert(order@[k] == v);
            }
            assert(order@[before.len() as int] == next);
        }
        if take_left {
            i = i + 1;
        } else {
            j = j + 1;
        }
    }
    proof {
        assert forall|p: int| from <= p < to implies #[trigger] order@.contains(p as usize) by {
            if p < mid {
                assert(left@.contains(p as usize));
                let k = choose|k: int| 0 <= k < left@.len() && left@[k] == p as usize;
                assert(order@.contains(left@[k]));
            } else {
                assert(right@.contains(p as usize));
                let k = choose|k: int| 0 <= k < right@.len() && right@[k] == p as usize;
                assert(order@.contains(right@[k]));
            }
        }
    }
    order
}

fn order_range(keys: &Vec<(u64, u64)>, from: usize, to: usize) -> (order: Vec<usize>)
    requires
        from <= to <= keys@.len(),
    ensures
        is_order_of(keys@, order@, from as int, to as int),
    decreases to - from,
{
    if from == to {
        return Vec::new();
    }
    if to - from == 1 {
        let order = vec![from];
        assert(order@[0] == from);
        return order;
    }
    let mid: usize = from + (to - from) / 2;
    let left = order_range(keys, from, mid);
    let right = order_range(keys, mid, to);
    merge(keys, left, right, Ghost(from as int), Ghost(mid as int), Ghost(to as int))
}

/// The positions of `keys` in order; equal keys keep the order in which they stand.
pub fn stable_order(keys: &Vec<(u64, u64)>) -> (order: Vec<usize>)
    ensures
        is_order(keys@, order@),
{
    order_range(keys, 0, keys.len())
}

/// In order, the first keys rise. Where they are alike the second keys do, and where both are, the
/// positions stay as they stood.
pub proof fn law_orders_rise(keys: Seq<(u64, u64)>, order: Seq<usize>, i: int, j: int)
    requires
        is_order(keys, order),
        0 <= i < j < order.len(),
    ensures
        ({
            let (a, b) = (keys[order[i] as int], keys[order[j] as int]);
            &&& a.0 <= b.0
            &&& a.0 == b.0 ==> a.1 <= b.1
            &&& a == b ==> order[i] < order[j]
        }),
        order.len() == keys.len(),
{
    assert(comes_before(keys, order[i] as int, order[j] as int));
}

} // verus!
