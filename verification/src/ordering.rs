//! Putting items in order by a key, where items of equal keys keep their order.
use vstd::prelude::*;

verus! {

/// `order` with the position `x` behind the last position whose key is not
/// greater than that of `x`.
pub open spec fn inserted(order: Seq<int>, keys: Seq<int>, x: int) -> Seq<int>
    decreases order.len(),
{
    if order.len() == 0 || keys[order.last()] <= keys[x] {
        order.push(x)
    } else {
        inserted(order.drop_last(), keys, x).push(order.last())
    }
}

/// The first `n` positions of `keys`, by ascending key; positions of equal keys
/// ascend.
pub open spec fn stable_order(keys: Seq<int>, n: nat) -> Seq<int>
    decreases n,
{
    if n == 0 {
        Seq::empty()
    } else {
        inserted(stable_order(keys, (n - 1) as nat), keys, n - 1)
    }
}

/// Keys as integers.
pub open spec fn ints(keys: Seq<i128>) -> Seq<int> {
    keys.map_values(|k: i128| k as int)
}

/// Positions as integers.
pub open spec fn positions(order: Seq<usize>) -> Seq<int> {
    order.map_values(|p: usize| p as int)
}

/// Whether the position `a` comes before `b` by key, and by position where the
/// keys are equal.
pub open spec fn precedes(keys: Seq<int>, a: int, b: int) -> bool {
    keys[a] < keys[b] || (keys[a] == keys[b] && a < b)
}

proof fn lemma_inserted(order: Seq<int>, keys: Seq<int>, x: int, at: int)
    requires
        0 <= at <= order.len(),
        at > 0 ==> keys[order[at - 1]] <= keys[x],
        forall|k: int| at <= k < order.len() ==> keys[#[trigger] order[k]] > keys[x],
    ensures
        inserted(order, keys, x) == order.insert(at, x),
    decreases order.len(),
{
    if at < order.len() {
        lemma_inserted(order.drop_last(), keys, x, at);
        assert(order[order.len() - 1] == order.last());
        assert(order.drop_last().insert(at, x).push(order.last()) =~= order.insert(at, x));
    } else {
        assert(order.push(x) =~= order.insert(at, x));
    }
}

proof fn lemma_inserted_members(order: Seq<int>, keys: Seq<int>, x: int)
    ensures
        inserted(order, keys, x).len() == order.len() + 1,
        forall|i: int| #[trigger] inserted(order, keys, x).contains(i) <==> order.contains(i) || i
            == x,
    decreases order.len(),
{
    let now = inserted(order, keys, x);
    if order.len() == 0 || keys[order.last()] <= keys[x] {
        assert forall|i: int| #[trigger] now.contains(i) <==> order.contains(i) || i == x by {
            if order.contains(i) {
                assert(now[order.index_of(i)] == i);
            }
            assert(now[order.len() as int] == x);
            if now.contains(i) && i != x {
                assert(order[now.index_of(i)] == i);
            }
        }
    } else {
        let rest = order.drop_last();
        lemma_inserted_members(rest, keys, x);
        let mid = inserted(rest, keys, x);
        assert forall|i: int| #[trigger] now.contains(i) <==> order.contains(i) || i == x by {
            assert(now[mid.len() as int] == order.last());
            if mid.contains(i) {
                assert(now[mid.index_of(i)] == i);
            }
            if now.contains(i) {
                let k = now.index_of(i);
                if k < mid.len() {
                    assert(mid[k] == i);
                    assert(mid.contains(i));
                }
            }
            if rest.contains(i) {
                assert(order[rest.index_of(i)] == i);
            }
            assert(order[order.len() - 1] == order.last());
            if order.contains(i) {
                let k = order.index_of(i);
                if k < rest.len() {
                    assert(rest[k] == i);
                    assert(rest.contains(i));
                    assert(mid.contains(i));
                }
            }
            if i == x {
                assert(mid.contains(x));
            }
        }
    }
}

proof fn lemma_inserted_ordered(order: Seq<int>, keys: Seq<int>, x: int)
    requires
        forall|i: int, j: int|
            0 <= i < j < order.len() ==> precedes(keys, #[trigger] order[i], #[trigger] order[j]),
        forall|i: int| 0 <= i < order.len() ==> #[trigger] order[i] < x,
    ensures
        forall|i: int, j: int|
            0 <= i < j < inserted(order, keys, x).len() ==> precedes(
                keys,
                #[trigger] inserted(order, keys, x)[i],
                #[trigger] inserted(order, keys, x)[j],
            ),
    decreases order.len(),
{
    let now = inserted(order, keys, x);
    if order.len() == 0 || keys[order.last()] <= keys[x] {
        assert forall|i: int, j: int| 0 <= i < j < now.len() implies precedes(
            keys,
            #[trigger] now[i],
            #[trigger] now[j],
        ) by {
            if j == order.len() {
                assert(order[i] < x);
                if i < order.len() - 1 {
                    assert(precedes(keys, order[i], order[order.len() - 1]));
                }
            }
        }
    } else {
        let rest = order.drop_last();
        let mid = inserted(rest, keys, x);
        lemma_inserted_ordered(rest, keys, x);
        lemma_inserted_members(rest, keys, x);
        assert forall|i: int, j: int| 0 <= i < j < now.len() implies precedes(
            keys,
            #[trigger] now[i],
            #[trigger] now[j],
        ) by {
            if j == mid.len() {
                assert(mid.contains(mid[i]));
                if mid[i] != x {
                    assert(rest.contains(mid[i]));
                    let k = rest.index_of(mid[i]);
                    assert(order[k] == mid[i]);
                    assert(precedes(keys, order[k], order[order.len() - 1]));
                }
            } else {
                assert(precedes(keys, mid[i], mid[j]));
            }
        }
    }
}

/// The order holds each of the first `n` positions once, by ascending key, and
/// keeps positions of equal keys in their order.
pub proof fn stable_order_is_sorted(keys: Seq<int>, n: nat)
    ensures
        stable_order(keys, n).len() == n,
        forall|i: int| #[trigger] stable_order(keys, n).contains(i) <==> 0 <= i < n,
        forall|i: int, j: int|
            0 <= i < j < n ==> precedes(
                keys,
                #[trigger] stable_order(keys, n)[i],
                #[trigger] stable_order(keys, n)[j],
            ),
    decreases n,
{
    if n > 0 {
        let m = (n - 1) as nat;
        let before = stable_order(keys, m);
        stable_order_is_sorted(keys, m);
        lemma_inserted_members(before, keys, n - 1);
        assert forall|i: int| 0 <= i < before.len() implies #[trigger] before[i] < n - 1 by {
            assert(before.contains(before[i]));
        }
        lemma_inserted_ordered(before, keys, n - 1);
    }
}

/// The positions of `keys`, by ascending key; positions of equal keys ascend.
pub fn stable_positions(keys: &Vec<i128>) -> (order: Vec<usize>)
    ensures
        positions(order@) == stable_order(ints(keys@), keys@.len()),
        order@.len() == keys@.len(),
        forall|i: int| 0 <= i < order@.len() ==> #[trigger] order@[i] < keys@.len(),
{
    let mut order: Vec<usize> = Vec::new();
    let mut n: usize = 0;
    assert(positions(order@) == stable_order(ints(keys@), 0));
    while n < keys.len()
        invariant
            n <= keys@.len(),
            positions(order@) == stable_order(ints(keys@), n as nat),
            forall|i: int| 0 <= i < order@.len() ==> #[trigger] order@[i] < n,
            order@.len() == n,
        decreases keys@.len() - n,
    {
        let mut at: usize = order.len();
        while at > 0 && keys[order[at - 1]] > keys[n]
            invariant
                n < keys@.len(),
                at <= order@.len(),
                order@.len() == n,
                forall|i: int| 0 <= i < order@.len() ==> #[trigger] order@[i] < n,
                forall|k: int| at <= k < order@.len() ==> keys@[#[trigger] order@[k] as int]
                    > keys@[n as int],
            decreases at,
        {
            at = at - 1;
        }
        let ghost before = positions(order@);
        proof {
            let all = ints(keys@);
            assert forall|k: int| at <= k < before.len() implies all[#[trigger] before[k]]
                > all[n as int] by {
                assert(keys@[order@[k] as int] > keys@[n as int]);
            }
            lemma_inserted(before, all, n as int, at as int);
        }
        order.insert(at, n);
        n = n + 1;
        assert(positions(order@) == before.insert(at as int, n - 1));
    }
    order
}

/// The order lists positions by their keys, the smallest first; of two positions with
/// equal keys the smaller comes first.
pub proof fn smaller_keys_come_first(keys: Seq<int>, n: nat, i: int, j: int)
    requires
        0 <= i < j < n,
    ensures
        stable_order(keys, n).len() == n,
        0 <= stable_order(keys, n)[i] < n,
        keys[stable_order(keys, n)[i]] <= keys[stable_order(keys, n)[j]],
        keys[stable_order(keys, n)[i]] == keys[stable_order(keys, n)[j]] ==> stable_order(
            keys,
            n,
        )[i] < stable_order(keys, n)[j],
        stable_order(keys, n)[i] != stable_order(keys, n)[j],
{
    stable_order_is_sorted(keys, n);
    let order = stable_order(keys, n);
    assert(order.contains(order[i]));
    assert(precedes(keys, order[i], order[j]));
}

} // verus!
