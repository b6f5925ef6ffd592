//! Stable ordering of a list by a key.
use vstd::prelude::*;

verus! {

/// Position `a` comes before position `b`: its key is smaller, or the keys are equal and `a` stood
/// first.
pub open spec fn ranks_before(keys: Seq<u32>, a: int, b: int) -> bool {
    keys[a] < keys[b] || (keys[a] == keys[b] && a < b)
}

/// The position `k` is among `order`.
pub open spec fn holds_position(order: Seq<usize>, k: int) -> bool {
    exists|i: int| 0 <= i < order.len() && #[trigger] order[i] == k
}

/// `order` holds every position of `keys` once, smaller keys first, and positions with equal keys
/// as they stood.
pub open spec fn is_stable_order(keys: Seq<u32>, order: Seq<usize>) -> bool {
    &&& order.len() == keys.len()
    &&& forall|i: int| 0 <= i < order.len() ==> 0 <= #[trigger] order[i] < keys.len()
    &&& forall|i: int, j: int|
        0 <= i < j < order.len() ==> ranks_before(keys, #[trigger] order[i] as int, #[trigger] order[j] as int)
    &&& forall|k: int| 0 <= k < keys.len() ==> #[trigger] holds_position(order, k)
}

/// The positions of `keys` in stable order.
pub fn stable_order(keys: &[u32]) -> (r: Vec<usize>)
    ensures
        is_stable_order(keys@, r@),
{
    let n: usize = keys.len();
    let mut order: Vec<usize> = Vec::new();
    let mut m: usize = 0;
    while m < n
        invariant
            m <= n,
            n == keys@.len(),
            order@.len() == m,
            forall|i: int| 0 <= i < m ==> 0 <= #[trigger] order@[i] < m,
            forall|i: int, j: int|
                0 <= i < j < m ==> ranks_before(keys@, #[trigger] order@[i] as int, #[trigger] order@[j] as int),
            forall|k: int| 0 <= k < m ==> #[trigger] holds_position(order@, k),
        decreases n - m,
    {
        let mut p: usize = m;
        while p > 0 && keys[order[p - 1]] > keys[m]
            invariant
                p <= m < n,
                n == keys@.len(),
                order@.len() == m,
                forall|i: int| 0 <= i < m ==> 0 <= #[trigger] order@[i] < m,
                forall|i: int| p <= i < m ==> keys@[m as int] < keys@[#[trigger] order@[i] as int],
            decreases p,
        {
            p = p - 1;
        }
        let ghost before: Seq<usize> = order@;
        order.insert(p, m);
        proof {
            assert(order@ == before.insert(p as int, m));
            assert forall|i: int, j: int| 0 <= i < j < m + 1 implies ranks_before(
                keys@,
                #[trigger] order@[i] as int,
                #[trigger] order@[j] as int,
            ) by {
                let i0: int = if i < p { i } else { i - 1 };
                let j0: int = if j < p { j } else { j - 1 };
                if i == p {
                    assert(order@[j] == before[j0]);
                } else if j == p {
                    assert(order@[i] == before[i0]);
                    assert(before[p - 1] < m);
                    if i0 < p - 1 {
                        assert(ranks_before(keys@, before[i0] as int, before[p - 1] as int));
                    }
                } else {
                    assert(order@[i] == before[i0]);
                    assert(order@[j] == before[j0]);
                }
            }
            assert forall|k: int| 0 <= k < m + 1 implies #[trigger] holds_position(order@, k) by {
                if k == m {
                    assert(order@[p as int] == k);
                } else {
                    assert(holds_position(before, k));
                    let i: int = choose|i: int| 0 <= i < before.len() && #[trigger] before[i] == k;
                    if i < p {
                        assert(order@[i] == k);
                    } else {
                        assert(order@[i + 1] == k);
                    }
                }
            }
        }
        m = m + 1;
    }
    order
}

/// Along a stable order keys never fall, positions with the same key keep their order, and every
/// position stands there once.
pub proof fn law_stable_order_sorts(keys: Seq<u32>, order: Seq<usize>)
    requires
        is_stable_order(keys, order),
    ensures
        order.len() == keys.len(),
        forall|i: int, j: int|
            0 <= i < j < order.len() ==> keys[#[trigger] order[i] as int] <= keys[
                #[trigger] order[j] as int],
        forall|i: int, j: int|
            0 <= i < j < order.len() && keys[#[trigger] order[i] as int] == keys[
                #[trigger] order[j] as int] ==> order[i] < order[j],
        forall|i: int, j: int|
            0 <= i < j < order.len() ==> #[trigger] order[i] != #[trigger] order[j],
        forall|k: usize| k < keys.len() ==> #[trigger] order.contains(k),
{
    assert forall|i: int, j: int| 0 <= i < j < order.len() implies ranks_before(
        keys,
        #[trigger] order[i] as int,
        #[trigger] order[j] as int,
    ) by {
    }
    assert forall|k: usize| k < keys.len() implies #[trigger] order.contains(k) by {
        assert(holds_position(order, k as int));
        let i: int = choose|i: int| 0 <= i < order.len() && #[trigger] order[i] == k as int;
        assert(order[i] == k);
    }
}

} // verus!
