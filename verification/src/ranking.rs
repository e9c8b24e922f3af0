//! Ranking by score: the order in which scored items come when the highest
//! score goes first and equal scores keep the order they came in.

use vstd::prelude::*;

verus! {

/// The ranking `order` with the item `i` put in its place: behind every item
/// whose key is at least its own.
pub open spec fn insert_ranked(order: Seq<int>, keys: Seq<int>, i: int) -> Seq<int>
    decreases order.len(),
{
    if order.len() == 0 {
        seq![i]
    } else if keys[order.last()] >= keys[i] {
        order.push(i)
    } else {
        insert_ranked(order.drop_last(), keys, i).push(order.last())
    }
}

/// The ranking of the first `n` items of `keys`.
pub open spec fn ranking_of_first(keys: Seq<int>, n: nat) -> Seq<int>
    decreases n,
{
    if n == 0 {
        Seq::empty()
    } else {
        insert_ranked(ranking_of_first(keys, (n - 1) as nat), keys, n - 1)
    }
}

/// The positions `0..keys.len()` in the order of falling key; positions with
/// equal keys stand in rising order.
pub open spec fn ranking(keys: Seq<int>) -> Seq<int> {
    ranking_of_first(keys, keys.len())
}

/// The keys as mathematical integers.
pub open spec fn key_values(keys: Seq<i128>) -> Seq<int> {
    Seq::new(keys.len(), |i: int| keys[i] as int)
}

/// The positions as mathematical integers.
pub open spec fn positions(order: Seq<usize>) -> Seq<int> {
    Seq::new(order.len(), |i: int| order[i] as int)
}

/// Whether `order` holds each of the positions `0..n` exactly once.
pub open spec fn is_permutation(order: Seq<int>, n: nat) -> bool {
    &&& order.len() == n
    &&& forall|r: int| 0 <= r < order.len() ==> 0 <= #[trigger] order[r] < n
    &&& forall|r: int, s: int| 0 <= r < s < order.len() ==> order[r] != order[s]
    &&& forall|i: int| 0 <= i < n ==> #[trigger] order.contains(i)
}

/// Whether `order` goes by falling key, equal keys by rising position.
pub open spec fn is_ranked(order: Seq<int>, keys: Seq<int>) -> bool {
    forall|r: int, s: int|
        0 <= r < s < order.len() ==> keys[#[trigger] order[r]] > keys[#[trigger] order[s]] || (
        keys[order[r]] == keys[order[s]] && order[r] < order[s])
}

proof fn lemma_insert_ranked(order: Seq<int>, keys: Seq<int>, i: int)
    requires
        0 <= i < keys.len(),
        is_permutation(order, i as nat),
        is_ranked(order, keys),
    ensures
        is_permutation(insert_ranked(order, keys, i), (i + 1) as nat),
        is_ranked(insert_ranked(order, keys, i), keys),
{
    lemma_insert_ranked_members(order, keys, i);
    lemma_insert_ranked_order(order, keys, i);
    let out = insert_ranked(order, keys, i);
    assert forall|r: int| 0 <= r < out.len() implies 0 <= #[trigger] out[r] < i + 1 by {
        assert(out.contains(out[r]));
        if out[r] != i {
            let k = choose|k: int| 0 <= k < order.len() && order[k] == out[r];
            assert(0 <= order[k] < i);
        }
    }
    assert forall|r: int, s: int| 0 <= r < s < out.len() implies out[r] != out[s] by {
        assert(keys[out[r]] > keys[out[s]] || (keys[out[r]] == keys[out[s]] && out[r] < out[s]));
    }
    assert forall|x: int| 0 <= x < i + 1 implies #[trigger] out.contains(x) by {
        if x < i {
            assert(order.contains(x));
        }
    }
}

/// Putting an item in its place adds it and keeps the others.
proof fn lemma_insert_ranked_members(order: Seq<int>, keys: Seq<int>, i: int)
    ensures
        insert_ranked(order, keys, i).len() == order.len() + 1,
        forall|x: int| #[trigger] insert_ranked(order, keys, i).contains(x) ==> order.contains(x) || x == i,
        forall|x: int| #[trigger] order.contains(x) ==> insert_ranked(order, keys, i).contains(x),
        insert_ranked(order, keys, i).contains(i),
    decreases order.len(),
{
    let out = insert_ranked(order, keys, i);
    if order.len() == 0 {
        assert(out[0] == i);
    } else if keys[order.last()] >= keys[i] {
        assert(out[order.len() as int] == i);
        assert forall|x: int| #[trigger] out.contains(x) implies order.contains(x) || x == i by {
            let k = choose|k: int| 0 <= k < out.len() && out[k] == x;
            if k < order.len() {
                assert(order[k] == x);
            }
        }
        assert forall|x: int| #[trigger] order.contains(x) implies out.contains(x) by {
            let k = choose|k: int| 0 <= k < order.len() && order[k] == x;
            assert(out[k] == x);
        }
    } else {
        let init = order.drop_last();
        let inner = insert_ranked(init, keys, i);
        lemma_insert_ranked_members(init, keys, i);
        assert forall|x: int| #[trigger] out.contains(x) implies order.contains(x) || x == i by {
            let k = choose|k: int| 0 <= k < out.len() && out[k] == x;
            if k < inner.len() {
                assert(inner[k] == x);
                assert(inner.contains(x));
                if x != i {
                    let m = choose|m: int| 0 <= m < init.len() && init[m] == x;
                    assert(order[m] == x);
                }
            } else {
                assert(order[order.len() - 1] == x);
            }
        }
        assert forall|x: int| #[trigger] order.contains(x) implies out.contains(x) by {
            let k = choose|k: int| 0 <= k < order.len() && order[k] == x;
            if k < init.len() {
                assert(init[k] == x);
                assert(init.contains(x));
                let m = choose|m: int| 0 <= m < inner.len() && inner[m] == x;
                assert(out[m] == x);
            } else {
                assert(out[inner.len() as int] == x);
            }
        }
        let m = choose|m: int| 0 <= m < inner.len() && inner[m] == i;
        assert(out[m] == i);
    }
}

/// Putting a new, later item in its place keeps the ranking a ranking.
proof fn lemma_insert_ranked_order(order: Seq<int>, keys: Seq<int>, i: int)
    requires
        is_ranked(order, keys),
        forall|r: int| 0 <= r < order.len() ==> #[trigger] order[r] < i,
    ensures
        is_ranked(insert_ranked(order, keys, i), keys),
    decreases order.len(),
{
    let out = insert_ranked(order, keys, i);
    if order.len() == 0 {
    } else if keys[order.last()] >= keys[i] {
        assert forall|r: int, s: int| 0 <= r < s < out.len() implies keys[#[trigger] out[r]] > keys[#[trigger] out[s]]
            || (keys[out[r]] == keys[out[s]] && out[r] < out[s]) by {
            if s == order.len() {
                if r < order.len() - 1 {
                    assert(keys[order[r]] > keys[order[order.len() - 1]] || (keys[order[r]]
                        == keys[order[order.len() - 1]] && order[r] < order[order.len() - 1]));
                }
                assert(order[r] < i);
            } else {
                assert(keys[order[r]] > keys[order[s]] || (keys[order[r]] == keys[order[s]]
                    && order[r] < order[s]));
            }
        }
    } else {
        let init = order.drop_last();
        let inner = insert_ranked(init, keys, i);
        assert(is_ranked(init, keys)) by {
            assert forall|r: int, s: int| 0 <= r < s < init.len() implies keys[#[trigger] init[r]] > keys[#[trigger] init[s]]
                || (keys[init[r]] == keys[init[s]] && init[r] < init[s]) by {
                assert(keys[order[r]] > keys[order[s]] || (keys[order[r]] == keys[order[s]]
                    && order[r] < order[s]));
            }
        }
        assert forall|r: int| 0 <= r < init.len() implies #[trigger] init[r] < i by {
            assert(order[r] < i);
        }
        lemma_insert_ranked_order(init, keys, i);
        lemma_insert_ranked_members(init, keys, i);
        assert forall|r: int, s: int| 0 <= r < s < out.len() implies keys[#[trigger] out[r]] > keys[#[trigger] out[s]]
            || (keys[out[r]] == keys[out[s]] && out[r] < out[s]) by {
            if s == inner.len() {
                assert(inner.contains(inner[r]));
                if inner[r] != i {
                    let k = choose|k: int| 0 <= k < init.len() && init[k] == inner[r];
                    assert(keys[order[k]] > keys[order[order.len() - 1]] || (keys[order[k]]
                        == keys[order[order.len() - 1]] && order[k] < order[order.len() - 1]));
                }
            } else {
                assert(keys[inner[r]] > keys[inner[s]] || (keys[inner[r]] == keys[inner[s]]
                    && inner[r] < inner[s]));
            }
        }
    }
}

/// The ranking of the first `n` items holds each of them once, by falling
/// key, equal keys by rising position.
pub proof fn lemma_ranking_of_first(keys: Seq<int>, n: nat)
    requires
        n <= keys.len(),
    ensures
        is_permutation(ranking_of_first(keys, n), n),
        is_ranked(ranking_of_first(keys, n), keys),
    decreases n,
{
    if n > 0 {
        lemma_ranking_of_first(keys, (n - 1) as nat);
        lemma_insert_ranked(ranking_of_first(keys, (n - 1) as nat), keys, n - 1);
    }
}

/// The ranking holds each position once; an earlier place never has a lower
/// key than a later one, and of two places with equal keys the earlier holds
/// the lower position.
pub proof fn lemma_ranking(keys: Seq<int>)
    ensures
        is_permutation(ranking(keys), keys.len()),
        is_ranked(ranking(keys), keys),
{
    lemma_ranking_of_first(keys, keys.len());
}

/// Ranks the positions of `keys`: highest key first, equal keys in the order
/// they stand in.
pub fn rank_by_key(keys: &Vec<i128>) -> (order: Vec<usize>)
    ensures
        positions(order@) == ranking(key_values(keys@)),
        order@.len() == keys@.len(),
        forall|r: int| 0 <= r < order@.len() ==> #[trigger] order@[r] < keys@.len(),
{
    let ghost k = key_values(keys@);
    let mut order: Vec<usize> = Vec::new();
    assert(positions(order@) =~= ranking_of_first(k, 0));
    for n in 0..keys.len()
        invariant
            k == key_values(keys@),
            order@.len() == n,
            positions(order@) == ranking_of_first(k, n as nat),
            forall|r: int| 0 <= r < order@.len() ==> #[trigger] order@[r] < n,
    {
        let ghost ranked = positions(order@);
        let mut j: usize = order.len();
        proof {
            assert(ranked.take(j as int) == ranked);
            assert(ranked.skip(j as int) == Seq::<int>::empty());
        }
        while j > 0 && keys[order[j - 1]] < keys[n]
            invariant
                j <= order.len(),
                n < keys.len(),
                k == key_values(keys@),
                ranked == positions(order@),
                forall|r: int| 0 <= r < order@.len() ==> #[trigger] order@[r] < n,
                insert_ranked(ranked, k, n as int) == insert_ranked(
                    ranked.take(j as int),
                    k,
                    n as int,
                ) + ranked.skip(j as int),
            decreases j,
        {
            proof {
                let head = ranked.take(j as int);
                assert(head.last() == order@[j - 1]);
                assert(head.drop_last() == ranked.take(j - 1));
                assert(seq![head.last()] + ranked.skip(j as int) == ranked.skip(j - 1));
                assert(insert_ranked(ranked.take(j - 1), k, n as int).push(head.last())
                    + ranked.skip(j as int) == insert_ranked(ranked.take(j - 1), k, n as int)
                    + ranked.skip(j - 1));
            }
            j -= 1;
        }
        proof {
            let head = ranked.take(j as int);
            if j > 0 {
                assert(head.last() == order@[j - 1]);
            }
            assert(insert_ranked(head, k, n as int) == head.push(n as int));
        }
        order.insert(j, n);
        assert(positions(order@) =~= ranked.take(j as int).push(n as int) + ranked.skip(j as int));
    }
    order
}

} // verus!
