//! Putting things in order by two numbers: the larger first number comes first,
//! then the smaller second number, then what came first before.

use vstd::prelude::*;

verus! {

/// What a thing is ordered by.
#[derive(Clone, Copy, PartialEq, Eq, Structural, Debug)]
pub struct SortKey {
    /// More comes first.
    pub value: i128,
    /// Less comes first, among equal values.
    pub cost: i128,
}

/// Whether thing `i` comes before thing `j`.
pub open spec fn precedes(keys: Seq<SortKey>, i: int, j: int) -> bool {
    ||| keys[i].value > keys[j].value
    ||| keys[i].value == keys[j].value && keys[i].cost < keys[j].cost
    ||| keys[i] == keys[j] && i < j
}

/// Whether a list names all things by their places, in order.
pub open spec fn is_ranking(r: Seq<usize>, keys: Seq<SortKey>) -> bool {
    &&& r.len() == keys.len()
    &&& forall|a: int| 0 <= a < r.len() ==> (#[trigger] r[a]) < keys.len()
    &&& forall|a: int, b: int|
        0 <= a < b < r.len() ==> precedes(
            keys,
            (#[trigger] r[a]) as int,
            (#[trigger] r[b]) as int,
        )
    &&& forall|i: usize| i < keys.len() ==> #[trigger] r.contains(i)
}

/// The places of all things, in order.
pub open spec fn ranking(keys: Seq<SortKey>) -> Seq<usize> {
    choose|r: Seq<usize>| is_ranking(r, keys)
}

/// There is but one order.
pub proof fn law_ranking_is_unique(r: Seq<usize>, keys: Seq<SortKey>)
    requires
        is_ranking(r, keys),
    ensures
        ranking(keys) == r,
{
    let s = ranking(keys);
    assert(is_ranking(s, keys));
    same_up_to(r, s, keys, keys.len());
    assert(s =~= r);
}

proof fn same_up_to(r: Seq<usize>, s: Seq<usize>, keys: Seq<SortKey>, n: nat)
    requires
        is_ranking(r, keys),
        is_ranking(s, keys),
        n <= keys.len(),
    ensures
        forall|k: int| 0 <= k < n ==> (#[trigger] r[k]) == s[k],
    decreases n,
{
    if n > 0 {
        let k = n - 1;
        same_up_to(r, s, keys, k as nat);
        if r[k] != s[k] {
            assert(r.contains(s[k]));
            assert(s.contains(r[k]));
            let p = choose|p: int| 0 <= p < r.len() && r[p] == s[k];
            let q = choose|q: int| 0 <= q < s.len() && s[q] == r[k];
            if p < k {
                assert(r[p] == s[p]);
                assert(precedes(keys, s[p] as int, s[k] as int));
            }
            if q < k {
                assert(r[q] == s[q]);
                assert(precedes(keys, r[q] as int, r[k] as int));
            }
            assert(precedes(keys, r[k] as int, r[p] as int));
            assert(precedes(keys, s[k] as int, s[q] as int));
        }
    }
}

/// Whether place `p` of an order is where one more thing belongs.
spec fn belongs_at(order: Seq<usize>, keys: Seq<SortKey>, i: int, p: int) -> bool {
    &&& 0 <= p <= order.len()
    &&& forall|a: int| 0 <= a < p ==> precedes(keys, (#[trigger] order[a]) as int, i)
    &&& forall|a: int| p <= a < order.len() ==> precedes(keys, i, (#[trigger] order[a]) as int)
}

/// One more thing, put where it belongs, leaves an order of all of them.
proof fn one_more(order: Seq<usize>, keys: Seq<SortKey>, p: int)
    requires
        0 < keys.len() <= usize::MAX + 1,
        is_ranking(order, keys.drop_last()),
        belongs_at(order, keys, keys.len() - 1, p),
    ensures
        is_ranking(order.insert(p, (keys.len() - 1) as usize), keys),
{
    let part = keys.drop_last();
    let i = (keys.len() - 1) as usize;
    let after = order.insert(p, i);
    assert forall|a: int| 0 <= a < after.len() implies (#[trigger] after[a]) < keys.len() by {
        if a < p {
            assert(after[a] == order[a]);
        } else if a > p {
            assert(after[a] == order[a - 1]);
        }
    }
    assert forall|a: int, b: int| 0 <= a < b < after.len() implies precedes(
        keys,
        (#[trigger] after[a]) as int,
        (#[trigger] after[b]) as int,
    ) by {
        let x = if a < p {
            a
        } else {
            a - 1
        };
        let y = if b < p {
            b
        } else {
            b - 1
        };
        if a == p {
            assert(after[b] == order[y]);
        } else if b == p {
            assert(after[a] == order[x]);
        } else {
            assert(after[a] == order[x]);
            assert(after[b] == order[y]);
            assert(order[x] < part.len());
            assert(order[y] < part.len());
            assert(precedes(part, order[x] as int, order[y] as int));
        }
    }
    assert forall|j: usize| j < keys.len() implies #[trigger] after.contains(j) by {
        if j == i {
            assert(after[p] == i);
        } else {
            assert(order.contains(j));
            let k = choose|k: int| 0 <= k < order.len() && order[k] == j;
            if k < p {
                assert(after[k] == j);
            } else {
                assert(after[k + 1] == j);
            }
        }
    }
}

/// What comes before one thing of an order comes before all that follow it.
proof fn rest_follows(order: Seq<usize>, keys: Seq<SortKey>, p: int, a: int)
    requires
        keys.len() > 0,
        is_ranking(order, keys.drop_last()),
        0 <= p <= a < order.len(),
        precedes(keys, keys.len() - 1, order[p] as int),
    ensures
        precedes(keys, keys.len() - 1, order[a] as int),
{
    let part = keys.drop_last();
    assert(order[p] < part.len());
    assert(order[a] < part.len());
    if a > p {
        assert(precedes(part, order[p] as int, order[a] as int));
    }
}

/// Where one more thing belongs among the first `n` of an order.
proof fn place_among(order: Seq<usize>, keys: Seq<SortKey>, n: int) -> (p: int)
    requires
        keys.len() > 0,
        is_ranking(order, keys.drop_last()),
        0 <= n <= order.len(),
    ensures
        belongs_at(order.take(n), keys, keys.len() - 1, p),
    decreases n,
{
    let i = keys.len() - 1;
    if n == 0 {
        0
    } else {
        let p = place_among(order, keys, n - 1);
        let less = order.take(n - 1);
        let more = order.take(n);
        assert forall|a: int| 0 <= a < n - 1 implies more[a] == #[trigger] less[a] by {
        }
        assert(more[n - 1] == order[n - 1]);
        assert(order[n - 1] < i);
        if p < n - 1 {
            assert(less[p] == order[p]);
            rest_follows(order, keys, p, n - 1);
        }
        let q = if p == n - 1 && !precedes(keys, i, order[n - 1] as int) {
            n
        } else {
            p
        };
        assert forall|a: int| 0 <= a < q implies precedes(
            keys,
            (#[trigger] more[a]) as int,
            i,
        ) by {
            if a < n - 1 {
                assert(more[a] == less[a]);
            }
        }
        assert forall|a: int| q <= a < more.len() implies precedes(
            keys,
            i,
            (#[trigger] more[a]) as int,
        ) by {
            if a < n - 1 {
                assert(more[a] == less[a]);
            }
        }
        q
    }
}

/// There is an order, however things compare.
pub proof fn law_there_is_a_ranking(keys: Seq<SortKey>)
    requires
        keys.len() <= usize::MAX,
    ensures
        is_ranking(ranking(keys), keys),
    decreases keys.len(),
{
    if keys.len() == 0 {
        assert(is_ranking(Seq::empty(), keys));
    } else {
        let part = keys.drop_last();
        law_there_is_a_ranking(part);
        let order = ranking(part);
        let p = place_among(order, keys, order.len() as int);
        assert(order.take(order.len() as int) =~= order);
        one_more(order, keys, p);
        assert(is_ranking(order.insert(p, (keys.len() - 1) as usize), keys));
    }
}

/// Puts things in order: the result names them by their places.
pub fn rank_by(keys: &Vec<SortKey>) -> (r: Vec<usize>)
    ensures
        r@ == ranking(keys@),
        is_ranking(r@, keys@),
{
    let mut r: Vec<usize> = Vec::new();
    let mut i: usize = 0;
    while i < keys.len()
        invariant
            i <= keys@.len(),
            is_ranking(r@, keys@.take(i as int)),
        decreases keys.len() - i,
    {
        let ghost next = keys@.take(i + 1);
        assert(next.drop_last() =~= keys@.take(i as int));
        let mut p: usize = 0;
        while p < r.len() && !(keys[i].value > keys[r[p]].value || (keys[i].value
            == keys[r[p]].value && keys[i].cost < keys[r[p]].cost))
            invariant
                i < keys@.len(),
                p <= r@.len(),
                next == keys@.take(i + 1),
                is_ranking(r@, next.drop_last()),
                forall|a: int| 0 <= a < r@.len() ==> (#[trigger] r@[a]) < i,
                forall|a: int| 0 <= a < p ==> precedes(next, (#[trigger] r@[a]) as int, i as int),
            decreases r.len() - p,
        {
            p = p + 1;
        }
        proof {
            assert forall|a: int| p <= a < r@.len() implies precedes(
                next,
                i as int,
                (#[trigger] r@[a]) as int,
            ) by {
                assert(r@[p as int] < i);
                rest_follows(r@, next, p as int, a);
            }
            one_more(r@, next, p as int);
        }
        r.insert(p, i);
        i = i + 1;
    }
    proof {
        assert(keys@.take(i as int) =~= keys@);
        law_ranking_is_unique(r@, keys@);
    }
    r
}

/// Nothing that is left out of the first places comes before what is in them.
pub proof fn law_first_places_are_best(keys: Seq<SortKey>, n: int, a: int, b: int)
    requires
        keys.len() <= usize::MAX,
        0 <= a < n <= b < keys.len(),
    ensures
        precedes(keys, ranking(keys)[a] as int, ranking(keys)[b] as int),
        !precedes(keys, ranking(keys)[b] as int, ranking(keys)[a] as int),
{
    law_there_is_a_ranking(keys);
    let r = ranking(keys);
    assert(precedes(keys, r[a] as int, r[b] as int));
}

/// More value comes first; with the same value less cost does; and what is equal stays in the
/// order in which it was.
pub proof fn law_what_comes_first(keys: Seq<SortKey>, i: int, j: int)
    ensures
        keys[i].value > keys[j].value ==> precedes(keys, i, j) && !precedes(keys, j, i),
        keys[i].value == keys[j].value && keys[i].cost < keys[j].cost ==> precedes(keys, i, j)
            && !precedes(keys, j, i),
        keys[i].value == keys[j].value && keys[i].cost == keys[j].cost ==> (precedes(keys, i, j)
            <==> i < j),
{
}

/// A ranking holds every place once.
pub proof fn law_ranking_is_complete(keys: Seq<SortKey>, i: usize, a: int, b: int)
    requires
        keys.len() <= usize::MAX,
        i < keys.len(),
    ensures
        ranking(keys).len() == keys.len(),
        ranking(keys).contains(i),
        0 <= a < b < keys.len() ==> ranking(keys)[a] != ranking(keys)[b],
{
    law_there_is_a_ranking(keys);
    let r = ranking(keys);
    if 0 <= a < b < keys.len() {
        assert(precedes(keys, r[a] as int, r[b] as int));
    }
}

} // verus!
