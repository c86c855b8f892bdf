//! The countable side of influence maps: how far threats reach, and ranks of
//! cells. What cells are worth is for others to say.

use crate::hex::{distance, Hex};
use crate::targets::all_in_range;
use vstd::prelude::*;

verus! {

// ---------------------------------------------------------------------------
// Reach
// ---------------------------------------------------------------------------

/// The reach of a unit's attacks, as far as danger goes: one at least, so that who
/// has no attack still makes its neighbours wary.
pub fn danger_range(max_attack_range: u32) -> (r: u32)
    ensures
        r == crate::hex::max(max_attack_range as int, 1),
{
    if max_attack_range < 1 {
        1
    } else {
        max_attack_range
    }
}

/// Distance from a cell to the nearest of some sources.
pub open spec fn source_distance(sources: Seq<Hex>, cell: Hex) -> Option<int>
    decreases sources.len(),
{
    if sources.len() == 0 {
        None
    } else {
        let d = distance(sources.last(), cell);
        match source_distance(sources.drop_last(), cell) {
            Some(best) if best <= d => Some(best),
            _ => Some(d),
        }
    }
}

/// How far a cell lies from the nearest source that covers it, if one does.
pub open spec fn cover_of(sources: Seq<Hex>, cell: Hex, range: u32) -> Option<int> {
    match source_distance(sources, cell) {
        Some(d) if d <= range => Some(d),
        _ => None,
    }
}

/// How far a cell lies from the nearest source that covers it, if one does.
pub fn cover_distance(sources: &Vec<Hex>, cell: Hex, range: u32) -> (r: Option<u32>)
    requires
        cell.in_range(),
        all_in_range(sources@),
    ensures
        match r {
            Some(d) => cover_of(sources@, cell, range) == Some(d as int),
            None => cover_of(sources@, cell, range) is None,
        },
{
    let mut best: Option<u32> = None;
    let mut i: usize = 0;
    assert(sources@.take(0) =~= Seq::empty());
    while i < sources.len()
        invariant
            i <= sources.len(),
            cell.in_range(),
            all_in_range(sources@),
            match best {
                Some(d) => source_distance(sources@.take(i as int), cell) == Some(d as int),
                None => source_distance(sources@.take(i as int), cell) is None,
            },
        decreases sources.len() - i,
    {
        assert(sources@.take(i + 1).drop_last() =~= sources@.take(i as int));
        assert(sources@[i as int].in_range());
        let d = sources[i].unsigned_distance_to(cell);
        let is_nearer = match best {
            Some(known) => d < known,
            None => true,
        };
        if is_nearer {
            best = Some(d);
        }
        i = i + 1;
    }
    assert(sources@.take(i as int) =~= sources@);
    match best {
        Some(d) => if d <= range {
            Some(d)
        } else {
            None
        },
        None => None,
    }
}

// ---------------------------------------------------------------------------
// Ranks
// ---------------------------------------------------------------------------

/// How many different numbers of a list are less than another.
pub open spec fn lesser(list: Seq<i64>, v: i64) -> nat
    decreases list.len(),
{
    if list.len() == 0 {
        0
    } else {
        let rest = lesser(list.drop_last(), v);
        if list.last() < v && !list.drop_last().contains(list.last()) {
            rest + 1
        } else {
            rest
        }
    }
}

/// The rank of each number of a list: how many different ones are less.
pub open spec fn ranks_of(list: Seq<i64>) -> Seq<nat> {
    Seq::new(list.len(), |i: int| lesser(list, list[i]))
}

fn count_lesser(list: &Vec<i64>, v: i64) -> (r: usize)
    ensures
        r == lesser(list@, v),
        r <= list@.len(),
{
    let mut r: usize = 0;
    let mut i: usize = 0;
    assert(list@.take(0) =~= Seq::empty());
    while i < list.len()
        invariant
            i <= list.len(),
            r <= i,
            r == lesser(list@.take(i as int), v),
        decreases list.len() - i,
    {
        assert(list@.take(i + 1).drop_last() =~= list@.take(i as int));
        let mut seen = false;
        let mut j: usize = 0;
        while j < i
            invariant
                j <= i < list.len(),
                seen == (exists|k: int| 0 <= k < j && (#[trigger] list@[k]) == list@[i as int]),
            decreases i - j,
        {
            if list[j] == list[i] {
                seen = true;
            }
            j = j + 1;
        }
        proof {
            let part = list@.take(i as int);
            if seen {
                let k = choose|k: int| 0 <= k < i && (#[trigger] list@[k]) == list@[i as int];
                assert(part[k] == list@[i as int]);
            }
            if part.contains(list@[i as int]) {
                let k = choose|k: int| 0 <= k < part.len() && part[k] == list@[i as int];
                assert(list@[k] == list@[i as int]);
            }
        }
        if !seen && list[i] < v {
            r = r + 1;
        }
        i = i + 1;
    }
    assert(list@.take(i as int) =~= list@);
    r
}

/// Ranks numbers from zero up. Equal numbers share a rank, and no rank is left out,
/// so that dividing by the highest spreads the ranks from nothing to all.
pub fn normalize_ranks(list: &Vec<i64>) -> (r: Vec<usize>)
    ensures
        r@.len() == list@.len(),
        forall|i: int| 0 <= i < r@.len() ==> (#[trigger] r@[i]) == ranks_of(list@)[i],
{
    let mut r: Vec<usize> = Vec::new();
    let mut i: usize = 0;
    while i < list.len()
        invariant
            i <= list.len(),
            r@.len() == i,
            forall|j: int| 0 <= j < i ==> (#[trigger] r@[j]) == ranks_of(list@)[j],
        decreases list.len() - i,
    {
        r.push(count_lesser(list, list[i]));
        i = i + 1;
    }
    r
}

// ---------------------------------------------------------------------------
// Laws
// ---------------------------------------------------------------------------

proof fn lesser_grows(list: Seq<i64>, v: i64, w: i64)
    requires
        v <= w,
    ensures
        lesser(list, v) <= lesser(list, w),
        list.contains(v) && v < w ==> lesser(list, v) < lesser(list, w),
    decreases list.len(),
{
    if list.len() > 0 {
        let rest = list.drop_last();
        lesser_grows(rest, v, w);
        if list.contains(v) && v < w && !rest.contains(v) {
            let i = choose|i: int| 0 <= i < list.len() && list[i] == v;
            if i < rest.len() {
                assert(rest[i] == v);
            }
            assert(list.last() == v);
        }
    }
}

/// A greater number has a greater rank, and equal numbers share one.
pub proof fn law_ranks_keep_order(list: Seq<i64>, i: int, j: int)
    requires
        0 <= i < list.len(),
        0 <= j < list.len(),
    ensures
        list[i] < list[j] <==> ranks_of(list)[i] < ranks_of(list)[j],
        list[i] == list[j] <==> ranks_of(list)[i] == ranks_of(list)[j],
{
    assert(list.contains(list[i]));
    assert(list.contains(list[j]));
    if list[i] < list[j] {
        lesser_grows(list, list[i], list[j]);
    } else if list[j] < list[i] {
        lesser_grows(list, list[j], list[i]);
    }
}

/// The least number has rank zero.
pub proof fn law_least_has_rank_zero(list: Seq<i64>, v: i64)
    requires
        forall|i: int| 0 <= i < list.len() ==> v <= (#[trigger] list[i]),
    ensures
        lesser(list, v) == 0,
    decreases list.len(),
{
    if list.len() > 0 {
        let rest = list.drop_last();
        assert forall|i: int| 0 <= i < rest.len() implies v <= (#[trigger] rest[i]) by {
            assert(rest[i] == list[i]);
        }
        law_least_has_rank_zero(rest, v);
        assert(v <= list[list.len() - 1]);
    }
}

proof fn lesser_steps(list: Seq<i64>, w: i64, v: i64)
    requires
        w < v,
        forall|i: int| 0 <= i < list.len() ==> !(w < (#[trigger] list[i]) < v),
    ensures
        lesser(list, v) == lesser(list, w) + (if list.contains(w) {
            1nat
        } else {
            0nat
        }),
    decreases list.len(),
{
    if list.len() > 0 {
        let rest = list.drop_last();
        assert forall|i: int| 0 <= i < rest.len() implies !(w < (#[trigger] rest[i]) < v) by {
            assert(rest[i] == list[i]);
        }
        lesser_steps(rest, w, v);
        let x = list[list.len() - 1];
        assert(!(w < x < v));
        if rest.contains(w) {
            let i = choose|i: int| 0 <= i < rest.len() && rest[i] == w;
            assert(list[i] == w);
        }
        if list.contains(w) && x != w {
            let i = choose|i: int| 0 <= i < list.len() && list[i] == w;
            assert(rest[i] == w);
        }
    }
}

proof fn greatest_below(list: Seq<i64>, v: i64) -> (r: Option<i64>)
    ensures
        match r {
            Some(w) => list.contains(w) && w < v && (forall|i: int|
                0 <= i < list.len() ==> !(w < (#[trigger] list[i]) < v)),
            None => forall|i: int| 0 <= i < list.len() ==> v <= (#[trigger] list[i]),
        },
    decreases list.len(),
{
    if list.len() == 0 {
        None
    } else {
        let rest = list.drop_last();
        let x = list[list.len() - 1];
        let before = greatest_below(rest, v);
        let r = if x < v && (before matches Some(w) ==> w < x) {
            Some(x)
        } else {
            before
        };
        assert forall|i: int| 0 <= i < list.len() - 1 implies list[i] == #[trigger] rest[i] by {}
        if let Some(w) = before {
            let i = choose|i: int| 0 <= i < rest.len() && rest[i] == w;
            assert(list[i] == w);
        }
        assert(list.contains(x));
        match r {
            Some(w) => {
                assert forall|i: int| 0 <= i < list.len() implies !(w < (#[trigger] list[i])
                    < v) by {
                    if i < rest.len() {
                        assert(list[i] == rest[i]);
                    }
                }
            },
            None => {
                assert forall|i: int| 0 <= i < list.len() implies v <= (#[trigger] list[i]) by {
                    if i < rest.len() {
                        assert(list[i] == rest[i]);
                    }
                }
            },
        }
        r
    }
}

/// No rank is left out: below a number of some rank other than zero stands one of
/// the rank before.
pub proof fn law_no_rank_is_left_out(list: Seq<i64>, i: int)
    requires
        0 <= i < list.len(),
        ranks_of(list)[i] > 0,
    ensures
        exists|j: int|
            0 <= j < list.len() && (#[trigger] ranks_of(list)[j]) + 1 == ranks_of(list)[i],
{
    match greatest_below(list, list[i]) {
        Some(w) => {
            lesser_steps(list, w, list[i]);
            let j = choose|j: int| 0 <= j < list.len() && list[j] == w;
            assert(ranks_of(list)[j] + 1 == ranks_of(list)[i]);
        },
        None => {
            law_least_has_rank_zero(list, list[i]);
        },
    }
}

/// A cell that a source covers is still covered with more sources and a longer
/// reach, and from no further away.
pub proof fn law_cover_grows(sources: Seq<Hex>, more: Hex, cell: Hex, range: u32, longer: u32)
    requires
        range <= longer,
        cover_of(sources, cell, range) is Some,
    ensures
        cover_of(sources.push(more), cell, longer) is Some,
        cover_of(sources.push(more), cell, longer)->0 <= cover_of(sources, cell, range)->0,
{
    assert(sources.push(more).drop_last() =~= sources);
}

/// A cell is covered at the distance of the nearest source, if and only if that source
/// is within reach.
pub proof fn law_cover_is_by_the_nearest(sources: Seq<Hex>, cell: Hex, range: u32)
    ensures
        cover_of(sources, cell, range) matches Some(d) ==> d <= range,
        cover_of(sources, cell, range) matches Some(d) ==> forall|i: int|
            0 <= i < sources.len() ==> d <= distance(#[trigger] sources[i], cell),
        cover_of(sources, cell, range) matches Some(d) ==> exists|i: int|
            0 <= i < sources.len() && distance(#[trigger] sources[i], cell) == d,
        cover_of(sources, cell, range) is None ==> forall|i: int|
            0 <= i < sources.len() ==> distance(#[trigger] sources[i], cell) > range,
{
    nearest_source(sources, cell);
}

proof fn nearest_source(sources: Seq<Hex>, cell: Hex)
    ensures
        source_distance(sources, cell) is None <==> sources.len() == 0,
        source_distance(sources, cell) matches Some(d) ==> forall|i: int|
            0 <= i < sources.len() ==> d <= distance(#[trigger] sources[i], cell),
        source_distance(sources, cell) matches Some(d) ==> exists|i: int|
            0 <= i < sources.len() && distance(#[trigger] sources[i], cell) == d,
    decreases sources.len(),
{
    if sources.len() > 0 {
        let part = sources.drop_last();
        nearest_source(part, cell);
        let n = sources.len() - 1;
        let d = source_distance(sources, cell)->0;
        assert forall|i: int| 0 <= i < sources.len() implies d <= distance(
            #[trigger] sources[i],
            cell,
        ) by {
            if i < n {
                assert(part[i] == sources[i]);
            }
        }
        match source_distance(part, cell) {
            Some(best) if best <= distance(sources[n], cell) => {
                let i = choose|i: int|
                    0 <= i < part.len() && distance(#[trigger] part[i], cell) == best;
                assert(sources[i] == part[i]);
            },
            _ => {
                assert(distance(sources[n], cell) == d);
            },
        }
    }
}

} // verus!
