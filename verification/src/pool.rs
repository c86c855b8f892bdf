//! The pool of candidates that a unit of the AI chooses from.

use crate::candidates::{
    candidate_models, cell_score, copy_cells, diverse_set, enemy_cells, score_keys, score_of,
    select_diverse_tiles, tiles_fit, way_to, ActionCandidate, ActiveUnit, CandidateKind, CandidateModel,
    CellScore, EnemySpot, Field, PathTo, Reach,
};
use crate::content::ContentView;
use crate::hex::Hex;
use crate::ids::Entity;
use crate::positions::Standing;
use crate::ranking::{
    is_ranking, law_there_is_a_ranking, precedes, rank_by, ranking, SortKey,
};
use crate::snapshot::{can_pay, pays};
use crate::targets::{aim_cells, aim_fits, listing, target_cells};
use crate::text::same_text;
use vstd::prelude::*;

verus! {

// ---------------------------------------------------------------------------
// Casts
// ---------------------------------------------------------------------------

/// The first who stands on a cell.
pub open spec fn first_standing(standing: Seq<Standing>, cell: Hex) -> Option<Entity>
    decreases standing.len(),
{
    if standing.len() == 0 {
        None
    } else if standing[0].hex == cell {
        Some(standing[0].entity)
    } else {
        first_standing(standing.drop_first(), cell)
    }
}

/// Whom a cast on a cell is meant for: the living unit there, else the caster.
pub open spec fn target_on(cell: Hex, unit: ActiveUnit, field: Field) -> Entity {
    match first_standing(field.standing@, cell) {
        Some(e) if field.living@.contains(e) => e,
        _ => unit.entity,
    }
}

fn find_target_on(cell: Hex, unit: &ActiveUnit, field: &Field) -> (r: Entity)
    ensures
        r == target_on(cell, *unit, *field),
{
    let mut i: usize = 0;
    assert(field.standing@.skip(0) =~= field.standing@);
    while i < field.standing.len()
        invariant
            i <= field.standing.len(),
            first_standing(field.standing@, cell) == first_standing(
                field.standing@.skip(i as int),
                cell,
            ),
        decreases field.standing.len() - i,
    {
        assert(field.standing@.skip(i as int).drop_first() =~= field.standing@.skip(i + 1));
        if field.standing[i].hex == cell {
            let e = field.standing[i].entity;
            let mut j: usize = 0;
            while j < field.living.len()
                invariant
                    j <= field.living.len(),
                    first_standing(field.standing@, cell) == Some(e),
                    forall|k: int| 0 <= k < j ==> (#[trigger] field.living@[k]) != e,
                decreases field.living.len() - j,
            {
                if field.living[j] == e {
                    assert(field.living@[j as int] == e);
                    return e;
                }
                j = j + 1;
            }
            return unit.entity;
        }
        i = i + 1;
    }
    unit.entity
}

/// Casts of an ability on some cells.
pub open spec fn casts_on(
    tile: Hex,
    path: Seq<Hex>,
    id: String,
    cells: Seq<Hex>,
    unit: ActiveUnit,
    field: Field,
) -> Seq<CandidateModel> {
    Seq::new(
        cells.len(),
        |i: int|
            CandidateModel {
                tile,
                path,
                kind: CandidateKind::Cast {
                    ability: id,
                    target_pos: cells[i],
                    target: Some(target_on(cells[i], unit, field)),
                },
            },
    )
}

/// Casts of an ability from a cell: on all cells that it can be aimed at from
/// there, where the unit can act and can pay for it.
pub open spec fn ability_casts(
    tile: Hex,
    path: Seq<Hex>,
    id: String,
    unit: ActiveUnit,
    field: Field,
    content: ContentView,
) -> Seq<CandidateModel> {
    match content.ability(id@) {
        Some(d) if unit.can_act && pays(
            d.costs@,
            unit.hp,
            unit.mana,
            unit.rage,
            unit.energy,
        ) => casts_on(
            tile,
            path,
            id,
            target_cells(d, tile, enemy_cells(field.enemies@), field.allies@, field.board),
            unit,
            field,
        ),
        _ => Seq::empty(),
    }
}

/// Casts of the first `n` abilities from a cell.
pub open spec fn tile_casts(
    tile: Hex,
    path: Seq<Hex>,
    unit: ActiveUnit,
    field: Field,
    content: ContentView,
    n: nat,
) -> Seq<CandidateModel>
    decreases n,
{
    if n == 0 {
        Seq::empty()
    } else {
        tile_casts(tile, path, unit, field, content, (n - 1) as nat) + ability_casts(
            tile,
            path,
            unit.abilities@[n - 1],
            unit,
            field,
            content,
        )
    }
}

/// The way to a cell that a unit could act from; none where it cannot go there.
pub open spec fn route(tile: Hex, unit: ActiveUnit, reach: Reach) -> Option<Seq<Hex>> {
    let path = if tile == unit.pos {
        Some(Seq::empty())
    } else {
        way_to(reach.paths@, tile)
    };
    match path {
        Some(p) if p.len() == 0 || unit.can_move => Some(p),
        _ => None,
    }
}

/// Casts from the first `n` cells.
pub open spec fn all_casts(
    tiles: Seq<Hex>,
    unit: ActiveUnit,
    field: Field,
    reach: Reach,
    content: ContentView,
    n: nat,
) -> Seq<CandidateModel>
    decreases n,
{
    if n == 0 {
        Seq::empty()
    } else {
        let rest = all_casts(tiles, unit, field, reach, content, (n - 1) as nat);
        match route(tiles[n - 1], unit, reach) {
            Some(path) => rest + tile_casts(
                tiles[n - 1],
                path,
                unit,
                field,
                content,
                unit.abilities@.len(),
            ),
            None => rest,
        }
    }
}

/// Whether the casts of an ability from a cell can be told; there are none where the
/// unit cannot act or cannot pay for it.
pub open spec fn casts_fit(
    tile: Hex,
    id: String,
    unit: ActiveUnit,
    field: Field,
    content: ContentView,
) -> bool {
    match content.ability(id@) {
        Some(d) if unit.can_act && pays(
            d.costs@,
            unit.hp,
            unit.mana,
            unit.rage,
            unit.energy,
        ) => aim_fits(d, tile, enemy_cells(field.enemies@), field.allies@, field.board),
        _ => true,
    }
}

/// Whether the pool of a unit can be told: the cells worth acting from, and the casts
/// from each cell that the unit can get to.
pub open spec fn pool_fits(
    unit: ActiveUnit,
    field: Field,
    reach: Reach,
    content: ContentView,
) -> bool {
    &&& tiles_fit(unit, field, reach, content)
    &&& forall|tile: Hex, i: int|
        (tile == unit.pos || reach.destinations@.contains(tile)) && route(tile, unit, reach) is Some
            && 0 <= i < unit.abilities@.len() ==> #[trigger] casts_fit(
            tile,
            unit.abilities@[i],
            unit,
            field,
            content,
        )
}

fn push_ability_casts(
    tile: Hex,
    path: &Vec<Hex>,
    id: &String,
    unit: &ActiveUnit,
    field: &Field,
    enemies: &Vec<Hex>,
    content: &ContentView,
    out: &mut Vec<ActionCandidate>,
)
    requires
        enemies@ == enemy_cells(field.enemies@),
        casts_fit(tile, *id, *unit, *field, *content),
    ensures
        candidate_models(final(out)@) == candidate_models(old(out)@) + ability_casts(
            tile,
            path@,
            *id,
            *unit,
            *field,
            *content,
        ),
{
    let ghost before = candidate_models(out@);
    if let Some(d) = content.ability_def(id) {
        if unit.can_act && can_pay(&d.costs, unit.hp, unit.mana, unit.rage, unit.energy) {
            let cells = aim_cells(d, tile, enemies, &field.allies, &field.board);
            let ghost casts = casts_on(tile, path@, *id, cells@, *unit, *field);
            let mut i: usize = 0;
            assert(candidate_models(out@) =~= before + casts.take(0));
            while i < cells.len()
                invariant
                    i <= cells.len(),
                    casts == casts_on(tile, path@, *id, cells@, *unit, *field),
                    candidate_models(out@) == before + casts.take(i as int),
                decreases cells.len() - i,
            {
                let ghost so_far = candidate_models(out@);
                let target = find_target_on(cells[i], unit, field);
                let c = ActionCandidate {
                    tile,
                    path: copy_cells(path),
                    kind: CandidateKind::Cast {
                        ability: id.clone(),
                        target_pos: cells[i],
                        target: Some(target),
                    },
                };
                let ghost m = c@;
                assert(m == casts[i as int]);
                out.push(c);
                assert(candidate_models(out@) =~= so_far.push(m));
                assert(so_far.push(m) =~= before + casts.take(i + 1));
                i = i + 1;
            }
            assert(casts.take(i as int) =~= casts);
            return ;
        }
    }
    assert(candidate_models(out@) =~= before + Seq::<CandidateModel>::empty());
}

fn push_tile_casts(
    tile: Hex,
    path: &Vec<Hex>,
    unit: &ActiveUnit,
    field: &Field,
    enemies: &Vec<Hex>,
    content: &ContentView,
    out: &mut Vec<ActionCandidate>,
)
    requires
        enemies@ == enemy_cells(field.enemies@),
        forall|i: int|
            0 <= i < unit.abilities@.len() ==> #[trigger] casts_fit(
                tile,
                unit.abilities@[i],
                *unit,
                *field,
                *content,
            ),
    ensures
        candidate_models(final(out)@) == candidate_models(old(out)@) + tile_casts(
            tile,
            path@,
            *unit,
            *field,
            *content,
            unit.abilities@.len(),
        ),
{
    let ghost before = candidate_models(out@);
    let mut n: usize = 0;
    assert(candidate_models(out@) =~= before + Seq::<CandidateModel>::empty());
    while n < unit.abilities.len()
        invariant
            n <= unit.abilities.len(),
            enemies@ == enemy_cells(field.enemies@),
            forall|i: int|
                0 <= i < unit.abilities@.len() ==> #[trigger] casts_fit(
                    tile,
                    unit.abilities@[i],
                    *unit,
                    *field,
                    *content,
                ),
            candidate_models(out@) == before + tile_casts(
                tile,
                path@,
                *unit,
                *field,
                *content,
                n as nat,
            ),
        decreases unit.abilities.len() - n,
    {
        assert(casts_fit(tile, unit.abilities@[n as int], *unit, *field, *content));
        push_ability_casts(
            tile,
            path,
            &unit.abilities[n],
            unit,
            field,
            enemies,
            content,
            out,
        );
        assert(candidate_models(out@) =~= before + tile_casts(
            tile,
            path@,
            *unit,
            *field,
            *content,
            (n + 1) as nat,
        ));
        n = n + 1;
    }
}

// ---------------------------------------------------------------------------
// Retreats
// ---------------------------------------------------------------------------

/// The cells of a list but for one, in order.
pub open spec fn others(cells: Seq<Hex>, but: Hex) -> Seq<Hex>
    decreases cells.len(),
{
    if cells.len() == 0 {
        Seq::empty()
    } else if cells.last() == but {
        others(cells.drop_last(), but)
    } else {
        others(cells.drop_last(), but).push(cells.last())
    }
}

/// Plain moves to the best `n` of some cells to escape to.
pub open spec fn retreats(
    cells: Seq<Hex>,
    escape: Seq<CellScore>,
    paths: Seq<PathTo>,
    n: nat,
) -> Seq<CandidateModel>
    decreases n,
{
    if n == 0 {
        Seq::empty()
    } else {
        let rest = retreats(cells, escape, paths, (n - 1) as nat);
        let tile = cells[ranking(score_keys(cells, escape))[n - 1] as int];
        match way_to(paths, tile) {
            Some(path) if path.len() > 0 => rest.push(
                CandidateModel { tile, path, kind: CandidateKind::MoveOnly },
            ),
            _ => rest,
        }
    }
}

/// How many plain moves are considered.
pub const RETREATS: usize = 3;

/// How many of some cells are considered for plain moves.
pub open spec fn retreat_count(cells: Seq<Hex>) -> nat {
    if cells.len() < RETREATS {
        cells.len()
    } else {
        RETREATS as nat
    }
}

/// Adds plain moves to the best cells to escape to.
pub fn add_move_only_candidates(
    actor_pos: Hex,
    reach: &Reach,
    escape: &Vec<CellScore>,
    out: &mut Vec<ActionCandidate>,
)
    ensures
        ({
            let cells = others(reach.destinations@, actor_pos);
            candidate_models(final(out)@) == candidate_models(old(out)@) + retreats(
                cells,
                escape@,
                reach.paths@,
                retreat_count(cells),
            )
        }),
{
    let ghost before = candidate_models(out@);
    let mut cells: Vec<Hex> = Vec::new();
    let mut keys: Vec<SortKey> = Vec::new();
    let mut i: usize = 0;
    assert(reach.destinations@.take(0) =~= Seq::empty());
    assert(keys@ =~= score_keys(cells@, escape@));
    while i < reach.destinations.len()
        invariant
            i <= reach.destinations.len(),
            cells@ == others(reach.destinations@.take(i as int), actor_pos),
            keys@ == score_keys(cells@, escape@),
        decreases reach.destinations.len() - i,
    {
        assert(reach.destinations@.take(i + 1).drop_last() =~= reach.destinations@.take(
            i as int,
        ));
        let h = reach.destinations[i];
        if h != actor_pos {
            cells.push(h);
            keys.push(SortKey { value: cell_score(escape, h) as i128, cost: 0 });
            assert(keys@ =~= score_keys(cells@, escape@));
        }
        i = i + 1;
    }
    assert(reach.destinations@.take(i as int) =~= reach.destinations@);
    let order = rank_by(&keys);
    let mut n: usize = 0;
    assert(candidate_models(out@) =~= before + Seq::<CandidateModel>::empty());
    while n < RETREATS && n < order.len()
        invariant
            n <= RETREATS,
            n <= order@.len(),
            order@ == ranking(score_keys(cells@, escape@)),
            is_ranking(order@, keys@),
            keys@.len() == cells@.len(),
            candidate_models(out@) == before + retreats(
                cells@,
                escape@,
                reach.paths@,
                n as nat,
            ),
        decreases order.len() - n,
    {
        assert(order@[n as int] < keys@.len());
        let tile = cells[order[n]];
        let ghost so_far = candidate_models(out@);
        if let Some(path) = reach.path_to(tile) {
            if path.len() > 0 {
                let c = ActionCandidate { tile, path, kind: CandidateKind::MoveOnly };
                let ghost m = c@;
                out.push(c);
                assert(candidate_models(out@) =~= so_far.push(m));
            }
        }
        assert(candidate_models(out@) =~= before + retreats(
            cells@,
            escape@,
            reach.paths@,
            (n + 1) as nat,
        ));
        n = n + 1;
    }
}

// ---------------------------------------------------------------------------
// Order, repetition and budget
// ---------------------------------------------------------------------------

/// Candidates in an order of their places.
pub open spec fn arranged(list: Seq<CandidateModel>, order: Seq<usize>) -> Seq<CandidateModel> {
    Seq::new(order.len(), |i: int| list[order[i] as int])
}

fn arrange(list: &Vec<ActionCandidate>, order: &Vec<usize>) -> (r: Vec<ActionCandidate>)
    requires
        forall|a: int| 0 <= a < order@.len() ==> (#[trigger] order@[a]) < list@.len(),
    ensures
        candidate_models(r@) == arranged(candidate_models(list@), order@),
{
    let ghost m = candidate_models(list@);
    let mut r: Vec<ActionCandidate> = Vec::new();
    let mut i: usize = 0;
    while i < order.len()
        invariant
            i <= order.len(),
            m == candidate_models(list@),
            forall|a: int| 0 <= a < order@.len() ==> (#[trigger] order@[a]) < list@.len(),
            candidate_models(r@) == arranged(m, order@).take(i as int),
        decreases order.len() - i,
    {
        let ghost before = candidate_models(r@);
        assert(order@[i as int] < list@.len());
        let c = list[order[i]].copied();
        let ghost model = c@;
        r.push(c);
        assert(candidate_models(r@) =~= before.push(model));
        assert(candidate_models(r@) =~= arranged(m, order@).take(i + 1));
        i = i + 1;
    }
    assert(arranged(m, order@).take(i as int) =~= arranged(m, order@));
    r
}

/// Candidates ordered by the length of their paths, short ones first.
pub open spec fn path_keys(list: Seq<CandidateModel>) -> Seq<SortKey> {
    Seq::new(list.len(), |i: int| SortKey { value: 0, cost: list[i].path.len() as i128 })
}

/// How much the target of a candidate is wanted; nothing for who is no enemy.
pub open spec fn wanted(c: CandidateModel, enemies: Seq<EnemySpot>) -> i64 {
    match c.target() {
        Some(t) => priority_of(t, enemies),
        None => 0,
    }
}

/// How much an enemy is wanted; nothing for who is no enemy.
pub open spec fn priority_of(t: Entity, enemies: Seq<EnemySpot>) -> i64
    decreases enemies.len(),
{
    if enemies.len() == 0 {
        0
    } else if enemies[0].entity == t {
        enemies[0].priority
    } else {
        priority_of(t, enemies.drop_first())
    }
}

fn find_priority(t: Entity, enemies: &Vec<EnemySpot>) -> (r: i64)
    ensures
        r == priority_of(t, enemies@),
{
    let mut i: usize = 0;
    assert(enemies@.skip(0) =~= enemies@);
    while i < enemies.len()
        invariant
            i <= enemies.len(),
            priority_of(t, enemies@) == priority_of(t, enemies@.skip(i as int)),
        decreases enemies.len() - i,
    {
        assert(enemies@.skip(i as int).drop_first() =~= enemies@.skip(i + 1));
        if enemies[i].entity == t {
            return enemies[i].priority;
        }
        i = i + 1;
    }
    0
}

/// Candidates ordered by how much their targets are wanted, then by the length of
/// their paths.
pub open spec fn wanted_keys(list: Seq<CandidateModel>, enemies: Seq<EnemySpot>) -> Seq<SortKey> {
    Seq::new(
        list.len(),
        |i: int|
            SortKey {
                value: wanted(list[i], enemies) as i128,
                cost: list[i].path.len() as i128,
            },
    )
}

fn sort_by_path(list: &Vec<ActionCandidate>) -> (r: Vec<ActionCandidate>)
    ensures
        candidate_models(r@) == arranged(
            candidate_models(list@),
            ranking(path_keys(candidate_models(list@))),
        ),
{
    let ghost m = candidate_models(list@);
    let mut keys: Vec<SortKey> = Vec::new();
    let mut i: usize = 0;
    while i < list.len()
        invariant
            i <= list.len(),
            m == candidate_models(list@),
            keys@ == path_keys(m).take(i as int),
        decreases list.len() - i,
    {
        keys.push(SortKey { value: 0, cost: list[i].path.len() as i128 });
        assert(keys@ =~= path_keys(m).take(i + 1));
        i = i + 1;
    }
    assert(keys@ =~= path_keys(m));
    let order = rank_by(&keys);
    arrange(list, &order)
}

fn sort_by_wanted(list: &Vec<ActionCandidate>, enemies: &Vec<EnemySpot>) -> (r: Vec<
    ActionCandidate,
>)
    ensures
        candidate_models(r@) == arranged(
            candidate_models(list@),
            ranking(wanted_keys(candidate_models(list@), enemies@)),
        ),
{
    let ghost m = candidate_models(list@);
    let mut keys: Vec<SortKey> = Vec::new();
    let mut i: usize = 0;
    while i < list.len()
        invariant
            i <= list.len(),
            m == candidate_models(list@),
            keys@ == wanted_keys(m, enemies@).take(i as int),
        decreases list.len() - i,
    {
        let value: i64 = match list[i].target() {
            Some(t) => find_priority(t, enemies),
            None => 0,
        };
        keys.push(SortKey { value: value as i128, cost: list[i].path.len() as i128 });
        assert(keys@ =~= wanted_keys(m, enemies@).take(i + 1));
        i = i + 1;
    }
    assert(keys@ =~= wanted_keys(m, enemies@));
    let order = rank_by(&keys);
    arrange(list, &order)
}

/// Whether two candidates come to the same: the same ability on the same target,
/// or plain moves to the same cell.
pub open spec fn same_purpose(a: CandidateModel, b: CandidateModel) -> bool {
    match (a.kind, b.kind) {
        (
            CandidateKind::Cast { ability: x, target: t, .. },
            CandidateKind::Cast { ability: y, target: u, .. },
        ) => x@ == y@ && t == u,
        (CandidateKind::MoveOnly, CandidateKind::MoveOnly) => a.tile == b.tile,
        _ => false,
    }
}

fn is_same_purpose(a: &ActionCandidate, b: &ActionCandidate) -> (r: bool)
    ensures
        r == same_purpose(a@, b@),
{
    match (&a.kind, &b.kind) {
        (
            CandidateKind::Cast { ability: x, target: t, .. },
            CandidateKind::Cast { ability: y, target: u, .. },
        ) => {
            let same_target = match (*t, *u) {
                (Some(p), Some(q)) => p == q,
                (None, None) => true,
                _ => false,
            };
            same_target && same_text(x, y)
        },
        (CandidateKind::MoveOnly, CandidateKind::MoveOnly) => a.tile == b.tile,
        _ => false,
    }
}

/// Whether a candidate comes to the same as one of a list.
pub open spec fn repeats(list: Seq<CandidateModel>, c: CandidateModel) -> bool {
    exists|i: int| 0 <= i < list.len() && same_purpose(#[trigger] list[i], c)
}

/// The candidates of a list that do not come to the same as an earlier one.
pub open spec fn firsts(list: Seq<CandidateModel>) -> Seq<CandidateModel>
    decreases list.len(),
{
    if list.len() == 0 {
        Seq::empty()
    } else if repeats(list.drop_last(), list.last()) {
        firsts(list.drop_last())
    } else {
        firsts(list.drop_last()).push(list.last())
    }
}

fn keep_firsts(list: &Vec<ActionCandidate>) -> (r: Vec<ActionCandidate>)
    ensures
        candidate_models(r@) == firsts(candidate_models(list@)),
{
    let ghost m = candidate_models(list@);
    let mut r: Vec<ActionCandidate> = Vec::new();
    let mut i: usize = 0;
    assert(m.take(0) =~= Seq::empty());
    assert(candidate_models(r@) =~= Seq::empty());
    while i < list.len()
        invariant
            i <= list.len(),
            m == candidate_models(list@),
            candidate_models(r@) == firsts(m.take(i as int)),
        decreases list.len() - i,
    {
        assert(m.take(i + 1).drop_last() =~= m.take(i as int));
        let mut again = false;
        let mut j: usize = 0;
        while j < i
            invariant
                j <= i < list.len(),
                m == candidate_models(list@),
                again == (exists|k: int|
                    0 <= k < j && same_purpose(#[trigger] m[k], m[i as int])),
            decreases i - j,
        {
            if is_same_purpose(&list[j], &list[i]) {
                assert(same_purpose(m[j as int], m[i as int]));
                again = true;
            }
            j = j + 1;
        }
        proof {
            let part = m.take(i as int);
            if again {
                let k = choose|k: int| 0 <= k < i && same_purpose(#[trigger] m[k], m[i as int]);
                assert(same_purpose(part[k], m[i as int]));
            }
            if repeats(part, m[i as int]) {
                let k = choose|k: int|
                    0 <= k < part.len() && same_purpose(#[trigger] part[k], m[i as int]);
                assert(same_purpose(m[k], m[i as int]));
            }
        }
        if !again {
            let ghost before = candidate_models(r@);
            let c = list[i].copied();
            let ghost model = c@;
            r.push(c);
            assert(candidate_models(r@) =~= before.push(model));
        }
        i = i + 1;
    }
    assert(m.take(i as int) =~= m);
    r
}

/// Whether a candidate is the first of a list on its target.
pub open spec fn is_first_on_target(list: Seq<CandidateModel>, i: int) -> bool {
    &&& list[i].target() is Some
    &&& forall|j: int| 0 <= j < i ==> (#[trigger] list[j]).target() != list[i].target()
}

/// The places below `n` of candidates that are the first on their targets, or of
/// those that are not.
pub open spec fn places_below(list: Seq<CandidateModel>, first: bool, n: nat) -> Seq<usize>
    decreases n,
{
    if n == 0 {
        Seq::empty()
    } else {
        let rest = places_below(list, first, (n - 1) as nat);
        if is_first_on_target(list, n - 1) == first {
            rest.push((n - 1) as usize)
        } else {
            rest
        }
    }
}

/// No more than `budget` candidates: first one for each target, then others, each
/// in order.
pub open spec fn within_budget(list: Seq<CandidateModel>, budget: nat) -> Seq<CandidateModel> {
    if list.len() <= budget {
        list
    } else {
        arranged(
            list,
            (places_below(list, true, list.len()) + places_below(list, false, list.len())).take(
                budget as int,
            ),
        )
    }
}

fn same_target(a: Option<Entity>, b: Option<Entity>) -> (r: bool)
    ensures
        r == (a == b),
{
    match (a, b) {
        (Some(p), Some(q)) => p == q,
        (None, None) => true,
        _ => false,
    }
}

proof fn places_are_below(list: Seq<CandidateModel>, first: bool, n: nat)
    requires
        n <= usize::MAX,
    ensures
        forall|i: int|
            0 <= i < places_below(list, first, n).len() ==> (#[trigger] places_below(
                list,
                first,
                n,
            )[i]) < n,
    decreases n,
{
    if n > 0 {
        places_are_below(list, first, (n - 1) as nat);
        let rest = places_below(list, first, (n - 1) as nat);
        let all = places_below(list, first, n);
        assert forall|i: int| 0 <= i < all.len() implies (#[trigger] all[i]) < n by {
            if i < rest.len() {
                assert(all[i] == rest[i]);
            }
        }
    }
}

proof fn places_are_all(list: Seq<CandidateModel>, n: nat)
    ensures
        places_below(list, true, n).len() + places_below(list, false, n).len() == n,
    decreases n,
{
    if n > 0 {
        places_are_all(list, (n - 1) as nat);
    }
}

fn keep_within_budget(list: Vec<ActionCandidate>, budget: usize) -> (r: Vec<ActionCandidate>)
    ensures
        candidate_models(r@) == within_budget(candidate_models(list@), budget as nat),
{
    let ghost m = candidate_models(list@);
    if list.len() <= budget {
        return list;
    }
    let mut pinned: Vec<usize> = Vec::new();
    let mut rest: Vec<usize> = Vec::new();
    let mut i: usize = 0;
    while i < list.len()
        invariant
            i <= list.len(),
            m == candidate_models(list@),
            pinned@ == places_below(m, true, i as nat),
            rest@ == places_below(m, false, i as nat),
        decreases list.len() - i,
    {
        let t = list[i].target();
        let mut first = t.is_some();
        let mut j: usize = 0;
        while j < i
            invariant
                j <= i < list.len(),
                m == candidate_models(list@),
                t == m[i as int].target(),
                first == (t is Some && forall|k: int|
                    0 <= k < j ==> (#[trigger] m[k]).target() != t),
            decreases i - j,
        {
            if same_target(list[j].target(), t) {
                assert(m[j as int].target() == t);
                first = false;
            }
            j = j + 1;
        }
        assert(first == is_first_on_target(m, i as int));
        if first {
            pinned.push(i);
        } else {
            rest.push(i);
        }
        i = i + 1;
    }
    let ghost all = pinned@ + rest@;
    proof {
        places_are_below(m, true, m.len());
        places_are_below(m, false, m.len());
        places_are_all(m, m.len());
    }
    let mut order: Vec<usize> = Vec::new();
    let mut k: usize = 0;
    while k < budget
        invariant
            k <= budget < list@.len(),
            all == pinned@ + rest@,
            all.len() == list@.len(),
            forall|a: int| 0 <= a < pinned@.len() ==> (#[trigger] pinned@[a]) < list@.len(),
            forall|a: int| 0 <= a < rest@.len() ==> (#[trigger] rest@[a]) < list@.len(),
            order@ == all.take(k as int),
            forall|a: int| 0 <= a < order@.len() ==> (#[trigger] order@[a]) < list@.len(),
        decreases budget - k,
    {
        let p: usize = if k < pinned.len() {
            pinned[k]
        } else {
            rest[k - pinned.len()]
        };
        assert(p == all[k as int]);
        order.push(p);
        assert(order@ =~= all.take(k + 1));
        k = k + 1;
    }
    arrange(&list, &order)
}

// ---------------------------------------------------------------------------
// The pool
// ---------------------------------------------------------------------------

/// All casts and plain moves that a unit could make, before any are left out.
pub open spec fn everything(
    unit: ActiveUnit,
    field: Field,
    reach: Reach,
    content: ContentView,
) -> Seq<CandidateModel> {
    let tiles = listing(diverse_set(unit, field, reach, content));
    let casts = all_casts(tiles, unit, field, reach, content, tiles.len());
    let cells = others(reach.destinations@, unit.pos);
    if unit.can_move {
        casts + retreats(cells, field.escape@, reach.paths@, retreat_count(cells))
    } else {
        casts
    }
}

/// Candidates without those that come to the same as one with a shorter path.
pub open spec fn shortest_each(list: Seq<CandidateModel>) -> Seq<CandidateModel> {
    firsts(arranged(list, ranking(path_keys(list))))
}

/// The pool: of candidates that come to the same the one with the shortest path;
/// the most wanted targets first; and no more than the budget allows, with one for
/// each target before any other.
pub open spec fn pool(
    unit: ActiveUnit,
    field: Field,
    reach: Reach,
    content: ContentView,
    budget: nat,
) -> Seq<CandidateModel> {
    let list = shortest_each(everything(unit, field, reach, content));
    within_budget(arranged(list, ranking(wanted_keys(list, field.enemies@))), budget)
}

/// Makes the pool of candidates that a unit chooses from. The budget is one at
/// least.
pub fn generate_candidates(
    unit: &ActiveUnit,
    field: &Field,
    reach: &Reach,
    content: &ContentView,
    budget: usize,
) -> (r: Vec<ActionCandidate>)
    requires
        pool_fits(*unit, *field, *reach, *content),
    ensures
        candidate_models(r@) == pool(
            *unit,
            *field,
            *reach,
            *content,
            if budget == 0 {
                1
            } else {
                budget as nat
            },
        ),
{
    let tiles = select_diverse_tiles(unit, field, reach, content);
    let mut enemies: Vec<Hex> = Vec::new();
    let mut e: usize = 0;
    while e < field.enemies.len()
        invariant
            e <= field.enemies.len(),
            enemies@ == enemy_cells(field.enemies@).take(e as int),
        decreases field.enemies.len() - e,
    {
        enemies.push(field.enemies[e].pos);
        assert(enemies@ =~= enemy_cells(field.enemies@).take(e + 1));
        e = e + 1;
    }
    assert(enemies@ =~= enemy_cells(field.enemies@));
    let mut list: Vec<ActionCandidate> = Vec::new();
    let mut n: usize = 0;
    assert(candidate_models(list@) =~= Seq::empty());
    while n < tiles.len()
        invariant
            n <= tiles.len(),
            pool_fits(*unit, *field, *reach, *content),
            enemies@ == enemy_cells(field.enemies@),
            forall|i: int|
                0 <= i < tiles@.len() ==> (#[trigger] tiles@[i]) == unit.pos
                    || reach.destinations@.contains(tiles@[i]),
            candidate_models(list@) == all_casts(
                tiles@,
                *unit,
                *field,
                *reach,
                *content,
                n as nat,
            ),
        decreases tiles.len() - n,
    {
        let tile = tiles[n];
        assert(tiles@[n as int] == tile);
        let path: Option<Vec<Hex>> = if tile == unit.pos {
            Some(Vec::new())
        } else {
            reach.path_to(tile)
        };
        if let Some(p) = path {
            assert(tile == unit.pos ==> p@ =~= Seq::empty());
            if p.len() == 0 || unit.can_move {
                push_tile_casts(tile, &p, unit, field, &enemies, content, &mut list);
            }
        }
        n = n + 1;
    }
    if unit.can_move {
        add_move_only_candidates(unit.pos, reach, &field.escape, &mut list);
    }
    let sorted = sort_by_path(&list);
    let different = keep_firsts(&sorted);
    let ordered = sort_by_wanted(&different, &field.enemies);
    let limit: usize = if budget == 0 {
        1
    } else {
        budget
    };
    keep_within_budget(ordered, limit)
}

// ---------------------------------------------------------------------------
// Laws
// ---------------------------------------------------------------------------

/// The pool keeps to its budget.
pub proof fn law_pool_keeps_budget(list: Seq<CandidateModel>, budget: nat)
    ensures
        within_budget(list, budget).len() <= budget,
        list.len() >= budget ==> within_budget(list, budget).len() == budget,
{
    places_are_all(list, list.len());
}

proof fn firsts_are_listed(list: Seq<CandidateModel>, n: nat, t: Entity)
    requires
        n <= list.len(),
        n <= usize::MAX,
        exists|i: int| 0 <= i < n && (#[trigger] list[i]).target() == Some(t),
    ensures
        exists|a: int|
            0 <= a < places_below(list, true, n).len() && list[(#[trigger] places_below(
                list,
                true,
                n,
            )[a]) as int].target() == Some(t),
    decreases n,
{
    let all = places_below(list, true, n);
    let rest = places_below(list, true, (n - 1) as nat);
    if exists|i: int| 0 <= i < n - 1 && (#[trigger] list[i]).target() == Some(t) {
        firsts_are_listed(list, (n - 1) as nat, t);
        let a = choose|a: int|
            0 <= a < rest.len() && list[(#[trigger] rest[a]) as int].target() == Some(t);
        assert(all[a] == rest[a]);
    } else {
        assert(list[n - 1].target() == Some(t));
        assert(is_first_on_target(list, n - 1));
        assert(all[all.len() - 1] == (n - 1) as usize);
    }
}

/// Whoever is the target of some candidate is still one within a budget that has
/// room for a candidate on each target.
pub proof fn law_every_target_stays(list: Seq<CandidateModel>, budget: nat, t: Entity)
    requires
        list.len() <= usize::MAX,
        places_below(list, true, list.len()).len() <= budget,
        exists|i: int| 0 <= i < list.len() && (#[trigger] list[i]).target() == Some(t),
    ensures
        exists|k: int|
            0 <= k < within_budget(list, budget).len() && (#[trigger] within_budget(
                list,
                budget,
            )[k]).target() == Some(t),
{
    let kept = within_budget(list, budget);
    if list.len() <= budget {
        let i = choose|i: int| 0 <= i < list.len() && (#[trigger] list[i]).target() == Some(t);
        assert(kept[i].target() == Some(t));
    } else {
        let pinned = places_below(list, true, list.len());
        let rest = places_below(list, false, list.len());
        places_are_all(list, list.len());
        firsts_are_listed(list, list.len(), t);
        let a = choose|a: int|
            0 <= a < pinned.len() && list[(#[trigger] pinned[a]) as int].target() == Some(t);
        assert((pinned + rest).take(budget as int)[a] == pinned[a]);
        assert(kept[a] == list[pinned[a] as int]);
    }
}

/// No two candidates of the pool come to the same before it is cut to its budget.
pub proof fn law_firsts_differ(list: Seq<CandidateModel>, a: int, b: int)
    requires
        0 <= a < b < firsts(list).len(),
    ensures
        !same_purpose(firsts(list)[a], firsts(list)[b]),
    decreases list.len(),
{
    let rest = list.drop_last();
    let f = firsts(rest);
    if b < f.len() {
        law_firsts_differ(rest, a, b);
    } else {
        firsts_are_part(rest, a);
        let k = choose|k: int| 0 <= k < rest.len() && rest[k] == f[a];
        if same_purpose(f[a], list.last()) {
            assert(same_purpose(rest[k], list.last()));
        }
    }
}

proof fn firsts_are_part(list: Seq<CandidateModel>, a: int)
    requires
        0 <= a < firsts(list).len(),
    ensures
        list.contains(firsts(list)[a]),
    decreases list.len(),
{
    let rest = list.drop_last();
    let f = firsts(rest);
    if a < f.len() {
        firsts_are_part(rest, a);
        let k = choose|k: int| 0 <= k < rest.len() && rest[k] == f[a];
        assert(list[k] == f[a]);
    } else {
        assert(list[list.len() - 1] == list.last());
    }
}

/// Whether no two candidates of a list come to the same.
pub open spec fn all_differ(list: Seq<CandidateModel>) -> bool {
    forall|a: int, b: int|
        0 <= a < list.len() && 0 <= b < list.len() && a != b ==> !same_purpose(
            #[trigger] list[a],
            #[trigger] list[b],
        )
}

proof fn arranged_differ(list: Seq<CandidateModel>, order: Seq<usize>)
    requires
        all_differ(list),
        order.no_duplicates(),
        forall|a: int| 0 <= a < order.len() ==> (#[trigger] order[a]) < list.len(),
    ensures
        all_differ(arranged(list, order)),
{
    let r = arranged(list, order);
    assert forall|a: int, b: int|
        0 <= a < r.len() && 0 <= b < r.len() && a != b implies !same_purpose(
        #[trigger] r[a],
        #[trigger] r[b],
    ) by {
        assert(order[a] != order[b]);
        assert(order[a] < list.len() && order[b] < list.len());
    }
}

proof fn ranking_has_no_duplicates(keys: Seq<SortKey>)
    requires
        keys.len() <= usize::MAX,
    ensures
        is_ranking(ranking(keys), keys),
        ranking(keys).no_duplicates(),
{
    law_there_is_a_ranking(keys);
    let r = ranking(keys);
    assert forall|a: int, b: int| 0 <= a < r.len() && 0 <= b < r.len() && a != b implies r[a]
        != r[b] by {
        if a < b {
            assert(precedes(keys, r[a] as int, r[b] as int));
        } else {
            assert(precedes(keys, r[b] as int, r[a] as int));
        }
    }
}

proof fn firsts_are_fewer(list: Seq<CandidateModel>)
    ensures
        firsts(list).len() <= list.len(),
    decreases list.len(),
{
    if list.len() > 0 {
        firsts_are_fewer(list.drop_last());
    }
}

proof fn places_ascend(list: Seq<CandidateModel>, first: bool, n: nat)
    requires
        n <= usize::MAX,
    ensures
        places_below(list, first, n).no_duplicates(),
        forall|i: int|
            0 <= i < places_below(list, first, n).len() ==> is_first_on_target(
                list,
                (#[trigger] places_below(list, first, n)[i]) as int,
            ) == first,
    decreases n,
{
    if n > 0 {
        places_ascend(list, first, (n - 1) as nat);
        places_are_below(list, first, (n - 1) as nat);
        let rest = places_below(list, first, (n - 1) as nat);
        let all = places_below(list, first, n);
        assert forall|i: int, j: int|
            0 <= i < all.len() && 0 <= j < all.len() && i != j implies all[i] != all[j] by {
            if i < rest.len() {
                assert(all[i] == rest[i]);
            }
            if j < rest.len() {
                assert(all[j] == rest[j]);
            }
        }
        assert forall|i: int| 0 <= i < all.len() implies is_first_on_target(
            list,
            (#[trigger] all[i]) as int,
        ) == first by {
            if i < rest.len() {
                assert(all[i] == rest[i]);
            }
        }
    }
}

proof fn cut_differs(list: Seq<CandidateModel>, budget: nat)
    requires
        list.len() <= usize::MAX,
        all_differ(list),
    ensures
        all_differ(within_budget(list, budget)),
{
    if list.len() > budget {
        let n = list.len();
        let pinned = places_below(list, true, n);
        let rest = places_below(list, false, n);
        places_ascend(list, true, n);
        places_ascend(list, false, n);
        places_are_below(list, true, n);
        places_are_below(list, false, n);
        places_are_all(list, n);
        let all = pinned + rest;
        let order = all.take(budget as int);
        assert forall|i: int, j: int| 0 <= i < j < order.len() implies order[i] != order[j] by {
            if j < pinned.len() {
                assert(order[i] == pinned[i] && order[j] == pinned[j]);
            } else if i < pinned.len() {
                assert(order[i] == pinned[i] && order[j] == rest[j - pinned.len()]);
            } else {
                assert(order[i] == rest[i - pinned.len()] && order[j] == rest[j
                    - pinned.len()]);
            }
        }
        assert forall|a: int| 0 <= a < order.len() implies (#[trigger] order[a]) < list.len() by {
            if a < pinned.len() {
                assert(order[a] == pinned[a]);
            } else {
                assert(order[a] == rest[a - pinned.len()]);
            }
        }
        arranged_differ(list, order);
    }
}

/// No two candidates of the pool come to the same, the cut to its budget included.
pub proof fn law_pool_differs(
    unit: ActiveUnit,
    field: Field,
    reach: Reach,
    content: ContentView,
    budget: nat,
)
    requires
        everything(unit, field, reach, content).len() <= usize::MAX,
    ensures
        all_differ(pool(unit, field, reach, content, budget)),
{
    let start = everything(unit, field, reach, content);
    ranking_has_no_duplicates(path_keys(start));
    let sorted = arranged(start, ranking(path_keys(start)));
    let list = firsts(sorted);
    firsts_are_fewer(sorted);
    assert forall|a: int, b: int|
        0 <= a < list.len() && 0 <= b < list.len() && a != b implies !same_purpose(
        #[trigger] list[a],
        #[trigger] list[b],
    ) by {
        if a < b {
            law_firsts_differ(sorted, a, b);
        } else {
            law_firsts_differ(sorted, b, a);
        }
    }
    let keys = wanted_keys(list, field.enemies@);
    ranking_has_no_duplicates(keys);
    let order = ranking(keys);
    assert forall|a: int| 0 <= a < order.len() implies (#[trigger] order[a]) < list.len() by {
    }
    arranged_differ(list, order);
    cut_differs(arranged(list, order), budget);
}

/// Whether a unit can do what a candidate asks of it: it has the ability, can act and
/// can pay, and aims where the ability can be aimed at; and it walks only with
/// movement left.
pub open spec fn is_doable(
    c: CandidateModel,
    unit: ActiveUnit,
    field: Field,
    content: ContentView,
) -> bool {
    &&& match c.kind {
        CandidateKind::Cast { ability, target_pos, .. } => {
            &&& unit.can_act
            &&& unit.abilities@.contains(ability)
            &&& content.ability(ability@) matches Some(d) && pays(
                d.costs@,
                unit.hp,
                unit.mana,
                unit.rage,
                unit.energy,
            ) && target_cells(
                d,
                c.tile,
                enemy_cells(field.enemies@),
                field.allies@,
                field.board,
            ).contains(target_pos)
        },
        CandidateKind::MoveOnly => c.path.len() > 0,
    }
    &&& c.path.len() > 0 ==> unit.can_move
}

/// Whether a unit can do what each of some candidates asks of it.
pub open spec fn all_doable(
    list: Seq<CandidateModel>,
    unit: ActiveUnit,
    field: Field,
    content: ContentView,
) -> bool {
    forall|i: int| 0 <= i < list.len() ==> is_doable(#[trigger] list[i], unit, field, content)
}

proof fn tile_casts_are_doable(
    tile: Hex,
    path: Seq<Hex>,
    unit: ActiveUnit,
    field: Field,
    content: ContentView,
    n: nat,
)
    requires
        n <= unit.abilities@.len(),
        path.len() > 0 ==> unit.can_move,
    ensures
        all_doable(tile_casts(tile, path, unit, field, content, n), unit, field, content),
    decreases n,
{
    if n > 0 {
        tile_casts_are_doable(tile, path, unit, field, content, (n - 1) as nat);
        let before = tile_casts(tile, path, unit, field, content, (n - 1) as nat);
        let all = tile_casts(tile, path, unit, field, content, n);
        assert forall|i: int| 0 <= i < all.len() implies is_doable(
            #[trigger] all[i],
            unit,
            field,
            content,
        ) by {
            if i < before.len() {
                assert(all[i] == before[i]);
            } else {
                let id = unit.abilities@[n - 1];
                let d = content.ability(id@)->0;
                let cells = target_cells(
                    d,
                    tile,
                    enemy_cells(field.enemies@),
                    field.allies@,
                    field.board,
                );
                assert(all[i] == casts_on(tile, path, id, cells, unit, field)[i - before.len()]);
                assert(cells.contains(cells[i - before.len()]));
                assert(unit.abilities@.contains(id));
            }
        }
    }
}

proof fn all_casts_are_doable(
    tiles: Seq<Hex>,
    unit: ActiveUnit,
    field: Field,
    reach: Reach,
    content: ContentView,
    n: nat,
)
    ensures
        all_doable(all_casts(tiles, unit, field, reach, content, n), unit, field, content),
    decreases n,
{
    if n > 0 {
        all_casts_are_doable(tiles, unit, field, reach, content, (n - 1) as nat);
        let before = all_casts(tiles, unit, field, reach, content, (n - 1) as nat);
        let all = all_casts(tiles, unit, field, reach, content, n);
        if let Some(path) = route(tiles[n - 1], unit, reach) {
            let count = unit.abilities@.len();
            tile_casts_are_doable(tiles[n - 1], path, unit, field, content, count);
            let here = tile_casts(tiles[n - 1], path, unit, field, content, count);
            assert forall|i: int| 0 <= i < all.len() implies is_doable(
                #[trigger] all[i],
                unit,
                field,
                content,
            ) by {
                if i < before.len() {
                    assert(all[i] == before[i]);
                } else {
                    assert(all[i] == here[i - before.len()]);
                }
            }
        }
    }
}

proof fn retreats_are_doable(
    cells: Seq<Hex>,
    unit: ActiveUnit,
    field: Field,
    reach: Reach,
    content: ContentView,
    n: nat,
)
    requires
        unit.can_move,
    ensures
        all_doable(retreats(cells, field.escape@, reach.paths@, n), unit, field, content),
    decreases n,
{
    if n > 0 {
        retreats_are_doable(cells, unit, field, reach, content, (n - 1) as nat);
        let before = retreats(cells, field.escape@, reach.paths@, (n - 1) as nat);
        let all = retreats(cells, field.escape@, reach.paths@, n);
        assert forall|i: int| 0 <= i < all.len() implies is_doable(
            #[trigger] all[i],
            unit,
            field,
            content,
        ) by {
            if i < before.len() {
                assert(all[i] == before[i]);
            }
        }
    }
}

proof fn cut_is_part(list: Seq<CandidateModel>, budget: nat, c: CandidateModel)
    requires
        list.len() <= usize::MAX,
        within_budget(list, budget).contains(c),
    ensures
        list.contains(c),
{
    if list.len() > budget {
        let n = list.len();
        let pinned = places_below(list, true, n);
        let rest = places_below(list, false, n);
        places_are_below(list, true, n);
        places_are_below(list, false, n);
        places_are_all(list, n);
        let order = (pinned + rest).take(budget as int);
        let cut = within_budget(list, budget);
        let a = choose|a: int| 0 <= a < cut.len() && cut[a] == c;
        if a < pinned.len() {
            assert(order[a] == pinned[a]);
        } else {
            assert(order[a] == rest[a - pinned.len()]);
        }
        assert(list[order[a] as int] == c);
    }
}

/// The pool holds nothing but casts and moves that the unit has.
pub proof fn law_pool_is_part(
    unit: ActiveUnit,
    field: Field,
    reach: Reach,
    content: ContentView,
    budget: nat,
    c: CandidateModel,
)
    requires
        everything(unit, field, reach, content).len() <= usize::MAX,
        pool(unit, field, reach, content, budget).contains(c),
    ensures
        everything(unit, field, reach, content).contains(c),
{
    let start = everything(unit, field, reach, content);
    law_there_is_a_ranking(path_keys(start));
    let by_path = ranking(path_keys(start));
    let sorted = arranged(start, by_path);
    let list = firsts(sorted);
    firsts_are_fewer(sorted);
    let keys = wanted_keys(list, field.enemies@);
    law_there_is_a_ranking(keys);
    let order = ranking(keys);
    let ordered = arranged(list, order);
    cut_is_part(ordered, budget, c);
    let a = choose|a: int| 0 <= a < ordered.len() && ordered[a] == c;
    assert(order[a] < list.len());
    firsts_are_part(sorted, order[a] as int);
    let b = choose|b: int| 0 <= b < sorted.len() && sorted[b] == c;
    assert(by_path[b] < start.len());
    assert(start[by_path[b] as int] == c);
}

/// The unit can do whatever is in its pool: it has the ability of each cast and can
/// pay for it, each cast is aimed where the ability can be aimed at, and there is a
/// path to walk only where the unit has movement left.
pub proof fn law_pool_is_doable(
    unit: ActiveUnit,
    field: Field,
    reach: Reach,
    content: ContentView,
    budget: nat,
)
    requires
        everything(unit, field, reach, content).len() <= usize::MAX,
    ensures
        all_doable(pool(unit, field, reach, content, budget), unit, field, content),
{
    let tiles = listing(diverse_set(unit, field, reach, content));
    let casts = all_casts(tiles, unit, field, reach, content, tiles.len());
    let cells = others(reach.destinations@, unit.pos);
    let moves = retreats(cells, field.escape@, reach.paths@, retreat_count(cells));
    let start = everything(unit, field, reach, content);
    let chosen = pool(unit, field, reach, content, budget);
    all_casts_are_doable(tiles, unit, field, reach, content, tiles.len());
    if unit.can_move {
        retreats_are_doable(cells, unit, field, reach, content, retreat_count(cells));
    }
    assert forall|i: int| 0 <= i < chosen.len() implies is_doable(
        #[trigger] chosen[i],
        unit,
        field,
        content,
    ) by {
        assert(chosen.contains(chosen[i]));
        law_pool_is_part(unit, field, reach, content, budget, chosen[i]);
        let k = choose|k: int| 0 <= k < start.len() && start[k] == chosen[i];
        if k < casts.len() {
            assert(start[k] == casts[k]);
        } else {
            assert(start[k] == moves[k - casts.len()]);
        }
    }
}

/// A unit that cannot act casts nothing.
pub proof fn law_casts_need_action(
    tiles: Seq<Hex>,
    unit: ActiveUnit,
    field: Field,
    reach: Reach,
    content: ContentView,
    n: nat,
)
    requires
        !unit.can_act,
    ensures
        all_casts(tiles, unit, field, reach, content, n).len() == 0,
    decreases n,
{
    if n > 0 {
        law_casts_need_action(tiles, unit, field, reach, content, (n - 1) as nat);
        if let Some(path) = route(tiles[n - 1], unit, reach) {
            no_tile_casts(
                tiles[n - 1],
                path,
                unit,
                field,
                content,
                unit.abilities@.len(),
            );
        }
    }
}

proof fn no_tile_casts(
    tile: Hex,
    path: Seq<Hex>,
    unit: ActiveUnit,
    field: Field,
    content: ContentView,
    n: nat,
)
    requires
        !unit.can_act,
    ensures
        tile_casts(tile, path, unit, field, content, n).len() == 0,
    decreases n,
{
    if n > 0 {
        no_tile_casts(tile, path, unit, field, content, (n - 1) as nat);
    }
}

/// Who stands first on a cell is its target as long as it lives; else the unit itself is.
pub proof fn law_target_on_a_cell(cell: Hex, unit: ActiveUnit, field: Field, k: int)
    requires
        0 <= k < field.standing@.len(),
        field.standing@[k].hex == cell,
        forall|j: int| 0 <= j < k ==> (#[trigger] field.standing@[j]).hex != cell,
    ensures
        field.living@.contains(field.standing@[k].entity) ==> target_on(cell, unit, field)
            == field.standing@[k].entity,
        !field.living@.contains(field.standing@[k].entity) ==> target_on(cell, unit, field)
            == unit.entity,
{
    first_standing_is_found(field.standing@, cell, k);
}

proof fn first_standing_is_found(standing: Seq<Standing>, cell: Hex, k: int)
    requires
        0 <= k < standing.len(),
        standing[k].hex == cell,
        forall|j: int| 0 <= j < k ==> (#[trigger] standing[j]).hex != cell,
    ensures
        first_standing(standing, cell) == Some(standing[k].entity),
    decreases standing.len(),
{
    if k > 0 {
        assert(standing[0].hex != cell);
        let rest = standing.drop_first();
        assert forall|j: int| 0 <= j < k - 1 implies (#[trigger] rest[j]).hex != cell by {
            assert(standing[j + 1].hex != cell);
        }
        first_standing_is_found(rest, cell, k - 1);
    }
}

/// On a cell where nobody stands the unit itself is the target.
pub proof fn law_target_on_an_empty_cell(cell: Hex, unit: ActiveUnit, field: Field)
    requires
        forall|j: int|
            0 <= j < field.standing@.len() ==> (#[trigger] field.standing@[j]).hex != cell,
    ensures
        target_on(cell, unit, field) == unit.entity,
{
    nobody_is_found(field.standing@, cell);
}

proof fn nobody_is_found(standing: Seq<Standing>, cell: Hex)
    requires
        forall|j: int| 0 <= j < standing.len() ==> (#[trigger] standing[j]).hex != cell,
    ensures
        first_standing(standing, cell) is None,
    decreases standing.len(),
{
    if standing.len() > 0 {
        assert(standing[0].hex != cell);
        let rest = standing.drop_first();
        assert forall|j: int| 0 <= j < rest.len() implies (#[trigger] rest[j]).hex != cell by {
            assert(standing[j + 1].hex != cell);
        }
        nobody_is_found(rest, cell);
    }
}

/// Whether a candidate casts an ability from a cell on a cell, on whoever is there to be its
/// target.
pub open spec fn is_cast_of(
    c: CandidateModel,
    tile: Hex,
    path: Seq<Hex>,
    id: String,
    cell: Hex,
    unit: ActiveUnit,
    field: Field,
) -> bool {
    &&& c.tile == tile
    &&& c.path == path
    &&& c.kind matches CandidateKind::Cast { ability, target_pos, target } && ability == id
        && target_pos == cell && target == Some(target_on(cell, unit, field))
}

/// From a cell an ability is cast on each cell that it can be aimed at from there, once, in
/// order, by a unit that can act and pay; else on none.
pub proof fn law_casts_from_a_cell(
    tile: Hex,
    path: Seq<Hex>,
    id: String,
    unit: ActiveUnit,
    field: Field,
    content: ContentView,
    i: int,
)
    ensures
        ({
            let casts = ability_casts(tile, path, id, unit, field, content);
            match content.ability(id@) {
                Some(d) => if unit.can_act && pays(
                    d.costs@,
                    unit.hp,
                    unit.mana,
                    unit.rage,
                    unit.energy,
                ) {
                    let cells = target_cells(
                        d,
                        tile,
                        enemy_cells(field.enemies@),
                        field.allies@,
                        field.board,
                    );
                    &&& casts.len() == cells.len()
                    &&& 0 <= i < cells.len() ==> is_cast_of(
                        casts[i],
                        tile,
                        path,
                        id,
                        cells[i],
                        unit,
                        field,
                    )
                } else {
                    casts.len() == 0
                },
                None => casts.len() == 0,
            }
        }),
{
}

/// Every ability of the unit has its casts from a cell, one after the other.
pub proof fn law_casts_of_one_more_ability(
    tile: Hex,
    path: Seq<Hex>,
    unit: ActiveUnit,
    field: Field,
    content: ContentView,
    n: nat,
)
    requires
        n < unit.abilities@.len(),
    ensures
        tile_casts(tile, path, unit, field, content, 0).len() == 0,
        tile_casts(tile, path, unit, field, content, n + 1) == tile_casts(
            tile,
            path,
            unit,
            field,
            content,
            n,
        ) + ability_casts(tile, path, unit.abilities@[n as int], unit, field, content),
{
}

/// The unit reaches its own cell by staying there, and another by the way that is listed for
/// it if it can move; by any other means it reaches none.
pub proof fn law_route(tile: Hex, unit: ActiveUnit, reach: Reach)
    ensures
        route(unit.pos, unit, reach) == Some(Seq::<Hex>::empty()),
        tile != unit.pos && unit.can_move ==> route(tile, unit, reach) == way_to(
            reach.paths@,
            tile,
        ),
        tile != unit.pos && !unit.can_move ==> (route(tile, unit, reach) is Some <==> way_to(
            reach.paths@,
            tile,
        ) is Some && way_to(reach.paths@, tile)->0.len() == 0),
{
}

/// From every cell that is reached there are casts, from the others there are none.
pub proof fn law_casts_from_one_more_cell(
    tiles: Seq<Hex>,
    unit: ActiveUnit,
    field: Field,
    reach: Reach,
    content: ContentView,
    n: nat,
)
    requires
        n < tiles.len(),
    ensures
        all_casts(tiles, unit, field, reach, content, 0).len() == 0,
        ({
            let before = all_casts(tiles, unit, field, reach, content, n);
            let after = all_casts(tiles, unit, field, reach, content, n + 1);
            &&& route(tiles[n as int], unit, reach) is None ==> after == before
            &&& route(tiles[n as int], unit, reach) matches Some(path) ==> after == before
                + tile_casts(
                tiles[n as int],
                path,
                unit,
                field,
                content,
                unit.abilities@.len(),
            )
        }),
{
}

/// All cells but one are kept, in order.
pub proof fn law_other_cells(cells: Seq<Hex>, more: Hex, but: Hex)
    ensures
        others(Seq::empty(), but).len() == 0,
        more == but ==> others(cells.push(more), but) == others(cells, but),
        more != but ==> others(cells.push(more), but) == others(cells, but).push(more),
{
    assert(cells.push(more).drop_last() =~= cells);
}

/// A unit that can move may retreat to the three best cells to escape to, or to fewer where
/// there are fewer, by a way that leads somewhere. It casts nothing then.
pub proof fn law_retreats(
    cells: Seq<Hex>,
    escape: Seq<CellScore>,
    paths: Seq<PathTo>,
    n: nat,
)
    requires
        n < cells.len() <= usize::MAX,
    ensures
        retreats(cells, escape, paths, 0).len() == 0,
        cells.len() >= 3 ==> retreat_count(cells) == 3,
        cells.len() <= 3 ==> retreat_count(cells) == cells.len(),
        ({
            let tile = cells[ranking(score_keys(cells, escape))[n as int] as int];
            let before = retreats(cells, escape, paths, n);
            let after = retreats(cells, escape, paths, n + 1);
            match way_to(paths, tile) {
                Some(path) => if path.len() > 0 {
                    &&& after.len() == before.len() + 1
                    &&& after.drop_last() =~= before
                    &&& after.last().tile == tile
                    &&& after.last().path == path
                    &&& after.last().kind is MoveOnly
                } else {
                    after == before
                },
                None => after == before,
            }
        }),
        forall|k: int|
            n < k < cells.len() ==> score_of(
                escape,
                cells[(#[trigger] ranking(score_keys(cells, escape))[k]) as int],
            ) <= score_of(
                escape,
                cells[ranking(score_keys(cells, escape))[n as int] as int],
            ),
{
    let keys = score_keys(cells, escape);
    law_there_is_a_ranking(keys);
    assert forall|k: int| n < k < cells.len() implies score_of(
        escape,
        cells[(#[trigger] ranking(keys)[k]) as int],
    ) <= score_of(escape, cells[ranking(keys)[n as int] as int]) by {
        assert(precedes(keys, ranking(keys)[n as int] as int, ranking(keys)[k] as int));
    }
}

/// A candidate is wanted as much as the first listed enemy that is its target; one without a
/// target, or on nobody listed, not at all.
pub proof fn law_how_wanted(c: CandidateModel, enemies: Seq<EnemySpot>, k: int)
    ensures
        c.target() is None ==> wanted(c, enemies) == 0,
        0 <= k < enemies.len() && c.target() == Some(enemies[k].entity) && (forall|j: int|
            0 <= j < k ==> (#[trigger] enemies[j]).entity != enemies[k].entity) ==> wanted(
            c,
            enemies,
        ) == enemies[k].priority,
        c.target() is Some && (forall|j: int|
            0 <= j < enemies.len() ==> Some((#[trigger] enemies[j]).entity) != c.target())
            ==> wanted(c, enemies) == 0,
{
    if let Some(t) = c.target() {
        priority_as_listed(t, enemies, k);
    }
}

proof fn priority_as_listed(t: Entity, enemies: Seq<EnemySpot>, k: int)
    ensures
        0 <= k < enemies.len() && t == enemies[k].entity && (forall|j: int|
            0 <= j < k ==> (#[trigger] enemies[j]).entity != t) ==> priority_of(t, enemies)
            == enemies[k].priority,
        (forall|j: int| 0 <= j < enemies.len() ==> (#[trigger] enemies[j]).entity != t)
            ==> priority_of(t, enemies) == 0,
    decreases enemies.len(),
{
    if enemies.len() > 0 {
        let rest = enemies.drop_first();
        priority_as_listed(t, rest, k - 1);
        assert forall|j: int| 0 <= j < rest.len() implies #[trigger] rest[j] == enemies[j + 1] by {}
        if forall|j: int| 0 <= j < enemies.len() ==> (#[trigger] enemies[j]).entity != t {
            assert(enemies[0].entity != t);
        }
        if 0 < k < enemies.len() && t == enemies[k].entity && (forall|j: int|
            0 <= j < k ==> (#[trigger] enemies[j]).entity != t) {
            assert(enemies[0].entity != t);
            assert(rest[k - 1] == enemies[k]);
        }
    }
}

/// Two casts serve the same purpose if they cast the same ability on the same target, two
/// moves if they lead to the same cell; a cast and a move never do.
pub proof fn law_same_purpose(a: CandidateModel, b: CandidateModel)
    ensures
        same_purpose(a, b) == same_purpose(b, a),
        a.kind is MoveOnly && b.kind is MoveOnly ==> (same_purpose(a, b) <==> a.tile == b.tile),
        a.kind is Cast && b.kind is Cast ==> (same_purpose(a, b) <==> a.kind->ability@
            == b.kind->ability@ && a.kind->target == b.kind->target),
        a.kind is Cast && b.kind is MoveOnly ==> !same_purpose(a, b),
{
}

/// The first of those that serve the same purpose is kept, in order.
pub proof fn law_first_is_kept(list: Seq<CandidateModel>, more: CandidateModel)
    ensures
        firsts(Seq::empty()).len() == 0,
        (exists|i: int| 0 <= i < list.len() && same_purpose(#[trigger] list[i], more)) ==> firsts(
            list.push(more),
        ) == firsts(list),
        (forall|i: int| 0 <= i < list.len() ==> !same_purpose(#[trigger] list[i], more)) ==> firsts(
            list.push(more),
        ) == firsts(list).push(more),
{
    assert(list.push(more).drop_last() =~= list);
}

/// Of candidates with the same purpose one with a shortest way is kept: each candidate has
/// one in the list that serves its purpose and whose way is no longer.
pub proof fn law_shortest_way_is_kept(list: Seq<CandidateModel>, i: int)
    requires
        0 <= i < list.len() <= usize::MAX,
        forall|j: int| 0 <= j < list.len() ==> (#[trigger] list[j]).path.len() <= usize::MAX,
    ensures
        exists|k: int|
            0 <= k < shortest_each(list).len() && same_purpose(
                #[trigger] shortest_each(list)[k],
                list[i],
            ) && shortest_each(list)[k].path.len() <= list[i].path.len(),
{
    let keys = path_keys(list);
    law_there_is_a_ranking(keys);
    let r = ranking(keys);
    let sorted = arranged(list, r);
    assert(r.contains(i as usize));
    let b = choose|b: int| 0 <= b < r.len() && r[b] == i as usize;
    assert(sorted[b] == list[i]);
    first_of_its_purpose(sorted, b);
    let (a, k) = choose|a: int, k: int|
        0 <= a <= b && 0 <= k < firsts(sorted).len() && #[trigger] firsts(sorted)[k]
            == #[trigger] sorted[a] && same_purpose(sorted[a], sorted[b]);
    if a < b {
        assert(precedes(keys, r[a] as int, r[b] as int));
        assert(list[r[a] as int].path.len() <= usize::MAX);
        assert(list[r[b] as int].path.len() <= usize::MAX);
    }
    assert(same_purpose(shortest_each(list)[k], list[i]));
}

proof fn first_of_its_purpose(list: Seq<CandidateModel>, b: int)
    requires
        0 <= b < list.len(),
    ensures
        exists|a: int, k: int|
            0 <= a <= b && 0 <= k < firsts(list).len() && #[trigger] firsts(list)[k]
                == #[trigger] list[a] && same_purpose(list[a], list[b]),
    decreases list.len(),
{
    let part = list.drop_last();
    let n = list.len() - 1;
    if b < n {
        first_of_its_purpose(part, b);
        let (a, k) = choose|a: int, k: int|
            0 <= a <= b && 0 <= k < firsts(part).len() && #[trigger] firsts(part)[k]
                == #[trigger] part[a] && same_purpose(part[a], part[b]);
        assert(firsts(list)[k] == firsts(part)[k]);
        assert(firsts(list)[k] == list[a]);
    } else if repeats(part, list.last()) {
        let i = choose|i: int| 0 <= i < part.len() && same_purpose(#[trigger] part[i], list.last());
        first_of_its_purpose(part, i);
        let (a, k) = choose|a: int, k: int|
            0 <= a <= i && 0 <= k < firsts(part).len() && #[trigger] firsts(part)[k]
                == #[trigger] part[a] && same_purpose(part[a], part[i]);
        assert(firsts(list)[k] == list[a]);
    } else {
        let k = firsts(part).len() as int;
        assert(firsts(list)[k] == list[n]);
        assert(same_purpose(list[n], list[n]));
    }
}

/// The pool is in the order in which candidates are wanted, shorter ways first among those
/// wanted as much, as long as the budget holds all of them.
pub proof fn law_pool_in_order(
    unit: ActiveUnit,
    field: Field,
    reach: Reach,
    content: ContentView,
    budget: nat,
    a: int,
    b: int,
)
    requires
        everything(unit, field, reach, content).len() <= usize::MAX,
        shortest_each(everything(unit, field, reach, content)).len() <= budget,
        0 <= a < b < pool(unit, field, reach, content, budget).len(),
    ensures
        ({
            let p = pool(unit, field, reach, content, budget);
            let (x, y) = (wanted(p[a], field.enemies@), wanted(p[b], field.enemies@));
            &&& x >= y
            &&& x == y && p[a].path.len() <= usize::MAX && p[b].path.len() <= usize::MAX
                ==> p[a].path.len() <= p[b].path.len()
        }),
{
    let all = everything(unit, field, reach, content);
    let list = shortest_each(all);
    law_there_is_a_ranking(path_keys(all));
    firsts_are_few(arranged(all, ranking(path_keys(all))));
    let keys = wanted_keys(list, field.enemies@);
    law_there_is_a_ranking(keys);
    assert(precedes(keys, ranking(keys)[a] as int, ranking(keys)[b] as int));
}

proof fn firsts_are_few(list: Seq<CandidateModel>)
    ensures
        firsts(list).len() <= list.len(),
    decreases list.len(),
{
    if list.len() > 0 {
        firsts_are_few(list.drop_last());
    }
}

/// Only a unit that can move may retreat, and its casts come before its retreats.
pub proof fn law_everything(unit: ActiveUnit, field: Field, reach: Reach, content: ContentView)
    ensures
        ({
            let tiles = listing(diverse_set(unit, field, reach, content));
            let casts = all_casts(tiles, unit, field, reach, content, tiles.len());
            let cells = others(reach.destinations@, unit.pos);
            &&& !unit.can_move ==> everything(unit, field, reach, content) == casts
            &&& unit.can_move ==> everything(unit, field, reach, content) == casts + retreats(
                cells,
                field.escape@,
                reach.paths@,
                retreat_count(cells),
            )
        }),
{
}

} // verus!
