//! What a unit of the AI does with the candidate that it chose, and what it does
//! where there is none.

use crate::candidates::{
    cell_score, copy_cells, score_of, way_to, ActionCandidate, CandidateKind, CandidateModel,
    CellScore, Reach,
};
use crate::content::{AbilityDef, AoEShape, ContentView, TargetType};
use crate::effects_math::{aoe_cells, area_fits, touches};
use crate::hex::{distance, Hex};
use crate::ids::Entity;
use crate::reservations::{Claims, Reservations};
use crate::snapshot::{applies_cc, costs_turns};
use crate::targets::{all_in_range, cell_before, lists_cell};
use vstd::prelude::*;

verus! {

/// Where a plain move comes from.
#[derive(Clone, Copy, PartialEq, Eq, Structural, Debug)]
pub enum MoveOrigin {
    /// It was the best of the candidates.
    BestPlan,
    /// There was no candidate.
    Fallback,
}

/// What a unit does.
#[derive(Debug)]
pub enum AiDecision {
    CastInPlace { ability: String, target: Entity, target_pos: Hex },
    MoveAndCast { path: Vec<Hex>, ability: String, target: Entity, target_pos: Hex },
    Move { path: Vec<Hex>, origin: MoveOrigin },
    EndTurn,
}

/// What a unit does, with paths as sequences.
#[allow(inconsistent_fields)]
pub enum DecisionModel {
    CastInPlace { ability: Seq<char>, target: Entity, target_pos: Hex },
    MoveAndCast { path: Seq<Hex>, ability: Seq<char>, target: Entity, target_pos: Hex },
    Move { path: Seq<Hex>, origin: MoveOrigin },
    EndTurn,
}

impl View for AiDecision {
    type V = DecisionModel;

    open spec fn view(&self) -> DecisionModel {
        match *self {
            AiDecision::CastInPlace { ability, target, target_pos } => DecisionModel::CastInPlace {
                ability: ability@,
                target,
                target_pos,
            },
            AiDecision::MoveAndCast {
                path,
                ability,
                target,
                target_pos,
            } => DecisionModel::MoveAndCast { path: path@, ability: ability@, target, target_pos },
            AiDecision::Move { path, origin } => DecisionModel::Move { path: path@, origin },
            AiDecision::EndTurn => DecisionModel::EndTurn,
        }
    }
}

/// The decision that a candidate stands for. A cast on an area names the actor as
/// its target.
pub open spec fn decision_of(c: CandidateModel, actor: Entity, actor_pos: Hex) -> DecisionModel {
    match c.kind {
        CandidateKind::Cast { ability, target_pos, target } => {
            let target = match target {
                Some(t) => t,
                None => actor,
            };
            if c.tile == actor_pos {
                DecisionModel::CastInPlace { ability: ability@, target, target_pos }
            } else {
                DecisionModel::MoveAndCast { path: c.path, ability: ability@, target, target_pos }
            }
        },
        CandidateKind::MoveOnly => if c.path.len() == 0 {
            DecisionModel::EndTurn
        } else {
            DecisionModel::Move { path: c.path, origin: MoveOrigin::BestPlan }
        },
    }
}

/// Turns a candidate into the decision that it stands for.
pub fn decision_from_candidate(c: &ActionCandidate, actor: Entity, actor_pos: Hex) -> (r:
    AiDecision)
    ensures
        r@ == decision_of(c@, actor, actor_pos),
{
    match &c.kind {
        CandidateKind::Cast { ability, target_pos, target } => {
            let target = match *target {
                Some(t) => t,
                None => actor,
            };
            if c.tile == actor_pos {
                AiDecision::CastInPlace {
                    ability: ability.clone(),
                    target,
                    target_pos: *target_pos,
                }
            } else {
                AiDecision::MoveAndCast {
                    path: copy_cells(&c.path),
                    ability: ability.clone(),
                    target,
                    target_pos: *target_pos,
                }
            }
        },
        CandidateKind::MoveOnly => if c.path.len() == 0 {
            AiDecision::EndTurn
        } else {
            AiDecision::Move { path: copy_cells(&c.path), origin: MoveOrigin::BestPlan }
        },
    }
}

// ---------------------------------------------------------------------------
// Without a candidate
// ---------------------------------------------------------------------------

/// Whether a cell is the safest of some: the least dangerous, and the first of
/// equals by column and row of the plane.
pub open spec fn is_safest(cells: Seq<Hex>, danger: Seq<CellScore>, h: Hex) -> bool {
    &&& cells.contains(h)
    &&& forall|g: Hex| #[trigger]
        cells.contains(g) ==> g == h || score_of(danger, h) < score_of(danger, g) || (score_of(
            danger,
            h,
        ) == score_of(danger, g) && cell_before(h, g))
}

/// The safest of some cells.
pub open spec fn safest(cells: Seq<Hex>, danger: Seq<CellScore>) -> Hex {
    choose|h: Hex| is_safest(cells, danger, h)
}

/// Distance of a cell to the nearest of some others.
pub open spec fn nearest_distance(h: Hex, others: Seq<Hex>) -> int
    decreases others.len(),
{
    if others.len() <= 1 {
        distance(h, others[0])
    } else {
        let rest = nearest_distance(h, others.drop_last());
        let last = distance(h, others.last());
        if last < rest {
            last
        } else {
            rest
        }
    }
}

/// Whether a cell is the nearest of some to any of some others, and the first of
/// equals by column and row of the plane.
pub open spec fn is_nearest(cells: Seq<Hex>, others: Seq<Hex>, h: Hex) -> bool {
    &&& cells.contains(h)
    &&& forall|g: Hex| #[trigger]
        cells.contains(g) ==> g == h || nearest_distance(h, others) < nearest_distance(g, others)
            || (nearest_distance(h, others) == nearest_distance(g, others) && cell_before(h, g))
}

/// The nearest of some cells to any of some others.
pub open spec fn nearest(cells: Seq<Hex>, others: Seq<Hex>) -> Hex {
    choose|h: Hex| is_nearest(cells, others, h)
}

fn is_before(a: Hex, b: Hex) -> (r: bool)
    ensures
        r == cell_before(a, b),
{
    a.x < b.x || (a.x == b.x && a.y < b.y)
}

/// Finds the safest of some cells.
pub fn find_safest(cells: &Vec<Hex>, danger: &Vec<CellScore>) -> (r: Hex)
    requires
        cells@.len() > 0,
    ensures
        r == safest(cells@, danger@),
        is_safest(cells@, danger@, r),
{
    let mut best = cells[0];
    let mut least = cell_score(danger, best);
    let mut i: usize = 1;
    while i < cells.len()
        invariant
            1 <= i <= cells.len(),
            least == score_of(danger@, best),
            exists|k: int| 0 <= k < i && (#[trigger] cells@[k]) == best,
            forall|j: int|
                0 <= j < i ==> (#[trigger] cells@[j]) == best || least < score_of(
                    danger@,
                    cells@[j],
                ) || (least == score_of(danger@, cells@[j]) && cell_before(best, cells@[j])),
        decreases cells.len() - i,
    {
        let h = cells[i];
        let score = cell_score(danger, h);
        if score < least || (score == least && is_before(h, best)) {
            best = h;
            least = score;
        }
        assert(cells@[i as int] == h);
        i = i + 1;
    }
    proof {
        let k = choose|k: int| 0 <= k < i && (#[trigger] cells@[k]) == best;
        assert(cells@[k] == best);
        assert(is_safest(cells@, danger@, best)) by {
            assert forall|g: Hex| #[trigger] cells@.contains(g) implies g == best || score_of(
                danger@,
                best,
            ) < score_of(danger@, g) || (score_of(danger@, best) == score_of(danger@, g)
                && cell_before(best, g)) by {
                let j = choose|j: int| 0 <= j < cells@.len() && cells@[j] == g;
                assert(cells@[j] == g);
            }
        }
        let s = safest(cells@, danger@);
        assert(is_safest(cells@, danger@, s));
        assert(cells@.contains(s));
        assert(cells@.contains(best));
    }
    best
}

fn find_nearest_distance(h: Hex, others: &Vec<Hex>) -> (r: u32)
    requires
        h.in_range(),
        all_in_range(others@),
        others@.len() > 0,
    ensures
        r == nearest_distance(h, others@),
{
    assert(others@[0].in_range());
    let mut r = h.unsigned_distance_to(others[0]);
    let mut i: usize = 1;
    assert(others@.take(1)[0] == others@[0]);
    while i < others.len()
        invariant
            1 <= i <= others.len(),
            h.in_range(),
            all_in_range(others@),
            r == nearest_distance(h, others@.take(i as int)),
        decreases others.len() - i,
    {
        assert(others@.take(i + 1).drop_last() =~= others@.take(i as int));
        assert(others@[i as int].in_range());
        let d = h.unsigned_distance_to(others[i]);
        if d < r {
            r = d;
        }
        i = i + 1;
    }
    assert(others@.take(i as int) =~= others@);
    r
}

/// Finds the nearest of some cells to any of some others.
pub fn find_nearest(cells: &Vec<Hex>, others: &Vec<Hex>) -> (r: Hex)
    requires
        cells@.len() > 0,
        others@.len() > 0,
        all_in_range(cells@),
        all_in_range(others@),
    ensures
        r == nearest(cells@, others@),
        is_nearest(cells@, others@, r),
{
    assert(cells@[0].in_range());
    let mut best = cells[0];
    let mut least = find_nearest_distance(best, others);
    let mut i: usize = 1;
    while i < cells.len()
        invariant
            1 <= i <= cells.len(),
            others@.len() > 0,
            all_in_range(cells@),
            all_in_range(others@),
            least == nearest_distance(best, others@),
            exists|k: int| 0 <= k < i && (#[trigger] cells@[k]) == best,
            forall|j: int|
                0 <= j < i ==> (#[trigger] cells@[j]) == best || least < nearest_distance(
                    cells@[j],
                    others@,
                ) || (least == nearest_distance(cells@[j], others@) && cell_before(
                    best,
                    cells@[j],
                )),
        decreases cells.len() - i,
    {
        let h = cells[i];
        assert(cells@[i as int].in_range());
        let d = find_nearest_distance(h, others);
        if d < least || (d == least && is_before(h, best)) {
            best = h;
            least = d;
        }
        assert(cells@[i as int] == h);
        i = i + 1;
    }
    proof {
        let k = choose|k: int| 0 <= k < i && (#[trigger] cells@[k]) == best;
        assert(cells@[k] == best);
        assert(is_nearest(cells@, others@, best)) by {
            assert forall|g: Hex| #[trigger] cells@.contains(g) implies g == best
                || nearest_distance(best, others@) < nearest_distance(g, others@) || (
            nearest_distance(best, others@) == nearest_distance(g, others@) && cell_before(
                best,
                g,
            )) by {
                let j = choose|j: int| 0 <= j < cells@.len() && cells@[j] == g;
                assert(cells@[j] == g);
            }
        }
        let s = nearest(cells@, others@);
        assert(is_nearest(cells@, others@, s));
        assert(cells@.contains(s));
        assert(cells@.contains(best));
    }
    best
}

/// The cell that a unit without a candidate goes to: the safest where it is badly
/// hurt, else the nearest to an enemy.
pub open spec fn fallback_cell(
    low_hp: bool,
    enemies: Seq<Hex>,
    cells: Seq<Hex>,
    danger: Seq<CellScore>,
) -> Hex {
    if low_hp {
        safest(cells, danger)
    } else {
        nearest(cells, enemies)
    }
}

/// What a unit does without a candidate: it goes somewhere, where it can move, has
/// enemies, and has a way to go.
pub open spec fn fallback_of(
    can_move: bool,
    low_hp: bool,
    enemies: Seq<Hex>,
    reach: Reach,
    danger: Seq<CellScore>,
) -> DecisionModel {
    if !can_move || enemies.len() == 0 || reach.destinations@.len() == 0 {
        DecisionModel::EndTurn
    } else {
        match way_to(
            reach.paths@,
            fallback_cell(low_hp, enemies, reach.destinations@, danger),
        ) {
            Some(path) if path.len() > 0 => DecisionModel::Move {
                path,
                origin: MoveOrigin::Fallback,
            },
            _ => DecisionModel::EndTurn,
        }
    }
}

/// Whether what a unit does without a candidate can be told: to move up to enemies
/// it needs distances to them.
pub open spec fn fallback_fits(
    can_move: bool,
    low_hp: bool,
    enemies: Seq<Hex>,
    reach: Reach,
) -> bool {
    can_move && !low_hp && enemies.len() > 0 ==> all_in_range(enemies) && all_in_range(
        reach.destinations@,
    )
}

/// What a unit does without a candidate.
pub fn fallback_move(
    can_move: bool,
    low_hp: bool,
    enemies: &Vec<Hex>,
    reach: &Reach,
    danger: &Vec<CellScore>,
) -> (r: AiDecision)
    requires
        fallback_fits(can_move, low_hp, enemies@, *reach),
    ensures
        r@ == fallback_of(can_move, low_hp, enemies@, *reach, danger@),
{
    if !can_move || enemies.len() == 0 || reach.destinations.len() == 0 {
        return AiDecision::EndTurn;
    }
    let dest = if low_hp {
        find_safest(&reach.destinations, danger)
    } else {
        find_nearest(&reach.destinations, enemies)
    };
    if let Some(path) = reach.path_to(dest) {
        if path.len() > 0 {
            return AiDecision::Move { path, origin: MoveOrigin::Fallback };
        }
    }
    AiDecision::EndTurn
}

// ---------------------------------------------------------------------------
// Claims
// ---------------------------------------------------------------------------

/// A living enemy that an area can hit.
#[derive(Clone, Copy, PartialEq, Eq, Structural, Debug)]
pub struct Hittable {
    pub entity: Entity,
    pub pos: Hex,
}

/// The damage that is expected on an entity.
#[derive(Clone, Copy, PartialEq, Eq, Structural, Debug)]
pub struct Expected {
    pub entity: Entity,
    pub damage: i64,
}

/// The damage that is expected on an entity, where it is known at all.
pub open spec fn expected_on(list: Seq<Expected>, entity: Entity) -> Option<i64>
    decreases list.len(),
{
    if list.len() == 0 {
        None
    } else if list[0].entity == entity {
        Some(list[0].damage)
    } else {
        expected_on(list.drop_first(), entity)
    }
}

fn find_expected(list: &Vec<Expected>, entity: Entity) -> (r: Option<i64>)
    ensures
        r == expected_on(list@, entity),
{
    let mut i: usize = 0;
    assert(list@.skip(0) =~= list@);
    while i < list.len()
        invariant
            i <= list.len(),
            expected_on(list@, entity) == expected_on(list@.skip(i as int), entity),
        decreases list.len() - i,
    {
        assert(list@.skip(i as int).drop_first() =~= list@.skip(i + 1));
        if list[i].entity == entity {
            return Some(list[i].damage);
        }
        i = i + 1;
    }
    None
}

/// Those of some that an area hits, in order.
pub open spec fn in_area(
    aoe: AoEShape,
    from: Hex,
    target_pos: Hex,
    enemies: Seq<Hittable>,
) -> Seq<Entity>
    decreases enemies.len(),
{
    if enemies.len() == 0 {
        Seq::empty()
    } else {
        let rest = in_area(aoe, from, target_pos, enemies.drop_last());
        if touches(aoe, from, target_pos, enemies.last().pos) {
            rest.push(enemies.last().entity)
        } else {
            rest
        }
    }
}

/// Those of some that an area hits.
pub fn area_hits(aoe: AoEShape, from: Hex, target_pos: Hex, enemies: &Vec<Hittable>) -> (r: Vec<
    Entity,
>)
    requires
        area_fits(aoe, from, target_pos),
    ensures
        r@ == in_area(aoe, from, target_pos, enemies@),
{
    let area = aoe_cells(aoe, from, target_pos);
    let mut r: Vec<Entity> = Vec::new();
    let mut i: usize = 0;
    assert(enemies@.take(0) =~= Seq::empty());
    while i < enemies.len()
        invariant
            i <= enemies.len(),
            forall|h: Hex| #[trigger] area@.contains(h) <==> touches(aoe, from, target_pos, h),
            r@ == in_area(aoe, from, target_pos, enemies@.take(i as int)),
        decreases enemies.len() - i,
    {
        assert(enemies@.take(i + 1).drop_last() =~= enemies@.take(i as int));
        if lists_cell(&area, enemies[i].pos) {
            r.push(enemies[i].entity);
        }
        i = i + 1;
    }
    assert(enemies@.take(i as int) =~= enemies@);
    r
}

/// Whom a cast hits: its target, or all enemies in its area.
pub open spec fn hits_of(c: CandidateModel, def: AbilityDef, enemies: Seq<Hittable>) -> Seq<
    Entity,
> {
    match c.kind {
        CandidateKind::Cast { target_pos, target, .. } => if def.aoe == AoEShape::Single {
            crate::translate::opt_seq(target)
        } else {
            in_area(def.aoe, c.tile, target_pos, enemies)
        },
        CandidateKind::MoveOnly => Seq::empty(),
    }
}

/// Claims after the first `n` of those that an ability hits were claimed: expected
/// damage, unless the ability is for allies, and turns, where it costs any. Nothing
/// is claimed on who is not known.
pub open spec fn claimed_hits(
    c: Claims,
    def: AbilityDef,
    content: ContentView,
    hits: Seq<Entity>,
    expected: Seq<Expected>,
    n: nat,
) -> Claims
    decreases n,
{
    if n == 0 {
        c
    } else {
        let before = claimed_hits(c, def, content, hits, expected, (n - 1) as nat);
        let e = hits[n - 1];
        match expected_on(expected, e) {
            Some(damage) => {
                let hurt = if def.target_type != TargetType::SingleAlly && damage > 0 {
                    before.with_damage(e, damage)
                } else {
                    before
                };
                if costs_turns(def, content) {
                    Claims { cc: hurt.cc.insert(e), ..hurt }
                } else {
                    hurt
                }
            },
            None => before,
        }
    }
}

/// Claims after a candidate was chosen: on whom it hits, and on the cell that it
/// goes to.
pub open spec fn claims_after(
    claims: Claims,
    c: CandidateModel,
    actor_pos: Hex,
    content: ContentView,
    enemies: Seq<Hittable>,
    expected: Seq<Expected>,
) -> Claims {
    let hit = match c.kind {
        CandidateKind::Cast { ability, .. } => match content.ability(ability@) {
            Some(def) => {
                let hits = hits_of(c, def, enemies);
                claimed_hits(claims, def, content, hits, expected, hits.len())
            },
            None => claims,
        },
        CandidateKind::MoveOnly => claims,
    };
    if c.tile != actor_pos {
        Claims { tiles: hit.tiles.insert(c.tile), ..hit }
    } else {
        hit
    }
}

/// Whether the area of a candidate's ability can be listed.
pub open spec fn candidate_fits(c: CandidateModel, content: ContentView) -> bool {
    c.kind matches CandidateKind::Cast { ability, target_pos, .. } ==> (content.ability(
        ability@,
    ) matches Some(def) ==> area_fits(def.aoe, c.tile, target_pos))
}

fn claim_hits(
    def: &AbilityDef,
    content: &ContentView,
    hits: &Vec<Entity>,
    expected: &Vec<Expected>,
    reservations: &mut Reservations,
)
    ensures
        final(reservations)@ == claimed_hits(
            old(reservations)@,
            *def,
            *content,
            hits@,
            expected@,
            hits@.len(),
        ),
{
    let ghost before = reservations@;
    let is_cc = applies_cc(def, content);
    let mut n: usize = 0;
    while n < hits.len()
        invariant
            n <= hits.len(),
            is_cc == costs_turns(*def, *content),
            reservations@ == claimed_hits(before, *def, *content, hits@, expected@, n as nat),
        decreases hits.len() - n,
    {
        if let Some(damage) = find_expected(expected, hits[n]) {
            if def.target_type != TargetType::SingleAlly && damage > 0 {
                reservations.reserve_damage(hits[n], damage);
            }
            if is_cc {
                reservations.reserve_cc(hits[n]);
            }
        }
        n = n + 1;
    }
}

/// Claims what the chosen candidate will do, so that units that come after do not
/// do it again.
pub fn record_reservation(
    best: &ActionCandidate,
    actor_pos: Hex,
    content: &ContentView,
    enemies: &Vec<Hittable>,
    expected: &Vec<Expected>,
    reservations: &mut Reservations,
)
    requires
        candidate_fits(best@, *content),
    ensures
        final(reservations)@ == claims_after(
            old(reservations)@,
            best@,
            actor_pos,
            *content,
            enemies@,
            expected@,
        ),
{
    if let CandidateKind::Cast { ability, target_pos, target } = &best.kind {
        if let Some(def) = content.ability_def(ability) {
            let hits = if def.aoe == AoEShape::Single {
                let mut one: Vec<Entity> = Vec::new();
                if let Some(t) = *target {
                    one.push(t);
                }
                assert(one@ =~= crate::translate::opt_seq(*target));
                one
            } else {
                area_hits(def.aoe, best.tile, *target_pos, enemies)
            };
            claim_hits(def, content, &hits, expected, reservations);
        }
    }
    if best.tile != actor_pos {
        reservations.reserve_tile(best.tile);
    }
}

// ---------------------------------------------------------------------------
// Laws
// ---------------------------------------------------------------------------

/// A decision to cast or to move is the candidate's own: its ability, its aim, its
/// path; and nothing is cast that the candidate does not cast.
pub proof fn law_decision_is_the_candidates(c: CandidateModel, actor: Entity, actor_pos: Hex)
    ensures
        match decision_of(c, actor, actor_pos) {
            DecisionModel::CastInPlace { ability, target_pos, .. } => c.tile == actor_pos
                && (c.kind matches CandidateKind::Cast { ability: a, target_pos: p, .. } && a@
                == ability && p == target_pos),
            DecisionModel::MoveAndCast { path, ability, target_pos, .. } => c.tile != actor_pos
                && path == c.path && (c.kind matches CandidateKind::Cast {
                ability: a,
                target_pos: p,
                ..
            } && a@ == ability && p == target_pos),
            DecisionModel::Move { path, origin } => c.kind is MoveOnly && path == c.path
                && path.len() > 0 && origin == MoveOrigin::BestPlan,
            DecisionModel::EndTurn => c.kind is MoveOnly && c.path.len() == 0,
        },
{
}

/// Claims only grow: what was claimed stays claimed, and damage on whom a candidate
/// does not hit stays as it was.
pub proof fn law_claims_grow(
    c: Claims,
    def: AbilityDef,
    content: ContentView,
    hits: Seq<Entity>,
    expected: Seq<Expected>,
    n: nat,
    other: Entity,
)
    requires
        n <= hits.len(),
        !hits.contains(other),
    ensures
        ({
            let after = claimed_hits(c, def, content, hits, expected, n);
            &&& after.damage_on(other) == c.damage_on(other)
            &&& after.tiles == c.tiles
            &&& c.cc.subset_of(after.cc)
            &&& after.cc.contains(other) == c.cc.contains(other)
        }),
    decreases n,
{
    if n > 0 {
        law_claims_grow(c, def, content, hits, expected, (n - 1) as nat, other);
        assert(hits[n - 1] != other);
    }
}

/// A cast is aimed at the candidate's target, and where it has none at the unit itself;
/// it is made on the spot exactly where the candidate's cell is the unit's own.
pub proof fn law_decision_keeps_the_target(c: CandidateModel, actor: Entity, actor_pos: Hex)
    requires
        c.kind is Cast,
    ensures
        c.tile == actor_pos ==> decision_of(c, actor, actor_pos) is CastInPlace,
        c.tile != actor_pos ==> decision_of(c, actor, actor_pos) is MoveAndCast,
        decision_of(c, actor, actor_pos) matches DecisionModel::CastInPlace { target, .. }
            ==> c.kind->target == Some(target) || (c.kind->target is None && target == actor),
        decision_of(c, actor, actor_pos) matches DecisionModel::MoveAndCast { target, .. }
            ==> c.kind->target == Some(target) || (c.kind->target is None && target == actor),
{
}


/// The safest cell is one of the cells, and none is less dangerous. Of those as safe it
/// is the first by column and then by row.
pub proof fn law_safest_cell(cells: Seq<Hex>, danger: Seq<CellScore>, h: Hex, g: Hex)
    requires
        is_safest(cells, danger, h),
        cells.contains(g),
    ensures
        safest(cells, danger) == h,
        cells.contains(h),
        score_of(danger, h) <= score_of(danger, g),
        score_of(danger, h) == score_of(danger, g) ==> h.x < g.x || (h.x == g.x && h.y <= g.y),
{
    let other = safest(cells, danger);
    assert(is_safest(cells, danger, other));
    assert(cells.contains(other));
}

/// The distance to the nearest of some cells is that of one of them, and no other is
/// nearer.
pub proof fn law_nearest_distance(h: Hex, others: Seq<Hex>)
    requires
        others.len() > 0,
    ensures
        forall|i: int|
            0 <= i < others.len() ==> nearest_distance(h, others) <= distance(
                h,
                #[trigger] others[i],
            ),
        exists|i: int|
            0 <= i < others.len() && nearest_distance(h, others) == distance(
                h,
                #[trigger] others[i],
            ),
    decreases others.len(),
{
    let n = others.len() - 1;
    if n == 0 {
        assert(nearest_distance(h, others) == distance(h, others[0]));
    } else {
        let part = others.drop_last();
        law_nearest_distance(h, part);
        assert forall|i: int| 0 <= i < others.len() implies nearest_distance(h, others)
            <= distance(h, #[trigger] others[i]) by {
            if i < n {
                assert(part[i] == others[i]);
            }
        }
        let k = choose|k: int|
            0 <= k < part.len() && nearest_distance(h, part) == distance(h, #[trigger] part[k]);
        assert(others[k] == part[k]);
        assert(others[n] == others.last());
    }
}

/// The nearest cell is one of the cells, and none is nearer to an enemy. Of those as near
/// it is the first by column and then by row.
pub proof fn law_nearest_to_enemies(
    cells: Seq<Hex>,
    enemies: Seq<Hex>,
    h: Hex,
    g: Hex,
    e: int,
)
    requires
        is_nearest(cells, enemies, h),
        cells.contains(g),
        0 <= e < enemies.len(),
    ensures
        nearest(cells, enemies) == h,
        cells.contains(h),
        nearest_distance(h, enemies) <= distance(g, enemies[e]),
        nearest_distance(h, enemies) == nearest_distance(g, enemies) ==> h.x < g.x || (h.x == g.x
            && h.y <= g.y),
{
    let other = nearest(cells, enemies);
    assert(is_nearest(cells, enemies, other));
    assert(cells.contains(other));
    law_nearest_distance(g, enemies);
}

/// A unit without a candidate walks if and only if it can move, sees an enemy, has where
/// to go and knows a way: away from danger where it is badly hurt, else towards the
/// nearest enemy. Otherwise it ends its turn.
pub proof fn law_fallback(
    can_move: bool,
    low_hp: bool,
    enemies: Seq<Hex>,
    reach: Reach,
    danger: Seq<CellScore>,
    h: Hex,
)
    requires
        can_move && enemies.len() > 0 && reach.destinations@.len() > 0 ==> (if low_hp {
            is_safest(reach.destinations@, danger, h)
        } else {
            is_nearest(reach.destinations@, enemies, h)
        }),
    ensures
        ({
            let d = fallback_of(can_move, low_hp, enemies, reach, danger);
            &&& !can_move || enemies.len() == 0 || reach.destinations@.len() == 0 ==> d
                == DecisionModel::EndTurn
            &&& can_move && enemies.len() > 0 && reach.destinations@.len() > 0 ==> match way_to(
                reach.paths@,
                h,
            ) {
                Some(path) => if path.len() > 0 {
                    d == (DecisionModel::Move { path, origin: MoveOrigin::Fallback })
                } else {
                    d == DecisionModel::EndTurn
                },
                None => d == DecisionModel::EndTurn,
            }
        }),
{
    if can_move && enemies.len() > 0 && reach.destinations@.len() > 0 {
        if low_hp {
            law_safest_cell(reach.destinations@, danger, h, h);
        } else {
            law_nearest_to_enemies(reach.destinations@, enemies, h, h, 0);
        }
    }
}

/// An area hits those who stand in it and no others, in the order in which they are
/// listed.
pub proof fn law_area_hits_one_more(
    aoe: AoEShape,
    from: Hex,
    target_pos: Hex,
    enemies: Seq<Hittable>,
    more: Hittable,
)
    ensures
        in_area(aoe, from, target_pos, Seq::empty()).len() == 0,
        touches(aoe, from, target_pos, more.pos) ==> in_area(
            aoe,
            from,
            target_pos,
            enemies.push(more),
        ) == in_area(aoe, from, target_pos, enemies).push(more.entity),
        !touches(aoe, from, target_pos, more.pos) ==> in_area(
            aoe,
            from,
            target_pos,
            enemies.push(more),
        ) == in_area(aoe, from, target_pos, enemies),
{
    assert(enemies.push(more).drop_last() =~= enemies);
}

pub(crate) proof fn hits_are_few(
    aoe: AoEShape,
    from: Hex,
    target_pos: Hex,
    enemies: Seq<Hittable>,
)
    ensures
        in_area(aoe, from, target_pos, enemies).len() <= enemies.len(),
    decreases enemies.len(),
{
    if enemies.len() > 0 {
        hits_are_few(aoe, from, target_pos, enemies.drop_last());
    }
}

/// A cast without an area hits its target alone, one with an area whom the area hits, and
/// a move nobody.
pub proof fn law_whom_a_candidate_hits(
    c: CandidateModel,
    def: AbilityDef,
    enemies: Seq<Hittable>,
    t: Entity,
)
    ensures
        c.kind is MoveOnly ==> hits_of(c, def, enemies).len() == 0,
        c.kind is Cast && def.aoe is Single && c.kind->target == Some(t) ==> hits_of(
            c,
            def,
            enemies,
        ) == seq![t],
        c.kind is Cast && def.aoe is Single && c.kind->target is None ==> hits_of(
            c,
            def,
            enemies,
        ).len() == 0,
        c.kind is Cast && !(def.aoe is Single) ==> hits_of(c, def, enemies) == in_area(
            def.aoe,
            c.tile,
            c.kind->target_pos,
            enemies,
        ),
{
}

/// What is expected of one who is listed once is what is listed.
pub proof fn law_expected_as_listed(list: Seq<Expected>, k: int)
    requires
        0 <= k < list.len(),
        forall|j: int| 0 <= j < k ==> (#[trigger] list[j]).entity != list[k].entity,
    ensures
        expected_on(list, list[k].entity) == Some(list[k].damage),
    decreases list.len(),
{
    if k > 0 {
        assert(list[0].entity != list[k].entity);
        let rest = list.drop_first();
        assert forall|j: int| 0 <= j < k - 1 implies (#[trigger] rest[j]).entity
            != rest[k - 1].entity by {
            assert(list[j + 1].entity != list[k].entity);
        }
        law_expected_as_listed(rest, k - 1);
    }
}

/// Who is hit has the damage claimed that is expected of it, and lost turns where the
/// ability costs turns. Allies have no damage claimed, and neither has one of whom
/// nothing is expected.
pub proof fn law_claims_of_one_more_hit(
    c: Claims,
    def: AbilityDef,
    content: ContentView,
    hits: Seq<Entity>,
    expected: Seq<Expected>,
    n: nat,
    other: Entity,
)
    requires
        n < hits.len(),
        other != hits[n as int],
    ensures
        ({
            let e = hits[n as int];
            let before = claimed_hits(c, def, content, hits, expected, n);
            let after = claimed_hits(c, def, content, hits, expected, n + 1);
            let claimed = match expected_on(expected, e) {
                Some(d) => if d > 0 && def.target_type != TargetType::SingleAlly {
                    d as int
                } else {
                    0
                },
                None => 0,
            };
            &&& before.damage_on(e) + claimed <= i64::MAX ==> after.damage_on(e)
                == before.damage_on(e) + claimed
            &&& after.damage_on(other) == before.damage_on(other)
            &&& after.cc.contains(other) == before.cc.contains(other)
            &&& after.cc.contains(e) <==> before.cc.contains(e) || (expected_on(expected, e) is Some
                && costs_turns(def, content))
            &&& after.tiles == before.tiles
        }),
{
}

/// Choosing a candidate claims its cell where the unit has to move there, and whom it
/// hits where it casts a known ability; nothing else.
pub proof fn law_what_a_candidate_claims(
    claims: Claims,
    c: CandidateModel,
    actor_pos: Hex,
    content: ContentView,
    enemies: Seq<Hittable>,
    expected: Seq<Expected>,
    h: Hex,
    t: Entity,
)
    ensures
        ({
            let after = claims_after(claims, c, actor_pos, content, enemies, expected);
            &&& after.tiles.contains(h) <==> claims.tiles.contains(h) || (h == c.tile && c.tile
                != actor_pos)
            &&& c.kind is MoveOnly ==> after.damage == claims.damage && after.cc == claims.cc
            &&& c.kind is Cast && content.ability(c.kind->ability@) is None ==> after.damage
                == claims.damage && after.cc == claims.cc
            &&& c.kind is Cast && content.ability(c.kind->ability@) is Some && !hits_of(
                c,
                content.ability(c.kind->ability@)->0,
                enemies,
            ).contains(t) ==> after.damage_on(t) == claims.damage_on(t) && after.cc.contains(t)
                == claims.cc.contains(t)
        }),
{
    if c.kind is Cast && content.ability(c.kind->ability@) is Some {
        let def = content.ability(c.kind->ability@)->0;
        let hits = hits_of(c, def, enemies);
        tiles_are_left(claims, def, content, hits, expected, hits.len());
        if !hits.contains(t) {
            law_claims_grow(claims, def, content, hits, expected, hits.len(), t);
        }
    }
}

proof fn tiles_are_left(
    c: Claims,
    def: AbilityDef,
    content: ContentView,
    hits: Seq<Entity>,
    expected: Seq<Expected>,
    n: nat,
)
    ensures
        claimed_hits(c, def, content, hits, expected, n).tiles == c.tiles,
    decreases n,
{
    if n > 0 {
        tiles_are_left(c, def, content, hits, expected, (n - 1) as nat);
    }
}

} // verus!
