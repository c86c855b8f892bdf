//! The engine's state written back to the display world.

use crate::bootstrap::{entities_of, project_order, ActionPoints, EcsStatus};
use crate::hex::Hex;
use crate::ids::{entity_to_uid, uid_of, Entity, IdTable, UnitId, UnitIdMap};
use crate::positions::HexPositions;
use crate::state::{models, ActiveStatus, CombatState, EffectSource, Pool, Unit, UnitModel};
use vstd::prelude::*;

verus! {

/// What the display world shows of a combatant. Pools that it does not show are
/// `None`.
#[derive(Debug)]
pub struct ProjectionRow {
    pub entity: Entity,
    pub hp: i32,
    pub ap: ActionPoints,
    pub reactions_remaining: u8,
    pub reactions_max: u8,
    /// Whether the combatant is marked as having movement beyond its turn's.
    pub has_bonus: bool,
    pub rage: Option<i32>,
    pub mana: Option<i32>,
    pub energy: Option<i32>,
    pub statuses: Option<Vec<EcsStatus>>,
}

/// A shown combatant, its statuses as a sequence.
#[verifier::ext_equal]
pub struct RowModel {
    pub entity: Entity,
    pub hp: i32,
    pub ap: ActionPoints,
    pub reactions_remaining: u8,
    pub reactions_max: u8,
    pub has_bonus: bool,
    pub rage: Option<i32>,
    pub mana: Option<i32>,
    pub energy: Option<i32>,
    pub statuses: Option<Seq<EcsStatus>>,
}

impl View for ProjectionRow {
    type V = RowModel;

    open spec fn view(&self) -> RowModel {
        RowModel {
            entity: self.entity,
            hp: self.hp,
            ap: self.ap,
            reactions_remaining: self.reactions_remaining,
            reactions_max: self.reactions_max,
            has_bonus: self.has_bonus,
            rage: self.rage,
            mana: self.mana,
            energy: self.energy,
            statuses: match self.statuses {
                Some(s) => Some(s@),
                None => None,
            },
        }
    }
}

/// Shown combatants, their statuses as sequences.
pub open spec fn row_models(rows: Seq<ProjectionRow>) -> Seq<RowModel> {
    Seq::new(rows.len(), |i: int| rows[i]@)
}

/// Turn order as it is shown.
#[derive(Debug)]
pub struct ShownOrder {
    pub order: Vec<Entity>,
    pub index: usize,
}

// ---------------------------------------------------------------------------
// Statuses
// ---------------------------------------------------------------------------

/// Whether a shown status is one of the engine's: same id, and applied by the
/// same unit or, for one without an applier, by the environment.
pub open spec fn is_engine_status(s: EcsStatus, engine: Seq<ActiveStatus>) -> bool {
    match s.applier {
        Some(e) => exists|i: int|
            0 <= i < engine.len() && (#[trigger] engine[i]).id@ == s.id@ && engine[i].applier
                == EffectSource::Unit(uid_of(e)),
        None => exists|i: int|
            0 <= i < engine.len() && (#[trigger] engine[i]).id@ == s.id@
                && engine[i].applier is Env,
    }
}

/// The shown statuses that the engine does not know, in order.
pub open spec fn preserved(shown: Seq<EcsStatus>, engine: Seq<ActiveStatus>) -> Seq<EcsStatus>
    decreases shown.len(),
{
    if shown.len() == 0 {
        Seq::empty()
    } else {
        let rest = preserved(shown.drop_last(), engine);
        if is_engine_status(shown.last(), engine) {
            rest
        } else {
            rest.push(shown.last())
        }
    }
}

/// Whom a status is shown to come from: the applier's entity, or the bearer
/// itself where the applier has none; nobody for the environment.
pub open spec fn shown_applier(
    applier: EffectSource,
    bearer: Entity,
    ids: IdTable,
) -> Option<Entity> {
    match applier {
        EffectSource::Unit(uid) => Some(
            match ids.entity(uid) {
                Some(e) => e,
                None => bearer,
            },
        ),
        EffectSource::Env(_) => None,
    }
}

/// An engine status as it is shown.
pub open spec fn shown_status(s: ActiveStatus, bearer: Entity, ids: IdTable) -> EcsStatus {
    EcsStatus {
        id: s.id,
        rounds_remaining: s.rounds_remaining,
        dot_per_tick: s.dot_per_tick,
        applier: shown_applier(s.applier, bearer, ids),
    }
}

/// The engine's statuses as they are shown.
pub open spec fn shown_statuses(
    engine: Seq<ActiveStatus>,
    bearer: Entity,
    ids: IdTable,
) -> Seq<EcsStatus> {
    Seq::new(engine.len(), |i: int| shown_status(engine[i], bearer, ids))
}

/// The statuses that are shown after the engine spoke: those that it does not
/// know stay, its own follow.
pub open spec fn merged(
    shown: Seq<EcsStatus>,
    engine: Seq<ActiveStatus>,
    bearer: Entity,
    ids: IdTable,
) -> Seq<EcsStatus> {
    preserved(shown, engine) + shown_statuses(engine, bearer, ids)
}

fn check_engine_status(s: &EcsStatus, engine: &Vec<ActiveStatus>) -> (r: bool)
    ensures
        r == is_engine_status(*s, engine@),
{
    let mut i: usize = 0;
    while i < engine.len()
        invariant
            i <= engine.len(),
            match s.applier {
                Some(e) => forall|j: int|
                    0 <= j < i ==> !((#[trigger] engine@[j]).id@ == s.id@ && engine@[j].applier
                        == EffectSource::Unit(uid_of(e))),
                None => forall|j: int|
                    0 <= j < i ==> !((#[trigger] engine@[j]).id@ == s.id@
                        && engine@[j].applier is Env),
            },
        decreases engine.len() - i,
    {
        let k = &engine[i];
        if k.id == s.id {
            let same = match (s.applier, k.applier) {
                (Some(e), EffectSource::Unit(u)) => u == entity_to_uid(e),
                (None, EffectSource::Env(_)) => true,
                _ => false,
            };
            if same {
                assert(engine@[i as int].id@ == s.id@);
                return true;
            }
        }
        i = i + 1;
    }
    false
}

/// The statuses that are shown after the engine spoke.
pub fn merge_statuses(
    shown: &Vec<EcsStatus>,
    engine: &Vec<ActiveStatus>,
    bearer: Entity,
    ids: &UnitIdMap,
) -> (r: Vec<EcsStatus>)
    ensures
        r@ == merged(shown@, engine@, bearer, ids@),
{
    let mut r: Vec<EcsStatus> = Vec::new();
    let mut i: usize = 0;
    assert(shown@.take(0) =~= Seq::empty());
    while i < shown.len()
        invariant
            i <= shown.len(),
            r@ == preserved(shown@.take(i as int), engine@),
        decreases shown.len() - i,
    {
        assert(shown@.take(i + 1).drop_last() =~= shown@.take(i as int));
        let s = &shown[i];
        if !check_engine_status(s, engine) {
            r.push(
                EcsStatus {
                    id: s.id.clone(),
                    rounds_remaining: s.rounds_remaining,
                    dot_per_tick: s.dot_per_tick,
                    applier: s.applier,
                },
            );
        }
        i = i + 1;
    }
    assert(shown@.take(i as int) =~= shown@);
    let ghost kept = r@;
    let mut k: usize = 0;
    assert(r@ =~= kept + shown_statuses(engine@, bearer, ids@).take(0));
    while k < engine.len()
        invariant
            k <= engine.len(),
            r@ == kept + shown_statuses(engine@, bearer, ids@).take(k as int),
        decreases engine.len() - k,
    {
        let s = &engine[k];
        let applier = match s.applier {
            EffectSource::Unit(uid) => Some(
                match ids.get_entity(uid) {
                    Some(e) => e,
                    None => bearer,
                },
            ),
            EffectSource::Env(_) => None,
        };
        r.push(
            EcsStatus {
                id: s.id.clone(),
                rounds_remaining: s.rounds_remaining,
                dot_per_tick: s.dot_per_tick,
                applier,
            },
        );
        assert(r@ =~= kept + shown_statuses(engine@, bearer, ids@).take(k + 1));
        k = k + 1;
    }
    assert(r@ =~= merged(shown@, engine@, bearer, ids@));
    r
}

// ---------------------------------------------------------------------------
// One combatant
// ---------------------------------------------------------------------------

/// A shown pool takes the engine's value where both sides have the pool.
pub open spec fn shown_pool(
    shown: Option<i32>,
    pool: Option<crate::state::Pool>,
) -> Option<i32> {
    match (shown, pool) {
        (Some(_), Some(p)) => Some(p.current),
        _ => shown,
    }
}

fn project_pool(shown: Option<i32>, pool: Option<crate::state::Pool>) -> (r: Option<i32>)
    ensures
        r == shown_pool(shown, pool),
{
    match (shown, pool) {
        (Some(_), Some(p)) => Some(p.current),
        _ => shown,
    }
}

/// Action and movement points as they are shown: those of the engine, where it
/// has the pools.
pub open spec fn shown_ap(row: RowModel, u: UnitModel) -> ActionPoints {
    ActionPoints {
        action_points: match u.pools.ap {
            Some(p) => p.current,
            None => row.ap.action_points,
        },
        max_ap: match u.pools.ap {
            Some(p) => p.max,
            None => row.ap.max_ap,
        },
        movement_points: match u.pools.mp {
            Some(p) => p.current,
            None => row.ap.movement_points,
        },
    }
}

/// Whether a combatant is marked as having bonus movement: set once it has more
/// movement than a turn gives, cleared once all is spent.
pub open spec fn shown_bonus(had: bool, movement_points: i32, u: UnitModel) -> bool {
    let cap: i32 = match u.pools.mp {
        Some(p) => p.max,
        None => 0,
    };
    movement_points > cap || (had && movement_points != 0)
}

/// What is shown of a living combatant.
pub open spec fn shown_alive(row: RowModel, u: UnitModel, hp: i32, ids: IdTable) -> RowModel {
    let ap = shown_ap(row, u);
    RowModel {
        entity: row.entity,
        hp,
        ap,
        reactions_remaining: #[verifier::truncate] (u.reactions_left as u8),
        reactions_max: #[verifier::truncate] (u.reactions_max as u8),
        has_bonus: shown_bonus(row.has_bonus, ap.movement_points, u),
        rage: shown_pool(row.rage, u.pools.rage),
        mana: shown_pool(row.mana, u.pools.mana),
        energy: shown_pool(row.energy, u.pools.energy),
        statuses: match row.statuses {
            Some(s) => Some(merged(s, u.statuses, row.entity, ids)),
            None => None,
        },
    }
}

/// Shows a living combatant.
fn project_alive(row: &mut ProjectionRow, unit: &Unit, ids: &UnitIdMap)
    ensures
        final(row)@ == shown_alive(old(row)@, unit@, unit.hp(), ids@),
{
    row.hp = unit.hp();
    if let Some(p) = unit.pools.ap {
        row.ap = ActionPoints {
            action_points: p.current,
            max_ap: p.max,
            movement_points: row.ap.movement_points,
        };
    }
    let mut cap: i32 = 0;
    if let Some(p) = unit.pools.mp {
        cap = p.max;
        row.ap = ActionPoints {
            action_points: row.ap.action_points,
            max_ap: row.ap.max_ap,
            movement_points: p.current,
        };
    }
    row.reactions_remaining = #[verifier::truncate] (unit.reactions_left as u8);
    row.reactions_max = #[verifier::truncate] (unit.reactions_max as u8);
    if row.ap.movement_points > cap {
        row.has_bonus = true;
    } else if row.has_bonus && row.ap.movement_points == 0 {
        row.has_bonus = false;
    }
    row.rage = project_pool(row.rage, unit.pools.rage);
    row.mana = project_pool(row.mana, unit.pools.mana);
    row.energy = project_pool(row.energy, unit.pools.energy);
    if let Some(shown) = &row.statuses {
        let list = merge_statuses(shown, &unit.statuses, row.entity, ids);
        row.statuses = Some(list);
    }
    assert(row@ =~= shown_alive(old(row)@, unit@, unit.hp(), ids@));
}

// ---------------------------------------------------------------------------
// The whole board
// ---------------------------------------------------------------------------

/// All that is shown.
#[verifier::ext_equal]
pub struct Shown {
    pub positions: Map<Entity, Hex>,
    pub corpses: Map<Entity, Hex>,
    pub rows: Seq<RowModel>,
}

/// Whether `i` is the place of the first row of an entity.
pub open spec fn is_first_row(rows: Seq<RowModel>, entity: Entity, i: int) -> bool {
    &&& 0 <= i < rows.len()
    &&& rows[i].entity == entity
    &&& forall|j: int| 0 <= j < i ==> (#[trigger] rows[j]).entity != entity
}

/// The place of the first row of an entity.
pub open spec fn row_place(rows: Seq<RowModel>, entity: Entity) -> Option<int> {
    if exists|i: int| is_first_row(rows, entity, i) {
        Some(choose|i: int| is_first_row(rows, entity, i))
    } else {
        None
    }
}

fn find_row(rows: &Vec<ProjectionRow>, entity: Entity) -> (r: Option<usize>)
    ensures
        match r {
            Some(i) => row_place(row_models(rows@), entity) == Some(i as int) && i < rows@.len()
                && rows@[i as int].entity == entity,
            None => row_place(row_models(rows@), entity) is None,
        },
{
    let ghost m = row_models(rows@);
    let mut i: usize = 0;
    while i < rows.len()
        invariant
            i <= rows.len(),
            m == row_models(rows@),
            forall|j: int| 0 <= j < i ==> (#[trigger] m[j]).entity != entity,
        decreases rows.len() - i,
    {
        if rows[i].entity == entity {
            proof {
                assert(m[i as int].entity == entity);
                assert(is_first_row(m, entity, i as int));
                let k = choose|k: int| is_first_row(m, entity, k);
                assert(is_first_row(m, entity, k));
                if k < i {
                    assert(m[k].entity != entity);
                }
                if i < k {
                    assert(m[i as int].entity != entity);
                }
            }
            return Some(i);
        }
        assert(m[i as int].entity != entity);
        i = i + 1;
    }
    proof {
        assert forall|k: int| !is_first_row(m, entity, k) by {
            if 0 <= k < m.len() {
                assert(m[k].entity != entity);
            }
        }
    }
    None
}

/// Hit points of a unit.
pub open spec fn model_hp(u: UnitModel) -> i32 {
    match u.pools.hp {
        Some(p) => p.current,
        None => 0,
    }
}

impl Shown {
    /// What is shown once a unit was written back. The fallen move from the
    /// board to the corpses and only their hit points are written; the living
    /// stand where the engine has them. A unit without an entity is not shown.
    pub open spec fn after(self, u: UnitModel, ids: IdTable) -> Shown {
        let hp = model_hp(u);
        match ids.entity(u.id) {
            Some(e) => if hp <= 0 {
                Shown {
                    positions: self.positions.remove(e),
                    corpses: self.corpses.insert(e, u.pos),
                    rows: match row_place(self.rows, e) {
                        Some(i) => self.rows.update(i, RowModel { hp, ..self.rows[i] }),
                        None => self.rows,
                    },
                }
            } else {
                Shown {
                    positions: self.positions.insert(e, u.pos),
                    corpses: self.corpses,
                    rows: match row_place(self.rows, e) {
                        Some(i) => self.rows.update(
                            i,
                            shown_alive(self.rows[i], u, hp, ids),
                        ),
                        None => self.rows,
                    },
                }
            },
            None => self,
        }
    }

    /// What is shown once several units were written back, in order.
    pub open spec fn after_all(self, units: Seq<UnitModel>, ids: IdTable) -> Shown
        decreases units.len(),
    {
        if units.len() == 0 {
            self
        } else {
            self.after_all(units.drop_last(), ids).after(units.last(), ids)
        }
    }
}

/// Writes one unit back.
fn project_unit(
    unit: &Unit,
    ids: &UnitIdMap,
    positions: &mut HexPositions,
    corpses: &mut HexPositions,
    rows: &mut Vec<ProjectionRow>,
)
    ensures
        ({
            let before = Shown {
                positions: old(positions)@,
                corpses: old(corpses)@,
                rows: row_models(old(rows)@),
            };
            (Shown {
                positions: final(positions)@,
                corpses: final(corpses)@,
                rows: row_models(final(rows)@),
            }) == before.after(unit@, ids@)
        }),
{
    let ghost before = Shown {
        positions: positions@,
        corpses: corpses@,
        rows: row_models(rows@),
    };
    if let Some(entity) = ids.get_entity(unit.id) {
        if unit.hp() <= 0 {
            positions.remove(entity);
            corpses.insert(entity, unit.pos);
            if let Some(i) = find_row(rows, entity) {
                rows[i].hp = unit.hp();
            }
        } else {
            positions.insert(entity, unit.pos);
            if let Some(i) = find_row(rows, entity) {
                project_alive(&mut rows[i], unit, ids);
            }
        }
    }
    assert(row_models(rows@) =~= before.after(unit@, ids@).rows);
}

/// Writes the engine's state back: the units one by one, then the turn order.
/// Without units the turn order stays as it is shown.
pub fn project_state_to_ecs(
    state: &CombatState,
    ids: &UnitIdMap,
    positions: &mut HexPositions,
    corpses: &mut HexPositions,
    rows: &mut Vec<ProjectionRow>,
    queue: &mut ShownOrder,
)
    ensures
        ({
            let before = Shown {
                positions: old(positions)@,
                corpses: old(corpses)@,
                rows: row_models(old(rows)@),
            };
            (Shown {
                positions: final(positions)@,
                corpses: final(corpses)@,
                rows: row_models(final(rows)@),
            }) == before.after_all(models(state.units@), ids@)
        }),
        if state.units@.len() > 0 {
            &&& final(queue).order@ == entities_of(state.turn_queue.order@, ids@)
            &&& final(queue).index == state.turn_queue.index
        } else {
            *final(queue) == *old(queue)
        },
{
    let ghost before = Shown {
        positions: positions@,
        corpses: corpses@,
        rows: row_models(rows@),
    };
    let ghost units = models(state.units@);
    let mut i: usize = 0;
    assert(units.take(0) =~= Seq::empty());
    while i < state.units.len()
        invariant
            i <= state.units.len(),
            units == models(state.units@),
            (Shown { positions: positions@, corpses: corpses@, rows: row_models(rows@) })
                == before.after_all(units.take(i as int), ids@),
        decreases state.units.len() - i,
    {
        project_unit(&state.units[i], ids, positions, corpses, rows);
        assert(units.take(i + 1).drop_last() =~= units.take(i as int));
        i = i + 1;
    }
    assert(units.take(i as int) =~= units);
    if state.units.len() > 0 {
        queue.order = project_order(&state.turn_queue.order, ids);
        queue.index = state.turn_queue.index;
    }
}

// ---------------------------------------------------------------------------
// Laws
// ---------------------------------------------------------------------------

proof fn preserved_of_concat(a: Seq<EcsStatus>, b: Seq<EcsStatus>, engine: Seq<ActiveStatus>)
    ensures
        preserved(a + b, engine) == preserved(a, engine) + preserved(b, engine),
    decreases b.len(),
{
    if b.len() == 0 {
        assert(a + b =~= a);
        assert(preserved(a, engine) + preserved(b, engine) =~= preserved(a, engine));
    } else {
        assert((a + b).drop_last() =~= a + b.drop_last());
        preserved_of_concat(a, b.drop_last(), engine);
        assert(preserved(a + b, engine) =~= preserved(a, engine) + preserved(b, engine));
    }
}

proof fn preserved_of_unknown(a: Seq<EcsStatus>, engine: Seq<ActiveStatus>)
    requires
        forall|i: int| 0 <= i < a.len() ==> !is_engine_status(#[trigger] a[i], engine),
    ensures
        preserved(a, engine) == a,
    decreases a.len(),
{
    if a.len() > 0 {
        preserved_of_unknown(a.drop_last(), engine);
        assert(preserved(a, engine) =~= a);
    }
}

proof fn preserved_of_known(a: Seq<EcsStatus>, engine: Seq<ActiveStatus>)
    requires
        forall|i: int| 0 <= i < a.len() ==> is_engine_status(#[trigger] a[i], engine),
    ensures
        preserved(a, engine) == Seq::<EcsStatus>::empty(),
    decreases a.len(),
{
    if a.len() > 0 {
        preserved_of_known(a.drop_last(), engine);
    }
}

proof fn preserved_are_unknown(a: Seq<EcsStatus>, engine: Seq<ActiveStatus>)
    ensures
        forall|i: int|
            0 <= i < preserved(a, engine).len() ==> !is_engine_status(
                #[trigger] preserved(a, engine)[i],
                engine,
            ),
    decreases a.len(),
{
    if a.len() > 0 {
        preserved_are_unknown(a.drop_last(), engine);
        let rest = preserved(a.drop_last(), engine);
        assert forall|i: int| 0 <= i < preserved(a, engine).len() implies !is_engine_status(
            #[trigger] preserved(a, engine)[i],
            engine,
        ) by {
            if i < rest.len() {
                assert(preserved(a, engine)[i] == rest[i]);
            }
        }
    }
}

/// Writing the same statuses back again changes nothing: the shown list neither
/// grows nor shrinks. This holds of statuses that came from the environment or
/// from units shown under their own ids.
pub proof fn law_merging_again_changes_nothing(
    shown: Seq<EcsStatus>,
    engine: Seq<ActiveStatus>,
    bearer: Entity,
    ids: IdTable,
)
    requires
        forall|i: int|
            0 <= i < engine.len() ==> ((#[trigger] engine[i]).applier matches EffectSource::Unit(u)
                ==> uid_of(shown_applier(engine[i].applier, bearer, ids)->0) == u),
    ensures
        merged(merged(shown, engine, bearer, ids), engine, bearer, ids) == merged(
            shown,
            engine,
            bearer,
            ids,
        ),
{
    let p = preserved(shown, engine);
    let c = shown_statuses(engine, bearer, ids);
    preserved_are_unknown(shown, engine);
    preserved_of_unknown(p, engine);
    assert forall|i: int| 0 <= i < c.len() implies is_engine_status(#[trigger] c[i], engine) by {
        assert(engine[i].id@ == c[i].id@);
    }
    preserved_of_known(c, engine);
    preserved_of_concat(p, c, engine);
    assert(p + Seq::<EcsStatus>::empty() =~= p);
}

/// Everything that the engine knows of a bearer is shown, and nothing that only
/// the display world knew is lost.
pub proof fn law_merge_keeps_both_sides(
    shown: Seq<EcsStatus>,
    engine: Seq<ActiveStatus>,
    bearer: Entity,
    ids: IdTable,
)
    ensures
        forall|i: int|
            0 <= i < engine.len() ==> merged(shown, engine, bearer, ids).contains(
                shown_status(#[trigger] engine[i], bearer, ids),
            ),
        forall|i: int|
            0 <= i < shown.len() && !is_engine_status(#[trigger] shown[i], engine) ==> merged(
                shown,
                engine,
                bearer,
                ids,
            ).contains(shown[i]),
{
    let p = preserved(shown, engine);
    let c = shown_statuses(engine, bearer, ids);
    let m = merged(shown, engine, bearer, ids);
    assert forall|i: int| 0 <= i < engine.len() implies m.contains(
        shown_status(#[trigger] engine[i], bearer, ids),
    ) by {
        assert(m[p.len() + i] == c[i]);
    }
    assert forall|i: int|
        0 <= i < shown.len() && !is_engine_status(#[trigger] shown[i], engine) implies m.contains(
        shown[i],
    ) by {
        preserved_keeps(shown, engine, i);
        let k = choose|k: int| 0 <= k < p.len() && p[k] == shown[i];
        assert(m[k] == shown[i]);
    }
}

proof fn preserved_keeps(shown: Seq<EcsStatus>, engine: Seq<ActiveStatus>, i: int)
    requires
        0 <= i < shown.len(),
        !is_engine_status(shown[i], engine),
    ensures
        preserved(shown, engine).contains(shown[i]),
    decreases shown.len(),
{
    let p = preserved(shown, engine);
    if i == shown.len() - 1 {
        assert(p[p.len() - 1] == shown[i]);
    } else {
        let rest = shown.drop_last();
        preserved_keeps(rest, engine, i);
        let q = preserved(rest, engine);
        let k = choose|k: int| 0 <= k < q.len() && q[k] == shown[i];
        assert(p[k] == shown[i]);
    }
}

/// Nobody stands on the board who has fallen: once a unit without hit points is
/// written back, its entity is a corpse and no longer on the board, and a living
/// one stands where the engine has it and does not become a corpse.
pub proof fn law_layers(s: Shown, u: UnitModel, ids: IdTable, e: Entity)
    requires
        ids.entity(u.id) == Some(e),
    ensures
        model_hp(u) <= 0 ==> !s.after(u, ids).positions.contains_key(e) && s.after(
            u,
            ids,
        ).corpses.contains_key(e) && s.after(u, ids).corpses[e] == u.pos,
        model_hp(u) > 0 ==> s.after(u, ids).positions.contains_key(e) && s.after(
            u,
            ids,
        ).positions[e] == u.pos,
        model_hp(u) > 0 && !s.corpses.contains_key(e) ==> !s.after(u, ids).corpses.contains_key(e),
{
}

/// Writing back touches nothing but what is shown of the unit's own entity.
pub proof fn law_projection_is_local(s: Shown, u: UnitModel, ids: IdTable, other: Entity)
    requires
        ids.entity(u.id) != Some(other),
    ensures
        s.after(u, ids).positions.contains_key(other) == s.positions.contains_key(other),
        s.positions.contains_key(other) ==> s.after(u, ids).positions[other]
            == s.positions[other],
        s.after(u, ids).corpses.contains_key(other) == s.corpses.contains_key(other),
        s.corpses.contains_key(other) ==> s.after(u, ids).corpses[other] == s.corpses[other],
        s.after(u, ids).rows.len() == s.rows.len(),
        forall|i: int|
            0 <= i < s.rows.len() && (#[trigger] s.rows[i]).entity == other ==> s.after(
                u,
                ids,
            ).rows[i] == s.rows[i],
{
    if let Some(e) = ids.entity(u.id) {
        if let Some(i) = row_place(s.rows, e) {
            assert(is_first_row(s.rows, e, i));
        }
    }
}

/// A row that is written over keeps its entity, so all rows are found where they were.
proof fn rows_stay_in_place(rows: Seq<RowModel>, k: int, row: RowModel, e: Entity)
    requires
        0 <= k < rows.len(),
        row.entity == rows[k].entity,
    ensures
        row_place(rows.update(k, row), e) == row_place(rows, e),
{
    let now = rows.update(k, row);
    assert forall|i: int| 0 <= i < rows.len() implies (#[trigger] now[i]).entity
        == rows[i].entity by {}
    assert forall|i: int| is_first_row(now, e, i) == is_first_row(rows, e, i) by {
        assert(0 <= i < rows.len() ==> now[i].entity == rows[i].entity);
        if is_first_row(now, e, i) {
            assert forall|j: int| 0 <= j < i implies (#[trigger] rows[j]).entity != e by {
                assert(now[j].entity != e);
            }
        }
        if is_first_row(rows, e, i) {
            assert forall|j: int| 0 <= j < i implies (#[trigger] now[j]).entity != e by {
                assert(rows[j].entity != e);
            }
        }
    }
    first_row_is_one(rows, now, e);
}

proof fn first_row_is_one(rows: Seq<RowModel>, now: Seq<RowModel>, e: Entity)
    requires
        forall|i: int| is_first_row(now, e, i) == is_first_row(rows, e, i),
    ensures
        row_place(now, e) == row_place(rows, e),
{
    if exists|i: int| is_first_row(rows, e, i) {
        let i = choose|i: int| is_first_row(rows, e, i);
        assert(is_first_row(now, e, i));
        let k = choose|k: int| is_first_row(now, e, k);
        assert(is_first_row(rows, e, k));
        if k < i {
            assert(rows[k].entity != e);
        }
        if i < k {
            assert(rows[i].entity != e);
        }
    } else {
        assert forall|i: int| !is_first_row(now, e, i) by {
            assert(!is_first_row(rows, e, i));
        }
    }
}

/// It does not matter in which order units are written back that are shown under
/// different entities.
pub proof fn law_projection_order_is_free(s: Shown, u: UnitModel, v: UnitModel, ids: IdTable)
    requires
        ids.entity(u.id) is Some ==> ids.entity(u.id) != ids.entity(v.id),
    ensures
        s.after(u, ids).after(v, ids) == s.after(v, ids).after(u, ids),
{
    let one = s.after(u, ids).after(v, ids);
    let two = s.after(v, ids).after(u, ids);
    if let (Some(a), Some(b)) = (ids.entity(u.id), ids.entity(v.id)) {
        let i = row_place(s.rows, a);
        let k = row_place(s.rows, b);
        if let Some(i) = i {
            assert(is_first_row(s.rows, a, i));
            rows_stay_in_place(s.rows, i, s.after(u, ids).rows[i], b);
        }
        if let Some(k) = k {
            assert(is_first_row(s.rows, b, k));
            rows_stay_in_place(s.rows, k, s.after(v, ids).rows[k], a);
        }
        assert(one.positions =~= two.positions);
        assert(one.corpses =~= two.corpses);
        assert(one.rows =~= two.rows);
    }
}

/// Writing a unit back again changes nothing. This holds where its statuses came
/// from the environment or from units shown under their own ids.
pub proof fn law_writing_back_again_changes_nothing(s: Shown, u: UnitModel, ids: IdTable)
    requires
        ids.entity(u.id) matches Some(e) ==> forall|i: int|
            0 <= i < u.statuses.len() ==> ((#[trigger] u.statuses[i]).applier
                matches EffectSource::Unit(by) ==> uid_of(
                shown_applier(u.statuses[i].applier, e, ids)->0,
            ) == by),
    ensures
        s.after(u, ids).after(u, ids) == s.after(u, ids),
{
    let once = s.after(u, ids);
    let twice = once.after(u, ids);
    if let Some(e) = ids.entity(u.id) {
        assert(twice.positions =~= once.positions);
        assert(twice.corpses =~= once.corpses);
        match row_place(s.rows, e) {
            Some(i) => {
                assert(is_first_row(s.rows, e, i));
                assert forall|j: int| 0 <= j < i implies (#[trigger] once.rows[j]).entity != e by {
                    assert(s.rows[j].entity != e);
                }
                assert(is_first_row(once.rows, e, i));
                let k = row_place(once.rows, e)->0;
                assert(is_first_row(once.rows, e, k));
                if k < i {
                    assert(once.rows[k].entity != e);
                }
                if i < k {
                    assert(once.rows[i].entity != e);
                }
                if let Some(shown) = s.rows[i].statuses {
                    law_merging_again_changes_nothing(shown, u.statuses, e, ids);
                }
                assert(twice.rows[i] == once.rows[i]);
                assert(twice.rows =~= once.rows);
            },
            None => {},
        }
    }
}

/// How a status of the engine is shown: unchanged, and put on by the entity of the unit
/// that put it on, by its bearer where that unit has none, and by nobody where no unit
/// did.
pub proof fn law_shown_status(s: ActiveStatus, bearer: Entity, ids: IdTable)
    ensures
        ({
            let r = shown_status(s, bearer, ids);
            &&& r.id == s.id
            &&& r.rounds_remaining == s.rounds_remaining
            &&& r.dot_per_tick == s.dot_per_tick
            &&& s.applier is Env ==> r.applier is None
            &&& s.applier matches EffectSource::Unit(u) ==> (if ids.entity(u) is Some {
                r.applier == ids.entity(u)
            } else {
                r.applier == Some(bearer)
            })
        }),
{
}

/// A shown status is the engine's if the engine has one of that name from the same hand.
pub proof fn law_whose_status(s: EcsStatus, engine: Seq<ActiveStatus>, k: int)
    ensures
        0 <= k < engine.len() && engine[k].id@ == s.id@ && engine[k].applier is Env
            && s.applier is None ==> is_engine_status(s, engine),
        0 <= k < engine.len() && engine[k].id@ == s.id@ && s.applier is Some && engine[k].applier
            == EffectSource::Unit(UnitId(s.applier->0.bits)) ==> is_engine_status(s, engine),
        is_engine_status(s, engine) ==> exists|i: int|
            0 <= i < engine.len() && (#[trigger] engine[i]).id@ == s.id@ && (engine[i].applier is Env
                <==> s.applier is None),
{
    if is_engine_status(s, engine) {
        match s.applier {
            Some(e) => {
                let i = choose|i: int|
                    0 <= i < engine.len() && (#[trigger] engine[i]).id@ == s.id@
                        && engine[i].applier == EffectSource::Unit(uid_of(e));
                assert(!(engine[i].applier is Env));
            },
            None => {
                let i = choose|i: int|
                    0 <= i < engine.len() && (#[trigger] engine[i]).id@ == s.id@
                        && engine[i].applier is Env;
                assert(engine[i].id@ == s.id@);
            },
        }
    }
}

/// Of the shown statuses those that are not the engine's come first, in order; then all of
/// the engine's, in order.
pub proof fn law_order_of_merged(
    shown: Seq<EcsStatus>,
    more: EcsStatus,
    engine: Seq<ActiveStatus>,
    bearer: Entity,
    ids: IdTable,
    i: int,
)
    ensures
        preserved(Seq::empty(), engine).len() == 0,
        is_engine_status(more, engine) ==> preserved(shown.push(more), engine) == preserved(
            shown,
            engine,
        ),
        !is_engine_status(more, engine) ==> preserved(shown.push(more), engine) == preserved(
            shown,
            engine,
        ).push(more),
        merged(shown, engine, bearer, ids).len() == preserved(shown, engine).len() + engine.len(),
        0 <= i < preserved(shown, engine).len() ==> merged(shown, engine, bearer, ids)[i]
            == preserved(shown, engine)[i],
        0 <= i < engine.len() ==> merged(shown, engine, bearer, ids)[preserved(shown, engine).len()
            + i] == shown_status(engine[i], bearer, ids),
{
    assert(shown.push(more).drop_last() =~= shown);
}

/// Whether a shown amount follows a pool: it is what the pool holds, where both are there,
/// and stays as it is else.
pub open spec fn follows(before: Option<i32>, after: Option<i32>, pool: Option<Pool>) -> bool {
    &&& before is None ==> after is None
    &&& pool is None ==> after == before
    &&& before is Some && pool is Some ==> after == Some(pool->0.current)
}

/// How a living unit is shown: with the hit points, points, reactions and pools that the
/// engine has, but with no pool that was not shown before.
pub proof fn law_living_are_shown(row: RowModel, u: UnitModel, hp: i32, ids: IdTable)
    ensures
        ({
            let r = shown_alive(row, u, hp, ids);
            &&& r.entity == row.entity
            &&& r.hp == hp
            &&& follows(row.rage, r.rage, u.pools.rage)
            &&& follows(row.mana, r.mana, u.pools.mana)
            &&& follows(row.energy, r.energy, u.pools.energy)
            &&& u.pools.ap matches Some(p) ==> r.ap.action_points == p.current && r.ap.max_ap
                == p.max
            &&& u.pools.ap is None ==> r.ap.action_points == row.ap.action_points && r.ap.max_ap
                == row.ap.max_ap
            &&& u.pools.mp matches Some(p) ==> r.ap.movement_points == p.current
            &&& u.pools.mp is None ==> r.ap.movement_points == row.ap.movement_points
            &&& 0 <= u.reactions_left <= 255 ==> r.reactions_remaining == u.reactions_left
            &&& 0 <= u.reactions_max <= 255 ==> r.reactions_max == u.reactions_max
            &&& row.statuses is None ==> r.statuses is None
            &&& row.statuses matches Some(s) ==> r.statuses == Some(
                merged(s, u.statuses, row.entity, ids),
            )
        }),
{
}

/// A unit with more movement than its turn gives is marked, and stays marked until no
/// movement is left.
pub proof fn law_bonus_movement(had: bool, points: i32, u: UnitModel)
    ensures
        u.pools.mp is Some && points > u.pools.mp->0.max ==> shown_bonus(had, points, u),
        u.pools.mp is None && points > 0 ==> shown_bonus(had, points, u),
        u.pools.mp is Some && points <= u.pools.mp->0.max && !had ==> !shown_bonus(had, points, u),
        u.pools.mp is Some && 0 < points <= u.pools.mp->0.max && had ==> shown_bonus(
            had,
            points,
            u,
        ),
        u.pools.mp is Some && points == 0 && u.pools.mp->0.max >= 0 ==> !shown_bonus(
            had,
            points,
            u,
        ),
{
}

/// Of the fallen only the hit points are shown anew; of the living everything is. Who has
/// no entity is not shown.
pub proof fn law_whose_row_changes(s: Shown, u: UnitModel, ids: IdTable, e: Entity, i: int)
    requires
        is_first_row(s.rows, e, i),
        ids.entity(u.id) == Some(e),
    ensures
        ({
            let r = s.after(u, ids).rows;
            let hp = match u.pools.hp {
                Some(p) => p.current,
                None => 0,
            };
            &&& r.len() == s.rows.len()
            &&& hp <= 0 ==> r[i] == (RowModel { hp, ..s.rows[i] })
            &&& hp > 0 ==> r[i] == shown_alive(s.rows[i], u, hp, ids)
        }),
{
    let k = choose|k: int| is_first_row(s.rows, e, k);
    assert(is_first_row(s.rows, e, k));
    if k < i {
        assert(s.rows[k].entity != e);
    }
    if i < k {
        assert(s.rows[i].entity != e);
    }
}

/// A unit without an entity changes nothing.
pub proof fn law_the_nameless_are_not_shown(s: Shown, u: UnitModel, ids: IdTable)
    requires
        ids.entity(u.id) is None,
    ensures
        s.after(u, ids) == s,
{
}

/// Units are shown one after the other.
pub proof fn law_shown_one_by_one(s: Shown, units: Seq<UnitModel>, more: UnitModel, ids: IdTable)
    ensures
        s.after_all(Seq::empty(), ids) == s,
        s.after_all(units.push(more), ids) == s.after_all(units, ids).after(more, ids),
{
    assert(units.push(more).drop_last() =~= units);
}

} // verus!
