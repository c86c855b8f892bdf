//! The engine's state built from the combatants of the display world.

use crate::content::{ContentView, DiceExpr};
use crate::events::Event;
use crate::hex::Hex;
use crate::ids::{entity_to_uid, uid_of, Entity, IdTable, UnitId, UnitIdMap};
use crate::positions::HexPositions;
use crate::process::finish_tick;
use crate::state::{
    find_place, models, place_of, ActiveStatus, AuraDef, AuraModel, CasterContext, CombatState,
    EffectSource, EnvId, EnvObject, PhaseEntry, PhaseModel, Pool, PoolTable, RegenRule, RegenTable,
    RuntimeStats, Team, TeamRelation, TurnQueue, Unit, UnitModel,
};
use crate::templates::{
    aoo_dice, aoo_dice_fits, any_melee_attack, copy_strings, crit_fail_effect_of, crit_fail_of,
    default_regen, has_melee_attack, make_aoo_dice, regen_rules, PathDef,
};
use crate::translate::{TranslateCtx, Translation};
use vstd::prelude::*;

verus! {

// ---------------------------------------------------------------------------
// One unit
// ---------------------------------------------------------------------------

/// All that a unit is built from.
#[derive(Debug)]
pub struct UnitBuildInput {
    pub uid: UnitId,
    pub team: Team,
    pub pos: Hex,
    pub armor: i32,
    pub magic_resist: i32,
    pub base_speed: i32,
    pub reactions_max: i32,
    pub statuses: Vec<ActiveStatus>,
    pub pools: PoolTable,
    pub regen_per_pool: RegenTable,
    pub template_id: Option<String>,
}

/// The bonuses of several statuses together.
pub struct BonusSum {
    pub armor: int,
    pub speed: int,
    pub damage_taken: int,
}

/// The bonuses of several statuses together. Statuses that the content does not
/// know add nothing.
pub open spec fn bonus_sum(statuses: Seq<ActiveStatus>, content: ContentView) -> BonusSum
    decreases statuses.len(),
{
    if statuses.len() == 0 {
        BonusSum { armor: 0, speed: 0, damage_taken: 0 }
    } else {
        let rest = bonus_sum(statuses.drop_last(), content);
        let b = content.bonuses(statuses.last().id@);
        BonusSum {
            armor: rest.armor + b.armor_bonus,
            speed: rest.speed + b.speed_bonus,
            damage_taken: rest.damage_taken + b.damage_taken_bonus,
        }
    }
}

/// Whether a number fits 32 bits.
pub open spec fn fits(i: int) -> bool {
    i32::MIN <= i <= i32::MAX
}

/// Whether the bonuses of statuses can be added up, and the speed bonus to a
/// base speed, without leaving 32 bits.
pub open spec fn bonuses_fit(
    statuses: Seq<ActiveStatus>,
    content: ContentView,
    base_speed: int,
) -> bool {
    &&& forall|n: int|
        0 <= n <= statuses.len() ==> {
            let s = #[trigger] bonus_sum(statuses.take(n), content);
            fits(s.armor) && fits(s.speed) && fits(s.damage_taken)
        }
    &&& fits(base_speed + bonus_sum(statuses, content).speed)
}

/// Whether `u` is the unit built from `input`: statuses add to armor, speed and
/// damage taken; reactions are full; what depends on the combat as a whole is
/// still empty.
pub open spec fn is_built(u: UnitModel, input: UnitBuildInput, content: ContentView) -> bool {
    let sum = bonus_sum(input.statuses@, content);
    &&& u.id == input.uid
    &&& u.team == input.team
    &&& u.pos == input.pos
    &&& u.runtime == (RuntimeStats {
        armor: input.armor,
        magic_resist: input.magic_resist,
        base_speed: input.base_speed,
    })
    &&& u.armor_bonus == sum.armor
    &&& u.damage_taken_bonus == sum.damage_taken
    &&& u.speed == input.base_speed + sum.speed
    &&& u.reactions_left == input.reactions_max
    &&& u.reactions_max == input.reactions_max
    &&& u.statuses == input.statuses@
    &&& u.caster_context == CasterContext::plain()
    &&& u.aoo_dice is None
    &&& u.auras == Seq::<AuraModel>::empty()
    &&& u.enemy_phases == Seq::<PhaseModel>::empty()
    &&& u.passives == Seq::<String>::empty()
    &&& u.tags == Seq::<String>::empty()
    &&& u.pools == input.pools
    &&& u.regen_per_pool == input.regen_per_pool
    &&& u.template_id == input.template_id
}

/// Builds a unit.
pub fn build_unit(input: UnitBuildInput, content: &ContentView) -> (r: Unit)
    requires
        bonuses_fit(input.statuses@, *content, input.base_speed as int),
    ensures
        is_built(r@, input, *content),
{
    let mut armor_bonus: i32 = 0;
    let mut speed_bonus: i32 = 0;
    let mut damage_taken_bonus: i32 = 0;
    let mut i: usize = 0;
    assert(input.statuses@.take(0) =~= Seq::empty());
    while i < input.statuses.len()
        invariant
            i <= input.statuses.len(),
            bonuses_fit(input.statuses@, *content, input.base_speed as int),
            ({
                let s = bonus_sum(input.statuses@.take(i as int), *content);
                armor_bonus == s.armor && speed_bonus == s.speed && damage_taken_bonus
                    == s.damage_taken
            }),
        decreases input.statuses.len() - i,
    {
        let b = content.status_bonuses(&input.statuses[i].id);
        assert(input.statuses@.take(i + 1).drop_last() =~= input.statuses@.take(i as int));
        assert(fits(bonus_sum(input.statuses@.take(i + 1), *content).armor));
        armor_bonus = armor_bonus + b.armor_bonus;
        speed_bonus = speed_bonus + b.speed_bonus;
        damage_taken_bonus = damage_taken_bonus + b.damage_taken_bonus;
        i = i + 1;
    }
    assert(input.statuses@.take(i as int) =~= input.statuses@);
    let r = Unit {
        id: input.uid,
        team: input.team,
        pos: input.pos,
        runtime: RuntimeStats {
            armor: input.armor,
            magic_resist: input.magic_resist,
            base_speed: input.base_speed,
        },
        armor_bonus,
        damage_taken_bonus,
        speed: input.base_speed + speed_bonus,
        reactions_left: input.reactions_max,
        reactions_max: input.reactions_max,
        statuses: input.statuses,
        caster_context: CasterContext::default(),
        aoo_dice: None,
        auras: Vec::new(),
        enemy_phases: Vec::new(),
        passives: Vec::new(),
        tags: Vec::new(),
        pools: input.pools,
        regen_per_pool: input.regen_per_pool,
        template_id: input.template_id,
    };
    assert(r@.auras =~= Seq::<AuraModel>::empty());
    assert(r@.enemy_phases =~= Seq::<PhaseModel>::empty());
    r
}

// ---------------------------------------------------------------------------
// All units
// ---------------------------------------------------------------------------

/// A status as the display world has it.
#[derive(Debug)]
pub struct EcsStatus {
    pub id: String,
    pub rounds_remaining: u32,
    pub dot_per_tick: i32,
    /// Who applied it; `None` for what the environment applied.
    pub applier: Option<Entity>,
}

/// Action and movement points.
#[derive(Clone, Copy, PartialEq, Eq, Structural, Debug)]
pub struct ActionPoints {
    pub action_points: i32,
    pub max_ap: i32,
    pub movement_points: i32,
}

/// A combatant of the display world. What is optional has a default: no speed,
/// one action, one reaction.
#[derive(Debug)]
pub struct CombatantRow {
    pub entity: Entity,
    pub hp: i32,
    pub max_hp: i32,
    pub armor: i32,
    pub magic_resist: i32,
    pub team: Team,
    pub speed: Option<i32>,
    pub ap: Option<ActionPoints>,
    pub reactions_max: Option<u8>,
    pub statuses: Vec<EcsStatus>,
    pub rage: Option<Pool>,
    pub mana: Option<Pool>,
    pub energy: Option<Pool>,
    pub template: Option<String>,
}

/// The engine's form of a status. One that the environment applied is credited
/// to a fixed object.
pub open spec fn engine_status(s: EcsStatus) -> ActiveStatus {
    ActiveStatus {
        id: s.id,
        rounds_remaining: s.rounds_remaining,
        dot_per_tick: s.dot_per_tick,
        applier: match s.applier {
            Some(e) => EffectSource::Unit(uid_of(e)),
            None => EffectSource::Env(EnvId(0)),
        },
    }
}

/// The engine's form of several statuses.
pub open spec fn engine_statuses(statuses: Seq<EcsStatus>) -> Seq<ActiveStatus> {
    Seq::new(statuses.len(), |i: int| engine_status(statuses[i]))
}

fn to_engine_statuses(statuses: &Vec<EcsStatus>) -> (r: Vec<ActiveStatus>)
    ensures
        r@ == engine_statuses(statuses@),
{
    let mut r: Vec<ActiveStatus> = Vec::new();
    let mut i: usize = 0;
    while i < statuses.len()
        invariant
            i <= statuses.len(),
            r@ == engine_statuses(statuses@).take(i as int),
        decreases statuses.len() - i,
    {
        let s = &statuses[i];
        let applier = match s.applier {
            Some(e) => EffectSource::Unit(entity_to_uid(e)),
            None => EffectSource::Env(EnvId(0)),
        };
        r.push(
            ActiveStatus {
                id: s.id.clone(),
                rounds_remaining: s.rounds_remaining,
                dot_per_tick: s.dot_per_tick,
                applier,
            },
        );
        assert(r@ =~= engine_statuses(statuses@).take(i + 1));
        i = i + 1;
    }
    assert(r@ =~= engine_statuses(statuses@));
    r
}

/// Where a combatant stands: the fallen are looked up among the corpses, the
/// living among the positions.
pub open spec fn standing(
    row: CombatantRow,
    positions: Map<Entity, Hex>,
    corpses: Map<Entity, Hex>,
) -> Option<Hex> {
    let layer = if row.hp <= 0 {
        corpses
    } else {
        positions
    };
    if layer.contains_key(row.entity) {
        Some(layer[row.entity])
    } else {
        None
    }
}

/// The speed of a combatant; zero where it has none.
pub open spec fn row_speed(row: CombatantRow) -> i32 {
    match row.speed {
        Some(s) => s,
        None => 0,
    }
}

/// Whether `u` is the unit of a combatant that stands on `pos`.
pub open spec fn is_unit_of(
    u: UnitModel,
    row: CombatantRow,
    pos: Hex,
    content: ContentView,
) -> bool {
    let ap = match row.ap {
        Some(a) => a,
        None => ActionPoints { action_points: 1, max_ap: 1, movement_points: 0 },
    };
    let reactions: i32 = match row.reactions_max {
        Some(n) => n as i32,
        None => 1,
    };
    let statuses = engine_statuses(row.statuses@);
    let sum = bonus_sum(statuses, content);
    &&& u.id == uid_of(row.entity)
    &&& u.team == row.team
    &&& u.pos == pos
    &&& u.runtime == (RuntimeStats {
        armor: row.armor,
        magic_resist: row.magic_resist,
        base_speed: row_speed(row),
    })
    &&& u.armor_bonus == sum.armor
    &&& u.damage_taken_bonus == sum.damage_taken
    &&& u.speed == row_speed(row) + sum.speed
    &&& u.reactions_left == reactions
    &&& u.reactions_max == reactions
    &&& u.statuses == statuses
    &&& u.caster_context == CasterContext::plain()
    &&& u.aoo_dice is None
    &&& u.auras == Seq::<AuraModel>::empty()
    &&& u.enemy_phases == Seq::<PhaseModel>::empty()
    &&& u.passives == Seq::<String>::empty()
    &&& u.tags == Seq::<String>::empty()
    &&& u.pools == (PoolTable {
        hp: Some(
            Pool {
                current: if row.hp <= 0 {
                    0
                } else {
                    row.hp
                },
                max: row.max_hp,
            },
        ),
        mana: row.mana,
        rage: row.rage,
        energy: row.energy,
        ap: Some(Pool { current: ap.action_points, max: ap.max_ap }),
        mp: Some(Pool { current: ap.movement_points, max: ap.movement_points }),
    })
    &&& u.regen_per_pool == regen_rules()
    &&& u.template_id == row.template
}

/// The unit of a combatant that stands on `pos`.
fn unit_of_row(row: &CombatantRow, pos: Hex, content: &ContentView) -> (r: Unit)
    requires
        bonuses_fit(engine_statuses(row.statuses@), *content, row_speed(*row) as int),
    ensures
        is_unit_of(r@, *row, pos, *content),
{
    let hp: i32 = if row.hp <= 0 {
        0
    } else {
        row.hp
    };
    let speed: i32 = match row.speed {
        Some(s) => s,
        None => 0,
    };
    let ap = match row.ap {
        Some(a) => a,
        None => ActionPoints { action_points: 1, max_ap: 1, movement_points: 0 },
    };
    let reactions_max: i32 = match row.reactions_max {
        Some(n) => n as i32,
        None => 1,
    };
    build_unit(
        UnitBuildInput {
            uid: entity_to_uid(row.entity),
            team: row.team,
            pos,
            armor: row.armor,
            magic_resist: row.magic_resist,
            base_speed: speed,
            reactions_max,
            statuses: to_engine_statuses(&row.statuses),
            pools: PoolTable {
                hp: Some(Pool { current: hp, max: row.max_hp }),
                mana: row.mana,
                rage: row.rage,
                energy: row.energy,
                ap: Some(Pool { current: ap.action_points, max: ap.max_ap }),
                mp: Some(Pool { current: ap.movement_points, max: ap.movement_points }),
            },
            regen_per_pool: default_regen(),
            template_id: row.template.clone(),
        },
        content,
    )
}

/// The combatants that stand somewhere, in order.
pub open spec fn placed(
    rows: Seq<CombatantRow>,
    positions: Map<Entity, Hex>,
    corpses: Map<Entity, Hex>,
) -> Seq<CombatantRow>
    decreases rows.len(),
{
    if rows.len() == 0 {
        Seq::empty()
    } else {
        let rest = placed(rows.drop_last(), positions, corpses);
        if standing(rows.last(), positions, corpses) is Some {
            rest.push(rows.last())
        } else {
            rest
        }
    }
}

/// The table that pairs combatants with their own ids.
pub open spec fn regular_ids(rows: Seq<CombatantRow>) -> IdTable
    decreases rows.len(),
{
    if rows.len() == 0 {
        IdTable::empty()
    } else {
        regular_ids(rows.drop_last()).pair(rows.last().entity, uid_of(rows.last().entity))
    }
}

/// Builds the engine's state from the combatants, and the id table with it.
/// Combatants that stand nowhere are left out; the fallen stay in with no hit
/// points.
pub fn from_ecs(
    rows: &Vec<CombatantRow>,
    positions: &HexPositions,
    corpses: &HexPositions,
    round: u32,
    ids: &mut UnitIdMap,
    content: &ContentView,
) -> (r: CombatState)
    requires
        forall|i: int|
            0 <= i < rows@.len() && standing(#[trigger] rows@[i], positions@, corpses@) is Some
                ==> bonuses_fit(
                engine_statuses(rows@[i].statuses@),
                *content,
                row_speed(rows@[i]) as int,
            ),
    ensures
        ({
            let kept = placed(rows@, positions@, corpses@);
            &&& r.units@.len() == kept.len()
            &&& forall|i: int|
                0 <= i < kept.len() ==> is_unit_of(
                    (#[trigger] r.units@[i])@,
                    kept[i],
                    standing(kept[i], positions@, corpses@)->0,
                    *content,
                )
            &&& final(ids)@ == regular_ids(kept)
        }),
        r.round == round,
        r.turn_queue.order@.len() == 0,
        r.turn_queue.index == 0,
        r.environment@.len() == 0,
        r.blocked_hexes@.len() == 0,
{
    ids.clear();
    let mut units: Vec<Unit> = Vec::new();
    let mut i: usize = 0;
    assert(rows@.take(0) =~= Seq::empty());
    while i < rows.len()
        invariant
            i <= rows.len(),
            forall|j: int|
                0 <= j < rows@.len() && standing(#[trigger] rows@[j], positions@, corpses@) is Some
                    ==> bonuses_fit(
                    engine_statuses(rows@[j].statuses@),
                    *content,
                    row_speed(rows@[j]) as int,
                ),
            ({
                let kept = placed(rows@.take(i as int), positions@, corpses@);
                &&& units@.len() == kept.len()
                &&& forall|j: int|
                    0 <= j < kept.len() ==> is_unit_of(
                        (#[trigger] units@[j])@,
                        kept[j],
                        standing(kept[j], positions@, corpses@)->0,
                        *content,
                    )
                &&& ids@ == regular_ids(kept)
            }),
        decreases rows.len() - i,
    {
        let row = &rows[i];
        assert(rows@.take(i + 1).drop_last() =~= rows@.take(i as int));
        let ghost kept = placed(rows@.take(i as int), positions@, corpses@);
        let cell = if row.hp <= 0 {
            corpses.get(row.entity)
        } else {
            positions.get(row.entity)
        };
        if let Some(pos) = cell {
            ids.insert(row.entity, entity_to_uid(row.entity));
            units.push(unit_of_row(row, pos, content));
            assert(kept.push(rows@[i as int]).drop_last() =~= kept);
        }
        i = i + 1;
    }
    assert(rows@.take(i as int) =~= rows@);
    CombatState {
        units,
        round,
        turn_queue: TurnQueue { order: Vec::new(), index: 0 },
        environment: Vec::new(),
        blocked_hexes: Vec::new(),
    }
}

// ---------------------------------------------------------------------------
// What depends on the combat as a whole
// ---------------------------------------------------------------------------

/// The place of the unit that an entity stands for.
pub open spec fn place_of_entity(
    units: Seq<UnitModel>,
    entity: Entity,
    ids: IdTable,
) -> Option<int> {
    match ids.id(entity) {
        Some(uid) => place_of(units, uid),
        None => None,
    }
}

fn find_place_of_entity(units: &Vec<Unit>, entity: Entity, ids: &UnitIdMap) -> (r: Option<usize>)
    ensures
        match r {
            Some(i) => place_of_entity(models(units@), entity, ids@) == Some(i as int) && i
                < units@.len(),
            None => place_of_entity(models(units@), entity, ids@) is None,
        },
{
    let uid = ids.get_id(entity)?;
    find_place(units, uid)
}

/// What a combatant brings to the numbers of its abilities.
#[derive(Debug)]
pub struct CasterRow {
    pub entity: Entity,
    pub str_mod: i32,
    pub int_mod: i32,
    pub dex_mod: i32,
    pub spell_power: i32,
    pub weapon_dice: Option<DiceExpr>,
    pub ranged_dice: Option<DiceExpr>,
    pub path: Option<String>,
}

/// The caster that a row describes.
pub open spec fn caster_of(row: CasterRow, paths: Seq<PathDef>) -> CasterContext {
    CasterContext {
        str_mod: row.str_mod,
        int_mod: row.int_mod,
        dex_mod: row.dex_mod,
        spell_power: row.spell_power,
        weapon_dice: row.weapon_dice,
        ranged_dice: row.ranged_dice,
        crit_fail_outcome: crit_fail_of(row.path, paths),
    }
}

/// The abilities of a combatant and what it fights with.
#[derive(Debug)]
pub struct FighterRow {
    pub entity: Entity,
    pub abilities: Vec<String>,
    pub weapon_dice: Option<DiceExpr>,
    pub strength_mod: i32,
    pub is_dead: bool,
}

/// The dice of a combatant's opportunity attacks; the fallen make none.
pub open spec fn fighter_dice(row: FighterRow, content: ContentView) -> Option<DiceExpr> {
    if row.is_dead {
        None
    } else {
        aoo_dice(has_melee_attack(row.abilities@, content), row.weapon_dice, row.strength_mod)
    }
}

/// Whether a combatant's strength can be added to its weapon's bonus.
pub open spec fn fighter_fits(row: FighterRow, content: ContentView) -> bool {
    !row.is_dead ==> aoo_dice_fits(
        has_melee_attack(row.abilities@, content),
        row.weapon_dice,
        row.strength_mod,
    )
}

fn make_fighter_dice(row: &FighterRow, content: &ContentView) -> (r: Option<DiceExpr>)
    requires
        fighter_fits(*row, *content),
    ensures
        r == fighter_dice(*row, *content),
{
    if row.is_dead {
        None
    } else {
        make_aoo_dice(
            any_melee_attack(&row.abilities, content),
            row.weapon_dice,
            row.strength_mod,
        )
    }
}

/// The abilities that fire by themselves, in order.
pub open spec fn passives_of(ids: Seq<String>, content: ContentView) -> Seq<String>
    decreases ids.len(),
{
    if ids.len() == 0 {
        Seq::empty()
    } else {
        let rest = passives_of(ids.drop_last(), content);
        match content.ability(ids.last()@) {
            Some(d) if d.passive => rest.push(ids.last()),
            _ => rest,
        }
    }
}

fn list_passives(ids: &Vec<String>, content: &ContentView) -> (r: Vec<String>)
    ensures
        r@ == passives_of(ids@, *content),
{
    let mut r: Vec<String> = Vec::new();
    let mut i: usize = 0;
    assert(ids@.take(0) =~= Seq::empty());
    while i < ids.len()
        invariant
            i <= ids.len(),
            r@ == passives_of(ids@.take(i as int), *content),
        decreases ids.len() - i,
    {
        assert(ids@.take(i + 1).drop_last() =~= ids@.take(i as int));
        if let Some(d) = content.ability_def(&ids[i]) {
            if d.passive {
                r.push(ids[i].clone());
            }
        }
        i = i + 1;
    }
    assert(ids@.take(i as int) =~= ids@);
    r
}

/// An aura that a living combatant spreads.
#[derive(Debug)]
pub struct AuraRow {
    pub entity: Entity,
    pub radius: u32,
    pub status: String,
    pub affects: TeamRelation,
    pub affects_tags: Vec<String>,
}

/// The aura that a row describes.
pub open spec fn aura_of(row: AuraRow) -> AuraModel {
    AuraModel {
        radius: row.radius,
        status_id: row.status,
        applies_to: row.affects,
        affects_tags: row.affects_tags@,
    }
}

/// The tags of a combatant.
#[derive(Debug)]
pub struct TagRow {
    pub entity: Entity,
    pub tags: Vec<String>,
}

/// A phase that a combatant may enter, as the content has it.
#[derive(Debug)]
pub struct PendingPhase {
    /// Share of hit points, in percent, below which the phase begins.
    pub hp_below_pct: u32,
    /// Hit points that the phase's own attributes give, where it has some.
    pub max_hp: Option<i32>,
    pub heal_to_full: bool,
    pub tags: Option<Vec<String>>,
    /// Armor and magic resistance of the phase's equipment, where it has some.
    pub equipment: Option<(i32, i32)>,
    pub base_speed: Option<i32>,
}

/// The phases that a combatant may still enter.
#[derive(Debug)]
pub struct PhaseRow {
    pub entity: Entity,
    pub pending: Vec<PendingPhase>,
}

/// The engine's form of a phase. Its numbers change only with its equipment;
/// without a speed of its own it keeps that of the unit.
pub open spec fn phase_of(phase: PendingPhase, base_speed: i32) -> PhaseModel {
    PhaseModel {
        pct: phase.hp_below_pct,
        new_max_hp: match phase.max_hp {
            Some(m) => m,
            None => 0,
        },
        heal_to_full: phase.heal_to_full,
        tags: match phase.tags {
            Some(t) => Some(t@),
            None => None,
        },
        runtime: match phase.equipment {
            Some((armor, magic_resist)) => Some(
                RuntimeStats {
                    armor,
                    magic_resist,
                    base_speed: match phase.base_speed {
                        Some(s) => s,
                        None => base_speed,
                    },
                },
            ),
            None => None,
        },
    }
}

/// The engine's form of several phases.
pub open spec fn phases_of_row(pending: Seq<PendingPhase>, base_speed: i32) -> Seq<PhaseModel> {
    Seq::new(pending.len(), |i: int| phase_of(pending[i], base_speed))
}

fn make_phases(pending: &Vec<PendingPhase>, base_speed: i32) -> (r: Vec<PhaseEntry>)
    ensures
        Seq::new(r@.len(), |i: int| r@[i]@) == phases_of_row(pending@, base_speed),
{
    let mut r: Vec<PhaseEntry> = Vec::new();
    let mut i: usize = 0;
    while i < pending.len()
        invariant
            i <= pending.len(),
            r@.len() == i,
            forall|j: int| 0 <= j < i ==> (#[trigger] r@[j])@ == phase_of(pending@[j], base_speed),
        decreases pending.len() - i,
    {
        let p = &pending[i];
        let tags = match &p.tags {
            Some(t) => Some(copy_strings(t)),
            None => None,
        };
        let new_max_hp: i32 = match p.max_hp {
            Some(m) => m,
            None => 0,
        };
        let speed: i32 = match p.base_speed {
            Some(s) => s,
            None => base_speed,
        };
        let runtime = match p.equipment {
            Some((armor, magic_resist)) => Some(
                RuntimeStats { armor, magic_resist, base_speed: speed },
            ),
            None => None,
        };
        let entry = PhaseEntry {
            pct: p.hp_below_pct,
            new_max_hp,
            heal_to_full: p.heal_to_full,
            tags,
            runtime,
        };
        assert(entry@ == phase_of(pending@[i as int], base_speed));
        r.push(entry);
        i = i + 1;
    }
    assert(Seq::new(r@.len(), |j: int| r@[j]@) =~= phases_of_row(pending@, base_speed));
    r
}

/// The unit of a row gets its caster.
pub open spec fn with_caster(
    units: Seq<UnitModel>,
    row: CasterRow,
    ids: IdTable,
    paths: Seq<PathDef>,
) -> Seq<UnitModel> {
    match place_of_entity(units, row.entity, ids) {
        Some(i) => units.update(
            i,
            UnitModel { caster_context: caster_of(row, paths), ..units[i] },
        ),
        _ => units,
    }
}

/// The unit of a row gets its caster. The same for several, one after the other.
pub open spec fn with_caster_all(
    units: Seq<UnitModel>,
    rows: Seq<CasterRow>,
    ids: IdTable,
    paths: Seq<PathDef>,
) -> Seq<UnitModel>
    decreases rows.len(),
{
    if rows.len() == 0 {
        units
    } else {
        with_caster(
            with_caster_all(units, rows.drop_last(), ids, paths),
            rows.last(),
            ids, paths,
        )
    }
}

/// The unit of a row gets its caster.
fn set_casters(
    units: &mut Vec<Unit>,
    rows: &Vec<CasterRow>,
    ids: &UnitIdMap,
    paths: &Vec<PathDef>,
)
    ensures
        models(final(units)@) == with_caster_all(models(old(units)@), rows@, ids@, paths@),
{
    let ghost before = models(units@);
    let mut k: usize = 0;
    assert(rows@.take(0) =~= Seq::empty());
    while k < rows.len()
        invariant
            k <= rows.len(),
            models(units@) == with_caster_all(before, rows@.take(k as int), ids@, paths@),
        decreases rows.len() - k,
    {
        let row = &rows[k];
        let ghost now = models(units@);
        assert(rows@.take(k + 1).drop_last() =~= rows@.take(k as int));
        if let Some(i) = find_place_of_entity(units, row.entity, ids) {
            units[i].caster_context = CasterContext {
                str_mod: row.str_mod,
                int_mod: row.int_mod,
                dex_mod: row.dex_mod,
                spell_power: row.spell_power,
                weapon_dice: row.weapon_dice,
                ranged_dice: row.ranged_dice,
                crit_fail_outcome: crit_fail_effect_of(&row.path, paths),
            };
        }
        assert(models(units@) =~= with_caster(now, rows@[k as int], ids@, paths@));
        k = k + 1;
    }
    assert(rows@.take(k as int) =~= rows@);
}

/// The unit of a row that can make opportunity attacks gets its dice.
pub open spec fn with_aoo_dice(
    units: Seq<UnitModel>,
    row: FighterRow,
    ids: IdTable,
    content: ContentView,
) -> Seq<UnitModel> {
    match place_of_entity(units, row.entity, ids) {
        Some(i) if fighter_dice(row, content) is Some => units.update(
            i,
            UnitModel { aoo_dice: fighter_dice(row, content), ..units[i] },
        ),
        _ => units,
    }
}

/// The unit of a row that can make opportunity attacks gets its dice. The same
/// for several, one after the other.
pub open spec fn with_aoo_dice_all(
    units: Seq<UnitModel>,
    rows: Seq<FighterRow>,
    ids: IdTable,
    content: ContentView,
) -> Seq<UnitModel>
    decreases rows.len(),
{
    if rows.len() == 0 {
        units
    } else {
        with_aoo_dice(
            with_aoo_dice_all(units, rows.drop_last(), ids, content),
            rows.last(),
            ids, content,
        )
    }
}

/// The unit of a row that can make opportunity attacks gets its dice.
fn set_aoo_dice(
    units: &mut Vec<Unit>,
    rows: &Vec<FighterRow>,
    ids: &UnitIdMap,
    content: &ContentView,
)
    requires
        forall|j: int| 0 <= j < rows@.len() ==> fighter_fits(#[trigger] rows@[j], *content),
    ensures
        models(final(units)@) == with_aoo_dice_all(models(old(units)@), rows@, ids@, *content),
{
    let ghost before = models(units@);
    let mut k: usize = 0;
    assert(rows@.take(0) =~= Seq::empty());
    while k < rows.len()
        invariant
            k <= rows.len(),
            forall|j: int| 0 <= j < rows@.len() ==> fighter_fits(#[trigger] rows@[j], *content),
            models(units@) == with_aoo_dice_all(before, rows@.take(k as int), ids@, *content),
        decreases rows.len() - k,
    {
        let row = &rows[k];
        let ghost now = models(units@);
        assert(rows@.take(k + 1).drop_last() =~= rows@.take(k as int));
        assert(fighter_fits(rows@[k as int], *content));
        let dice = make_fighter_dice(row, content);
        if dice.is_some() {
            if let Some(i) = find_place_of_entity(units, row.entity, ids) {
                units[i].aoo_dice = dice;
            }
        }
        assert(models(units@) =~= with_aoo_dice(now, rows@[k as int], ids@, *content));
        k = k + 1;
    }
    assert(rows@.take(k as int) =~= rows@);
}

/// The unit of a row gets an aura more.
pub open spec fn with_aura(
    units: Seq<UnitModel>,
    row: AuraRow,
    ids: IdTable,
) -> Seq<UnitModel> {
    match place_of_entity(units, row.entity, ids) {
        Some(i) => units.update(
            i,
            UnitModel { auras: units[i].auras.push(aura_of(row)), ..units[i] },
        ),
        _ => units,
    }
}

/// The unit of a row gets an aura more. The same for several, one after the other.
pub open spec fn with_aura_all(
    units: Seq<UnitModel>,
    rows: Seq<AuraRow>,
    ids: IdTable,
) -> Seq<UnitModel>
    decreases rows.len(),
{
    if rows.len() == 0 {
        units
    } else {
        with_aura(
            with_aura_all(units, rows.drop_last(), ids),
            rows.last(),
            ids,
        )
    }
}

/// The unit of a row gets an aura more.
fn add_auras(
    units: &mut Vec<Unit>,
    rows: &Vec<AuraRow>,
    ids: &UnitIdMap,
)
    ensures
        models(final(units)@) == with_aura_all(models(old(units)@), rows@, ids@),
{
    let ghost before = models(units@);
    let mut k: usize = 0;
    assert(rows@.take(0) =~= Seq::empty());
    while k < rows.len()
        invariant
            k <= rows.len(),
            models(units@) == with_aura_all(before, rows@.take(k as int), ids@),
        decreases rows.len() - k,
    {
        let row = &rows[k];
        let ghost now = models(units@);
        assert(rows@.take(k + 1).drop_last() =~= rows@.take(k as int));
        if let Some(i) = find_place_of_entity(units, row.entity, ids) {
            let aura = AuraDef {
                radius: row.radius,
                status_id: row.status.clone(),
                applies_to: row.affects,
                affects_tags: copy_strings(&row.affects_tags),
            };
            assert(aura@ == aura_of(rows@[k as int]));
            let ghost was = units@[i as int]@.auras;
            units[i].auras.push(aura);
            assert(units@[i as int]@.auras =~= was.push(aura_of(rows@[k as int])));
        }
        assert(models(units@) =~= with_aura(now, rows@[k as int], ids@));
        k = k + 1;
    }
    assert(rows@.take(k as int) =~= rows@);
}

/// The unit of a row gets its tags.
pub open spec fn with_tags(
    units: Seq<UnitModel>,
    row: TagRow,
    ids: IdTable,
) -> Seq<UnitModel> {
    match place_of_entity(units, row.entity, ids) {
        Some(i) => units.update(
            i,
            UnitModel { tags: row.tags@, ..units[i] },
        ),
        _ => units,
    }
}

/// The unit of a row gets its tags. The same for several, one after the other.
pub open spec fn with_tags_all(
    units: Seq<UnitModel>,
    rows: Seq<TagRow>,
    ids: IdTable,
) -> Seq<UnitModel>
    decreases rows.len(),
{
    if rows.len() == 0 {
        units
    } else {
        with_tags(
            with_tags_all(units, rows.drop_last(), ids),
            rows.last(),
            ids,
        )
    }
}

/// The unit of a row gets its tags.
fn set_tags(
    units: &mut Vec<Unit>,
    rows: &Vec<TagRow>,
    ids: &UnitIdMap,
)
    ensures
        models(final(units)@) == with_tags_all(models(old(units)@), rows@, ids@),
{
    let ghost before = models(units@);
    let mut k: usize = 0;
    assert(rows@.take(0) =~= Seq::empty());
    while k < rows.len()
        invariant
            k <= rows.len(),
            models(units@) == with_tags_all(before, rows@.take(k as int), ids@),
        decreases rows.len() - k,
    {
        let row = &rows[k];
        let ghost now = models(units@);
        assert(rows@.take(k + 1).drop_last() =~= rows@.take(k as int));
        if let Some(i) = find_place_of_entity(units, row.entity, ids) {
            units[i].tags = copy_strings(&row.tags);
        }
        assert(models(units@) =~= with_tags(now, rows@[k as int], ids@));
        k = k + 1;
    }
    assert(rows@.take(k as int) =~= rows@);
}

/// The unit of a row gets the phases that it may enter.
pub open spec fn with_phases(
    units: Seq<UnitModel>,
    row: PhaseRow,
    ids: IdTable,
) -> Seq<UnitModel> {
    match place_of_entity(units, row.entity, ids) {
        Some(i) => units.update(
            i,
            UnitModel {
                enemy_phases: phases_of_row(row.pending@, units[i].runtime.base_speed),
                ..units[i]
            },
        ),
        _ => units,
    }
}

/// The unit of a row gets the phases that it may enter. The same for several, one
/// after the other.
pub open spec fn with_phases_all(
    units: Seq<UnitModel>,
    rows: Seq<PhaseRow>,
    ids: IdTable,
) -> Seq<UnitModel>
    decreases rows.len(),
{
    if rows.len() == 0 {
        units
    } else {
        with_phases(
            with_phases_all(units, rows.drop_last(), ids),
            rows.last(),
            ids,
        )
    }
}

/// The unit of a row gets the phases that it may enter.
fn set_phases(
    units: &mut Vec<Unit>,
    rows: &Vec<PhaseRow>,
    ids: &UnitIdMap,
)
    ensures
        models(final(units)@) == with_phases_all(models(old(units)@), rows@, ids@),
{
    let ghost before = models(units@);
    let mut k: usize = 0;
    assert(rows@.take(0) =~= Seq::empty());
    while k < rows.len()
        invariant
            k <= rows.len(),
            models(units@) == with_phases_all(before, rows@.take(k as int), ids@),
        decreases rows.len() - k,
    {
        let row = &rows[k];
        let ghost now = models(units@);
        assert(rows@.take(k + 1).drop_last() =~= rows@.take(k as int));
        if let Some(i) = find_place_of_entity(units, row.entity, ids) {
            let base_speed: i32 = units[i].runtime.base_speed;
            units[i].enemy_phases = make_phases(&row.pending, base_speed);
            assert(units@[i as int]@.enemy_phases =~= phases_of_row(
                rows@[k as int].pending@,
                base_speed,
            ));
        }
        assert(models(units@) =~= with_phases(now, rows@[k as int], ids@));
        k = k + 1;
    }
    assert(rows@.take(k as int) =~= rows@);
}

/// The unit of a row gets its abilities that fire by themselves.
pub open spec fn with_passives(
    units: Seq<UnitModel>,
    row: FighterRow,
    ids: IdTable,
    content: ContentView,
) -> Seq<UnitModel> {
    match place_of_entity(units, row.entity, ids) {
        Some(i) => units.update(
            i,
            UnitModel { passives: passives_of(row.abilities@, content), ..units[i] },
        ),
        _ => units,
    }
}

/// The unit of a row gets its abilities that fire by themselves. The same for
/// several, one after the other.
pub open spec fn with_passives_all(
    units: Seq<UnitModel>,
    rows: Seq<FighterRow>,
    ids: IdTable,
    content: ContentView,
) -> Seq<UnitModel>
    decreases rows.len(),
{
    if rows.len() == 0 {
        units
    } else {
        with_passives(
            with_passives_all(units, rows.drop_last(), ids, content),
            rows.last(),
            ids, content,
        )
    }
}

/// The unit of a row gets its abilities that fire by themselves.
fn set_passives(
    units: &mut Vec<Unit>,
    rows: &Vec<FighterRow>,
    ids: &UnitIdMap,
    content: &ContentView,
)
    ensures
        models(final(units)@) == with_passives_all(models(old(units)@), rows@, ids@, *content),
{
    let ghost before = models(units@);
    let mut k: usize = 0;
    assert(rows@.take(0) =~= Seq::empty());
    while k < rows.len()
        invariant
            k <= rows.len(),
            models(units@) == with_passives_all(before, rows@.take(k as int), ids@, *content),
        decreases rows.len() - k,
    {
        let row = &rows[k];
        let ghost now = models(units@);
        assert(rows@.take(k + 1).drop_last() =~= rows@.take(k as int));
        if let Some(i) = find_place_of_entity(units, row.entity, ids) {
            units[i].passives = list_passives(&row.abilities, content);
        }
        assert(models(units@) =~= with_passives(now, rows@[k as int], ids@, *content));
        k = k + 1;
    }
    assert(rows@.take(k as int) =~= rows@);
}

/// Everything that the combat as a whole adds to the units.
#[derive(Debug)]
pub struct CombatSetup {
    pub blocked_hexes: Vec<Hex>,
    pub environment: Vec<EnvObject>,
    pub casters: Vec<CasterRow>,
    pub fighters: Vec<FighterRow>,
    pub auras: Vec<AuraRow>,
    pub tags: Vec<TagRow>,
    pub phases: Vec<PhaseRow>,
}

/// The units with everything added that the combat as a whole gives them.
pub open spec fn populated(
    units: Seq<UnitModel>,
    setup: CombatSetup,
    ids: IdTable,
    content: ContentView,
    paths: Seq<PathDef>,
) -> Seq<UnitModel> {
    let a = with_caster_all(units, setup.casters@, ids, paths);
    let b = with_aoo_dice_all(a, setup.fighters@, ids, content);
    let c = with_aura_all(b, setup.auras@, ids);
    let d = with_tags_all(c, setup.tags@, ids);
    let e = with_phases_all(d, setup.phases@, ids);
    with_passives_all(e, setup.fighters@, ids, content)
}

/// Adds to a fresh state what the combat as a whole gives it.
pub fn populate(
    state: &mut CombatState,
    setup: CombatSetup,
    ids: &UnitIdMap,
    content: &ContentView,
    paths: &Vec<PathDef>,
)
    requires
        forall|j: int|
            0 <= j < setup.fighters@.len() ==> fighter_fits(
                #[trigger] setup.fighters@[j],
                *content,
            ),
    ensures
        models(final(state).units@) == populated(
            models(old(state).units@),
            setup,
            ids@,
            *content,
            paths@,
        ),
        final(state).blocked_hexes == setup.blocked_hexes,
        final(state).environment == setup.environment,
        final(state).round == old(state).round,
        final(state).turn_queue == old(state).turn_queue,
{
    set_casters(&mut state.units, &setup.casters, ids, paths);
    set_aoo_dice(&mut state.units, &setup.fighters, ids, content);
    add_auras(&mut state.units, &setup.auras, ids);
    set_tags(&mut state.units, &setup.tags, ids);
    set_phases(&mut state.units, &setup.phases, ids);
    set_passives(&mut state.units, &setup.fighters, ids, content);
    state.blocked_hexes = setup.blocked_hexes;
    state.environment = setup.environment;
}

/// Whether the engine has no state yet. Once it has, it alone changes it, and
/// nothing may be built anew.
pub fn needs_bootstrap(state: &CombatState) -> (r: bool)
    ensures
        r == (state.units@.len() == 0),
{
    state.units.len() == 0
}

// ---------------------------------------------------------------------------
// Turn order
// ---------------------------------------------------------------------------

/// An initiative that is set in advance, by the name of the combatant.
#[derive(Debug)]
pub struct PresetInitiative {
    pub name: String,
    pub value: i32,
}

/// The name of a combatant.
#[derive(Debug)]
pub struct NameRow {
    pub entity: Entity,
    pub name: String,
}

/// The first entity with the given name.
pub open spec fn entity_named(names: Seq<NameRow>, name: Seq<char>) -> Option<Entity>
    decreases names.len(),
{
    if names.len() == 0 {
        None
    } else if names[0].name@ == name {
        Some(names[0].entity)
    } else {
        entity_named(names.drop_first(), name)
    }
}

fn find_named(names: &Vec<NameRow>, name: &String) -> (r: Option<Entity>)
    ensures
        r == entity_named(names@, name@),
{
    let mut i: usize = 0;
    assert(names@.skip(0) =~= names@);
    while i < names.len()
        invariant
            i <= names.len(),
            entity_named(names@, name@) == entity_named(names@.skip(i as int), name@),
        decreases names.len() - i,
    {
        assert(names@.skip(i as int).drop_first() =~= names@.skip(i + 1));
        if names[i].name == *name {
            return Some(names[i].entity);
        }
        i = i + 1;
    }
    None
}

/// The unit that a preset is for.
pub open spec fn preset_unit(
    preset: PresetInitiative,
    names: Seq<NameRow>,
    ids: IdTable,
) -> Option<UnitId> {
    match entity_named(names, preset.name@) {
        Some(e) => ids.id(e),
        None => None,
    }
}

/// The presets by unit, in order; those for nobody are left out.
pub open spec fn preset_units(
    presets: Seq<PresetInitiative>,
    names: Seq<NameRow>,
    ids: IdTable,
) -> Seq<(UnitId, i32)>
    decreases presets.len(),
{
    if presets.len() == 0 {
        Seq::empty()
    } else {
        let rest = preset_units(presets.drop_last(), names, ids);
        match preset_unit(presets.last(), names, ids) {
            Some(u) => rest.push((u, presets.last().value)),
            None => rest,
        }
    }
}

/// The presets by unit, in order; those for nobody are left out.
pub fn resolve_presets(
    presets: &Vec<PresetInitiative>,
    names: &Vec<NameRow>,
    ids: &UnitIdMap,
) -> (r: Vec<(UnitId, i32)>)
    ensures
        r@ == preset_units(presets@, names@, ids@),
{
    let mut r: Vec<(UnitId, i32)> = Vec::new();
    let mut i: usize = 0;
    assert(presets@.take(0) =~= Seq::empty());
    while i < presets.len()
        invariant
            i <= presets.len(),
            r@ == preset_units(presets@.take(i as int), names@, ids@),
        decreases presets.len() - i,
    {
        assert(presets@.take(i + 1).drop_last() =~= presets@.take(i as int));
        if let Some(e) = find_named(names, &presets[i].name) {
            if let Some(u) = ids.get_id(e) {
                r.push((u, presets[i].value));
            }
        }
        i = i + 1;
    }
    assert(presets@.take(i as int) =~= presets@);
    r
}

/// The entities of units, in order; units without one are left out.
pub open spec fn entities_of(order: Seq<UnitId>, ids: IdTable) -> Seq<Entity>
    decreases order.len(),
{
    if order.len() == 0 {
        Seq::empty()
    } else {
        let rest = entities_of(order.drop_last(), ids);
        match ids.entity(order.last()) {
            Some(e) => rest.push(e),
            None => rest,
        }
    }
}

/// The engine's turn order as entities.
pub fn project_order(order: &Vec<UnitId>, ids: &UnitIdMap) -> (r: Vec<Entity>)
    ensures
        r@ == entities_of(order@, ids@),
{
    let mut r: Vec<Entity> = Vec::new();
    let mut i: usize = 0;
    assert(order@.take(0) =~= Seq::empty());
    while i < order.len()
        invariant
            i <= order.len(),
            r@ == entities_of(order@.take(i as int), ids@),
        decreases order.len() - i,
    {
        assert(order@.take(i + 1).drop_last() =~= order@.take(i as int));
        if let Some(e) = ids.get_entity(order[i]) {
            r.push(e);
        }
        i = i + 1;
    }
    assert(order@.take(i as int) =~= order@);
    r
}

/// Records the first round's start. The round is already being started, so no
/// further start of a round is announced; whose turn it is stays queued.
pub fn settle_first_round(
    events: &Vec<Event>,
    ids: &UnitIdMap,
    state: &CombatState,
    ctx: &mut TranslateCtx,
)
    ensures
        final(ctx)@ == (Translation {
            round_started: false,
            ..(Translation { cast: false, track: None, ..old(ctx)@ }).after_all(
                events@,
                ids@,
                state.units@,
            )
        }),
        final(ctx).queues.phases@ == old(ctx).queues.phases@ + crate::process::phases_of(events@),
        final(ctx).queues.animations == old(ctx).queues.animations,
        final(ctx).queues.phase_overrides == old(ctx).queues.phase_overrides,
{
    finish_tick(events, ids, state, ctx);
    let ghost t = ctx@;
    ctx.queues.turn_lifecycle.round_started = false;
    assert(ctx@ =~= Translation { round_started: false, ..t });
}

// ---------------------------------------------------------------------------
// Laws
// ---------------------------------------------------------------------------

/// Whether two units differ at most in what the combat as a whole gives them.
pub open spec fn same_body(a: UnitModel, b: UnitModel) -> bool {
    a == (UnitModel {
        caster_context: a.caster_context,
        aoo_dice: a.aoo_dice,
        auras: a.auras,
        enemy_phases: a.enemy_phases,
        passives: a.passives,
        tags: a.tags,
        ..b
    })
}

/// Whether two lists hold the same units up to what the combat as a whole gives
/// them.
pub open spec fn same_bodies(a: Seq<UnitModel>, b: Seq<UnitModel>) -> bool {
    &&& a.len() == b.len()
    &&& forall|i: int| 0 <= i < a.len() ==> same_body(#[trigger] a[i], b[i])
}

proof fn with_caster_keeps_bodies(
    units: Seq<UnitModel>,
    rows: Seq<CasterRow>,
    ids: IdTable,
    paths: Seq<PathDef>,
)
    ensures
        same_bodies(with_caster_all(units, rows, ids, paths), units),
    decreases rows.len(),
{
    if rows.len() > 0 {
        with_caster_keeps_bodies(units, rows.drop_last(), ids, paths);
    }
}

proof fn with_aoo_dice_keeps_bodies(
    units: Seq<UnitModel>,
    rows: Seq<FighterRow>,
    ids: IdTable,
    content: ContentView,
)
    ensures
        same_bodies(with_aoo_dice_all(units, rows, ids, content), units),
    decreases rows.len(),
{
    if rows.len() > 0 {
        with_aoo_dice_keeps_bodies(units, rows.drop_last(), ids, content);
    }
}

proof fn with_aura_keeps_bodies(units: Seq<UnitModel>, rows: Seq<AuraRow>, ids: IdTable)
    ensures
        same_bodies(with_aura_all(units, rows, ids), units),
    decreases rows.len(),
{
    if rows.len() > 0 {
        with_aura_keeps_bodies(units, rows.drop_last(), ids);
    }
}

proof fn with_tags_keeps_bodies(units: Seq<UnitModel>, rows: Seq<TagRow>, ids: IdTable)
    ensures
        same_bodies(with_tags_all(units, rows, ids), units),
    decreases rows.len(),
{
    if rows.len() > 0 {
        with_tags_keeps_bodies(units, rows.drop_last(), ids);
    }
}

proof fn with_phases_keeps_bodies(units: Seq<UnitModel>, rows: Seq<PhaseRow>, ids: IdTable)
    ensures
        same_bodies(with_phases_all(units, rows, ids), units),
    decreases rows.len(),
{
    if rows.len() > 0 {
        with_phases_keeps_bodies(units, rows.drop_last(), ids);
    }
}

proof fn with_passives_keeps_bodies(
    units: Seq<UnitModel>,
    rows: Seq<FighterRow>,
    ids: IdTable,
    content: ContentView,
)
    ensures
        same_bodies(with_passives_all(units, rows, ids, content), units),
    decreases rows.len(),
{
    if rows.len() > 0 {
        with_passives_keeps_bodies(units, rows.drop_last(), ids, content);
    }
}

/// What the combat as a whole adds leaves the units as they are otherwise: as
/// many, in the same order, with the same ids, teams, places, pools, statuses
/// and numbers.
pub proof fn law_setup_keeps_bodies(
    units: Seq<UnitModel>,
    setup: CombatSetup,
    ids: IdTable,
    content: ContentView,
    paths: Seq<PathDef>,
)
    ensures
        same_bodies(populated(units, setup, ids, content, paths), units),
{
    let a = with_caster_all(units, setup.casters@, ids, paths);
    let b = with_aoo_dice_all(a, setup.fighters@, ids, content);
    let c = with_aura_all(b, setup.auras@, ids);
    let d = with_tags_all(c, setup.tags@, ids);
    let e = with_phases_all(d, setup.phases@, ids);
    let f = with_passives_all(e, setup.fighters@, ids, content);
    with_caster_keeps_bodies(units, setup.casters@, ids, paths);
    with_aoo_dice_keeps_bodies(a, setup.fighters@, ids, content);
    with_aura_keeps_bodies(b, setup.auras@, ids);
    with_tags_keeps_bodies(c, setup.tags@, ids);
    with_phases_keeps_bodies(d, setup.phases@, ids);
    with_passives_keeps_bodies(e, setup.fighters@, ids, content);
    assert forall|i: int| 0 <= i < f.len() implies same_body(#[trigger] f[i], units[i]) by {
        assert(same_body(f[i], e[i]));
        assert(same_body(e[i], d[i]));
        assert(same_body(d[i], c[i]));
        assert(same_body(c[i], b[i]));
        assert(same_body(b[i], a[i]));
        assert(same_body(a[i], units[i]));
    }
}

/// The id table of a fresh state is inverse, holds exactly the combatants that
/// stand somewhere, and gives each its own id.
pub proof fn law_regular_ids(rows: Seq<CombatantRow>)
    ensures
        regular_ids(rows).is_inverse(),
        forall|e: Entity| #[trigger]
            regular_ids(rows).to_id.contains_key(e) ==> regular_ids(rows).to_id[e] == uid_of(e),
        forall|e: Entity| #[trigger]
            regular_ids(rows).to_id.contains_key(e) <==> exists|i: int|
                0 <= i < rows.len() && (#[trigger] rows[i]).entity == e,
    decreases rows.len(),
{
    if rows.len() > 0 {
        let rest = rows.drop_last();
        law_regular_ids(rest);
        crate::ids::law_regular_pair_keeps_inverse(regular_ids(rest), rows.last().entity);
        assert forall|e: Entity| #[trigger]
            regular_ids(rows).to_id.contains_key(e) <==> exists|i: int|
                0 <= i < rows.len() && (#[trigger] rows[i]).entity == e by {
            if regular_ids(rows).to_id.contains_key(e) {
                if e == rows.last().entity {
                    assert(rows[rows.len() - 1].entity == e);
                } else {
                    let i = choose|i: int| 0 <= i < rest.len() && (#[trigger] rest[i]).entity == e;
                    assert(rows[i].entity == e);
                }
            }
            if exists|i: int| 0 <= i < rows.len() && (#[trigger] rows[i]).entity == e {
                let i = choose|i: int| 0 <= i < rows.len() && (#[trigger] rows[i]).entity == e;
                if i < rest.len() {
                    assert(rest[i].entity == e);
                }
            }
        }
    }
}

/// The fallen enter with no hit points, the living with the ones they have.
pub proof fn law_tombstones(u: UnitModel, row: CombatantRow, pos: Hex, content: ContentView)
    requires
        is_unit_of(u, row, pos, content),
    ensures
        u.pools.hp matches Some(p) && (row.hp <= 0 ==> p.current == 0) && (row.hp > 0 ==> p.current
            == row.hp),
        u.reactions_left == u.reactions_max,
{
}

/// Each status adds the bonuses that its definition gives, and one that is not known adds
/// none.
pub proof fn law_bonuses_by_one_more(
    statuses: Seq<ActiveStatus>,
    more: ActiveStatus,
    content: ContentView,
)
    ensures
        ({
            let none = bonus_sum(Seq::empty(), content);
            none.armor == 0 && none.speed == 0 && none.damage_taken == 0
        }),
        ({
            let a = bonus_sum(statuses, content);
            let b = bonus_sum(statuses.push(more), content);
            match content.status(more.id@) {
                Some(d) => {
                    &&& b.armor - a.armor == d.bonuses.armor_bonus
                    &&& b.speed - a.speed == d.bonuses.speed_bonus
                    &&& b.damage_taken - a.damage_taken == d.bonuses.damage_taken_bonus
                },
                None => a == b,
            }
        }),
{
    assert(statuses.push(more).drop_last() =~= statuses);
}

/// A built unit is what it is built from: its numbers, its statuses with their bonuses, all of
/// its reactions, its pools and their rules; it has nothing else of its own yet.
pub proof fn law_built_unit(u: UnitModel, input: UnitBuildInput, content: ContentView)
    requires
        is_built(u, input, content),
    ensures
        u.id == input.uid && u.team == input.team && u.pos == input.pos,
        u.runtime.armor == input.armor,
        u.runtime.magic_resist == input.magic_resist,
        u.runtime.base_speed == input.base_speed,
        u.armor_bonus == bonus_sum(input.statuses@, content).armor,
        u.damage_taken_bonus == bonus_sum(input.statuses@, content).damage_taken,
        u.speed - input.base_speed == bonus_sum(input.statuses@, content).speed,
        u.reactions_left == input.reactions_max && u.reactions_max == input.reactions_max,
        u.statuses == input.statuses@,
        u.pools == input.pools,
        u.regen_per_pool == input.regen_per_pool,
        u.template_id == input.template_id,
        u.aoo_dice is None,
        u.auras.len() == 0 && u.enemy_phases.len() == 0 && u.passives.len() == 0 && u.tags.len()
            == 0,
        u.caster_context.str_mod == 0 && u.caster_context.int_mod == 0 && u.caster_context.dex_mod
            == 0 && u.caster_context.spell_power == 0,
        u.caster_context.weapon_dice is None && u.caster_context.ranged_dice is None,
        u.caster_context.crit_fail_outcome is Miss,
{
}

/// A status keeps its name, its rounds and its damage, and comes from the unit of the entity
/// that put it on, or from the surroundings where nobody did.
pub proof fn law_engine_status(statuses: Seq<EcsStatus>, i: int)
    requires
        0 <= i < statuses.len(),
    ensures
        engine_statuses(statuses).len() == statuses.len(),
        ({
            let (s, r) = (statuses[i], engine_statuses(statuses)[i]);
            &&& r.id == s.id
            &&& r.rounds_remaining == s.rounds_remaining
            &&& r.dot_per_tick == s.dot_per_tick
            &&& s.applier matches Some(e) ==> r.applier == EffectSource::Unit(UnitId(e.bits))
            &&& s.applier is None ==> r.applier is Env
        }),
{
}

/// The living stand on one layer and the fallen lie on another; who is not on its own layer
/// takes no part.
pub proof fn law_who_takes_part(
    row: CombatantRow,
    positions: Map<Entity, Hex>,
    corpses: Map<Entity, Hex>,
)
    ensures
        ({
            let at = standing(row, positions, corpses);
            &&& row.hp >= 1 ==> (at is Some <==> positions.contains_key(row.entity))
            &&& row.hp >= 1 && at is Some ==> at->0 == positions[row.entity]
            &&& row.hp <= 0 ==> (at is Some <==> corpses.contains_key(row.entity))
            &&& row.hp <= 0 && at is Some ==> at->0 == corpses[row.entity]
        }),
{
}

/// Combatants take part in order, exactly those with a place, and each gets the id of its own
/// entity.
pub proof fn law_placed_by_one_more(
    rows: Seq<CombatantRow>,
    more: CombatantRow,
    positions: Map<Entity, Hex>,
    corpses: Map<Entity, Hex>,
)
    ensures
        placed(Seq::empty(), positions, corpses).len() == 0,
        standing(more, positions, corpses) is Some ==> placed(rows.push(more), positions, corpses)
            == placed(rows, positions, corpses).push(more),
        standing(more, positions, corpses) is None ==> placed(rows.push(more), positions, corpses)
            == placed(rows, positions, corpses),
        regular_ids(rows.push(more)).id(more.entity) == Some(UnitId(more.entity.bits)),
        regular_ids(rows.push(more)).entity(UnitId(more.entity.bits)) == Some(more.entity),
{
    assert(rows.push(more).drop_last() =~= rows);
}

/// A unit of a combatant has what its row says. Without points of its own it has one action
/// and no movement, without a number one reaction, and without a speed none. Its movement is
/// full at the start; so are its reactions.
pub proof fn law_unit_of_a_row(u: UnitModel, row: CombatantRow, pos: Hex, content: ContentView)
    requires
        is_unit_of(u, row, pos, content),
    ensures
        u.id == UnitId(row.entity.bits) && u.team == row.team && u.pos == pos,
        u.pools.hp is Some && u.pools.hp->0.max == row.max_hp,
        u.pools.mana == row.mana && u.pools.rage == row.rage && u.pools.energy == row.energy,
        u.pools.ap is Some && u.pools.mp is Some,
        row.ap matches Some(a) ==> u.pools.ap->0.current == a.action_points && u.pools.ap->0.max
            == a.max_ap && u.pools.mp->0.current == a.movement_points,
        row.ap is None ==> u.pools.ap->0.current == 1 && u.pools.ap->0.max == 1
            && u.pools.mp->0.current == 0,
        u.pools.mp->0.max == u.pools.mp->0.current,
        row.reactions_max matches Some(n) ==> u.reactions_max == n,
        row.reactions_max is None ==> u.reactions_max == 1,
        u.reactions_left == u.reactions_max,
        u.runtime.armor == row.armor && u.runtime.magic_resist == row.magic_resist,
        row.speed matches Some(s) ==> u.runtime.base_speed == s,
        row.speed is None ==> u.runtime.base_speed == 0,
        u.speed - u.runtime.base_speed == bonus_sum(u.statuses, content).speed,
        u.armor_bonus == bonus_sum(u.statuses, content).armor,
        u.damage_taken_bonus == bonus_sum(u.statuses, content).damage_taken,
        u.statuses == engine_statuses(row.statuses@),
        u.template_id == row.template,
        u.regen_per_pool.mana == RegenRule::Increment(1),
        u.regen_per_pool.energy == RegenRule::Increment(1),
        u.regen_per_pool.ap is RefillToMax && u.regen_per_pool.mp is RefillToMax,
        u.regen_per_pool.hp is Never && u.regen_per_pool.rage is Never,
{
}

/// Only the living strike who leaves their reach, and only with dice for it.
pub proof fn law_fighter_dice(row: FighterRow, content: ContentView)
    ensures
        row.is_dead ==> fighter_dice(row, content) is None,
        !row.is_dead ==> (fighter_dice(row, content) is Some <==> row.weapon_dice is Some
            && has_melee_attack(row.abilities@, content)),
        fighter_dice(row, content) is Some && i32::MIN <= row.weapon_dice->0.bonus
            + row.strength_mod <= i32::MAX ==> fighter_dice(row, content)->0.bonus
            - row.weapon_dice->0.bonus == row.strength_mod,
{
}

/// The passive abilities of a unit are kept, in order, and no others.
pub proof fn law_passives_by_one_more(ids: Seq<String>, more: String, content: ContentView)
    ensures
        passives_of(Seq::empty(), content).len() == 0,
        content.ability(more@) is Some && content.ability(more@)->0.passive ==> passives_of(
            ids.push(more),
            content,
        ) == passives_of(ids, content).push(more),
        content.ability(more@) is None || !content.ability(more@)->0.passive ==> passives_of(
            ids.push(more),
            content,
        ) == passives_of(ids, content),
{
    assert(ids.push(more).drop_last() =~= ids);
}

/// A phase of a unit: its share of hit points, its healing and its tags are as given; without
/// hit points of its own it has none; and with equipment it has numbers of its own, with the
/// unit's speed where it gives none.
pub proof fn law_phase_of_a_unit(pending: Seq<PendingPhase>, base_speed: i32, i: int)
    requires
        0 <= i < pending.len(),
    ensures
        phases_of_row(pending, base_speed).len() == pending.len(),
        ({
            let (p, r) = (pending[i], phases_of_row(pending, base_speed)[i]);
            &&& r.pct == p.hp_below_pct
            &&& r.heal_to_full == p.heal_to_full
            &&& p.max_hp matches Some(m) ==> r.new_max_hp == m
            &&& p.max_hp is None ==> r.new_max_hp == 0
            &&& p.tags matches Some(t) ==> r.tags == Some(t@)
            &&& p.tags is None ==> r.tags is None
            &&& p.equipment is None ==> r.runtime is None
            &&& p.equipment matches Some((armor, resist)) ==> r.runtime is Some
                && r.runtime->0.armor == armor && r.runtime->0.magic_resist == resist
                && r.runtime->0.base_speed == (if p.base_speed is Some {
                p.base_speed->0
            } else {
                base_speed
            })
        }),
{
}

/// Whether two lists of units are equal but for one place.
pub open spec fn others_stay(a: Seq<UnitModel>, b: Seq<UnitModel>, i: int) -> bool {
    a.len() == b.len() && forall|j: int| 0 <= j < a.len() && j != i ==> #[trigger] a[j] == b[j]
}

/// What each row of a setup does to the unit of its entity: it sets the modifiers, the dice of
/// opportunity attacks where there are any, the tags, the phases and the passive abilities, and
/// adds an aura. Nobody else changes.
pub proof fn law_rows_reach_their_unit(
    units: Seq<UnitModel>,
    i: int,
    entity: Entity,
    ids: IdTable,
    content: ContentView,
    paths: Seq<PathDef>,
    caster: CasterRow,
    fighter: FighterRow,
    aura: AuraRow,
    tags: TagRow,
    phases: PhaseRow,
)
    requires
        place_of_entity(units, entity, ids) == Some(i),
        caster.entity == entity,
        fighter.entity == entity,
        aura.entity == entity,
        tags.entity == entity,
        phases.entity == entity,
    ensures
        ({
            let a = with_caster(units, caster, ids, paths);
            let b = with_aoo_dice(units, fighter, ids, content);
            let c = with_aura(units, aura, ids);
            let d = with_tags(units, tags, ids);
            let e = with_phases(units, phases, ids);
            let f = with_passives(units, fighter, ids, content);
            &&& others_stay(a, units, i) && others_stay(b, units, i) && others_stay(c, units, i)
            &&& others_stay(d, units, i) && others_stay(e, units, i) && others_stay(f, units, i)
            &&& a[i].caster_context.str_mod == caster.str_mod
            &&& a[i].caster_context.int_mod == caster.int_mod
            &&& a[i].caster_context.dex_mod == caster.dex_mod
            &&& a[i].caster_context.spell_power == caster.spell_power
            &&& a[i].caster_context.weapon_dice == caster.weapon_dice
            &&& a[i].caster_context.ranged_dice == caster.ranged_dice
            &&& a[i].caster_context.crit_fail_outcome == crit_fail_of(caster.path, paths)
            &&& fighter_dice(fighter, content) is Some ==> b[i].aoo_dice == fighter_dice(
                fighter,
                content,
            )
            &&& fighter_dice(fighter, content) is None ==> b[i] == units[i]
            &&& c[i].auras.len() == units[i].auras.len() + 1
            &&& c[i].auras.drop_last() =~= units[i].auras
            &&& c[i].auras.last().radius == aura.radius
            &&& c[i].auras.last().status_id == aura.status
            &&& c[i].auras.last().applies_to == aura.affects
            &&& c[i].auras.last().affects_tags == aura.affects_tags@
            &&& d[i].tags == tags.tags@
            &&& e[i].enemy_phases == phases_of_row(phases.pending@, units[i].runtime.base_speed)
            &&& f[i].passives == passives_of(fighter.abilities@, content)
        }),
{
    let u = ids.id(entity)->0;
    let k = choose|k: int| crate::state::is_first(units, u, k);
    assert(crate::state::is_first(units, u, k));
}

/// A row of an entity without a unit does nothing.
pub proof fn law_rows_without_a_unit(
    units: Seq<UnitModel>,
    ids: IdTable,
    content: ContentView,
    paths: Seq<PathDef>,
    caster: CasterRow,
    fighter: FighterRow,
    aura: AuraRow,
    tags: TagRow,
    phases: PhaseRow,
)
    ensures
        place_of_entity(units, caster.entity, ids) is None ==> with_caster(
            units,
            caster,
            ids,
            paths,
        ) == units,
        place_of_entity(units, fighter.entity, ids) is None ==> with_aoo_dice(
            units,
            fighter,
            ids,
            content,
        ) == units && with_passives(units, fighter, ids, content) == units,
        place_of_entity(units, aura.entity, ids) is None ==> with_aura(units, aura, ids) == units,
        place_of_entity(units, tags.entity, ids) is None ==> with_tags(units, tags, ids) == units,
        place_of_entity(units, phases.entity, ids) is None ==> with_phases(units, phases, ids)
            == units,
{
}

/// The rows of a setup are applied one after the other, and all of them.
pub proof fn law_rows_one_by_one(
    units: Seq<UnitModel>,
    ids: IdTable,
    content: ContentView,
    paths: Seq<PathDef>,
    casters: Seq<CasterRow>,
    caster: CasterRow,
    fighters: Seq<FighterRow>,
    fighter: FighterRow,
    auras: Seq<AuraRow>,
    aura: AuraRow,
    tags: Seq<TagRow>,
    tag: TagRow,
    phases: Seq<PhaseRow>,
    phase: PhaseRow,
)
    ensures
        with_caster_all(units, casters.push(caster), ids, paths) == with_caster(
            with_caster_all(units, casters, ids, paths),
            caster,
            ids,
            paths,
        ),
        with_aoo_dice_all(units, fighters.push(fighter), ids, content) == with_aoo_dice(
            with_aoo_dice_all(units, fighters, ids, content),
            fighter,
            ids,
            content,
        ),
        with_aura_all(units, auras.push(aura), ids) == with_aura(
            with_aura_all(units, auras, ids),
            aura,
            ids,
        ),
        with_tags_all(units, tags.push(tag), ids) == with_tags(
            with_tags_all(units, tags, ids),
            tag,
            ids,
        ),
        with_phases_all(units, phases.push(phase), ids) == with_phases(
            with_phases_all(units, phases, ids),
            phase,
            ids,
        ),
        with_passives_all(units, fighters.push(fighter), ids, content) == with_passives(
            with_passives_all(units, fighters, ids, content),
            fighter,
            ids,
            content,
        ),
{
    assert(casters.push(caster).drop_last() =~= casters);
    assert(fighters.push(fighter).drop_last() =~= fighters);
    assert(auras.push(aura).drop_last() =~= auras);
    assert(tags.push(tag).drop_last() =~= tags);
    assert(phases.push(phase).drop_last() =~= phases);
}

/// The first entity with a name is the one that is meant by it.
pub proof fn law_entity_as_named(names: Seq<NameRow>, name: Seq<char>, k: int)
    ensures
        0 <= k < names.len() && names[k].name@ == name && (forall|j: int|
            0 <= j < k ==> (#[trigger] names[j]).name@ != name) ==> entity_named(names, name)
            == Some(names[k].entity),
        (forall|j: int| 0 <= j < names.len() ==> (#[trigger] names[j]).name@ != name)
            ==> entity_named(names, name) is None,
    decreases names.len(),
{
    if names.len() > 0 {
        let rest = names.drop_first();
        law_entity_as_named(rest, name, k - 1);
        assert forall|j: int| 0 <= j < rest.len() implies #[trigger] rest[j] == names[j + 1] by {}
        if forall|j: int| 0 <= j < names.len() ==> (#[trigger] names[j]).name@ != name {
            assert(names[0].name@ != name);
        }
        if 0 < k < names.len() && names[k].name@ == name && (forall|j: int|
            0 <= j < k ==> (#[trigger] names[j]).name@ != name) {
            assert(names[0].name@ != name);
            assert(rest[k - 1] == names[k]);
        }
    }
}

/// Initiative that is set beforehand counts for the unit of the entity of that name, in order;
/// a name that is nobody's is passed over.
pub proof fn law_presets_by_one_more(
    presets: Seq<PresetInitiative>,
    more: PresetInitiative,
    names: Seq<NameRow>,
    ids: IdTable,
)
    ensures
        preset_units(Seq::empty(), names, ids).len() == 0,
        ({
            let before = preset_units(presets, names, ids);
            let after = preset_units(presets.push(more), names, ids);
            let e = entity_named(names, more.name@);
            &&& e is Some && ids.id(e->0) is Some ==> after == before.push(
                (ids.id(e->0)->0, more.value),
            )
            &&& e is None || ids.id(e->0) is None ==> after == before
        }),
{
    assert(presets.push(more).drop_last() =~= presets);
}

/// An order of units is shown by their entities, in order, without those that have none.
pub proof fn law_entities_by_one_more(order: Seq<UnitId>, more: UnitId, ids: IdTable)
    ensures
        entities_of(Seq::empty(), ids).len() == 0,
        ids.entity(more) matches Some(e) ==> entities_of(order.push(more), ids) == entities_of(
            order,
            ids,
        ).push(e),
        ids.entity(more) is None ==> entities_of(order.push(more), ids) == entities_of(order, ids),
{
    assert(order.push(more).drop_last() =~= order);
}

proof fn same_place(a: Seq<UnitModel>, b: Seq<UnitModel>, entity: Entity, ids: IdTable)
    requires
        same_bodies(a, b),
    ensures
        place_of_entity(a, entity, ids) == place_of_entity(b, entity, ids),
        place_of_entity(a, entity, ids) matches Some(i) ==> 0 <= i < a.len(),
{
    if let Some(u) = ids.id(entity) {
        assert forall|i: int| crate::state::is_first(a, u, i) == crate::state::is_first(b, u, i) by {
            assert forall|j: int| 0 <= j < a.len() implies (#[trigger] a[j]).id == b[j].id by {
                assert(same_body(a[j], b[j]));
            }
            assert forall|j: int| 0 <= j < a.len() implies a[j].id == (#[trigger] b[j]).id by {
                assert(a[j].id == b[j].id);
            }
        }
        if exists|i: int| crate::state::is_first(a, u, i) {
            let i = choose|i: int| crate::state::is_first(a, u, i);
            let k = choose|k: int| crate::state::is_first(b, u, k);
            assert(crate::state::is_first(b, u, i));
            assert(crate::state::is_first(b, u, k));
            if i < k {
                assert(b[i].id != u);
            }
            if k < i {
                assert(b[k].id != u);
            }
        }
        if exists|i: int| crate::state::is_first(b, u, i) {
            let i = choose|i: int| crate::state::is_first(b, u, i);
            assert(crate::state::is_first(a, u, i));
        }
    }
}

proof fn caster_acts_alone(
    a: Seq<UnitModel>,
    b: Seq<UnitModel>,
    rows: Seq<CasterRow>,
    ids: IdTable,
    paths: Seq<PathDef>,
)
    requires
        same_bodies(a, b),
        forall|j: int| 0 <= j < a.len() ==> (#[trigger] a[j]).caster_context == b[j].caster_context,
    ensures
        with_caster_all(a, rows, ids, paths).len() == a.len(),
        with_caster_all(b, rows, ids, paths).len() == a.len(),
        forall|j: int|
            0 <= j < a.len() ==> #[trigger] with_caster_all(a, rows, ids, paths)[j] == (UnitModel {
                caster_context: with_caster_all(b, rows, ids, paths)[j].caster_context,
                ..a[j]
            }),
        forall|j: int|
            0 <= j < a.len() ==> #[trigger] with_caster_all(b, rows, ids, paths)[j] == (UnitModel {
                caster_context: with_caster_all(b, rows, ids, paths)[j].caster_context,
                ..b[j]
            }),
    decreases rows.len(),
{
    if rows.len() > 0 {
        let part = rows.drop_last();
        caster_acts_alone(a, b, part, ids, paths);
        let (x, y) = (with_caster_all(a, part, ids, paths), with_caster_all(b, part, ids, paths));
        assert forall|j: int| 0 <= j < a.len() implies same_body(#[trigger] x[j], y[j]) by {
            assert(same_body(a[j], b[j]));
            assert(y[j] == (UnitModel { caster_context: y[j].caster_context, ..b[j] }));
        }
        same_place(x, y, rows.last().entity, ids);
        let (p, q) = (with_caster_all(a, rows, ids, paths), with_caster_all(b, rows, ids, paths));
        assert forall|j: int| 0 <= j < a.len() implies #[trigger] p[j] == (UnitModel {
            caster_context: q[j].caster_context,
            ..a[j]
        }) && q[j] == (UnitModel { caster_context: q[j].caster_context, ..b[j] }) by {
            assert(x[j] == (UnitModel { caster_context: y[j].caster_context, ..a[j] }));
            assert(y[j] == (UnitModel { caster_context: y[j].caster_context, ..b[j] }));
            assert(same_body(a[j], b[j]));
        }
        assert forall|j: int| 0 <= j < a.len() implies #[trigger] q[j] == (UnitModel {
            caster_context: q[j].caster_context,
            ..b[j]
        }) by {
            assert(p[j] == (UnitModel { caster_context: q[j].caster_context, ..a[j] }));
        }
    }
}

proof fn aoo_dice_acts_alone(
    a: Seq<UnitModel>,
    b: Seq<UnitModel>,
    rows: Seq<FighterRow>,
    ids: IdTable,
    content: ContentView,
)
    requires
        same_bodies(a, b),
        forall|j: int| 0 <= j < a.len() ==> (#[trigger] a[j]).aoo_dice == b[j].aoo_dice,
    ensures
        with_aoo_dice_all(a, rows, ids, content).len() == a.len(),
        with_aoo_dice_all(b, rows, ids, content).len() == a.len(),
        forall|j: int|
            0 <= j < a.len() ==> #[trigger] with_aoo_dice_all(a, rows, ids, content)[j] == (UnitModel {
                aoo_dice: with_aoo_dice_all(b, rows, ids, content)[j].aoo_dice,
                ..a[j]
            }),
        forall|j: int|
            0 <= j < a.len() ==> #[trigger] with_aoo_dice_all(b, rows, ids, content)[j] == (UnitModel {
                aoo_dice: with_aoo_dice_all(b, rows, ids, content)[j].aoo_dice,
                ..b[j]
            }),
    decreases rows.len(),
{
    if rows.len() > 0 {
        let part = rows.drop_last();
        aoo_dice_acts_alone(a, b, part, ids, content);
        let (x, y) = (with_aoo_dice_all(a, part, ids, content), with_aoo_dice_all(b, part, ids, content));
        assert forall|j: int| 0 <= j < a.len() implies same_body(#[trigger] x[j], y[j]) by {
            assert(same_body(a[j], b[j]));
            assert(y[j] == (UnitModel { aoo_dice: y[j].aoo_dice, ..b[j] }));
        }
        same_place(x, y, rows.last().entity, ids);
        let (p, q) = (with_aoo_dice_all(a, rows, ids, content), with_aoo_dice_all(b, rows, ids, content));
        assert forall|j: int| 0 <= j < a.len() implies #[trigger] p[j] == (UnitModel {
            aoo_dice: q[j].aoo_dice,
            ..a[j]
        }) && q[j] == (UnitModel { aoo_dice: q[j].aoo_dice, ..b[j] }) by {
            assert(x[j] == (UnitModel { aoo_dice: y[j].aoo_dice, ..a[j] }));
            assert(y[j] == (UnitModel { aoo_dice: y[j].aoo_dice, ..b[j] }));
            assert(same_body(a[j], b[j]));
        }
        assert forall|j: int| 0 <= j < a.len() implies #[trigger] q[j] == (UnitModel {
            aoo_dice: q[j].aoo_dice,
            ..b[j]
        }) by {
            assert(p[j] == (UnitModel { aoo_dice: q[j].aoo_dice, ..a[j] }));
        }
    }
}

proof fn aura_acts_alone(
    a: Seq<UnitModel>,
    b: Seq<UnitModel>,
    rows: Seq<AuraRow>,
    ids: IdTable,
)
    requires
        same_bodies(a, b),
        forall|j: int| 0 <= j < a.len() ==> (#[trigger] a[j]).auras == b[j].auras,
    ensures
        with_aura_all(a, rows, ids).len() == a.len(),
        with_aura_all(b, rows, ids).len() == a.len(),
        forall|j: int|
            0 <= j < a.len() ==> #[trigger] with_aura_all(a, rows, ids)[j] == (UnitModel {
                auras: with_aura_all(b, rows, ids)[j].auras,
                ..a[j]
            }),
        forall|j: int|
            0 <= j < a.len() ==> #[trigger] with_aura_all(b, rows, ids)[j] == (UnitModel {
                auras: with_aura_all(b, rows, ids)[j].auras,
                ..b[j]
            }),
    decreases rows.len(),
{
    if rows.len() > 0 {
        let part = rows.drop_last();
        aura_acts_alone(a, b, part, ids);
        let (x, y) = (with_aura_all(a, part, ids), with_aura_all(b, part, ids));
        assert forall|j: int| 0 <= j < a.len() implies same_body(#[trigger] x[j], y[j]) by {
            assert(same_body(a[j], b[j]));
            assert(y[j] == (UnitModel { auras: y[j].auras, ..b[j] }));
        }
        same_place(x, y, rows.last().entity, ids);
        let (p, q) = (with_aura_all(a, rows, ids), with_aura_all(b, rows, ids));
        assert forall|j: int| 0 <= j < a.len() implies #[trigger] p[j] == (UnitModel {
            auras: q[j].auras,
            ..a[j]
        }) && q[j] == (UnitModel { auras: q[j].auras, ..b[j] }) by {
            assert(x[j] == (UnitModel { auras: y[j].auras, ..a[j] }));
            assert(y[j] == (UnitModel { auras: y[j].auras, ..b[j] }));
            assert(same_body(a[j], b[j]));
        }
        assert forall|j: int| 0 <= j < a.len() implies #[trigger] q[j] == (UnitModel {
            auras: q[j].auras,
            ..b[j]
        }) by {
            assert(p[j] == (UnitModel { auras: q[j].auras, ..a[j] }));
        }
    }
}

proof fn tags_acts_alone(
    a: Seq<UnitModel>,
    b: Seq<UnitModel>,
    rows: Seq<TagRow>,
    ids: IdTable,
)
    requires
        same_bodies(a, b),
        forall|j: int| 0 <= j < a.len() ==> (#[trigger] a[j]).tags == b[j].tags,
    ensures
        with_tags_all(a, rows, ids).len() == a.len(),
        with_tags_all(b, rows, ids).len() == a.len(),
        forall|j: int|
            0 <= j < a.len() ==> #[trigger] with_tags_all(a, rows, ids)[j] == (UnitModel {
                tags: with_tags_all(b, rows, ids)[j].tags,
                ..a[j]
            }),
        forall|j: int|
            0 <= j < a.len() ==> #[trigger] with_tags_all(b, rows, ids)[j] == (UnitModel {
                tags: with_tags_all(b, rows, ids)[j].tags,
                ..b[j]
            }),
    decreases rows.len(),
{
    if rows.len() > 0 {
        let part = rows.drop_last();
        tags_acts_alone(a, b, part, ids);
        let (x, y) = (with_tags_all(a, part, ids), with_tags_all(b, part, ids));
        assert forall|j: int| 0 <= j < a.len() implies same_body(#[trigger] x[j], y[j]) by {
            assert(same_body(a[j], b[j]));
            assert(y[j] == (UnitModel { tags: y[j].tags, ..b[j] }));
        }
        same_place(x, y, rows.last().entity, ids);
        let (p, q) = (with_tags_all(a, rows, ids), with_tags_all(b, rows, ids));
        assert forall|j: int| 0 <= j < a.len() implies #[trigger] p[j] == (UnitModel {
            tags: q[j].tags,
            ..a[j]
        }) && q[j] == (UnitModel { tags: q[j].tags, ..b[j] }) by {
            assert(x[j] == (UnitModel { tags: y[j].tags, ..a[j] }));
            assert(y[j] == (UnitModel { tags: y[j].tags, ..b[j] }));
            assert(same_body(a[j], b[j]));
        }
        assert forall|j: int| 0 <= j < a.len() implies #[trigger] q[j] == (UnitModel {
            tags: q[j].tags,
            ..b[j]
        }) by {
            assert(p[j] == (UnitModel { tags: q[j].tags, ..a[j] }));
        }
    }
}

proof fn phases_acts_alone(
    a: Seq<UnitModel>,
    b: Seq<UnitModel>,
    rows: Seq<PhaseRow>,
    ids: IdTable,
)
    requires
        same_bodies(a, b),
        forall|j: int| 0 <= j < a.len() ==> (#[trigger] a[j]).enemy_phases == b[j].enemy_phases,
    ensures
        with_phases_all(a, rows, ids).len() == a.len(),
        with_phases_all(b, rows, ids).len() == a.len(),
        forall|j: int|
            0 <= j < a.len() ==> #[trigger] with_phases_all(a, rows, ids)[j] == (UnitModel {
                enemy_phases: with_phases_all(b, rows, ids)[j].enemy_phases,
                ..a[j]
            }),
        forall|j: int|
            0 <= j < a.len() ==> #[trigger] with_phases_all(b, rows, ids)[j] == (UnitModel {
                enemy_phases: with_phases_all(b, rows, ids)[j].enemy_phases,
                ..b[j]
            }),
    decreases rows.len(),
{
    if rows.len() > 0 {
        let part = rows.drop_last();
        phases_acts_alone(a, b, part, ids);
        let (x, y) = (with_phases_all(a, part, ids), with_phases_all(b, part, ids));
        assert forall|j: int| 0 <= j < a.len() implies same_body(#[trigger] x[j], y[j]) by {
            assert(same_body(a[j], b[j]));
            assert(y[j] == (UnitModel { enemy_phases: y[j].enemy_phases, ..b[j] }));
        }
        same_place(x, y, rows.last().entity, ids);
        let (p, q) = (with_phases_all(a, rows, ids), with_phases_all(b, rows, ids));
        assert forall|j: int| 0 <= j < a.len() implies #[trigger] p[j] == (UnitModel {
            enemy_phases: q[j].enemy_phases,
            ..a[j]
        }) && q[j] == (UnitModel { enemy_phases: q[j].enemy_phases, ..b[j] }) by {
            assert(x[j] == (UnitModel { enemy_phases: y[j].enemy_phases, ..a[j] }));
            assert(y[j] == (UnitModel { enemy_phases: y[j].enemy_phases, ..b[j] }));
            assert(same_body(a[j], b[j]));
        }
        assert forall|j: int| 0 <= j < a.len() implies #[trigger] q[j] == (UnitModel {
            enemy_phases: q[j].enemy_phases,
            ..b[j]
        }) by {
            assert(p[j] == (UnitModel { enemy_phases: q[j].enemy_phases, ..a[j] }));
        }
    }
}

proof fn passives_acts_alone(
    a: Seq<UnitModel>,
    b: Seq<UnitModel>,
    rows: Seq<FighterRow>,
    ids: IdTable,
    content: ContentView,
)
    requires
        same_bodies(a, b),
        forall|j: int| 0 <= j < a.len() ==> (#[trigger] a[j]).passives == b[j].passives,
    ensures
        with_passives_all(a, rows, ids, content).len() == a.len(),
        with_passives_all(b, rows, ids, content).len() == a.len(),
        forall|j: int|
            0 <= j < a.len() ==> #[trigger] with_passives_all(a, rows, ids, content)[j] == (UnitModel {
                passives: with_passives_all(b, rows, ids, content)[j].passives,
                ..a[j]
            }),
        forall|j: int|
            0 <= j < a.len() ==> #[trigger] with_passives_all(b, rows, ids, content)[j] == (UnitModel {
                passives: with_passives_all(b, rows, ids, content)[j].passives,
                ..b[j]
            }),
    decreases rows.len(),
{
    if rows.len() > 0 {
        let part = rows.drop_last();
        passives_acts_alone(a, b, part, ids, content);
        let (x, y) = (with_passives_all(a, part, ids, content), with_passives_all(b, part, ids, content));
        assert forall|j: int| 0 <= j < a.len() implies same_body(#[trigger] x[j], y[j]) by {
            assert(same_body(a[j], b[j]));
            assert(y[j] == (UnitModel { passives: y[j].passives, ..b[j] }));
        }
        same_place(x, y, rows.last().entity, ids);
        let (p, q) = (with_passives_all(a, rows, ids, content), with_passives_all(b, rows, ids, content));
        assert forall|j: int| 0 <= j < a.len() implies #[trigger] p[j] == (UnitModel {
            passives: q[j].passives,
            ..a[j]
        }) && q[j] == (UnitModel { passives: q[j].passives, ..b[j] }) by {
            assert(x[j] == (UnitModel { passives: y[j].passives, ..a[j] }));
            assert(y[j] == (UnitModel { passives: y[j].passives, ..b[j] }));
            assert(same_body(a[j], b[j]));
        }
        assert forall|j: int| 0 <= j < a.len() implies #[trigger] q[j] == (UnitModel {
            passives: q[j].passives,
            ..b[j]
        }) by {
            assert(p[j] == (UnitModel { passives: q[j].passives, ..a[j] }));
        }
    }
}

/// Every part of a setup counts: the modifiers of a unit are as the rows of casters make them,
/// its dice for opportunity attacks and its passive abilities as the rows of fighters do, and
/// its auras, its tags and its phases as their own rows do.
pub proof fn law_every_part_of_a_setup_counts(
    units: Seq<UnitModel>,
    setup: CombatSetup,
    ids: IdTable,
    content: ContentView,
    paths: Seq<PathDef>,
    j: int,
)
    requires
        0 <= j < units.len(),
    ensures
        ({
            let u = populated(units, setup, ids, content, paths)[j];
            &&& populated(units, setup, ids, content, paths).len() == units.len()
            &&& u.caster_context == with_caster_all(
                units,
                setup.casters@,
                ids,
                paths,
            )[j].caster_context
            &&& u.aoo_dice == with_aoo_dice_all(units, setup.fighters@, ids, content)[j].aoo_dice
            &&& u.auras == with_aura_all(units, setup.auras@, ids)[j].auras
            &&& u.tags == with_tags_all(units, setup.tags@, ids)[j].tags
            &&& u.enemy_phases == with_phases_all(units, setup.phases@, ids)[j].enemy_phases
            &&& u.passives == with_passives_all(units, setup.fighters@, ids, content)[j].passives
        }),
{
    let a = with_caster_all(units, setup.casters@, ids, paths);
    let b = with_aoo_dice_all(a, setup.fighters@, ids, content);
    let c = with_aura_all(b, setup.auras@, ids);
    let d = with_tags_all(c, setup.tags@, ids);
    let e = with_phases_all(d, setup.phases@, ids);
    let f = with_passives_all(e, setup.fighters@, ids, content);
    caster_acts_alone(units, units, setup.casters@, ids, paths);
    assert forall|k: int| 0 <= k < units.len() implies same_body(#[trigger] a[k], units[k])
        && a[k].aoo_dice == units[k].aoo_dice by {}
    aoo_dice_acts_alone(a, units, setup.fighters@, ids, content);
    assert forall|k: int| 0 <= k < units.len() implies same_body(#[trigger] b[k], units[k])
        && b[k].auras == units[k].auras by {
        assert(same_body(a[k], units[k]));
    }
    aura_acts_alone(b, units, setup.auras@, ids);
    assert forall|k: int| 0 <= k < units.len() implies same_body(#[trigger] c[k], units[k])
        && c[k].tags == units[k].tags by {
        assert(same_body(b[k], units[k]) && same_body(a[k], units[k]));
    }
    tags_acts_alone(c, units, setup.tags@, ids);
    assert forall|k: int| 0 <= k < units.len() implies same_body(#[trigger] d[k], units[k])
        && d[k].enemy_phases == units[k].enemy_phases by {
        assert(same_body(c[k], units[k]) && same_body(b[k], units[k]) && same_body(
            a[k],
            units[k],
        ));
    }
    phases_acts_alone(d, units, setup.phases@, ids);
    assert forall|k: int| 0 <= k < units.len() implies same_body(#[trigger] e[k], units[k])
        && e[k].passives == units[k].passives by {
        assert(same_body(d[k], units[k]) && same_body(c[k], units[k]) && same_body(b[k], units[k])
            && same_body(a[k], units[k]));
    }
    passives_acts_alone(e, units, setup.fighters@, ids, content);
    assert(f[j] == (UnitModel { passives: f[j].passives, ..e[j] }));
    assert(e[j] == (UnitModel { enemy_phases: e[j].enemy_phases, ..d[j] }));
    assert(d[j] == (UnitModel { tags: d[j].tags, ..c[j] }));
    assert(c[j] == (UnitModel { auras: c[j].auras, ..b[j] }));
    assert(b[j] == (UnitModel { aoo_dice: b[j].aoo_dice, ..a[j] }));
}

} // verus!
