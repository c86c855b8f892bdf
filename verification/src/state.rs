//! State of a running combat, as the engine hands it over.

use crate::content::DiceExpr;
use crate::hex::Hex;
use crate::ids::UnitId;
use vstd::prelude::*;

verus! {

#[derive(Clone, Copy, PartialEq, Eq, Structural, Debug)]
pub enum Team {
    Player,
    Enemy,
}

/// The side that fights `team`.
pub open spec fn opponent(team: Team) -> Team {
    match team {
        Team::Player => Team::Enemy,
        Team::Enemy => Team::Player,
    }
}

/// The side that fights `team`.
pub fn opponent_team(team: Team) -> (r: Team)
    ensures
        r == opponent(team),
{
    match team {
        Team::Player => Team::Enemy,
        Team::Enemy => Team::Player,
    }
}

/// The opponent of the opponent is the team itself, and never the team is its
/// own opponent.
pub proof fn law_opponent_is_an_involution(team: Team)
    ensures
        opponent(opponent(team)) == team,
        opponent(team) != team,
{
}

/// An object on the board that is no unit.
#[derive(Clone, Copy, PartialEq, Eq, Structural, Debug)]
pub struct EnvId(pub u32);

/// Where damage or a status came from.
#[derive(Clone, Copy, PartialEq, Eq, Structural, Debug)]
pub enum EffectSource {
    Unit(UnitId),
    Env(EnvId),
}

/// A spendable amount and its cap.
#[derive(Clone, Copy, PartialEq, Eq, Structural, Debug)]
pub struct Pool {
    pub current: i32,
    pub max: i32,
}

#[derive(Clone, Copy, PartialEq, Eq, Structural, Debug)]
pub enum PoolKind {
    Hp,
    Mana,
    Rage,
    Energy,
    Ap,
    Mp,
}

/// What a pool does at the start of its owner's turn.
#[derive(Clone, Copy, PartialEq, Eq, Structural, Debug)]
pub enum RegenRule {
    Never,
    Increment(i32),
    RefillToMax,
}

/// One value for each pool.
#[derive(Clone, Copy, PartialEq, Eq, Structural, Debug)]
pub struct PoolTable {
    pub hp: Option<Pool>,
    pub mana: Option<Pool>,
    pub rage: Option<Pool>,
    pub energy: Option<Pool>,
    pub ap: Option<Pool>,
    pub mp: Option<Pool>,
}

/// One rule for each pool.
#[derive(Clone, Copy, PartialEq, Eq, Structural, Debug)]
pub struct RegenTable {
    pub hp: RegenRule,
    pub mana: RegenRule,
    pub rage: RegenRule,
    pub energy: RegenRule,
    pub ap: RegenRule,
    pub mp: RegenRule,
}

/// A status that a unit bears.
#[derive(Debug)]
pub struct ActiveStatus {
    pub id: String,
    pub rounds_remaining: u32,
    pub dot_per_tick: i32,
    pub applier: EffectSource,
}

/// Numbers that equipment and template give a unit.
#[derive(Clone, Copy, PartialEq, Eq, Structural, Debug)]
pub struct RuntimeStats {
    pub armor: i32,
    pub magic_resist: i32,
    pub base_speed: i32,
}

/// How a cast of this unit can fail critically.
#[derive(Clone, Copy, PartialEq, Eq, Structural, Debug)]
pub enum CritFailEffect {
    Miss,
    ManaOverload,
    BrokenFaith,
    CircuitBreach,
    Exhaustion,
    PactControl,
}

/// What a caster brings to the numbers of an ability.
#[derive(Clone, Copy, PartialEq, Eq, Structural, Debug)]
pub struct CasterContext {
    pub str_mod: i32,
    pub int_mod: i32,
    pub dex_mod: i32,
    pub spell_power: i32,
    pub weapon_dice: Option<DiceExpr>,
    pub ranged_dice: Option<DiceExpr>,
    pub crit_fail_outcome: CritFailEffect,
}

impl CasterContext {
    /// A caster without modifiers and without a weapon.
    pub open spec fn plain() -> CasterContext {
        CasterContext {
            str_mod: 0,
            int_mod: 0,
            dex_mod: 0,
            spell_power: 0,
            weapon_dice: None,
            ranged_dice: None,
            crit_fail_outcome: CritFailEffect::Miss,
        }
    }
}

impl Default for CasterContext {
    fn default() -> (r: CasterContext)
        ensures
            r == CasterContext::plain(),
    {
        CasterContext {
            str_mod: 0,
            int_mod: 0,
            dex_mod: 0,
            spell_power: 0,
            weapon_dice: None,
            ranged_dice: None,
            crit_fail_outcome: CritFailEffect::Miss,
        }
    }
}

/// Whom an aura reaches, seen from its bearer.
#[derive(Clone, Copy, PartialEq, Eq, Structural, Debug)]
pub enum TeamRelation {
    Enemies,
    Allies,
    All,
}

#[derive(Debug)]
pub struct AuraDef {
    pub radius: u32,
    pub status_id: String,
    pub applies_to: TeamRelation,
    pub affects_tags: Vec<String>,
}

/// A phase that a unit enters once its hit points fall below `pct` percent.
#[derive(Debug)]
pub struct PhaseEntry {
    pub pct: u32,
    pub new_max_hp: i32,
    pub heal_to_full: bool,
    pub tags: Option<Vec<String>>,
    pub runtime: Option<RuntimeStats>,
}

#[derive(Debug)]
pub struct Unit {
    pub id: UnitId,
    pub team: Team,
    pub pos: Hex,
    pub runtime: RuntimeStats,
    pub armor_bonus: i32,
    pub damage_taken_bonus: i32,
    pub speed: i32,
    pub reactions_left: i32,
    pub reactions_max: i32,
    pub statuses: Vec<ActiveStatus>,
    pub caster_context: CasterContext,
    pub aoo_dice: Option<DiceExpr>,
    pub auras: Vec<AuraDef>,
    pub enemy_phases: Vec<PhaseEntry>,
    pub passives: Vec<String>,
    pub tags: Vec<String>,
    pub pools: PoolTable,
    pub regen_per_pool: RegenTable,
    pub template_id: Option<String>,
}

impl Unit {
    /// Current hit points.
    pub open spec fn spec_hp(&self) -> i32 {
        match self.pools.hp {
            Some(p) => p.current,
            None => 0,
        }
    }

    /// Largest number of hit points.
    pub open spec fn spec_max_hp(&self) -> i32 {
        match self.pools.hp {
            Some(p) => p.max,
            None => 0,
        }
    }

    /// Current hit points.
    #[verifier::when_used_as_spec(spec_hp)]
    pub fn hp(&self) -> (r: i32)
        ensures
            r == self.spec_hp(),
    {
        match self.pools.hp {
            Some(p) => p.current,
            None => 0,
        }
    }

    /// Largest number of hit points.
    #[verifier::when_used_as_spec(spec_max_hp)]
    pub fn max_hp(&self) -> (r: i32)
        ensures
            r == self.spec_max_hp(),
    {
        match self.pools.hp {
            Some(p) => p.max,
            None => 0,
        }
    }

    /// Whether any hit point is left.
    pub fn is_alive(&self) -> (r: bool)
        ensures
            r == (self.hp() > 0),
    {
        self.hp() > 0
    }
}

/// The first unit with the given id.
pub open spec fn find_unit(units: Seq<Unit>, id: UnitId) -> Option<Unit>
    decreases units.len(),
{
    if units.len() == 0 {
        None
    } else if units[0].id == id {
        Some(units[0])
    } else {
        find_unit(units.drop_first(), id)
    }
}

/// A trap or another object on the board.
#[derive(Debug)]
pub struct EnvObject {
    pub id: EnvId,
    pub hex: Hex,
    pub ability: String,
    pub owner: Option<Team>,
    pub revealed_to_player: bool,
    pub revealed_to_enemy: bool,
}

/// The order in which units act and the one whose turn it is.
#[derive(Debug)]
pub struct TurnQueue {
    pub order: Vec<UnitId>,
    pub index: usize,
}

#[derive(Debug)]
pub struct CombatState {
    pub units: Vec<Unit>,
    pub round: u32,
    pub turn_queue: TurnQueue,
    pub environment: Vec<EnvObject>,
    pub blocked_hexes: Vec<Hex>,
}

impl CombatState {
    /// The first unit with the given id.
    pub open spec fn spec_unit(&self, id: UnitId) -> Option<Unit> {
        find_unit(self.units@, id)
    }

    /// The first unit with the given id.
    pub fn unit(&self, id: UnitId) -> (r: Option<&Unit>)
        ensures
            match r {
                Some(u) => self.spec_unit(id) == Some(*u),
                None => self.spec_unit(id) is None,
            },
    {
        let mut i: usize = 0;
        assert(self.units@.skip(0) =~= self.units@);
        while i < self.units.len()
            invariant
                i <= self.units.len(),
                find_unit(self.units@, id) == find_unit(self.units@.skip(i as int), id),
            decreases self.units.len() - i,
        {
            assert(self.units@.skip(i as int).drop_first() =~= self.units@.skip(i + 1));
            if self.units[i].id == id {
                return Some(&self.units[i]);
            }
            i = i + 1;
        }
        None
    }
}

// ---------------------------------------------------------------------------
// Models
// ---------------------------------------------------------------------------

/// An aura, its tags as a sequence.
#[verifier::ext_equal]
pub struct AuraModel {
    pub radius: u32,
    pub status_id: String,
    pub applies_to: TeamRelation,
    pub affects_tags: Seq<String>,
}

/// A phase, its tags as a sequence.
#[verifier::ext_equal]
pub struct PhaseModel {
    pub pct: u32,
    pub new_max_hp: i32,
    pub heal_to_full: bool,
    pub tags: Option<Seq<String>>,
    pub runtime: Option<RuntimeStats>,
}

/// A unit, its lists as sequences.
#[verifier::ext_equal]
pub struct UnitModel {
    pub id: UnitId,
    pub team: Team,
    pub pos: Hex,
    pub runtime: RuntimeStats,
    pub armor_bonus: i32,
    pub damage_taken_bonus: i32,
    pub speed: i32,
    pub reactions_left: i32,
    pub reactions_max: i32,
    pub statuses: Seq<ActiveStatus>,
    pub caster_context: CasterContext,
    pub aoo_dice: Option<DiceExpr>,
    pub auras: Seq<AuraModel>,
    pub enemy_phases: Seq<PhaseModel>,
    pub passives: Seq<String>,
    pub tags: Seq<String>,
    pub pools: PoolTable,
    pub regen_per_pool: RegenTable,
    pub template_id: Option<String>,
}

impl View for AuraDef {
    type V = AuraModel;

    open spec fn view(&self) -> AuraModel {
        AuraModel {
            radius: self.radius,
            status_id: self.status_id,
            applies_to: self.applies_to,
            affects_tags: self.affects_tags@,
        }
    }
}

impl View for PhaseEntry {
    type V = PhaseModel;

    open spec fn view(&self) -> PhaseModel {
        PhaseModel {
            pct: self.pct,
            new_max_hp: self.new_max_hp,
            heal_to_full: self.heal_to_full,
            tags: match self.tags {
                Some(t) => Some(t@),
                None => None,
            },
            runtime: self.runtime,
        }
    }
}

impl View for Unit {
    type V = UnitModel;

    open spec fn view(&self) -> UnitModel {
        UnitModel {
            id: self.id,
            team: self.team,
            pos: self.pos,
            runtime: self.runtime,
            armor_bonus: self.armor_bonus,
            damage_taken_bonus: self.damage_taken_bonus,
            speed: self.speed,
            reactions_left: self.reactions_left,
            reactions_max: self.reactions_max,
            statuses: self.statuses@,
            caster_context: self.caster_context,
            aoo_dice: self.aoo_dice,
            auras: Seq::new(self.auras@.len(), |i: int| self.auras@[i]@),
            enemy_phases: Seq::new(self.enemy_phases@.len(), |i: int| self.enemy_phases@[i]@),
            passives: self.passives@,
            tags: self.tags@,
            pools: self.pools,
            regen_per_pool: self.regen_per_pool,
            template_id: self.template_id,
        }
    }
}

/// Units, their lists as sequences.
pub open spec fn models(units: Seq<Unit>) -> Seq<UnitModel> {
    Seq::new(units.len(), |i: int| units[i]@)
}

/// Whether `i` is the place of the first unit with the given id.
pub open spec fn is_first(units: Seq<UnitModel>, id: UnitId, i: int) -> bool {
    &&& 0 <= i < units.len()
    &&& units[i].id == id
    &&& forall|j: int| 0 <= j < i ==> (#[trigger] units[j]).id != id
}

/// The place of the first unit with the given id.
pub open spec fn place_of(units: Seq<UnitModel>, id: UnitId) -> Option<int> {
    if exists|i: int| is_first(units, id, i) {
        Some(choose|i: int| is_first(units, id, i))
    } else {
        None
    }
}

/// The place of the first unit with the given id.
pub fn find_place(units: &Vec<Unit>, id: UnitId) -> (r: Option<usize>)
    ensures
        match r {
            Some(i) => place_of(models(units@), id) == Some(i as int) && i < units@.len(),
            None => place_of(models(units@), id) is None,
        },
{
    let ghost m = models(units@);
    let mut i: usize = 0;
    while i < units.len()
        invariant
            i <= units.len(),
            m == models(units@),
            forall|j: int| 0 <= j < i ==> (#[trigger] m[j]).id != id,
        decreases units.len() - i,
    {
        if units[i].id == id {
            proof {
                assert(m[i as int].id == id);
                assert(is_first(m, id, i as int));
                let k = choose|k: int| is_first(m, id, k);
                assert(is_first(m, id, k));
                if k < i {
                    assert(m[k].id != id);
                }
                if i < k {
                    assert(m[i as int].id != id);
                }
            }
            return Some(i);
        }
        assert(m[i as int].id != id);
        i = i + 1;
    }
    proof {
        assert forall|k: int| !is_first(m, id, k) by {
            if 0 <= k < m.len() {
                assert(m[k].id != id);
            }
        }
    }
    None
}

/// Whether the unit at `k` is the first with the given id.
pub open spec fn is_first_unit(units: Seq<Unit>, id: UnitId, k: int) -> bool {
    &&& 0 <= k < units.len()
    &&& units[k].id == id
    &&& forall|j: int| 0 <= j < k ==> (#[trigger] units[j]).id != id
}

/// The first unit with an id is the one that is found under it.
pub proof fn law_first_unit_is_found(units: Seq<Unit>, id: UnitId, k: int)
    requires
        is_first_unit(units, id, k),
    ensures
        find_unit(units, id) == Some(units[k]),
    decreases units.len(),
{
    if k > 0 {
        assert(units[0].id != id);
        let rest = units.drop_first();
        assert forall|j: int| 0 <= j < k - 1 implies (#[trigger] rest[j]).id != id by {
            assert(units[j + 1].id != id);
        }
        law_first_unit_is_found(rest, id, k - 1);
    }
}

/// A unit is found only under its own id, and none is missed.
pub proof fn law_unit_is_found_by_its_id(units: Seq<Unit>, id: UnitId)
    ensures
        find_unit(units, id) matches Some(u) ==> u.id == id && units.contains(u),
        find_unit(units, id) is None ==> forall|k: int|
            0 <= k < units.len() ==> (#[trigger] units[k]).id != id,
    decreases units.len(),
{
    if units.len() > 0 {
        let rest = units.drop_first();
        law_unit_is_found_by_its_id(rest, id);
        if units[0].id == id {
            assert(units.contains(units[0]));
        } else {
            if let Some(u) = find_unit(rest, id) {
                let k = choose|k: int| 0 <= k < rest.len() && rest[k] == u;
                assert(units[k + 1] == u);
            } else {
                assert forall|k: int| 0 <= k < units.len() implies (#[trigger] units[k]).id
                    != id by {
                    if k > 0 {
                        assert(rest[k - 1].id != id);
                    }
                }
            }
        }
    }
}

/// Hit points and their maximum are those of the pool; a unit without the pool has
/// none.
pub proof fn law_hit_points_are_pooled(u: Unit)
    ensures
        u.pools.hp matches Some(p) ==> u.hp() == p.current && u.max_hp() == p.max,
        u.pools.hp is None ==> u.hp() == 0 && u.max_hp() == 0,
{
}

} // verus!
