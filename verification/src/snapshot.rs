//! The battle as the AI sees it: the engine's state with what the AI has worked
//! out about each unit beside it.

use crate::ai_cache::{places, AiCache, AooStrike, EvaluationMode, UnitAiCache};
use crate::ai_tags::AiTags;
use crate::content::{
    AbilityDef, AoEShape, ContentView, EffectDef, ResourceCost, ResourceKind, TargetType,
};
use crate::hex::Hex;
use crate::ids::{uid_of, entity_to_uid, Entity, IdTable, UnitId, UnitIdMap};
use crate::phases::AiBehaviorKind;
use crate::positions::HexPositions;
use crate::state::{
    opponent, opponent_team, ActiveStatus, CasterContext, CombatState, EnvObject, Pool, Team, Unit,
};
use crate::tag_cache::StatusTagCache;
use crate::tags::StatusTag;
use crate::templates::{
    any_melee_attack, copy_strings, crit_fail_effect_of, crit_fail_of, has_melee_attack, PathDef,
};
use vstd::prelude::*;

verus! {

// ---------------------------------------------------------------------------
// One unit
// ---------------------------------------------------------------------------

/// A unit of the engine with what the AI has worked out about it.
#[derive(Clone, Copy, Debug)]
pub struct UnitView<'a> {
    pub state: &'a Unit,
    pub cache: &'a UnitAiCache,
}

/// What is in a pool; nothing where there is no pool.
pub open spec fn in_pool(pool: Option<Pool>) -> i32 {
    match pool {
        Some(p) => p.current,
        None => 0,
    }
}

fn pool_current(pool: Option<Pool>) -> (r: i32)
    ensures
        r == in_pool(pool),
{
    match pool {
        Some(p) => p.current,
        None => 0,
    }
}

/// What a kind of resource amounts to.
pub open spec fn amount_of(kind: ResourceKind, hp: i32, mana: i32, rage: i32, energy: i32) -> i32 {
    match kind {
        ResourceKind::Hp => hp,
        ResourceKind::Mana => mana,
        ResourceKind::Rage => rage,
        ResourceKind::Energy => energy,
    }
}

/// What a kind of resource amounts to.
pub fn pool_amount(kind: ResourceKind, hp: i32, mana: i32, rage: i32, energy: i32) -> (r: i32)
    ensures
        r == amount_of(kind, hp, mana, rage, energy),
{
    match kind {
        ResourceKind::Hp => hp,
        ResourceKind::Mana => mana,
        ResourceKind::Rage => rage,
        ResourceKind::Energy => energy,
    }
}

/// Whether all costs can be paid.
pub open spec fn pays(
    costs: Seq<ResourceCost>,
    hp: i32,
    mana: i32,
    rage: i32,
    energy: i32,
) -> bool {
    forall|i: int|
        0 <= i < costs.len() ==> amount_of(
            (#[trigger] costs[i]).resource,
            hp,
            mana,
            rage,
            energy,
        ) >= costs[i].amount
}

/// Whether all costs can be paid.
pub fn can_pay(costs: &Vec<ResourceCost>, hp: i32, mana: i32, rage: i32, energy: i32) -> (r: bool)
    ensures
        r == pays(costs@, hp, mana, rage, energy),
{
    let mut i: usize = 0;
    while i < costs.len()
        invariant
            i <= costs.len(),
            forall|j: int|
                0 <= j < i ==> amount_of(
                    (#[trigger] costs@[j]).resource,
                    hp,
                    mana,
                    rage,
                    energy,
                ) >= costs@[j].amount,
        decreases costs.len() - i,
    {
        if pool_amount(costs[i].resource, hp, mana, rage, energy) < costs[i].amount {
            assert(amount_of(costs@[i as int].resource, hp, mana, rage, energy)
                < costs@[i as int].amount);
            return false;
        }
        i = i + 1;
    }
    true
}

/// Whether a unit has the action points and resources for an ability.
pub open spec fn affords(unit: Unit, def: AbilityDef) -> bool {
    &&& in_pool(unit.pools.ap) >= def.cost_ap
    &&& pays(
        def.costs@,
        unit.spec_hp(),
        in_pool(unit.pools.mana),
        in_pool(unit.pools.rage),
        in_pool(unit.pools.energy),
    )
}

/// Whether one of some statuses carries a tag.
pub open spec fn any_tagged(
    statuses: Seq<ActiveStatus>,
    status_tags: StatusTagCache,
    tag: StatusTag,
) -> bool {
    exists|i: int|
        0 <= i < statuses.len() && status_tags.spec_get((#[trigger] statuses[i]).id@).contains(tag)
}

fn has_tagged(
    statuses: &Vec<ActiveStatus>,
    status_tags: &StatusTagCache,
    tag: StatusTag,
) -> (r: bool)
    ensures
        r == any_tagged(statuses@, *status_tags, tag),
{
    let mut i: usize = 0;
    while i < statuses.len()
        invariant
            i <= statuses.len(),
            forall|j: int|
                0 <= j < i ==> !status_tags.spec_get((#[trigger] statuses@[j]).id@).contains(tag),
        decreases statuses.len() - i,
    {
        if status_tags.get(&statuses[i].id).contains_tag(tag) {
            assert(status_tags.spec_get(statuses@[i as int].id@).contains(tag));
            return true;
        }
        i = i + 1;
    }
    false
}

impl<'a> UnitView<'a> {
    /// The entity of the unit.
    pub fn entity(&self) -> (r: Entity)
        ensures
            r == self.cache.entity,
    {
        self.cache.entity
    }

    /// Whether the unit has a hit point left.
    pub fn is_alive(&self) -> (r: bool)
        ensures
            r == (self.state.spec_hp() > 0),
    {
        self.state.hp() > 0
    }

    /// The statuses on the unit.
    pub fn statuses(&self) -> (r: &Vec<ActiveStatus>)
        ensures
            *r == self.state.statuses,
    {
        &self.state.statuses
    }

    /// The damage that brings the unit down: hit points and all armor.
    pub fn eff_hp(&self) -> (r: i32)
        requires
            i32::MIN <= self.state.spec_hp() + self.state.runtime.armor <= i32::MAX,
            i32::MIN <= self.state.spec_hp() + self.state.runtime.armor + self.state.armor_bonus
                <= i32::MAX,
        ensures
            r == self.state.spec_hp() + self.state.runtime.armor + self.state.armor_bonus,
    {
        self.state.hp() + self.state.runtime.armor + self.state.armor_bonus
    }

    /// The damage that brings the unit down from full health, and one at least.
    pub fn eff_max_hp(&self) -> (r: i32)
        requires
            i32::MIN <= self.state.spec_max_hp() + self.state.runtime.armor <= i32::MAX,
            i32::MIN <= self.state.spec_max_hp() + self.state.runtime.armor
                + self.state.armor_bonus <= i32::MAX,
        ensures
            r == crate::hex::max(
                self.state.spec_max_hp() + self.state.runtime.armor + self.state.armor_bonus,
                1,
            ),
    {
        let sum: i32 = self.state.max_hp() + self.state.runtime.armor + self.state.armor_bonus;
        if sum < 1 {
            1
        } else {
            sum
        }
    }

    /// What the unit has of a resource.
    pub fn resource_amount(&self, kind: ResourceKind) -> (r: i32)
        ensures
            r == amount_of(
                kind,
                self.state.spec_hp(),
                in_pool(self.state.pools.mana),
                in_pool(self.state.pools.rage),
                in_pool(self.state.pools.energy),
            ),
    {
        pool_amount(
            kind,
            self.state.hp(),
            pool_current(self.state.pools.mana),
            pool_current(self.state.pools.rage),
            pool_current(self.state.pools.energy),
        )
    }

    /// Whether the unit has the action points and resources for an ability.
    pub fn can_afford(&self, def: &AbilityDef) -> (r: bool)
        ensures
            r == affords(*self.state, *def),
    {
        pool_current(self.state.pools.ap) >= def.cost_ap && can_pay(
            &def.costs,
            self.state.hp(),
            pool_current(self.state.pools.mana),
            pool_current(self.state.pools.rage),
            pool_current(self.state.pools.energy),
        )
    }

    /// Whether a status keeps the unit from acting.
    pub fn is_stunned(&self, status_tags: &StatusTagCache) -> (r: bool)
        ensures
            r == any_tagged(self.state.statuses@, *status_tags, StatusTag::HardCC),
    {
        has_tagged(&self.state.statuses, status_tags, StatusTag::HardCC)
    }

    /// Whether a status draws attacks to the unit.
    pub fn forces_targeting(&self, status_tags: &StatusTagCache) -> (r: bool)
        ensures
            r == any_tagged(self.state.statuses@, *status_tags, StatusTag::Compulsion),
    {
        has_tagged(&self.state.statuses, status_tags, StatusTag::Compulsion)
    }

    /// How plans of the unit are judged instead of as usual.
    pub fn forced_mode(&self) -> (r: Option<EvaluationMode>)
        ensures
            r == self.cache.forced_mode,
    {
        self.cache.forced_mode
    }
}

// ---------------------------------------------------------------------------
// The battle
// ---------------------------------------------------------------------------

/// The battle as the AI sees it.
pub struct BattleSnapshot {
    pub cache: AiCache,
    pub state: CombatState,
    /// Which unit is which entity. Summoned units have ids of their own.
    pub index: UnitIdMap,
}

/// The table of regular units: each record's entity under its own bits, where the
/// engine has such a unit.
pub open spec fn regular_table(units: Seq<UnitAiCache>, state: CombatState) -> IdTable
    decreases units.len(),
{
    if units.len() == 0 {
        IdTable::empty()
    } else {
        let rest = regular_table(units.drop_last(), state);
        let e = units.last().entity;
        if state.spec_unit(uid_of(e)) is Some {
            rest.pair(e, uid_of(e))
        } else {
            rest
        }
    }
}

/// The table that pairs make, one after the other.
pub open spec fn paired_table(pairs: Seq<(Entity, UnitId)>) -> IdTable
    decreases pairs.len(),
{
    if pairs.len() == 0 {
        IdTable::empty()
    } else {
        paired_table(pairs.drop_last()).pair(pairs.last().0, pairs.last().1)
    }
}

fn index_regular(units: &Vec<UnitAiCache>, state: &CombatState) -> (r: UnitIdMap)
    ensures
        r@ == regular_table(units@, *state),
{
    let mut r = UnitIdMap::new();
    let mut i: usize = 0;
    assert(units@.take(0) =~= Seq::empty());
    while i < units.len()
        invariant
            i <= units.len(),
            r@ == regular_table(units@.take(i as int), *state),
        decreases units.len() - i,
    {
        assert(units@.take(i + 1).drop_last() =~= units@.take(i as int));
        let uid = entity_to_uid(units[i].entity);
        if state.unit(uid).is_some() {
            r.insert(units[i].entity, uid);
        }
        i = i + 1;
    }
    assert(units@.take(i as int) =~= units@);
    r
}

/// The first unit on a cell.
pub open spec fn first_at(units: Seq<Unit>, pos: Hex) -> Option<Unit>
    decreases units.len(),
{
    if units.len() == 0 {
        None
    } else if units[0].pos == pos {
        Some(units[0])
    } else {
        first_at(units.drop_first(), pos)
    }
}

/// Whether a unit is of a team, where one is asked for, and as alive as is asked
/// for.
pub open spec fn is_wanted(u: Unit, team: Option<Team>, alive: Option<bool>) -> bool {
    (team matches Some(t) ==> u.team == t) && (alive matches Some(a) ==> (u.spec_hp() > 0) == a)
}

impl BattleSnapshot {
    /// The two directions of the table are filled or empty together.
    pub open spec fn wf(&self) -> bool {
        self.index@.to_id == Map::<Entity, UnitId>::empty() <==> self.index@.to_entity == Map::<
            UnitId,
            Entity,
        >::empty()
    }

    /// What the AI has worked out about a unit.
    pub open spec fn record_of(&self, id: UnitId) -> Option<UnitAiCache> {
        match self.index@.entity(id) {
            Some(e) => self.cache.record(e),
            None => None,
        }
    }

    /// Unit and record of an entity.
    pub open spec fn view_of(&self, entity: Entity) -> Option<(Unit, UnitAiCache)> {
        match self.index@.id(entity) {
            Some(id) => match (self.state.spec_unit(id), self.cache.record(entity)) {
                (Some(u), Some(c)) => Some((u, c)),
                _ => None,
            },
            None => None,
        }
    }

    /// Units that are wanted and have a record, with their records, in the order of
    /// the engine.
    pub open spec fn views(
        &self,
        units: Seq<Unit>,
        team: Option<Team>,
        alive: Option<bool>,
    ) -> Seq<(Unit, UnitAiCache)>
        decreases units.len(),
    {
        if units.len() == 0 {
            Seq::empty()
        } else {
            let rest = self.views(units.drop_last(), team, alive);
            let u = units.last();
            match self.record_of(u.id) {
                Some(c) if is_wanted(u, team, alive) => rest.push((u, c)),
                _ => rest,
            }
        }
    }

    /// A snapshot of regular units.
    pub fn new(state: CombatState, cache: AiCache) -> (r: BattleSnapshot)
        ensures
            r.cache == cache,
            r.state == state,
            r.index@ == regular_table(cache.units@, state),
            r.index@.is_inverse(),
            r.wf(),
    {
        let index = index_regular(&cache.units, &state);
        proof {
            regular_table_is_inverse(cache.units@, state);
            inverse_is_filled_both_ways(index@);
        }
        BattleSnapshot { cache, state, index }
    }

    /// A snapshot that is not indexed yet: no unit is found in it.
    pub fn unindexed(state: CombatState, cache: AiCache) -> (r: BattleSnapshot)
        ensures
            r.cache == cache,
            r.state == state,
            r.index@ == IdTable::empty(),
            r.wf(),
    {
        BattleSnapshot { cache, state, index: UnitIdMap::new() }
    }

    /// A snapshot whose units are paired with entities as listed.
    pub fn new_with_id_map(
        state: CombatState,
        cache: AiCache,
        id_pairs: &Vec<(Entity, UnitId)>,
    ) -> (r: BattleSnapshot)
        ensures
            r.cache == cache,
            r.state == state,
            r.index@ == paired_table(id_pairs@),
            r.wf(),
    {
        let mut index = UnitIdMap::new();
        let mut i: usize = 0;
        assert(id_pairs@.take(0) =~= Seq::empty());
        while i < id_pairs.len()
            invariant
                i <= id_pairs.len(),
                index@ == paired_table(id_pairs@.take(i as int)),
                i > 0 ==> exists|e: Entity| index@.to_id.contains_key(e),
                i > 0 ==> exists|u: UnitId| index@.to_entity.contains_key(u),
            decreases id_pairs.len() - i,
        {
            assert(id_pairs@.take(i + 1).drop_last() =~= id_pairs@.take(i as int));
            let (e, u) = id_pairs[i];
            index.insert(e, u);
            assert(index@.to_id.contains_key(e));
            assert(index@.to_entity.contains_key(u));
            i = i + 1;
        }
        assert(id_pairs@.take(i as int) =~= id_pairs@);
        BattleSnapshot { cache, state, index }
    }

    /// Indexes a snapshot of regular units that is not indexed yet. Others stay as
    /// they are.
    pub fn rebuild_index(&mut self)
        requires
            old(self).wf(),
        ensures
            final(self).wf(),
            final(self).cache == old(self).cache,
            final(self).state == old(self).state,
            final(self).index@ == (if old(self).index@.to_entity == Map::<
                UnitId,
                Entity,
            >::empty() && old(self).state.units@.len() > 0 {
                regular_table(old(self).cache.units@, old(self).state)
            } else {
                old(self).index@
            }),
    {
        if self.index.knows_no_unit() && self.state.units.len() > 0 {
            let index = index_regular(&self.cache.units, &self.state);
            proof {
                regular_table_is_inverse(self.cache.units@, self.state);
                inverse_is_filled_both_ways(index@);
            }
            self.index = index;
        }
    }

    /// The unit of an entity, regular or summoned.
    pub fn unit(&self, entity: Entity) -> (r: Option<UnitView<'_>>)
        ensures
            match r {
                Some(v) => self.view_of(entity) == Some((*v.state, *v.cache)),
                None => self.view_of(entity) is None,
            },
    {
        let uid = match self.index.get_id(entity) {
            Some(uid) => uid,
            None => return None,
        };
        match (self.state.unit(uid), self.cache.unit(entity)) {
            (Some(state), Some(cache)) => Some(UnitView { state, cache }),
            _ => None,
        }
    }

    /// The entity of a unit.
    pub fn entity_for_uid(&self, uid: UnitId) -> (r: Option<Entity>)
        ensures
            r == self.index@.entity(uid),
    {
        self.index.get_entity(uid)
    }

    /// The unit of an entity, by its id.
    pub fn uid_for_entity(&self, entity: Entity) -> (r: Option<UnitId>)
        ensures
            r == self.index@.id(entity),
    {
        self.index.get_id(entity)
    }

    fn record(&self, id: UnitId) -> (r: Option<&UnitAiCache>)
        ensures
            match r {
                Some(c) => self.record_of(id) == Some(*c),
                None => self.record_of(id) is None,
            },
    {
        match self.index.get_entity(id) {
            Some(e) => self.cache.unit(e),
            None => None,
        }
    }

    /// The first unit on a cell, where it has a record.
    pub fn unit_at(&self, pos: Hex) -> (r: Option<UnitView<'_>>)
        ensures
            match r {
                Some(v) => first_at(self.state.units@, pos) == Some(*v.state) && self.record_of(
                    v.state.id,
                ) == Some(*v.cache),
                None => first_at(self.state.units@, pos) matches Some(u) ==> self.record_of(u.id)
                    is None,
            },
    {
        let mut i: usize = 0;
        assert(self.state.units@.skip(0) =~= self.state.units@);
        while i < self.state.units.len()
            invariant
                i <= self.state.units.len(),
                first_at(self.state.units@, pos) == first_at(
                    self.state.units@.skip(i as int),
                    pos,
                ),
            decreases self.state.units.len() - i,
        {
            assert(self.state.units@.skip(i as int).drop_first() =~= self.state.units@.skip(
                i + 1,
            ));
            let u = &self.state.units[i];
            if u.pos == pos {
                return match self.record(u.id) {
                    Some(cache) => Some(UnitView { state: u, cache }),
                    None => None,
                };
            }
            i = i + 1;
        }
        None
    }

    fn collect(&self, team: Option<Team>, alive: Option<bool>) -> (r: Vec<UnitView<'_>>)
        ensures
            pairs_of(r@) == self.views(self.state.units@, team, alive),
    {
        let mut r: Vec<UnitView<'_>> = Vec::new();
        let mut i: usize = 0;
        assert(self.state.units@.take(0) =~= Seq::empty());
        assert(pairs_of(r@) =~= Seq::empty());
        while i < self.state.units.len()
            invariant
                i <= self.state.units.len(),
                pairs_of(r@) == self.views(self.state.units@.take(i as int), team, alive),
            decreases self.state.units.len() - i,
        {
            assert(self.state.units@.take(i + 1).drop_last() =~= self.state.units@.take(
                i as int,
            ));
            let u = &self.state.units[i];
            let right_team = match team {
                Some(t) => u.team == t,
                None => true,
            };
            let right_health = match alive {
                Some(a) => (u.hp() > 0) == a,
                None => true,
            };
            let ghost before = pairs_of(r@);
            if right_team && right_health {
                if let Some(cache) = self.record(u.id) {
                    r.push(UnitView { state: u, cache });
                    assert(pairs_of(r@) =~= before.push((*u, *cache)));
                }
            }
            i = i + 1;
        }
        assert(self.state.units@.take(i as int) =~= self.state.units@);
        r
    }

    /// Living enemies of a team.
    pub fn enemies_of(&self, team: Team) -> (r: Vec<UnitView<'_>>)
        ensures
            pairs_of(r@) == self.views(self.state.units@, Some(opponent(team)), Some(true)),
    {
        self.collect(Some(opponent_team(team)), Some(true))
    }

    /// Living units of a team.
    pub fn allies_of(&self, team: Team) -> (r: Vec<UnitView<'_>>)
        ensures
            pairs_of(r@) == self.views(self.state.units@, Some(team), Some(true)),
    {
        self.collect(Some(team), Some(true))
    }

    /// Enemies of a team, the fallen among them.
    pub fn all_enemies_of(&self, team: Team) -> (r: Vec<UnitView<'_>>)
        ensures
            pairs_of(r@) == self.views(self.state.units@, Some(opponent(team)), None),
    {
        self.collect(Some(opponent_team(team)), None)
    }

    /// Fallen enemies of a team.
    pub fn dead_enemies_of(&self, team: Team) -> (r: Vec<UnitView<'_>>)
        ensures
            pairs_of(r@) == self.views(self.state.units@, Some(opponent(team)), Some(false)),
    {
        self.collect(Some(opponent_team(team)), Some(false))
    }

    /// The fallen of both teams.
    pub fn dead_units(&self) -> (r: Vec<UnitView<'_>>)
        ensures
            pairs_of(r@) == self.views(self.state.units@, None, Some(false)),
    {
        self.collect(None, Some(false))
    }
}

/// Units with their records.
pub open spec fn pairs_of(views: Seq<UnitView<'_>>) -> Seq<(Unit, UnitAiCache)> {
    Seq::new(views.len(), |i: int| (*views[i].state, *views[i].cache))
}

proof fn regular_table_is_inverse(units: Seq<UnitAiCache>, state: CombatState)
    ensures
        regular_table(units, state).is_inverse(),
        forall|e: Entity| #[trigger]
            regular_table(units, state).to_id.contains_key(e) ==> regular_table(
                units,
                state,
            ).to_id[e] == uid_of(e),
    decreases units.len(),
{
    if units.len() > 0 {
        regular_table_is_inverse(units.drop_last(), state);
        let rest = regular_table(units.drop_last(), state);
        let e = units.last().entity;
        if state.spec_unit(uid_of(e)) is Some {
            crate::ids::law_regular_pair_keeps_inverse(rest, e);
        }
    }
}

proof fn inverse_is_filled_both_ways(t: IdTable)
    requires
        t.is_inverse(),
    ensures
        t.to_id == Map::<Entity, UnitId>::empty() <==> t.to_entity == Map::<
            UnitId,
            Entity,
        >::empty(),
{
    if t.to_id == Map::<Entity, UnitId>::empty() {
        assert forall|u: UnitId| !t.to_entity.contains_key(u) by {
            if t.to_entity.contains_key(u) {
                assert(t.to_id.contains_key(t.to_entity[u]));
            }
        }
        assert(t.to_entity =~= Map::<UnitId, Entity>::empty());
    }
    if t.to_entity == Map::<UnitId, Entity>::empty() {
        assert forall|e: Entity| !t.to_id.contains_key(e) by {
            if t.to_id.contains_key(e) {
                assert(t.to_entity.contains_key(t.to_id[e]));
            }
        }
        assert(t.to_id =~= Map::<Entity, UnitId>::empty());
    }
}

// ---------------------------------------------------------------------------
// Making a snapshot
// ---------------------------------------------------------------------------

/// A combatant of the display world, as far as the AI looks at it.
#[derive(Debug)]
pub struct AiCombatantRow {
    pub entity: Entity,
    pub hp: i32,
    pub max_hp: i32,
    pub mana: Option<i32>,
    pub rage: Option<i32>,
    pub energy: Option<i32>,
    pub abilities: Vec<String>,
    pub caster_ctx: CasterContext,
    /// The path that decides how casts fail.
    pub path: Option<String>,
    pub behavior: Option<AiBehaviorKind>,
}

/// A number, or zero.
pub open spec fn or_zero(o: Option<i32>) -> i32 {
    match o {
        Some(i) => i,
        None => 0,
    }
}

fn unwrap_or_zero(o: Option<i32>) -> (r: i32)
    ensures
        r == or_zero(o),
{
    match o {
        Some(i) => i,
        None => 0,
    }
}

/// Whether an ability puts a status on somebody that costs turns.
pub open spec fn costs_turns(def: AbilityDef, content: ContentView) -> bool {
    exists|i: int|
        0 <= i < def.statuses@.len() && (content.status((#[trigger] def.statuses@[i]).status@)
            matches Some(d) && d.skips_turn)
}

/// Whether an ability puts a status on somebody that costs turns.
pub fn applies_cc(def: &AbilityDef, content: &ContentView) -> (r: bool)
    ensures
        r == costs_turns(*def, *content),
{
    let mut i: usize = 0;
    while i < def.statuses.len()
        invariant
            i <= def.statuses.len(),
            forall|j: int|
                0 <= j < i ==> !(content.status((#[trigger] def.statuses@[j]).status@) matches Some(
                    d,
                ) && d.skips_turn),
        decreases def.statuses.len() - i,
    {
        if let Some(d) = content.status_def(&def.statuses[i].status) {
            if d.skips_turn {
                assert(content.status(def.statuses@[i as int].status@) matches Some(d)
                    && d.skips_turn);
                return true;
            }
        }
        i = i + 1;
    }
    false
}

/// Whether a combatant can pay for an ability.
pub open spec fn row_pays(row: AiCombatantRow, def: AbilityDef) -> bool {
    pays(def.costs@, row.hp, or_zero(row.mana), or_zero(row.rage), or_zero(row.energy))
}

/// Whether an ability heals an ally.
pub open spec fn heals_ally(def: AbilityDef) -> bool {
    def.target_type == TargetType::SingleAlly && def.effect is Heal
}

/// Whether a combatant has an ability that it can pay for and that heals an ally.
pub open spec fn has_heal(row: AiCombatantRow, content: ContentView) -> bool {
    exists|i: int|
        0 <= i < row.abilities@.len() && (content.ability((#[trigger] row.abilities@[i])@)
            matches Some(d) && row_pays(row, d) && heals_ally(d))
}

/// Whether a combatant has an ability that it can pay for and that costs others
/// turns.
pub open spec fn has_cc(row: AiCombatantRow, content: ContentView) -> bool {
    exists|i: int|
        0 <= i < row.abilities@.len() && (content.ability((#[trigger] row.abilities@[i])@)
            matches Some(d) && row_pays(row, d) && costs_turns(d, content))
}

/// Whether a combatant has an ability that it can pay for and that covers an area.
pub open spec fn has_area(row: AiCombatantRow, content: ContentView) -> bool {
    exists|i: int|
        0 <= i < row.abilities@.len() && (content.ability((#[trigger] row.abilities@[i])@)
            matches Some(d) && row_pays(row, d) && d.aoe != AoEShape::Single)
}

/// Whether a combatant has an ability that reaches further than one cell.
pub open spec fn has_reach(row: AiCombatantRow, content: ContentView) -> bool {
    exists|i: int|
        0 <= i < row.abilities@.len() && (content.ability((#[trigger] row.abilities@[i])@)
            matches Some(d) && d.range.max > 1)
}

/// Whether a combatant has an ability that cannot be used at arm's length.
pub open spec fn has_distance(row: AiCombatantRow, content: ContentView) -> bool {
    exists|i: int|
        0 <= i < row.abilities@.len() && (content.ability((#[trigger] row.abilities@[i])@)
            matches Some(d) && d.range.min >= 2)
}

/// Whether less than three tenths of the hit points are left.
pub open spec fn is_low(hp: i32, max_hp: i32) -> bool {
    10 * hp < 3 * crate::hex::max(max_hp as int, 1)
}

/// What the AI notes about a combatant. What its statuses do is not among it:
/// that is looked up when it is needed.
pub open spec fn tags_of(row: AiCombatantRow, content: ContentView, objective: bool) -> AiTags {
    AiTags {
        low_hp: is_low(row.hp, row.max_hp),
        can_heal: has_heal(row, content),
        can_cc: has_cc(row, content),
        has_aoe: has_area(row, content),
        is_stunned: false,
        forces_targeting: false,
        ranged: has_distance(row, content),
        melee_only: !has_reach(row, content),
        opponent_objective: objective,
    }
}

/// What the AI notes about a combatant.
pub fn compute_tags(row: &AiCombatantRow, content: &ContentView, objective: bool) -> (r: AiTags)
    ensures
        r == tags_of(*row, *content, objective),
{
    let mut tags = AiTags::empty();
    let max_hp: i64 = if row.max_hp < 1 {
        1
    } else {
        row.max_hp as i64
    };
    tags.low_hp = 10 * (row.hp as i64) < 3 * max_hp;
    tags.opponent_objective = objective;
    let mana = unwrap_or_zero(row.mana);
    let rage = unwrap_or_zero(row.rage);
    let energy = unwrap_or_zero(row.energy);
    let mut far = false;
    let mut i: usize = 0;
    while i < row.abilities.len()
        invariant
            i <= row.abilities.len(),
            mana == or_zero(row.mana),
            rage == or_zero(row.rage),
            energy == or_zero(row.energy),
            tags.low_hp == is_low(row.hp, row.max_hp),
            tags.opponent_objective == objective,
            !tags.is_stunned,
            !tags.forces_targeting,
            !tags.melee_only,
            tags.can_heal == (exists|j: int|
                0 <= j < i && (content.ability((#[trigger] row.abilities@[j])@) matches Some(d)
                    && row_pays(*row, d) && heals_ally(d))),
            tags.can_cc == (exists|j: int|
                0 <= j < i && (content.ability((#[trigger] row.abilities@[j])@) matches Some(d)
                    && row_pays(*row, d) && costs_turns(d, *content))),
            tags.has_aoe == (exists|j: int|
                0 <= j < i && (content.ability((#[trigger] row.abilities@[j])@) matches Some(d)
                    && row_pays(*row, d) && d.aoe != AoEShape::Single)),
            tags.ranged == (exists|j: int|
                0 <= j < i && (content.ability((#[trigger] row.abilities@[j])@) matches Some(d)
                    && d.range.min >= 2)),
            far == (exists|j: int|
                0 <= j < i && (content.ability((#[trigger] row.abilities@[j])@) matches Some(d)
                    && d.range.max > 1)),
        decreases row.abilities.len() - i,
    {
        let ghost id = row.abilities@[i as int];
        if let Some(def) = content.ability_def(&row.abilities[i]) {
            if def.range.max > 1 {
                far = true;
            }
            if def.range.min >= 2 {
                tags.ranged = true;
            }
            if can_pay(&def.costs, row.hp, mana, rage, energy) {
                let heals = match &def.effect {
                    EffectDef::Heal { .. } => true,
                    _ => false,
                };
                if def.target_type == TargetType::SingleAlly && heals {
                    tags.can_heal = true;
                }
                if applies_cc(def, content) {
                    tags.can_cc = true;
                }
                if def.aoe != AoEShape::Single {
                    tags.has_aoe = true;
                }
            }
        }
        i = i + 1;
    }
    tags.melee_only = !far;
    tags
}

/// The longest reach of abilities that are aimed at enemies or at cells.
pub open spec fn longest_reach(ids: Seq<String>, content: ContentView) -> u32
    decreases ids.len(),
{
    if ids.len() == 0 {
        0
    } else {
        let rest = longest_reach(ids.drop_last(), content);
        match content.ability(ids.last()@) {
            Some(d) if (d.target_type == TargetType::SingleEnemy || d.target_type
                == TargetType::Ground) && d.range.max > rest => d.range.max,
            _ => rest,
        }
    }
}

/// The longest reach of abilities that are aimed at enemies or at cells.
pub fn max_attack_range(ids: &Vec<String>, content: &ContentView) -> (r: u32)
    ensures
        r == longest_reach(ids@, *content),
{
    let mut r: u32 = 0;
    let mut i: usize = 0;
    assert(ids@.take(0) =~= Seq::empty());
    while i < ids.len()
        invariant
            i <= ids.len(),
            r == longest_reach(ids@.take(i as int), *content),
        decreases ids.len() - i,
    {
        assert(ids@.take(i + 1).drop_last() =~= ids@.take(i as int));
        if let Some(d) = content.ability_def(&ids[i]) {
            if (d.target_type == TargetType::SingleEnemy || d.target_type == TargetType::Ground)
                && d.range.max > r {
                r = d.range.max;
            }
        }
        i = i + 1;
    }
    assert(ids@.take(i as int) =~= ids@);
    r
}

/// The opportunity attack of a combatant: with a melee attack and a weapon.
pub open spec fn strike_of(row: AiCombatantRow, content: ContentView) -> Option<AooStrike> {
    match row.caster_ctx.weapon_dice {
        Some(dice) if has_melee_attack(row.abilities@, content) => Some(
            AooStrike { dice, str_mod: row.caster_ctx.str_mod },
        ),
        _ => None,
    }
}

/// How a behavior has plans judged.
pub open spec fn mode_of(behavior: Option<AiBehaviorKind>) -> Option<EvaluationMode> {
    match behavior {
        Some(AiBehaviorKind::Flee) => Some(EvaluationMode::Flee),
        None => None,
    }
}

/// Whether a record holds what the AI works out about a combatant.
pub open spec fn is_record_of(
    u: UnitAiCache,
    row: AiCombatantRow,
    content: ContentView,
    paths: Seq<PathDef>,
    keep_alive: Seq<Entity>,
) -> bool {
    &&& u.entity == row.entity
    &&& u.tags == tags_of(row, content, keep_alive.contains(row.entity))
    &&& u.max_attack_range == longest_reach(row.abilities@, content)
    &&& u.aoo == strike_of(row, content)
    &&& u.crit_fail_effect == crit_fail_of(row.path, paths)
    &&& u.abilities@ == row.abilities@
    &&& u.caster_ctx == row.caster_ctx
    &&& u.forced_mode == mode_of(row.behavior)
}

fn is_kept_alive(list: &Vec<Entity>, entity: Entity) -> (r: bool)
    ensures
        r == list@.contains(entity),
{
    let mut i: usize = 0;
    while i < list.len()
        invariant
            i <= list.len(),
            forall|j: int| 0 <= j < i ==> (#[trigger] list@[j]) != entity,
        decreases list.len() - i,
    {
        if list[i] == entity {
            assert(list@[i as int] == entity);
            return true;
        }
        i = i + 1;
    }
    false
}

/// Works out what the AI wants to know about a combatant.
pub fn make_record(
    row: &AiCombatantRow,
    content: &ContentView,
    paths: &Vec<PathDef>,
    keep_alive: &Vec<Entity>,
) -> (r: UnitAiCache)
    ensures
        is_record_of(r, *row, *content, paths@, keep_alive@),
{
    let objective = is_kept_alive(keep_alive, row.entity);
    let tags = compute_tags(row, content, objective);
    let melee = any_melee_attack(&row.abilities, content);
    let aoo = match row.caster_ctx.weapon_dice {
        Some(dice) => if melee {
            Some(AooStrike { dice, str_mod: row.caster_ctx.str_mod })
        } else {
            None
        },
        None => None,
    };
    let forced_mode = match row.behavior {
        Some(AiBehaviorKind::Flee) => Some(EvaluationMode::Flee),
        None => None,
    };
    UnitAiCache {
        entity: row.entity,
        tags,
        max_attack_range: max_attack_range(&row.abilities, content),
        aoo,
        crit_fail_effect: crit_fail_effect_of(&row.path, paths),
        abilities: copy_strings(&row.abilities),
        caster_ctx: row.caster_ctx,
        forced_mode,
    }
}

/// The combatants that are on the board, standing or fallen, in order.
pub open spec fn on_board(
    rows: Seq<AiCombatantRow>,
    living: Map<Entity, Hex>,
    fallen: Map<Entity, Hex>,
) -> Seq<AiCombatantRow>
    decreases rows.len(),
{
    if rows.len() == 0 {
        Seq::empty()
    } else {
        let rest = on_board(rows.drop_last(), living, fallen);
        let e = rows.last().entity;
        if living.contains_key(e) || fallen.contains_key(e) {
            rest.push(rows.last())
        } else {
            rest
        }
    }
}

/// Whether a team knows of an object: it owns it or it has been revealed to it.
pub open spec fn is_visible(o: EnvObject, team: Team) -> bool {
    o.owner == Some(team) || match team {
        Team::Player => o.revealed_to_player,
        Team::Enemy => o.revealed_to_enemy,
    }
}

impl EnvObject {
    /// Whether a team knows of the object.
    pub fn visible_to(&self, team: Team) -> (r: bool)
        ensures
            r == is_visible(*self, team),
    {
        let owned = match self.owner {
            Some(t) => t == team,
            None => false,
        };
        owned || match team {
            Team::Player => self.revealed_to_player,
            Team::Enemy => self.revealed_to_enemy,
        }
    }
}

/// The objects that a team knows of, in order.
pub open spec fn visible(objects: Seq<EnvObject>, team: Team) -> Seq<EnvObject>
    decreases objects.len(),
{
    if objects.len() == 0 {
        Seq::empty()
    } else if is_visible(objects.last(), team) {
        visible(objects.drop_last(), team).push(objects.last())
    } else {
        visible(objects.drop_last(), team)
    }
}

/// The objects that a team knows of.
pub fn retain_visible(objects: &Vec<EnvObject>, team: Team) -> (r: Vec<EnvObject>)
    ensures
        r@ == visible(objects@, team),
{
    let mut r: Vec<EnvObject> = Vec::new();
    let mut i: usize = 0;
    assert(objects@.take(0) =~= Seq::empty());
    while i < objects.len()
        invariant
            i <= objects.len(),
            r@ == visible(objects@.take(i as int), team),
        decreases objects.len() - i,
    {
        assert(objects@.take(i + 1).drop_last() =~= objects@.take(i as int));
        let o = &objects[i];
        if o.visible_to(team) {
            r.push(
                EnvObject {
                    id: o.id,
                    hex: o.hex,
                    ability: o.ability.clone(),
                    owner: o.owner,
                    revealed_to_player: o.revealed_to_player,
                    revealed_to_enemy: o.revealed_to_enemy,
                },
            );
        }
        i = i + 1;
    }
    assert(objects@.take(i as int) =~= objects@);
    r
}

/// The entity of each unit that one of some records belongs to; of several
/// records for one unit the last counts.
pub open spec fn entities_by_id(units: Seq<UnitAiCache>, ids: IdTable) -> Map<UnitId, Entity>
    decreases units.len(),
{
    if units.len() == 0 {
        Map::empty()
    } else {
        let rest = entities_by_id(units.drop_last(), ids);
        match ids.id(units.last().entity) {
            Some(u) => rest.insert(u, units.last().entity),
            None => rest,
        }
    }
}

proof fn entities_by_id_are_known(units: Seq<UnitAiCache>, ids: IdTable)
    ensures
        forall|u: UnitId| #[trigger]
            entities_by_id(units, ids).contains_key(u) ==> ids.id(entities_by_id(units, ids)[u])
                == Some(u) && exists|k: int|
                0 <= k < units.len() && (#[trigger] units[k]).entity == entities_by_id(
                    units,
                    ids,
                )[u],
    decreases units.len(),
{
    if units.len() > 0 {
        let rest = units.drop_last();
        entities_by_id_are_known(rest, ids);
        assert forall|u: UnitId| #[trigger] entities_by_id(units, ids).contains_key(
            u,
        ) implies ids.id(entities_by_id(units, ids)[u]) == Some(u) && exists|k: int|
            0 <= k < units.len() && (#[trigger] units[k]).entity == entities_by_id(
                units,
                ids,
            )[u] by {
            if ids.id(units.last().entity) == Some(u) {
                assert(units[units.len() - 1].entity == entities_by_id(units, ids)[u]);
            } else {
                assert(entities_by_id(rest, ids).contains_key(u));
                let k = choose|k: int|
                    0 <= k < rest.len() && (#[trigger] rest[k]).entity == entities_by_id(
                        rest,
                        ids,
                    )[u];
                assert(units[k] == rest[k]);
            }
        }
    }
}

/// The table of the records' units: both directions, inverse to each other.
fn index_known(units: &Vec<UnitAiCache>, id_map: &UnitIdMap) -> (r: UnitIdMap)
    ensures
        r@.to_entity == entities_by_id(units@, id_map@),
        r@.is_inverse(),
{
    let mut all = UnitIdMap::new();
    let mut i: usize = 0;
    assert(units@.take(0) =~= Seq::empty());
    while i < units.len()
        invariant
            i <= units.len(),
            all@.to_entity == entities_by_id(units@.take(i as int), id_map@),
        decreases units.len() - i,
    {
        assert(units@.take(i + 1).drop_last() =~= units@.take(i as int));
        if let Some(uid) = id_map.get_id(units[i].entity) {
            all.insert(units[i].entity, uid);
        }
        i = i + 1;
    }
    assert(units@.take(i as int) =~= units@);
    let ghost target = entities_by_id(units@, id_map@);
    proof {
        entities_by_id_are_known(units@, id_map@);
    }
    let mut r = UnitIdMap::new();
    let mut k: usize = 0;
    while k < units.len()
        invariant
            k <= units.len(),
            target == entities_by_id(units@, id_map@),
            all@.to_entity == target,
            r@.is_inverse(),
            forall|u: UnitId| #[trigger]
                r@.to_entity.contains_key(u) ==> target.contains_key(u) && target[u]
                    == r@.to_entity[u],
            forall|j: int, u: UnitId|
                0 <= j < k && #[trigger] target.contains_key(u) && target[u] == (
                #[trigger] units@[j]).entity && id_map@.id(units@[j].entity) == Some(u)
                    ==> r@.to_entity.contains_key(u),
            forall|e: Entity| #[trigger]
                r@.to_id.contains_key(e) ==> id_map@.id(e) == Some(r@.to_id[e]),
        decreases units.len() - k,
    {
        let e = units[k].entity;
        let ghost before = r@;
        if let Some(uid) = id_map.get_id(e) {
            if let Some(last) = all.get_entity(uid) {
                if last == e {
                    r.insert(e, uid);
                    proof {
                        assert(target.contains_key(uid) && target[uid] == e);
                        pair_again_keeps_inverse(before, e, uid, id_map@, target);
                    }
                }
            }
        }
        k = k + 1;
    }
    proof {
        assert forall|u: UnitId| target.contains_key(u) implies r@.to_entity.contains_key(u) by {
            let j = choose|j: int|
                0 <= j < units@.len() && (#[trigger] units@[j]).entity == target[u];
            assert(id_map@.id(units@[j].entity) == Some(u));
        }
        assert(r@.to_entity =~= target);
    }
    r
}

proof fn pair_again_keeps_inverse(
    t: IdTable,
    e: Entity,
    u: UnitId,
    ids: IdTable,
    target: Map<UnitId, Entity>,
)
    requires
        t.is_inverse(),
        ids.id(e) == Some(u),
        target.contains_key(u),
        target[u] == e,
        forall|v: UnitId| #[trigger]
            t.to_entity.contains_key(v) ==> target.contains_key(v) && target[v] == t.to_entity[v],
        forall|f: Entity| #[trigger]
            t.to_id.contains_key(f) ==> ids.id(f) == Some(t.to_id[f]),
    ensures
        t.pair(e, u).is_inverse(),
{
    let p = t.pair(e, u);
    assert forall|f: Entity| #[trigger] p.to_id.contains_key(f) implies p.to_entity.contains_key(
        p.to_id[f],
    ) && p.to_entity[p.to_id[f]] == f by {
        if f != e {
            assert(t.to_id.contains_key(f));
            if t.to_id[f] == u {
                assert(t.to_entity.contains_key(u));
                assert(target[u] == t.to_entity[u]);
            }
        }
    }
    assert forall|v: UnitId| #[trigger] p.to_entity.contains_key(v) implies p.to_id.contains_key(
        p.to_entity[v],
    ) && p.to_id[p.to_entity[v]] == v by {
        if v != u {
            assert(t.to_entity.contains_key(v));
            if t.to_entity[v] == e {
                assert(t.to_id.contains_key(e));
            }
        }
    }
}

/// Makes a snapshot: a record for each combatant on the board, the engine's state
/// with only those objects that the AI's team knows of, and the table between the
/// two.
pub fn build_snapshot(
    rows: &Vec<AiCombatantRow>,
    living: &HexPositions,
    fallen: &HexPositions,
    content: &ContentView,
    paths: &Vec<PathDef>,
    combat_state: CombatState,
    id_map: &UnitIdMap,
    keep_alive: &Vec<Entity>,
    ai_team: Team,
) -> (r: BattleSnapshot)
    ensures
        ({
            let placed = on_board(rows@, living@, fallen@);
            &&& r.cache.units@.len() == placed.len()
            &&& forall|i: int|
                0 <= i < placed.len() ==> is_record_of(
                    #[trigger] r.cache.units@[i],
                    placed[i],
                    *content,
                    paths@,
                    keep_alive@,
                )
        }),
        r.cache.by_entity@ == places(r.cache.units@),
        r.state.units == combat_state.units,
        r.state.round == combat_state.round,
        r.state.turn_queue == combat_state.turn_queue,
        r.state.blocked_hexes == combat_state.blocked_hexes,
        r.state.environment@ == visible(combat_state.environment@, ai_team),
        r.index@.to_entity == entities_by_id(r.cache.units@, id_map@),
        r.index@.is_inverse(),
        r.wf(),
{
    let mut state = combat_state;
    let environment = retain_visible(&state.environment, ai_team);
    state.environment = environment;
    let mut units: Vec<UnitAiCache> = Vec::new();
    let mut i: usize = 0;
    assert(rows@.take(0) =~= Seq::empty());
    while i < rows.len()
        invariant
            i <= rows.len(),
            units@.len() == on_board(rows@.take(i as int), living@, fallen@).len(),
            forall|j: int|
                0 <= j < units@.len() ==> is_record_of(
                    #[trigger] units@[j],
                    on_board(rows@.take(i as int), living@, fallen@)[j],
                    *content,
                    paths@,
                    keep_alive@,
                ),
        decreases rows.len() - i,
    {
        assert(rows@.take(i + 1).drop_last() =~= rows@.take(i as int));
        let e = rows[i].entity;
        if living.get(e).is_some() || fallen.get(e).is_some() {
            units.push(make_record(&rows[i], content, paths, keep_alive));
        }
        i = i + 1;
    }
    assert(rows@.take(i as int) =~= rows@);
    let index = index_known(&units, id_map);
    proof {
        inverse_is_filled_both_ways(index@);
    }
    BattleSnapshot { cache: AiCache::from_units(units), state, index }
}

// ---------------------------------------------------------------------------
// Laws
// ---------------------------------------------------------------------------

/// Every enemy of a team is either living or fallen, and none is both: the living
/// and the fallen are the two parts of all enemies, each in the same order.
pub proof fn law_enemies_split(snap: BattleSnapshot, units: Seq<Unit>, team: Option<Team>)
    ensures
        snap.views(units, team, Some(true)) == snap.views(units, team, None).filter(
            |p: (Unit, UnitAiCache)| p.0.hp() > 0,
        ),
        snap.views(units, team, Some(false)) == snap.views(units, team, None).filter(
            |p: (Unit, UnitAiCache)| !(p.0.hp() > 0),
        ),
        snap.views(units, team, None).len() == snap.views(units, team, Some(true)).len()
            + snap.views(units, team, Some(false)).len(),
    decreases units.len(),
{
    reveal(Seq::filter);
    if units.len() > 0 {
        let rest = units.drop_last();
        law_enemies_split(snap, rest, team);
        let all = snap.views(units, team, None);
        if all != snap.views(rest, team, None) {
            assert(all.drop_last() =~= snap.views(rest, team, None));
        }
    }
}

/// Whoever is listed is wanted, and is listed with its own record.
pub proof fn law_listed_are_wanted(
    snap: BattleSnapshot,
    units: Seq<Unit>,
    team: Option<Team>,
    alive: Option<bool>,
    i: int,
)
    requires
        0 <= i < snap.views(units, team, alive).len(),
    ensures
        ({
            let (u, c) = snap.views(units, team, alive)[i];
            &&& units.contains(u)
            &&& is_wanted(u, team, alive)
            &&& snap.record_of(u.id) == Some(c)
        }),
    decreases units.len(),
{
    let rest = units.drop_last();
    let v = snap.views(rest, team, alive);
    if i < v.len() {
        law_listed_are_wanted(snap, rest, team, alive, i);
        let (u, c) = v[i];
        let k = choose|k: int| 0 <= k < rest.len() && rest[k] == u;
        assert(units[k] == u);
    } else {
        assert(units[units.len() - 1] == units.last());
    }
}

/// Units and entities translate into each other and back.
pub proof fn law_translation_round_trip(snap: BattleSnapshot, entity: Entity, id: UnitId)
    requires
        snap.index@.is_inverse(),
    ensures
        snap.index@.id(entity) == Some(id) <==> snap.index@.entity(id) == Some(entity),
{
    if snap.index@.id(entity) == Some(id) {
        assert(snap.index@.to_id.contains_key(entity));
    }
    if snap.index@.entity(id) == Some(entity) {
        assert(snap.index@.to_entity.contains_key(id));
    }
}

/// The AI learns nothing of objects that its team does not know of, and loses
/// none that it does.
pub proof fn law_only_visible_objects(objects: Seq<EnvObject>, team: Team, o: EnvObject)
    ensures
        visible(objects, team).contains(o) <==> objects.contains(o) && is_visible(o, team),
    decreases objects.len(),
{
    let v = visible(objects, team);
    if objects.len() > 0 {
        let rest = objects.drop_last();
        let w = visible(rest, team);
        law_only_visible_objects(rest, team, o);
        if v.contains(o) {
            let k = choose|k: int| 0 <= k < v.len() && v[k] == o;
            if k < w.len() {
                assert(w[k] == o);
                assert(w.contains(o));
                let j = choose|j: int| 0 <= j < rest.len() && rest[j] == o;
                assert(objects[j] == o);
            } else {
                assert(objects[objects.len() - 1] == o);
            }
        }
        if objects.contains(o) && is_visible(o, team) {
            let j = choose|j: int| 0 <= j < objects.len() && objects[j] == o;
            if j < rest.len() {
                assert(rest[j] == o);
                assert(w.contains(o));
                let k = choose|k: int| 0 <= k < w.len() && w[k] == o;
                assert(v[k] == o);
            } else {
                assert(v[v.len() - 1] == o);
            }
        }
    }
}

/// A regular unit of the engine that has a record is found under its entity.
pub proof fn law_regular_unit_is_found(
    units: Seq<UnitAiCache>,
    state: CombatState,
    k: int,
)
    requires
        0 <= k < units.len(),
        state.spec_unit(uid_of(units[k].entity)) is Some,
    ensures
        regular_table(units, state).id(units[k].entity) == Some(uid_of(units[k].entity)),
        regular_table(units, state).entity(uid_of(units[k].entity)) == Some(units[k].entity),
    decreases units.len(),
{
    if k < units.len() - 1 {
        assert(units.drop_last()[k] == units[k]);
        law_regular_unit_is_found(units.drop_last(), state, k);
    }
}

/// One more cost is paid if and only if there is as much of its resource.
pub proof fn law_paying_one_more(
    costs: Seq<ResourceCost>,
    more: ResourceCost,
    hp: i32,
    mana: i32,
    rage: i32,
    energy: i32,
)
    ensures
        pays(Seq::empty(), hp, mana, rage, energy),
        pays(costs.push(more), hp, mana, rage, energy) ==> pays(costs, hp, mana, rage, energy),
        pays(costs, hp, mana, rage, energy) ==> {
            &&& more.resource is Hp ==> (pays(costs.push(more), hp, mana, rage, energy)
                <==> more.amount <= hp)
            &&& more.resource is Mana ==> (pays(costs.push(more), hp, mana, rage, energy)
                <==> more.amount <= mana)
            &&& more.resource is Rage ==> (pays(costs.push(more), hp, mana, rage, energy)
                <==> more.amount <= rage)
            &&& more.resource is Energy ==> (pays(costs.push(more), hp, mana, rage, energy)
                <==> more.amount <= energy)
        },
{
    let all = costs.push(more);
    assert(all[costs.len() as int] == more);
    if pays(all, hp, mana, rage, energy) {
        assert forall|i: int| 0 <= i < costs.len() implies amount_of(
            (#[trigger] costs[i]).resource,
            hp,
            mana,
            rage,
            energy,
        ) >= costs[i].amount by {
            assert(all[i] == costs[i]);
        }
    }
    if pays(costs, hp, mana, rage, energy) && amount_of(more.resource, hp, mana, rage, energy)
        >= more.amount {
        assert forall|i: int| 0 <= i < all.len() implies amount_of(
            (#[trigger] all[i]).resource,
            hp,
            mana,
            rage,
            energy,
        ) >= all[i].amount by {
            if i < costs.len() {
                assert(all[i] == costs[i]);
            }
        }
    }
}

/// A unit affords an ability with the action points for it and each of its costs. Where
/// it has no such pool, it can only pay what costs nothing of it.
pub proof fn law_affording(unit: Unit, def: AbilityDef, i: int)
    requires
        affords(unit, def),
    ensures
        unit.pools.ap is None ==> def.cost_ap <= 0,
        unit.pools.ap matches Some(p) ==> def.cost_ap <= p.current,
        0 <= i < def.costs@.len() ==> {
            let c = def.costs@[i];
            let pool = match c.resource {
                ResourceKind::Hp => unit.pools.hp,
                ResourceKind::Mana => unit.pools.mana,
                ResourceKind::Rage => unit.pools.rage,
                ResourceKind::Energy => unit.pools.energy,
            };
            match pool {
                Some(p) => c.amount <= p.current,
                None => c.amount <= 0,
            }
        },
{
    if 0 <= i < def.costs@.len() {
        let c = def.costs@[i];
        assert(amount_of(
            c.resource,
            unit.spec_hp(),
            in_pool(unit.pools.mana),
            in_pool(unit.pools.rage),
            in_pool(unit.pools.energy),
        ) >= c.amount);
    }
}

/// What costs nothing is always affordable.
pub proof fn law_free_is_affordable(unit: Unit, def: AbilityDef)
    requires
        def.costs@.len() == 0,
        unit.pools.ap matches Some(p) && p.current >= def.cost_ap,
    ensures
        affords(unit, def),
{
}

/// A tag is borne exactly where one of the statuses has it.
pub proof fn law_tagged_by_one_more(
    statuses: Seq<ActiveStatus>,
    more: ActiveStatus,
    status_tags: StatusTagCache,
    tag: StatusTag,
)
    ensures
        !any_tagged(Seq::empty(), status_tags, tag),
        any_tagged(statuses.push(more), status_tags, tag) <==> any_tagged(
            statuses,
            status_tags,
            tag,
        ) || status_tags.spec_get(more.id@).contains(tag),
{
    let all = statuses.push(more);
    if any_tagged(statuses, status_tags, tag) {
        let i = choose|i: int|
            0 <= i < statuses.len() && status_tags.spec_get(
                (#[trigger] statuses[i]).id@,
            ).contains(tag);
        assert(all[i] == statuses[i]);
    }
    if status_tags.spec_get(more.id@).contains(tag) {
        assert(all[statuses.len() as int] == more);
    }
    if any_tagged(all, status_tags, tag) {
        let i = choose|i: int|
            0 <= i < all.len() && status_tags.spec_get((#[trigger] all[i]).id@).contains(tag);
        if i < statuses.len() {
            assert(statuses[i] == all[i]);
        }
    }
}

/// The first unit on a cell is the one that is found there; on a cell without a unit
/// none is.
pub proof fn law_first_on_a_cell(units: Seq<Unit>, pos: Hex, k: int)
    ensures
        0 <= k < units.len() && units[k].pos == pos && (forall|j: int|
            0 <= j < k ==> (#[trigger] units[j]).pos != pos) ==> first_at(units, pos) == Some(
            units[k],
        ),
        first_at(units, pos) matches Some(u) ==> u.pos == pos && units.contains(u),
        first_at(units, pos) is None && 0 <= k < units.len() ==> units[k].pos != pos,
    decreases units.len(),
{
    if units.len() > 0 {
        let rest = units.drop_first();
        law_first_on_a_cell(rest, pos, k - 1);
        if units[0].pos == pos {
            assert(units.contains(units[0]));
        } else {
            if let Some(u) = first_at(rest, pos) {
                let j = choose|j: int| 0 <= j < rest.len() && rest[j] == u;
                assert(units[j + 1] == u);
            }
            if 0 < k < units.len() {
                assert(rest[k - 1] == units[k]);
                if forall|j: int| 0 <= j < k ==> (#[trigger] units[j]).pos != pos {
                    assert forall|j: int| 0 <= j < k - 1 implies (#[trigger] rest[j]).pos
                        != pos by {
                        assert(units[j + 1].pos != pos);
                    }
                }
            }
        }
    }
}

/// One more unit is listed, last, if and only if there is a record of it and it is of the
/// team that is asked for and in the condition that is asked for.
pub proof fn law_views_of_one_more(
    snap: BattleSnapshot,
    units: Seq<Unit>,
    more: Unit,
    team: Option<Team>,
    alive: Option<bool>,
)
    ensures
        snap.views(Seq::empty(), team, alive).len() == 0,
        ({
            let asked = (team is None || more.team == team->0) && (alive is None || alive->0 == (
            more.pools.hp is Some && more.pools.hp->0.current > 0));
            let e = snap.index@.entity(more.id);
            let before = snap.views(units, team, alive);
            let after = snap.views(units.push(more), team, alive);
            &&& !asked || e is None ==> after == before
            &&& asked && e is Some && snap.cache.record(e->0) is None ==> after == before
            &&& asked && e is Some && snap.cache.record(e->0) is Some ==> after == before.push(
                (more, snap.cache.record(e->0)->0),
            )
        }),
{
    assert(units.push(more).drop_last() =~= units);
}

/// A unit is seen under its entity exactly where the table has an id for it, the state a
/// unit with that id and the cache a record of the entity.
pub proof fn law_what_is_seen(snap: BattleSnapshot, entity: Entity)
    ensures
        snap.view_of(entity) is Some <==> snap.index@.id(entity) is Some && snap.state.spec_unit(
            snap.index@.id(entity)->0,
        ) is Some && snap.cache.record(entity) is Some,
        snap.view_of(entity) matches Some((u, c)) ==> snap.state.spec_unit(
            snap.index@.id(entity)->0,
        ) == Some(u) && snap.cache.record(entity) == Some(c),
{
}

/// An ability costs turns exactly where one of its statuses skips turns.
pub proof fn law_when_turns_are_lost(def: AbilityDef, content: ContentView, i: int)
    ensures
        0 <= i < def.statuses@.len() && content.status(def.statuses@[i].status@) is Some
            && content.status(def.statuses@[i].status@)->0.skips_turn ==> costs_turns(def, content),
        costs_turns(def, content) ==> exists|k: int|
            0 <= k < def.statuses@.len() && #[trigger] skips_at(def, content, k),
{
    if costs_turns(def, content) {
        let k = choose|k: int|
            0 <= k < def.statuses@.len() && (content.status(
                (#[trigger] def.statuses@[k]).status@,
            ) matches Some(d) && d.skips_turn);
        assert(skips_at(def, content, k));
    }
}

/// Whether the status at `k` is known and skips turns.
pub open spec fn skips_at(def: AbilityDef, content: ContentView, k: int) -> bool {
    content.status(def.statuses@[k].status@) is Some && content.status(
        def.statuses@[k].status@,
    )->0.skips_turn
}

/// A unit is low below three tenths of its hit points, a maximum below one counting as
/// one.
pub proof fn law_low_hit_points(hp: i32, max_hp: i32)
    ensures
        max_hp >= 1 ==> (is_low(hp, max_hp) <==> hp * 10 < max_hp * 3),
        max_hp <= 1 ==> (is_low(hp, max_hp) <==> hp <= 0),
{
}

/// Whether two rows differ in nothing but that the second has one more ability.
pub open spec fn learns(a: AiCombatantRow, b: AiCombatantRow, id: String) -> bool {
    &&& b.abilities@ == a.abilities@.push(id)
    &&& b.hp == a.hp
    &&& b.max_hp == a.max_hp
    &&& b.mana == a.mana
    &&& b.rage == a.rage
    &&& b.energy == a.energy
}

/// What one more ability adds. An affordable heal of a single ally makes a healer, an
/// affordable ability that costs turns a controller, an affordable area a bomber, a least
/// range of two or more a ranged unit, and a reach of more than one cell one who does not
/// only fight at arm's length.
pub proof fn law_tags_by_one_more_ability(
    a: AiCombatantRow,
    b: AiCombatantRow,
    id: String,
    content: ContentView,
    objective: bool,
)
    requires
        learns(a, b, id),
    ensures
        ({
            let (x, y) = (tags_of(a, content, objective), tags_of(b, content, objective));
            let d = content.ability(id@);
            let paid = d is Some && pays(
                d->0.costs@,
                a.hp,
                or_zero(a.mana),
                or_zero(a.rage),
                or_zero(a.energy),
            );
            &&& y.can_heal <==> x.can_heal || (paid && d->0.target_type == TargetType::SingleAlly
                && d->0.effect is Heal)
            &&& y.can_cc <==> x.can_cc || (paid && costs_turns(d->0, content))
            &&& y.has_aoe <==> x.has_aoe || (paid && !(d->0.aoe is Single))
            &&& y.ranged <==> x.ranged || (d is Some && d->0.range.min > 1)
            &&& y.melee_only <==> x.melee_only && !(d is Some && d->0.range.max >= 2)
            &&& x.low_hp == y.low_hp
            &&& x.opponent_objective == objective
            &&& !x.is_stunned && !x.forces_targeting
        }),
{
    let (p, q) = (a.abilities@, b.abilities@);
    assert(q[p.len() as int] == id);
    assert forall|i: int| 0 <= i < p.len() implies #[trigger] q[i] == p[i] by {}
    assert(forall|d: AbilityDef| #[trigger] row_pays(a, d) == row_pays(b, d));
    if has_heal(a, content) {
        let i = choose|i: int|
            0 <= i < p.len() && (content.ability((#[trigger] p[i])@) matches Some(d) && row_pays(
                a,
                d,
            ) && heals_ally(d));
        assert(q[i] == p[i]);
    }
    if has_cc(a, content) {
        let i = choose|i: int|
            0 <= i < p.len() && (content.ability((#[trigger] p[i])@) matches Some(d) && row_pays(
                a,
                d,
            ) && costs_turns(d, content));
        assert(q[i] == p[i]);
    }
    if has_area(a, content) {
        let i = choose|i: int|
            0 <= i < p.len() && (content.ability((#[trigger] p[i])@) matches Some(d) && row_pays(
                a,
                d,
            ) && d.aoe != AoEShape::Single);
        assert(q[i] == p[i]);
    }
    if has_reach(a, content) {
        let i = choose|i: int|
            0 <= i < p.len() && (content.ability((#[trigger] p[i])@) matches Some(d) && d.range.max
                > 1);
        assert(q[i] == p[i]);
    }
    if has_distance(a, content) {
        let i = choose|i: int|
            0 <= i < p.len() && (content.ability((#[trigger] p[i])@) matches Some(d) && d.range.min
                >= 2);
        assert(q[i] == p[i]);
    }
}

/// Who has no ability can do nothing.
pub proof fn law_tags_without_abilities(
    row: AiCombatantRow,
    content: ContentView,
    objective: bool,
)
    requires
        row.abilities@.len() == 0,
    ensures
        ({
            let t = tags_of(row, content, objective);
            !t.can_heal && !t.can_cc && !t.has_aoe && !t.ranged && t.melee_only
        }),
{
}

/// The longest reach is the longest among the abilities for a single enemy or for the
/// ground.
pub proof fn law_longest_reach(ids: Seq<String>, more: String, content: ContentView)
    ensures
        longest_reach(Seq::empty(), content) == 0,
        longest_reach(ids, content) <= longest_reach(ids.push(more), content),
        content.ability(more@) is None ==> longest_reach(ids.push(more), content) == longest_reach(
            ids,
            content,
        ),
        content.ability(more@) is Some ==> {
            let d = content.ability(more@)->0;
            let r = longest_reach(ids.push(more), content);
            &&& d.target_type is SingleAlly || d.target_type is Myself ==> r == longest_reach(
                ids,
                content,
            )
            &&& d.target_type is SingleEnemy || d.target_type is Ground ==> r >= d.range.max && (r
                == d.range.max || r == longest_reach(ids, content))
        },
{
    assert(ids.push(more).drop_last() =~= ids);
}

/// What is recorded of a combatant. Who has dice for a weapon and an attack at arm's
/// length can strike those who leave its reach, with those dice and its strength; nobody
/// else can. Only who flees is judged by another measure than usual.
pub proof fn law_record(
    u: UnitAiCache,
    row: AiCombatantRow,
    content: ContentView,
    paths: Seq<PathDef>,
    keep_alive: Seq<Entity>,
)
    requires
        is_record_of(u, row, content, paths, keep_alive),
    ensures
        u.entity == row.entity,
        u.abilities@ == row.abilities@,
        u.caster_ctx == row.caster_ctx,
        u.tags.opponent_objective <==> keep_alive.contains(row.entity),
        u.aoo is Some <==> row.caster_ctx.weapon_dice is Some && has_melee_attack(
            row.abilities@,
            content,
        ),
        u.aoo matches Some(s) ==> row.caster_ctx.weapon_dice == Some(s.dice) && s.str_mod
            == row.caster_ctx.str_mod,
        u.forced_mode is Some <==> row.behavior is Some,
        u.max_attack_range == longest_reach(row.abilities@, content),
        row.path is None ==> u.crit_fail_effect is Miss,
{
}

/// One more combatant is recorded, last, if and only if it stands or lies on the board.
pub proof fn law_on_board_one_more(
    rows: Seq<AiCombatantRow>,
    more: AiCombatantRow,
    living: Map<Entity, Hex>,
    fallen: Map<Entity, Hex>,
)
    ensures
        on_board(Seq::empty(), living, fallen).len() == 0,
        living.contains_key(more.entity) || fallen.contains_key(more.entity) ==> on_board(
            rows.push(more),
            living,
            fallen,
        ) == on_board(rows, living, fallen).push(more),
        !living.contains_key(more.entity) && !fallen.contains_key(more.entity) ==> on_board(
            rows.push(more),
            living,
            fallen,
        ) == on_board(rows, living, fallen),
{
    assert(rows.push(more).drop_last() =~= rows);
}

/// A team knows of its own objects and of those revealed to it, and of no others.
pub proof fn law_who_knows_of_an_object(o: EnvObject)
    ensures
        o.owner matches Some(t) ==> is_visible(o, t),
        o.revealed_to_player ==> is_visible(o, Team::Player),
        o.revealed_to_enemy ==> is_visible(o, Team::Enemy),
        is_visible(o, Team::Player) && !o.revealed_to_player ==> o.owner == Some(Team::Player),
        is_visible(o, Team::Enemy) && !o.revealed_to_enemy ==> o.owner == Some(Team::Enemy),
{
}

/// Every record of an entity with an id is found under it, the last where several share
/// an id; without an id it adds nothing.
pub proof fn law_entities_by_one_more(units: Seq<UnitAiCache>, more: UnitAiCache, ids: IdTable)
    ensures
        entities_by_id(Seq::empty(), ids) == Map::<UnitId, Entity>::empty(),
        ids.id(more.entity) matches Some(u) ==> entities_by_id(units.push(more), ids)
            == entities_by_id(units, ids).insert(u, more.entity),
        ids.id(more.entity) is None ==> entities_by_id(units.push(more), ids) == entities_by_id(
            units,
            ids,
        ),
{
    assert(units.push(more).drop_last() =~= units);
}

} // verus!
