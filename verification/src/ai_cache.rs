//! What the AI has worked out about each unit, and how it is found again.

use crate::ai_tags::AiTags;
use crate::content::DiceExpr;
use crate::ids::Entity;
use crate::state::{CasterContext, CritFailEffect};
use std::collections::HashMap;
use vstd::prelude::*;

verus! {

/// How plans of a unit are judged instead of as usual.
#[derive(Clone, Copy, PartialEq, Eq, Structural, Debug)]
pub enum EvaluationMode {
    Flee,
}

/// Weapon dice and strength of an opportunity attack.
#[derive(Clone, Copy, PartialEq, Eq, Structural, Debug)]
pub struct AooStrike {
    pub dice: DiceExpr,
    pub str_mod: i32,
}

/// What the AI has worked out about a unit.
#[derive(Debug)]
pub struct UnitAiCache {
    pub entity: Entity,
    pub tags: AiTags,
    /// The longest reach of an attack.
    pub max_attack_range: u32,
    /// What an opportunity attack is rolled with, for who can make one.
    pub aoo: Option<AooStrike>,
    pub crit_fail_effect: CritFailEffect,
    pub abilities: Vec<String>,
    pub caster_ctx: CasterContext,
    pub forced_mode: Option<EvaluationMode>,
}

/// Places in a list by entity.
#[derive(Debug)]
pub struct EntityIndex {
    map: HashMap<u64, usize>,
}

impl View for EntityIndex {
    type V = Map<Entity, usize>;

    closed spec fn view(&self) -> Map<Entity, usize> {
        Map::new(
            |e: Entity| self.map@.contains_key(e.bits),
            |e: Entity| self.map@[e.bits],
        )
    }
}

impl EntityIndex {
    /// An index of nothing.
    pub fn new() -> (r: EntityIndex)
        ensures
            r@ == Map::<Entity, usize>::empty(),
    {
        broadcast use vstd::std_specs::hash::group_hash_axioms;

        let r = EntityIndex { map: HashMap::new() };
        assert(r@ =~= Map::empty());
        r
    }

    /// Notes the place of an entity, in place of an earlier one.
    pub fn insert(&mut self, entity: Entity, place: usize)
        ensures
            final(self)@ == old(self)@.insert(entity, place),
    {
        broadcast use vstd::std_specs::hash::group_hash_axioms;

        self.map.insert(entity.bits, place);
        assert(self@ =~= old(self)@.insert(entity, place));
    }

    /// The place of an entity.
    pub fn get(&self, entity: Entity) -> (r: Option<usize>)
        ensures
            r == (if self@.contains_key(entity) {
                Some(self@[entity])
            } else {
                None::<usize>
            }),
    {
        broadcast use vstd::std_specs::hash::group_hash_axioms;

        match self.map.get(&entity.bits) {
            Some(i) => Some(*i),
            None => None,
        }
    }

    /// Whether there is no place at all.
    pub fn is_empty(&self) -> (r: bool)
        ensures
            r == (self@ == Map::<Entity, usize>::empty()),
    {
        broadcast use vstd::std_specs::hash::group_hash_axioms;

        let r = self.map.is_empty();
        proof {
            if r {
                assert(self@ =~= Map::<Entity, usize>::empty());
            } else {
                assert(exists|b: u64| self.map@.contains_key(b)) by {
                    if forall|b: u64| !self.map@.contains_key(b) {
                        assert(self.map@.dom() =~= Set::<u64>::empty());
                    }
                }
                let b = choose|b: u64| self.map@.contains_key(b);
                assert(self@.contains_key(Entity { bits: b }));
            }
        }
        r
    }
}

/// What the AI has worked out about all units. Where it is indexed, units are
/// found by the index; else by search.
#[derive(Debug)]
pub struct AiCache {
    pub units: Vec<UnitAiCache>,
    pub by_entity: EntityIndex,
}

/// The first record of an entity.
pub open spec fn first_record(units: Seq<UnitAiCache>, entity: Entity) -> Option<UnitAiCache>
    decreases units.len(),
{
    if units.len() == 0 {
        None
    } else if units[0].entity == entity {
        Some(units[0])
    } else {
        first_record(units.drop_first(), entity)
    }
}

/// The place of each entity's last record.
pub open spec fn places(units: Seq<UnitAiCache>) -> Map<Entity, usize>
    decreases units.len(),
{
    if units.len() == 0 {
        Map::empty()
    } else {
        places(units.drop_last()).insert(units.last().entity, (units.len() - 1) as usize)
    }
}

impl AiCache {
    /// The record of an entity.
    pub open spec fn record(&self, entity: Entity) -> Option<UnitAiCache> {
        if self.by_entity@ == Map::<Entity, usize>::empty() {
            first_record(self.units@, entity)
        } else if self.by_entity@.contains_key(entity) && self.by_entity@[entity]
            < self.units@.len() {
            Some(self.units@[self.by_entity@[entity] as int])
        } else {
            None
        }
    }

    /// Records without an index.
    pub fn unindexed(units: Vec<UnitAiCache>) -> (r: AiCache)
        ensures
            r.units == units,
            r.by_entity@ == Map::<Entity, usize>::empty(),
    {
        AiCache { units, by_entity: EntityIndex::new() }
    }

    /// Records with their index.
    pub fn from_units(units: Vec<UnitAiCache>) -> (r: AiCache)
        ensures
            r.units == units,
            r.by_entity@ == places(units@),
    {
        let mut cache = AiCache::unindexed(units);
        cache.build_index();
        cache
    }

    /// Makes the index anew from the records.
    pub fn build_index(&mut self)
        ensures
            final(self).units == old(self).units,
            final(self).by_entity@ == places(old(self).units@),
    {
        let mut index = EntityIndex::new();
        let mut i: usize = 0;
        assert(self.units@.take(0) =~= Seq::empty());
        while i < self.units.len()
            invariant
                i <= self.units.len(),
                index@ == places(self.units@.take(i as int)),
            decreases self.units.len() - i,
        {
            assert(self.units@.take(i + 1).drop_last() =~= self.units@.take(i as int));
            index.insert(self.units[i].entity, i);
            i = i + 1;
        }
        assert(self.units@.take(i as int) =~= self.units@);
        self.by_entity = index;
    }

    /// The record of an entity, by the index where there is one.
    pub fn unit(&self, entity: Entity) -> (r: Option<&UnitAiCache>)
        ensures
            match r {
                Some(u) => self.record(entity) == Some(*u),
                None => self.record(entity) is None,
            },
    {
        if !self.by_entity.is_empty() {
            return match self.by_entity.get(entity) {
                Some(i) => if i < self.units.len() {
                    Some(&self.units[i])
                } else {
                    None
                },
                None => None,
            };
        }
        let mut i: usize = 0;
        assert(self.units@.skip(0) =~= self.units@);
        while i < self.units.len()
            invariant
                i <= self.units.len(),
                self.by_entity@ == Map::<Entity, usize>::empty(),
                first_record(self.units@, entity) == first_record(
                    self.units@.skip(i as int),
                    entity,
                ),
            decreases self.units.len() - i,
        {
            assert(self.units@.skip(i as int).drop_first() =~= self.units@.skip(i + 1));
            if self.units[i].entity == entity {
                return Some(&self.units[i]);
            }
            i = i + 1;
        }
        None
    }
}

impl Default for AiCache {
    fn default() -> (r: AiCache)
        ensures
            r.units@.len() == 0,
            r.by_entity@ == Map::<Entity, usize>::empty(),
    {
        AiCache::unindexed(Vec::new())
    }
}

// ---------------------------------------------------------------------------
// Laws
// ---------------------------------------------------------------------------

/// Whether no entity has two records.
pub open spec fn one_record_each(units: Seq<UnitAiCache>) -> bool {
    forall|i: int, j: int|
        0 <= i < j < units.len() ==> (#[trigger] units[i]).entity != (#[trigger] units[j]).entity
}

proof fn places_are_last(units: Seq<UnitAiCache>)
    requires
        units.len() <= usize::MAX,
    ensures
        forall|b: Entity| #[trigger]
            places(units).contains_key(b) ==> places(units)[b] < units.len()
                && units[places(units)[b] as int].entity == b,
        forall|i: int|
            0 <= i < units.len() ==> places(units).contains_key(
                (#[trigger] units[i]).entity,
            ) && places(units)[units[i].entity] >= i,
    decreases units.len(),
{
    if units.len() > 0 {
        let rest = units.drop_last();
        places_are_last(rest);
        assert forall|b: Entity| #[trigger] places(units).contains_key(b) implies places(units)[b]
            < units.len() && units[places(units)[b] as int].entity == b by {
            if b != units.last().entity {
                assert(places(rest).contains_key(b));
                assert(rest[places(rest)[b] as int] == units[places(rest)[b] as int]);
            }
        }
        assert forall|i: int| 0 <= i < units.len() implies places(units).contains_key(
            (#[trigger] units[i]).entity,
        ) && places(units)[units[i].entity] >= i by {
            if i < rest.len() {
                assert(rest[i] == units[i]);
            }
        }
    }
}

proof fn first_record_is(units: Seq<UnitAiCache>, entity: Entity, k: int)
    requires
        0 <= k < units.len(),
        units[k].entity == entity,
        forall|j: int| 0 <= j < k ==> (#[trigger] units[j]).entity != entity,
    ensures
        first_record(units, entity) == Some(units[k]),
    decreases k,
{
    if k > 0 {
        assert(units[0].entity != entity);
        let rest = units.drop_first();
        assert(rest[k - 1] == units[k]);
        assert forall|j: int| 0 <= j < k - 1 implies (#[trigger] rest[j]).entity != entity by {
            assert(rest[j] == units[j + 1]);
        }
        first_record_is(rest, entity, k - 1);
    }
}

proof fn no_first_record(units: Seq<UnitAiCache>, entity: Entity)
    requires
        forall|j: int| 0 <= j < units.len() ==> (#[trigger] units[j]).entity != entity,
    ensures
        first_record(units, entity) is None,
    decreases units.len(),
{
    if units.len() > 0 {
        assert(units[0].entity != entity);
        let rest = units.drop_first();
        assert forall|j: int| 0 <= j < rest.len() implies (#[trigger] rest[j]).entity
            != entity by {
            assert(rest[j] == units[j + 1]);
        }
        no_first_record(rest, entity);
    }
}

/// Where no entity has two records, the index finds what a search finds.
pub proof fn law_index_finds_what_search_finds(cache: AiCache, entity: Entity)
    requires
        cache.units@.len() <= usize::MAX,
        one_record_each(cache.units@),
        cache.by_entity@ == places(cache.units@),
    ensures
        cache.record(entity) == first_record(cache.units@, entity),
{
    let units = cache.units@;
    places_are_last(units);
    if exists|k: int| 0 <= k < units.len() && (#[trigger] units[k]).entity == entity {
        let k = choose|k: int| 0 <= k < units.len() && (#[trigger] units[k]).entity == entity;
        assert(places(units).contains_key(units[k].entity));
        let p = places(units)[entity] as int;
        assert(units[p].entity == entity);
        if p != k {
            assert(units[k].entity != units[p].entity || units[p].entity != units[k].entity);
        }
        assert forall|j: int| 0 <= j < k implies (#[trigger] units[j]).entity != entity by {
            assert(units[j].entity != units[k].entity);
        }
        first_record_is(units, entity, k);
        assert(cache.by_entity@.contains_key(entity));
    } else {
        assert forall|j: int| 0 <= j < units.len() implies (#[trigger] units[j]).entity
            != entity by {}
        no_first_record(units, entity);
        if places(units).contains_key(entity) {
            let p = places(units)[entity] as int;
            assert(units[p].entity == entity);
        }
    }
}

/// The first record of an entity is the one that is found by searching.
pub proof fn law_first_record(units: Seq<UnitAiCache>, entity: Entity, k: int)
    ensures
        0 <= k < units.len() && units[k].entity == entity && (forall|j: int|
            0 <= j < k ==> (#[trigger] units[j]).entity != entity) ==> first_record(units, entity)
            == Some(units[k]),
        (forall|j: int| 0 <= j < units.len() ==> (#[trigger] units[j]).entity != entity)
            ==> first_record(units, entity) is None,
    decreases units.len(),
{
    if units.len() > 0 {
        let rest = units.drop_first();
        law_first_record(rest, entity, k - 1);
        assert forall|j: int| 0 <= j < rest.len() implies #[trigger] rest[j] == units[j + 1] by {}
        if forall|j: int| 0 <= j < units.len() ==> (#[trigger] units[j]).entity != entity {
            assert(units[0].entity != entity);
        }
        if 0 < k < units.len() && units[k].entity == entity && (forall|j: int|
            0 <= j < k ==> (#[trigger] units[j]).entity != entity) {
            assert(units[0].entity != entity);
            assert(rest[k - 1] == units[k]);
        }
    }
}

} // verus!
