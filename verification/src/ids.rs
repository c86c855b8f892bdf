//! Identities: entities of the display world, units of the combat engine, and
//! the table that translates between the two.

use std::collections::HashMap;
use vstd::prelude::*;

verus! {

/// An entity of the display world, held by its 64 identifying bits.
#[derive(Clone, Copy, PartialEq, Eq, Structural, Debug, Hash)]
pub struct Entity {
    pub bits: u64,
}

/// A unit of the combat engine. Regular units reuse the bits of their entity;
/// summoned units carry ids that the engine allocates.
#[derive(Clone, Copy, PartialEq, Eq, Structural, Debug, Hash)]
pub struct UnitId(pub u64);

/// Whether 64 bits name an entity: the low half (the row) must not be zero.
pub open spec fn entity_bits_valid(bits: u64) -> bool {
    bits % 0x1_0000_0000 != 0
}

/// Calls `bevy::prelude::Entity::try_from_bits` and hands the entity back as
/// its bits (`Entity::to_bits`). The claim: every 64-bit value with a non-zero
/// low half is an entity that has those very bits, and no other value is one.
#[verifier::external_body]
fn bevy_entity_bits(bits: u64) -> (r: Option<u64>)
    ensures
        r == (if entity_bits_valid(bits) { Some(bits) } else { None::<u64> }),
{
    bevy::prelude::Entity::try_from_bits(bits).map(|e| e.to_bits())
}

impl Entity {
    /// The entity that `bits` names, if they name one.
    pub fn try_from_bits(bits: u64) -> (r: Option<Entity>)
        ensures
            r == (if entity_bits_valid(bits) { Some(Entity { bits }) } else { None::<Entity> }),
    {
        match bevy_entity_bits(bits) {
            Some(b) => Some(Entity { bits: b }),
            None => None,
        }
    }

    /// The identifying bits.
    pub fn to_bits(self) -> (r: u64)
        ensures
            r == self.bits,
    {
        self.bits
    }
}

/// The engine id of a regular (not summoned) entity.
pub open spec fn uid_of(entity: Entity) -> UnitId {
    UnitId(entity.bits)
}

/// The engine id of a regular (not summoned) entity: its own bits.
pub fn entity_to_uid(entity: Entity) -> (r: UnitId)
    ensures
        r == uid_of(entity),
{
    UnitId(entity.to_bits())
}

/// Two-way table between entities and engine units.
pub struct UnitIdMap {
    to_id: HashMap<u64, u64>,
    to_entity: HashMap<u64, u64>,
}

/// What a [`UnitIdMap`] holds: one map for each direction.
#[verifier::ext_equal]
pub struct IdTable {
    pub to_id: Map<Entity, UnitId>,
    pub to_entity: Map<UnitId, Entity>,
}

impl IdTable {
    /// The table without entries.
    pub open spec fn empty() -> IdTable {
        IdTable { to_id: Map::empty(), to_entity: Map::empty() }
    }

    /// The table after `entity` and `id` were paired.
    pub open spec fn pair(self, entity: Entity, id: UnitId) -> IdTable {
        IdTable {
            to_id: self.to_id.insert(entity, id),
            to_entity: self.to_entity.insert(id, entity),
        }
    }

    /// The entity of a unit, where there is one.
    pub open spec fn entity(self, id: UnitId) -> Option<Entity> {
        if self.to_entity.contains_key(id) {
            Some(self.to_entity[id])
        } else {
            None
        }
    }

    /// The unit of an entity, where there is one.
    pub open spec fn id(self, entity: Entity) -> Option<UnitId> {
        if self.to_id.contains_key(entity) {
            Some(self.to_id[entity])
        } else {
            None
        }
    }

    /// Whether the two directions are inverse to each other.
    pub open spec fn is_inverse(self) -> bool {
        &&& forall|e: Entity| #[trigger]
            self.to_id.contains_key(e) ==> self.to_entity.contains_key(self.to_id[e])
                && self.to_entity[self.to_id[e]] == e
        &&& forall|u: UnitId| #[trigger]
            self.to_entity.contains_key(u) ==> self.to_id.contains_key(self.to_entity[u])
                && self.to_id[self.to_entity[u]] == u
    }
}

impl View for UnitIdMap {
    type V = IdTable;

    closed spec fn view(&self) -> IdTable {
        IdTable {
            to_id: Map::new(
                |e: Entity| self.to_id@.contains_key(e.bits),
                |e: Entity| UnitId(self.to_id@[e.bits]),
            ),
            to_entity: Map::new(
                |u: UnitId| self.to_entity@.contains_key(u.0),
                |u: UnitId| Entity { bits: self.to_entity@[u.0] },
            ),
        }
    }
}

impl UnitIdMap {
    /// An empty table.
    pub fn new() -> (r: UnitIdMap)
        ensures
            r@ == IdTable::empty(),
    {
        broadcast use vstd::std_specs::hash::group_hash_axioms;

        let r = UnitIdMap { to_id: HashMap::new(), to_entity: HashMap::new() };
        assert(r@.to_id =~= Map::empty());
        assert(r@.to_entity =~= Map::empty());
        r
    }

    /// Forgets every pair.
    pub fn clear(&mut self)
        ensures
            final(self)@ == IdTable::empty(),
    {
        broadcast use vstd::std_specs::hash::group_hash_axioms;

        self.to_id.clear();
        self.to_entity.clear();
        assert(self@.to_id =~= Map::empty());
        assert(self@.to_entity =~= Map::empty());
    }

    /// Pairs `entity` with `id`, in both directions.
    pub fn insert(&mut self, entity: Entity, id: UnitId)
        ensures
            final(self)@ == old(self)@.pair(entity, id),
    {
        broadcast use vstd::std_specs::hash::group_hash_axioms;

        self.to_id.insert(entity.bits, id.0);
        self.to_entity.insert(id.0, entity.bits);
        assert(self@.to_id =~= old(self)@.to_id.insert(entity, id));
        assert(self@.to_entity =~= old(self)@.to_entity.insert(id, entity));
    }

    /// The unit that `entity` is paired with.
    pub fn get_id(&self, entity: Entity) -> (r: Option<UnitId>)
        ensures
            r == self@.id(entity),
    {
        broadcast use vstd::std_specs::hash::group_hash_axioms;

        match self.to_id.get(&entity.bits) {
            Some(id) => Some(UnitId(*id)),
            None => None,
        }
    }

    /// The entity that `id` is paired with.
    pub fn get_entity(&self, id: UnitId) -> (r: Option<Entity>)
        ensures
            r == self@.entity(id),
    {
        broadcast use vstd::std_specs::hash::group_hash_axioms;

        match self.to_entity.get(&id.0) {
            Some(bits) => Some(Entity { bits: *bits }),
            None => None,
        }
    }
}

impl UnitIdMap {
    /// Whether no unit has an entity.
    pub fn knows_no_unit(&self) -> (r: bool)
        ensures
            r == (self@.to_entity == Map::<UnitId, Entity>::empty()),
    {
        broadcast use vstd::std_specs::hash::group_hash_axioms;

        let r = self.to_entity.is_empty();
        proof {
            if r {
                assert(self@.to_entity =~= Map::<UnitId, Entity>::empty());
            } else {
                assert(exists|b: u64| self.to_entity@.contains_key(b)) by {
                    if forall|b: u64| !self.to_entity@.contains_key(b) {
                        assert(self.to_entity@.dom() =~= Set::<u64>::empty());
                    }
                }
                let b = choose|b: u64| self.to_entity@.contains_key(b);
                assert(self@.to_entity.contains_key(UnitId(b)));
            }
        }
        r
    }
}

/// A freshly made pair is found in both directions.
pub proof fn law_pair_is_found(table: IdTable, entity: Entity, id: UnitId)
    ensures
        table.pair(entity, id).id(entity) == Some(id),
        table.pair(entity, id).entity(id) == Some(entity),
{
}

/// Pairing an entity and a unit that are both new keeps the two directions
/// inverse to each other.
pub proof fn law_fresh_pair_keeps_inverse(table: IdTable, entity: Entity, id: UnitId)
    requires
        table.is_inverse(),
        table.id(entity) is None,
        table.entity(id) is None,
    ensures
        table.pair(entity, id).is_inverse(),
{
}

/// Pairing regular entities with their own ids, in any number and order, from
/// an inverse table that holds only such pairs, keeps it inverse.
pub proof fn law_regular_pair_keeps_inverse(table: IdTable, entity: Entity)
    requires
        table.is_inverse(),
        forall|e: Entity| #[trigger] table.to_id.contains_key(e) ==> table.to_id[e] == uid_of(e),
    ensures
        table.pair(entity, uid_of(entity)).is_inverse(),
        forall|e: Entity| #[trigger]
            table.pair(entity, uid_of(entity)).to_id.contains_key(e) ==> table.pair(
                entity,
                uid_of(entity),
            ).to_id[e] == uid_of(e),
{
    let t = table.pair(entity, uid_of(entity));
    assert forall|u: UnitId| #[trigger] t.to_entity.contains_key(u) implies t.to_id.contains_key(
        t.to_entity[u],
    ) && t.to_id[t.to_entity[u]] == u by {
        if u != uid_of(entity) {
            assert(table.to_entity.contains_key(u));
        }
    }
}

/// The id of an entity that has no other is made of its bits, so that no two share one.
pub proof fn law_regular_ids_differ(a: Entity, b: Entity)
    ensures
        uid_of(a) == uid_of(b) <==> a == b,
        uid_of(a) == UnitId(a.bits),
{
}

/// A pair that is added is found both ways, and leaves the others.
pub proof fn law_pair_leaves_the_others(
    table: IdTable,
    entity: Entity,
    id: UnitId,
    other: Entity,
    other_id: UnitId,
)
    ensures
        IdTable::empty().id(entity) is None,
        IdTable::empty().entity(id) is None,
        other != entity ==> table.pair(entity, id).id(other) == table.id(other),
        other_id != id ==> table.pair(entity, id).entity(other_id) == table.entity(other_id),
{
}

} // verus!
