//! Which entity stands on which cell.

use crate::hex::Hex;
use crate::ids::Entity;
use vstd::prelude::*;

verus! {

/// An entity on a cell.
#[derive(Clone, Copy, PartialEq, Eq, Structural, Debug)]
pub struct Standing {
    pub entity: Entity,
    pub hex: Hex,
}

/// Whether no entity is listed twice.
pub open spec fn distinct(list: Seq<Standing>) -> bool {
    forall|i: int, j: int|
        0 <= i < j < list.len() ==> (#[trigger] list[i]).entity != (#[trigger] list[j]).entity
}

/// The cell of each listed entity.
pub open spec fn cells_of(list: Seq<Standing>) -> Map<Entity, Hex>
    decreases list.len(),
{
    if list.len() == 0 {
        Map::empty()
    } else {
        cells_of(list.drop_last()).insert(list.last().entity, list.last().hex)
    }
}

/// A layer of the board: at most one cell for each entity. One layer holds the
/// living, another the fallen.
#[derive(Debug)]
pub struct HexPositions {
    list: Vec<Standing>,
}

impl View for HexPositions {
    type V = Map<Entity, Hex>;

    closed spec fn view(&self) -> Map<Entity, Hex> {
        cells_of(self.list@)
    }
}

/// In a list without repetition, an entity's cell is the one it is listed with.
proof fn cells_are_listed(list: Seq<Standing>)
    requires
        distinct(list),
    ensures
        forall|e: Entity| #[trigger]
            cells_of(list).contains_key(e) <==> exists|i: int|
                0 <= i < list.len() && (#[trigger] list[i]).entity == e,
        forall|i: int|
            0 <= i < list.len() ==> cells_of(list).contains_key((#[trigger] list[i]).entity)
                && cells_of(list)[list[i].entity] == list[i].hex,
    decreases list.len(),
{
    if list.len() > 0 {
        let rest = list.drop_last();
        cells_are_listed(rest);
        assert forall|e: Entity| #[trigger]
            cells_of(list).contains_key(e) <==> exists|i: int|
                0 <= i < list.len() && (#[trigger] list[i]).entity == e by {
            if cells_of(list).contains_key(e) {
                if e == list.last().entity {
                    assert(list[list.len() - 1].entity == e);
                } else {
                    assert(cells_of(rest).contains_key(e));
                    let i = choose|i: int| 0 <= i < rest.len() && (#[trigger] rest[i]).entity == e;
                    assert(list[i].entity == e);
                }
            }
            if exists|i: int| 0 <= i < list.len() && (#[trigger] list[i]).entity == e {
                let i = choose|i: int| 0 <= i < list.len() && (#[trigger] list[i]).entity == e;
                if i < rest.len() {
                    assert(rest[i].entity == e);
                }
            }
        }
        assert forall|i: int| 0 <= i < list.len() implies cells_of(list).contains_key(
            (#[trigger] list[i]).entity,
        ) && cells_of(list)[list[i].entity] == list[i].hex by {
            if i < rest.len() {
                assert(rest[i] == list[i]);
                assert(list[i].entity != list[list.len() - 1].entity);
            }
        }
    }
}

impl HexPositions {
    #[verifier::type_invariant]
    spec fn wf(self) -> bool {
        distinct(self.list@)
    }

    /// A layer on which nobody stands.
    pub fn new() -> (r: HexPositions)
        ensures
            r@ == Map::<Entity, Hex>::empty(),
    {
        HexPositions { list: Vec::new() }
    }

    /// The place of an entity in the list.
    fn index_of(&self, entity: Entity) -> (r: Option<usize>)
        ensures
            match r {
                Some(i) => i < self.list@.len() && self.list@[i as int].entity == entity,
                None => forall|j: int|
                    0 <= j < self.list@.len() ==> (#[trigger] self.list@[j]).entity != entity,
            },
    {
        let mut i: usize = 0;
        while i < self.list.len()
            invariant
                i <= self.list.len(),
                forall|j: int| 0 <= j < i ==> (#[trigger] self.list@[j]).entity != entity,
            decreases self.list.len() - i,
        {
            if self.list[i].entity == entity {
                return Some(i);
            }
            i = i + 1;
        }
        None
    }

    /// Puts an entity on a cell, taking it off the cell that it stood on.
    pub fn insert(&mut self, entity: Entity, hex: Hex)
        ensures
            final(self)@ == old(self)@.insert(entity, hex),
    {
        self.remove(entity);
        proof {
            use_type_invariant(&*self);
            cells_are_listed(self.list@);
        }
        let mut list: Vec<Standing> = Vec::new();
        let ghost before = self.list@;
        let ghost cells = self@;
        std::mem::swap(&mut list, &mut self.list);
        list.push(Standing { entity, hex });
        assert(list@.drop_last() =~= before);
        assert(distinct(list@)) by {
            assert forall|i: int| 0 <= i < before.len() implies (#[trigger] before[i]).entity
                != entity by {
                assert(cells.contains_key(before[i].entity));
            }
        }
        self.list = list;
        assert(self@ =~= old(self)@.insert(entity, hex));
    }

    /// Takes an entity off the layer.
    pub fn remove(&mut self, entity: Entity)
        ensures
            final(self)@ == old(self)@.remove(entity),
    {
        proof {
            use_type_invariant(&*self);
            cells_are_listed(self.list@);
        }
        match self.index_of(entity) {
            Some(i) => {
                let mut list: Vec<Standing> = Vec::new();
                let ghost before = self.list@;
                std::mem::swap(&mut list, &mut self.list);
                list.remove(i);
                proof {
                    let after = list@;
                    assert(after == before.remove(i as int));
                    assert(distinct(after)) by {
                        assert forall|a: int, b: int| 0 <= a < b < after.len() implies (
                        #[trigger] after[a]).entity != (#[trigger] after[b]).entity by {
                            let p = if a < i {
                                a
                            } else {
                                a + 1
                            };
                            let q = if b < i {
                                b
                            } else {
                                b + 1
                            };
                            assert(before[p].entity != before[q].entity);
                        }
                    }
                    cells_are_listed(after);
                    assert forall|e: Entity|
                        cells_of(after).contains_key(e) == cells_of(before).remove(
                            entity,
                        ).contains_key(e) by {
                        if cells_of(after).contains_key(e) {
                            let a = choose|a: int|
                                0 <= a < after.len() && (#[trigger] after[a]).entity == e;
                            let p = if a < i {
                                a
                            } else {
                                a + 1
                            };
                            assert(before[p] == after[a]);
                            assert(before[p].entity != before[i as int].entity);
                        }
                        if cells_of(before).contains_key(e) && e != entity {
                            let p = choose|p: int|
                                0 <= p < before.len() && (#[trigger] before[p]).entity == e;
                            let a = if p < i {
                                p
                            } else {
                                p - 1
                            };
                            assert(after[a] == before[p]);
                        }
                    }
                    assert forall|e: Entity| #[trigger] cells_of(after).contains_key(e) implies
                        cells_of(after)[e] == cells_of(before)[e] by {
                        let a = choose|a: int|
                            0 <= a < after.len() && (#[trigger] after[a]).entity == e;
                        let p = if a < i {
                            a
                        } else {
                            a + 1
                        };
                        assert(before[p] == after[a]);
                    }
                    assert(cells_of(after) =~= cells_of(before).remove(entity));
                }
                self.list = list;
            },
            None => {
                assert(!self@.contains_key(entity));
                assert(self@ =~= old(self)@.remove(entity));
            },
        }
    }

    /// The cell that an entity stands on.
    pub fn get(&self, entity: Entity) -> (r: Option<Hex>)
        ensures
            r == (if self@.contains_key(entity) {
                Some(self@[entity])
            } else {
                None::<Hex>
            }),
    {
        proof {
            use_type_invariant(self);
            cells_are_listed(self.list@);
        }
        match self.index_of(entity) {
            Some(i) => {
                assert(self@.contains_key(self.list@[i as int].entity));
                Some(self.list[i].hex)
            },
            None => None,
        }
    }

    /// An entity that stands on a cell, where there is one.
    pub fn entity_at(&self, hex: Hex) -> (r: Option<Entity>)
        ensures
            match r {
                Some(e) => self@.contains_key(e) && self@[e] == hex,
                None => forall|e: Entity| #[trigger] self@.contains_key(e) ==> self@[e] != hex,
            },
    {
        proof {
            use_type_invariant(self);
            cells_are_listed(self.list@);
        }
        let mut i: usize = 0;
        while i < self.list.len()
            invariant
                i <= self.list.len(),
                forall|j: int| 0 <= j < i ==> (#[trigger] self.list@[j]).hex != hex,
                forall|j: int|
                    0 <= j < self.list@.len() ==> self@.contains_key(
                        (#[trigger] self.list@[j]).entity,
                    ) && self@[self.list@[j].entity] == self.list@[j].hex,
            decreases self.list.len() - i,
        {
            if self.list[i].hex == hex {
                assert(self@.contains_key(self.list@[i as int].entity));
                return Some(self.list[i].entity);
            }
            i = i + 1;
        }
        assert forall|e: Entity| #[trigger] self@.contains_key(e) implies self@[e] != hex by {
            let k = choose|k: int| 0 <= k < self.list@.len() && (#[trigger] self.list@[k]).entity
                == e;
            assert(self@[self.list@[k].entity] == self.list@[k].hex);
        }
        None
    }

    /// Whether someone other than `entity` stands on a cell.
    pub fn held_by_other(&self, hex: Hex, entity: Entity) -> (r: bool)
        ensures
            r == held_by_other(self@, hex, entity),
    {
        proof {
            use_type_invariant(self);
            cells_are_listed(self.list@);
        }
        let mut i: usize = 0;
        while i < self.list.len()
            invariant
                i <= self.list.len(),
                forall|j: int|
                    0 <= j < i ==> (#[trigger] self.list@[j]).hex != hex || self.list@[j].entity
                        == entity,
                forall|j: int|
                    0 <= j < self.list@.len() ==> self@.contains_key(
                        (#[trigger] self.list@[j]).entity,
                    ) && self@[self.list@[j].entity] == self.list@[j].hex,
            decreases self.list.len() - i,
        {
            if self.list[i].hex == hex && self.list[i].entity != entity {
                assert(self@.contains_key(self.list@[i as int].entity));
                return true;
            }
            i = i + 1;
        }
        assert forall|e: Entity| #[trigger] self@.contains_key(e) implies !(self@[e] == hex && e
            != entity) by {
            let k = choose|k: int| 0 <= k < self.list@.len() && (#[trigger] self.list@[k]).entity
                == e;
            assert(self@[self.list@[k].entity] == self.list@[k].hex);
        }
        false
    }
}

/// Whether someone other than `entity` stands on a cell.
pub open spec fn held_by_other(cells: Map<Entity, Hex>, hex: Hex, entity: Entity) -> bool {
    exists|e: Entity| #[trigger] cells.contains_key(e) && cells[e] == hex && e != entity
}

/// A cell is held by another exactly where somebody else stands on it; who stands there alone
/// holds it against nobody but itself.
pub proof fn law_held_cells(cells: Map<Entity, Hex>, e: Entity, other: Entity, hex: Hex)
    ensures
        cells.contains_key(other) && cells[other] == hex && other != e ==> held_by_other(
            cells,
            hex,
            e,
        ),
        (forall|f: Entity| #[trigger] cells.contains_key(f) && cells[f] == hex ==> f == e)
            ==> !held_by_other(cells, hex, e),
{
}

} // verus!
