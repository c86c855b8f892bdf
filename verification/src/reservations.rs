//! What units of the AI have claimed in a round, so that those that come after
//! them do not do it again: damage on a target, turns taken from a target, and
//! cells to stand on.

use crate::hex::Hex;
use crate::ids::{entity_bits_valid, Entity};
use std::collections::{HashMap, HashSet};
use vstd::prelude::*;

verus! {

/// The claims of a round. Amounts of damage are whole numbers in a unit of the
/// caller's choice.
#[derive(Debug)]
pub struct Reservations {
    /// By the bits of the target.
    damage: HashMap<u64, i64>,
    /// By the bits of the target.
    cc: HashSet<u64>,
    /// By the number of the cell.
    tiles: HashSet<u64>,
}

/// The number of a cell: its coordinates, counted from the smallest, one above the
/// other.
pub open spec fn cell_number(h: Hex) -> u64 {
    ((h.x + 0x8000_0000) * 0x1_0000_0000 + (h.y + 0x8000_0000)) as u64
}

/// The cell of a number.
pub open spec fn numbered_cell(n: u64) -> Hex {
    Hex {
        x: (n as int / 0x1_0000_0000 - 0x8000_0000) as i32,
        y: (n as int % 0x1_0000_0000 - 0x8000_0000) as i32,
    }
}

proof fn cells_are_numbered(h: Hex, n: u64)
    ensures
        numbered_cell(cell_number(h)) == h,
        cell_number(numbered_cell(n)) == n,
{
}

fn number_of(h: Hex) -> (r: u64)
    ensures
        r == cell_number(h),
{
    let high: u64 = (h.x as i64 + 0x8000_0000) as u64;
    let low: u64 = (h.y as i64 + 0x8000_0000) as u64;
    high * 0x1_0000_0000 + low
}

fn cell_of(n: u64) -> (r: Hex)
    ensures
        r == numbered_cell(n),
{
    let high: i64 = (n / 0x1_0000_0000) as i64;
    let low: i64 = (n % 0x1_0000_0000) as i64;
    Hex { x: (high - 0x8000_0000) as i32, y: (low - 0x8000_0000) as i32 }
}

/// The claims of a round: damage by target, targets that lose turns, cells.
#[verifier::ext_equal]
pub struct Claims {
    pub damage: Map<Entity, i64>,
    pub cc: Set<Entity>,
    pub tiles: Set<Hex>,
}

impl Claims {
    /// No claim.
    pub open spec fn none() -> Claims {
        Claims { damage: Map::empty(), cc: Set::empty(), tiles: Set::empty() }
    }

    /// The damage that is claimed on a target.
    pub open spec fn damage_on(self, target: Entity) -> i64 {
        if self.damage.contains_key(target) {
            self.damage[target]
        } else {
            0
        }
    }

    /// The claims after damage was claimed on a target, on top of what was claimed
    /// on it before.
    pub open spec fn with_damage(self, target: Entity, amount: i64) -> Claims {
        Claims {
            damage: self.damage.insert(target, clamp64(self.damage_on(target) + amount)),
            ..self
        }
    }
}

/// The claims of a round as plain numbers, for a log.
#[derive(Debug)]
pub struct ReservationsSnapshot {
    /// Bits of a target, with the damage that is claimed on it.
    pub damage: Vec<(u64, i64)>,
    /// Bits of targets.
    pub cc: Vec<u64>,
    pub tiles: Vec<(i32, i32)>,
}

/// All pairs of a map, in any order.
fn list_pairs(map: &HashMap<u64, i64>) -> (r: Vec<(u64, i64)>)
    ensures
        forall|k: u64, v: i64| #[trigger]
            r@.contains((k, v)) <==> map@.contains_key(k) && map@[k] == v,
        forall|i: int, j: int|
            0 <= i < j < r@.len() ==> (#[trigger] r@[i]).0 != (#[trigger] r@[j]).0,
{
    broadcast use vstd::std_specs::hash::group_hash_axioms;

    let ghost keys: Seq<u64> = vstd::std_specs::iter::IteratorSpec::remaining(
        &vstd::std_specs::hash::spec_keys_iter(map),
    ).unref();
    assert(keys.to_set() == map@.dom());
    assert(keys.no_duplicates());
    let mut r: Vec<(u64, i64)> = Vec::new();
    for k in it: map.keys()
        invariant
            keys == it.seq().unref(),
            keys.to_set() == map@.dom(),
            r@.len() == it.index(),
            forall|j: int| 0 <= j < r@.len() ==> (#[trigger] r@[j]) == (keys[j], map@[keys[j]]),
    {
        proof {
            assert(keys[it.index() as int] == *k);
            assert(keys.to_set().contains(*k));
        }
        if let Some(v) = map.get(k) {
            r.push((*k, *v));
        }
    }
    proof {
        assert forall|k: u64, v: i64| #[trigger]
            r@.contains((k, v)) <==> map@.contains_key(k) && map@[k] == v by {
            if r@.contains((k, v)) {
                let j = choose|j: int| 0 <= j < r@.len() && r@[j] == (k, v);
                assert(keys[j] == k);
                assert(keys.to_set().contains(k));
            }
            if map@.contains_key(k) && map@[k] == v {
                assert(keys.to_set().contains(k));
                let j = choose|j: int| 0 <= j < keys.len() && keys[j] == k;
                assert(r@[j] == (k, v));
            }
        }
    }
    r
}

/// All members of a set, in any order.
fn list_members(set: &HashSet<u64>) -> (r: Vec<u64>)
    ensures
        forall|n: u64| #[trigger] r@.contains(n) <==> set@.contains(n),
        r@.no_duplicates(),
{
    broadcast use vstd::std_specs::hash::group_hash_axioms;

    let ghost all: Seq<u64> = vstd::std_specs::iter::IteratorSpec::remaining(
        &vstd::std_specs::hash::spec_hash_keys_iter(set),
    ).unref();
    let mut r: Vec<u64> = Vec::new();
    for n in it: set.iter()
        invariant
            all == it.seq().unref(),
            r@ == all.take(it.index() as int),
    {
        r.push(*n);
        assert(r@ =~= all.take(it.index() + 1));
    }
    assert(r@ =~= all);
    assert(all.to_set() == set@);
    r
}

/// Numbers between the smallest and the largest of 64 bits.
pub open spec fn clamp64(i: int) -> i64 {
    if i < i64::MIN {
        i64::MIN
    } else if i > i64::MAX {
        i64::MAX
    } else {
        i as i64
    }
}

fn add_clamped(a: i64, b: i64) -> (r: i64)
    ensures
        r == clamp64(a + b),
{
    let sum: i128 = a as i128 + b as i128;
    if sum < i64::MIN as i128 {
        i64::MIN
    } else if sum > i64::MAX as i128 {
        i64::MAX
    } else {
        sum as i64
    }
}

/// Bits of entities among numbers.
pub open spec fn entities_among(bits: Seq<u64>) -> Set<Entity> {
    Set::new(|e: Entity| bits.contains(e.bits) && entity_bits_valid(e.bits))
}

/// Damage by entity, of those pairs whose bits name an entity. Of several the last
/// counts.
pub open spec fn damage_among(pairs: Seq<(u64, i64)>) -> Map<Entity, i64>
    decreases pairs.len(),
{
    if pairs.len() == 0 {
        Map::empty()
    } else {
        let rest = damage_among(pairs.drop_last());
        if entity_bits_valid(pairs.last().0) {
            rest.insert(Entity { bits: pairs.last().0 }, pairs.last().1)
        } else {
            rest
        }
    }
}

/// Cells by their coordinates.
pub open spec fn cells_among(tiles: Seq<(i32, i32)>) -> Set<Hex> {
    Set::new(|h: Hex| tiles.contains((h.x, h.y)))
}

impl View for Reservations {
    type V = Claims;

    closed spec fn view(&self) -> Claims {
        Claims {
            damage: Map::new(
                |e: Entity| self.damage@.contains_key(e.bits),
                |e: Entity| self.damage@[e.bits],
            ),
            cc: Set::new(|e: Entity| self.cc@.contains(e.bits)),
            tiles: Set::new(|h: Hex| self.tiles@.contains(cell_number(h))),
        }
    }
}

impl Reservations {
    /// No claim.
    pub fn new() -> (r: Reservations)
        ensures
            r@ == Claims::none(),
    {
        broadcast use vstd::std_specs::hash::group_hash_axioms;

        let r = Reservations {
            damage: HashMap::new(),
            cc: HashSet::new(),
            tiles: HashSet::new(),
        };
        assert(r@ =~= Claims::none());
        r
    }

    /// Forgets every claim.
    pub fn clear(&mut self)
        ensures
            final(self)@ == Claims::none(),
    {
        broadcast use vstd::std_specs::hash::group_hash_axioms;

        self.damage.clear();
        self.cc.clear();
        self.tiles.clear();
        assert(self@ =~= Claims::none());
    }

    fn set_damage(&mut self, target: Entity, amount: i64)
        ensures
            final(self)@ == (Claims {
                damage: old(self)@.damage.insert(target, amount),
                ..old(self)@
            }),
    {
        broadcast use vstd::std_specs::hash::group_hash_axioms;

        self.damage.insert(target.bits, amount);
        assert(self@ =~= (Claims {
            damage: old(self)@.damage.insert(target, amount),
            ..old(self)@
        }));
    }

    /// Claims damage on a target, on top of what is claimed on it already.
    pub fn reserve_damage(&mut self, target: Entity, amount: i64)
        ensures
            final(self)@ == old(self)@.with_damage(target, amount),
    {
        let before = self.reserved_damage(target);
        self.set_damage(target, add_clamped(before, amount));
    }

    /// Claims turns of a target.
    pub fn reserve_cc(&mut self, target: Entity)
        ensures
            final(self)@ == (Claims { cc: old(self)@.cc.insert(target), ..old(self)@ }),
    {
        broadcast use vstd::std_specs::hash::group_hash_axioms;

        self.cc.insert(target.bits);
        assert(self@ =~= (Claims { cc: old(self)@.cc.insert(target), ..old(self)@ }));
    }

    /// Claims a cell.
    pub fn reserve_tile(&mut self, tile: Hex)
        ensures
            final(self)@ == (Claims { tiles: old(self)@.tiles.insert(tile), ..old(self)@ }),
    {
        broadcast use vstd::std_specs::hash::group_hash_axioms;

        self.tiles.insert(number_of(tile));
        proof {
            assert forall|h: Hex| self@.tiles.contains(h) == old(self)@.tiles.insert(
                tile,
            ).contains(h) by {
                cells_are_numbered(h, 0);
                cells_are_numbered(tile, 0);
            }
        }
        assert(self@ =~= (Claims { tiles: old(self)@.tiles.insert(tile), ..old(self)@ }));
    }

    /// The damage that is claimed on a target; zero where none is.
    pub fn reserved_damage(&self, target: Entity) -> (r: i64)
        ensures
            r == self@.damage_on(target),
    {
        broadcast use vstd::std_specs::hash::group_hash_axioms;

        match self.damage.get(&target.bits) {
            Some(amount) => *amount,
            None => 0,
        }
    }

    /// Whether turns of a target are claimed.
    pub fn has_reserved_cc(&self, target: Entity) -> (r: bool)
        ensures
            r == self@.cc.contains(target),
    {
        broadcast use vstd::std_specs::hash::group_hash_axioms;

        self.cc.contains(&target.bits)
    }

    /// Whether a cell is claimed.
    pub fn is_tile_reserved(&self, tile: Hex) -> (r: bool)
        ensures
            r == self@.tiles.contains(tile),
    {
        broadcast use vstd::std_specs::hash::group_hash_axioms;

        self.tiles.contains(&number_of(tile))
    }

    /// The claims as plain numbers, in any order.
    pub fn to_snapshot(&self) -> (r: ReservationsSnapshot)
        ensures
            forall|bits: u64, amount: i64| #[trigger]
                r.damage@.contains((bits, amount)) <==> self@.damage.contains_key(
                    Entity { bits },
                ) && self@.damage[Entity { bits }] == amount,
            forall|i: int, j: int|
                0 <= i < j < r.damage@.len() ==> (#[trigger] r.damage@[i]).0 != (
                #[trigger] r.damage@[j]).0,
            forall|bits: u64| #[trigger]
                r.cc@.contains(bits) <==> self@.cc.contains(Entity { bits }),
            r.cc@.no_duplicates(),
            forall|x: i32, y: i32| #[trigger]
                r.tiles@.contains((x, y)) <==> self@.tiles.contains(Hex { x, y }),
            r.tiles@.no_duplicates(),
    {
        let damage = list_pairs(&self.damage);
        let cc = list_members(&self.cc);
        let numbers = list_members(&self.tiles);
        let mut tiles: Vec<(i32, i32)> = Vec::new();
        let mut t: usize = 0;
        while t < numbers.len()
            invariant
                t <= numbers.len(),
                tiles@.len() == t,
                forall|j: int|
                    0 <= j < t ==> (#[trigger] tiles@[j]) == (
                        numbered_cell(numbers@[j]).x,
                        numbered_cell(numbers@[j]).y,
                    ),
            decreases numbers.len() - t,
        {
            let cell = cell_of(numbers[t]);
            tiles.push((cell.x, cell.y));
            t = t + 1;
        }
        proof {
            assert forall|x: i32, y: i32| #[trigger]
                tiles@.contains((x, y)) <==> self@.tiles.contains(Hex { x, y }) by {
                let h = Hex { x, y };
                if tiles@.contains((x, y)) {
                    let j = choose|j: int| 0 <= j < tiles@.len() && tiles@[j] == (x, y);
                    assert(numbered_cell(numbers@[j]) == h);
                    cells_are_numbered(h, numbers@[j]);
                    assert(numbers@.contains(numbers@[j]));
                }
                if self@.tiles.contains(h) {
                    let n = cell_number(h);
                    assert(numbers@.contains(n));
                    let j = choose|j: int| 0 <= j < numbers@.len() && numbers@[j] == n;
                    cells_are_numbered(h, n);
                    assert(tiles@[j] == (x, y));
                }
            }
            assert forall|i: int, j: int| 0 <= i < j < tiles@.len() implies tiles@[i]
                != tiles@[j] by {
                cells_are_numbered(Hex { x: 0, y: 0 }, numbers@[i]);
                cells_are_numbered(Hex { x: 0, y: 0 }, numbers@[j]);
            }
        }
        ReservationsSnapshot { damage, cc, tiles }
    }

    /// The claims that plain numbers stand for. Bits that name no entity are passed
    /// over.
    pub fn from_snapshot(snap: &ReservationsSnapshot) -> (r: Reservations)
        ensures
            r@ == (Claims {
                damage: damage_among(snap.damage@),
                cc: entities_among(snap.cc@),
                tiles: cells_among(snap.tiles@),
            }),
    {
        let mut r = Reservations::new();
        let mut i: usize = 0;
        assert(snap.damage@.take(0) =~= Seq::empty());
        while i < snap.damage.len()
            invariant
                i <= snap.damage.len(),
                r@ == (Claims {
                    damage: damage_among(snap.damage@.take(i as int)),
                    cc: Set::empty(),
                    tiles: Set::empty(),
                }),
            decreases snap.damage.len() - i,
        {
            assert(snap.damage@.take(i + 1).drop_last() =~= snap.damage@.take(i as int));
            let (bits, amount) = snap.damage[i];
            if let Some(e) = Entity::try_from_bits(bits) {
                r.set_damage(e, amount);
            }
            i = i + 1;
        }
        assert(snap.damage@.take(i as int) =~= snap.damage@);
        let mut k: usize = 0;
        assert(entities_among(snap.cc@.take(0)) =~= Set::empty());
        while k < snap.cc.len()
            invariant
                k <= snap.cc.len(),
                r@ == (Claims {
                    damage: damage_among(snap.damage@),
                    cc: entities_among(snap.cc@.take(k as int)),
                    tiles: Set::empty(),
                }),
            decreases snap.cc.len() - k,
        {
            let ghost before = snap.cc@.take(k as int);
            let ghost after = snap.cc@.take(k + 1);
            let bits = snap.cc[k];
            assert(after =~= before.push(bits));
            proof {
                pushed_contains(before, bits);
            }
            if let Some(e) = Entity::try_from_bits(bits) {
                r.reserve_cc(e);
                assert(entities_among(after) =~= entities_among(before).insert(e));
            } else {
                assert(entities_among(after) =~= entities_among(before));
            }
            k = k + 1;
        }
        assert(snap.cc@.take(k as int) =~= snap.cc@);
        let mut t: usize = 0;
        assert(cells_among(snap.tiles@.take(0)) =~= Set::empty());
        while t < snap.tiles.len()
            invariant
                t <= snap.tiles.len(),
                r@ == (Claims {
                    damage: damage_among(snap.damage@),
                    cc: entities_among(snap.cc@),
                    tiles: cells_among(snap.tiles@.take(t as int)),
                }),
            decreases snap.tiles.len() - t,
        {
            let ghost before = snap.tiles@.take(t as int);
            let ghost after = snap.tiles@.take(t + 1);
            let (x, y) = snap.tiles[t];
            assert(after =~= before.push((x, y)));
            proof {
                pushed_contains(before, (x, y));
            }
            r.reserve_tile(Hex::new(x, y));
            assert(cells_among(after) =~= cells_among(before).insert(Hex { x, y }));
            t = t + 1;
        }
        assert(snap.tiles@.take(t as int) =~= snap.tiles@);
        r
    }
}

impl Default for Reservations {
    fn default() -> (r: Reservations)
        ensures
            r@ == Claims::none(),
    {
        Reservations::new()
    }
}

proof fn pushed_contains<T>(s: Seq<T>, t: T)
    ensures
        forall|x: T| #[trigger] s.push(t).contains(x) <==> s.contains(x) || x == t,
{
    assert forall|x: T| #[trigger] s.push(t).contains(x) <==> s.contains(x) || x == t by {
        let p = s.push(t);
        if p.contains(x) {
            let i = choose|i: int| 0 <= i < p.len() && p[i] == x;
            if i < s.len() {
                assert(s[i] == x);
            }
        }
        if s.contains(x) {
            let i = choose|i: int| 0 <= i < s.len() && s[i] == x;
            assert(p[i] == x);
        }
        if x == t {
            assert(p[s.len() as int] == t);
        }
    }
}

// ---------------------------------------------------------------------------
// Laws
// ---------------------------------------------------------------------------

/// Whether every claim is on something whose bits name an entity.
pub open spec fn claims_are_named(c: Claims) -> bool {
    &&& forall|e: Entity| #[trigger] c.damage.contains_key(e) ==> entity_bits_valid(e.bits)
    &&& forall|e: Entity| #[trigger] c.cc.contains(e) ==> entity_bits_valid(e.bits)
}

/// Whether plain numbers are those of some claims, each once.
pub open spec fn stands_for_claims(
    damage: Seq<(u64, i64)>,
    cc: Seq<u64>,
    tiles: Seq<(i32, i32)>,
    c: Claims,
) -> bool {
    &&& forall|bits: u64, amount: i64| #[trigger]
        damage.contains((bits, amount)) <==> c.damage.contains_key(Entity { bits })
            && c.damage[Entity { bits }] == amount
    &&& forall|i: int, j: int|
        0 <= i < j < damage.len() ==> (#[trigger] damage[i]).0 != (#[trigger] damage[j]).0
    &&& forall|bits: u64| #[trigger] cc.contains(bits) <==> c.cc.contains(Entity { bits })
    &&& forall|x: i32, y: i32| #[trigger]
        tiles.contains((x, y)) <==> c.tiles.contains(Hex { x, y })
}

proof fn damage_among_is_listed(pairs: Seq<(u64, i64)>)
    requires
        forall|i: int, j: int|
            0 <= i < j < pairs.len() ==> (#[trigger] pairs[i]).0 != (#[trigger] pairs[j]).0,
    ensures
        forall|bits: u64, amount: i64|
            (damage_among(pairs).contains_key(Entity { bits }) && damage_among(
                pairs,
            )[Entity { bits }] == amount) <==> (#[trigger] pairs.contains((bits, amount))
                && entity_bits_valid(bits)),
    decreases pairs.len(),
{
    if pairs.len() > 0 {
        let rest = pairs.drop_last();
        assert forall|i: int, j: int| 0 <= i < j < rest.len() implies (#[trigger] rest[i]).0 != (
        #[trigger] rest[j]).0 by {
            assert(pairs[i].0 != pairs[j].0);
        }
        damage_among_is_listed(rest);
        let (b, a) = pairs.last();
        assert forall|bits: u64, amount: i64|
            (damage_among(pairs).contains_key(Entity { bits }) && damage_among(
                pairs,
            )[Entity { bits }] == amount) <==> (#[trigger] pairs.contains((bits, amount))
                && entity_bits_valid(bits)) by {
            assert(pairs =~= rest.push((b, a)));
            pushed_contains(rest, (b, a));
            assert(pairs.contains((bits, amount)) <==> rest.contains((bits, amount)) || (
                bits,
                amount,
            ) == (b, a));
            if bits == b {
                if rest.contains((bits, amount)) {
                    let i = choose|i: int| 0 <= i < rest.len() && rest[i] == (bits, amount);
                    assert(pairs[i].0 != pairs[pairs.len() - 1].0);
                }
            } else {
                assert(Entity { bits } != Entity { bits: b });
                assert(rest.contains((bits, amount)) <==> pairs.contains((bits, amount)));
            }
        }
    }
}

/// Claims that were written down and are read back are the same claims, where
/// they are on entities.
pub proof fn law_claims_round_trip(
    c: Claims,
    damage: Seq<(u64, i64)>,
    cc: Seq<u64>,
    tiles: Seq<(i32, i32)>,
)
    requires
        claims_are_named(c),
        stands_for_claims(damage, cc, tiles, c),
    ensures
        (Claims {
            damage: damage_among(damage),
            cc: entities_among(cc),
            tiles: cells_among(tiles),
        }) == c,
{
    damage_among_is_listed(damage);
    let d = damage_among(damage);
    assert forall|e: Entity| d.contains_key(e) == c.damage.contains_key(e) by {
        let bits = e.bits;
        assert(e == Entity { bits });
        if d.contains_key(e) {
            assert(damage.contains((bits, d[e])));
        }
        if c.damage.contains_key(e) {
            assert(damage.contains((bits, c.damage[e])));
        }
    }
    assert forall|e: Entity| #[trigger] d.contains_key(e) implies d[e] == c.damage[e] by {
        let bits = e.bits;
        assert(e == Entity { bits });
        assert(damage.contains((bits, d[e])));
    }
    assert(d =~= c.damage);
    assert forall|e: Entity| entities_among(cc).contains(e) == c.cc.contains(e) by {
        let bits = e.bits;
        assert(e == Entity { bits });
        assert(cc.contains(bits) <==> c.cc.contains(e));
    }
    assert(entities_among(cc) =~= c.cc);
    assert forall|h: Hex| cells_among(tiles).contains(h) == c.tiles.contains(h) by {
        let (x, y) = (h.x, h.y);
        assert(h == Hex { x, y });
        assert(tiles.contains((x, y)) <==> c.tiles.contains(h));
    }
    assert(cells_among(tiles) =~= c.tiles);
}

/// Claims on different targets do not meet: damage on one changes no other, and
/// two claims on one target add up in either order.
pub proof fn law_damage_adds_up(c: Claims, a: i64, b: i64, target: Entity, other: Entity)
    requires
        other != target,
        i64::MIN <= c.damage_on(target) + a <= i64::MAX,
        i64::MIN <= c.damage_on(target) + b <= i64::MAX,
        i64::MIN <= c.damage_on(target) + a + b <= i64::MAX,
    ensures
        c.with_damage(target, a).with_damage(target, b).damage_on(target) == c.damage_on(target)
            + a + b,
        c.with_damage(target, a).with_damage(target, b) == c.with_damage(target, b).with_damage(
            target,
            a,
        ),
        c.with_damage(target, a).damage_on(other) == c.damage_on(other),
{
    assert(c.with_damage(target, a).with_damage(target, b).damage =~= c.with_damage(
        target,
        b,
    ).with_damage(target, a).damage);
}

/// Claimed damage grows by what is claimed and stops at the largest number there is. Nothing
/// else is claimed by it, and nothing is claimed at first.
pub proof fn law_claimed_damage(c: Claims, target: Entity, amount: i64)
    ensures
        Claims::none().damage_on(target) == 0,
        !Claims::none().cc.contains(target),
        c.with_damage(target, amount).cc == c.cc,
        c.with_damage(target, amount).tiles == c.tiles,
        c.damage_on(target) + amount > i64::MAX ==> c.with_damage(target, amount).damage_on(target)
            == i64::MAX,
        c.damage_on(target) + amount < i64::MIN ==> c.with_damage(target, amount).damage_on(target)
            == i64::MIN,
        i64::MIN <= c.damage_on(target) + amount <= i64::MAX ==> c.with_damage(
            target,
            amount,
        ).damage_on(target) == c.damage_on(target) + amount,
{
}

/// Each cell has a number of its own, from which it is found again.
pub proof fn law_cells_are_numbered(h: Hex)
    ensures
        numbered_cell(cell_number(h)) == h,
{
    let n = (h.x + 0x8000_0000) * 0x1_0000_0000 + (h.y + 0x8000_0000);
    assert(0 <= n <= u64::MAX);
    assert(n / 0x1_0000_0000 == h.x + 0x8000_0000) by (nonlinear_arith)
        requires
            n == (h.x + 0x8000_0000) * 0x1_0000_0000 + (h.y + 0x8000_0000),
            0 <= h.y + 0x8000_0000 < 0x1_0000_0000,
    ;
    assert(n % 0x1_0000_0000 == h.y + 0x8000_0000) by (nonlinear_arith)
        requires
            n == (h.x + 0x8000_0000) * 0x1_0000_0000 + (h.y + 0x8000_0000),
            0 <= h.y + 0x8000_0000 < 0x1_0000_0000,
    ;
}

} // verus!
