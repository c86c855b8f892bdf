//! What a cast would do, told before it is made.

use crate::events::Event;
use crate::hex::Hex;
use crate::ids::{Entity, IdTable, UnitId, UnitIdMap};
use crate::positions::HexPositions;
use crate::process::Action;
use crate::state::{find_unit, is_first_unit, law_first_unit_is_found, law_unit_is_found_by_its_id};
use crate::state::{CombatState, Unit};
use vstd::prelude::*;

verus! {

/// What a player points at.
#[derive(Debug)]
pub struct Selection {
    pub actor: Option<Entity>,
    pub ability: Option<String>,
    pub hovered: Option<Hex>,
}

/// Whether a selection names a cast: an actor and an ability are selected, and
/// both the actor and someone on the hovered cell have units.
pub open spec fn names_cast(
    action: Action,
    sel: Selection,
    cells: Map<Entity, Hex>,
    ids: IdTable,
) -> bool {
    match action {
        Action::Cast { actor, ability, target, target_pos } => {
            &&& sel.actor matches Some(a) && ids.id(a) == Some(actor)
            &&& sel.ability == Some(ability)
            &&& sel.hovered == Some(target_pos)
            &&& exists|e: Entity| #[trigger]
                cells.contains_key(e) && cells[e] == target_pos && ids.id(e) == Some(target)
        },
        _ => false,
    }
}

/// Whether `r` is the cast to preview: one that the selection names, or none where
/// something is missing.
pub open spec fn is_previewed(
    r: Option<Action>,
    sel: Selection,
    cells: Map<Entity, Hex>,
    ids: IdTable,
) -> bool {
    &&& r matches Some(a) ==> names_cast(a, sel, cells, ids)
    &&& r is None ==> {
        ||| sel.actor is None
        ||| sel.ability is None
        ||| sel.hovered is None
        ||| ids.id(sel.actor->0) is None
        ||| forall|e: Entity| #[trigger] cells.contains_key(e) ==> cells[e] != sel.hovered->0
        ||| exists|e: Entity| #[trigger]
            cells.contains_key(e) && cells[e] == sel.hovered->0 && ids.id(e) is None
    }
}

/// The cast to preview, if the selection names one. Only someone standing on the
/// hovered cell can be its target.
pub fn forecast_action(sel: &Selection, positions: &HexPositions, ids: &UnitIdMap) -> (r: Option<
    Action,
>)
    ensures
        is_previewed(r, *sel, positions@, ids@),
{
    let actor = sel.actor?;
    match &sel.ability {
        Some(ability) => {
            let actor_uid = ids.get_id(actor)?;
            let hovered = sel.hovered?;
            let target = positions.entity_at(hovered)?;
            let target_uid = ids.get_id(target)?;
            Some(
                Action::Cast {
                    actor: actor_uid,
                    ability: ability.clone(),
                    target: target_uid,
                    target_pos: hovered,
                },
            )
        },
        None => None,
    }
}

#[derive(Clone, Copy, PartialEq, Eq, Structural, Debug)]
pub enum ForecastKind {
    Damage,
    Heal,
}

/// One thing that a preview says of a unit.
#[derive(Debug)]
pub enum Mark {
    Damage(i32),
    Heal(i32),
    Death,
    Status(String),
}

/// What a previewed event says, and of whom.
pub open spec fn mark_of(ev: Event) -> Option<(UnitId, Mark)> {
    match ev {
        Event::UnitDamaged { target, amount, raw, mitigation, pierces, source } => Some(
            (target, Mark::Damage(amount)),
        ),
        Event::DotDamaged { target, source, source_status, raw, mitigation, pierces, amount } =>
        Some((target, Mark::Damage(amount))),
        Event::UnitHealed { target, amount } => Some((target, Mark::Heal(amount))),
        Event::UnitDied { unit } => Some((unit, Mark::Death)),
        Event::StatusApplied { target, status } => Some((target, Mark::Status(status))),
        _ => None,
    }
}

fn get_mark(ev: &Event) -> (r: Option<(UnitId, Mark)>)
    ensures
        r == mark_of(*ev),
{
    match ev {
        Event::UnitDamaged { target, amount, .. } => Some((*target, Mark::Damage(*amount))),
        Event::DotDamaged { target, amount, .. } => Some((*target, Mark::Damage(*amount))),
        Event::UnitHealed { target, amount } => Some((*target, Mark::Heal(*amount))),
        Event::UnitDied { unit } => Some((*unit, Mark::Death)),
        Event::StatusApplied { target, status } => Some((*target, Mark::Status(status.clone()))),
        _ => None,
    }
}

/// What is known so far of one unit.
#[derive(Debug)]
pub struct UnitAccum {
    pub unit: UnitId,
    pub entity: Entity,
    pub kind: Option<ForecastKind>,
    pub amount: i128,
    pub hp_before: i32,
    pub max_hp: i32,
    pub lethal: bool,
    pub statuses: Vec<String>,
}

/// What is known so far of one unit, its statuses as a sequence.
#[verifier::ext_equal]
pub struct AccumModel {
    pub unit: UnitId,
    pub entity: Entity,
    pub kind: Option<ForecastKind>,
    pub amount: int,
    pub hp_before: i32,
    pub max_hp: i32,
    pub lethal: bool,
    pub statuses: Seq<String>,
}

impl View for UnitAccum {
    type V = AccumModel;

    open spec fn view(&self) -> AccumModel {
        AccumModel {
            unit: self.unit,
            entity: self.entity,
            kind: self.kind,
            amount: self.amount as int,
            hp_before: self.hp_before,
            max_hp: self.max_hp,
            lethal: self.lethal,
            statuses: self.statuses@,
        }
    }
}

/// What is known so far, unit by unit.
pub open spec fn accum_models(acc: Seq<UnitAccum>) -> Seq<AccumModel> {
    Seq::new(acc.len(), |i: int| acc[i]@)
}

impl AccumModel {
    /// What is known after one more mark. Amounts add up; the last mark decides
    /// whether they are damage or healing.
    pub open spec fn after(self, m: Mark) -> AccumModel {
        match m {
            Mark::Damage(a) => AccumModel {
                kind: Some(ForecastKind::Damage),
                amount: self.amount + a,
                ..self
            },
            Mark::Heal(a) => AccumModel {
                kind: Some(ForecastKind::Heal),
                amount: self.amount + a,
                ..self
            },
            Mark::Death => AccumModel { lethal: true, ..self },
            Mark::Status(s) => AccumModel { statuses: self.statuses.push(s), ..self },
        }
    }
}

/// Hit points of a unit, and their maximum; zero for a unit that the state does
/// not have.
pub open spec fn hp_of(units: Seq<Unit>, unit: UnitId) -> (i32, i32) {
    match find_unit(units, unit) {
        Some(u) => (u.hp(), u.max_hp()),
        None => (0, 0),
    }
}

/// A unit of which nothing is known yet.
pub open spec fn fresh(unit: UnitId, entity: Entity, units: Seq<Unit>) -> AccumModel {
    AccumModel {
        unit,
        entity,
        kind: None,
        amount: 0,
        hp_before: hp_of(units, unit).0,
        max_hp: hp_of(units, unit).1,
        lethal: false,
        statuses: Seq::empty(),
    }
}

/// Whether `i` is the place of a unit.
pub open spec fn is_place(acc: Seq<AccumModel>, unit: UnitId, i: int) -> bool {
    &&& 0 <= i < acc.len()
    &&& acc[i].unit == unit
    &&& forall|j: int| 0 <= j < i ==> (#[trigger] acc[j]).unit != unit
}

/// The place of a unit.
pub open spec fn place(acc: Seq<AccumModel>, unit: UnitId) -> Option<int> {
    if exists|i: int| is_place(acc, unit, i) {
        Some(choose|i: int| is_place(acc, unit, i))
    } else {
        None
    }
}

/// What is known after one more event. Units are listed in the order in which
/// they are first spoken of; a unit without an entity is not listed.
pub open spec fn after(
    acc: Seq<AccumModel>,
    ev: Event,
    ids: IdTable,
    units: Seq<Unit>,
) -> Seq<AccumModel> {
    match mark_of(ev) {
        Some((u, m)) => match place(acc, u) {
            Some(i) => acc.update(i, acc[i].after(m)),
            None => match ids.entity(u) {
                Some(e) => acc.push(fresh(u, e, units).after(m)),
                None => acc,
            },
        },
        None => acc,
    }
}

/// What is known after all events.
pub open spec fn after_all(evs: Seq<Event>, ids: IdTable, units: Seq<Unit>) -> Seq<AccumModel>
    decreases evs.len(),
{
    if evs.len() == 0 {
        Seq::empty()
    } else {
        after(after_all(evs.drop_last(), ids, units), evs.last(), ids, units)
    }
}

fn find_accum(acc: &Vec<UnitAccum>, unit: UnitId) -> (r: Option<usize>)
    ensures
        match r {
            Some(i) => place(accum_models(acc@), unit) == Some(i as int) && i < acc@.len(),
            None => place(accum_models(acc@), unit) is None,
        },
{
    let ghost m = accum_models(acc@);
    let mut i: usize = 0;
    while i < acc.len()
        invariant
            i <= acc.len(),
            m == accum_models(acc@),
            forall|j: int| 0 <= j < i ==> (#[trigger] m[j]).unit != unit,
        decreases acc.len() - i,
    {
        if acc[i].unit == unit {
            proof {
                assert(m[i as int].unit == unit);
                assert(is_place(m, unit, i as int));
                let k = choose|k: int| is_place(m, unit, k);
                assert(is_place(m, unit, k));
                if k < i {
                    assert(m[k].unit != unit);
                }
                if i < k {
                    assert(m[i as int].unit != unit);
                }
            }
            return Some(i);
        }
        assert(m[i as int].unit != unit);
        i = i + 1;
    }
    proof {
        assert forall|k: int| !is_place(m, unit, k) by {
            if 0 <= k < m.len() {
                assert(m[k].unit != unit);
            }
        }
    }
    None
}

/// Whether all amounts are small enough for `n` events.
pub open spec fn amounts_fit(acc: Seq<AccumModel>, n: int) -> bool {
    forall|i: int|
        0 <= i < acc.len() ==> -0x8000_0000 * n <= (#[trigger] acc[i]).amount <= 0x8000_0000 * n
}

fn put_mark(a: &mut UnitAccum, m: Mark)
    requires
        -0x8000_0000_0000_0000_0000_0000 <= old(a).amount <= 0x8000_0000_0000_0000_0000_0000,
    ensures
        final(a)@ == old(a)@.after(m),
{
    match m {
        Mark::Damage(n) => {
            a.kind = Some(ForecastKind::Damage);
            a.amount = a.amount + n as i128;
        },
        Mark::Heal(n) => {
            a.kind = Some(ForecastKind::Heal);
            a.amount = a.amount + n as i128;
        },
        Mark::Death => {
            a.lethal = true;
        },
        Mark::Status(s) => {
            a.statuses.push(s);
        },
    }
    assert(a@ =~= old(a)@.after(m));
}

/// Gathers what previewed events say, unit by unit.
pub fn accumulate(events: &Vec<Event>, ids: &UnitIdMap, state: &CombatState) -> (r: Vec<UnitAccum>)
    ensures
        accum_models(r@) == after_all(events@, ids@, state.units@),
        amounts_fit(accum_models(r@), events@.len() as int),
{
    let mut acc: Vec<UnitAccum> = Vec::new();
    let mut i: usize = 0;
    assert(events@.take(0) =~= Seq::empty());
    assert(accum_models(acc@) =~= Seq::empty());
    while i < events.len()
        invariant
            i <= events.len(),
            accum_models(acc@) == after_all(events@.take(i as int), ids@, state.units@),
            amounts_fit(accum_models(acc@), i as int),
        decreases events.len() - i,
    {
        let ghost before = accum_models(acc@);
        assert(events@.take(i + 1).drop_last() =~= events@.take(i as int));
        if let Some((unit, mark)) = get_mark(&events[i]) {
            match find_accum(&acc, unit) {
                Some(k) => {
                    assert(before[k as int].amount == acc@[k as int].amount);
                    put_mark(&mut acc[k], mark);
                },
                None => {
                    if let Some(entity) = ids.get_entity(unit) {
                        let (hp_before, max_hp) = match state.unit(unit) {
                            Some(u) => (u.hp(), u.max_hp()),
                            None => (0i32, 0i32),
                        };
                        let mut a = UnitAccum {
                            unit,
                            entity,
                            kind: None,
                            amount: 0,
                            hp_before,
                            max_hp,
                            lethal: false,
                            statuses: Vec::new(),
                        };
                        assert(a@ =~= fresh(unit, entity, state.units@));
                        put_mark(&mut a, mark);
                        acc.push(a);
                    }
                },
            }
        }
        assert(accum_models(acc@) =~= after(before, events@[i as int], ids@, state.units@));
        assert(amounts_fit(accum_models(acc@), i + 1)) by {
            let now = accum_models(acc@);
            assert forall|j: int| 0 <= j < now.len() implies -0x8000_0000 * (i + 1) <= (
            #[trigger] now[j]).amount <= 0x8000_0000 * (i + 1) by {
                if j < before.len() {
                    assert(-0x8000_0000 * i <= before[j].amount <= 0x8000_0000 * i);
                }
            }
        }
        i = i + 1;
    }
    assert(events@.take(i as int) =~= events@);
    acc
}

/// One line of a forecast.
#[derive(Debug)]
pub struct ForecastEntry {
    pub entity: Entity,
    pub kind: ForecastKind,
    pub amount: i128,
    pub hp_before: i32,
    pub hp_after: i128,
    pub lethal: bool,
    pub statuses: Vec<String>,
}

/// Whether there is anything to show of a unit.
pub open spec fn is_shown(a: AccumModel) -> bool {
    a.kind is Some || a.lethal || a.statuses.len() > 0
}

/// Whether `e` is the line of a unit. Damage leaves no fewer than zero hit
/// points, healing no more than the maximum; without either it counts as no
/// damage.
pub open spec fn is_entry(e: ForecastEntry, a: AccumModel) -> bool {
    let kind = match a.kind {
        Some(k) => k,
        None => ForecastKind::Damage,
    };
    &&& e.entity == a.entity
    &&& e.kind == kind
    &&& e.amount == a.amount
    &&& e.hp_before == a.hp_before
    &&& e.hp_after == (match kind {
        ForecastKind::Damage => crate::hex::max(a.hp_before - a.amount, 0),
        ForecastKind::Heal => if a.hp_before + a.amount < a.max_hp {
            a.hp_before + a.amount
        } else {
            a.max_hp as int
        },
    })
    &&& e.lethal == a.lethal
    &&& e.statuses@ == a.statuses
}

/// The units of which there is something to show, in order.
pub open spec fn shown(acc: Seq<AccumModel>) -> Seq<AccumModel>
    decreases acc.len(),
{
    if acc.len() == 0 {
        Seq::empty()
    } else if is_shown(acc.last()) {
        shown(acc.drop_last()).push(acc.last())
    } else {
        shown(acc.drop_last())
    }
}

/// What a cast would do.
#[derive(Debug)]
pub struct ActionForecast {
    pub entries: Vec<ForecastEntry>,
    /// Chance of a critical failure, in percent.
    pub crit_fail_pct: u32,
}

/// Whether `f` is the forecast of some events: a line for each unit of which
/// there is something to show, and a chance of failure only where there is any.
pub open spec fn is_forecast(
    f: ActionForecast,
    evs: Seq<Event>,
    ids: IdTable,
    units: Seq<Unit>,
) -> bool {
    let lines = shown(after_all(evs, ids, units));
    &&& f.entries@.len() == lines.len()
    &&& forall|i: int| 0 <= i < lines.len() ==> is_entry(#[trigger] f.entries@[i], lines[i])
    &&& f.crit_fail_pct == (if lines.len() == 0 {
        0u32
    } else {
        5u32
    })
}

/// The forecast of some previewed events.
pub fn compute_forecast(
    events: &Vec<Event>,
    ids: &UnitIdMap,
    state: &CombatState,
) -> (r: ActionForecast)
    ensures
        is_forecast(r, events@, ids@, state.units@),
{
    let acc = accumulate(events, ids, state);
    let ghost count: usize = events.len();
    let ghost m = accum_models(acc@);
    let mut entries: Vec<ForecastEntry> = Vec::new();
    let mut i: usize = 0;
    assert(m.take(0) =~= Seq::empty());
    while i < acc.len()
        invariant
            i <= acc.len(),
            m == accum_models(acc@),
            amounts_fit(m, count as int),
            entries@.len() == shown(m.take(i as int)).len(),
            forall|j: int|
                0 <= j < entries@.len() ==> is_entry(
                    #[trigger] entries@[j],
                    shown(m.take(i as int))[j],
                ),
        decreases acc.len() - i,
    {
        assert(m.take(i + 1).drop_last() =~= m.take(i as int));
        let a = &acc[i];
        assert(m[i as int] == a@);
        if a.kind.is_some() || a.lethal || a.statuses.len() > 0 {
            let kind = match a.kind {
                Some(k) => k,
                None => ForecastKind::Damage,
            };
            let hp: i128 = a.hp_before as i128;
            let max_hp: i128 = a.max_hp as i128;
            let hp_after: i128 = match kind {
                ForecastKind::Damage => if hp - a.amount < 0 {
                    0
                } else {
                    hp - a.amount
                },
                ForecastKind::Heal => if hp + a.amount < max_hp {
                    hp + a.amount
                } else {
                    max_hp
                },
            };
            entries.push(
                ForecastEntry {
                    entity: a.entity,
                    kind,
                    amount: a.amount,
                    hp_before: a.hp_before,
                    hp_after,
                    lethal: a.lethal,
                    statuses: crate::templates::copy_strings(&a.statuses),
                },
            );
        }
        i = i + 1;
    }
    assert(m.take(i as int) =~= m);
    let crit_fail_pct: u32 = if entries.len() == 0 {
        0
    } else {
        5
    };
    ActionForecast { entries, crit_fail_pct }
}

// ---------------------------------------------------------------------------
// Laws
// ---------------------------------------------------------------------------

/// Each unit has one line at most, under its own entity, and there is something
/// to show on it.
pub proof fn law_one_line_per_unit(evs: Seq<Event>, ids: IdTable, units: Seq<Unit>)
    ensures
        ({
            let acc = after_all(evs, ids, units);
            &&& forall|i: int, j: int|
                0 <= i < j < acc.len() ==> (#[trigger] acc[i]).unit != (#[trigger] acc[j]).unit
            &&& forall|i: int|
                0 <= i < acc.len() ==> is_shown(#[trigger] acc[i]) && ids.entity(acc[i].unit)
                    == Some(acc[i].entity)
        }),
    decreases evs.len(),
{
    if evs.len() > 0 {
        law_one_line_per_unit(evs.drop_last(), ids, units);
        let acc = after_all(evs.drop_last(), ids, units);
        let now = after_all(evs, ids, units);
        if let Some((u, m)) = mark_of(evs.last()) {
            if let Some(k) = place(acc, u) {
                assert(is_place(acc, u, k));
                assert forall|i: int, j: int| 0 <= i < j < now.len() implies (
                #[trigger] now[i]).unit != (#[trigger] now[j]).unit by {
                    assert(acc[i].unit != acc[j].unit);
                }
                assert forall|i: int| 0 <= i < now.len() implies is_shown(#[trigger] now[i])
                    && ids.entity(now[i].unit) == Some(now[i].entity) by {
                    assert(is_shown(acc[i]));
                }
            } else {
                assert forall|i: int| 0 <= i < acc.len() implies (#[trigger] acc[i]).unit
                    != u by {
                    if acc[i].unit == u {
                        first_place_exists(acc, u, i);
                    }
                }
                assert forall|i: int, j: int| 0 <= i < j < now.len() implies (
                #[trigger] now[i]).unit != (#[trigger] now[j]).unit by {
                    if j < acc.len() {
                        assert(acc[i].unit != acc[j].unit);
                    } else {
                        assert(acc[i].unit != u);
                    }
                }
                assert forall|i: int| 0 <= i < now.len() implies is_shown(#[trigger] now[i])
                    && ids.entity(now[i].unit) == Some(now[i].entity) by {
                    if i < acc.len() {
                        assert(now[i] == acc[i]);
                    }
                }
            }
        }
    }
}

proof fn first_place_exists(acc: Seq<AccumModel>, u: UnitId, i: int)
    requires
        0 <= i < acc.len(),
        acc[i].unit == u,
    ensures
        exists|k: int| is_place(acc, u, k),
    decreases i,
{
    if forall|j: int| 0 <= j < i ==> (#[trigger] acc[j]).unit != u {
        assert(is_place(acc, u, i));
    } else {
        let j = choose|j: int| 0 <= j < i && (#[trigger] acc[j]).unit == u;
        first_place_exists(acc, u, j);
    }
}

/// Whether an event says something of a unit.
pub open spec fn speaks_of(ev: Event, unit: UnitId) -> bool {
    mark_of(ev) matches Some((u, m)) && u == unit
}

/// Whether some event says something of a unit.
pub open spec fn is_spoken_of(evs: Seq<Event>, unit: UnitId) -> bool {
    exists|i: int| 0 <= i < evs.len() && speaks_of(#[trigger] evs[i], unit)
}

/// The damage or healing of an event on a unit; zero where there is none.
pub open spec fn amount_of(ev: Event, unit: UnitId) -> int {
    match mark_of(ev) {
        Some((u, Mark::Damage(a))) if u == unit => a as int,
        Some((u, Mark::Heal(a))) if u == unit => a as int,
        _ => 0,
    }
}

/// The sum of all damage and healing on a unit.
pub open spec fn amount_in(evs: Seq<Event>, unit: UnitId) -> int
    decreases evs.len(),
{
    if evs.len() == 0 {
        0
    } else {
        amount_in(evs.drop_last(), unit) + amount_of(evs.last(), unit)
    }
}

/// Whether a unit dies in some events.
pub open spec fn dies_in(evs: Seq<Event>, unit: UnitId) -> bool {
    evs.contains(Event::UnitDied { unit })
}

proof fn accumulation_sums_up(evs: Seq<Event>, ids: IdTable, units: Seq<Unit>, unit: UnitId)
    ensures
        ({
            let acc = after_all(evs, ids, units);
            &&& forall|i: int|
                0 <= i < acc.len() && (#[trigger] acc[i]).unit == unit ==> {
                    &&& acc[i].amount == amount_in(evs, unit)
                    &&& acc[i].lethal == dies_in(evs, unit)
                    &&& is_spoken_of(evs, unit)
                }
            &&& (exists|i: int| is_place(acc, unit, i)) <==> is_spoken_of(evs, unit)
                && ids.entity(unit) is Some
        }),
    decreases evs.len(),
{
    if evs.len() > 0 {
        let part = evs.drop_last();
        let ev = evs.last();
        accumulation_sums_up(part, ids, units, unit);
        law_one_line_per_unit(part, ids, units);
        law_one_line_per_unit(evs, ids, units);
        let acc = after_all(part, ids, units);
        let now = after_all(evs, ids, units);
        assert(evs =~= part.push(ev));
        assert(dies_in(evs, unit) <==> dies_in(part, unit) || ev == (Event::UnitDied { unit })) by {
            if dies_in(part, unit) {
                let k = choose|k: int| 0 <= k < part.len() && part[k] == (Event::UnitDied { unit });
                assert(evs[k] == (Event::UnitDied { unit }));
            }
            if ev == (Event::UnitDied { unit }) {
                assert(evs[evs.len() - 1] == (Event::UnitDied { unit }));
            }
            if dies_in(evs, unit) && ev != (Event::UnitDied { unit }) {
                let k = choose|k: int| 0 <= k < evs.len() && evs[k] == (Event::UnitDied { unit });
                assert(part[k] == (Event::UnitDied { unit }));
            }
        }
        assert(is_spoken_of(evs, unit) <==> is_spoken_of(part, unit) || speaks_of(ev, unit)) by {
            if is_spoken_of(part, unit) {
                let k = choose|k: int| 0 <= k < part.len() && speaks_of(#[trigger] part[k], unit);
                assert(speaks_of(evs[k], unit));
            }
            if speaks_of(ev, unit) {
                assert(speaks_of(evs[evs.len() - 1], unit));
            }
            if is_spoken_of(evs, unit) && !speaks_of(ev, unit) {
                let k = choose|k: int| 0 <= k < evs.len() && speaks_of(#[trigger] evs[k], unit);
                assert(speaks_of(part[k], unit));
            }
        }
        unmentioned_adds_nothing(part, unit);
        if !speaks_of(ev, unit) {
            assert(ev != (Event::UnitDied { unit }));
            others_keep_places(acc, ev, ids, units, unit);
        } else {
            let (_, m) = mark_of(ev)->0;
            match place(acc, unit) {
                Some(k) => {
                    assert(is_place(acc, unit, k));
                    assert(now == acc.update(k, acc[k].after(m)));
                    assert(is_place(now, unit, k));
                },
                None => {
                    if ids.entity(unit) is Some {
                        let n = acc.len() as int;
                        assert(now[n].unit == unit);
                        assert forall|j: int| 0 <= j < n implies (#[trigger] now[j]).unit
                            != unit by {
                            assert(now[j] == acc[j]);
                            if acc[j].unit == unit {
                                first_place_exists(acc, unit, j);
                            }
                        }
                        assert(is_place(now, unit, n));
                    }
                },
            }
        }
    }
}

/// What no event speaks of neither loses nor gains anything, and does not die.
proof fn unmentioned_adds_nothing(evs: Seq<Event>, unit: UnitId)
    ensures
        !is_spoken_of(evs, unit) ==> amount_in(evs, unit) == 0 && !dies_in(evs, unit),
    decreases evs.len(),
{
    if evs.len() > 0 && !is_spoken_of(evs, unit) {
        let part = evs.drop_last();
        assert forall|k: int| 0 <= k < part.len() implies !speaks_of(
            #[trigger] part[k],
            unit,
        ) by {
            assert(!speaks_of(evs[k], unit));
        }
        unmentioned_adds_nothing(part, unit);
        assert(!speaks_of(evs[evs.len() - 1], unit));
        if dies_in(evs, unit) {
            let k = choose|k: int| 0 <= k < evs.len() && evs[k] == (Event::UnitDied { unit });
            assert(speaks_of(evs[k], unit));
        }
    }
}

/// An event leaves what is known of those it does not speak of.
proof fn others_keep_places(
    acc: Seq<AccumModel>,
    ev: Event,
    ids: IdTable,
    units: Seq<Unit>,
    unit: UnitId,
)
    requires
        !speaks_of(ev, unit),
    ensures
        ({
            let now = after(acc, ev, ids, units);
            &&& forall|i: int|
                0 <= i < now.len() && (#[trigger] now[i]).unit == unit ==> i < acc.len() && now[i]
                    == acc[i]
            &&& (exists|i: int| is_place(now, unit, i)) <==> (exists|i: int|
                is_place(acc, unit, i))
        }),
{
    let now = after(acc, ev, ids, units);
    if let Some((u, m)) = mark_of(ev) {
        if let Some(k) = place(acc, u) {
            assert(is_place(acc, u, k));
        }
    }
    assert forall|i: int| 0 <= i < acc.len() implies (#[trigger] now[i]).unit == acc[i].unit by {}
    if exists|i: int| is_place(acc, unit, i) {
        let i = choose|i: int| is_place(acc, unit, i);
        assert(now[i].unit == unit);
        first_place_exists(now, unit, i);
    }
    if exists|i: int| is_place(now, unit, i) {
        let i = choose|i: int| is_place(now, unit, i);
        assert(now[i].unit == unit);
        assert(acc[i].unit == unit);
        first_place_exists(acc, unit, i);
    }
}

/// Whether a forecast shows a unit on its line `i` with all its damage and healing,
/// and as dying if and only if it dies.
pub open spec fn is_line_of(
    f: ActionForecast,
    i: int,
    unit: UnitId,
    evs: Seq<Event>,
    ids: IdTable,
) -> bool {
    &&& 0 <= i < f.entries@.len()
    &&& is_spoken_of(evs, unit)
    &&& ids.entity(unit) == Some(f.entries@[i].entity)
    &&& f.entries@[i].amount == amount_in(evs, unit)
    &&& f.entries@[i].lethal <==> dies_in(evs, unit)
}

/// Whether a forecast shows some unit on its line `i`.
pub open spec fn is_someones_line(
    f: ActionForecast,
    i: int,
    evs: Seq<Event>,
    ids: IdTable,
) -> bool {
    exists|unit: UnitId| is_line_of(f, i, unit, evs, ids)
}

proof fn all_are_shown(acc: Seq<AccumModel>)
    requires
        forall|i: int| 0 <= i < acc.len() ==> is_shown(#[trigger] acc[i]),
    ensures
        shown(acc) == acc,
    decreases acc.len(),
{
    if acc.len() > 0 {
        let part = acc.drop_last();
        assert forall|i: int| 0 <= i < part.len() implies is_shown(#[trigger] part[i]) by {
            assert(is_shown(acc[i]));
        }
        all_are_shown(part);
        assert(is_shown(acc[acc.len() - 1]));
        assert(part.push(acc.last()) =~= acc);
    }
}

/// A forecast shows each unit that has an entity and that events speak of, and no
/// other. The amount shown of it is the sum of its amounts in the events, and it is
/// shown as dying if and only if its death is among them.
pub proof fn law_forecast_sums_up(
    f: ActionForecast,
    evs: Seq<Event>,
    ids: IdTable,
    units: Seq<Unit>,
)
    requires
        is_forecast(f, evs, ids, units),
    ensures
        forall|unit: UnitId|
            #![trigger ids.entity(unit)]
            is_spoken_of(evs, unit) && ids.entity(unit) is Some ==> exists|i: int|
                is_line_of(f, i, unit, evs, ids),
        forall|i: int|
            0 <= i < f.entries@.len() ==> #[trigger] is_someones_line(f, i, evs, ids),
{
    let acc = after_all(evs, ids, units);
    law_one_line_per_unit(evs, ids, units);
    all_are_shown(acc);
    assert forall|unit: UnitId|
        #![trigger ids.entity(unit)]
        is_spoken_of(evs, unit) && ids.entity(unit) is Some implies exists|i: int|
        is_line_of(f, i, unit, evs, ids) by {
        accumulation_sums_up(evs, ids, units, unit);
        let i = choose|i: int| is_place(acc, unit, i);
        assert(acc[i].unit == unit);
        assert(is_entry(f.entries@[i], acc[i]));
        assert(is_line_of(f, i, unit, evs, ids));
    }
    assert forall|i: int| 0 <= i < f.entries@.len() implies #[trigger] is_someones_line(
        f,
        i,
        evs,
        ids,
    ) by {
        accumulation_sums_up(evs, ids, units, acc[i].unit);
        assert(is_entry(f.entries@[i], acc[i]));
        assert(is_line_of(f, i, acc[i].unit, evs, ids));
    }
}

/// Previewed damage of a unit with hit points leaves between zero and all of
/// them; previewed healing of one that is not over its maximum leaves no less
/// and no more than the maximum.
pub proof fn law_hp_after_in_bounds(e: ForecastEntry, a: AccumModel)
    requires
        is_entry(e, a),
        a.amount >= 0,
        0 <= a.hp_before <= a.max_hp,
    ensures
        0 <= e.hp_after <= a.max_hp,
        e.kind is Damage ==> e.hp_after <= a.hp_before,
        e.kind is Heal ==> e.hp_after >= a.hp_before,
{
}

/// The points that an event takes from a unit or gives it.
pub open spec fn points_of(ev: Event, unit: UnitId) -> int {
    match ev {
        Event::UnitDamaged { target, amount, .. } => if target == unit {
            amount as int
        } else {
            0
        },
        Event::DotDamaged { target, amount, .. } => if target == unit {
            amount as int
        } else {
            0
        },
        Event::UnitHealed { target, amount } => if target == unit {
            amount as int
        } else {
            0
        },
        _ => 0,
    }
}

/// The points that some events take from a unit or give it.
pub open spec fn points_in(evs: Seq<Event>, unit: UnitId) -> int
    decreases evs.len(),
{
    if evs.len() == 0 {
        0
    } else {
        points_in(evs.drop_last(), unit) + points_of(evs.last(), unit)
    }
}

/// Whether the last of some events that changes the hit points of a unit heals it;
/// `None` where none changes them.
pub open spec fn heals_last(evs: Seq<Event>, unit: UnitId) -> Option<bool>
    decreases evs.len(),
{
    if evs.len() == 0 {
        None
    } else {
        let before = heals_last(evs.drop_last(), unit);
        match evs.last() {
            Event::UnitDamaged { target, .. } => if target == unit {
                Some(false)
            } else {
                before
            },
            Event::DotDamaged { target, .. } => if target == unit {
                Some(false)
            } else {
                before
            },
            Event::UnitHealed { target, .. } => if target == unit {
                Some(true)
            } else {
                before
            },
            _ => before,
        }
    }
}

/// The statuses that some events put on a unit, in order.
pub open spec fn statuses_in(evs: Seq<Event>, unit: UnitId) -> Seq<String>
    decreases evs.len(),
{
    if evs.len() == 0 {
        Seq::empty()
    } else {
        let before = statuses_in(evs.drop_last(), unit);
        match evs.last() {
            Event::StatusApplied { target, status } => if target == unit {
                before.push(status)
            } else {
                before
            },
            _ => before,
        }
    }
}

proof fn accumulation_is_faithful(evs: Seq<Event>, ids: IdTable, units: Seq<Unit>, i: int)
    requires
        0 <= i < after_all(evs, ids, units).len(),
    ensures
        ({
            let a = after_all(evs, ids, units)[i];
            &&& a.amount == points_in(evs, a.unit)
            &&& a.statuses == statuses_in(evs, a.unit)
            &&& heals_last(evs, a.unit) == (match a.kind {
                Some(ForecastKind::Heal) => Some(true),
                Some(ForecastKind::Damage) => Some(false),
                None => None,
            })
            &&& a.hp_before == hp_of(units, a.unit).0
            &&& a.max_hp == hp_of(units, a.unit).1
        }),
    decreases evs.len(),
{
    let part = evs.drop_last();
    let ev = evs.last();
    let acc = after_all(part, ids, units);
    let now = after_all(evs, ids, units);
    law_one_line_per_unit(part, ids, units);
    if i < acc.len() {
        accumulation_is_faithful(part, ids, units, i);
        if let Some((u, m)) = mark_of(ev) {
            if let Some(k) = place(acc, u) {
                assert(is_place(acc, u, k));
                assert(acc[k].unit == u);
                if k != i {
                    assert(acc[i].unit != u);
                }
            } else {
                if acc[i].unit == u {
                    first_place_exists(acc, u, i);
                }
            }
        }
    } else {
        let u = now[i].unit;
        accumulation_sums_up(part, ids, units, u);
        unmentioned_does_not_change(part, u);
        assert(!is_spoken_of(part, u));
    }
}

proof fn unmentioned_does_not_change(evs: Seq<Event>, unit: UnitId)
    ensures
        !is_spoken_of(evs, unit) ==> points_in(evs, unit) == 0 && heals_last(evs, unit) is None
            && statuses_in(evs, unit).len() == 0,
    decreases evs.len(),
{
    if evs.len() > 0 && !is_spoken_of(evs, unit) {
        let part = evs.drop_last();
        assert forall|k: int| 0 <= k < part.len() implies !speaks_of(
            #[trigger] part[k],
            unit,
        ) by {
            assert(!speaks_of(evs[k], unit));
        }
        unmentioned_does_not_change(part, unit);
        assert(!speaks_of(evs[evs.len() - 1], unit));
    }
}

proof fn first_unit_exists(units: Seq<Unit>, unit: UnitId, j: int)
    requires
        0 <= j < units.len(),
        units[j].id == unit,
    ensures
        exists|k: int| is_first_unit(units, unit, k),
    decreases j,
{
    if forall|k: int| 0 <= k < j ==> (#[trigger] units[k]).id != unit {
        assert(is_first_unit(units, unit, j));
    } else {
        let k = choose|k: int| 0 <= k < j && (#[trigger] units[k]).id == unit;
        first_unit_exists(units, unit, k);
    }
}

/// Whether a line previews what some events do to a unit that has `hp` hit points of
/// at most `max_hp`.
pub open spec fn previews(
    e: ForecastEntry,
    evs: Seq<Event>,
    unit: UnitId,
    hp: int,
    max_hp: int,
) -> bool {
    let points = points_in(evs, unit);
    &&& e.hp_before == hp
    &&& e.amount == points
    &&& e.statuses@ == statuses_in(evs, unit)
    &&& e.kind is Heal <==> heals_last(evs, unit) == Some(true)
    &&& e.kind is Heal && hp + points <= max_hp ==> e.hp_after - e.hp_before == points
    &&& e.kind is Heal && hp + points > max_hp ==> e.hp_after == max_hp
    &&& e.kind is Damage && points <= hp ==> e.hp_before - e.hp_after == points
    &&& e.kind is Damage && points > hp ==> e.hp_after == 0
}

/// Whether a line previews what some events do to the unit of its entity.
pub open spec fn previews_its_unit(
    e: ForecastEntry,
    evs: Seq<Event>,
    ids: IdTable,
    units: Seq<Unit>,
) -> bool {
    exists|unit: UnitId|
        ids.entity(unit) == Some(e.entity) && #[trigger] previews_unit(e, evs, unit, units)
}

/// Whether a line previews what some events do to a unit of some state. A unit that is
/// not there has no hit points.
pub open spec fn previews_unit(
    e: ForecastEntry,
    evs: Seq<Event>,
    unit: UnitId,
    units: Seq<Unit>,
) -> bool {
    &&& forall|k: int|
        is_first_unit(units, unit, k) && (#[trigger] units[k]).pools.hp is Some ==> previews(
            e,
            evs,
            unit,
            units[k].pools.hp->0.current as int,
            units[k].pools.hp->0.max as int,
        )
    &&& (forall|k: int|
        is_first_unit(units, unit, k) ==> (#[trigger] units[k]).pools.hp is None) ==> previews(
        e,
        evs,
        unit,
        0,
        0,
    )
}

/// A line of healing with an amount that fits below the maximum of its unit shows that
/// much more hit points after than before, and the maximum only where the healing
/// reaches it. A line of damage shows that many fewer, but never fewer than none. Each
/// line begins with the hit points that its unit has, is of the kind of the last event
/// that changes them, and lists every status in order.
pub proof fn law_forecast_shows_hit_points(
    f: ActionForecast,
    evs: Seq<Event>,
    ids: IdTable,
    units: Seq<Unit>,
    i: int,
)
    requires
        is_forecast(f, evs, ids, units),
        0 <= i < f.entries@.len(),
    ensures
        previews_its_unit(f.entries@[i], evs, ids, units),
{
    let acc = after_all(evs, ids, units);
    law_one_line_per_unit(evs, ids, units);
    all_are_shown(acc);
    accumulation_is_faithful(evs, ids, units, i);
    let e = f.entries@[i];
    let unit = acc[i].unit;
    assert(is_entry(e, acc[i]));
    let (hp, max_hp) = hp_of(units, unit);
    assert(previews(e, evs, unit, hp as int, max_hp as int));
    assert forall|k: int| is_first_unit(units, unit, k) implies find_unit(units, unit) == Some(
        #[trigger] units[k],
    ) by {
        law_first_unit_is_found(units, unit, k);
    }
    law_unit_is_found_by_its_id(units, unit);
    if forall|k: int| is_first_unit(units, unit, k) ==> (#[trigger] units[k]).pools.hp is None {
        if find_unit(units, unit) is Some {
            let j = choose|j: int| 0 <= j < units.len() && units[j] == find_unit(units, unit)->0;
            first_unit_exists(units, unit, j);
            let k = choose|k: int| is_first_unit(units, unit, k);
            assert(units[k].pools.hp is None);
        }
        assert(hp == 0 && max_hp == 0);
    }
    assert(previews_unit(e, evs, unit, units));
    assert(ids.entity(unit) == Some(e.entity));
}

/// The forecast warns of a critical failure, one in twenty, exactly where it has a line.
pub proof fn law_forecast_warns(
    f: ActionForecast,
    evs: Seq<Event>,
    ids: IdTable,
    units: Seq<Unit>,
)
    requires
        is_forecast(f, evs, ids, units),
    ensures
        f.entries@.len() > 0 ==> f.crit_fail_pct * 20 == 100,
        f.entries@.len() == 0 ==> f.crit_fail_pct == 0,
{
}

/// A cast is previewed for the selected actor with the selected ability on the hovered cell, at
/// somebody who stands there. One is previewed whenever all of these are there and have units.
pub proof fn law_what_is_previewed(
    r: Option<Action>,
    sel: Selection,
    cells: Map<Entity, Hex>,
    ids: IdTable,
)
    requires
        is_previewed(r, sel, cells, ids),
    ensures
        r matches Some(a) ==> a is Cast && sel.ability == Some(a->ability) && sel.hovered == Some(
            a->target_pos,
        ) && sel.actor is Some && ids.id(sel.actor->0) == Some(a->Cast_actor),
        r matches Some(a) ==> exists|e: Entity| #[trigger]
            cells.contains_key(e) && cells[e] == sel.hovered->0 && ids.id(e) == Some(a->target),
        sel.actor is Some && sel.ability is Some && sel.hovered is Some && ids.id(sel.actor->0)
            is Some && (exists|e: Entity| #[trigger]
            cells.contains_key(e) && cells[e] == sel.hovered->0) && (forall|e: Entity| #[trigger]
            cells.contains_key(e) && cells[e] == sel.hovered->0 ==> ids.id(e) is Some) ==> r is Some,
{
}

} // verus!
