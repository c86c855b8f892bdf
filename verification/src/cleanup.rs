//! The end of a turn: what was dealt is applied, statuses run out, and the turn
//! goes to the next living combatant.

use crate::bootstrap::EcsStatus;
use crate::content::ContentView;
use crate::effects::{
    after_damages, after_rage, apply_damages, apply_rage, copy_status, find_status,
    find_vital, heal_fits, heal_vital, healed, status_models, status_place,
    vital_place, DamageMsg, HealMsg, StatusModel, StatusMsg, StatusRow, VitalRow,
};
use crate::events::CombatEvent;
use crate::ids::Entity;
use crate::movement::RageRow;
use crate::state::Team;
use crate::text::same_text;
use crate::translate::opt_seq;
use vstd::prelude::*;

verus! {

/// Mana of a combatant.
#[derive(Clone, Copy, PartialEq, Eq, Structural, Debug)]
pub struct ManaRow {
    pub entity: Entity,
    pub current: i32,
    pub max: i32,
}

/// Whether a combatant may still act.
#[derive(Clone, Copy, PartialEq, Eq, Structural, Debug)]
pub struct ActionRow {
    pub entity: Entity,
    pub action: bool,
}

/// Where combat goes after a turn, where it does not go on by itself.
#[derive(Clone, Copy, PartialEq, Eq, Structural, Debug)]
pub enum NextPhase {
    Victory,
    Defeat,
    StartRound,
}

/// What the end of a turn changes.
#[derive(Debug)]
pub struct TurnWorld {
    pub statuses: Vec<StatusRow>,
    pub mana: Vec<ManaRow>,
    pub actions: Vec<ActionRow>,
    /// Who acts when.
    pub order: Vec<Entity>,
    /// Whose turn it is, as a place in the order.
    pub index: usize,
    pub active: Option<Entity>,
    pub next_phase: Option<NextPhase>,
    pub log: Vec<CombatEvent>,
}

/// What the end of a turn changes, as sequences.
#[verifier::ext_equal]
pub struct TurnModel {
    pub statuses: Seq<StatusModel>,
    pub mana: Seq<ManaRow>,
    pub actions: Seq<ActionRow>,
    pub order: Seq<Entity>,
    pub index: usize,
    pub active: Option<Entity>,
    pub next_phase: Option<NextPhase>,
    pub log: Seq<CombatEvent>,
}

impl View for TurnWorld {
    type V = TurnModel;

    open spec fn view(&self) -> TurnModel {
        TurnModel {
            statuses: status_models(self.statuses@),
            mana: self.mana@,
            actions: self.actions@,
            order: self.order@,
            index: self.index,
            active: self.active,
            next_phase: self.next_phase,
            log: self.log@,
        }
    }
}

impl TurnModel {
    /// The turn is somebody's, or there is nobody.
    pub open spec fn wf(self) -> bool {
        self.index < self.order.len() || (self.order.len() == 0 && self.index == 0)
    }
}

// ---------------------------------------------------------------------------
// Durations
// ---------------------------------------------------------------------------

/// Whether an actor applied a status.
pub open spec fn is_from(s: EcsStatus, actor: Entity) -> bool {
    s.applier == Some(actor)
}

/// Rounds that are left of a status after a turn of an actor: one less where the
/// actor applied it.
pub open spec fn rounds_after(s: EcsStatus, actor: Entity) -> u32 {
    if is_from(s, actor) && s.rounds_remaining > 0 {
        (s.rounds_remaining - 1) as u32
    } else {
        s.rounds_remaining
    }
}

/// Whether a status runs out with a turn of an actor.
pub open spec fn runs_out(s: EcsStatus, actor: Entity) -> bool {
    is_from(s, actor) && rounds_after(s, actor) == 0
}

/// Statuses after a turn of an actor, in order.
pub open spec fn ticked(statuses: Seq<EcsStatus>, actor: Entity) -> Seq<EcsStatus>
    decreases statuses.len(),
{
    if statuses.len() == 0 {
        Seq::empty()
    } else {
        let rest = ticked(statuses.drop_last(), actor);
        let s = statuses.last();
        if runs_out(s, actor) {
            rest
        } else {
            rest.push(EcsStatus { rounds_remaining: rounds_after(s, actor), ..s })
        }
    }
}

/// Names of the statuses that run out with a turn of an actor, in order.
pub open spec fn expired(statuses: Seq<EcsStatus>, actor: Entity) -> Seq<String>
    decreases statuses.len(),
{
    if statuses.len() == 0 {
        Seq::empty()
    } else {
        let rest = expired(statuses.drop_last(), actor);
        if runs_out(statuses.last(), actor) {
            rest.push(statuses.last().id)
        } else {
            rest
        }
    }
}

/// Everybody's statuses after a turn of an actor.
pub open spec fn ticked_rows(rows: Seq<StatusModel>, actor: Entity) -> Seq<StatusModel> {
    Seq::new(
        rows.len(),
        |i: int| StatusModel { entity: rows[i].entity, statuses: ticked(rows[i].statuses, actor) },
    )
}

/// Log lines of statuses of one combatant that ran out.
pub open spec fn expiry_lines(target: Entity, ids: Seq<String>) -> Seq<CombatEvent> {
    Seq::new(ids.len(), |i: int| CombatEvent::StatusExpired { target, status: ids[i] })
}

/// Log lines of all statuses that run out with a turn of an actor.
pub open spec fn all_expiry_lines(rows: Seq<StatusModel>, actor: Entity) -> Seq<CombatEvent>
    decreases rows.len(),
{
    if rows.len() == 0 {
        Seq::empty()
    } else {
        all_expiry_lines(rows.drop_last(), actor) + expiry_lines(
            rows.last().entity,
            expired(rows.last().statuses, actor),
        )
    }
}

fn tick_list(
    target: Entity,
    statuses: &Vec<EcsStatus>,
    actor: Entity,
    log: &mut Vec<CombatEvent>,
) -> (kept: Vec<EcsStatus>)
    ensures
        kept@ == ticked(statuses@, actor),
        final(log)@ == old(log)@ + expiry_lines(target, expired(statuses@, actor)),
{
    let mut kept: Vec<EcsStatus> = Vec::new();
    let ghost lines = log@;
    let mut i: usize = 0;
    assert(statuses@.take(0) =~= Seq::empty());
    assert(log@ =~= lines + expiry_lines(target, Seq::empty()));
    while i < statuses.len()
        invariant
            i <= statuses.len(),
            kept@ == ticked(statuses@.take(i as int), actor),
            log@ == lines + expiry_lines(target, expired(statuses@.take(i as int), actor)),
        decreases statuses.len() - i,
    {
        let ghost before = expired(statuses@.take(i as int), actor);
        assert(statuses@.take(i + 1).drop_last() =~= statuses@.take(i as int));
        let mut s = copy_status(&statuses[i]);
        let from_actor = match s.applier {
            Some(applier) => applier == actor,
            None => false,
        };
        if from_actor && s.rounds_remaining > 0 {
            s.rounds_remaining = s.rounds_remaining - 1;
        }
        if from_actor && s.rounds_remaining == 0 {
            assert(lines + expiry_lines(target, before.push(s.id)) =~= (lines + expiry_lines(
                target,
                before,
            )).push(CombatEvent::StatusExpired { target, status: s.id }));
            log.push(CombatEvent::StatusExpired { target, status: s.id });
        } else {
            kept.push(s);
        }
        i = i + 1;
    }
    assert(statuses@.take(i as int) =~= statuses@);
    kept
}

/// One turn of an actor passes for all statuses that the actor applied, on
/// whomever. Those that run out are removed and logged.
pub fn tick_status_durations(
    actor: Entity,
    rows: &mut Vec<StatusRow>,
    log: &mut Vec<CombatEvent>,
)
    ensures
        status_models(final(rows)@) == ticked_rows(status_models(old(rows)@), actor),
        final(log)@ == old(log)@ + all_expiry_lines(status_models(old(rows)@), actor),
{
    let ghost m = status_models(rows@);
    let ghost lines = log@;
    let mut i: usize = 0;
    assert(m.take(0) =~= Seq::empty());
    assert(log@ =~= lines + Seq::<CombatEvent>::empty());
    while i < rows.len()
        invariant
            i <= rows.len(),
            rows@.len() == m.len(),
            forall|j: int| 0 <= j < i ==> (#[trigger] rows@[j])@ == ticked_rows(m, actor)[j],
            forall|j: int| i <= j < m.len() ==> (#[trigger] rows@[j])@ == m[j],
            log@ == lines + all_expiry_lines(m.take(i as int), actor),
        decreases rows.len() - i,
    {
        assert(m.take(i + 1).drop_last() =~= m.take(i as int));
        assert(rows@[i as int]@ == m[i as int]);
        let ghost so_far = all_expiry_lines(m.take(i as int), actor);
        let target = rows[i].entity;
        let kept = tick_list(target, &rows[i].statuses, actor, log);
        assert(log@ =~= lines + all_expiry_lines(m.take(i + 1), actor));
        rows[i].statuses = kept;
        i = i + 1;
    }
    assert(m.take(i as int) =~= m);
    assert(status_models(rows@) =~= ticked_rows(m, actor)) by {
        assert forall|j: int| 0 <= j < m.len() implies status_models(rows@)[j] == ticked_rows(
            m,
            actor,
        )[j] by {
            assert(rows@[j]@ == ticked_rows(m, actor)[j]);
        }
    }
}

// ---------------------------------------------------------------------------
// Mana
// ---------------------------------------------------------------------------

/// Whether `i` is the place of the first mana row of an entity.
pub open spec fn is_first_mana(rows: Seq<ManaRow>, entity: Entity, i: int) -> bool {
    &&& 0 <= i < rows.len()
    &&& rows[i].entity == entity
    &&& forall|j: int| 0 <= j < i ==> (#[trigger] rows[j]).entity != entity
}

/// Mana after a turn of an actor: one point more, up to the maximum.
pub open spec fn mana_after(rows: Seq<ManaRow>, actor: Entity) -> Seq<ManaRow> {
    if exists|i: int| is_first_mana(rows, actor, i) {
        let i = choose|i: int| is_first_mana(rows, actor, i);
        if rows[i].current < rows[i].max {
            rows.update(i, ManaRow { current: (rows[i].current + 1) as i32, ..rows[i] })
        } else {
            rows
        }
    } else {
        rows
    }
}

/// The log line of regained mana.
pub open spec fn mana_line(rows: Seq<ManaRow>, actor: Entity) -> Option<CombatEvent> {
    if exists|i: int| is_first_mana(rows, actor, i) {
        let i = choose|i: int| is_first_mana(rows, actor, i);
        if rows[i].current < rows[i].max {
            Some(
                CombatEvent::ManaChanged {
                    actor,
                    current: (rows[i].current + 1) as i32,
                    max: rows[i].max,
                },
            )
        } else {
            None
        }
    } else {
        None
    }
}

/// Gives an actor the mana that a turn restores.
pub fn regain_mana(actor: Entity, rows: &mut Vec<ManaRow>, log: &mut Vec<CombatEvent>)
    ensures
        final(rows)@ == mana_after(old(rows)@, actor),
        final(log)@ == old(log)@ + opt_seq(mana_line(old(rows)@, actor)),
{
    let ghost before = rows@;
    let ghost lines = log@;
    let mut i: usize = 0;
    while i < rows.len()
        invariant
            i <= rows.len(),
            rows@ == before,
            before == old(rows)@,
            log@ == lines,
            lines == old(log)@,
            forall|j: int| 0 <= j < i ==> (#[trigger] before[j]).entity != actor,
        decreases rows.len() - i,
    {
        if rows[i].entity == actor {
            proof {
                assert(is_first_mana(before, actor, i as int));
                let k = choose|k: int| is_first_mana(before, actor, k);
                assert(is_first_mana(before, actor, k));
                if k < i {
                    assert(before[k].entity != actor);
                }
                if i < k {
                    assert(before[i as int].entity != actor);
                }
            }
            let row = rows[i];
            if row.current < row.max {
                let current: i32 = row.current + 1;
                rows.set(i, ManaRow { entity: row.entity, current, max: row.max });
                log.push(CombatEvent::ManaChanged { actor, current, max: row.max });
                assert(log@ =~= lines + opt_seq(mana_line(before, actor)));
            } else {
                assert(log@ =~= lines + opt_seq(mana_line(before, actor)));
            }
            return ;
        }
        i = i + 1;
    }
    proof {
        assert forall|k: int| !is_first_mana(before, actor, k) by {
            if 0 <= k < before.len() {
                assert(before[k].entity != actor);
            }
        }
        assert(log@ =~= lines + opt_seq(mana_line(before, actor)));
    }
}

// ---------------------------------------------------------------------------
// Turn order
// ---------------------------------------------------------------------------

/// Whether a team has somebody alive.
pub open spec fn stands(vitals: Seq<VitalRow>, team: Team) -> bool {
    exists|i: int| 0 <= i < vitals.len() && (#[trigger] vitals[i]).hp > 0 && vitals[i].team == team
}

/// Whether a team has somebody alive.
pub fn team_stands(vitals: &Vec<VitalRow>, team: Team) -> (r: bool)
    ensures
        r == stands(vitals@, team),
{
    let mut i: usize = 0;
    while i < vitals.len()
        invariant
            i <= vitals.len(),
            forall|j: int|
                0 <= j < i ==> !((#[trigger] vitals@[j]).hp > 0 && vitals@[j].team == team),
        decreases vitals.len() - i,
    {
        if vitals[i].hp > 0 && vitals[i].team == team {
            return true;
        }
        i = i + 1;
    }
    false
}

/// Whether an entity has vitals and a hit point left.
pub open spec fn lives(vitals: Seq<VitalRow>, entity: Entity) -> bool {
    match vital_place(vitals, entity) {
        Some(i) => vitals[i].hp > 0,
        None => false,
    }
}

fn is_living(vitals: &Vec<VitalRow>, entity: Entity) -> (r: bool)
    ensures
        r == lives(vitals@, entity),
{
    match find_vital(vitals, entity) {
        Some(i) => vitals[i].hp > 0,
        None => false,
    }
}

/// The place that follows another in the order, round and round.
pub open spec fn follower(i: int, len: int) -> int {
    if i + 1 >= len {
        0
    } else {
        i + 1
    }
}

/// The first place from `at` on, round and round, whose combatant lives; `start`
/// where the search comes back to it.
pub open spec fn search(
    order: Seq<Entity>,
    vitals: Seq<VitalRow>,
    start: int,
    at: int,
    steps: nat,
) -> int
    decreases steps,
{
    if steps == 0 || at == start || lives(vitals, order[at]) {
        at
    } else {
        search(order, vitals, start, follower(at, order.len() as int), (steps - 1) as nat)
    }
}

/// Whose turn is next, as a place in the order.
pub open spec fn next_turn(order: Seq<Entity>, vitals: Seq<VitalRow>, start: int) -> int {
    if order.len() == 0 {
        start
    } else {
        search(order, vitals, start, follower(start, order.len() as int), order.len())
    }
}

/// Steps that are left until the search is back at its start.
pub open spec fn way_back(start: int, at: int, len: int) -> int {
    if at <= start {
        start - at
    } else {
        start + len - at
    }
}

/// Whose turn is next: the first living combatant after the present one.
pub fn advance_turn(order: &Vec<Entity>, vitals: &Vec<VitalRow>, start: usize) -> (r: usize)
    requires
        start < order@.len() || (order@.len() == 0 && start == 0),
    ensures
        r == next_turn(order@, vitals@, start as int),
        order@.len() > 0 ==> r < order@.len(),
{
    if order.len() == 0 {
        return start;
    }
    let ghost len = order@.len() as int;
    let mut at: usize = if start >= order.len() - 1 {
        0
    } else {
        start + 1
    };
    let ghost mut steps: nat = order@.len();
    while at != start && !is_living(vitals, order[at])
        invariant
            start < order@.len(),
            at < order@.len(),
            len == order@.len(),
            steps > way_back(start as int, at as int, len) || at == start,
            next_turn(order@, vitals@, start as int) == search(
                order@,
                vitals@,
                start as int,
                at as int,
                steps,
            ),
        decreases way_back(start as int, at as int, len),
    {
        at = if at >= order.len() - 1 {
            0
        } else {
            at + 1
        };
        proof {
            steps = (steps - 1) as nat;
        }
    }
    at
}

/// Whether `i` is the place of the first action row of an entity.
pub open spec fn is_first_action(rows: Seq<ActionRow>, entity: Entity, i: int) -> bool {
    &&& 0 <= i < rows.len()
    &&& rows[i].entity == entity
    &&& forall|j: int| 0 <= j < i ==> (#[trigger] rows[j]).entity != entity
}

/// Actions with that of an actor given back.
pub open spec fn action_given(rows: Seq<ActionRow>, actor: Entity) -> Seq<ActionRow> {
    if exists|i: int| is_first_action(rows, actor, i) {
        let i = choose|i: int| is_first_action(rows, actor, i);
        rows.update(i, ActionRow { action: true, ..rows[i] })
    } else {
        rows
    }
}

fn give_action(rows: &mut Vec<ActionRow>, actor: Entity)
    ensures
        final(rows)@ == action_given(old(rows)@, actor),
{
    let ghost before = rows@;
    let mut i: usize = 0;
    while i < rows.len()
        invariant
            i <= rows.len(),
            rows@ == before,
            before == old(rows)@,
            forall|j: int| 0 <= j < i ==> (#[trigger] before[j]).entity != actor,
        decreases rows.len() - i,
    {
        if rows[i].entity == actor {
            proof {
                assert(is_first_action(before, actor, i as int));
                let k = choose|k: int| is_first_action(before, actor, k);
                assert(is_first_action(before, actor, k));
                if k < i {
                    assert(before[k].entity != actor);
                }
                if i < k {
                    assert(before[i as int].entity != actor);
                }
            }
            let row = rows[i];
            rows.set(i, ActionRow { entity: row.entity, action: true });
            return ;
        }
        i = i + 1;
    }
    proof {
        assert forall|k: int| !is_first_action(before, actor, k) by {
            if 0 <= k < before.len() {
                assert(before[k].entity != actor);
            }
        }
    }
}

/// Whether combat is decided.
pub open spec fn decided(vitals: Seq<VitalRow>) -> bool {
    !stands(vitals, Team::Enemy) || !stands(vitals, Team::Player)
}

/// After an actor's turn has ended. Statuses run down and mana comes back; then
/// combat is won, lost, goes to the next round, or to the next living combatant.
/// Where both teams have fallen it is won.
pub open spec fn after_turn(m: TurnModel, vitals: Seq<VitalRow>, actor: Entity) -> TurnModel {
    let settled = TurnModel {
        statuses: ticked_rows(m.statuses, actor),
        mana: mana_after(m.mana, actor),
        log: m.log.push(CombatEvent::TurnDone { actor }) + all_expiry_lines(m.statuses, actor)
            + opt_seq(mana_line(m.mana, actor)),
        ..m
    };
    if !stands(vitals, Team::Enemy) {
        TurnModel {
            next_phase: Some(NextPhase::Victory),
            log: settled.log.push(CombatEvent::CombatEnded { victory: true }),
            ..settled
        }
    } else if !stands(vitals, Team::Player) {
        TurnModel {
            next_phase: Some(NextPhase::Defeat),
            log: settled.log.push(CombatEvent::CombatEnded { victory: false }),
            ..settled
        }
    } else {
        let index = next_turn(m.order, vitals, m.index as int) as usize;
        if index == 0 {
            TurnModel { index, next_phase: Some(NextPhase::StartRound), ..settled }
        } else {
            let next = m.order[index as int];
            TurnModel {
                index,
                actions: action_given(m.actions, next),
                active: Some(next),
                log: settled.log.push(CombatEvent::TurnStarted { actor: next }),
                ..settled
            }
        }
    }
}

/// Ends an actor's turn. The result says whether combat is decided.
pub fn end_turn(actor: Entity, vitals: &Vec<VitalRow>, world: &mut TurnWorld) -> (done: bool)
    requires
        old(world)@.wf(),
    ensures
        final(world)@ == after_turn(old(world)@, vitals@, actor),
        final(world)@.wf(),
        done == decided(vitals@),
{
    let ghost m = world@;
    world.log.push(CombatEvent::TurnDone { actor });
    tick_status_durations(actor, &mut world.statuses, &mut world.log);
    regain_mana(actor, &mut world.mana, &mut world.log);
    if !team_stands(vitals, Team::Enemy) {
        world.log.push(CombatEvent::CombatEnded { victory: true });
        world.next_phase = Some(NextPhase::Victory);
        assert(world@ =~= after_turn(m, vitals@, actor));
        return true;
    }
    if !team_stands(vitals, Team::Player) {
        world.log.push(CombatEvent::CombatEnded { victory: false });
        world.next_phase = Some(NextPhase::Defeat);
        assert(world@ =~= after_turn(m, vitals@, actor));
        return true;
    }
    let index = advance_turn(&world.order, vitals, world.index);
    world.index = index;
    if index == 0 {
        world.next_phase = Some(NextPhase::StartRound);
    } else {
        let next = world.order[index];
        give_action(&mut world.actions, next);
        world.active = Some(next);
        world.log.push(CombatEvent::TurnStarted { actor: next });
    }
    assert(world@ =~= after_turn(m, vitals@, actor));
    false
}

/// After turns have ended one after the other, up to the one that decides combat.
pub open spec fn after_turns(
    m: TurnModel,
    vitals: Seq<VitalRow>,
    actors: Seq<Entity>,
) -> TurnModel
    decreases actors.len(),
{
    if actors.len() == 0 {
        m
    } else {
        let next = after_turn(m, vitals, actors.first());
        if decided(vitals) {
            next
        } else {
            after_turns(next, vitals, actors.drop_first())
        }
    }
}

/// Ends turns one after the other, up to the one that decides combat.
pub fn end_turns(actors: &Vec<Entity>, vitals: &Vec<VitalRow>, world: &mut TurnWorld)
    requires
        old(world)@.wf(),
    ensures
        final(world)@ == after_turns(old(world)@, vitals@, actors@),
        final(world)@.wf(),
{
    let ghost m = world@;
    let mut i: usize = 0;
    assert(actors@.skip(0) =~= actors@);
    while i < actors.len()
        invariant
            i <= actors.len(),
            m == old(world)@,
            world@.wf(),
            after_turns(m, vitals@, actors@) == after_turns(
                world@,
                vitals@,
                actors@.skip(i as int),
            ),
        decreases actors.len() - i,
    {
        assert(actors@.skip(i as int).drop_first() =~= actors@.skip(i + 1));
        let done = end_turn(actors[i], vitals, world);
        if done {
            return ;
        }
        i = i + 1;
    }
}

// ---------------------------------------------------------------------------
// Healing and statuses
// ---------------------------------------------------------------------------

/// Vitals and log after the first `n` healings, which leave statuses alone.
pub open spec fn after_plain_heals(
    vitals: Seq<VitalRow>,
    log: Seq<CombatEvent>,
    msgs: Seq<HealMsg>,
    n: nat,
) -> (Seq<VitalRow>, Seq<CombatEvent>)
    decreases n,
{
    if n == 0 {
        (vitals, log)
    } else {
        let (v, l) = after_plain_heals(vitals, log, msgs, (n - 1) as nat);
        let msg = msgs[n - 1];
        match vital_place(v, msg.target) {
            Some(i) => (
                v.update(i, healed(v[i], msg.amount as int)),
                l.push(
                    CombatEvent::HealRolled {
                        target: msg.target,
                        formula: msg.breakdown,
                        amount: (healed(v[i], msg.amount as int).hp - v[i].hp) as i32,
                    },
                ),
            ),
            None => (v, l),
        }
    }
}

/// Whether no number of the healings leaves 32 bits.
pub open spec fn plain_heals_fit(
    vitals: Seq<VitalRow>,
    log: Seq<CombatEvent>,
    msgs: Seq<HealMsg>,
) -> bool {
    forall|n: nat|
        n < msgs.len() ==> {
            let now = (#[trigger] after_plain_heals(vitals, log, msgs, n)).0;
            match vital_place(now, msgs[n as int].target) {
                Some(i) => heal_fits(now[i], msgs[n as int].amount as int),
                None => true,
            }
        }
}

/// Applies healings to hit points alone.
pub fn apply_plain_heals(
    msgs: &Vec<HealMsg>,
    vitals: &mut Vec<VitalRow>,
    log: &mut Vec<CombatEvent>,
)
    requires
        plain_heals_fit(old(vitals)@, old(log)@, msgs@),
    ensures
        (final(vitals)@, final(log)@) == after_plain_heals(
            old(vitals)@,
            old(log)@,
            msgs@,
            msgs@.len(),
        ),
{
    let mut n: usize = 0;
    while n < msgs.len()
        invariant
            n <= msgs.len(),
            plain_heals_fit(old(vitals)@, old(log)@, msgs@),
            (vitals@, log@) == after_plain_heals(old(vitals)@, old(log)@, msgs@, n as nat),
        decreases msgs.len() - n,
    {
        let msg = &msgs[n];
        if let Some(i) = find_vital(vitals, msg.target) {
            let (row, gained) = heal_vital(vitals[i], msg.amount);
            vitals.set(i, row);
            log.push(
                CombatEvent::HealRolled {
                    target: msg.target,
                    formula: msg.breakdown.clone(),
                    amount: gained,
                },
            );
        }
        n = n + 1;
    }
}

/// Statuses without those of a name.
pub open spec fn without(statuses: Seq<EcsStatus>, id: Seq<char>) -> Seq<EcsStatus>
    decreases statuses.len(),
{
    if statuses.len() == 0 {
        Seq::empty()
    } else if statuses.last().id@ == id {
        without(statuses.drop_last(), id)
    } else {
        without(statuses.drop_last(), id).push(statuses.last())
    }
}

/// The status that a message puts on its target. One round is added: the end of
/// the applier's present turn takes it off again.
pub open spec fn status_of(msg: StatusMsg) -> EcsStatus {
    EcsStatus {
        id: msg.status,
        rounds_remaining: (msg.duration_rounds + 1) as u32,
        dot_per_tick: 0,
        applier: Some(msg.source),
    }
}

/// Statuses after the first `n` messages. A status replaces one of its name.
pub open spec fn after_statuses(
    rows: Seq<StatusModel>,
    msgs: Seq<StatusMsg>,
    n: nat,
) -> Seq<StatusModel>
    decreases n,
{
    if n == 0 {
        rows
    } else {
        let r = after_statuses(rows, msgs, (n - 1) as nat);
        let msg = msgs[n - 1];
        match status_place(r, msg.target) {
            Some(k) => r.update(
                k,
                StatusModel {
                    entity: r[k].entity,
                    statuses: without(r[k].statuses, msg.status@).push(status_of(msg)),
                },
            ),
            None => r,
        }
    }
}

fn drop_named(statuses: &Vec<EcsStatus>, id: &String) -> (kept: Vec<EcsStatus>)
    ensures
        kept@ == without(statuses@, id@),
{
    let mut kept: Vec<EcsStatus> = Vec::new();
    let mut i: usize = 0;
    assert(statuses@.take(0) =~= Seq::empty());
    while i < statuses.len()
        invariant
            i <= statuses.len(),
            kept@ == without(statuses@.take(i as int), id@),
        decreases statuses.len() - i,
    {
        assert(statuses@.take(i + 1).drop_last() =~= statuses@.take(i as int));
        if !same_text(&statuses[i].id, id) {
            kept.push(copy_status(&statuses[i]));
        }
        i = i + 1;
    }
    assert(statuses@.take(i as int) =~= statuses@);
    kept
}

/// Whether every duration leaves room for the round that is added to it.
pub open spec fn durations_fit(msgs: Seq<StatusMsg>) -> bool {
    forall|i: int| 0 <= i < msgs.len() ==> (#[trigger] msgs[i]).duration_rounds < u32::MAX
}

/// Puts statuses on their targets.
pub fn apply_statuses(msgs: &Vec<StatusMsg>, rows: &mut Vec<StatusRow>)
    requires
        durations_fit(msgs@),
    ensures
        status_models(final(rows)@) == after_statuses(
            status_models(old(rows)@),
            msgs@,
            msgs@.len(),
        ),
{
    let ghost m = status_models(rows@);
    let mut n: usize = 0;
    while n < msgs.len()
        invariant
            n <= msgs.len(),
            durations_fit(msgs@),
            status_models(rows@) == after_statuses(m, msgs@, n as nat),
        decreases msgs.len() - n,
    {
        let msg = &msgs[n];
        assert(msgs@[n as int].duration_rounds < u32::MAX);
        let ghost r = status_models(rows@);
        if let Some(k) = find_status(rows, msg.target) {
            let mut kept = drop_named(&rows[k].statuses, &msg.status);
            kept.push(
                EcsStatus {
                    id: msg.status.clone(),
                    rounds_remaining: msg.duration_rounds + 1,
                    dot_per_tick: 0,
                    applier: Some(msg.source),
                },
            );
            rows[k].statuses = kept;
            assert(status_models(rows@) =~= after_statuses(m, msgs@, (n + 1) as nat));
        }
        n = n + 1;
    }
}

// ---------------------------------------------------------------------------
// The whole step
// ---------------------------------------------------------------------------

/// What the end of a pass acts on.
#[verifier::ext_equal]
pub struct CleanupWorld {
    pub vitals: Seq<VitalRow>,
    pub rage: Seq<RageRow>,
    pub turn: TurnModel,
}

/// After damages, then healings, the rage that the damages give, new statuses and the turns
/// that end.
pub open spec fn after_cleanup(
    w: CleanupWorld,
    damages: Seq<DamageMsg>,
    heals: Seq<HealMsg>,
    applied: Seq<StatusMsg>,
    ends: Seq<Entity>,
    content: ContentView,
) -> CleanupWorld {
    let m = w.turn;
    let (v1, l1) = after_damages(w.vitals, m.log, damages, damages.len(), m.statuses, content);
    let (v2, l2) = after_plain_heals(v1, l1, heals, heals.len());
    let (r3, l3) = after_rage(w.rage, l2, damages, damages.len());
    let s3 = after_statuses(m.statuses, applied, applied.len());
    CleanupWorld {
        vitals: v2,
        rage: r3,
        turn: after_turns(TurnModel { statuses: s3, log: l3, ..m }, v2, ends),
    }
}

/// Applies damages, healings and statuses, gives rage for the damages, and ends
/// the turns that are to end.
pub fn cleanup_system(
    damages: &Vec<DamageMsg>,
    heals: &Vec<HealMsg>,
    applied: &Vec<StatusMsg>,
    ends: &Vec<Entity>,
    vitals: &mut Vec<VitalRow>,
    rage: &mut Vec<RageRow>,
    content: &ContentView,
    world: &mut TurnWorld,
)
    requires
        old(world)@.wf(),
        ({
            let (v, l) = after_damages(
                old(vitals)@,
                old(world)@.log,
                damages@,
                damages@.len(),
                old(world)@.statuses,
                *content,
            );
            plain_heals_fit(v, l, heals@)
        }),
        durations_fit(applied@),
    ensures
        (CleanupWorld {
            vitals: final(vitals)@,
            rage: final(rage)@,
            turn: final(world)@,
        }) == after_cleanup(
            CleanupWorld { vitals: old(vitals)@, rage: old(rage)@, turn: old(world)@ },
            damages@,
            heals@,
            applied@,
            ends@,
            *content,
        ),
{
    apply_damages(damages, vitals, &world.statuses, content, &mut world.log);
    apply_plain_heals(heals, vitals, &mut world.log);
    apply_rage(damages, rage, &mut world.log);
    apply_statuses(applied, &mut world.statuses);
    end_turns(ends, vitals, world);
}

// ---------------------------------------------------------------------------
// Laws
// ---------------------------------------------------------------------------

/// While both teams stand and somebody other than the actor lives in the order,
/// the turn goes to somebody alive.
pub proof fn law_turn_goes_to_the_living(
    order: Seq<Entity>,
    vitals: Seq<VitalRow>,
    start: int,
    other: int,
)
    requires
        0 <= start < order.len(),
        0 <= other < order.len(),
        other != start,
        lives(vitals, order[other]),
    ensures
        ({
            let next = next_turn(order, vitals, start);
            &&& 0 <= next < order.len()
            &&& next != start
            &&& lives(vitals, order[next])
            &&& way_back(start, next, order.len() as int) >= way_back(
                start,
                other,
                order.len() as int,
            )
        }),
{
    search_finds(
        order,
        vitals,
        start,
        follower(start, order.len() as int),
        order.len(),
        other,
    );
}

proof fn search_finds(
    order: Seq<Entity>,
    vitals: Seq<VitalRow>,
    start: int,
    at: int,
    steps: nat,
    other: int,
)
    requires
        0 <= start < order.len(),
        0 <= at < order.len(),
        0 <= other < order.len(),
        at != start,
        other != start,
        lives(vitals, order[other]),
        way_back(start, other, order.len() as int) <= way_back(start, at, order.len() as int),
        steps > way_back(start, at, order.len() as int),
    ensures
        ({
            let next = search(order, vitals, start, at, steps);
            &&& 0 <= next < order.len()
            &&& next != start
            &&& lives(vitals, order[next])
            &&& way_back(start, next, order.len() as int) >= way_back(
                start,
                other,
                order.len() as int,
            )
        }),
    decreases steps,
{
    if !lives(vitals, order[at]) {
        let next = follower(at, order.len() as int);
        assert(at != other);
        search_finds(order, vitals, start, next, (steps - 1) as nat, other);
    }
}

/// A status after `turns` turns of whoever applied it; `None` once it has run out.
pub open spec fn after_own_turns(s: EcsStatus, applier: Entity, turns: nat) -> Option<EcsStatus>
    decreases turns,
{
    if turns == 0 {
        Some(s)
    } else {
        match after_own_turns(s, applier, (turns - 1) as nat) {
            Some(t) => if runs_out(t, applier) {
                None
            } else {
                Some(EcsStatus { rounds_remaining: rounds_after(t, applier), ..t })
            },
            None => None,
        }
    }
}

/// A status that was put on somebody for some rounds outlasts the end of the
/// applier's present turn and as many turns of the applier less one after it:
/// it runs out with the end of the last of them.
pub proof fn law_status_lasts(msg: StatusMsg, turns: nat)
    requires
        msg.duration_rounds < u32::MAX,
    ensures
        match after_own_turns(status_of(msg), msg.source, turns) {
            Some(t) => turns <= msg.duration_rounds && t.rounds_remaining == msg.duration_rounds
                + 1 - turns && t.id == msg.status && t.applier == Some(msg.source),
            None => turns > msg.duration_rounds,
        },
    decreases turns,
{
    if turns > 0 {
        law_status_lasts(msg, (turns - 1) as nat);
    }
}

/// What one turn takes off and keeps: nothing is lost but what runs out, and
/// nothing that another applied changes.
pub proof fn law_tick_splits(statuses: Seq<EcsStatus>, actor: Entity)
    ensures
        ticked(statuses, actor).len() + expired(statuses, actor).len() == statuses.len(),
        (forall|i: int| 0 <= i < statuses.len() ==> !is_from(#[trigger] statuses[i], actor))
            ==> ticked(statuses, actor) == statuses,
    decreases statuses.len(),
{
    if statuses.len() > 0 {
        let rest = statuses.drop_last();
        law_tick_splits(rest, actor);
        if forall|i: int| 0 <= i < statuses.len() ==> !is_from(#[trigger] statuses[i], actor) {
            assert forall|i: int| 0 <= i < rest.len() implies !is_from(
                #[trigger] rest[i],
                actor,
            ) by {
                assert(!is_from(statuses[i], actor));
            }
            assert(!is_from(statuses[statuses.len() - 1], actor));
            assert(ticked(statuses, actor) =~= statuses);
        }
    }
}

/// Where a team has fallen the first turn that ends decides combat, and the
/// enemies' fall counts before the players' own.
pub proof fn law_fallen_team_decides(m: TurnModel, vitals: Seq<VitalRow>, actors: Seq<Entity>)
    requires
        actors.len() > 0,
        decided(vitals),
    ensures
        after_turns(m, vitals, actors).next_phase == Some(
            if !stands(vitals, Team::Enemy) {
                NextPhase::Victory
            } else {
                NextPhase::Defeat
            },
        ),
        after_turns(m, vitals, actors).index == m.index,
{
}

/// Whether a status is what another comes to with a turn of an actor: a round less
/// where the actor applied it, and the same otherwise.
pub open spec fn comes_to(s: EcsStatus, t: EcsStatus, actor: Entity) -> bool {
    &&& t.id == s.id
    &&& t.dot_per_tick == s.dot_per_tick
    &&& t.applier == s.applier
    &&& s.applier == Some(actor) ==> t.rounds_remaining + 1 == s.rounds_remaining
        && t.rounds_remaining > 0
    &&& s.applier != Some(actor) ==> t.rounds_remaining == s.rounds_remaining
}

/// Whether some status of a list is what another comes to with a turn of an actor.
pub open spec fn goes_on_in(s: EcsStatus, list: Seq<EcsStatus>, actor: Entity) -> bool {
    exists|k: int| 0 <= k < list.len() && comes_to(s, #[trigger] list[k], actor)
}

/// Whether a status is what one of a list comes to with a turn of an actor.
pub open spec fn stems_from(t: EcsStatus, list: Seq<EcsStatus>, actor: Entity) -> bool {
    exists|k: int| 0 <= k < list.len() && comes_to(#[trigger] list[k], t, actor)
}

/// With a turn of an actor every status that the actor applied has a round less, and
/// is gone where that was its last; all others stay as they are, and none comes up
/// from nowhere.
pub proof fn law_turn_takes_a_round(statuses: Seq<EcsStatus>, actor: Entity)
    ensures
        forall|i: int|
            0 <= i < statuses.len() && ((#[trigger] statuses[i]).applier != Some(actor)
                || statuses[i].rounds_remaining > 1) ==> goes_on_in(
                statuses[i],
                ticked(statuses, actor),
                actor,
            ),
        forall|k: int|
            0 <= k < ticked(statuses, actor).len() ==> stems_from(
                #[trigger] ticked(statuses, actor)[k],
                statuses,
                actor,
            ),
    decreases statuses.len(),
{
    if statuses.len() > 0 {
        let rest = statuses.drop_last();
        let s = statuses.last();
        law_turn_takes_a_round(rest, actor);
        let now = ticked(statuses, actor);
        let before = ticked(rest, actor);
        assert forall|i: int|
            0 <= i < statuses.len() && ((#[trigger] statuses[i]).applier != Some(actor)
                || statuses[i].rounds_remaining > 1) implies goes_on_in(
            statuses[i],
            now,
            actor,
        ) by {
            if i < rest.len() {
                assert(goes_on_in(rest[i], before, actor));
                let k = choose|k: int|
                    0 <= k < before.len() && comes_to(rest[i], #[trigger] before[k], actor);
                assert(comes_to(statuses[i], now[k], actor));
            } else {
                assert(comes_to(s, now[now.len() - 1], actor));
            }
        }
        assert forall|k: int| 0 <= k < now.len() implies stems_from(
            #[trigger] now[k],
            statuses,
            actor,
        ) by {
            if k < before.len() {
                assert(stems_from(before[k], rest, actor));
                let i = choose|i: int|
                    0 <= i < rest.len() && comes_to(#[trigger] rest[i], before[k], actor);
                assert(comes_to(statuses[i], now[k], actor));
            } else {
                assert(comes_to(statuses[statuses.len() - 1], now[k], actor));
            }
        }
    }
}

/// Whether an actor has a status of a name, in its last round, among some.
pub open spec fn is_in_last_round(id: String, list: Seq<EcsStatus>, actor: Entity) -> bool {
    exists|i: int|
        0 <= i < list.len() && (#[trigger] list[i]).applier == Some(actor)
            && list[i].rounds_remaining <= 1 && list[i].id == id
}

/// What runs out with a turn of an actor is just what the actor applied and what is in
/// its last round.
pub proof fn law_last_rounds_run_out(statuses: Seq<EcsStatus>, actor: Entity, id: String)
    ensures
        expired(statuses, actor).contains(id) <==> is_in_last_round(id, statuses, actor),
    decreases statuses.len(),
{
    if statuses.len() > 0 {
        let rest = statuses.drop_last();
        let s = statuses.last();
        law_last_rounds_run_out(rest, actor, id);
        let gone = expired(statuses, actor);
        let before = expired(rest, actor);
        if before.contains(id) {
            let k = choose|k: int| 0 <= k < before.len() && before[k] == id;
            assert(gone[k] == id);
            let i = choose|i: int|
                0 <= i < rest.len() && (#[trigger] rest[i]).applier == Some(actor)
                    && rest[i].rounds_remaining <= 1 && rest[i].id == id;
            assert(statuses[i] == rest[i]);
        } else {
            if gone.contains(id) {
                let k = choose|k: int| 0 <= k < gone.len() && gone[k] == id;
                if k < before.len() {
                    assert(before[k] == id);
                }
                assert(statuses[statuses.len() - 1].id == id);
            }
            if is_in_last_round(id, statuses, actor) {
                let i = choose|i: int|
                    0 <= i < statuses.len() && (#[trigger] statuses[i]).applier == Some(actor)
                        && statuses[i].rounds_remaining <= 1 && statuses[i].id == id;
                if i < rest.len() {
                    assert(rest[i].id == id);
                } else {
                    assert(gone[gone.len() - 1] == id);
                }
            }
        }
    }
}

/// A turn of an actor is felt by everybody who bears a status of the actor, whoever it
/// is, and what runs out on somebody is told of that one.
pub proof fn law_turn_is_felt_by_all(rows: Seq<StatusModel>, actor: Entity, i: int, k: int)
    requires
        0 <= i < rows.len(),
        0 <= k < rows[i].statuses.len(),
    ensures
        ticked_rows(rows, actor).len() == rows.len(),
        ticked_rows(rows, actor)[i].entity == rows[i].entity,
        (rows[i].statuses[k].applier != Some(actor) || rows[i].statuses[k].rounds_remaining > 1)
            ==> goes_on_in(
            rows[i].statuses[k],
            ticked_rows(rows, actor)[i].statuses,
            actor,
        ),
        rows[i].statuses[k].applier == Some(actor) && rows[i].statuses[k].rounds_remaining <= 1
            ==> all_expiry_lines(rows, actor).contains(
            CombatEvent::StatusExpired {
                target: rows[i].entity,
                status: rows[i].statuses[k].id,
            },
        ),
    decreases rows.len(),
{
    let own = rows[i].statuses;
    law_turn_takes_a_round(own, actor);
    assert(own[k].applier != Some(actor) || own[k].rounds_remaining > 1 ==> goes_on_in(
        own[k],
        ticked(own, actor),
        actor,
    ));
    if own[k].applier == Some(actor) && own[k].rounds_remaining <= 1 {
        law_last_rounds_run_out(own, actor, own[k].id);
        let line = CombatEvent::StatusExpired { target: rows[i].entity, status: own[k].id };
        let all = all_expiry_lines(rows, actor);
        let rest = rows.drop_last();
        let before = all_expiry_lines(rest, actor);
        if i < rest.len() {
            law_turn_is_felt_by_all(rest, actor, i, k);
            let j = choose|j: int| 0 <= j < before.len() && before[j] == line;
            assert(all[j] == line);
        } else {
            let gone = expired(own, actor);
            let j = choose|j: int| 0 <= j < gone.len() && gone[j] == own[k].id;
            assert(expiry_lines(rows[i].entity, gone)[j] == line);
            assert(all[before.len() + j] == line);
        }
    }
}

/// With the end of a turn the actor regains a point of mana, never more than its
/// maximum, and everybody else none; a line tells of it where there is something to
/// tell.
pub proof fn law_turn_restores_mana(rows: Seq<ManaRow>, actor: Entity, i: int)
    requires
        is_first_mana(rows, actor, i),
    ensures
        mana_after(rows, actor).len() == rows.len(),
        forall|j: int|
            0 <= j < rows.len() && j != i ==> (#[trigger] mana_after(rows, actor)[j]) == rows[j],
        mana_after(rows, actor)[i].entity == actor,
        mana_after(rows, actor)[i].max == rows[i].max,
        rows[i].current < rows[i].max ==> mana_after(rows, actor)[i].current == rows[i].current + 1
            && mana_line(rows, actor) == Some(
            CombatEvent::ManaChanged {
                actor,
                current: (rows[i].current + 1) as i32,
                max: rows[i].max,
            },
        ),
        rows[i].current >= rows[i].max ==> mana_after(rows, actor)[i] == rows[i] && mana_line(
            rows,
            actor,
        ) is None,
{
    let k = choose|k: int| is_first_mana(rows, actor, k);
    assert(is_first_mana(rows, actor, k));
    if k < i {
        assert(rows[k].entity != actor);
    }
    if i < k {
        assert(rows[i].entity != actor);
    }
}

/// Whether all of a team have fallen.
pub open spec fn has_fallen(vitals: Seq<VitalRow>, team: Team) -> bool {
    forall|i: int| 0 <= i < vitals.len() && (#[trigger] vitals[i]).team == team ==> vitals[i].hp <= 0
}

/// Combat is won with the turn after which all enemies have fallen, and else lost
/// once all players have; the last line says which. While both have somebody left it
/// goes on, with a new round or with a turn of whoever is next in the order, who may
/// act again and is announced.
pub proof fn law_how_a_turn_ends(m: TurnModel, vitals: Seq<VitalRow>, actor: Entity)
    ensures
        ({
            let n = after_turn(m, vitals, actor);
            let index = next_turn(m.order, vitals, m.index as int) as usize;
            &&& n.order == m.order
            &&& n.log.len() > m.log.len()
            &&& n.log[m.log.len() as int] == (CombatEvent::TurnDone { actor })
            &&& has_fallen(vitals, Team::Enemy) ==> n.next_phase == Some(NextPhase::Victory)
                && n.log.last() == (CombatEvent::CombatEnded { victory: true })
            &&& !has_fallen(vitals, Team::Enemy) && has_fallen(vitals, Team::Player)
                ==> n.next_phase == Some(NextPhase::Defeat) && n.log.last() == (
            CombatEvent::CombatEnded { victory: false })
            &&& has_fallen(vitals, Team::Enemy) || has_fallen(vitals, Team::Player) ==> n.index
                == m.index && n.active == m.active && n.actions == m.actions
            &&& !has_fallen(vitals, Team::Enemy) && !has_fallen(vitals, Team::Player) && index == 0
                ==> n.index == 0 && n.next_phase == Some(NextPhase::StartRound) && n.active
                == m.active
            &&& !has_fallen(vitals, Team::Enemy) && !has_fallen(vitals, Team::Player) && index != 0
                ==> n.index == index && n.next_phase == m.next_phase && n.active == Some(
                m.order[index as int],
            ) && n.log.last() == (CombatEvent::TurnStarted { actor: m.order[index as int] })
            &&& n.statuses == ticked_rows(m.statuses, actor)
            &&& n.mana == mana_after(m.mana, actor)
        }),
{
    assert(stands(vitals, Team::Enemy) == !has_fallen(vitals, Team::Enemy));
    assert(stands(vitals, Team::Player) == !has_fallen(vitals, Team::Player));
}

/// Whoever's turn begins may act, and nobody else's action changes.
pub proof fn law_next_may_act(
    m: TurnModel,
    vitals: Seq<VitalRow>,
    actor: Entity,
    i: int,
)
    requires
        !has_fallen(vitals, Team::Enemy),
        !has_fallen(vitals, Team::Player),
        next_turn(m.order, vitals, m.index as int) as usize != 0,
        is_first_action(
            m.actions,
            m.order[next_turn(m.order, vitals, m.index as int) as usize as int],
            i,
        ),
    ensures
        after_turn(m, vitals, actor).actions[i].action,
        after_turn(m, vitals, actor).actions.len() == m.actions.len(),
        forall|j: int|
            0 <= j < m.actions.len() && j != i ==> (#[trigger] after_turn(
                m,
                vitals,
                actor,
            ).actions[j]) == m.actions[j],
{
    assert(stands(vitals, Team::Enemy));
    assert(stands(vitals, Team::Player));
    let next = m.order[next_turn(m.order, vitals, m.index as int) as usize as int];
    let k = choose|k: int| is_first_action(m.actions, next, k);
    assert(is_first_action(m.actions, next, k));
    if k < i {
        assert(m.actions[k].entity != next);
    }
    if i < k {
        assert(m.actions[i].entity != next);
    }
}

/// A combatant lives while it has a hit point left.
pub proof fn law_who_lives(vitals: Seq<VitalRow>, entity: Entity, i: int)
    ensures
        crate::effects::is_first_vital(vitals, entity, i) ==> (lives(vitals, entity)
            <==> vitals[i].hp >= 1),
        (forall|j: int| 0 <= j < vitals.len() ==> (#[trigger] vitals[j]).entity != entity)
            ==> !lives(vitals, entity),
{
    if crate::effects::is_first_vital(vitals, entity, i) {
        crate::effects::first_vital_is_found(vitals, entity, i);
    }
    if forall|j: int| 0 <= j < vitals.len() ==> (#[trigger] vitals[j]).entity != entity {
        assert forall|k: int| !crate::effects::is_first_vital(vitals, entity, k) by {
            if 0 <= k < vitals.len() {
                assert(vitals[k].entity != entity);
            }
        }
    }
}

/// Turns end one after the other, until one decides combat.
pub proof fn law_turns_end_in_order(m: TurnModel, vitals: Seq<VitalRow>, actors: Seq<Entity>)
    ensures
        actors.len() == 0 ==> after_turns(m, vitals, actors) == m,
        actors.len() > 0 && (has_fallen(vitals, Team::Enemy) || has_fallen(vitals, Team::Player))
            ==> after_turns(m, vitals, actors) == after_turn(m, vitals, actors[0]),
        actors.len() > 0 && !has_fallen(vitals, Team::Enemy) && !has_fallen(vitals, Team::Player)
            ==> after_turns(m, vitals, actors) == after_turns(
            after_turn(m, vitals, actors[0]),
            vitals,
            actors.drop_first(),
        ),
{
    assert(stands(vitals, Team::Enemy) == !has_fallen(vitals, Team::Enemy));
    assert(stands(vitals, Team::Player) == !has_fallen(vitals, Team::Player));
}

/// Each healing gives the first combatant of that name every point up to its maximum,
/// tells how many that were, and touches nobody else.
pub proof fn law_each_plain_healing_lands(
    vitals: Seq<VitalRow>,
    log: Seq<CombatEvent>,
    msgs: Seq<HealMsg>,
    n: nat,
    i: int,
)
    requires
        0 < n <= msgs.len(),
        plain_heals_fit(vitals, log, msgs),
        crate::effects::is_first_vital(
            after_plain_heals(vitals, log, msgs, (n - 1) as nat).0,
            msgs[n - 1].target,
            i,
        ),
    ensures
        ({
            let (v, l) = after_plain_heals(vitals, log, msgs, (n - 1) as nat);
            let (w, k) = after_plain_heals(vitals, log, msgs, n);
            &&& w.len() == v.len()
            &&& forall|j: int| 0 <= j < v.len() && j != i ==> (#[trigger] w[j]) == v[j]
            &&& v[i].hp + msgs[n - 1].amount <= v[i].max_hp ==> w[i].hp == v[i].hp
                + msgs[n - 1].amount
            &&& v[i].hp + msgs[n - 1].amount > v[i].max_hp ==> w[i].hp == v[i].max_hp
            &&& w[i] == VitalRow { hp: w[i].hp, ..v[i] }
            &&& k.len() == l.len() + 1
            &&& k.drop_last() == l
            &&& k.last() matches CombatEvent::HealRolled { target, formula, amount } && target
                == msgs[n - 1].target && formula == msgs[n - 1].breakdown && v[i].hp + amount
                == w[i].hp
        }),
{
    let (v, l) = after_plain_heals(vitals, log, msgs, (n - 1) as nat);
    let (w, k) = after_plain_heals(vitals, log, msgs, n);
    crate::effects::first_vital_is_found(v, msgs[n - 1].target, i);
    assert(heal_fits(v[i], msgs[n - 1].amount as int)) by {
        assert((after_plain_heals(vitals, log, msgs, (n - 1) as nat)).0 == v);
    }
    assert(k.drop_last() =~= l);
}

/// A status that is put on somebody is there under the name of whoever applied it, for
/// the rounds asked for and the one that the present turn takes; it is the only one of
/// its name, all others stay, and nobody else is touched.
pub proof fn law_each_status_is_put_on(
    rows: Seq<StatusModel>,
    msgs: Seq<StatusMsg>,
    n: nat,
    k: int,
)
    requires
        0 < n <= msgs.len(),
        msgs[n - 1].duration_rounds < u32::MAX,
        crate::effects::is_first_status(
            after_statuses(rows, msgs, (n - 1) as nat),
            msgs[n - 1].target,
            k,
        ),
    ensures
        ({
            let r = after_statuses(rows, msgs, (n - 1) as nat);
            let w = after_statuses(rows, msgs, n);
            let own = w[k].statuses;
            &&& w.len() == r.len()
            &&& w[k].entity == r[k].entity
            &&& forall|j: int| 0 <= j < r.len() && j != k ==> (#[trigger] w[j]) == r[j]
            &&& own.len() > 0
            &&& own.last().id@ == msgs[n - 1].status@
            &&& own.last().rounds_remaining == msgs[n - 1].duration_rounds + 1
            &&& own.last().dot_per_tick == 0
            &&& own.last().applier == Some(msgs[n - 1].source)
            &&& forall|j: int|
                0 <= j < own.len() - 1 ==> (#[trigger] own[j]).id@ != msgs[n - 1].status@
            &&& forall|j: int|
                0 <= j < r[k].statuses.len() && (#[trigger] r[k].statuses[j]).id@
                    != msgs[n - 1].status@ ==> own.contains(r[k].statuses[j])
        }),
{
    let r = after_statuses(rows, msgs, (n - 1) as nat);
    let msg = msgs[n - 1];
    crate::effects::first_status_is_found(r, msg.target, k);
    let w = after_statuses(rows, msgs, n);
    let own = w[k].statuses;
    let rest = without(r[k].statuses, msg.status@);
    without_drops_the_name(r[k].statuses, msg.status@);
    assert forall|j: int|
        0 <= j < r[k].statuses.len() && (#[trigger] r[k].statuses[j]).id@
            != msg.status@ implies own.contains(r[k].statuses[j]) by {
        let i = choose|i: int| 0 <= i < rest.len() && rest[i] == r[k].statuses[j];
        assert(own[i] == rest[i]);
    }
    assert forall|j: int| 0 <= j < own.len() - 1 implies (#[trigger] own[j]).id@
        != msg.status@ by {
        assert(own[j] == rest[j]);
    }
}

proof fn without_drops_the_name(statuses: Seq<EcsStatus>, id: Seq<char>)
    ensures
        forall|i: int|
            0 <= i < without(statuses, id).len() ==> (#[trigger] without(statuses, id)[i]).id@
                != id,
        forall|i: int|
            0 <= i < statuses.len() && (#[trigger] statuses[i]).id@ != id ==> without(
                statuses,
                id,
            ).contains(statuses[i]),
    decreases statuses.len(),
{
    if statuses.len() > 0 {
        let rest = statuses.drop_last();
        without_drops_the_name(rest, id);
        let before = without(rest, id);
        let now = without(statuses, id);
        assert forall|i: int| 0 <= i < now.len() implies (#[trigger] now[i]).id@ != id by {
            if i < before.len() {
                assert(now[i] == before[i]);
            }
        }
        assert forall|i: int| 0 <= i < statuses.len() && (#[trigger] statuses[i]).id@
            != id implies now.contains(statuses[i]) by {
            if i < rest.len() {
                assert(rest[i] == statuses[i]);
                let k = choose|k: int| 0 <= k < before.len() && before[k] == rest[i];
                assert(now[k] == statuses[i]);
            } else {
                assert(now[now.len() - 1] == statuses[i]);
            }
        }
    }
}

/// Turns end after everything else: to end them with the rest is to end them after it.
pub proof fn law_turns_end_last(
    w: CleanupWorld,
    damages: Seq<DamageMsg>,
    heals: Seq<HealMsg>,
    applied: Seq<StatusMsg>,
    ends: Seq<Entity>,
    content: ContentView,
)
    ensures
        after_cleanup(w, damages, heals, applied, ends, content) == after_cleanup(
            after_cleanup(w, damages, heals, applied, Seq::empty(), content),
            Seq::empty(),
            Seq::empty(),
            Seq::empty(),
            ends,
            content,
        ),
{
}

/// Healing comes after damage, and new statuses after both: they change neither. Only
/// damages give rage.
pub proof fn law_cleanup_in_order(
    w: CleanupWorld,
    damages: Seq<DamageMsg>,
    heals: Seq<HealMsg>,
    applied: Seq<StatusMsg>,
    content: ContentView,
)
    ensures
        ({
            let none = Seq::<Entity>::empty();
            let whole = after_cleanup(w, damages, heals, applied, none, content);
            let hurt = after_cleanup(w, damages, Seq::empty(), Seq::empty(), none, content);
            let healed = after_cleanup(hurt, Seq::empty(), heals, Seq::empty(), none, content);
            let borne = after_cleanup(healed, Seq::empty(), Seq::empty(), applied, none, content);
            &&& whole.vitals == borne.vitals
            &&& borne.vitals == healed.vitals
            &&& whole.rage == hurt.rage
            &&& borne.rage == hurt.rage
            &&& whole.turn.statuses == borne.turn.statuses
            &&& healed.turn.statuses == w.turn.statuses
        }),
{
    let m = w.turn;
    let (v1, l1) = after_damages(w.vitals, m.log, damages, damages.len(), m.statuses, content);
    let (v2, l2) = after_plain_heals(v1, l1, heals, heals.len());
    let hurt = after_cleanup(
        w,
        damages,
        Seq::empty(),
        Seq::empty(),
        Seq::<Entity>::empty(),
        content,
    );
    plain_healing_needs_no_log(v1, l1, hurt.turn.log, heals, heals.len());
    crate::effects::rage_needs_no_log(w.rage, l1, l2, damages, damages.len());
}

proof fn plain_healing_needs_no_log(
    vitals: Seq<VitalRow>,
    a: Seq<CombatEvent>,
    b: Seq<CombatEvent>,
    msgs: Seq<HealMsg>,
    n: nat,
)
    requires
        n <= msgs.len(),
    ensures
        after_plain_heals(vitals, a, msgs, n).0 == after_plain_heals(vitals, b, msgs, n).0,
    decreases n,
{
    if n > 0 {
        plain_healing_needs_no_log(vitals, a, b, msgs, (n - 1) as nat);
    }
}

} // verus!
