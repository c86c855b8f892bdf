//! Phases of a combatant: what entering one changes in the display world.

use crate::events::CombatEvent;
use crate::ids::{Entity, UnitId, UnitIdMap};
use crate::queues::{PhaseOverrideIntent, VictoryCondition};
use crate::state::{CombatState, RuntimeStats};
use crate::templates::copy_strings;
use vstd::prelude::*;

verus! {

/// Attributes of a combatant.
#[derive(Clone, Copy, PartialEq, Eq, Structural, Debug)]
pub struct CombatStats {
    pub max_hp: i32,
    pub strength: i32,
    pub dexterity: i32,
    pub intelligence: i32,
}

/// How a combatant behaves instead of as usual.
#[derive(Clone, Copy, PartialEq, Eq, Structural, Debug)]
pub enum AiBehaviorKind {
    Flee,
}

/// A phase as the display world has it. What is `None` stays as it was.
#[derive(Debug)]
pub struct EnemyPhase {
    pub stats: Option<CombatStats>,
    pub heal_to_full: bool,
    pub ability_ids: Option<Vec<String>>,
    pub has_equipment: bool,
    pub name: Option<String>,
    pub flavor: Option<String>,
    pub victory_override: Option<VictoryCondition>,
    pub turn_limit: Option<u32>,
    pub ai_behavior: Option<AiBehaviorKind>,
    pub tags: Option<Vec<String>>,
}

/// A combatant with phases.
#[derive(Debug)]
pub struct PhasedRow {
    pub entity: Entity,
    pub pending: Vec<EnemyPhase>,
    pub hp: i32,
    pub max_hp: i32,
    pub stats: CombatStats,
    pub abilities: Vec<String>,
    /// Whether the AI keeps a profile of the combatant.
    pub has_role: bool,
    pub name: String,
    pub runtime: RuntimeStats,
    pub is_dead: bool,
}

/// What entering a phase asks of the display world besides the row itself.
#[derive(Debug)]
pub struct PhaseWrites {
    pub entity: Entity,
    /// Whether the mark of the fallen is taken off.
    pub revived: bool,
    /// Whether the AI's profile must be inferred anew.
    pub reinfer_role: bool,
    pub behavior: Option<AiBehaviorKind>,
    pub tags: Option<Vec<String>>,
}

/// Largest number of hit points in a phase.
pub open spec fn phase_max_hp(row: PhasedRow, phase: EnemyPhase) -> i32 {
    match phase.stats {
        Some(s) => s.max_hp,
        None => row.max_hp,
    }
}

/// Hit points on entering a phase: all of them where the phase heals; else what
/// there was, capped where the phase has its own attributes.
pub open spec fn phase_hp(row: PhasedRow, phase: EnemyPhase) -> i32 {
    let max = phase_max_hp(row, phase);
    if phase.heal_to_full || (phase.stats is Some && row.hp > max) {
        max
    } else {
        row.hp
    }
}

/// The name in a phase.
pub open spec fn phase_name(row: PhasedRow, phase: EnemyPhase) -> String {
    match phase.name {
        Some(n) => n,
        None => row.name,
    }
}

/// Whether `b` is `a` after its phase `idx` was entered.
pub open spec fn entered(
    a: PhasedRow,
    b: PhasedRow,
    idx: int,
    unit: UnitId,
    state: CombatState,
) -> bool {
    let phase = a.pending@[idx];
    &&& b.entity == a.entity
    &&& b.pending@ == a.pending@.remove(idx)
    &&& b.max_hp == phase_max_hp(a, phase)
    &&& b.hp == phase_hp(a, phase)
    &&& b.stats == (match phase.stats {
        Some(s) => s,
        None => a.stats,
    })
    &&& b.abilities@ == (match phase.ability_ids {
        Some(ids) => ids@,
        None => a.abilities@,
    })
    &&& b.has_role == a.has_role
    &&& b.name == phase_name(a, phase)
    &&& b.runtime == (match state.spec_unit(unit) {
        Some(u) => u.runtime,
        None => a.runtime,
    })
    &&& b.is_dead == (a.is_dead && phase_hp(a, phase) <= 0)
}

/// Whether `w` is what entering phase `idx` asks for besides the row.
pub open spec fn asks(w: PhaseWrites, a: PhasedRow, idx: int) -> bool {
    let phase = a.pending@[idx];
    &&& w.entity == a.entity
    &&& w.revived == (a.is_dead && phase_hp(a, phase) > 0)
    &&& w.reinfer_role == (a.has_role && (phase.stats is Some || phase.ability_ids is Some
        || phase.has_equipment))
    &&& w.behavior == phase.ai_behavior
    &&& match (w.tags, phase.tags) {
        (Some(x), Some(y)) => x@ == y@,
        (None, None) => true,
        _ => false,
    }
}

/// The overriding intents after a phase: one more where the phase changes the
/// objective or sets a deadline.
pub open spec fn with_intent(
    before: Seq<PhaseOverrideIntent>,
    phase: EnemyPhase,
    entity: Entity,
) -> Seq<PhaseOverrideIntent> {
    if phase.victory_override is Some || phase.turn_limit is Some {
        before.push(
            PhaseOverrideIntent {
                entity,
                victory_override: phase.victory_override,
                turn_limit: phase.turn_limit,
            },
        )
    } else {
        before
    }
}

/// The place of the first row of an entity.
pub open spec fn is_first_phased(rows: Seq<PhasedRow>, entity: Entity, i: int) -> bool {
    &&& 0 <= i < rows.len()
    &&& rows[i].entity == entity
    &&& forall|j: int| 0 <= j < i ==> (#[trigger] rows[j]).entity != entity
}

fn find_phased(rows: &Vec<PhasedRow>, entity: Entity) -> (r: Option<usize>)
    ensures
        match r {
            Some(i) => is_first_phased(rows@, entity, i as int),
            None => forall|j: int|
                0 <= j < rows@.len() ==> (#[trigger] rows@[j]).entity != entity,
        },
{
    let mut i: usize = 0;
    while i < rows.len()
        invariant
            i <= rows.len(),
            forall|j: int| 0 <= j < i ==> (#[trigger] rows@[j]).entity != entity,
        decreases rows.len() - i,
    {
        if rows[i].entity == entity {
            return Some(i);
        }
        i = i + 1;
    }
    None
}

/// Whether a transition can be written: its unit is shown, in a row that still
/// has that phase ahead.
pub open spec fn can_enter(
    rows: Seq<PhasedRow>,
    entity: Option<Entity>,
    idx: int,
    i: int,
) -> bool {
    entity matches Some(e) && is_first_phased(rows, e, i) && idx < rows[i].pending@.len()
}

/// Enters a phase: takes it out of the row, writes the row, the log and the
/// intents, and says what else to do. Where the transition cannot be written
/// nothing changes.
pub fn apply_phase_ecs_writes(
    unit: UnitId,
    phase_idx: usize,
    ids: &UnitIdMap,
    rows: &mut Vec<PhasedRow>,
    overrides: &mut Vec<PhaseOverrideIntent>,
    state: &CombatState,
    log: &mut Vec<CombatEvent>,
) -> (r: Option<PhaseWrites>)
    ensures
        match r {
            Some(w) => exists|i: int|
                #![trigger old(rows)@[i]]
                {
                    let a = old(rows)@[i];
                    let phase = a.pending@[phase_idx as int];
                    &&& can_enter(old(rows)@, ids@.entity(unit), phase_idx as int, i)
                    &&& final(rows)@.len() == old(rows)@.len()
                    &&& entered(a, final(rows)@[i], phase_idx as int, unit, *state)
                    &&& forall|j: int|
                        0 <= j < old(rows)@.len() && j != i ==> final(rows)@[j] == old(rows)@[j]
                    &&& asks(w, a, phase_idx as int)
                    &&& final(overrides)@ == with_intent(old(overrides)@, phase, a.entity)
                    &&& final(log)@ == old(log)@.push(
                        CombatEvent::PhaseEntered {
                            actor: a.entity,
                            prev_name: a.name,
                            next_name: phase_name(a, phase),
                            flavor: phase.flavor,
                        },
                    )
                },
            None => {
                &&& forall|i: int| !can_enter(old(rows)@, ids@.entity(unit), phase_idx as int, i)
                &&& *final(rows) == *old(rows)
                &&& *final(overrides) == *old(overrides)
                &&& *final(log) == *old(log)
            },
        },
{
    let entity = match ids.get_entity(unit) {
        Some(e) => e,
        None => {
            return None;
        },
    };
    let i = match find_phased(rows, entity) {
        Some(i) => i,
        None => {
            return None;
        },
    };
    if phase_idx >= rows[i].pending.len() {
        proof {
            assert forall|k: int| !can_enter(rows@, ids@.entity(unit), phase_idx as int, k) by {
                if is_first_phased(rows@, entity, k) {
                    if k < i {
                        assert(rows@[k].entity != entity);
                    }
                    if i < k {
                        assert(rows@[i as int].entity != entity);
                    }
                }
            }
        }
        return None;
    }
    let ghost a = rows@[i as int];
    assert(can_enter(old(rows)@, ids@.entity(unit), phase_idx as int, i as int));
    let phase = rows[i].pending.remove(phase_idx);
    let prev_name = rows[i].name.clone();
    if let Some(s) = phase.stats {
        rows[i].stats = s;
        rows[i].max_hp = s.max_hp;
        if rows[i].hp > s.max_hp {
            rows[i].hp = s.max_hp;
        }
    }
    if phase.heal_to_full {
        rows[i].hp = rows[i].max_hp;
    }
    let revived = rows[i].is_dead && rows[i].hp > 0;
    if revived {
        rows[i].is_dead = false;
    }
    if let Some(ability_ids) = &phase.ability_ids {
        rows[i].abilities = copy_strings(ability_ids);
    }
    if let Some(u) = state.unit(unit) {
        rows[i].runtime = u.runtime;
    }
    let reinfer_role = rows[i].has_role && (phase.stats.is_some() || phase.ability_ids.is_some()
        || phase.has_equipment);
    if let Some(n) = &phase.name {
        rows[i].name = n.clone();
    }
    let next_name = rows[i].name.clone();
    log.push(
        CombatEvent::PhaseEntered {
            actor: entity,
            prev_name,
            next_name,
            flavor: phase.flavor.clone(),
        },
    );
    if phase.victory_override.is_some() || phase.turn_limit.is_some() {
        overrides.push(
            PhaseOverrideIntent {
                entity,
                victory_override: phase.victory_override,
                turn_limit: phase.turn_limit,
            },
        );
    }
    assert(entered(a, rows@[i as int], phase_idx as int, unit, *state));
    Some(
        PhaseWrites { entity, revived, reinfer_role, behavior: phase.ai_behavior, tags: phase.tags },
    )
}

// ---------------------------------------------------------------------------
// Objective and deadline
// ---------------------------------------------------------------------------

/// A deadline: so many rounds from the given one.
#[derive(Clone, Copy, PartialEq, Eq, Structural, Debug)]
pub struct PhaseDeadline {
    pub phase_started_round: u32,
    pub limit: u32,
}

/// A mark on the combatant that must fall.
#[derive(Clone, Copy, PartialEq, Eq, Structural, Debug)]
pub struct VictoryMark {
    pub entity: Entity,
    pub marker_color: u32,
}

/// The mark that an intent asks for. It goes to the combatant whose phase it
/// is, whatever name the condition carries.
pub open spec fn mark_of(intent: PhaseOverrideIntent) -> Option<VictoryMark> {
    match intent.victory_override {
        Some(VictoryCondition::KillTarget { target, marker_color }) => Some(
            VictoryMark { entity: intent.entity, marker_color },
        ),
        _ => None,
    }
}

/// The marks that intents ask for, in order.
pub open spec fn marks_of(intents: Seq<PhaseOverrideIntent>) -> Seq<VictoryMark>
    decreases intents.len(),
{
    if intents.len() == 0 {
        Seq::empty()
    } else {
        let rest = marks_of(intents.drop_last());
        match mark_of(intents.last()) {
            Some(m) => rest.push(m),
            None => rest,
        }
    }
}

/// The objective after intents: that of the last which has one.
pub open spec fn objective_after(
    before: VictoryCondition,
    intents: Seq<PhaseOverrideIntent>,
) -> VictoryCondition
    decreases intents.len(),
{
    if intents.len() == 0 {
        before
    } else {
        match intents.last().victory_override {
            Some(v) => v,
            None => objective_after(before, intents.drop_last()),
        }
    }
}

/// The deadline after intents: that of the last which has one.
pub open spec fn deadline_after(
    before: Option<PhaseDeadline>,
    intents: Seq<PhaseOverrideIntent>,
    round: u32,
) -> Option<PhaseDeadline>
    decreases intents.len(),
{
    if intents.len() == 0 {
        before
    } else {
        match intents.last().turn_limit {
            Some(limit) => Some(PhaseDeadline { phase_started_round: round, limit }),
            None => deadline_after(before, intents.drop_last(), round),
        }
    }
}

/// Whether any intent changes the objective.
pub open spec fn changes_objective(intents: Seq<PhaseOverrideIntent>) -> bool {
    exists|i: int| 0 <= i < intents.len() && (#[trigger] intents[i]).victory_override is Some
}

/// What intents ask of the display world besides objective and deadline.
#[derive(Debug)]
pub struct OverrideWrites {
    pub marks: Vec<VictoryMark>,
    /// Whether the hint of the phase is drawn anew.
    pub redraw_hint: bool,
}

fn copy_condition(v: &VictoryCondition) -> (r: VictoryCondition)
    ensures
        r == *v,
{
    match v {
        VictoryCondition::KillTarget { target, marker_color } => VictoryCondition::KillTarget {
            target: target.clone(),
            marker_color: *marker_color,
        },
        VictoryCondition::Other { code } => VictoryCondition::Other { code: *code },
    }
}

/// Carries out the intents, in order, and leaves none.
pub fn apply_phase_overrides_system(
    intents: &mut Vec<PhaseOverrideIntent>,
    objective: &mut VictoryCondition,
    deadline: &mut Option<PhaseDeadline>,
    round: u32,
) -> (r: OverrideWrites)
    ensures
        final(intents)@.len() == 0,
        *final(objective) == objective_after(*old(objective), old(intents)@),
        *final(deadline) == deadline_after(*old(deadline), old(intents)@, round),
        r.marks@ == marks_of(old(intents)@),
        r.redraw_hint == changes_objective(old(intents)@),
{
    let mut marks: Vec<VictoryMark> = Vec::new();
    let mut redraw_hint = false;
    let mut taken: Vec<PhaseOverrideIntent> = Vec::new();
    std::mem::swap(&mut taken, intents);
    let ghost was = *objective;
    let ghost due = *deadline;
    let mut i: usize = 0;
    assert(taken@.take(0) =~= Seq::empty());
    while i < taken.len()
        invariant
            i <= taken.len(),
            *objective == objective_after(was, taken@.take(i as int)),
            *deadline == deadline_after(due, taken@.take(i as int), round),
            marks@ == marks_of(taken@.take(i as int)),
            redraw_hint == changes_objective(taken@.take(i as int)),
        decreases taken.len() - i,
    {
        let ghost head = taken@.take(i as int);
        let ghost next = taken@.take(i + 1);
        assert(next.drop_last() =~= head);
        assert(next.last() == taken@[i as int]);
        proof {
            assert(changes_objective(head) ==> changes_objective(next)) by {
                if changes_objective(head) {
                    let k = choose|k: int|
                        0 <= k < head.len() && (#[trigger] head[k]).victory_override is Some;
                    assert(next[k].victory_override is Some);
                }
            }
            assert(changes_objective(next) ==> changes_objective(head)
                || taken@[i as int].victory_override is Some) by {
                if changes_objective(next) {
                    let k = choose|k: int|
                        0 <= k < next.len() && (#[trigger] next[k]).victory_override is Some;
                    if k < head.len() {
                        assert(head[k].victory_override is Some);
                    }
                }
            }
            if taken@[i as int].victory_override is Some {
                assert(next[i as int].victory_override is Some);
            }
        }
        let intent = &taken[i];
        if let Some(v) = &intent.victory_override {
            if let VictoryCondition::KillTarget { target, marker_color } = v {
                marks.push(VictoryMark { entity: intent.entity, marker_color: *marker_color });
            }
            *objective = copy_condition(v);
            redraw_hint = true;
        }
        if let Some(limit) = intent.turn_limit {
            *deadline = Some(PhaseDeadline { phase_started_round: round, limit });
        }
        i = i + 1;
    }
    assert(taken@.take(i as int) =~= taken@);
    OverrideWrites { marks, redraw_hint }
}

// ---------------------------------------------------------------------------
// Laws
// ---------------------------------------------------------------------------

/// Entering a phase uses it up: the row has one phase less, and the others keep
/// their order.
pub proof fn law_phase_is_used_up(
    a: PhasedRow,
    b: PhasedRow,
    idx: int,
    unit: UnitId,
    state: CombatState,
)
    requires
        0 <= idx < a.pending@.len(),
        entered(a, b, idx, unit, state),
    ensures
        b.pending@.len() == a.pending@.len() - 1,
        forall|j: int| 0 <= j < idx ==> b.pending@[j] == a.pending@[j],
        forall|j: int| idx <= j < b.pending@.len() ==> b.pending@[j] == a.pending@[j + 1],
{
}

/// After a phase that heals, or one with attributes of its own, nobody has more
/// hit points than its maximum; and no phase leaves a combatant marked as
/// fallen that has hit points.
pub proof fn law_phase_hp(a: PhasedRow, phase: EnemyPhase)
    ensures
        phase.heal_to_full ==> phase_hp(a, phase) == phase_max_hp(a, phase),
        phase.stats is Some ==> phase_hp(a, phase) <= phase_max_hp(a, phase),
        !phase.heal_to_full ==> phase_hp(a, phase) <= a.hp,
{
}

/// What a phase changes and what it leaves. New numbers replace the old ones; healing goes
/// to the new maximum; without it hit points only fall to a new maximum below them; and
/// what the phase does not name stays.
pub proof fn law_phase_changes_what_it_names(
    a: PhasedRow,
    b: PhasedRow,
    idx: int,
    unit: UnitId,
    state: CombatState,
)
    requires
        0 <= idx < a.pending@.len(),
        entered(a, b, idx, unit, state),
    ensures
        ({
            let phase = a.pending@[idx];
            &&& b.entity == a.entity
            &&& b.has_role == a.has_role
            &&& phase.stats matches Some(s) ==> b.max_hp == s.max_hp && b.stats == s
            &&& phase.stats is None ==> b.max_hp == a.max_hp && b.stats == a.stats
            &&& phase.heal_to_full ==> b.hp == b.max_hp
            &&& !phase.heal_to_full && (phase.stats is None || a.hp <= b.max_hp) ==> b.hp == a.hp
            &&& !phase.heal_to_full && phase.stats is Some && a.hp > b.max_hp ==> b.hp == b.max_hp
            &&& phase.name matches Some(n) ==> b.name == n
            &&& phase.name is None ==> b.name == a.name
            &&& phase.ability_ids matches Some(ids) ==> b.abilities@ == ids@
            &&& phase.ability_ids is None ==> b.abilities@ == a.abilities@
            &&& state.spec_unit(unit) matches Some(u) ==> b.runtime == u.runtime
            &&& state.spec_unit(unit) is None ==> b.runtime == a.runtime
            &&& b.is_dead <==> a.is_dead && b.hp <= 0
        }),
{
}

/// What entering a phase asks for. The fallen rises if and only if it has hit points
/// again; a profile is inferred anew if and only if there is one and the phase changes
/// what it rests on.
pub proof fn law_phase_asks(w: PhaseWrites, a: PhasedRow, b: PhasedRow, idx: int, unit: UnitId, state: CombatState)
    requires
        0 <= idx < a.pending@.len(),
        entered(a, b, idx, unit, state),
        asks(w, a, idx),
    ensures
        ({
            let phase = a.pending@[idx];
            &&& w.entity == a.entity
            &&& w.revived <==> a.is_dead && !b.is_dead
            &&& !a.has_role ==> !w.reinfer_role
            &&& a.has_role ==> (w.reinfer_role <==> phase.stats is Some || phase.ability_ids is Some
                || phase.has_equipment)
            &&& w.behavior == phase.ai_behavior
            &&& w.tags is Some <==> phase.tags is Some
            &&& w.tags matches Some(t) ==> t@ == phase.tags->0@
        }),
{
}

/// A phase leaves an intent, last, if and only if it changes the objective or sets a
/// limit; the intent says both and names the combatant.
pub proof fn law_phase_intent(before: Seq<PhaseOverrideIntent>, phase: EnemyPhase, entity: Entity)
    ensures
        ({
            let after = with_intent(before, phase, entity);
            &&& phase.victory_override is None && phase.turn_limit is None ==> after == before
            &&& phase.victory_override is Some || phase.turn_limit is Some ==> {
                &&& after.len() == before.len() + 1
                &&& after.drop_last() =~= before
                &&& after.last().entity == entity
                &&& after.last().victory_override == phase.victory_override
                &&& after.last().turn_limit == phase.turn_limit
            }
        }),
{
}

/// The last intent with an objective decides the objective, the last with a limit the
/// deadline, which counts from the present round; and each one whose target must fall
/// leaves its mark.
pub proof fn law_one_more_intent(
    objective: VictoryCondition,
    deadline: Option<PhaseDeadline>,
    intents: Seq<PhaseOverrideIntent>,
    more: PhaseOverrideIntent,
    round: u32,
)
    ensures
        objective_after(objective, Seq::empty()) == objective,
        deadline_after(deadline, Seq::empty(), round) == deadline,
        marks_of(Seq::empty()).len() == 0,
        ({
            let all = intents.push(more);
            &&& more.victory_override matches Some(v) ==> objective_after(objective, all) == v
            &&& more.victory_override is None ==> objective_after(objective, all)
                == objective_after(objective, intents)
            &&& more.turn_limit matches Some(l) ==> deadline_after(deadline, all, round) == Some(
                PhaseDeadline { phase_started_round: round, limit: l },
            )
            &&& more.turn_limit is None ==> deadline_after(deadline, all, round) == deadline_after(
                deadline,
                intents,
                round,
            )
            &&& more.victory_override is Some && more.victory_override->0 is KillTarget
                ==> marks_of(all) == marks_of(intents).push(
                VictoryMark {
                    entity: more.entity,
                    marker_color: more.victory_override->0->marker_color,
                },
            )
            &&& more.victory_override is None || more.victory_override->0 is Other ==> marks_of(all)
                == marks_of(intents)
            &&& changes_objective(all) <==> changes_objective(intents)
                || more.victory_override is Some
        }),
{
    let all = intents.push(more);
    assert(all.drop_last() =~= intents);
    if changes_objective(intents) {
        let i = choose|i: int|
            0 <= i < intents.len() && (#[trigger] intents[i]).victory_override is Some;
        assert(all[i] == intents[i]);
    }
    if more.victory_override is Some {
        assert(all[intents.len() as int] == more);
    }
    if changes_objective(all) {
        let i = choose|i: int| 0 <= i < all.len() && (#[trigger] all[i]).victory_override is Some;
        if i < intents.len() {
            assert(intents[i] == all[i]);
        }
    }
}

/// Only the first combatant that is named can enter a phase, and only one that it has
/// still pending.
pub proof fn law_who_can_enter(rows: Seq<PhasedRow>, entity: Option<Entity>, idx: int, i: int, j: int)
    requires
        can_enter(rows, entity, idx, i),
    ensures
        0 <= i < rows.len(),
        entity == Some(rows[i].entity),
        idx < rows[i].pending@.len(),
        0 <= j < i ==> entity != Some(rows[j].entity),
        can_enter(rows, entity, idx, j) ==> i == j,
{
}

} // verus!
