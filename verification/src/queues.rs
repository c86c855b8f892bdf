//! Side effects that wait between the engine and the display world.

use crate::bootstrap::{entities_of, project_order};
use crate::hex::Hex;
use crate::ids::{Entity, IdTable, UnitId, UnitIdMap};
use crate::state::{CombatState, TurnQueue};
use vstd::prelude::*;

verus! {

/// A movement animation that waits to be played.
#[derive(Debug)]
pub struct PendingAnim {
    pub token: Entity,
    pub waypoints: Vec<Hex>,
}

/// Changes to whose turn it is.
#[derive(Debug)]
pub struct BridgeTurnLifecycle {
    pub remove_active: Vec<UnitId>,
    pub insert_active: Vec<UnitId>,
    /// Whether a new round began.
    pub round_started: bool,
}

/// How a combat is won.
#[derive(Debug)]
pub enum VictoryCondition {
    /// One marked combatant must fall.
    KillTarget { target: String, marker_color: u32 },
    /// Any other condition; its code is the content's own, and never read here.
    Other { code: u32 },
}

/// A change of the objective, or a deadline, that a phase brings.
#[derive(Debug)]
pub struct PhaseOverrideIntent {
    pub entity: Entity,
    pub victory_override: Option<VictoryCondition>,
    pub turn_limit: Option<u32>,
}

/// Everything that waits to be written to the display world.
#[derive(Debug)]
pub struct BridgeQueues {
    pub deaths: Vec<UnitId>,
    pub turn_lifecycle: BridgeTurnLifecycle,
    pub animations: Vec<PendingAnim>,
    pub phases: Vec<(UnitId, usize)>,
    pub phase_overrides: Vec<PhaseOverrideIntent>,
    pub env_revealed: bool,
}

impl BridgeQueues {
    /// Whether nothing waits.
    pub open spec fn is_idle(&self) -> bool {
        &&& self.deaths@.len() == 0
        &&& self.turn_lifecycle.remove_active@.len() == 0
        &&& self.turn_lifecycle.insert_active@.len() == 0
        &&& !self.turn_lifecycle.round_started
        &&& self.animations@.len() == 0
        &&& self.phases@.len() == 0
        &&& self.phase_overrides@.len() == 0
        &&& !self.env_revealed
    }
}

impl Default for BridgeQueues {
    fn default() -> (r: BridgeQueues)
        ensures
            r.is_idle(),
    {
        BridgeQueues {
            deaths: Vec::new(),
            turn_lifecycle: BridgeTurnLifecycle {
                remove_active: Vec::new(),
                insert_active: Vec::new(),
                round_started: false,
            },
            animations: Vec::new(),
            phases: Vec::new(),
            phase_overrides: Vec::new(),
            env_revealed: false,
        }
    }
}

// ---------------------------------------------------------------------------
// Before the state is written back
// ---------------------------------------------------------------------------

/// What to do to the display world before the state is written back. The turn
/// is taken from `deactivate` before it is given to `activate`.
#[derive(Debug)]
pub struct PreProjection {
    pub mark_dead: Vec<Entity>,
    pub deactivate: Vec<Entity>,
    pub activate: Vec<Entity>,
    /// Whether the phase that starts a round is entered.
    pub start_round: bool,
}

/// Whether deaths and changes of turn are taken out of the queues, and nothing else.
pub open spec fn pre_projected(
    before: BridgeQueues,
    after: BridgeQueues,
    r: PreProjection,
    ids: IdTable,
) -> bool {
    &&& r.mark_dead@ == entities_of(before.deaths@, ids)
    &&& r.deactivate@ == entities_of(before.turn_lifecycle.remove_active@, ids)
    &&& r.activate@ == entities_of(before.turn_lifecycle.insert_active@, ids)
    &&& r.start_round == before.turn_lifecycle.round_started
    &&& after.deaths@.len() == 0
    &&& after.turn_lifecycle.remove_active@.len() == 0
    &&& after.turn_lifecycle.insert_active@.len() == 0
    &&& !after.turn_lifecycle.round_started
    &&& after.animations == before.animations
    &&& after.phases == before.phases
    &&& after.phase_overrides == before.phase_overrides
    &&& after.env_revealed == before.env_revealed
}

/// Takes deaths and changes of turn out of the queues. Units without an entity
/// are dropped. Whose turn begins is taken out also when a round starts.
pub fn apply_bridge_queues_pre_projection(
    queues: &mut BridgeQueues,
    ids: &UnitIdMap,
) -> (r: PreProjection)
    ensures
        pre_projected(*old(queues), *final(queues), r, ids@),
{
    let r = PreProjection {
        mark_dead: project_order(&queues.deaths, ids),
        deactivate: project_order(&queues.turn_lifecycle.remove_active, ids),
        activate: project_order(&queues.turn_lifecycle.insert_active, ids),
        start_round: queues.turn_lifecycle.round_started,
    };
    queues.deaths = Vec::new();
    queues.turn_lifecycle = BridgeTurnLifecycle {
        remove_active: Vec::new(),
        insert_active: Vec::new(),
        round_started: false,
    };
    r
}

/// Who holds the turn once it was taken from some and given to others.
pub open spec fn holders(
    before: Set<Entity>,
    deactivate: Seq<Entity>,
    activate: Seq<Entity>,
) -> Set<Entity> {
    before.difference(deactivate.to_set()).union(activate.to_set())
}

/// If the turn is taken from everyone who held it and given to one combatant,
/// that one alone holds it.
pub proof fn law_exactly_one_holder(
    before: Set<Entity>,
    deactivate: Seq<Entity>,
    activate: Seq<Entity>,
    next: Entity,
)
    requires
        forall|e: Entity| #[trigger] before.contains(e) ==> deactivate.contains(e),
        activate == seq![next],
    ensures
        holders(before, deactivate, activate) == set![next],
{
    let h = holders(before, deactivate, activate);
    assert(activate[0] == next);
    assert forall|e: Entity| h.contains(e) == set![next].contains(e) by {
        if before.contains(e) {
            assert(deactivate.to_set().contains(e));
        }
    }
    assert(h =~= set![next]);
}

// ---------------------------------------------------------------------------
// After the state is written back
// ---------------------------------------------------------------------------

/// What to do to the display world after the state is written back.
#[derive(Debug)]
pub struct PostProjection {
    /// Animations to play after those already waiting.
    pub animations: Vec<PendingAnim>,
    /// Whether the cells are drawn anew.
    pub redraw_cells: bool,
    /// Phase transitions to write, in order.
    pub transitions: Vec<(UnitId, usize)>,
}

/// Whether animations, phase transitions and the redraw request are taken out of the
/// queues, and nothing else.
pub open spec fn post_projected(
    before: BridgeQueues,
    after: BridgeQueues,
    r: PostProjection,
) -> bool {
    &&& r.animations == before.animations
    &&& r.redraw_cells == before.env_revealed
    &&& r.transitions == before.phases
    &&& after.animations@.len() == 0
    &&& !after.env_revealed
    &&& after.phases@.len() == 0
    &&& after.deaths == before.deaths
    &&& after.turn_lifecycle == before.turn_lifecycle
    &&& after.phase_overrides == before.phase_overrides
}

/// Takes animations, phase transitions and the redraw request out of the
/// queues.
pub fn apply_bridge_queues_post_projection(queues: &mut BridgeQueues) -> (r: PostProjection)
    ensures
        post_projected(*old(queues), *final(queues), r),
{
    let mut animations: Vec<PendingAnim> = Vec::new();
    let mut transitions: Vec<(UnitId, usize)> = Vec::new();
    std::mem::swap(&mut animations, &mut queues.animations);
    std::mem::swap(&mut transitions, &mut queues.phases);
    let redraw_cells = queues.env_revealed;
    queues.env_revealed = false;
    PostProjection { animations, redraw_cells, transitions }
}

// ---------------------------------------------------------------------------
// Between combats
// ---------------------------------------------------------------------------

/// Forgets the engine's state, the ids and all that waits, so that the next
/// combat starts clean.
pub fn reset_engine_mirrors(
    state: &mut CombatState,
    ids: &mut UnitIdMap,
    queues: &mut BridgeQueues,
)
    ensures
        final(state).units@.len() == 0,
        final(state).round == 0,
        final(state).turn_queue.order@.len() == 0,
        final(state).turn_queue.index == 0,
        final(state).environment@.len() == 0,
        final(state).blocked_hexes@.len() == 0,
        final(ids)@ == IdTable::empty(),
        final(queues).is_idle(),
{
    *state = CombatState {
        units: Vec::new(),
        round: 0,
        turn_queue: TurnQueue { order: Vec::new(), index: 0 },
        environment: Vec::new(),
        blocked_hexes: Vec::new(),
    };
    ids.clear();
    *queues = BridgeQueues::default();
}

/// What is taken out before the state is written back is taken once: taking again finds
/// nothing. What is for afterwards waits.
pub proof fn law_taken_once_before(
    a: BridgeQueues,
    b: BridgeQueues,
    c: BridgeQueues,
    first: PreProjection,
    again: PreProjection,
    ids: IdTable,
)
    requires
        pre_projected(a, b, first, ids),
        pre_projected(b, c, again, ids),
    ensures
        again.mark_dead@.len() == 0 && again.deactivate@.len() == 0 && again.activate@.len() == 0,
        !again.start_round,
        first.start_round == a.turn_lifecycle.round_started,
        c.animations == a.animations && c.phases == a.phases,
        c.phase_overrides == a.phase_overrides && c.env_revealed == a.env_revealed,
{
}

/// Whoever is queued with an entity is taken out under it: the dead, those whose turn is over
/// and those whose turn begins, each as what it is.
pub proof fn law_queued_are_taken_out(
    a: BridgeQueues,
    b: BridgeQueues,
    r: PreProjection,
    ids: IdTable,
    i: int,
    e: Entity,
)
    requires
        pre_projected(a, b, r, ids),
    ensures
        0 <= i < a.deaths@.len() && ids.entity(a.deaths@[i]) == Some(e) ==> r.mark_dead@.contains(
            e,
        ),
        0 <= i < a.turn_lifecycle.remove_active@.len() && ids.entity(
            a.turn_lifecycle.remove_active@[i],
        ) == Some(e) ==> r.deactivate@.contains(e),
        0 <= i < a.turn_lifecycle.insert_active@.len() && ids.entity(
            a.turn_lifecycle.insert_active@[i],
        ) == Some(e) ==> r.activate@.contains(e),
        r.mark_dead@.len() <= a.deaths@.len(),
        r.deactivate@.len() <= a.turn_lifecycle.remove_active@.len(),
        r.activate@.len() <= a.turn_lifecycle.insert_active@.len(),
{
    named_are_listed(a.deaths@, ids, i, e);
    named_are_listed(a.turn_lifecycle.remove_active@, ids, i, e);
    named_are_listed(a.turn_lifecycle.insert_active@, ids, i, e);
}

proof fn named_are_listed(order: Seq<UnitId>, ids: IdTable, i: int, e: Entity)
    ensures
        0 <= i < order.len() && ids.entity(order[i]) == Some(e) ==> entities_of(
            order,
            ids,
        ).contains(e),
        entities_of(order, ids).len() <= order.len(),
    decreases order.len(),
{
    if order.len() > 0 {
        let part = order.drop_last();
        named_are_listed(part, ids, i, e);
        let (x, y) = (entities_of(part, ids), entities_of(order, ids));
        if 0 <= i < part.len() && ids.entity(order[i]) == Some(e) {
            let k = choose|k: int| 0 <= k < x.len() && x[k] == e;
            assert(y[k] == e);
        }
        if i == part.len() && ids.entity(order[i]) == Some(e) {
            assert(y[x.len() as int] == e);
        }
    }
}

/// Animations, transitions and the wish to redraw are taken out as they are, once; what is for
/// before waits.
pub proof fn law_taken_once_after(
    a: BridgeQueues,
    b: BridgeQueues,
    c: BridgeQueues,
    first: PostProjection,
    again: PostProjection,
)
    requires
        post_projected(a, b, first),
        post_projected(b, c, again),
    ensures
        first.animations@ == a.animations@,
        first.transitions@ == a.phases@,
        first.redraw_cells == a.env_revealed,
        again.animations@.len() == 0 && again.transitions@.len() == 0 && !again.redraw_cells,
        c.deaths == a.deaths && c.turn_lifecycle == a.turn_lifecycle && c.phase_overrides
            == a.phase_overrides,
{
}

/// After both, and once the overrides are gone, nothing waits.
pub proof fn law_both_leave_nothing(
    a: BridgeQueues,
    b: BridgeQueues,
    c: BridgeQueues,
    first: PreProjection,
    second: PostProjection,
    ids: IdTable,
)
    requires
        pre_projected(a, b, first, ids),
        post_projected(b, c, second),
    ensures
        c.is_idle() <==> a.phase_overrides@.len() == 0,
{
}

} // verus!
