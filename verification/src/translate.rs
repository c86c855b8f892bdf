//! Engine events turned into log lines and queued side effects.

use crate::content::{AoEShape, ContentView};
use crate::events::{CombatEvent, Event, PoolChangeCause, ReactionKind, SpawnBlockedReason};
use crate::events::{TurnEndCause, TurnSkipReason};
use crate::hex::Hex;
use crate::ids::{Entity, IdTable, UnitId, UnitIdMap};
use crate::queues::BridgeQueues;
use crate::state::{
    find_unit, CombatState, CritFailEffect, EffectSource, EnvId, PoolKind, Unit,
};
use crate::text::{decimal, owned, push_decimal};
use vstd::prelude::*;

verus! {

/// Progress of a move while its events are translated.
#[derive(Debug)]
pub struct MoveCtx {
    pub actor: Entity,
    /// Where the first step began.
    pub first_from: Option<Hex>,
    /// Where the last step ended.
    pub last_to: Option<Hex>,
    /// All cells passed, the start included.
    pub waypoints: Vec<Hex>,
    /// Target of an opportunity attack whose damage has not been seen yet.
    pub pending_aoo_target: Option<UnitId>,
}

/// Everything that translation reads and extends.
#[derive(Debug)]
pub struct TranslateCtx {
    pub log: Vec<CombatEvent>,
    pub queues: BridgeQueues,
    /// Whether the events come from a cast.
    pub cast: bool,
    /// Set while the events come from a move.
    pub move_: Option<MoveCtx>,
}

/// Progress of a move.
#[verifier::ext_equal]
pub struct Track {
    pub actor: Entity,
    pub first_from: Option<Hex>,
    pub last_to: Option<Hex>,
    pub waypoints: Seq<Hex>,
    pub pending: Option<UnitId>,
}

/// What a translation has produced so far.
#[verifier::ext_equal]
pub struct Translation {
    pub log: Seq<CombatEvent>,
    pub deaths: Seq<UnitId>,
    pub remove_active: Seq<UnitId>,
    pub insert_active: Seq<UnitId>,
    pub round_started: bool,
    pub env_revealed: bool,
    pub cast: bool,
    pub track: Option<Track>,
}

impl View for MoveCtx {
    type V = Track;

    open spec fn view(&self) -> Track {
        Track {
            actor: self.actor,
            first_from: self.first_from,
            last_to: self.last_to,
            waypoints: self.waypoints@,
            pending: self.pending_aoo_target,
        }
    }
}

impl View for TranslateCtx {
    type V = Translation;

    open spec fn view(&self) -> Translation {
        Translation {
            log: self.log@,
            deaths: self.queues.deaths@,
            remove_active: self.queues.turn_lifecycle.remove_active@,
            insert_active: self.queues.turn_lifecycle.insert_active@,
            round_started: self.queues.turn_lifecycle.round_started,
            env_revealed: self.queues.env_revealed,
            cast: self.cast,
            track: match self.move_ {
                Some(m) => Some(m@),
                None => None,
            },
        }
    }
}

impl Translation {
    /// Target of the opportunity attack whose damage is awaited.
    pub open spec fn awaited(self) -> Option<UnitId> {
        match self.track {
            Some(t) => t.pending,
            None => None,
        }
    }
}

/// No element or one.
pub open spec fn opt_seq<T>(o: Option<T>) -> Seq<T> {
    match o {
        Some(t) => seq![t],
        None => Seq::empty(),
    }
}

/// Whether a unit is in the state without a hit point left.
pub open spec fn is_corpse(units: Seq<Unit>, id: UnitId) -> bool {
    match find_unit(units, id) {
        Some(u) => u.hp() <= 0,
        None => false,
    }
}

/// The log line of damage that no opportunity attack caused.
pub open spec fn damage_line(
    ids: IdTable,
    target: UnitId,
    raw: i32,
    armor_reduced: i32,
    amount: i32,
) -> Option<CombatEvent> {
    match ids.entity(target) {
        Some(e) => Some(
            CombatEvent::DamageResult { target: e, raw, armor_reduced, final_damage: amount },
        ),
        None => None,
    }
}

/// The log line of an opportunity attack; both units must have entities.
pub open spec fn aoo_line(
    ids: IdTable,
    attacker: UnitId,
    target: UnitId,
    damage: i32,
    killed: bool,
) -> Option<CombatEvent> {
    match (ids.entity(attacker), ids.entity(target)) {
        (Some(a), Some(t)) => Some(
            CombatEvent::OpportunityAttack { attacker: a, target: t, damage, killed },
        ),
        _ => None,
    }
}

/// The log line, if any, that one event leaves.
///
/// In a move damage is recorded only when it hits the unit that an opportunity
/// attack is awaited on: as that attack when it comes from a unit, plainly when it
/// comes from the environment. Outside moves it is always recorded plainly: in a
/// cast with the mitigation as reported (the engine has zeroed it for piercing
/// casts), elsewhere, as in a move, with no mitigation for piercing damage. Some
/// events are recorded only in a cast (healing, applied statuses, critical
/// failures, blocked summons) or only outside casts and moves (damage and healing
/// over time). Nothing is recorded of a unit that has no entity.
pub open spec fn log_line(
    ev: Event,
    cast: bool,
    moving: bool,
    awaited: Option<UnitId>,
    ids: IdTable,
    units: Seq<Unit>,
) -> Option<CombatEvent> {
    match ev {
        Event::UnitDamaged { target, amount, raw, mitigation, pierces, source } => {
            let plain = damage_line(
                ids,
                target,
                raw,
                if pierces && (moving || !cast) {
                    0
                } else {
                    mitigation
                },
                amount,
            );
            if !moving {
                plain
            } else if awaited != Some(target) {
                None
            } else {
                match source {
                    EffectSource::Unit(attacker) => aoo_line(
                        ids,
                        attacker,
                        target,
                        amount,
                        is_corpse(units, target),
                    ),
                    EffectSource::Env(_) => plain,
                }
            }
        },
        Event::DotDamaged { target, source, source_status, raw, mitigation, pierces, amount } =>
        match ids.entity(target) {
            Some(e) if !cast && !moving => Some(
                CombatEvent::DotDamaged {
                    target: e,
                    source: match source {
                        EffectSource::Unit(u) => ids.entity(u),
                        EffectSource::Env(_) => None,
                    },
                    source_status,
                    raw,
                    mitigation,
                    pierces,
                    amount,
                },
            ),
            _ => None,
        },
        Event::HotHealed { target, source_status, amount } => match ids.entity(target) {
            Some(e) if !cast && !moving => Some(
                CombatEvent::HotHealed { target: e, source_status, amount },
            ),
            _ => None,
        },
        Event::StatusRemoved { target, status } => match ids.entity(target) {
            Some(e) => Some(CombatEvent::StatusExpired { target: e, status }),
            None => None,
        },
        Event::AuraStatusLost { target, status_id } => match ids.entity(target) {
            Some(e) => Some(CombatEvent::StatusExpired { target: e, status: status_id }),
            None => None,
        },
        Event::AuraStatusGained { target, status_id } => match ids.entity(target) {
            Some(e) => Some(CombatEvent::StatusApplied { target: e, status: status_id }),
            None => None,
        },
        Event::UnitDied { unit } => match ids.entity(unit) {
            Some(e) => Some(CombatEvent::UnitDied { entity: e }),
            None => None,
        },
        Event::TurnEnded { actor, cause } => match ids.entity(actor) {
            Some(e) => Some(CombatEvent::TurnEnded { actor: e, cause }),
            None => None,
        },
        Event::TurnSkipped { actor, reason } => match ids.entity(actor) {
            Some(e) => Some(CombatEvent::TurnSkipped { actor: e, reason }),
            None => None,
        },
        Event::TurnStarted { actor } => match ids.entity(actor) {
            Some(e) => Some(CombatEvent::TurnStarted { actor: e }),
            None => None,
        },
        Event::PoolChanged { unit, pool, current, max, cause } => match ids.entity(unit) {
            Some(e) => Some(CombatEvent::PoolChanged { actor: e, pool, current, max, cause }),
            None => None,
        },
        Event::HazardTriggered { env_id, victim } => match ids.entity(victim) {
            Some(e) => Some(CombatEvent::HazardTriggered { victim: e }),
            None => None,
        },
        Event::InitiativeRolled { unit, roll, dex_mod, total } => match ids.entity(unit) {
            Some(e) => Some(CombatEvent::InitiativeRolled { actor: e, dex_mod, roll, total }),
            None => None,
        },
        Event::RoundStarted { round } => Some(CombatEvent::RoundStarted { round }),
        _ => cast_line(ev, cast, ids),
    }
}

/// The log line of an event that is recorded only in a cast.
pub open spec fn cast_line(ev: Event, cast: bool, ids: IdTable) -> Option<CombatEvent> {
    match ev {
        Event::StatusApplied { target, status } => match ids.entity(target) {
            Some(e) if cast => Some(CombatEvent::StatusApplied { target: e, status }),
            _ => None,
        },
        Event::UnitHealed { target, amount } => match ids.entity(target) {
            Some(e) if cast => Some(CombatEvent::HealResult { target: e, amount }),
            _ => None,
        },
        Event::CritFailed { actor, outcome } => match ids.entity(actor) {
            Some(e) if cast => Some(
                if outcome is Miss {
                    CombatEvent::CriticalMiss { actor: e }
                } else {
                    CombatEvent::CritFailSideEffect { actor: e, outcome }
                },
            ),
            _ => None,
        },
        Event::SpawnBlocked { summoner, reason } => match ids.entity(summoner) {
            Some(e) if cast => Some(CombatEvent::SummonBlocked { summoner: e, reason }),
            _ => None,
        },
        _ => None,
    }
}

/// The unit, if it has an entity, that an event marks as dead.
pub open spec fn death_of(ev: Event, ids: IdTable) -> Option<UnitId> {
    match ev {
        Event::UnitDied { unit } if ids.entity(unit) is Some => Some(unit),
        _ => None,
    }
}

/// The unit, if it has an entity, whose turn an event ends or skips.
pub open spec fn deactivated_by(ev: Event, ids: IdTable) -> Option<UnitId> {
    match ev {
        Event::TurnEnded { actor, cause } if ids.entity(actor) is Some => Some(actor),
        Event::TurnSkipped { actor, reason } if ids.entity(actor) is Some => Some(actor),
        _ => None,
    }
}

/// The unit, if it has an entity, whose turn an event starts.
pub open spec fn activated_by(ev: Event, ids: IdTable) -> Option<UnitId> {
    match ev {
        Event::TurnStarted { actor } if ids.entity(actor) is Some => Some(actor),
        _ => None,
    }
}

impl Track {
    /// Progress after one more event: steps extend the path, an opportunity
    /// attack makes its damage awaited, and damage to the awaited unit ends the
    /// wait.
    pub open spec fn after(self, ev: Event) -> Track {
        match ev {
            Event::UnitMoved { unit, from, to } => Track {
                first_from: if self.first_from is None {
                    Some(from)
                } else {
                    self.first_from
                },
                last_to: Some(to),
                waypoints: if self.first_from is None {
                    self.waypoints.push(from).push(to)
                } else {
                    self.waypoints.push(to)
                },
                ..self
            },
            Event::ReactionFired { kind, reactor, against } if kind is OpportunityAttack => Track {
                pending: Some(against),
                ..self
            },
            Event::UnitDamaged { target, amount, raw, mitigation, pierces, source } if self.pending
                == Some(target) => Track { pending: None, ..self },
            _ => self,
        }
    }
}

impl Translation {
    /// The translation after one more event.
    pub open spec fn after(self, ev: Event, ids: IdTable, units: Seq<Unit>) -> Translation {
        Translation {
            log: self.log + opt_seq(
                log_line(ev, self.cast, self.track is Some, self.awaited(), ids, units),
            ),
            deaths: self.deaths + opt_seq(death_of(ev, ids)),
            remove_active: self.remove_active + opt_seq(deactivated_by(ev, ids)),
            insert_active: self.insert_active + opt_seq(activated_by(ev, ids)),
            round_started: self.round_started || ev is RoundStarted,
            env_revealed: self.env_revealed || ev is EnvRevealed,
            cast: self.cast,
            track: match self.track {
                Some(t) => Some(t.after(ev)),
                None => None,
            },
        }
    }

    /// The translation after all of `evs`, in order.
    pub open spec fn after_all(self, evs: Seq<Event>, ids: IdTable, units: Seq<Unit>) -> Translation
        decreases evs.len(),
    {
        if evs.len() == 0 {
            self
        } else {
            self.after_all(evs.drop_last(), ids, units).after(evs.last(), ids, units)
        }
    }
}

/// The queues that translation leaves alone.
pub open spec fn other_queues_kept(a: BridgeQueues, b: BridgeQueues) -> bool {
    &&& a.animations == b.animations
    &&& a.phases == b.phases
    &&& a.phase_overrides == b.phase_overrides
}

/// Records damage that no opportunity attack caused.
fn log_damage(
    log: &mut Vec<CombatEvent>,
    ids: &UnitIdMap,
    target: UnitId,
    raw: i32,
    armor_reduced: i32,
    amount: i32,
)
    ensures
        final(log)@ == old(log)@ + opt_seq(damage_line(ids@, target, raw, armor_reduced, amount)),
{
    if let Some(e) = ids.get_entity(target) {
        log.push(
            CombatEvent::DamageResult { target: e, raw, armor_reduced, final_damage: amount },
        );
    }
}

/// Translates a damage event.
fn translate_damage(
    ctx: &mut TranslateCtx,
    ids: &UnitIdMap,
    state: &CombatState,
    target: UnitId,
    amount: i32,
    raw: i32,
    mitigation: i32,
    pierces: bool,
    source: EffectSource,
)
    ensures
        final(ctx)@ == old(ctx)@.after(
            (Event::UnitDamaged { target, amount, raw, mitigation, pierces, source }),
            ids@,
            state.units@,
        ),
        other_queues_kept(final(ctx).queues, old(ctx).queues),
{
    let ghost before = ctx@;
    let in_cast = ctx.cast && ctx.move_.is_none();
    let armor_reduced: i32 = if pierces && !in_cast {
        0
    } else {
        mitigation
    };
    let moving = ctx.move_.is_some();
    let mut awaited = false;
    if let Some(mut mv) = ctx.move_.take() {
        awaited = match mv.pending_aoo_target {
            Some(t) => t == target,
            None => false,
        };
        if awaited {
            mv.pending_aoo_target = None;
        }
        ctx.move_ = Some(mv);
    }
    if awaited || !moving {
        match source {
            EffectSource::Unit(attacker) if awaited => {
                if let Some(a) = ids.get_entity(attacker) {
                    if let Some(t) = ids.get_entity(target) {
                        let killed = match state.unit(target) {
                            Some(u) => !u.is_alive(),
                            None => false,
                        };
                        ctx.log.push(
                            CombatEvent::OpportunityAttack {
                                attacker: a,
                                target: t,
                                damage: amount,
                                killed,
                            },
                        );
                    }
                }
            },
            _ => {
                log_damage(&mut ctx.log, ids, target, raw, armor_reduced, amount);
            },
        }
    }
    assert(ctx@ =~= before.after(
        Event::UnitDamaged { target, amount, raw, mitigation, pierces, source },
        ids@,
        state.units@,
    ));
}

/// Translates an event that is recorded only in a cast.
fn log_cast_event(log: &mut Vec<CombatEvent>, ids: &UnitIdMap, ev: &Event)
    ensures
        final(log)@ == old(log)@ + opt_seq(cast_line(*ev, true, ids@)),
{
    match ev {
        Event::StatusApplied { target, status } => {
            if let Some(e) = ids.get_entity(*target) {
                log.push(CombatEvent::StatusApplied { target: e, status: status.clone() });
            }
        },
        Event::UnitHealed { target, amount } => {
            if let Some(e) = ids.get_entity(*target) {
                log.push(CombatEvent::HealResult { target: e, amount: *amount });
            }
        },
        Event::CritFailed { actor, outcome } => {
            if let Some(e) = ids.get_entity(*actor) {
                match outcome {
                    CritFailEffect::Miss => {
                        log.push(CombatEvent::CriticalMiss { actor: e });
                    },
                    _ => {
                        log.push(CombatEvent::CritFailSideEffect { actor: e, outcome: *outcome });
                    },
                }
            }
        },
        Event::SpawnBlocked { summoner, reason } => {
            if let Some(e) = ids.get_entity(*summoner) {
                log.push(CombatEvent::SummonBlocked { summoner: e, reason: *reason });
            }
        },
        _ => {},
    }
}

/// Translates an event of damage or healing over time.
fn log_tick_event(log: &mut Vec<CombatEvent>, ids: &UnitIdMap, ev: &Event)
    requires
        ev is DotDamaged || ev is HotHealed,
    ensures
        forall|awaited: Option<UnitId>, units: Seq<Unit>|
            final(log)@ == old(log)@ + opt_seq(
                #[trigger] log_line(*ev, false, false, awaited, ids@, units),
            ),
{
    match ev {
        Event::DotDamaged { target, source, source_status, raw, mitigation, pierces, amount } => {
            if let Some(e) = ids.get_entity(*target) {
                let by: Option<Entity> = match source {
                    EffectSource::Unit(u) => ids.get_entity(*u),
                    EffectSource::Env(_) => None,
                };
                log.push(
                    CombatEvent::DotDamaged {
                        target: e,
                        source: by,
                        source_status: source_status.clone(),
                        raw: *raw,
                        mitigation: *mitigation,
                        pierces: *pierces,
                        amount: *amount,
                    },
                );
            }
        },
        Event::HotHealed { target, source_status, amount } => {
            if let Some(e) = ids.get_entity(*target) {
                log.push(
                    CombatEvent::HotHealed {
                        target: e,
                        source_status: source_status.clone(),
                        amount: *amount,
                    },
                );
            }
        },
        _ => {},
    }
}

/// Translates one event.
pub fn translate_one(ev: &Event, ctx: &mut TranslateCtx, ids: &UnitIdMap, state: &CombatState)
    ensures
        final(ctx)@ == old(ctx)@.after(*ev, ids@, state.units@),
        other_queues_kept(final(ctx).queues, old(ctx).queues),
{
    let ghost before = ctx@;
    match ev {
        Event::UnitMoved { unit, from, to } => {
            if let Some(mut mv) = ctx.move_.take() {
                if mv.first_from.is_none() {
                    mv.first_from = Some(*from);
                    mv.waypoints.push(*from);
                }
                mv.last_to = Some(*to);
                mv.waypoints.push(*to);
                ctx.move_ = Some(mv);
            }
        },
        Event::ReactionFired { kind, reactor, against } => {
            if let ReactionKind::OpportunityAttack = kind {
                if let Some(mut mv) = ctx.move_.take() {
                    mv.pending_aoo_target = Some(*against);
                    ctx.move_ = Some(mv);
                }
            }
        },
        Event::UnitDamaged { target, amount, raw, mitigation, pierces, source } => {
            translate_damage(
                ctx,
                ids,
                state,
                *target,
                *amount,
                *raw,
                *mitigation,
                *pierces,
                *source,
            );
        },
        Event::DotDamaged { .. } => {
            if !ctx.cast && ctx.move_.is_none() {
                log_tick_event(&mut ctx.log, ids, ev);
            }
        },
        Event::HotHealed { .. } => {
            if !ctx.cast && ctx.move_.is_none() {
                log_tick_event(&mut ctx.log, ids, ev);
            }
        },
        Event::StatusRemoved { target, status } => {
            if let Some(e) = ids.get_entity(*target) {
                ctx.log.push(CombatEvent::StatusExpired { target: e, status: status.clone() });
            }
        },
        Event::AuraStatusGained { target, status_id } => {
            if let Some(e) = ids.get_entity(*target) {
                ctx.log.push(CombatEvent::StatusApplied { target: e, status: status_id.clone() });
            }
        },
        Event::AuraStatusLost { target, status_id } => {
            if let Some(e) = ids.get_entity(*target) {
                ctx.log.push(CombatEvent::StatusExpired { target: e, status: status_id.clone() });
            }
        },
        Event::UnitDied { unit } => {
            if let Some(e) = ids.get_entity(*unit) {
                ctx.log.push(CombatEvent::UnitDied { entity: e });
                ctx.queues.deaths.push(*unit);
            }
        },
        Event::TurnEnded { actor, cause } => {
            if let Some(e) = ids.get_entity(*actor) {
                ctx.queues.turn_lifecycle.remove_active.push(*actor);
                ctx.log.push(CombatEvent::TurnEnded { actor: e, cause: *cause });
            }
        },
        Event::TurnSkipped { actor, reason } => {
            if let Some(e) = ids.get_entity(*actor) {
                ctx.queues.turn_lifecycle.remove_active.push(*actor);
                ctx.log.push(CombatEvent::TurnSkipped { actor: e, reason: *reason });
            }
        },
        Event::RoundStarted { round } => {
            ctx.log.push(CombatEvent::RoundStarted { round: *round });
            ctx.queues.turn_lifecycle.round_started = true;
        },
        Event::TurnStarted { actor } => {
            if let Some(e) = ids.get_entity(*actor) {
                ctx.queues.turn_lifecycle.insert_active.push(*actor);
                ctx.log.push(CombatEvent::TurnStarted { actor: e });
            }
        },
        Event::PoolChanged { unit, pool, current, max, cause } => {
            if let Some(e) = ids.get_entity(*unit) {
                ctx.log.push(
                    CombatEvent::PoolChanged {
                        actor: e,
                        pool: *pool,
                        current: *current,
                        max: *max,
                        cause: *cause,
                    },
                );
            }
        },
        Event::HazardTriggered { env_id, victim } => {
            if let Some(e) = ids.get_entity(*victim) {
                ctx.log.push(CombatEvent::HazardTriggered { victim: e });
            }
        },
        Event::EnvRevealed { env_id } => {
            ctx.queues.env_revealed = true;
        },
        Event::InitiativeRolled { unit, roll, dex_mod, total } => {
            if let Some(e) = ids.get_entity(*unit) {
                ctx.log.push(
                    CombatEvent::InitiativeRolled {
                        actor: e,
                        dex_mod: *dex_mod,
                        roll: *roll,
                        total: *total,
                    },
                );
            }
        },
        _ => {
            if ctx.cast {
                log_cast_event(&mut ctx.log, ids, ev);
            }
        },
    }
    assert(ctx@ =~= before.after(*ev, ids@, state.units@));
}

/// Translates all events of one action, in order.
pub fn translate_events(
    events: &Vec<Event>,
    ctx: &mut TranslateCtx,
    ids: &UnitIdMap,
    state: &CombatState,
)
    ensures
        final(ctx)@ == old(ctx)@.after_all(events@, ids@, state.units@),
        other_queues_kept(final(ctx).queues, old(ctx).queues),
{
    let ghost before = ctx@;
    let ghost queues = ctx.queues;
    let mut i: usize = 0;
    assert(events@.take(0) =~= Seq::empty());
    while i < events.len()
        invariant
            i <= events.len(),
            ctx@ == before.after_all(events@.take(i as int), ids@, state.units@),
            other_queues_kept(ctx.queues, queues),
        decreases events.len() - i,
    {
        translate_one(&events[i], ctx, ids, state);
        assert(events@.take(i + 1).drop_last() =~= events@.take(i as int));
        i = i + 1;
    }
    assert(events@.take(i as int) =~= events@);
}

/// Whether a log line announces the use of an ability: by its name and its
/// price in action points where the content knows it, else by its bare id.
pub open spec fn announces(
    line: CombatEvent,
    actor: Entity,
    ability: Seq<char>,
    target: Entity,
    target_pos: Hex,
    content: ContentView,
) -> bool {
    match line {
        CombatEvent::AbilityUsed {
            actor: a,
            ability_name,
            target: t,
            target_pos: p,
            is_aoe,
            cost_str,
        } => {
            &&& a == actor
            &&& t == target
            &&& p == target_pos
            &&& match content.ability(ability) {
                Some(def) => {
                    &&& ability_name@ == def.name@
                    &&& is_aoe == !(def.aoe is Single)
                    &&& cost_str@ == "AP="@ + decimal(def.cost_ap as int)
                },
                None => ability_name@ == ability && !is_aoe && cost_str@.len() == 0,
            }
        },
        _ => false,
    }
}

/// Logs that an ability is used, ahead of what it does.
pub fn emit_ability_used(
    actor: Entity,
    ability: &String,
    target: Entity,
    target_pos: Hex,
    content: &ContentView,
    log: &mut Vec<CombatEvent>,
)
    ensures
        final(log)@.len() == old(log)@.len() + 1,
        final(log)@.drop_last() == old(log)@,
        announces(final(log)@.last(), actor, ability@, target, target_pos, *content),
{
    let ghost before = log@;
    let (ability_name, is_aoe, cost_str) = match content.ability_def(ability) {
        Some(def) => {
            let mut cost = owned("AP=");
            push_decimal(&mut cost, def.cost_ap as i64);
            let is_aoe = match def.aoe {
                AoEShape::Single => false,
                _ => true,
            };
            (def.name.clone(), is_aoe, cost)
        },
        None => (ability.clone(), false, String::new()),
    };
    log.push(
        CombatEvent::AbilityUsed { actor, ability_name, target, target_pos, is_aoe, cost_str },
    );
    assert(log@.drop_last() =~= before);
}

// ---------------------------------------------------------------------------
// Laws
// ---------------------------------------------------------------------------

/// Translating two event lists one after the other is translating their
/// concatenation.
pub proof fn law_translation_composes(
    t: Translation,
    a: Seq<Event>,
    b: Seq<Event>,
    ids: IdTable,
    units: Seq<Unit>,
)
    ensures
        t.after_all(a + b, ids, units) == t.after_all(a, ids, units).after_all(b, ids, units),
    decreases b.len(),
{
    if b.len() == 0 {
        assert(a + b =~= a);
    } else {
        assert((a + b).drop_last() =~= a + b.drop_last());
        law_translation_composes(t, a, b.drop_last(), ids, units);
    }
}

/// Translation only ever appends: the log and the queues keep what they held,
/// raised flags stay raised, and at most one log line is added for each event.
pub proof fn law_translation_only_appends(
    t: Translation,
    evs: Seq<Event>,
    ids: IdTable,
    units: Seq<Unit>,
)
    ensures
        ({
            let r = t.after_all(evs, ids, units);
            &&& t.log.is_prefix_of(r.log)
            &&& r.log.len() <= t.log.len() + evs.len()
            &&& t.deaths.is_prefix_of(r.deaths)
            &&& t.remove_active.is_prefix_of(r.remove_active)
            &&& t.insert_active.is_prefix_of(r.insert_active)
            &&& t.round_started ==> r.round_started
            &&& t.env_revealed ==> r.env_revealed
            &&& r.cast == t.cast
            &&& r.track is Some <==> t.track is Some
        }),
    decreases evs.len(),
{
    if evs.len() > 0 {
        law_translation_only_appends(t, evs.drop_last(), ids, units);
        let m = t.after_all(evs.drop_last(), ids, units);
        let r = t.after_all(evs, ids, units);
        assert(r.log.take(t.log.len() as int) =~= m.log.take(t.log.len() as int));
        assert(r.deaths.take(t.deaths.len() as int) =~= m.deaths.take(t.deaths.len() as int));
    }
}

/// A death is queued exactly when it is logged.
pub proof fn law_death_is_queued_iff_logged(
    t: Translation,
    ev: Event,
    ids: IdTable,
    units: Seq<Unit>,
)
    ensures
        t.after(ev, ids, units).deaths.len() > t.deaths.len() <==> (log_line(
            ev,
            t.cast,
            t.track is Some,
            t.awaited(),
            ids,
            units,
        ) matches Some(l) && l is UnitDied),
{
}

/// An opportunity attack is answered at most once: after damage to the awaited
/// unit no damage is awaited any more, whatever the damage came from.
pub proof fn law_awaited_damage_ends_the_wait(
    t: Translation,
    target: UnitId,
    amount: i32,
    raw: i32,
    mitigation: i32,
    pierces: bool,
    source: EffectSource,
    ids: IdTable,
    units: Seq<Unit>,
)
    requires
        t.awaited() == Some(target),
    ensures
        t.after(
            Event::UnitDamaged { target, amount, raw, mitigation, pierces, source },
            ids,
            units,
        ).awaited() is None,
{
}

/// In a move, damage to a unit on which no opportunity attack is awaited leaves
/// the translation as it is: nothing is recorded, and what was awaited still is.
pub proof fn law_unpaired_damage_is_passed_over(
    t: Translation,
    target: UnitId,
    amount: i32,
    raw: i32,
    mitigation: i32,
    pierces: bool,
    source: EffectSource,
    ids: IdTable,
    units: Seq<Unit>,
)
    requires
        t.track is Some,
        t.awaited() != Some(target),
    ensures
        t.after(
            Event::UnitDamaged { target, amount, raw, mitigation, pierces, source },
            ids,
            units,
        ) == t,
{
    assert(t.after(
        Event::UnitDamaged { target, amount, raw, mitigation, pierces, source },
        ids,
        units,
    ) =~= t);
}

/// The steps of a move, wherever other events stand between them, are recorded
/// as one path: it starts where the first step began and ends where the last
/// one ended.
pub proof fn law_path_spans_the_move(track: Track, evs: Seq<Event>)
    requires
        track.first_from is None,
        track.last_to is None,
        track.waypoints.len() == 0,
    ensures
        ({
            let r = track_after_all(track, evs);
            &&& r.first_from is None <==> r.waypoints.len() == 0
            &&& r.last_to is None <==> r.waypoints.len() == 0
            &&& r.waypoints.len() > 0 ==> r.first_from == Some(r.waypoints[0])
            &&& r.waypoints.len() > 0 ==> r.last_to == Some(r.waypoints.last())
        }),
    decreases evs.len(),
{
    if evs.len() > 0 {
        law_path_spans_the_move(track, evs.drop_last());
    }
}

/// Progress of a move after all of `evs`.
pub open spec fn track_after_all(track: Track, evs: Seq<Event>) -> Track
    decreases evs.len(),
{
    if evs.len() == 0 {
        track
    } else {
        track_after_all(track, evs.drop_last()).after(evs.last())
    }
}

/// A translation tracks the move by its events alone.
pub proof fn law_track_follows_events(
    t: Translation,
    evs: Seq<Event>,
    ids: IdTable,
    units: Seq<Unit>,
)
    requires
        t.track is Some,
    ensures
        t.after_all(evs, ids, units).track == Some(track_after_all(t.track->0, evs)),
    decreases evs.len(),
{
    if evs.len() > 0 {
        law_track_follows_events(t, evs.drop_last(), ids, units);
    }
}

/// Whether an event adds one line to the log and nothing else to it.
pub open spec fn tells(
    t: Translation,
    ev: Event,
    ids: IdTable,
    units: Seq<Unit>,
    line: CombatEvent,
) -> bool {
    t.after(ev, ids, units).log == t.log.push(line)
}

/// Whether an event leaves the log as it is.
pub open spec fn is_untold(t: Translation, ev: Event, ids: IdTable, units: Seq<Unit>) -> bool {
    t.after(ev, ids, units).log == t.log
}

proof fn lines_are_added(t: Translation, ev: Event, ids: IdTable, units: Seq<Unit>)
    ensures
        match log_line(ev, t.cast, t.track is Some, t.awaited(), ids, units) {
            Some(l) => tells(t, ev, ids, units, l),
            None => is_untold(t, ev, ids, units),
        },
{
    match log_line(ev, t.cast, t.track is Some, t.awaited(), ids, units) {
        Some(l) => {
            assert(t.log + seq![l] =~= t.log.push(l));
        },
        None => {
            assert(t.log + Seq::<CombatEvent>::empty() =~= t.log);
        },
    }
}

/// Damage outside a move is told of with the roll, what the armor took off and what went
/// through. Damage that pierces is told of without armor unless a cast dealt it.
pub proof fn law_damage_is_told(
    t: Translation,
    target: UnitId,
    amount: i32,
    raw: i32,
    mitigation: i32,
    pierces: bool,
    source: EffectSource,
    ids: IdTable,
    units: Seq<Unit>,
)
    requires
        t.track is None,
    ensures
        ({
            let ev = Event::UnitDamaged { target, amount, raw, mitigation, pierces, source };
            match ids.entity(target) {
                Some(e) => tells(
                    t,
                    ev,
                    ids,
                    units,
                    CombatEvent::DamageResult {
                        target: e,
                        raw,
                        armor_reduced: if t.cast || !pierces {
                            mitigation
                        } else {
                            0
                        },
                        final_damage: amount,
                    },
                ),
                None => is_untold(t, ev, ids, units),
            }
        }),
{
    lines_are_added(
        t,
        Event::UnitDamaged { target, amount, raw, mitigation, pierces, source },
        ids,
        units,
    );
}

/// Damage that a move waits for is an opportunity attack of the unit that dealt it; it
/// killed if and only if its target is left without hit points. Damage that no unit dealt
/// is told of as such, without armor where it pierces.
pub proof fn law_opportunity_attack_is_told(
    t: Translation,
    target: UnitId,
    amount: i32,
    raw: i32,
    mitigation: i32,
    pierces: bool,
    source: EffectSource,
    ids: IdTable,
    units: Seq<Unit>,
)
    requires
        t.track is Some,
        t.awaited() == Some(target),
        ids.entity(target) is Some,
    ensures
        ({
            let ev = Event::UnitDamaged { target, amount, raw, mitigation, pierces, source };
            let victim = ids.entity(target)->0;
            match source {
                EffectSource::Unit(by) => match ids.entity(by) {
                    Some(a) => tells(
                        t,
                        ev,
                        ids,
                        units,
                        CombatEvent::OpportunityAttack {
                            attacker: a,
                            target: victim,
                            damage: amount,
                            killed: find_unit(units, target) is Some && find_unit(
                                units,
                                target,
                            )->0.hp() <= 0,
                        },
                    ),
                    None => is_untold(t, ev, ids, units),
                },
                EffectSource::Env(_) => tells(
                    t,
                    ev,
                    ids,
                    units,
                    CombatEvent::DamageResult {
                        target: victim,
                        raw,
                        armor_reduced: if pierces {
                            0
                        } else {
                            mitigation
                        },
                        final_damage: amount,
                    },
                ),
            }
        }),
{
    lines_are_added(
        t,
        Event::UnitDamaged { target, amount, raw, mitigation, pierces, source },
        ids,
        units,
    );
}

/// Damage and healing over time are told of outside casts and moves alone, with all that
/// is known of them.
pub proof fn law_ticks_are_told(
    t: Translation,
    target: UnitId,
    source: EffectSource,
    status: String,
    raw: i32,
    mitigation: i32,
    pierces: bool,
    amount: i32,
    ids: IdTable,
    units: Seq<Unit>,
)
    ensures
        ({
            let dot = Event::DotDamaged {
                target,
                source,
                source_status: status,
                raw,
                mitigation,
                pierces,
                amount,
            };
            let hot = Event::HotHealed { target, source_status: status, amount };
            if t.cast || t.track is Some || ids.entity(target) is None {
                is_untold(t, dot, ids, units) && is_untold(t, hot, ids, units)
            } else {
                let e = ids.entity(target)->0;
                &&& tells(
                    t,
                    dot,
                    ids,
                    units,
                    CombatEvent::DotDamaged {
                        target: e,
                        source: match source {
                            EffectSource::Unit(by) => ids.entity(by),
                            EffectSource::Env(_) => None,
                        },
                        source_status: status,
                        raw,
                        mitigation,
                        pierces,
                        amount,
                    },
                )
                &&& tells(
                    t,
                    hot,
                    ids,
                    units,
                    CombatEvent::HotHealed { target: e, source_status: status, amount },
                )
            }
        }),
{
    lines_are_added(
        t,
        Event::DotDamaged {
            target,
            source,
            source_status: status,
            raw,
            mitigation,
            pierces,
            amount,
        },
        ids,
        units,
    );
    lines_are_added(t, Event::HotHealed { target, source_status: status, amount }, ids, units);
}

/// Statuses that come with an aura, and those that go with it or run out, are always told
/// of; one that is put on is told of where a cast puts it on.
pub proof fn law_statuses_are_told(
    t: Translation,
    target: UnitId,
    status: String,
    ids: IdTable,
    units: Seq<Unit>,
    e: Entity,
)
    requires
        ids.entity(target) == Some(e),
    ensures
        tells(
            t,
            Event::AuraStatusGained { target, status_id: status },
            ids,
            units,
            CombatEvent::StatusApplied { target: e, status },
        ),
        tells(
            t,
            Event::AuraStatusLost { target, status_id: status },
            ids,
            units,
            CombatEvent::StatusExpired { target: e, status },
        ),
        tells(
            t,
            Event::StatusRemoved { target, status },
            ids,
            units,
            CombatEvent::StatusExpired { target: e, status },
        ),
        t.cast ==> tells(
            t,
            Event::StatusApplied { target, status },
            ids,
            units,
            CombatEvent::StatusApplied { target: e, status },
        ),
        !t.cast ==> is_untold(t, Event::StatusApplied { target, status }, ids, units),
        is_untold(t, Event::StatusTicked { target, status }, ids, units),
{
    lines_are_added(t, Event::AuraStatusGained { target, status_id: status }, ids, units);
    lines_are_added(t, Event::AuraStatusLost { target, status_id: status }, ids, units);
    lines_are_added(t, Event::StatusRemoved { target, status }, ids, units);
    lines_are_added(t, Event::StatusApplied { target, status }, ids, units);
    lines_are_added(t, Event::StatusTicked { target, status }, ids, units);
}

/// Healing, failures and blocked summoning are told of where a cast is their cause, a
/// miss apart from failures with a consequence.
pub proof fn law_casts_are_told(
    t: Translation,
    unit: UnitId,
    amount: i32,
    outcome: CritFailEffect,
    reason: SpawnBlockedReason,
    ids: IdTable,
    units: Seq<Unit>,
    e: Entity,
)
    requires
        ids.entity(unit) == Some(e),
    ensures
        t.cast ==> {
            &&& tells(
                t,
                Event::UnitHealed { target: unit, amount },
                ids,
                units,
                CombatEvent::HealResult { target: e, amount },
            )
            &&& tells(
                t,
                Event::SpawnBlocked { summoner: unit, reason },
                ids,
                units,
                CombatEvent::SummonBlocked { summoner: e, reason },
            )
            &&& outcome is Miss ==> tells(
                t,
                Event::CritFailed { actor: unit, outcome },
                ids,
                units,
                CombatEvent::CriticalMiss { actor: e },
            )
            &&& !(outcome is Miss) ==> tells(
                t,
                Event::CritFailed { actor: unit, outcome },
                ids,
                units,
                CombatEvent::CritFailSideEffect { actor: e, outcome },
            )
        },
        !t.cast ==> {
            &&& is_untold(t, Event::UnitHealed { target: unit, amount }, ids, units)
            &&& is_untold(t, Event::SpawnBlocked { summoner: unit, reason }, ids, units)
            &&& is_untold(t, Event::CritFailed { actor: unit, outcome }, ids, units)
        },
{
    lines_are_added(t, Event::UnitHealed { target: unit, amount }, ids, units);
    lines_are_added(t, Event::SpawnBlocked { summoner: unit, reason }, ids, units);
    lines_are_added(t, Event::CritFailed { actor: unit, outcome }, ids, units);
}

/// Turns, rounds, deaths, pools, hazards and initiative are always told of.
pub proof fn law_course_is_told(
    t: Translation,
    unit: UnitId,
    cause: TurnEndCause,
    reason: TurnSkipReason,
    round: u32,
    ids: IdTable,
    units: Seq<Unit>,
    e: Entity,
)
    requires
        ids.entity(unit) == Some(e),
    ensures
        tells(
            t,
            Event::TurnEnded { actor: unit, cause },
            ids,
            units,
            CombatEvent::TurnEnded { actor: e, cause },
        ),
        tells(
            t,
            Event::TurnSkipped { actor: unit, reason },
            ids,
            units,
            CombatEvent::TurnSkipped { actor: e, reason },
        ),
        tells(
            t,
            Event::TurnStarted { actor: unit },
            ids,
            units,
            CombatEvent::TurnStarted { actor: e },
        ),
        tells(t, Event::UnitDied { unit }, ids, units, CombatEvent::UnitDied { entity: e }),
        tells(t, Event::RoundStarted { round }, ids, units, CombatEvent::RoundStarted { round }),
{
    lines_are_added(t, Event::TurnEnded { actor: unit, cause }, ids, units);
    lines_are_added(t, Event::TurnSkipped { actor: unit, reason }, ids, units);
    lines_are_added(t, Event::TurnStarted { actor: unit }, ids, units);
    lines_are_added(t, Event::UnitDied { unit }, ids, units);
    lines_are_added(t, Event::RoundStarted { round }, ids, units);
}

/// Pools are told of as they stand, hazards by their victim, and initiative with the roll,
/// the modifier and their sum.
pub proof fn law_numbers_are_told(
    t: Translation,
    unit: UnitId,
    pool: PoolKind,
    current: i32,
    max: i32,
    cause: PoolChangeCause,
    env_id: EnvId,
    roll: i32,
    dex_mod: i32,
    total: i32,
    ids: IdTable,
    units: Seq<Unit>,
    e: Entity,
)
    requires
        ids.entity(unit) == Some(e),
    ensures
        tells(
            t,
            Event::PoolChanged { unit, pool, current, max, cause },
            ids,
            units,
            CombatEvent::PoolChanged { actor: e, pool, current, max, cause },
        ),
        tells(
            t,
            Event::HazardTriggered { env_id, victim: unit },
            ids,
            units,
            CombatEvent::HazardTriggered { victim: e },
        ),
        tells(
            t,
            Event::InitiativeRolled { unit, roll, dex_mod, total },
            ids,
            units,
            CombatEvent::InitiativeRolled { actor: e, dex_mod, roll, total },
        ),
{
    lines_are_added(t, Event::PoolChanged { unit, pool, current, max, cause }, ids, units);
    lines_are_added(t, Event::HazardTriggered { env_id, victim: unit }, ids, units);
    lines_are_added(t, Event::InitiativeRolled { unit, roll, dex_mod, total }, ids, units);
}

/// Whom an event is about, where it is about somebody.
pub open spec fn is_about(ev: Event, unit: UnitId) -> bool {
    match ev {
        Event::TurnEnded { actor, .. } => actor == unit,
        Event::TurnSkipped { actor, .. } => actor == unit,
        Event::TurnStarted { actor } => actor == unit,
        Event::UnitDied { unit: u } => u == unit,
        _ => false,
    }
}

/// Nobody without an entity is told of or queued.
pub proof fn law_the_unknown_are_passed_over(
    t: Translation,
    ev: Event,
    unit: UnitId,
    ids: IdTable,
    units: Seq<Unit>,
)
    requires
        is_about(ev, unit),
        ids.entity(unit) is None,
    ensures
        ({
            let r = t.after(ev, ids, units);
            &&& r.log =~= t.log
            &&& r.deaths =~= t.deaths
            &&& r.remove_active =~= t.remove_active
            &&& r.insert_active =~= t.insert_active
        }),
{
    lines_are_added(t, ev, ids, units);
}

/// Whoever dies is queued as dead, who ends its turn or is passed over gives up its turn
/// and who begins it gets it; each by its own event and by no other.
pub proof fn law_who_is_queued(
    t: Translation,
    ev: Event,
    unit: UnitId,
    ids: IdTable,
    units: Seq<Unit>,
)
    requires
        ids.entity(unit) is Some,
    ensures
        ({
            let r = t.after(ev, ids, units);
            &&& ev is UnitDied && is_about(ev, unit) ==> r.deaths == t.deaths.push(unit)
            &&& !(ev is UnitDied) ==> r.deaths == t.deaths
            &&& (ev is TurnEnded || ev is TurnSkipped) && is_about(ev, unit) ==> r.remove_active
                == t.remove_active.push(unit)
            &&& !(ev is TurnEnded) && !(ev is TurnSkipped) ==> r.remove_active == t.remove_active
            &&& ev is TurnStarted && is_about(ev, unit) ==> r.insert_active == t.insert_active.push(
                unit,
            )
            &&& !(ev is TurnStarted) ==> r.insert_active == t.insert_active
            &&& r.round_started <==> t.round_started || ev is RoundStarted
            &&& r.env_revealed <==> t.env_revealed || ev is EnvRevealed
            &&& r.cast == t.cast
        }),
{
    let none = Seq::<UnitId>::empty();
    assert(t.deaths + none =~= t.deaths);
    assert(t.remove_active + none =~= t.remove_active);
    assert(t.insert_active + none =~= t.insert_active);
    assert(t.deaths + seq![unit] =~= t.deaths.push(unit));
    assert(t.remove_active + seq![unit] =~= t.remove_active.push(unit));
    assert(t.insert_active + seq![unit] =~= t.insert_active.push(unit));
}

/// A step is added to the track at its end; the first also at its beginning. An
/// opportunity attack makes the move wait for the damage of its target, and no other
/// reaction does. Nothing else changes a track but the damage that it waits for.
pub proof fn law_track_by_one_event(track: Track, ev: Event)
    ensures
        ({
            let r = track.after(ev);
            &&& r.actor == track.actor
            &&& ev matches Event::UnitMoved { unit, from, to } ==> {
                &&& r.last_to == Some(to)
                &&& track.first_from is None ==> r.first_from == Some(from) && r.waypoints
                    == track.waypoints.push(from).push(to)
                &&& track.first_from is Some ==> r.first_from == track.first_from && r.waypoints
                    == track.waypoints.push(to)
                &&& r.pending == track.pending
            }
            &&& !(ev is UnitMoved) ==> r.first_from == track.first_from && r.last_to
                == track.last_to && r.waypoints == track.waypoints
            &&& ev matches Event::ReactionFired { kind, reactor, against } ==> (if kind
                == ReactionKind::OpportunityAttack {
                r.pending == Some(against)
            } else {
                r.pending == track.pending
            })
            &&& ev matches Event::UnitDamaged { target, .. } ==> (if track.pending == Some(target) {
                r.pending is None
            } else {
                r.pending == track.pending
            })
            &&& !(ev is ReactionFired) && !(ev is UnitDamaged) ==> r.pending == track.pending
        }),
{
}

/// The use of an ability is announced with its name, its cost in action points and whether
/// it has an area; one that is not known under its id, without a cost.
pub proof fn law_announcement(
    line: CombatEvent,
    actor: Entity,
    ability: Seq<char>,
    target: Entity,
    target_pos: Hex,
    content: ContentView,
)
    requires
        announces(line, actor, ability, target, target_pos, content),
    ensures
        line is AbilityUsed,
        line->AbilityUsed_actor == actor,
        line->AbilityUsed_target == target,
        line->target_pos == target_pos,
        content.ability(ability) matches Some(d) ==> line->ability_name@ == d.name@ && (
        line->is_aoe <==> d.aoe is Circle || d.aoe is Line),
        content.ability(ability) is None ==> line->ability_name@ == ability && !line->is_aoe
            && line->cost_str@.len() == 0,
{
}

} // verus!
