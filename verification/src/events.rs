//! What the engine reports, and what the combat log records of it.

use crate::hex::Hex;
use crate::ids::{Entity, UnitId};
use crate::state::{CritFailEffect, EffectSource, EnvId, PoolKind, Team};
use vstd::prelude::*;

verus! {

/// Why a unit acted out of its turn.
#[derive(Clone, Copy, PartialEq, Eq, Structural, Debug)]
pub enum ReactionKind {
    OpportunityAttack,
    Other,
}

/// Why a turn ended. The code is the engine's own; it is recorded, never read.
#[derive(Clone, Copy, PartialEq, Eq, Structural, Debug)]
pub struct TurnEndCause(pub u8);

/// Why a turn was skipped. The code is the engine's own; it is recorded, never
/// read.
#[derive(Clone, Copy, PartialEq, Eq, Structural, Debug)]
pub struct TurnSkipReason(pub u8);

/// Why a summon found no place. The code is the engine's own; it is recorded,
/// never read.
#[derive(Clone, Copy, PartialEq, Eq, Structural, Debug)]
pub struct SpawnBlockedReason(pub u8);

/// Why a pool changed. The code is the engine's own; it is recorded, never
/// read.
#[derive(Clone, Copy, PartialEq, Eq, Structural, Debug)]
pub struct PoolChangeCause(pub u8);

/// One thing that happened in the engine.
#[allow(inconsistent_fields)]
#[derive(Debug)]
pub enum Event {
    UnitMoved { unit: UnitId, from: Hex, to: Hex },
    ReactionFired { kind: ReactionKind, reactor: UnitId, against: UnitId },
    /// `raw` is the unmitigated damage, rounded to a whole number.
    UnitDamaged {
        target: UnitId,
        amount: i32,
        raw: i32,
        mitigation: i32,
        pierces: bool,
        source: EffectSource,
    },
    DotDamaged {
        target: UnitId,
        source: EffectSource,
        source_status: String,
        raw: i32,
        mitigation: i32,
        pierces: bool,
        amount: i32,
    },
    HotHealed { target: UnitId, source_status: String, amount: i32 },
    StatusTicked { target: UnitId, status: String },
    StatusRemoved { target: UnitId, status: String },
    StatusApplied { target: UnitId, status: String },
    AuraStatusGained { target: UnitId, status_id: String },
    AuraStatusLost { target: UnitId, status_id: String },
    UnitDied { unit: UnitId },
    UnitHealed { target: UnitId, amount: i32 },
    CritFailed { actor: UnitId, outcome: CritFailEffect },
    UnitSpawned { uid: UnitId, summoner: UnitId, pos: Hex, template_id: String, team: Team },
    SpawnBlocked { summoner: UnitId, reason: SpawnBlockedReason },
    TurnEnded { actor: UnitId, cause: TurnEndCause },
    TurnSkipped { actor: UnitId, reason: TurnSkipReason },
    RoundStarted { round: u32 },
    TurnStarted { actor: UnitId },
    ActionStarted { actor: UnitId },
    ActionFinished { actor: UnitId },
    PhaseEntered { unit: UnitId, phase_idx: usize },
    PoolChanged { unit: UnitId, pool: PoolKind, current: i32, max: i32, cause: PoolChangeCause },
    HazardTriggered { env_id: EnvId, victim: UnitId },
    EnvRevealed { env_id: EnvId },
    InitiativeRolled { unit: UnitId, roll: i32, dex_mod: i32, total: i32 },
}

/// One line of the combat log.
#[allow(inconsistent_fields)]
#[derive(Debug)]
pub enum CombatEvent {
    CombatStarted,
    DamageResult { target: Entity, raw: i32, armor_reduced: i32, final_damage: i32 },
    OpportunityAttack { attacker: Entity, target: Entity, damage: i32, killed: bool },
    DotDamaged {
        target: Entity,
        source: Option<Entity>,
        source_status: String,
        raw: i32,
        mitigation: i32,
        pierces: bool,
        amount: i32,
    },
    HotHealed { target: Entity, source_status: String, amount: i32 },
    StatusExpired { target: Entity, status: String },
    StatusApplied { target: Entity, status: String },
    UnitDied { entity: Entity },
    HealResult { target: Entity, amount: i32 },
    CriticalMiss { actor: Entity },
    CritFailSideEffect { actor: Entity, outcome: CritFailEffect },
    SummonBlocked { summoner: Entity, reason: SpawnBlockedReason },
    Summoned { summoner: Entity, summon_name: String },
    TurnEnded { actor: Entity, cause: TurnEndCause },
    TurnSkipped { actor: Entity, reason: TurnSkipReason },
    RoundStarted { round: u32 },
    TurnStarted { actor: Entity },
    PoolChanged { actor: Entity, pool: PoolKind, current: i32, max: i32, cause: PoolChangeCause },
    HazardTriggered { victim: Entity },
    EnvRevealed { hex: Hex },
    InitiativeRolled { actor: Entity, dex_mod: i32, roll: i32, total: i32 },
    UnitMoved { actor: Entity, from: Hex, to: Hex },
    AbilityUsed {
        actor: Entity,
        ability_name: String,
        target: Entity,
        target_pos: Hex,
        is_aoe: bool,
        cost_str: String,
    },
    RageGained { actor: Entity, current: i32, max: i32 },
    ManaChanged { actor: Entity, current: i32, max: i32 },
    /// Damage by the formula that it was rolled with.
    DamageRolled { target: Entity, formula: String, armor_reduced: i128, final_damage: i128 },
    /// Healing by the formula that it was rolled with.
    HealRolled { target: Entity, formula: String, amount: i32 },
    PoisonCleansed { target: Entity, status: String },
    TurnDone { actor: Entity },
    CombatEnded { victory: bool },
    PhaseEntered { actor: Entity, prev_name: String, next_name: String, flavor: Option<String> },
}

} // verus!
