//! Between the engine and the display world.

use combat::bootstrap::{
    from_ecs, needs_bootstrap, populate, project_order, resolve_presets, settle_first_round,
    ActionPoints, AuraRow, CasterRow, CombatSetup, CombatantRow, EcsStatus, FighterRow, NameRow,
    PendingPhase, PhaseRow, PresetInitiative, TagRow,
};
use combat::content::{
    AbilityDef, AbilityRange, AoEShape, ContentView, DiceExpr, EffectDef, StatusBonuses, StatusDef,
    TargetType,
};
use combat::events::{CombatEvent, Event, ReactionKind};
use combat::forecast::{compute_forecast, forecast_action, ForecastKind, Selection};
use combat::hex::Hex;
use combat::ids::{entity_to_uid, Entity, UnitId, UnitIdMap};
use combat::phases::{
    apply_phase_ecs_writes, apply_phase_overrides_system, AiBehaviorKind, CombatStats, EnemyPhase,
    PhaseDeadline, PhasedRow, VictoryMark,
};
use combat::positions::HexPositions;
use combat::process::{
    complete_spawn, find_token, plan_spawn, process_action_system, queue_phases, to_action, Action,
    ActionInput, StepReply, Token,
};
use combat::project::{merge_statuses, project_state_to_ecs, ProjectionRow, ShownOrder};
use combat::queues::{
    apply_bridge_queues_post_projection, apply_bridge_queues_pre_projection, reset_engine_mirrors,
    BridgeQueues, PhaseOverrideIntent, VictoryCondition,
};
use combat::state::{
    ActiveStatus, CombatState, CritFailEffect, EffectSource, EnvId, EnvObject, Pool, RuntimeStats,
    Team, TeamRelation, TurnQueue,
};
use combat::templates::{
    build_engine_template_from_def, make_aoo_dice, make_display_name, EquippedStats, InitialPool,
    PathDef, RaceDef, UnitTemplateDef,
};
use combat::translate::{emit_ability_used, translate_events, translate_one, MoveCtx, TranslateCtx};

// ---------------------------------------------------------------------------
// Helpers
// ---------------------------------------------------------------------------

fn entity(id: u32) -> Entity {
    let outside = bevy::prelude::Entity::from_raw_u32(id).expect("valid entity id");
    Entity::try_from_bits(outside.to_bits()).expect("valid bits")
}

fn uid(id: u32) -> UnitId {
    entity_to_uid(entity(id))
}

fn ids_of(ids: &[u32]) -> UnitIdMap {
    let mut map = UnitIdMap::new();
    for &id in ids {
        map.insert(entity(id), uid(id));
    }
    map
}

fn ctx() -> TranslateCtx {
    TranslateCtx { log: vec![], queues: BridgeQueues::default(), cast: false, move_: None }
}

fn d(count: u32, sides: u32, bonus: i32) -> DiceExpr {
    DiceExpr { count, sides, bonus }
}

fn text(s: &str) -> String {
    s.to_string()
}

fn sword() -> AbilityDef {
    AbilityDef {
        id: text("sword"),
        name: text("Sword"),
        target_type: TargetType::SingleEnemy,
        range: AbilityRange { min: 0, max: 1 },
        effect: EffectDef::WeaponAttack { ranged: false },
        costs: vec![],
        cost_ap: 1,
        aoe: AoEShape::Single,
        friendly_fire: false,
        statuses: vec![],
        key: None,
        is_move_toggle: false,
        passive: false,
        ai_tags_override: None,
    }
}

fn content() -> ContentView {
    let mut thorns = sword();
    thorns.id = text("thorns");
    thorns.passive = true;
    thorns.aoe = AoEShape::Circle { radius: 1 };
    let shield = StatusDef {
        id: text("shield"),
        name: text("Shield"),
        skips_turn: false,
        causes_disadvantage: false,
        blocks_mana_abilities: false,
        forces_targeting: false,
        bonuses: StatusBonuses { speed_bonus: -1, armor_bonus: 2, damage_taken_bonus: 0 },
        dot_dice: None,
        hp_percent_dot: 0,
        buff_class: None,
    };
    ContentView { abilities: vec![sword(), thorns], statuses: vec![shield] }
}

fn combatant(id: u32, hp: i32, statuses: Vec<EcsStatus>) -> CombatantRow {
    CombatantRow {
        entity: entity(id),
        hp,
        max_hp: 20,
        armor: 1,
        magic_resist: 0,
        team: if id == 1 { Team::Player } else { Team::Enemy },
        speed: Some(4),
        ap: Some(ActionPoints { action_points: 1, max_ap: 2, movement_points: 4 }),
        reactions_max: Some(1),
        statuses,
        rage: None,
        mana: Some(Pool { current: 3, max: 5 }),
        energy: None,
        template: None,
    }
}

fn status(id: &str, rounds_remaining: u32, applier: Option<Entity>) -> EcsStatus {
    EcsStatus { id: text(id), rounds_remaining, dot_per_tick: 0, applier }
}

/// Two combatants, one on its feet and one fallen, and one who stands nowhere.
fn battle() -> (CombatState, UnitIdMap) {
    let rows = vec![
        combatant(1, 20, vec![status("shield", 2, Some(entity(2)))]),
        combatant(2, 0, vec![]),
        combatant(3, 20, vec![]),
    ];
    let mut positions = HexPositions::new();
    positions.insert(entity(1), Hex::new(0, 0));
    let mut corpses = HexPositions::new();
    corpses.insert(entity(2), Hex::new(1, 0));
    let mut ids = UnitIdMap::new();
    let state = from_ecs(&rows, &positions, &corpses, 1, &mut ids, &content());
    (state, ids)
}

// ---------------------------------------------------------------------------
// Identities
// ---------------------------------------------------------------------------

#[test]
fn bits_name_entities_as_bevy_does() {
    let outside = bevy::prelude::Entity::from_raw_u32(5).expect("valid entity id");
    assert_eq!(entity(5).to_bits(), outside.to_bits());
    assert_eq!(Entity::try_from_bits(0), None);
    assert_eq!(Entity::try_from_bits(0x7_0000_0000), None);
    assert!(bevy::prelude::Entity::try_from_bits(0x7_0000_0000).is_none());
    assert_eq!(Entity::try_from_bits(0x7_0000_0001).map(|e| e.bits), Some(0x7_0000_0001));
}

#[test]
fn pairs_of_ids_are_found_both_ways() {
    let mut map = ids_of(&[1]);
    map.insert(entity(9), UnitId(1000));
    assert_eq!(map.get_id(entity(9)), Some(UnitId(1000)));
    assert_eq!(map.get_entity(UnitId(1000)), Some(entity(9)));
    assert_eq!(map.get_id(entity(2)), None);
    assert_eq!(map.get_entity(UnitId(7)), None);
    map.clear();
    assert_eq!(map.get_id(entity(1)), None);
    assert!(map.knows_no_unit());
}

// ---------------------------------------------------------------------------
// Translation
// ---------------------------------------------------------------------------

#[test]
fn deaths_are_queued_and_logged() {
    let (state, ids) = battle();
    let mut c = ctx();
    translate_one(&Event::UnitDied { unit: uid(2) }, &mut c, &ids, &state);
    assert_eq!(c.queues.deaths, vec![uid(2)]);
    assert!(matches!(c.log[0], CombatEvent::UnitDied { entity: e } if e == entity(2)));
    translate_one(&Event::UnitDied { unit: UnitId(77) }, &mut c, &ids, &state);
    assert_eq!(c.queues.deaths.len(), 1, "who has no entity is passed over");
}

#[test]
fn turns_and_rounds_reach_the_queues() {
    let (state, ids) = battle();
    let mut c = ctx();
    let events = vec![
        Event::RoundStarted { round: 2 },
        Event::TurnStarted { actor: uid(1) },
        Event::EnvRevealed { env_id: EnvId(1) },
    ];
    translate_events(&events, &mut c, &ids, &state);
    assert!(c.queues.turn_lifecycle.round_started);
    assert_eq!(c.queues.turn_lifecycle.insert_active, vec![uid(1)]);
    assert!(c.queues.env_revealed);
    assert_eq!(c.log.len(), 2);
}

#[test]
fn casts_are_announced() {
    let mut log = vec![];
    emit_ability_used(entity(1), &text("thorns"), entity(2), Hex::new(1, 0), &content(), &mut log);
    match &log[0] {
        CombatEvent::AbilityUsed { ability_name, is_aoe, cost_str, .. } => {
            assert_eq!(ability_name, "Sword");
            assert!(*is_aoe);
            assert_eq!(cost_str, "AP=1");
        }
        other => panic!("expected AbilityUsed, got {other:?}"),
    }
    emit_ability_used(entity(1), &text("nothing"), entity(2), Hex::new(1, 0), &content(), &mut log);
    match &log[1] {
        CombatEvent::AbilityUsed { ability_name, is_aoe, cost_str, .. } => {
            assert_eq!((ability_name.as_str(), *is_aoe, cost_str.as_str()), ("nothing", false, ""));
        }
        other => panic!("expected AbilityUsed, got {other:?}"),
    }
}

// ---------------------------------------------------------------------------
// Actions
// ---------------------------------------------------------------------------

#[test]
fn actions_name_units() {
    let ids = ids_of(&[1, 2]);
    let cast = ActionInput::Cast {
        actor: entity(1),
        ability: text("sword"),
        target: entity(2),
        target_pos: Hex::new(1, 0),
    };
    match to_action(&cast, &ids) {
        Some(Action::Cast { actor, target, ability, .. }) => {
            assert_eq!((actor, target, ability.as_str()), (uid(1), uid(2), "sword"));
        }
        other => panic!("expected a cast, got {other:?}"),
    }
    assert!(to_action(&ActionInput::EndTurn { actor: entity(3) }, &ids).is_none());
    let go = ActionInput::Move { actor: entity(2), path: vec![Hex::new(1, 1)] };
    assert!(matches!(to_action(&go, &ids), Some(Action::Move { actor, .. }) if actor == uid(2)));
}

fn walk_events() -> Vec<Event> {
    vec![
        Event::UnitMoved { unit: uid(1), from: Hex::new(0, 0), to: Hex::new(0, 1) },
        Event::ReactionFired {
            kind: ReactionKind::OpportunityAttack,
            reactor: uid(2),
            against: uid(1),
        },
        Event::UnitDamaged {
            target: uid(1),
            amount: 3,
            raw: 4,
            mitigation: 1,
            pierces: false,
            source: EffectSource::Unit(uid(2)),
        },
        Event::UnitMoved { unit: uid(1), from: Hex::new(0, 1), to: Hex::new(0, 2) },
        Event::PhaseEntered { unit: uid(2), phase_idx: 1 },
        Event::EnvRevealed { env_id: EnvId(4) },
    ]
}

#[test]
fn moves_are_summed_up_and_shown() {
    let (mut state, ids) = battle();
    state.environment = vec![EnvObject {
        id: EnvId(4),
        hex: Hex::new(0, 2),
        ability: text("trap"),
        owner: None,
        revealed_to_player: true,
        revealed_to_enemy: false,
    }];
    let mut c = ctx();
    let input = ActionInput::Move { actor: entity(1), path: vec![] };
    let tokens = vec![Token { token: entity(50), unit: entity(1) }];
    let reply = StepReply::Done { events: walk_events(), interrupted: true };
    assert!(process_action_system(&input, &reply, &tokens, &content(), &ids, &state, &mut c));
    let moves: Vec<(Hex, Hex)> = c
        .log
        .iter()
        .filter_map(|e| match e {
            CombatEvent::UnitMoved { from, to, .. } => Some((*from, *to)),
            _ => None,
        })
        .collect();
    assert_eq!(moves, vec![(Hex::new(0, 0), Hex::new(0, 2))]);
    assert!(matches!(c.log.last(), Some(CombatEvent::EnvRevealed { hex }) if *hex == Hex::new(0, 2)));
    assert_eq!(c.queues.animations.len(), 1);
    assert_eq!(
        c.queues.animations[0].waypoints,
        vec![Hex::new(0, 0), Hex::new(0, 1), Hex::new(0, 2)]
    );
    assert_eq!(c.queues.phases, vec![(uid(2), 1)]);
}

fn damage(target: u32, source: EffectSource, pierces: bool) -> Event {
    Event::UnitDamaged {
        target: uid(target),
        amount: 3,
        raw: 5,
        mitigation: 2,
        pierces,
        source,
    }
}

fn opportunity_on(target: u32) -> Event {
    Event::ReactionFired {
        kind: ReactionKind::OpportunityAttack,
        reactor: uid(2),
        against: uid(target),
    }
}

fn moving_ctx() -> TranslateCtx {
    let mv = MoveCtx {
        actor: entity(1),
        first_from: None,
        last_to: None,
        waypoints: vec![],
        pending_aoo_target: None,
    };
    TranslateCtx { move_: Some(mv), ..ctx() }
}

fn pending(c: &TranslateCtx) -> Option<UnitId> {
    c.move_.as_ref().and_then(|mv| mv.pending_aoo_target)
}

#[test]
fn damage_in_a_move_is_recorded_only_after_its_reaction() {
    let (state, ids) = battle();
    let mut c = moving_ctx();
    let trap = damage(1, EffectSource::Env(EnvId(4)), false);
    let stray = damage(1, EffectSource::Unit(uid(2)), false);
    translate_events(&vec![trap, stray], &mut c, &ids, &state);
    assert!(c.log.is_empty());
    assert!(c.queues.deaths.is_empty() && c.queues.animations.is_empty());
    assert_eq!(pending(&c), None);

    let other = damage(2, EffectSource::Unit(uid(1)), false);
    translate_events(&vec![opportunity_on(1), other], &mut c, &ids, &state);
    assert!(c.log.is_empty());
    assert_eq!(pending(&c), Some(uid(1)));

    let paired = damage(1, EffectSource::Unit(uid(2)), false);
    let again = damage(1, EffectSource::Unit(uid(2)), false);
    translate_events(&vec![paired, again], &mut c, &ids, &state);
    assert_eq!(c.log.len(), 1);
    assert!(matches!(
        c.log[0],
        CombatEvent::OpportunityAttack { attacker, target, damage: 3, killed: false }
            if attacker == entity(2) && target == entity(1)
    ));
    assert_eq!(pending(&c), None);
}

#[test]
fn a_trap_that_hits_the_awaited_unit_is_recorded_plainly() {
    let (state, ids) = battle();
    for (pierces, armor) in [(false, 2), (true, 0)] {
        let mut c = moving_ctx();
        let trap = damage(1, EffectSource::Env(EnvId(4)), pierces);
        translate_events(&vec![opportunity_on(1), trap], &mut c, &ids, &state);
        assert_eq!(c.log.len(), 1);
        assert!(matches!(
            c.log[0],
            CombatEvent::DamageResult { target, raw: 5, armor_reduced, final_damage: 3 }
                if target == entity(1) && armor_reduced == armor
        ));
        assert_eq!(pending(&c), None);
    }
}

#[test]
fn piercing_damage_has_no_mitigation_outside_casts() {
    let (state, ids) = battle();
    for (cast, pierces, armor) in [(false, false, 2), (false, true, 0), (true, true, 2)] {
        let mut c = TranslateCtx { cast, ..ctx() };
        let hit = damage(1, EffectSource::Unit(uid(2)), pierces);
        let unknown = damage(9, EffectSource::Unit(uid(2)), pierces);
        translate_events(&vec![hit, unknown], &mut c, &ids, &state);
        assert_eq!(c.log.len(), 1);
        assert!(matches!(
            c.log[0],
            CombatEvent::DamageResult { target, raw: 5, armor_reduced, final_damage: 3 }
                if target == entity(1) && armor_reduced == armor
        ));
    }
}

#[test]
fn refused_actions_change_nothing() {
    let (state, ids) = battle();
    let mut c = ctx();
    let input = ActionInput::EndTurn { actor: entity(1) };
    let dropped = process_action_system(
        &input,
        &StepReply::Refused,
        &vec![],
        &content(),
        &ids,
        &state,
        &mut c,
    );
    assert!(!dropped);
    assert!(c.log.is_empty());
}

#[test]
fn casts_are_recorded_after_their_announcement() {
    let (state, ids) = battle();
    let mut c = ctx();
    let input = ActionInput::Cast {
        actor: entity(1),
        ability: text("sword"),
        target: entity(2),
        target_pos: Hex::new(1, 0),
    };
    let events = vec![Event::UnitDied { unit: uid(2) }];
    let reply = StepReply::Done { events, interrupted: true };
    assert!(!process_action_system(&input, &reply, &vec![], &content(), &ids, &state, &mut c));
    assert!(matches!(c.log[0], CombatEvent::AbilityUsed { .. }));
    assert!(matches!(c.log[1], CombatEvent::UnitDied { .. }));
    let mut phases = vec![];
    queue_phases(&walk_events(), &mut phases);
    assert_eq!(phases, vec![(uid(2), 1)]);
    assert_eq!(find_token(&vec![Token { token: entity(5), unit: entity(6) }], entity(7)), None);
}

// ---------------------------------------------------------------------------
// Summoned units and templates
// ---------------------------------------------------------------------------

fn wolf() -> UnitTemplateDef {
    UnitTemplateDef {
        id: text("wolf"),
        name: text("Wolf"),
        race: text("beast"),
        speed: 5,
        ability_ids: vec![text("sword")],
        mana_max: 0,
        rage_max: 3,
        energy_max: 0,
        path: Some(text("wild")),
        initial_statuses: vec![text("shield")],
        initial_pools: vec![InitialPool { pool: text("hp"), value: 4 }],
    }
}

fn races() -> Vec<RaceDef> {
    vec![RaceDef { id: text("beast"), name: text("Grey") }]
}

#[test]
fn summoned_units_get_place_id_and_lines() {
    let mut ids = ids_of(&[1]);
    let mut positions = HexPositions::new();
    let mut log = vec![];
    let ev = Event::UnitSpawned {
        uid: UnitId(900),
        summoner: uid(1),
        pos: Hex::new(2, 2),
        template_id: text("wolf"),
        team: Team::Player,
    };
    let roll = Event::InitiativeRolled { unit: UnitId(900), roll: 12, dex_mod: 1, total: 13 };
    let plan = plan_spawn(&ev, &ids, &vec![wolf()], &races()).expect("a plan");
    assert_eq!(plan.display_name, "Grey Wolf");
    assert_eq!((plan.rage_max, plan.mana_max), (Some(3), None));
    complete_spawn(&plan, entity(30), &vec![roll, ev], &mut ids, &mut positions, &mut log);
    assert_eq!(ids.get_id(entity(30)), Some(UnitId(900)));
    assert_eq!(positions.get(entity(30)), Some(Hex::new(2, 2)));
    assert!(matches!(&log[0], CombatEvent::Summoned { summon_name, .. } if summon_name == "Grey Wolf"));
    assert!(matches!(log[1], CombatEvent::InitiativeRolled { total: 13, .. }));
}

#[test]
fn unknown_summoners_and_templates_give_no_plan() {
    let ids = ids_of(&[1]);
    let ev = |summoner, template: &str| Event::UnitSpawned {
        uid: UnitId(900),
        summoner,
        pos: Hex::zero(),
        template_id: text(template),
        team: Team::Player,
    };
    assert!(plan_spawn(&ev(uid(2), "wolf"), &ids, &vec![wolf()], &races()).is_none());
    assert!(plan_spawn(&ev(uid(1), "bear"), &ids, &vec![wolf()], &races()).is_none());
    assert!(plan_spawn(&Event::UnitDied { unit: uid(1) }, &ids, &vec![wolf()], &races()).is_none());
}

fn stats(weapon: Option<DiceExpr>) -> EquippedStats {
    EquippedStats {
        max_hp: 8,
        armor: 2,
        str_mod: 1,
        int_mod: 0,
        dex_mod: 0,
        spell_power: 0,
        weapon_dice: weapon,
        ranged_dice: None,
        strength_mod: 3,
    }
}

#[test]
fn templates_hold_stats_and_strikes() {
    let paths = vec![PathDef { id: text("wild"), crit_fail_effect: CritFailEffect::Exhaustion }];
    let t = build_engine_template_from_def(&wolf(), stats(Some(d(1, 4, 1))), &content(), &paths);
    assert_eq!((t.max_hp, t.armor, t.base_speed, t.rage_max), (8, 2, 5, 3));
    assert_eq!(t.aoo_dice, Some(d(1, 4, 4)), "the strength is part of the strike");
    assert_eq!(t.caster_context.crit_fail_outcome, CritFailEffect::Exhaustion);
    assert_eq!(t.initial_pools.hp, Some(4));
    assert_eq!(t.initial_pools.mana, None);
    assert_eq!(t.initial_statuses, vec![text("shield")]);
    assert_eq!(make_aoo_dice(false, Some(d(1, 4, 1)), 3), None);
    assert_eq!(make_aoo_dice(true, None, 3), None);
    assert_eq!(make_display_name(&wolf(), &vec![]), "Wolf");
}

// ---------------------------------------------------------------------------
// The first round
// ---------------------------------------------------------------------------

#[test]
fn the_engine_state_holds_who_has_a_place() {
    let (state, ids) = battle();
    assert!(!needs_bootstrap(&state));
    assert_eq!(state.units.len(), 2);
    let u = state.unit(uid(1)).expect("unit");
    assert_eq!((u.hp(), u.max_hp(), u.pos), (20, 20, Hex::new(0, 0)));
    assert_eq!((u.armor_bonus, u.speed), (2, 3));
    assert_eq!(u.statuses[0].applier, EffectSource::Unit(uid(2)));
    let fallen = state.unit(uid(2)).expect("unit");
    assert!(!fallen.is_alive());
    assert_eq!(ids.get_id(entity(3)), None);
}

#[test]
fn setup_fills_in_the_units() {
    let (mut state, ids) = battle();
    let setup = CombatSetup {
        blocked_hexes: vec![Hex::new(5, 5)],
        environment: vec![],
        casters: vec![CasterRow {
            entity: entity(1),
            str_mod: 2,
            int_mod: 1,
            dex_mod: 0,
            spell_power: 4,
            weapon_dice: None,
            ranged_dice: None,
            path: None,
        }],
        fighters: vec![
            FighterRow {
                entity: entity(1),
                abilities: vec![text("sword"), text("thorns")],
                weapon_dice: Some(d(1, 8, 0)),
                strength_mod: 2,
                is_dead: false,
            },
            FighterRow {
                entity: entity(2),
                abilities: vec![text("sword")],
                weapon_dice: Some(d(1, 8, 0)),
                strength_mod: 2,
                is_dead: true,
            },
        ],
        auras: vec![AuraRow {
            entity: entity(1),
            radius: 2,
            status: text("shield"),
            affects: TeamRelation::Allies,
            affects_tags: vec![],
        }],
        tags: vec![TagRow { entity: entity(2), tags: vec![text("undead")] }],
        phases: vec![PhaseRow {
            entity: entity(2),
            pending: vec![PendingPhase {
                hp_below_pct: 50,
                max_hp: None,
                heal_to_full: true,
                tags: None,
                equipment: Some((7, 1)),
                base_speed: None,
            }],
        }],
    };
    populate(&mut state, setup, &ids, &content(), &vec![]);
    let u = state.unit(uid(1)).expect("unit");
    assert_eq!(u.caster_context.spell_power, 4);
    assert_eq!(u.aoo_dice, Some(d(1, 8, 2)));
    assert_eq!(u.passives, vec![text("thorns")]);
    assert_eq!(u.auras.len(), 1);
    let v = state.unit(uid(2)).expect("unit");
    assert_eq!(v.aoo_dice, None, "the fallen do not strike");
    assert_eq!(v.tags, vec![text("undead")]);
    assert_eq!(v.enemy_phases[0].new_max_hp, 0);
    assert_eq!(
        v.enemy_phases[0].runtime,
        Some(RuntimeStats { armor: 7, magic_resist: 1, base_speed: 4 })
    );
    assert_eq!(state.blocked_hexes, vec![Hex::new(5, 5)]);
}

#[test]
fn presets_and_orders_go_by_ids() {
    let ids = ids_of(&[1, 2]);
    let names = vec![
        NameRow { entity: entity(1), name: text("Ann") },
        NameRow { entity: entity(9), name: text("Bob") },
    ];
    let presets = vec![
        PresetInitiative { name: text("Bob"), value: 3 },
        PresetInitiative { name: text("Ann"), value: 15 },
        PresetInitiative { name: text("Eve"), value: 1 },
    ];
    assert_eq!(resolve_presets(&presets, &names, &ids), vec![(uid(1), 15)]);
    assert_eq!(
        project_order(&vec![uid(2), UnitId(77), uid(1)], &ids),
        vec![entity(2), entity(1)]
    );
}

#[test]
fn the_first_round_is_not_announced_twice() {
    let (state, ids) = battle();
    let mut c = ctx();
    let events = vec![Event::RoundStarted { round: 1 }, Event::TurnStarted { actor: uid(1) }];
    settle_first_round(&events, &ids, &state, &mut c);
    assert!(!c.queues.turn_lifecycle.round_started);
    assert_eq!(c.queues.turn_lifecycle.insert_active, vec![uid(1)]);
    assert_eq!(c.log.len(), 2);
}

// ---------------------------------------------------------------------------
// Queues
// ---------------------------------------------------------------------------

#[test]
fn queues_are_drained_in_two_parts() {
    let ids = ids_of(&[1, 2]);
    let mut q = BridgeQueues::default();
    q.deaths = vec![uid(2), UnitId(77)];
    q.turn_lifecycle.remove_active = vec![uid(2)];
    q.turn_lifecycle.insert_active = vec![uid(1)];
    q.turn_lifecycle.round_started = true;
    q.phases = vec![(uid(2), 0)];
    q.env_revealed = true;
    let pre = apply_bridge_queues_pre_projection(&mut q, &ids);
    assert_eq!(pre.mark_dead, vec![entity(2)]);
    assert_eq!(pre.activate, vec![entity(1)]);
    assert!(pre.start_round);
    assert_eq!(q.phases.len(), 1, "left for later");
    let post = apply_bridge_queues_post_projection(&mut q);
    assert!(post.redraw_cells);
    assert_eq!(post.transitions, vec![(uid(2), 0)]);
    assert!(q.phases.is_empty() && q.deaths.is_empty() && !q.env_revealed);
}

#[test]
fn a_reset_forgets_the_battle() {
    let (mut state, mut ids) = battle();
    let mut q = BridgeQueues::default();
    q.deaths = vec![uid(1)];
    reset_engine_mirrors(&mut state, &mut ids, &mut q);
    assert!(needs_bootstrap(&state));
    assert!(ids.knows_no_unit());
    assert!(q.deaths.is_empty());
}

// ---------------------------------------------------------------------------
// Projection
// ---------------------------------------------------------------------------

fn shown_row(id: u32) -> ProjectionRow {
    ProjectionRow {
        entity: entity(id),
        hp: 99,
        ap: ActionPoints { action_points: 0, max_ap: 0, movement_points: 0 },
        reactions_remaining: 0,
        reactions_max: 0,
        has_bonus: false,
        rage: None,
        mana: Some(0),
        energy: None,
        statuses: Some(vec![]),
    }
}

#[test]
fn the_engine_state_is_shown() {
    let (mut state, ids) = battle();
    state.turn_queue = TurnQueue { order: vec![uid(2), uid(1)], index: 1 };
    let mut positions = HexPositions::new();
    positions.insert(entity(2), Hex::new(1, 0));
    let mut corpses = HexPositions::new();
    let mut rows = vec![shown_row(1), shown_row(2), shown_row(3)];
    let mut queue = ShownOrder { order: vec![], index: 0 };
    project_state_to_ecs(&state, &ids, &mut positions, &mut corpses, &mut rows, &mut queue);
    assert_eq!(positions.get(entity(1)), Some(Hex::new(0, 0)));
    assert_eq!(positions.get(entity(2)), None, "the fallen leave the board");
    assert_eq!(corpses.get(entity(2)), Some(Hex::new(1, 0)));
    assert_eq!((rows[0].hp, rows[0].mana), (20, Some(3)));
    assert_eq!(rows[1].hp, 0);
    assert_eq!(rows[2].hp, 99, "who has no unit is left alone");
    assert_eq!(rows[0].statuses.as_ref().map(|s| s.len()), Some(1));
    assert_eq!(queue.order, vec![entity(2), entity(1)]);
    assert_eq!(queue.index, 1);
}

#[test]
fn statuses_are_merged_with_what_is_shown() {
    let ids = ids_of(&[1, 2]);
    let shown = vec![status("old", 1, Some(entity(2))), status("shield", 9, Some(entity(2)))];
    let engine = vec![ActiveStatus {
        id: text("shield"),
        rounds_remaining: 2,
        dot_per_tick: 0,
        applier: EffectSource::Unit(uid(2)),
    }];
    let merged = merge_statuses(&shown, &engine, entity(1), &ids);
    let shield: Vec<u32> =
        merged.iter().filter(|s| s.id == "shield").map(|s| s.rounds_remaining).collect();
    assert_eq!(shield, vec![2], "the engine's rounds count");
}

// ---------------------------------------------------------------------------
// Phases
// ---------------------------------------------------------------------------

fn boss() -> PhasedRow {
    PhasedRow {
        entity: entity(2),
        pending: vec![EnemyPhase {
            stats: Some(CombatStats { max_hp: 40, strength: 18, dexterity: 10, intelligence: 8 }),
            heal_to_full: true,
            ability_ids: Some(vec![text("thorns")]),
            has_equipment: false,
            name: Some(text("Lich")),
            flavor: None,
            victory_override: Some(VictoryCondition::KillTarget {
                target: text("Lich"),
                marker_color: 3,
            }),
            turn_limit: Some(4),
            ai_behavior: Some(AiBehaviorKind::Flee),
            tags: None,
        }],
        hp: 3,
        max_hp: 20,
        stats: CombatStats { max_hp: 20, strength: 10, dexterity: 10, intelligence: 8 },
        abilities: vec![text("sword")],
        has_role: true,
        name: text("Mage"),
        runtime: RuntimeStats { armor: 0, magic_resist: 0, base_speed: 3 },
        is_dead: false,
    }
}

#[test]
fn a_phase_changes_the_boss() {
    let (state, ids) = battle();
    let mut rows = vec![boss()];
    let mut overrides = vec![];
    let mut log = vec![];
    let writes =
        apply_phase_ecs_writes(uid(2), 0, &ids, &mut rows, &mut overrides, &state, &mut log)
            .expect("a phase to enter");
    assert_eq!(writes.behavior, Some(AiBehaviorKind::Flee));
    assert!(rows[0].pending.is_empty());
    assert_eq!(rows[0].name, "Lich");
    assert_eq!(rows[0].abilities, vec![text("thorns")]);
    assert_eq!((rows[0].hp, rows[0].max_hp), (40, 40));
    assert_eq!(overrides.len(), 1);
    assert!(matches!(&log[0], CombatEvent::PhaseEntered { prev_name, .. } if prev_name == "Mage"));
    assert!(
        apply_phase_ecs_writes(uid(2), 0, &ids, &mut rows, &mut overrides, &state, &mut log)
            .is_none(),
        "a phase is entered once"
    );
}

#[test]
fn phase_overrides_set_objective_and_deadline() {
    let mut intents = vec![PhaseOverrideIntent {
        entity: entity(2),
        victory_override: Some(VictoryCondition::KillTarget {
            target: text("Lich"),
            marker_color: 3,
        }),
        turn_limit: Some(4),
    }];
    let mut objective = VictoryCondition::Other { code: 1 };
    let mut deadline: Option<PhaseDeadline> = None;
    let writes = apply_phase_overrides_system(&mut intents, &mut objective, &mut deadline, 6);
    assert!(intents.is_empty());
    assert!(matches!(&objective, VictoryCondition::KillTarget { target, .. } if target == "Lich"));
    assert_eq!(deadline, Some(PhaseDeadline { phase_started_round: 6, limit: 4 }));
    assert_eq!(writes.marks, vec![VictoryMark { entity: entity(2), marker_color: 3 }]);
    assert!(writes.redraw_hint);
}

// ---------------------------------------------------------------------------
// Forecasts
// ---------------------------------------------------------------------------

#[test]
fn a_forecast_sums_up_by_unit() {
    let (state, ids) = battle();
    let hit = |amount| Event::UnitDamaged {
        target: uid(1),
        amount,
        raw: amount,
        mitigation: 0,
        pierces: false,
        source: EffectSource::Unit(uid(2)),
    };
    let events = vec![
        hit(4),
        Event::StatusApplied { target: uid(1), status: text("burning") },
        hit(2),
    ];
    let f = compute_forecast(&events, &ids, &state);
    assert_eq!(f.entries.len(), 1);
    let e = &f.entries[0];
    assert_eq!((e.entity, e.kind), (entity(1), ForecastKind::Damage));
    assert_eq!((e.amount, e.hp_before, e.hp_after), (6, 20, 14));
    assert!(!e.lethal);
    assert_eq!(e.statuses, vec![text("burning")]);
}

#[test]
fn a_forecast_shows_a_death_only_where_one_is_due() {
    let (state, ids) = battle();
    let hit = |target: u32, amount: i32| Event::UnitDamaged {
        target: uid(target),
        amount,
        raw: amount,
        mitigation: 0,
        pierces: false,
        source: EffectSource::Unit(uid(2)),
    };
    let events = vec![
        hit(1, 19),
        hit(2, 2),
        Event::UnitHealed { target: uid(2), amount: 5 },
        hit(1, 30),
        Event::UnitDied { unit: uid(1) },
        hit(9, 4),
    ];
    let f = compute_forecast(&events, &ids, &state);
    let shown: Vec<(Entity, i128, bool)> =
        f.entries.iter().map(|e| (e.entity, e.amount, e.lethal)).collect();
    assert_eq!(shown, vec![(entity(1), 49, true), (entity(2), 7, false)]);
    let spared = compute_forecast(&vec![hit(1, 49)], &ids, &state);
    assert_eq!((spared.entries[0].hp_after, spared.entries[0].lethal), (0, false));
    assert!(compute_forecast(&vec![], &ids, &state).entries.is_empty());
}

#[test]
fn forecasts_need_a_whole_selection() {
    let ids = ids_of(&[1, 2]);
    let mut positions = HexPositions::new();
    positions.insert(entity(2), Hex::new(1, 0));
    let mut sel = Selection {
        actor: Some(entity(1)),
        ability: Some(text("sword")),
        hovered: Some(Hex::new(1, 0)),
    };
    match forecast_action(&sel, &positions, &ids) {
        Some(Action::Cast { actor, target, .. }) => assert_eq!((actor, target), (uid(1), uid(2))),
        other => panic!("expected a cast, got {other:?}"),
    }
    sel.hovered = Some(Hex::new(5, 5));
    assert!(forecast_action(&sel, &positions, &ids).is_none());
    sel.hovered = None;
    assert!(forecast_action(&sel, &positions, &ids).is_none());
}

#[test]
fn showing_the_same_state_again_changes_nothing() {
    let (state, ids) = battle();
    let mut positions = HexPositions::new();
    let mut corpses = HexPositions::new();
    let mut rows = vec![shown_row(1), shown_row(2)];
    let mut queue = ShownOrder { order: vec![], index: 0 };
    project_state_to_ecs(&state, &ids, &mut positions, &mut corpses, &mut rows, &mut queue);
    let once = format!("{:?} {:?} {:?} {:?}", positions, corpses, rows, queue);
    project_state_to_ecs(&state, &ids, &mut positions, &mut corpses, &mut rows, &mut queue);
    assert_eq!(format!("{:?} {:?} {:?} {:?}", positions, corpses, rows, queue), once);
}

#[test]
fn the_order_of_units_does_not_matter() {
    let (mut state, ids) = battle();
    let show = |state: &CombatState| {
        let mut positions = HexPositions::new();
        let mut corpses = HexPositions::new();
        let mut rows = vec![shown_row(1), shown_row(2)];
        let mut queue = ShownOrder { order: vec![], index: 0 };
        project_state_to_ecs(state, &ids, &mut positions, &mut corpses, &mut rows, &mut queue);
        let cells = [1, 2].map(|i| (positions.get(entity(i)), corpses.get(entity(i))));
        (cells, format!("{rows:?}"))
    };
    let first = show(&state);
    assert_eq!(first.0, [(Some(Hex::new(0, 0)), None), (None, Some(Hex::new(1, 0)))]);
    state.units.reverse();
    assert_eq!(show(&state), first);
}
