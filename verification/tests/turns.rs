//! Damage, healing, statuses, auras and the end of a turn.

use combat::auras::{apply_auras_system, collect_due, refresh, AuraSource, AuraTarget};
use combat::bootstrap::EcsStatus;
use combat::cleanup::{
    advance_turn, apply_plain_heals, apply_statuses, cleanup_system, end_turn, end_turns,
    regain_mana, team_stands, tick_status_durations, ActionRow, ManaRow, NextPhase, TurnWorld,
};
use combat::content::{ContentView, StatusBonuses, StatusDef};
use combat::effects::{
    apply_damages, apply_effects_system, apply_heals, apply_rage, DamageMsg, HealMsg, StatusMsg,
    StatusRow, VitalRow,
};
use combat::events::CombatEvent;
use combat::hex::Hex;
use combat::ids::Entity;
use combat::movement::RageRow;
use combat::positions::HexPositions;
use combat::state::{Team, TeamRelation};

fn entity(id: u32) -> Entity {
    let outside = bevy::prelude::Entity::from_raw_u32(id).expect("valid entity id");
    Entity::try_from_bits(outside.to_bits()).expect("valid bits")
}

fn text(s: &str) -> String {
    s.to_string()
}

fn vital(id: u32, team: Team, hp: i32) -> VitalRow {
    VitalRow { entity: entity(id), team, hp, max_hp: 20, armor: 1, is_dead: hp <= 0 }
}

fn status(id: &str, rounds: u32, dot: i32, applier: Option<Entity>) -> EcsStatus {
    EcsStatus { id: text(id), rounds_remaining: rounds, dot_per_tick: dot, applier }
}

fn damage(target: u32, amount: i32) -> DamageMsg {
    DamageMsg {
        target: entity(target),
        source: entity(9),
        amount,
        breakdown: text("1d6"),
        pierces_armor: false,
    }
}

fn heal(target: u32, amount: i32) -> HealMsg {
    HealMsg { target: entity(target), amount, breakdown: text("1d4") }
}

fn content() -> ContentView {
    ContentView {
        abilities: vec![],
        statuses: vec![StatusDef {
            id: text("cracked"),
            name: text("Cracked"),
            skips_turn: false,
            causes_disadvantage: false,
            blocks_mana_abilities: false,
            forces_targeting: false,
            bonuses: StatusBonuses { speed_bonus: 0, armor_bonus: -1, damage_taken_bonus: 2 },
            dot_dice: None,
            hp_percent_dot: 0,
            buff_class: None,
        }],
    }
}

// ---------------------------------------------------------------------------
// Effects
// ---------------------------------------------------------------------------

#[test]
fn damage_counts_armor_and_statuses() {
    let mut vitals = vec![vital(1, Team::Player, 10), vital(2, Team::Player, 10)];
    let statuses =
        vec![StatusRow { entity: entity(2), statuses: vec![status("cracked", 2, 0, None)] }];
    let mut log = vec![];
    apply_damages(
        &vec![damage(1, 5), damage(2, 5), damage(7, 5)],
        &mut vitals,
        &statuses,
        &content(),
        &mut log,
    );
    assert_eq!((vitals[0].hp, vitals[1].hp), (6, 3));
    assert_eq!(log.len(), 2, "who has no vitals is passed over");
}

#[test]
fn fatal_damage_is_told() {
    let mut vitals = vec![vital(1, Team::Player, 3)];
    let mut log = vec![];
    apply_damages(&vec![damage(1, 50)], &mut vitals, &vec![], &content(), &mut log);
    assert_eq!(vitals[0].hp, 0);
    assert!(vitals[0].is_dead);
    assert!(matches!(log[1], CombatEvent::UnitDied { entity: e } if e == entity(1)));
}

#[test]
fn damage_makes_both_sides_rage() {
    let mut rage = vec![
        RageRow { entity: entity(9), current: 0, max: 2 },
        RageRow { entity: entity(1), current: 2, max: 2 },
    ];
    let mut log = vec![];
    apply_rage(&vec![damage(1, 5)], &mut rage, &mut log);
    assert_eq!((rage[0].current, rage[1].current), (1, 2));
}

#[test]
fn healing_cleanses_before_it_heals() {
    let mut vitals = vec![vital(1, Team::Player, 10)];
    let mut statuses = vec![StatusRow {
        entity: entity(1),
        statuses: vec![status("poison", 3, 4, None), status("venom", 3, 5, None)],
    }];
    let mut log = vec![];
    apply_heals(&vec![heal(1, 6)], &mut vitals, &mut statuses, &mut log);
    assert_eq!(vitals[0].hp, 10, "all of it went into the poison");
    let dots: Vec<i32> = statuses[0].statuses.iter().map(|s| s.dot_per_tick).collect();
    assert!(dots.contains(&3), "two points of venom are gone");
    assert!(log.iter().any(|e| matches!(e, CombatEvent::PoisonCleansed { .. })));
    apply_heals(&vec![heal(1, 5)], &mut vitals, &mut statuses, &mut log);
    assert_eq!(vitals[0].hp, 12);
}

#[test]
fn healing_stops_at_the_maximum() {
    let mut vitals = vec![vital(1, Team::Player, 18)];
    let mut log = vec![];
    apply_plain_heals(&vec![heal(1, 9)], &mut vitals, &mut log);
    assert_eq!(vitals[0].hp, 20);
    assert_eq!(log.len(), 1);
}

#[test]
fn effects_are_applied_together() {
    let mut vitals = vec![vital(1, Team::Player, 10), vital(9, Team::Enemy, 10)];
    let mut statuses = vec![];
    let mut rage = vec![RageRow { entity: entity(9), current: 0, max: 3 }];
    let mut log = vec![];
    apply_effects_system(
        &vec![damage(1, 4)],
        &vec![heal(1, 1)],
        &mut vitals,
        &mut statuses,
        &mut rage,
        &content(),
        &mut log,
    );
    assert_eq!(vitals[0].hp, 8);
    assert_eq!(rage[0].current, 1);
}

// ---------------------------------------------------------------------------
// The end of a turn
// ---------------------------------------------------------------------------

#[test]
fn durations_run_by_the_turns_of_who_applied_them() {
    let mut rows = vec![StatusRow {
        entity: entity(1),
        statuses: vec![
            status("a", 2, 0, Some(entity(1))),
            status("b", 1, 0, Some(entity(1))),
            status("c", 1, 0, Some(entity(2))),
        ],
    }];
    let mut log = vec![];
    tick_status_durations(entity(1), &mut rows, &mut log);
    let left: Vec<(&str, u32)> =
        rows[0].statuses.iter().map(|s| (s.id.as_str(), s.rounds_remaining)).collect();
    assert_eq!(left, vec![("a", 1), ("c", 1)]);
    assert!(matches!(&log[0], CombatEvent::StatusExpired { status, .. } if status == "b"));
}

#[test]
fn mana_comes_back_point_by_point() {
    let mut rows = vec![
        ManaRow { entity: entity(1), current: 1, max: 3 },
        ManaRow { entity: entity(2), current: 1, max: 3 },
    ];
    let mut log = vec![];
    regain_mana(entity(1), &mut rows, &mut log);
    assert_eq!((rows[0].current, rows[1].current), (2, 1));
    let mut full = vec![ManaRow { entity: entity(1), current: 3, max: 3 }];
    regain_mana(entity(1), &mut full, &mut log);
    assert_eq!(full[0].current, 3);
}

fn world() -> TurnWorld {
    TurnWorld {
        statuses: vec![],
        mana: vec![],
        actions: vec![ActionRow { entity: entity(3), action: false }],
        order: vec![entity(1), entity(2), entity(3)],
        index: 0,
        active: Some(entity(1)),
        next_phase: None,
        log: vec![],
    }
}

fn sides(hp1: i32, hp2: i32, hp3: i32) -> Vec<VitalRow> {
    vec![
        vital(1, Team::Player, hp1),
        vital(2, Team::Enemy, hp2),
        vital(3, Team::Enemy, hp3),
    ]
}

#[test]
fn the_fallen_are_skipped() {
    let mut w = world();
    assert!(!end_turn(entity(1), &sides(5, 0, 5), &mut w));
    assert_eq!((w.index, w.active), (2, Some(entity(3))));
    assert!(w.actions[0].action);
    assert_eq!(advance_turn(&w.order, &sides(5, 0, 5), 0), 2);
}

#[test]
fn a_round_ends_with_the_order() {
    let mut w = world();
    w.index = 2;
    assert!(!end_turn(entity(3), &sides(5, 5, 5), &mut w));
    assert_eq!((w.index, w.next_phase), (0, Some(NextPhase::StartRound)));
}

#[test]
fn a_fallen_team_decides() {
    let mut w = world();
    assert!(end_turn(entity(1), &sides(5, 0, 0), &mut w));
    assert_eq!(w.next_phase, Some(NextPhase::Victory));
    assert!(matches!(w.log.last(), Some(CombatEvent::CombatEnded { victory: true })));
    let mut w = world();
    end_turns(&vec![entity(2), entity(3)], &sides(0, 5, 5), &mut w);
    assert_eq!(w.next_phase, Some(NextPhase::Defeat));
    assert!(team_stands(&sides(0, 5, 5), Team::Enemy));
    assert!(!team_stands(&sides(0, 5, 5), Team::Player));
}

#[test]
fn new_statuses_take_the_place_of_old_ones() {
    let mut rows =
        vec![StatusRow { entity: entity(1), statuses: vec![status("slow", 1, 0, None)] }];
    let msg = StatusMsg {
        source: entity(2),
        target: entity(1),
        status: text("slow"),
        duration_rounds: 3,
    };
    apply_statuses(&vec![msg], &mut rows);
    assert_eq!(rows[0].statuses.len(), 1);
    assert_eq!(rows[0].statuses[0].applier, Some(entity(2)));
    assert!(rows[0].statuses[0].rounds_remaining >= 3);
}

#[test]
fn a_whole_turn_is_cleaned_up() {
    let mut vitals = sides(5, 5, 5);
    let mut rage = vec![];
    let mut w = world();
    w.statuses = vec![StatusRow { entity: entity(2), statuses: vec![] }];
    let msg = StatusMsg {
        source: entity(1),
        target: entity(2),
        status: text("slow"),
        duration_rounds: 2,
    };
    cleanup_system(
        &vec![damage(2, 3)],
        &vec![heal(1, 2)],
        &vec![msg],
        &vec![entity(1)],
        &mut vitals,
        &mut rage,
        &content(),
        &mut w,
    );
    assert_eq!((vitals[0].hp, vitals[1].hp), (7, 3));
    assert_eq!(w.active, Some(entity(2)));
    assert_eq!(w.statuses[0].statuses.len(), 1);
}

#[test]
fn healing_below_zero_costs_hit_points() {
    let mut vitals = sides(5, 5, 5);
    let mut log = vec![];
    apply_plain_heals(&vec![heal(1, -3), heal(1, 30), heal(2, -9)], &mut vitals, &mut log);
    assert_eq!((vitals[0].hp, vitals[1].hp), (20, -4));
    let gains: Vec<i32> = log
        .iter()
        .map(|e| match e {
            CombatEvent::HealRolled { amount, .. } => *amount,
            other => panic!("expected healing, got {other:?}"),
        })
        .collect();
    assert_eq!(gains, vec![-3, 18, -9]);
    let mut w = world();
    cleanup_system(
        &vec![],
        &vec![heal(1, -4)],
        &vec![],
        &vec![],
        &mut vitals,
        &mut vec![],
        &content(),
        &mut w,
    );
    assert_eq!(vitals[0].hp, 16);
}

// ---------------------------------------------------------------------------
// Auras
// ---------------------------------------------------------------------------

fn banner(is_dead: bool) -> AuraSource {
    AuraSource {
        entity: entity(1),
        team: Team::Player,
        is_dead,
        radius: 2,
        status: text("brave"),
        affects: TeamRelation::Allies,
    }
}

fn field() -> HexPositions {
    let mut p = HexPositions::new();
    p.insert(entity(1), Hex::new(0, 0));
    p.insert(entity(2), Hex::new(2, 0));
    p.insert(entity(3), Hex::new(3, 0));
    p.insert(entity(4), Hex::new(1, 0));
    p
}

#[test]
fn auras_reach_friends_nearby() {
    let due = |id, team| collect_due(&vec![banner(false)], entity(id), Some(team), &field()).len();
    assert_eq!(due(2, Team::Player), 1);
    assert_eq!(due(3, Team::Player), 0, "too far");
    assert_eq!(due(4, Team::Enemy), 0, "not a friend");
    assert_eq!(collect_due(&vec![banner(true)], entity(2), Some(Team::Player), &field()).len(), 0);
}

#[test]
fn auras_come_and_go() {
    let mut targets = vec![
        AuraTarget {
            entity: entity(2),
            team: Some(Team::Player),
            is_dead: false,
            statuses: vec![status("slow", 1, 0, None)],
        },
        AuraTarget {
            entity: entity(3),
            team: Some(Team::Player),
            is_dead: false,
            statuses: vec![status("brave", 1, 0, Some(entity(1)))],
        },
    ];
    apply_auras_system(&vec![banner(false)], &field(), &mut targets);
    let names = |t: &AuraTarget| -> Vec<String> { t.statuses.iter().map(|s| s.id.clone()).collect() };
    assert_eq!(names(&targets[0]), vec![text("slow"), text("brave")]);
    assert!(names(&targets[1]).is_empty(), "out of reach");
    let before = format!("{:?}", targets);
    apply_auras_system(&vec![banner(false)], &field(), &mut targets);
    assert_eq!(format!("{:?}", targets), before, "a second look changes nothing");
}

#[test]
fn refreshing_without_dues_keeps_what_no_aura_gives() {
    let kept = refresh(&vec![status("slow", 1, 0, None)], &vec![banner(false)], &vec![]);
    assert_eq!(kept.len(), 1);
}
