//! What casts and moves lead to.

use combat::bootstrap::EcsStatus;
use combat::content::{
    AbilityDef, AbilityRange, AoEShape, ContentView, DiceExpr, EffectDef, ResourceCost,
    ResourceKind, StatusApplication, StatusBonuses, StatusDef, StatusOn, TargetType,
};
use combat::hex::{Board, Hex};
use combat::ids::Entity;
use combat::movement::{
    check_move, movement_system, replay_walk, settle_move, walk_path, Fired, Halt, MoverRow,
    MoverSheet, Provoker, RageRow, ReactionRow, Replay, Walk, WatcherRow,
};
use combat::outcome::{
    compute_ability_outcome, effect_breakdown, map_crit_fail, resolve_outcome, AbilityOutcome,
    CritOutcome, DiceSource, EffectCalc, ExpectedValue, OutcomePrimary,
};
use combat::positions::HexPositions;
use combat::state::{CritFailEffect, Team};

fn entity(id: u32) -> Entity {
    let outside = bevy::prelude::Entity::from_raw_u32(id).expect("valid entity id");
    Entity::try_from_bits(outside.to_bits()).expect("valid bits")
}

/// Dice that always fall the same way.
struct MockDice {
    roll: i32,
}

impl DiceSource for MockDice {
    fn roll_dice(&mut self, _expr: &DiceExpr, _disadvantage: bool) -> (i32, String) {
        (self.roll, format!("mock({})", self.roll))
    }
}

fn d(count: u32, sides: u32, bonus: i32) -> DiceExpr {
    DiceExpr { count, sides, bonus }
}

fn damage_ability(mana_cost: i32) -> AbilityDef {
    AbilityDef {
        id: "strike".to_string(),
        name: "Strike".to_string(),
        target_type: TargetType::SingleEnemy,
        range: AbilityRange { min: 0, max: 1 },
        effect: EffectDef::Damage { dice: d(1, 6, 0) },
        costs: if mana_cost > 0 {
            vec![ResourceCost { resource: ResourceKind::Mana, amount: mana_cost }]
        } else {
            Vec::new()
        },
        cost_ap: 1,
        aoe: AoEShape::Single,
        friendly_fire: false,
        statuses: Vec::new(),
        key: None,
        is_move_toggle: false,
        passive: false,
        ai_tags_override: None,
    }
}

fn calc() -> Option<EffectCalc> {
    Some(EffectCalc { dice: Some(d(1, 6, 0)), bonus: 0, is_heal: false, pierces_armor: false })
}

fn outcome_of(mana_cost: i32, crit_failed: bool, effect: CritFailEffect, roll: i32) -> AbilityOutcome {
    let def = damage_ability(mana_cost);
    let mut dice = MockDice { roll };
    compute_ability_outcome(
        entity(1),
        &def,
        vec![entity(2)],
        calc(),
        false,
        crit_failed,
        effect,
        &mut dice,
    )
    .expect("numbers in range")
}

// ---------------------------------------------------------------------------
// Casts
// ---------------------------------------------------------------------------

#[test]
fn crit_fail_miss_variant_skips_primary() {
    let outcome = outcome_of(0, true, CritFailEffect::Miss, 6);
    assert!(matches!(outcome.crit, CritOutcome::Miss));
    assert!(outcome.crit.skips_primary());
    assert!(!outcome.crit.is_mana_overload());
    assert!(outcome.affected.is_empty());
    assert!(matches!(outcome.primary, OutcomePrimary::Nothing));
}

#[test]
fn crit_fail_broken_faith_produces_self_status() {
    let outcome = outcome_of(0, true, CritFailEffect::BrokenFaith, 6);
    match outcome.crit {
        CritOutcome::SelfStatus { status, duration_rounds, .. } => {
            assert_eq!(status, "broken_faith");
            assert_eq!(duration_rounds, 1);
        }
        other => panic!("expected SelfStatus, got {other:?}"),
    }
}

#[test]
fn crit_fail_circuit_breach_self_damage_uses_mana_cost() {
    let outcome = outcome_of(5, true, CritFailEffect::CircuitBreach, 6);
    match outcome.crit {
        CritOutcome::SelfDamage { amount, .. } => assert_eq!(amount, 3),
        other => panic!("expected SelfDamage, got {other:?}"),
    }
}

#[test]
fn crit_fail_mana_overload_with_mana_cost_fires_effects_and_flags_overload() {
    let outcome = outcome_of(5, true, CritFailEffect::ManaOverload, 6);
    assert!(matches!(outcome.crit, CritOutcome::ManaOverload));
    assert!(outcome.crit.is_mana_overload());
    assert!(!outcome.crit.skips_primary(), "overload keeps the primary payload");
    assert!(matches!(outcome.primary, OutcomePrimary::Damage { .. }));
}

#[test]
fn crit_fail_mana_overload_without_mana_cost_falls_back_to_miss() {
    let outcome = outcome_of(0, true, CritFailEffect::ManaOverload, 6);
    assert!(matches!(outcome.crit, CritOutcome::Miss));
    assert!(!outcome.crit.is_mana_overload());
    assert!(matches!(outcome.primary, OutcomePrimary::Nothing));
}

#[test]
fn no_crit_fail_fires_primary_effect() {
    let outcome = outcome_of(0, false, CritFailEffect::Miss, 5);
    assert!(matches!(outcome.crit, CritOutcome::Normal));
    assert!(!outcome.crit.skips_primary());
    assert!(!outcome.crit.is_mana_overload());
    match outcome.primary {
        OutcomePrimary::Damage { raw, .. } => assert_eq!(raw, 5),
        _ => panic!("expected Damage"),
    }
    assert_eq!(outcome.affected, vec![entity(2)]);
}

#[test]
fn other_failures_put_statuses_on_the_caster() {
    for (effect, id) in
        [(CritFailEffect::Exhaustion, "exhaustion"), (CritFailEffect::PactControl, "pact_control")]
    {
        match map_crit_fail(effect, 0) {
            CritOutcome::SelfStatus { status, .. } => assert_eq!(status, id),
            other => panic!("expected SelfStatus, got {other:?}"),
        }
    }
}

#[test]
fn breakdowns_tell_dice_bonus_and_total() {
    assert_eq!(effect_breakdown(&"1d6".to_string(), 3, 7), "1d6 + 3 = 7");
}

#[test]
fn statuses_go_to_targets_and_caster() {
    let mut def = damage_ability(0);
    def.statuses = vec![
        StatusApplication { status: "poison".to_string(), on: StatusOn::Target, duration_rounds: 3 },
        StatusApplication { status: "rush".to_string(), on: StatusOn::MySelf, duration_rounds: 1 },
    ];
    let r = resolve_outcome(
        entity(1),
        &def,
        vec![entity(2), entity(3)],
        calc(),
        false,
        CritFailEffect::Miss,
        4,
        &"1d6".to_string(),
    )
    .expect("numbers in range");
    let got: Vec<(Entity, &str, u32)> =
        r.statuses.iter().map(|s| (s.target, s.status.as_str(), s.duration_rounds)).collect();
    assert_eq!(
        got,
        vec![(entity(2), "poison", 3), (entity(3), "poison", 3), (entity(1), "rush", 1)]
    );
}

#[test]
fn a_sum_beyond_the_range_has_no_outcome() {
    let def = damage_ability(5);
    let strong = |is_heal| {
        Some(EffectCalc { dice: Some(d(1, 6, 0)), bonus: i32::MAX, is_heal, pierces_armor: false })
    };
    let cast = |calc, crit_failed, effect, roll| {
        let mut dice = MockDice { roll };
        compute_ability_outcome(
            entity(1),
            &def,
            vec![entity(2)],
            calc,
            true,
            crit_failed,
            effect,
            &mut dice,
        )
    };
    assert!(cast(strong(false), false, CritFailEffect::Miss, 1).is_none());
    let even = cast(strong(true), false, CritFailEffect::Miss, 0).expect("the sum fits");
    assert!(matches!(even.primary, OutcomePrimary::Heal { amount: i32::MAX }));
    assert_eq!(even.breakdown, "mock(0) + 2147483647 = 2147483647");
    let missed = cast(strong(false), true, CritFailEffect::Miss, 1).expect("no sum is needed");
    assert!(matches!(missed.crit, CritOutcome::Miss));
}

/// Dice that tell what they were asked to roll.
struct Witness {
    asked: Vec<(DiceExpr, bool)>,
}

impl DiceSource for Witness {
    fn roll_dice(&mut self, expr: &DiceExpr, disadvantage: bool) -> (i32, String) {
        self.asked.push((*expr, disadvantage));
        (3, String::new())
    }
}

#[test]
fn a_cast_rolls_its_own_dice_once() {
    let def = damage_ability(5);
    for (crit_failed, effect, rolls) in [
        (false, CritFailEffect::Miss, 1),
        (true, CritFailEffect::ManaOverload, 1),
        (true, CritFailEffect::Miss, 0),
    ] {
        let mut dice = Witness { asked: vec![] };
        let calc = EffectCalc { dice: Some(d(2, 8, 1)), bonus: 4, is_heal: false, pierces_armor: true };
        let o = compute_ability_outcome(
            entity(1),
            &def,
            vec![entity(2)],
            Some(calc),
            true,
            crit_failed,
            effect,
            &mut dice,
        )
        .expect("numbers in range");
        assert_eq!(dice.asked, vec![(d(2, 8, 1), true); rolls]);
        if rolls == 1 {
            assert!(matches!(o.primary, OutcomePrimary::Damage { raw: 7, pierces_armor: true }));
            assert_eq!(o.breakdown, "7");
        }
    }
}

#[test]
fn an_overload_casts_as_usual() {
    let usual = outcome_of(5, false, CritFailEffect::Miss, 6);
    let overload = outcome_of(5, true, CritFailEffect::ManaOverload, 6);
    assert_eq!(usual.affected, overload.affected);
    assert_eq!(usual.breakdown, overload.breakdown);
    assert!(matches!(overload.primary, OutcomePrimary::Damage { raw: 6, .. }));
    assert!(matches!(usual.primary, OutcomePrimary::Damage { raw: 6, .. }));
}

#[test]
fn expected_values_are_rounded_means() {
    let mut e = ExpectedValue;
    assert_eq!(e.roll_dice(&d(2, 6, 0), false), (7, String::new()));
    assert_eq!(e.roll_dice(&d(1, 6, 0), false).0, 4);
    assert_eq!(e.roll_dice(&d(1, 6, -8), false).0, -5);
    assert_eq!(e.roll_dice(&d(1, 6, 0), true).0, 3);
    assert_eq!(e.roll_dice(&d(3, 0, 2), false).0, 2);
    assert_eq!(e.roll_dice(&d(u32::MAX, u32::MAX, 0), false).0, i32::MAX);
}

// ---------------------------------------------------------------------------
// Walks
// ---------------------------------------------------------------------------

fn provoker(id: u32, pos: Hex, reactions_left: u8) -> Provoker {
    Provoker { entity: entity(id), pos, dice: d(1, 6, 0), str_mod: 1, reactions_left }
}

fn straight(n: i32) -> Vec<Hex> {
    (1..=n).map(|x| Hex::new(x, 0)).collect()
}

fn walk_of(replay: Replay) -> Walk {
    match replay {
        Replay::Done(w) => w,
        Replay::Halted(h) => panic!("halted: {h:?}"),
    }
}

#[test]
fn nobody_is_attacked_who_walks_past_no_one() {
    let w = walk_of(replay_walk(10, Hex::zero(), &straight(3), &vec![], 0, 0, &vec![]));
    assert_eq!((w.hp, w.walked, w.died), (10, 3, false));
    assert!(w.fired.is_empty());
}

#[test]
fn leaving_a_reach_costs_hit_points() {
    let foes = vec![provoker(9, Hex::new(0, 1), 1)];
    let w = walk_of(replay_walk(10, Hex::zero(), &straight(2), &foes, 2, 0, &vec![4]));
    assert_eq!(w.fired, vec![Fired { attacker: entity(9), damage: 3, killed: false }]);
    assert_eq!((w.hp, w.walked), (7, 2));
}

#[test]
fn a_walk_ends_where_the_mover_falls() {
    let foes = vec![provoker(9, Hex::new(-1, 0), 2)];
    let w = walk_of(replay_walk(3, Hex::zero(), &straight(3), &foes, 0, 0, &vec![6]));
    assert_eq!((w.hp, w.walked, w.died), (0, 1, true));
    assert!(w.fired[0].killed);
}

#[test]
fn a_walk_waits_for_its_rolls() {
    let foes = vec![provoker(9, Hex::new(-1, 0), 1)];
    match replay_walk(3, Hex::zero(), &straight(1), &foes, 0, 0, &vec![]) {
        Replay::Halted(Halt::NeedsRoll(dice)) => assert_eq!(dice, d(1, 6, 0)),
        other => panic!("expected a halt, got {other:?}"),
    }
    match replay_walk(3, Hex::zero(), &straight(1), &foes, 0, 0, &vec![i32::MAX]) {
        Replay::Halted(h) => assert_eq!(h, Halt::OutOfRange),
        other => panic!("expected a halt, got {other:?}"),
    }
}

#[test]
fn spent_reactions_give_free_passage() {
    let foes = vec![provoker(9, Hex::new(-1, 0), 0)];
    let mut dice = MockDice { roll: 6 };
    let w = walk_path(3, Hex::zero(), &straight(2), &foes, 0, 0, &mut dice).expect("in range");
    assert_eq!((w.hp, w.walked), (3, 2));
    let foes = vec![provoker(9, Hex::new(-1, 0), 1)];
    let w = walk_path(9, Hex::zero(), &straight(2), &foes, 0, 0, &mut dice).expect("in range");
    assert_eq!((w.hp, w.fired.len()), (2, 1));
}

#[test]
fn opportunity_attacks_roll_the_attackers_dice() {
    let mut dice = Witness { asked: vec![] };
    let foes = vec![Provoker { dice: d(2, 4, 1), ..provoker(5, Hex::new(-1, 0), 1) }];
    let w = walk_path(20, Hex::zero(), &straight(3), &foes, 0, 0, &mut dice).expect("in range");
    assert_eq!(w.fired.len(), 1);
    assert_eq!(dice.asked, vec![(d(2, 4, 1), false)]);
    let mut unasked = Witness { asked: vec![] };
    walk_path(20, Hex::zero(), &straight(3), &vec![], 0, 0, &mut unasked).expect("in range");
    assert!(unasked.asked.is_empty());
}

fn flat_board() -> Board {
    Board { row_cols: vec![9, 9, 9] }
}

#[test]
fn moves_need_turn_points_and_a_free_cell() {
    let mut positions = HexPositions::new();
    positions.insert(entity(1), Hex::zero());
    positions.insert(entity(2), Hex::new(4, 0));
    let row = |points| Some(MoverRow { can_move: true, movement_points: points });
    let board = flat_board();
    let ask = |path: &Vec<Hex>, active, mover| {
        check_move(entity(1), path, active, mover, &board, &positions)
    };
    assert!(ask(&straight(3), Some(entity(1)), row(3)));
    assert!(!ask(&straight(3), Some(entity(2)), row(3)), "not its turn");
    assert!(!ask(&straight(3), None, row(3)), "nobody's turn");
    assert!(!ask(&vec![], Some(entity(1)), row(3)), "no path");
    assert!(!ask(&straight(3), Some(entity(1)), row(2)), "too far");
    assert!(!ask(&straight(4), Some(entity(1)), row(9)), "taken");
    assert!(!ask(&vec![Hex::new(-1, 0)], Some(entity(1)), row(9)), "off the board");
    assert!(!ask(&straight(3), Some(entity(1)), None), "no mover");
    let frozen = Some(MoverRow { can_move: false, movement_points: 9 });
    assert!(!ask(&straight(3), Some(entity(1)), frozen));
}

#[test]
fn settling_writes_rage_reactions_and_log() {
    let mut positions = HexPositions::new();
    positions.insert(entity(1), Hex::zero());
    let mut reactions = vec![ReactionRow { entity: entity(9), remaining: 1 }];
    let mut rage = vec![RageRow { entity: entity(1), current: 1, max: 5 }];
    let mut log = vec![];
    let walk = Walk {
        hp: 7,
        walked: 2,
        fired: vec![Fired { attacker: entity(9), damage: 3, killed: false }],
        died: false,
    };
    let end = settle_move(
        entity(1),
        Hex::zero(),
        &straight(2),
        &walk,
        2,
        true,
        &mut positions,
        &mut reactions,
        &mut rage,
        &mut log,
    );
    assert_eq!(end.hp, 7);
    assert_eq!(end.movement_points, 0);
    assert!(end.remove_bonus && !end.blocked && !end.died);
    assert_eq!(end.waypoints, vec![Hex::zero(), Hex::new(1, 0), Hex::new(2, 0)]);
    assert_eq!(positions.get(entity(1)), Some(Hex::new(2, 0)));
    assert_eq!(reactions[0].remaining, 0);
    assert_eq!(rage[0].current, 2);
    assert_eq!(log.len(), 3, "rage, attack, move");
}

fn melee_content() -> ContentView {
    let mut sword = damage_ability(0);
    sword.id = "sword".to_string();
    sword.effect = EffectDef::WeaponAttack { ranged: false };
    let stunned = StatusDef {
        id: "stunned".to_string(),
        name: "Stunned".to_string(),
        skips_turn: true,
        causes_disadvantage: false,
        blocks_mana_abilities: false,
        forces_targeting: false,
        bonuses: StatusBonuses { speed_bonus: 0, armor_bonus: 2, damage_taken_bonus: 1 },
        dot_dice: None,
        hp_percent_dot: 0,
        buff_class: None,
    };
    ContentView { abilities: vec![sword], statuses: vec![stunned] }
}

fn watcher(id: u32, statuses: Vec<&str>) -> WatcherRow {
    WatcherRow {
        entity: entity(id),
        team: Team::Enemy,
        hp: 5,
        is_dead: false,
        statuses: statuses.iter().map(|s| s.to_string()).collect(),
        abilities: vec!["sword".to_string()],
        weapon_dice: Some(d(1, 6, 0)),
        str_mod: 1,
        reactions_left: 1,
    }
}

fn mover() -> Option<MoverSheet> {
    Some(MoverSheet {
        team: Team::Player,
        may_move: true,
        movement_points: 5,
        has_bonus: false,
        hp: 10,
        armor: 1,
        statuses: vec![EcsStatus {
            id: "stunned".to_string(),
            rounds_remaining: 1,
            dot_per_tick: 0,
            applier: None,
        }],
    })
}

#[test]
fn a_whole_move_from_request_to_end() {
    let content = melee_content();
    let mut positions = HexPositions::new();
    positions.insert(entity(1), Hex::zero());
    positions.insert(entity(9), Hex::new(0, 1));
    positions.insert(entity(8), Hex::new(1, 1));
    let watchers = vec![watcher(9, vec![]), watcher(8, vec!["stunned"])];
    let mut reactions = vec![ReactionRow { entity: entity(9), remaining: 1 }];
    let mut rage = vec![];
    let mut log = vec![];
    let mut dice = MockDice { roll: 6 };
    let end = movement_system(
        entity(1),
        &straight(3),
        Some(entity(1)),
        &mover(),
        &watchers,
        &flat_board(),
        &content,
        &mut positions,
        &mut reactions,
        &mut rage,
        &mut log,
        &mut dice,
    )
    .expect("the move may begin");
    // Raw damage of seven, less armor of three, and one for vulnerability.
    assert_eq!(end.hp, 5);
    assert_eq!(end.movement_points, 2);
    assert_eq!(positions.get(entity(1)), Some(Hex::new(3, 0)));
    assert_eq!(reactions[0].remaining, 0);
    assert_eq!(log.len(), 2);
}

#[test]
fn a_refused_move_writes_nothing() {
    let mut positions = HexPositions::new();
    positions.insert(entity(1), Hex::zero());
    let (mut reactions, mut rage, mut log) = (vec![], vec![], vec![]);
    let end = movement_system(
        entity(1),
        &straight(3),
        Some(entity(2)),
        &mover(),
        &vec![],
        &flat_board(),
        &melee_content(),
        &mut positions,
        &mut reactions,
        &mut rage,
        &mut log,
        &mut MockDice { roll: 1 },
    );
    assert!(end.is_none());
    assert_eq!(positions.get(entity(1)), Some(Hex::zero()));
    assert!(log.is_empty());
}
