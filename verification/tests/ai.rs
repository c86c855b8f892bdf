//! What the AI considers, weighs and decides.

use combat::ai_tags::AiTags;
use combat::bootstrap::EcsStatus;
use combat::candidates::{
    cell_score, pick_top, select_diverse_tiles, ActionCandidate, ActiveUnit, CandidateKind,
    CellScore, EnemySpot, Field, PathTo, Reach,
};
use combat::content::{
    AbilityDef, AbilityRange, AoEShape, ContentView, DiceExpr, EffectDef, ResourceCost,
    ResourceKind, StatusApplication, StatusBonuses, StatusDef, StatusOn, TargetType,
};
use combat::decisions::{
    area_hits, decision_from_candidate, fallback_move, find_nearest, find_safest,
    record_reservation, AiDecision, Expected, Hittable, MoveOrigin,
};
use combat::deliberation::{
    choice_pool, close_choice, is_defensive, looked_at, open_choice,
    order_with_mercy, pick_best_candidate, protect, sanity_findings, AllySpot, IntentKind,
    IntentReason, Opening, Outlook, PlanRanking, Protection, Retreat, Surroundings, TacticalIntent,
};
use combat::hex::{all_cells, hex_from_offset, Board, Hex};
use combat::ids::Entity;
use combat::pool::{add_move_only_candidates, generate_candidates};
use combat::positions::{HexPositions, Standing};
use combat::ranking::{rank_by, SortKey};
use combat::reservations::{Reservations, ReservationsSnapshot};
use combat::outcome::EffectCalc;
use combat::spending::{
    claim_facts, compute_cc_value, compute_kill_flag, has_free_attack, mana_cost, spend_facts,
    TargetGuard,
};
use combat::state::Team;
use combat::tactics::{
    enemy_ai_system, evaluate_targets, first_best, forced_or_all, impassable_cells, living_targets,
    open_enemy_turn, plan_movement, taken_cells, Aim, Approach, CombatantInfo, EnemyCommand,
    EnemyOpening, EnemyPlan, EnemyRow, Shot,
};
use combat::targets::aim_cells;

// ---------------------------------------------------------------------------
// Helpers
// ---------------------------------------------------------------------------

fn entity(id: u32) -> Entity {
    let outside = bevy::prelude::Entity::from_raw_u32(id).expect("valid entity id");
    Entity::try_from_bits(outside.to_bits()).expect("valid bits")
}

fn text(s: &str) -> String {
    s.to_string()
}

fn at(col: i32, row: i32) -> Hex {
    hex_from_offset(col, row)
}

fn board() -> Board {
    Board { row_cols: vec![8, 7, 8, 7, 8, 7, 8] }
}

fn d6() -> DiceExpr {
    DiceExpr { count: 1, sides: 6, bonus: 0 }
}

fn ability(id: &str, effect: EffectDef, range: u32) -> AbilityDef {
    AbilityDef {
        id: text(id),
        name: text(id),
        target_type: TargetType::SingleEnemy,
        range: AbilityRange { min: 0, max: range },
        effect,
        costs: vec![],
        cost_ap: 1,
        aoe: AoEShape::Single,
        friendly_fire: false,
        statuses: vec![],
        key: None,
        is_move_toggle: false,
        passive: false,
        ai_tags_override: None,
    }
}

fn content() -> ContentView {
    let mut fireball = ability("fireball", EffectDef::SpellDamage { dice: d6() }, 5);
    fireball.aoe = AoEShape::Circle { radius: 1 };
    fireball.friendly_fire = true;
    fireball.costs = vec![ResourceCost { resource: ResourceKind::Mana, amount: 5 }];
    let mut heal = ability("heal", EffectDef::Heal { dice: d6() }, 3);
    heal.target_type = TargetType::SingleAlly;
    let mut stun = ability("stun", EffectDef::StatusOnly, 2);
    stun.costs = vec![ResourceCost { resource: ResourceKind::Rage, amount: 1 }];
    stun.statuses = vec![StatusApplication {
        status: text("stunned"),
        on: StatusOn::Target,
        duration_rounds: 1,
    }];
    let stunned = StatusDef {
        id: text("stunned"),
        name: text("Stunned"),
        skips_turn: true,
        causes_disadvantage: false,
        blocks_mana_abilities: false,
        forces_targeting: false,
        bonuses: StatusBonuses::default(),
        dot_dice: None,
        hp_percent_dot: 0,
        buff_class: None,
    };
    let mut taunt = status_like("taunt");
    taunt.forces_targeting = true;
    ContentView {
        abilities: vec![
            ability("melee_attack", EffectDef::WeaponAttack { ranged: false }, 1),
            fireball,
            heal,
            stun,
        ],
        statuses: vec![stunned, taunt],
    }
}

fn status_like(id: &str) -> StatusDef {
    StatusDef {
        id: text(id),
        name: text(id),
        skips_turn: false,
        causes_disadvantage: false,
        blocks_mana_abilities: false,
        forces_targeting: false,
        bonuses: StatusBonuses { speed_bonus: 0, armor_bonus: 1, damage_taken_bonus: 0 },
        dot_dice: None,
        hp_percent_dot: 0,
        buff_class: None,
    }
}

/// All cells of the board in one step, but for the start.
fn fake_reach(start: Hex) -> Reach {
    let cells: Vec<Hex> = all_cells(&board()).into_iter().filter(|h| *h != start).collect();
    let paths = cells.iter().map(|h| PathTo { cell: *h, path: vec![*h] }).collect();
    Reach { destinations: cells, paths }
}

fn active(pos: Hex, abilities: Vec<&str>) -> ActiveUnit {
    ActiveUnit {
        entity: entity(100),
        pos,
        can_act: true,
        can_move: true,
        hp: 20,
        mana: 10,
        rage: 0,
        energy: 0,
        tags: AiTags { melee_only: true, ..AiTags::empty() },
        abilities: abilities.into_iter().map(text).collect(),
    }
}

fn field(enemies: Vec<EnemySpot>) -> Field {
    let standing = enemies.iter().map(|e| Standing { entity: e.entity, hex: e.pos }).collect();
    let living = enemies.iter().map(|e| e.entity).collect();
    Field {
        board: board(),
        enemies,
        allies: vec![],
        wounded: vec![],
        standing,
        living,
        seeing: vec![],
        opportunity: vec![],
        escape: vec![],
    }
}

fn enemy(id: u32, pos: Hex, priority: i64) -> EnemySpot {
    EnemySpot { entity: entity(id), pos, priority }
}

fn cast(tile: Hex, ability: &str, target_pos: Hex, target: Option<Entity>) -> ActionCandidate {
    ActionCandidate {
        tile,
        path: vec![],
        kind: CandidateKind::Cast { ability: text(ability), target_pos, target },
    }
}

fn key(value: i128) -> SortKey {
    SortKey { value, cost: 0 }
}

// ---------------------------------------------------------------------------
// Reservations
// ---------------------------------------------------------------------------

#[test]
fn clear_resets_all() {
    let mut r = Reservations::default();
    let e = entity(1);
    let tile = at(3, 3);
    r.reserve_damage(e, 10);
    r.reserve_cc(e);
    r.reserve_tile(tile);
    r.clear();
    assert_eq!(r.reserved_damage(e), 0);
    assert!(!r.has_reserved_cc(e));
    assert!(!r.is_tile_reserved(tile));
}

#[test]
fn damage_accumulates() {
    let mut r = Reservations::default();
    let e = entity(1);
    r.reserve_damage(e, 8);
    r.reserve_damage(e, 12);
    assert_eq!(r.reserved_damage(e), 20);
}

#[test]
fn cc_is_set_like() {
    let mut r = Reservations::default();
    let e = entity(1);
    assert!(!r.has_reserved_cc(e));
    r.reserve_cc(e);
    r.reserve_cc(e);
    assert!(r.has_reserved_cc(e));
}

#[test]
fn tile_reservation() {
    let mut r = Reservations::default();
    let tile = at(4, 2);
    assert!(!r.is_tile_reserved(tile));
    r.reserve_tile(tile);
    assert!(r.is_tile_reserved(tile));
}

#[test]
fn queries_return_zero_for_unknown() {
    let r = Reservations::default();
    assert_eq!(r.reserved_damage(entity(99)), 0);
    assert!(!r.has_reserved_cc(entity(99)));
    assert!(!r.is_tile_reserved(at(0, 0)));
}

#[test]
fn claims_survive_being_written_down() {
    let mut r = Reservations::new();
    r.reserve_damage(entity(1), 8);
    r.reserve_cc(entity(2));
    r.reserve_tile(Hex::new(3, -1));
    let snap: ReservationsSnapshot = r.to_snapshot();
    assert_eq!(snap.damage, vec![(entity(1).bits, 8)]);
    assert_eq!(snap.tiles, vec![(3, -1)]);
    let back = Reservations::from_snapshot(&snap);
    assert_eq!(back.reserved_damage(entity(1)), 8);
    assert!(back.has_reserved_cc(entity(2)));
    assert!(back.is_tile_reserved(Hex::new(3, -1)));
}

// ---------------------------------------------------------------------------
// Ranking
// ---------------------------------------------------------------------------

#[test]
fn ranking_goes_by_value_then_cost_then_place() {
    let keys = vec![
        SortKey { value: 5, cost: 3 },
        SortKey { value: 9, cost: 9 },
        SortKey { value: 5, cost: 1 },
        SortKey { value: 5, cost: 3 },
    ];
    assert_eq!(rank_by(&keys), vec![1, 2, 0, 3]);
    assert_eq!(rank_by(&vec![]), Vec::<usize>::new());
}

#[test]
fn top_cells_are_listed_once() {
    let cells = vec![at(0, 0), at(1, 0), at(2, 0)];
    let mut out = vec![at(2, 0)];
    pick_top(&cells, &vec![key(1), key(3), key(2)], 2, &mut out);
    assert_eq!(out.len(), 2);
    assert!(out.contains(&at(1, 0)) && out.contains(&at(2, 0)));
    let scores = vec![CellScore { cell: at(1, 1), score: -4 }];
    assert_eq!(cell_score(&scores, at(1, 1)), -4);
    assert_eq!(cell_score(&scores, at(0, 1)), 0);
}

// ---------------------------------------------------------------------------
// Candidates
// ---------------------------------------------------------------------------

#[test]
fn diverse_tiles_always_includes_current_pos() {
    let actor_pos = at(4, 3);
    let unit = active(actor_pos, vec!["melee_attack"]);
    let f = field(vec![enemy(1, at(0, 0), 0)]);
    let tiles = select_diverse_tiles(&unit, &f, &fake_reach(actor_pos), &content());
    assert!(tiles.contains(&actor_pos), "current position must always be included");
}

#[test]
fn diverse_tiles_near_priority_target() {
    let actor_pos = at(4, 3);
    let target = at(2, 3);
    let unit = active(actor_pos, vec!["melee_attack"]);
    let f = field(vec![enemy(1, target, 10)]);
    let tiles = select_diverse_tiles(&unit, &f, &fake_reach(actor_pos), &content());
    let has_close = tiles.iter().any(|h| h.unsigned_distance_to(target) <= 1);
    assert!(has_close, "should include a tile near priority target; got {:?}", tiles);
}

#[test]
fn diverse_tiles_includes_offensive_and_safe() {
    let actor_pos = at(4, 3);
    let unit = active(actor_pos, vec!["melee_attack"]);
    let offensive = at(3, 2);
    let safe = at(5, 4);
    let mut f = field(vec![enemy(1, at(1, 1), 0)]);
    f.opportunity = vec![CellScore { cell: offensive, score: 9 }];
    f.escape = vec![CellScore { cell: safe, score: 9 }];
    let tiles = select_diverse_tiles(&unit, &f, &fake_reach(actor_pos), &content());
    assert!(tiles.contains(&offensive), "offensive tile should be included");
    assert!(tiles.contains(&safe), "safe tile should be included");
}

#[test]
fn healers_and_casters_look_further() {
    let actor_pos = at(4, 3);
    let mut unit = active(actor_pos, vec!["fireball", "heal"]);
    unit.tags = AiTags { has_aoe: true, can_heal: true, ranged: true, ..AiTags::empty() };
    let mut f = field(vec![enemy(1, at(0, 0), 0), enemy(2, at(1, 0), 0)]);
    let friend = at(0, 6);
    f.wounded = vec![friend];
    let tiles = select_diverse_tiles(&unit, &f, &fake_reach(actor_pos), &content());
    assert!(
        tiles.iter().any(|h| h.unsigned_distance_to(friend) <= 3),
        "a tile from which the friend can be healed"
    );
    assert!(
        tiles.iter().any(|h| h.unsigned_distance_to(at(0, 0)) <= 1),
        "a tile in the midst of the enemies"
    );
}

#[test]
fn candidates_attack_and_retreat() {
    let actor_pos = at(4, 3);
    let unit = active(actor_pos, vec!["melee_attack", "fireball"]);
    let foe = enemy(1, at(2, 3), 5);
    let cands =
        generate_candidates(&unit, &field(vec![foe]), &fake_reach(actor_pos), &content(), 40);
    assert!(cands.len() <= 40 + 3);
    assert!(cands.iter().any(|c| c.target() == Some(entity(1))));
    assert!(cands.iter().any(|c| c.is_move_only()));
    assert!(cands.iter().any(|c| c.ability().map(|a| a.as_str()) == Some("fireball")));
    for c in &cands {
        if let Some(pos) = c.target_pos() {
            assert!(c.tile.unsigned_distance_to(pos) <= 5);
        }
    }
}

#[test]
fn no_two_candidates_come_to_the_same() {
    let actor_pos = at(4, 3);
    let unit = active(actor_pos, vec!["melee_attack", "fireball"]);
    let foes = vec![enemy(1, at(2, 3), 5), enemy(2, at(3, 3), 9)];
    for budget in [1, 3, 40] {
        let cands = generate_candidates(
            &unit,
            &field(foes.clone()),
            &fake_reach(actor_pos),
            &content(),
            budget,
        );
        assert!(cands.len() <= budget);
        for (i, a) in cands.iter().enumerate() {
            for b in &cands[..i] {
                let same_cast = a.ability().is_some()
                    && a.ability() == b.ability()
                    && a.target() == b.target();
                let same_move = a.is_move_only() && b.is_move_only() && a.tile == b.tile;
                assert!(!same_cast && !same_move);
            }
        }
    }
}

#[test]
fn who_cannot_act_only_moves() {
    let actor_pos = at(4, 3);
    let mut unit = active(actor_pos, vec!["melee_attack"]);
    unit.can_act = false;
    let f = field(vec![enemy(1, at(2, 3), 5)]);
    let cands = generate_candidates(&unit, &f, &fake_reach(actor_pos), &content(), 40);
    assert!(!cands.is_empty());
    assert!(cands.iter().all(|c| c.is_move_only()));
    let copy = cands[0].copied();
    assert_eq!((copy.tile, copy.path.len()), (cands[0].tile, cands[0].path.len()));
}

#[test]
fn candidates_can_be_paid_and_walked() {
    let actor_pos = at(4, 3);
    let mut unit = active(actor_pos, vec!["melee_attack", "fireball", "stun"]);
    unit.mana = 4;
    let f = field(vec![enemy(1, at(3, 3), 5), enemy(2, at(0, 0), 1)]);
    let cands = generate_candidates(&unit, &f, &fake_reach(actor_pos), &content(), 40);
    let names: Vec<&str> =
        cands.iter().filter_map(|c| c.ability().map(|a| a.as_str())).collect();
    assert!(!names.is_empty());
    assert!(names.iter().all(|n| *n == "melee_attack"));
    assert!(cands.iter().any(|c| !c.path.is_empty()));

    unit.mana = 5;
    unit.can_move = false;
    let cands = generate_candidates(&unit, &f, &fake_reach(actor_pos), &content(), 40);
    assert!(cands.iter().any(|c| c.ability().map(|a| a.as_str()) == Some("fireball")));
    assert!(cands.iter().all(|c| c.path.is_empty() && c.tile == actor_pos));
    assert!(cands.iter().all(|c| !c.is_move_only()));
}

#[test]
fn unlimited_abilities_reach_any_cell() {
    let actor_pos = Hex::new(i32::MAX, i32::MIN);
    let far = Hex::new(i32::MIN, i32::MAX);
    let unit = active(actor_pos, vec!["gaze"]);
    let gaze = ability("gaze", EffectDef::StatusOnly, 0);
    let mut huge = ability("huge", EffectDef::StatusOnly, 3);
    huge.aoe = AoEShape::Circle { radius: u32::MAX };
    let content = ContentView { abilities: vec![huge, gaze], statuses: vec![] };
    let nowhere = Reach { destinations: vec![], paths: vec![] };
    let f = field(vec![]);
    assert!(generate_candidates(&unit, &f, &nowhere, &content, 40).is_empty());
    let aims = aim_cells(&content.abilities[1], actor_pos, &vec![far], &vec![], &board());
    assert_eq!(aims, vec![far]);
    let foes = vec![Hittable { entity: entity(1), pos: far }];
    assert!(area_hits(AoEShape::Single, actor_pos, far, &foes).is_empty());
}

#[test]
fn retreats_go_where_escape_is_best() {
    let reach = fake_reach(at(0, 0));
    let escape =
        vec![CellScore { cell: at(5, 5), score: 7 }, CellScore { cell: at(6, 6), score: 9 }];
    let mut out = vec![];
    add_move_only_candidates(at(0, 0), &reach, &escape, &mut out);
    assert_eq!(out.len(), 3);
    assert_eq!((out[0].tile, out[1].tile), (at(6, 6), at(5, 5)));
    assert_eq!(reach.path_to(at(5, 5)), Some(vec![at(5, 5)]));
    assert_eq!(reach.path_to(at(90, 90)), None);
}

// ---------------------------------------------------------------------------
// Decisions
// ---------------------------------------------------------------------------

#[test]
fn candidates_become_decisions() {
    let here = at(1, 1);
    let stay = cast(here, "melee_attack", at(2, 1), Some(entity(1)));
    assert!(matches!(
        decision_from_candidate(&stay, entity(9), here),
        AiDecision::CastInPlace { target, .. } if target == entity(1)
    ));
    let mut go = cast(at(2, 2), "melee_attack", at(3, 2), Some(entity(1)));
    go.path = vec![at(2, 2)];
    assert!(matches!(
        decision_from_candidate(&go, entity(9), here),
        AiDecision::MoveAndCast { path, .. } if path == vec![at(2, 2)]
    ));
    let flee = ActionCandidate {
        tile: at(0, 0),
        path: vec![at(0, 0)],
        kind: CandidateKind::MoveOnly,
    };
    assert!(matches!(
        decision_from_candidate(&flee, entity(9), here),
        AiDecision::Move { origin: MoveOrigin::BestPlan, .. }
    ));
}

#[test]
fn fallbacks_flee_or_close_in() {
    let cells = vec![at(1, 0), at(3, 0), at(6, 0)];
    let reach = Reach {
        destinations: vec![at(1, 0), at(3, 0), at(6, 0)],
        paths: cells.iter().map(|h| PathTo { cell: *h, path: vec![*h] }).collect(),
    };
    let danger = vec![
        CellScore { cell: at(1, 0), score: 3 },
        CellScore { cell: at(3, 0), score: -1 },
        CellScore { cell: at(6, 0), score: 5 },
    ];
    assert_eq!(find_safest(&cells, &danger), at(3, 0));
    assert_eq!(find_nearest(&cells, &vec![at(7, 0)]), at(6, 0));
    let path_of = |d: AiDecision| match d {
        AiDecision::Move { path, origin: MoveOrigin::Fallback } => path,
        other => panic!("expected a move, got {other:?}"),
    };
    let foes = vec![at(7, 0)];
    assert_eq!(path_of(fallback_move(true, true, &foes, &reach, &danger)), vec![at(3, 0)]);
    assert_eq!(path_of(fallback_move(true, false, &foes, &reach, &danger)), vec![at(6, 0)]);
    assert!(matches!(fallback_move(false, false, &foes, &reach, &danger), AiDecision::EndTurn));
}

#[test]
fn areas_hit_who_stands_in_them() {
    let foes = vec![
        Hittable { entity: entity(1), pos: at(3, 3) },
        Hittable { entity: entity(2), pos: at(3, 2) },
        Hittable { entity: entity(3), pos: at(6, 6) },
    ];
    let hit = area_hits(AoEShape::Circle { radius: 1 }, at(1, 1), at(3, 3), &foes);
    assert_eq!(hit, vec![entity(1), entity(2)]);
    let line = area_hits(AoEShape::Line { length: 2 }, at(3, 3), at(3, 2), &foes);
    assert_eq!(line, vec![entity(2)]);
    assert!(area_hits(AoEShape::Single, at(1, 1), at(3, 3), &foes).is_empty());
}

#[test]
fn chosen_actions_are_claimed() {
    let foes = vec![Hittable { entity: entity(1), pos: at(3, 3) }];
    let expected = vec![Expected { entity: entity(1), damage: 4 }];
    let mut r = Reservations::new();
    let c = cast(at(2, 2), "fireball", at(3, 3), Some(entity(1)));
    record_reservation(&c, at(1, 1), &content(), &foes, &expected, &mut r);
    assert_eq!(r.reserved_damage(entity(1)), 4);
    assert!(r.is_tile_reserved(at(2, 2)));
    assert!(!r.has_reserved_cc(entity(1)));
    let stun = cast(at(2, 2), "stun", at(3, 3), Some(entity(1)));
    record_reservation(&stun, at(1, 1), &content(), &foes, &expected, &mut r);
    assert!(r.has_reserved_cc(entity(1)));
}

// ---------------------------------------------------------------------------
// Deliberation
// ---------------------------------------------------------------------------

fn outlook(max_align: i64, hp: i64, danger: i64) -> Outlook {
    Outlook { max_align, threshold: Some(1), hp, midpanic_hp: 40, danger, panic_danger: 50 }
}

fn repositioning() -> PlanRanking {
    PlanRanking {
        intent: TacticalIntent::Reposition,
        intent_reason: IntentReason::NoRuleDefault,
        live: vec![true],
    }
}

#[test]
fn apply_viability_above_threshold_is_noop() {
    let mut ranking = repositioning();
    assert!(!ranking.apply_viability(outlook(50, 100, 0), None));
    assert!(matches!(ranking.intent, TacticalIntent::Reposition));
    assert!(matches!(ranking.intent_reason, IntentReason::NoRuleDefault));
}

#[test]
fn apply_viability_midpanic_swaps_to_protect_self() {
    let mut ranking = repositioning();
    assert!(ranking.apply_viability(outlook(0, 15, 100), None));
    assert!(matches!(ranking.intent, TacticalIntent::ProtectSelf));
    assert!(
        matches!(ranking.intent_reason, IntentReason::MidpanicFallback { .. }),
        "expected MidpanicFallback, got {:?}",
        ranking.intent_reason,
    );
}

#[test]
fn apply_viability_default_focus_switches_to_enemy() {
    let mut ranking = repositioning();
    let enemy_id = entity(2);
    assert!(ranking.apply_viability(outlook(0, 100, 0), Some(enemy_id)));
    match ranking.intent {
        TacticalIntent::FocusTarget { target } => assert_eq!(target, enemy_id),
        other => panic!("expected FocusTarget, got {:?}", other.kind()),
    }
    match ranking.intent_reason {
        IntentReason::ViabilityFallback { from, .. } => assert_eq!(from, IntentKind::Reposition),
        ref other => panic!("expected ViabilityFallback, got {:?}", other),
    }
}

#[test]
fn a_focus_is_left_out_when_another_is_sought() {
    assert_eq!(repositioning().exclude(), None);
    let focused = PlanRanking {
        intent: TacticalIntent::FocusTarget { target: entity(2) },
        intent_reason: IntentReason::NoRuleDefault,
        live: vec![true],
    };
    assert_eq!(focused.exclude(), Some(entity(2)));
}

#[test]
fn apply_viability_no_enemies_keeps_intent() {
    let mut ranking = repositioning();
    assert!(!ranking.apply_viability(outlook(0, 100, 0), None));
    assert!(matches!(ranking.intent, TacticalIntent::Reposition));
    assert!(matches!(ranking.intent_reason, IntentReason::NoRuleDefault));
}

#[test]
fn apply_protect_self_masks_non_defensive_and_preserves_reason() {
    let mut ranking = PlanRanking {
        intent: TacticalIntent::ProtectSelf,
        intent_reason: IntentReason::Urgency,
        live: vec![true, true],
    };
    ranking.apply_protect_self(&vec![true, false], &vec![true, true]);
    assert!(ranking.live[0], "defensive plan stays in play");
    assert!(!ranking.live[1], "non-defensive plan is ruled out");
    assert!(matches!(ranking.intent, TacticalIntent::ProtectSelf));
    assert!(
        matches!(ranking.intent_reason, IntentReason::Urgency),
        "reason untouched when defensive option exists",
    );
}

#[test]
fn plans_judged_otherwise_stay_in_play() {
    let mut ranking = repositioning();
    ranking.live = vec![true, false, true];
    ranking.apply_protect_self(&vec![false, true, false], &vec![false, true, true]);
    assert_eq!(ranking.live, vec![true, false, false]);
}

#[test]
fn protection_rules_out_or_makes_a_last_stand() {
    assert!(matches!(protect(TacticalIntent::Reposition, &vec![true]), Protection::NotMeant));
    assert!(matches!(
        protect(TacticalIntent::ProtectSelf, &vec![false, true]),
        Protection::RuledOut(out) if out == vec![true, false]
    ));
    assert!(matches!(protect(TacticalIntent::ProtectSelf, &vec![false]), Protection::LastStand));
    let heal = cast(at(0, 0), "heal", at(0, 0), None);
    assert!(is_defensive(&heal, &content(), false));
    let stab = cast(at(0, 0), "melee_attack", at(1, 0), None);
    assert!(!is_defensive(&stab, &content(), false));
    assert!(is_defensive(&stab, &content(), true));
}

fn surroundings(pos: Hex) -> Surroundings {
    Surroundings {
        pos,
        tags: AiTags { ranged: true, ..AiTags::empty() },
        weak_support: true,
        board: board(),
        allies: vec![AllySpot { entity: entity(3), pos: at(4, 4), can_heal: true }],
        any_enemy: true,
        seeing: vec![at(4, 3)],
    }
}

#[test]
fn second_thoughts_find_blind_spots_and_own_fire() {
    let s = surroundings(at(4, 3));
    let stay = cast(at(4, 3), "melee_attack", at(4, 2), Some(entity(1)));
    let f = sanity_findings(&stay, &s, &content(), true, false, false);
    assert!(!f.is_blind && !f.hits_self && !f.is_trapped && !f.is_synergy);
    assert_eq!(f.healers_left, 0);
    let away = cast(at(0, 0), "melee_attack", at(4, 2), Some(entity(1)));
    let f = sanity_findings(&away, &s, &content(), true, true, false);
    assert!(f.is_blind && f.is_synergy);
    assert_eq!(f.healers_left, 1);
    let own = cast(at(4, 3), "fireball", at(4, 3), Some(entity(1)));
    assert!(sanity_findings(&own, &s, &content(), true, false, false).hits_self);
}

#[test]
fn the_choice_is_among_the_best() {
    let keys = vec![key(5), key(9), key(7), key(1)];
    assert_eq!(looked_at(&keys), vec![1, 2, 0]);
    let near = vec![false, true, true, false];
    let plain = order_with_mercy(&keys, false, &near, &keys);
    assert_eq!(plain, vec![1, 2, 0, 3]);
    let gentle = vec![key(0), key(1), key(2), key(0)];
    let merciful = order_with_mercy(&keys, true, &near, &gentle);
    assert_eq!(merciful[0], 2, "of those about as good the gentler comes first");
    let pool = choice_pool(&plain, &near, 3);
    assert_eq!(pool, vec![1, 2]);
    let (chosen, pick) = pick_best_candidate(&keys, false, &near, &keys, &near, 3, 2);
    assert_eq!((chosen, pick.chosen_pos, pick.top_k), (2, 1, 3));
    assert_eq!(pick.pool, vec![1, 2]);
    assert!(!pick.mercy_applied);
    let (chosen, pick) = pick_best_candidate(&keys, true, &near, &gentle, &near, 0, 1);
    assert_eq!((chosen, pick.chosen_pos, pick.top_k), (2, 0, 1));
    assert!(pick.mercy_applied);
    let none = vec![false; 4];
    let (chosen, pick) = pick_best_candidate(&keys, true, &none, &gentle, &none, 9, 0);
    assert_eq!((chosen, pick.pool, pick.top_k), (1, vec![1], 4));
    assert!(!pick.mercy_applied, "one candidate that is clearly best is not spared");
    let (chosen, pick) = pick_best_candidate(&vec![], true, &vec![], &vec![], &vec![], 2, 0);
    assert_eq!((chosen, pick.pool.len(), pick.top_k), (0, 0, 2));
}

#[test]
fn mercy_only_settles_ties() {
    let keys = vec![key(9), key(8), key(3)];
    let gentle = vec![key(1), key(2), key(50)];
    let near = vec![true, true, false];
    assert_eq!(order_with_mercy(&keys, true, &near, &gentle), vec![1, 0, 2]);
    let clear = vec![true, false, false];
    assert_eq!(order_with_mercy(&keys, true, &clear, &gentle), vec![0, 1, 2]);
}

fn retreat() -> Retreat {
    Retreat {
        can_move: false,
        low_hp: false,
        enemies: vec![],
        reach: Reach { destinations: vec![], paths: vec![] },
        danger: vec![],
    }
}

#[test]
fn choices_open_with_what_is_allowed() {
    let list = vec![
        cast(at(0, 0), "melee_attack", at(1, 0), Some(entity(1))),
        cast(at(0, 0), "fireball", at(1, 0), Some(entity(2))),
    ];
    match open_choice(true, &list, &vec![false, true], &retreat()) {
        Opening::Score(left) => {
            assert_eq!(left.len(), 1);
            assert_eq!(left[0].target(), Some(entity(2)));
        }
        other => panic!("expected candidates, got {other:?}"),
    }
    let none = open_choice(true, &list, &vec![false, false], &retreat());
    assert!(matches!(none, Opening::Decided(AiDecision::EndTurn)));
    let unknown = open_choice(false, &list, &vec![true, true], &retreat());
    assert!(matches!(unknown, Opening::Decided(AiDecision::EndTurn)));
}

#[test]
fn choices_close_with_a_decision_and_a_claim() {
    let list = vec![cast(at(0, 0), "melee_attack", at(1, 0), Some(entity(1)))];
    let foes = vec![Hittable { entity: entity(1), pos: at(1, 0) }];
    let expected = vec![Expected { entity: entity(1), damage: 3 }];
    let mut r = Reservations::new();
    let decision = close_choice(
        &list,
        0,
        entity(100),
        at(0, 0),
        &content(),
        &foes,
        &expected,
        &mut r,
    );
    assert!(matches!(decision, AiDecision::CastInPlace { .. }));
    assert_eq!(r.reserved_damage(entity(1)), 3);
}

// ---------------------------------------------------------------------------
// Spending
// ---------------------------------------------------------------------------

#[test]
fn spending_is_looked_at_for_what_costs() {
    let content = content();
    let foes = vec![
        Hittable { entity: entity(1), pos: at(3, 3) },
        Hittable { entity: entity(2), pos: at(3, 2) },
    ];
    let ids = vec![text("fireball"), text("melee_attack")];
    assert!(has_free_attack(&ids, &content));
    assert!(!has_free_attack(&vec![text("fireball")], &content));
    assert_eq!(mana_cost(&content.abilities[1].costs), 5);
    assert_eq!(mana_cost(&content.abilities[3].costs), 0);
    let burn = cast(at(1, 1), "fireball", at(3, 3), Some(entity(1)));
    let facts = spend_facts(&burn, &ids, &content, &foes, 1).expect("it costs");
    assert_eq!((facts.hits, facts.is_cc, facts.has_free_attack, facts.is_early), (2, false, true, true));
    let stab = cast(at(1, 1), "melee_attack", at(3, 3), Some(entity(1)));
    assert!(spend_facts(&stab, &ids, &content, &foes, 1).is_none());
}

#[test]
fn claims_of_others_are_heeded() {
    let mut r = Reservations::new();
    r.reserve_damage(entity(1), 5);
    r.reserve_cc(entity(1));
    r.reserve_tile(at(1, 1));
    let c = cast(at(1, 1), "melee_attack", at(3, 3), Some(entity(1)));
    let facts = claim_facts(&c, Some(5), &r);
    assert!(facts.is_overkill && !facts.is_focus && facts.is_repeated_cc && facts.is_taken);
    assert!(claim_facts(&c, Some(6), &r).is_focus);
    let free = claim_facts(&c, Some(6), &Reservations::new());
    assert!(!free.is_overkill && !free.is_focus && !free.is_repeated_cc && !free.is_taken);
}

// ---------------------------------------------------------------------------
// Plain tactics
// ---------------------------------------------------------------------------

fn info(id: u32, team: Team, hp: i32, statuses: Vec<&str>) -> CombatantInfo {
    CombatantInfo {
        entity: entity(id),
        team,
        hp,
        max_hp: 20,
        armor: 1,
        statuses: statuses
            .into_iter()
            .map(|s| EcsStatus {
                id: text(s),
                rounds_remaining: 1,
                dot_per_tick: 0,
                applier: None,
            })
            .collect(),
    }
}

#[test]
fn taunts_bind_those_who_look_for_targets() {
    let rows = vec![
        info(1, Team::Player, 9, vec![]),
        info(2, Team::Player, 9, vec!["taunt"]),
        info(3, Team::Player, 0, vec!["taunt"]),
        info(4, Team::Enemy, 9, vec![]),
    ];
    let mut positions = HexPositions::new();
    for id in 1..5u32 {
        positions.insert(entity(id), at(id as i32, 0));
    }
    let targets = living_targets(&rows, Team::Player, &positions, &content());
    assert_eq!(targets.len(), 2);
    assert_eq!(targets[1].armor_bonus, 1);
    let forced = forced_or_all(targets);
    assert_eq!(forced.iter().map(|t| t.entity).collect::<Vec<_>>(), vec![entity(2)]);
    let calm = vec![info(1, Team::Player, 9, vec![])];
    let all = living_targets(&calm, Team::Player, &positions, &content());
    assert_eq!(forced_or_all(all).len(), 1);
    assert!(!impassable_cells(&rows, entity(4), &positions).contains(&at(4, 0)));
}

fn aim(pos: Hex, max: u32, score: i64) -> Aim {
    Aim {
        ability: text("melee_attack"),
        target_pos: pos,
        range: AbilityRange { min: 0, max },
        is_good: true,
        score,
        near_score: score,
    }
}

#[test]
fn the_first_of_the_best_is_taken() {
    assert_eq!(first_best(&vec![None, Some(3), Some(7), Some(7)]), Some(2));
    assert_eq!(first_best(&vec![None]), None);
    let aims = vec![aim(at(5, 0), 1, 9), aim(at(1, 0), 1, 4)];
    let r = evaluate_targets(&aims, at(0, 0));
    assert_eq!((r.best_in_range, r.best_any), (Some(1), Some(0)));
}

#[test]
fn approaches_take_the_shortest_way() {
    let near = at(2, 0);
    let far = at(4, 0);
    let reach = Reach {
        destinations: vec![far, near],
        paths: vec![
            PathTo { cell: far, path: vec![at(1, 0), at(2, 0), at(3, 0), far] },
            PathTo { cell: near, path: vec![at(1, 0), near] },
        ],
    };
    match plan_movement(&reach, Some(at(3, 0)), &vec![at(3, 0)], 1) {
        Approach::IntoRange { cell, aim, path } => {
            assert_eq!((cell, aim, path.len()), (near, at(3, 0), 2));
        }
        other => panic!("expected a way in, got {other:?}"),
    }
    match plan_movement(&reach, None, &vec![at(7, 0)], 1) {
        Approach::Closer { path } => assert_eq!(path.len(), 4),
        other => panic!("expected a step closer, got {other:?}"),
    }
    let nowhere = Reach { destinations: vec![], paths: vec![] };
    assert!(matches!(plan_movement(&nowhere, None, &vec![at(7, 0)], 1), Approach::Stay));
}

fn enemy_row() -> EnemyRow {
    EnemyRow {
        entity: entity(4),
        team: Team::Enemy,
        is_alive: true,
        has_abilities: true,
        action: true,
        movement: true,
        is_on_board: true,
    }
}

#[test]
fn enemy_turns_end_when_there_is_nothing_to_do() {
    assert_eq!(open_enemy_turn(None, true), EnemyOpening::Idle);
    assert_eq!(open_enemy_turn(Some(enemy_row()), true), EnemyOpening::Think);
    let spent = EnemyRow { action: false, movement: false, ..enemy_row() };
    assert_eq!(open_enemy_turn(Some(spent), true), EnemyOpening::Spent);
    let plan = EnemyPlan { in_range: None, approach: Approach::Stay, after_move: None };
    let commands = enemy_ai_system(enemy_row(), &plan, &vec![]);
    assert!(matches!(commands[..], [EnemyCommand::EndTurn { actor }] if actor == entity(4)));
}

#[test]
fn enemies_strike_who_stands_in_reach() {
    let standing = vec![Standing { entity: entity(1), hex: at(1, 0) }];
    let plan = EnemyPlan {
        in_range: Some(Shot { ability: text("melee_attack"), target_pos: at(1, 0) }),
        approach: Approach::Stay,
        after_move: None,
    };
    let commands = enemy_ai_system(enemy_row(), &plan, &standing);
    assert!(commands.iter().any(|c| matches!(
        c,
        EnemyCommand::UseAbility { target, .. } if *target == entity(1)
    )));
    assert_eq!(taken_cells(&standing, entity(4)), vec![at(1, 0)]);
    assert!(taken_cells(&standing, entity(1)).is_empty());
}

#[test]
fn kills_are_foreseen_by_the_mean() {
    let calc = EffectCalc { dice: Some(d6()), bonus: 1, is_heal: false, pierces_armor: false };
    let guard = |hp| TargetGuard { hp, armor: 1, armor_bonus: 1, damage_taken_bonus: 0 };
    // A mean of three and a half, one on top, two of armor.
    assert!(compute_kill_flag(TargetType::SingleEnemy, Some(calc), Some(guard(2))));
    assert!(!compute_kill_flag(TargetType::SingleEnemy, Some(calc), Some(guard(3))));
    assert!(!compute_kill_flag(TargetType::SingleAlly, Some(calc), Some(guard(1))));
    assert!(!compute_kill_flag(TargetType::SingleEnemy, None, Some(guard(1))));
    assert!(!compute_kill_flag(TargetType::SingleEnemy, Some(calc), None));
    let piercing = EffectCalc { pierces_armor: true, ..calc };
    assert!(compute_kill_flag(TargetType::SingleEnemy, Some(piercing), Some(guard(4))));
}

#[test]
fn statuses_are_worth_turns_and_points() {
    let apply = |id: &str, duration_rounds| StatusApplication {
        status: text(id),
        on: StatusOn::Target,
        duration_rounds,
    };
    let worth = compute_cc_value(
        &vec![apply("stunned", 2), apply("taunt", 3), apply("nothing", 9)],
        &content(),
    );
    assert_eq!((worth.turns_lost, worth.points), (2, 3));
}
