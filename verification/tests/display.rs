//! What the player sees and presses.

use combat::ai_tags::AiTags;
use combat::bootstrap::{ActionPoints, EcsStatus, NameRow};
use combat::candidates::{ActionCandidate, ActiveUnit, CandidateKind, EnemySpot};
use combat::command_input::{
    key_str_to_keycode, player_command_system, Key, PlayerRow, SelectionState,
};
use combat::content::{
    AbilityDef, AbilityRange, AoEShape, ContentView, EffectDef, StatusBonuses, StatusDef,
    TargetType,
};
use combat::decisions::{AiDecision, MoveOrigin};
use combat::deliberation::{PickMechanics, TacticalIntent};
use combat::events::CombatEvent;
use combat::explain::{
    build_debug_snapshot, build_fallback_debug, candidate_label, describe_decision,
    describe_fallback, entity_label, explain_intent, fmt_offset, format_intent, logged_candidates,
    name_in_log, top_candidates, Health, IntentRule, RankedLine, Spot,
};
use combat::hex::{hex_from_offset, Board, Hex};
use combat::ids::Entity;
use combat::legality::{ActorRow, BevyActions, TargetRow};
use combat::popup::{
    enqueue_victim_facing, queue_enemy_popup, victim_face, FaceOrder, FacingCursor, FactionRow,
    Look, PopupCursor,
};
use combat::positions::HexPositions;
use combat::process::ActionInput;
use combat::ranking::SortKey;
use combat::session::{start_combat_system, CombatContext, CombatStep};
use combat::state::Team;
use combat::text::{same_text, to_decimal};

fn entity(id: u32) -> Entity {
    let outside = bevy::prelude::Entity::from_raw_u32(id).expect("valid entity id");
    Entity::try_from_bits(outside.to_bits()).expect("valid bits")
}

fn text(s: &str) -> String {
    s.to_string()
}

fn ability(id: &str, target_type: TargetType, key: Option<&str>) -> AbilityDef {
    AbilityDef {
        id: text(id),
        name: text(id),
        target_type,
        range: AbilityRange { min: 0, max: 1 },
        effect: EffectDef::StatusOnly,
        costs: vec![],
        cost_ap: 1,
        aoe: AoEShape::Single,
        friendly_fire: false,
        statuses: vec![],
        key: key.map(text),
        is_move_toggle: false,
        passive: false,
        ai_tags_override: None,
    }
}

fn status(id: &str) -> StatusDef {
    StatusDef {
        id: text(id),
        name: format!("The {}", id),
        skips_turn: false,
        causes_disadvantage: false,
        blocks_mana_abilities: false,
        forces_targeting: false,
        bonuses: StatusBonuses::default(),
        dot_dice: None,
        hp_percent_dot: 0,
        buff_class: None,
    }
}

fn content() -> ContentView {
    let mut walk = ability("walk", TargetType::Myself, Some("M"));
    walk.is_move_toggle = true;
    let mut taunt = status("taunt");
    taunt.forces_targeting = true;
    let mut silence = status("silence");
    silence.blocks_mana_abilities = true;
    ContentView {
        abilities: vec![
            ability("stab", TargetType::SingleEnemy, None),
            ability("guard", TargetType::Myself, Some("G")),
            walk,
        ],
        statuses: vec![taunt, silence],
    }
}

// ---------------------------------------------------------------------------
// Commands
// ---------------------------------------------------------------------------

fn player(id: u32, team: Team, action_points: i32, movement_points: i32) -> PlayerRow {
    PlayerRow {
        entity: entity(id),
        team,
        is_alive: true,
        ap: ActionPoints { action_points, max_ap: 1, movement_points },
        has_bonus_move: false,
        abilities: vec![text("stab"), text("guard")],
    }
}

fn press(sel: &mut SelectionState, rows: &Vec<PlayerRow>, keys: Vec<Key>) -> Option<ActionInput> {
    let mut positions = HexPositions::new();
    positions.insert(entity(2), Hex::new(1, 0));
    player_command_system(
        sel,
        rows,
        Some(entity(1)),
        false,
        &content(),
        &vec![text("guard"), text("walk")],
        &keys,
        &positions,
    )
}

fn party() -> Vec<PlayerRow> {
    vec![
        player(1, Team::Player, 1, 3),
        player(2, Team::Enemy, 1, 3),
        player(3, Team::Enemy, 1, 3),
    ]
}

#[test]
fn letters_are_keys_but_for_the_end_of_turn() {
    assert_eq!(key_str_to_keycode("G"), Some(Key::Letter('G')));
    assert_eq!(key_str_to_keycode("E"), None);
    assert_eq!(key_str_to_keycode("g"), None);
    assert_eq!(key_str_to_keycode("GG"), None);
    assert_eq!(key_str_to_keycode(""), None);
}

#[test]
fn an_attack_is_chosen_aimed_and_used() {
    let rows = party();
    let mut sel = SelectionState::default();
    assert!(press(&mut sel, &rows, vec![Key::Digit(1)]).is_none());
    assert_eq!(sel.selected_ability.as_deref(), Some("stab"));
    assert!(press(&mut sel, &rows, vec![Key::Tab]).is_none());
    assert_eq!(sel.selected_target, Some(entity(2)));
    assert!(press(&mut sel, &rows, vec![Key::Tab]).is_none());
    assert_eq!(sel.selected_target, Some(entity(3)));
    assert!(press(&mut sel, &rows, vec![Key::Tab]).is_none());
    assert_eq!(sel.selected_target, Some(entity(2)), "round again");
    match press(&mut sel, &rows, vec![Key::Enter]) {
        Some(ActionInput::Cast { ability, target, target_pos, .. }) => {
            assert_eq!((ability.as_str(), target), ("stab", entity(2)));
            assert_eq!(target_pos, Hex::new(1, 0));
        }
        other => panic!("expected a cast, got {other:?}"),
    }
    assert!(sel.selected_ability.is_none(), "the selection is cleared");
}

#[test]
fn keyed_abilities_need_one_press() {
    let mut sel = SelectionState::default();
    match press(&mut sel, &party(), vec![Key::Letter('G')]) {
        Some(ActionInput::Cast { ability, target, .. }) => {
            assert_eq!((ability.as_str(), target), ("guard", entity(1)));
        }
        other => panic!("expected a cast, got {other:?}"),
    }
    let mut sel = SelectionState::default();
    assert!(press(&mut sel, &party(), vec![Key::Letter('M')]).is_none());
    assert!(sel.move_mode);
    assert!(press(&mut sel, &party(), vec![Key::Letter('M')]).is_none());
    assert!(!sel.move_mode);
}

#[test]
fn turns_end_by_key_and_by_exhaustion() {
    let mut sel = SelectionState::default();
    let ended = press(&mut sel, &party(), vec![Key::Letter('E')]);
    assert!(matches!(ended, Some(ActionInput::EndTurn { actor }) if actor == entity(1)));
    let spent = vec![player(1, Team::Player, 0, 0)];
    let ended = press(&mut sel, &spent, vec![]);
    assert!(matches!(ended, Some(ActionInput::EndTurn { .. })));
    let walking = vec![player(1, Team::Player, 0, 2)];
    assert!(press(&mut sel, &walking, vec![]).is_none());
    assert_eq!(sel.selected_actor, Some(entity(1)));
    assert!(press(&mut sel, &walking, vec![]).is_none());
    assert!(sel.move_mode, "who can only walk walks");
}

#[test]
fn enemies_take_no_commands() {
    let mut sel = SelectionState::default();
    let rows = vec![player(1, Team::Enemy, 1, 3)];
    assert!(press(&mut sel, &rows, vec![Key::Letter('E')]).is_none());
    sel.move_mode = true;
    sel.clear();
    assert!(!sel.move_mode);
    let ap = ActionPoints { action_points: 1, max_ap: 1, movement_points: 0 };
    assert!(!ap.can_move());
    assert!(ap.can_act_for(1) && !ap.can_act_for(2));
}

// ---------------------------------------------------------------------------
// Messages
// ---------------------------------------------------------------------------

fn names() -> Vec<NameRow> {
    vec![
        NameRow { entity: entity(1), name: text("Ann") },
        NameRow { entity: entity(2), name: text("Orc") },
    ]
}

fn factions() -> Vec<FactionRow> {
    vec![
        FactionRow { entity: entity(1), team: Team::Player },
        FactionRow { entity: entity(2), team: Team::Enemy },
    ]
}

fn used(actor: u32, target: u32, is_aoe: bool) -> CombatEvent {
    CombatEvent::AbilityUsed {
        actor: entity(actor),
        ability_name: text("Stab"),
        target: entity(target),
        target_pos: hex_from_offset(3, 2),
        is_aoe,
        cost_str: text("AP=1"),
    }
}

fn popups(log: Vec<CombatEvent>) -> Vec<Vec<String>> {
    let mut cursor = PopupCursor::default();
    let mut queue = vec![];
    queue_enemy_popup(&log, &mut cursor, &names(), &factions(), &content(), &mut queue);
    assert_eq!(cursor.0, log.len());
    queue.into_iter().map(|p| p.lines).collect()
}

#[test]
fn enemy_abilities_pop_up_with_their_results() {
    let shown = popups(vec![
        used(2, 1, false),
        CombatEvent::DamageResult {
            target: entity(1),
            raw: 6,
            armor_reduced: 0,
            final_damage: 6,
        },
        CombatEvent::UnitDied { entity: entity(1) },
    ]);
    assert_eq!(shown.len(), 1);
    assert_eq!(shown[0][0], "Orc");
    assert_eq!(shown[0][2], "Stab → Ann [AP=1]");
    assert_eq!(shown[0].last().map(|s| s.as_str()), Some("Ann погиб!"));
    assert!(shown[0].iter().any(|l| l.contains("-6 HP (Ann)")));
}

#[test]
fn own_abilities_do_not_pop_up() {
    assert!(popups(vec![used(1, 2, false)]).is_empty());
    let area = popups(vec![used(2, 1, true)]);
    assert_eq!(area[0][2], "Stab → (3,2) [AP=1]");
}

#[test]
fn phases_pop_up() {
    let shown = popups(vec![CombatEvent::PhaseEntered {
        actor: entity(2),
        prev_name: text("Orc"),
        next_name: text("Warlord"),
        flavor: Some(text("He rises.")),
    }]);
    assert_eq!(shown[0].len(), 5);
    assert_eq!(shown[0][2], "Новая фаза: Warlord");
    assert_eq!(shown[0][4], "He rises.");
}

#[test]
fn victims_turn_towards_attackers() {
    let mut positions = HexPositions::new();
    positions.insert(entity(1), Hex::new(0, 0));
    positions.insert(entity(2), Hex::new(2, 0));
    let log = vec![used(2, 1, false), used(2, 1, true), used(1, 1, false)];
    let mut cursor = FacingCursor::default();
    let mut queue = vec![];
    enqueue_victim_facing(&log, &mut cursor, &factions(), &positions, &mut queue);
    assert_eq!(cursor.0, 3);
    assert_eq!(
        queue.first(),
        Some(&FaceOrder {
            unit: entity(1),
            look: Look { at: Hex::new(0, 0), toward: Hex::new(2, 0) },
        })
    );
    assert_eq!(victim_face(Team::Enemy, Team::Enemy, Hex::new(0, 0), Hex::new(1, 0)), None);
}

// ---------------------------------------------------------------------------
// Words
// ---------------------------------------------------------------------------

#[test]
fn entities_are_named_or_numbered() {
    assert_eq!(entity_label(&names(), entity(1)), "Ann");
    let outside = bevy::prelude::Entity::from_raw_u32(77).expect("valid entity id");
    assert_eq!(entity_label(&names(), entity(77)), format!("{:?}", outside));
    assert_eq!(entity_label(&vec![], entity(3)), "3v0");
    let placeholder = Entity::try_from_bits(1).expect("valid bits");
    assert_eq!(entity_label(&vec![], placeholder), "PLACEHOLDER");
}

#[test]
fn decisions_are_told() {
    let here = hex_from_offset(1, 1);
    let path = vec![hex_from_offset(2, 1), hex_from_offset(3, 1)];
    let d = AiDecision::MoveAndCast {
        path,
        ability: text("stab"),
        target: entity(1),
        target_pos: Hex::zero(),
    };
    let told = describe_decision(&d, here, &names());
    assert_eq!(
        told.description,
        "MoveAndCast: (1,1) → (3,1) → stab → Ann ((1,1)→(3,1), 2 steps)"
    );
    assert_eq!(told.dest_tile, Some(Spot { col: 3, row: 1 }));
    let told = describe_fallback(&AiDecision::EndTurn, "no candidates", here);
    assert_eq!(told.description, "EndTurn (fallback: no candidates)");
    let go = AiDecision::Move { path: vec![hex_from_offset(2, 1)], origin: MoveOrigin::Fallback };
    assert_eq!(describe_decision(&go, here, &names()).description, "MoveCloser: (1,1)→(2,1) (1 steps)");
    assert_eq!(fmt_offset(here), "(1,1)");
}

#[test]
fn intents_and_candidates_are_told() {
    assert_eq!(
        format_intent(TacticalIntent::FocusTarget { target: entity(1) }, &names()),
        "FocusTarget → Ann"
    );
    assert_eq!(format_intent(TacticalIntent::SetupAOE, &names()), "SetupAOE");
    let c = ActionCandidate {
        tile: hex_from_offset(4, 0),
        path: vec![],
        kind: CandidateKind::MoveOnly,
    };
    assert_eq!(candidate_label(&c, &names()), "retreat to (4,0)");
    let key = |value| SortKey { value, cost: 0 };
    assert_eq!(
        top_candidates(&vec![key(1), key(9), key(5)], &vec![true, false, true]),
        vec![2, 0]
    );
}

#[test]
fn rules_of_intents_are_told() {
    let own = Health { hp: 3, max_hp: 10 };
    let other = Some(Health { hp: 4, max_hp: 9 });
    let focus = TacticalIntent::FocusTarget { target: entity(1) };
    assert_eq!(explain_intent(focus, own, other, true), IntentRule::Killable { hp: 4 });
    assert_eq!(explain_intent(focus, own, other, false), IntentRule::MostWanted);
    assert_eq!(explain_intent(focus, own, None, true), IntentRule::UnknownTarget);
    let ally = TacticalIntent::ProtectAlly { ally: entity(2) };
    assert_eq!(explain_intent(ally, own, None, false), IntentRule::UnknownAlly);
    assert_eq!(
        explain_intent(ally, own, other, false),
        IntentRule::HurtAlly(Health { hp: 4, max_hp: 9 })
    );
    assert_eq!(
        explain_intent(TacticalIntent::ProtectSelf, own, other, false),
        IntentRule::HurtInDanger(own)
    );
    assert_eq!(
        explain_intent(TacticalIntent::LastStand, own, None, false),
        IntentRule::NoWayOut(own)
    );
}

fn thinker() -> ActiveUnit {
    ActiveUnit {
        entity: entity(2),
        pos: hex_from_offset(1, 1),
        can_act: true,
        can_move: false,
        hp: 7,
        mana: 0,
        rage: 0,
        energy: 0,
        tags: AiTags { ranged: true, ..AiTags::empty() },
        abilities: vec![],
    }
}

fn wanted(id: u32, priority: i64) -> EnemySpot {
    EnemySpot { entity: entity(id), pos: Hex::zero(), priority }
}

#[test]
fn a_whole_decision_is_told() {
    let stab = |target| ActionCandidate {
        tile: hex_from_offset(1, 1),
        path: vec![],
        kind: CandidateKind::Cast {
            ability: text("stab"),
            target_pos: Hex::zero(),
            target: Some(target),
        },
    };
    let go = ActionCandidate {
        tile: hex_from_offset(4, 2),
        path: vec![hex_from_offset(4, 2)],
        kind: CandidateKind::MoveOnly,
    };
    let candidates = vec![stab(entity(1)), go, stab(entity(9))];
    let keys = vec![
        SortKey { value: 1, cost: 0 },
        SortKey { value: 5, cost: 0 },
        SortKey { value: 9, cost: 0 },
    ];
    let pick =
        PickMechanics { top_k: 2, mercy_applied: false, pool: vec![1, 0], chosen_pos: 1 };
    let decision =
        AiDecision::CastInPlace { ability: text("stab"), target: entity(1), target_pos: Hex::zero() };
    let told = build_debug_snapshot(
        &thinker(),
        10,
        TacticalIntent::FocusTarget { target: entity(1) },
        &candidates,
        &keys,
        &vec![true, true, false],
        &decision,
        &vec![wanted(9, 3), wanted(1, 3), wanted(2, 1)],
        &names(),
        &Some(pick),
    );
    assert_eq!(told.actor_name, entity_label(&names(), entity(2)));
    assert_eq!((told.actor.hp, told.actor.max_hp), (7, 10));
    assert_eq!(told.actor.pos, Spot { col: 1, row: 1 });
    assert!(told.actor.action && !told.actor.movement);
    assert_eq!(told.intent, "FocusTarget → Ann");
    assert_eq!(told.priority_target.as_deref(), Some("Ann"), "the last of equals");
    assert_eq!(told.candidate_count, 3);
    let first = &told.top_candidates[0];
    assert_eq!((first.place, first.is_move_only, first.tile), (1, true, Spot { col: 4, row: 2 }));
    let second = &told.top_candidates[1];
    assert_eq!((second.ability.as_str(), second.target_name.as_str()), ("stab", "Ann"));
    assert_eq!(told.top_candidates.len(), 2, "what is ruled out is not shown");
    let picked = told.pick.expect("a choice was made");
    assert_eq!(picked.pool, vec![text("retreat to (4,2)"), text("stab → Ann")]);
    assert_eq!(picked.chosen_pos, 1);
    assert_eq!(told.decision.description, "CastInPlace: stab → Ann (stay at (1,1))");

    let told = build_fallback_debug(
        &thinker(),
        10,
        TacticalIntent::Reposition,
        &AiDecision::EndTurn,
        "no candidates",
        &vec![],
        &names(),
    );
    assert_eq!(told.decision.description, "EndTurn (fallback: no candidates)");
    assert!(told.pick.is_none() && told.priority_target.is_none());
    assert_eq!((told.candidate_count, told.top_candidates.len()), (0, 0));
}

#[test]
fn the_log_ranks_the_best_ten() {
    let keys: Vec<SortKey> = (0..12).map(|value| SortKey { value, cost: 0 }).collect();
    let lines = logged_candidates(&keys, 10);
    assert_eq!(lines.len(), 10);
    assert_eq!(lines[0], RankedLine { place: 11, rank: 1, is_chosen: false });
    assert_eq!(lines[1], RankedLine { place: 10, rank: 2, is_chosen: true });
    assert_eq!(name_in_log(&names(), entity(1)), "Ann");
    assert_eq!(name_in_log(&names(), entity(77)), "<unknown>");
}

#[test]
fn numbers_are_written_out() {
    assert_eq!(to_decimal(0), "0");
    assert_eq!(to_decimal(-120), "-120");
    assert_eq!(to_decimal(i64::MIN), "-9223372036854775808");
    assert!(same_text("ab", "ab") && !same_text("ab", "abc"));
}

// ---------------------------------------------------------------------------
// What is legal
// ---------------------------------------------------------------------------

fn active(id: &str) -> EcsStatus {
    EcsStatus { id: text(id), rounds_remaining: 1, dot_per_tick: 0, applier: None }
}

fn actions() -> BevyActions {
    let mut positions = HexPositions::new();
    positions.insert(entity(1), Hex::new(0, 0));
    BevyActions {
        content: content(),
        positions,
        actors: vec![ActorRow {
            entity: entity(1),
            team: Team::Player,
            hp: 5,
            action_points: 1,
            mana: Some(3),
            rage: None,
            energy: None,
            statuses: vec![active("silence")],
            abilities: vec![text("stab")],
        }],
        targets: vec![
            TargetRow {
                entity: entity(2),
                team: Team::Enemy,
                hp: 4,
                statuses: vec![active("taunt")],
                tags: vec![text("undead")],
            },
            TargetRow {
                entity: entity(3),
                team: Team::Enemy,
                hp: 0,
                statuses: vec![active("taunt")],
                tags: vec![],
            },
        ],
        blocked_hexes: vec![Hex::new(2, 2)],
        board: Board { row_cols: vec![4, 4] },
    }
}

#[test]
fn actors_are_seen_with_pools_and_statuses() {
    let a = actions();
    let view = a.actor_view(entity(1)).expect("an actor");
    assert_eq!((view.hp, view.ap, view.pools.mana), (5, 1, Some(3)));
    assert!(view.blocks_mana_abilities && view.is_alive && !view.causes_disadvantage);
    assert!(a.actor_view(entity(9)).is_none());
    assert!(a.actor_knows_ability(entity(1), &text("stab")));
    assert!(!a.actor_knows_ability(entity(1), &text("guard")));
    assert!(a.ability_def(&text("stab")).is_some());
    assert!(a.status_def(&text("stab")).is_none());
}

#[test]
fn targets_are_seen_with_teams_and_tags() {
    let a = actions();
    assert_eq!(a.is_target_alive(entity(2)), Some(true));
    assert_eq!(a.is_target_alive(entity(3)), Some(false));
    assert_eq!(a.is_target_alive(entity(9)), None);
    assert_eq!(a.target_team(entity(2)), Some(Team::Enemy));
    assert_eq!(a.taunters_for(Team::Player), vec![entity(2)], "the fallen do not taunt");
    assert!(a.taunters_for(Team::Enemy).is_empty());
    assert!(a.has_tags(entity(2), &vec![text("undead")], &vec![]));
    assert!(!a.has_tags(entity(2), &vec![], &vec![text("undead")]));
    assert!(a.is_in_bounds(Hex::new(1, 0)));
    assert_eq!(a.blocked_hexes().len(), 1);
}

// ---------------------------------------------------------------------------
// The session
// ---------------------------------------------------------------------------

#[test]
fn steps_follow_each_other() {
    assert_eq!(CombatStep::TurnStart.following(), Some(CombatStep::Command));
    assert_eq!(CombatStep::Execute.following(), Some(CombatStep::Finalize));
    assert_eq!(CombatStep::Finalize.following(), None);
}

#[test]
fn a_combat_starts_when_asked() {
    let mut ctx = CombatContext { round: 7, encounter: None };
    let mut log = vec![];
    assert!(!start_combat_system(&vec![], &mut ctx, &mut log));
    assert!(log.is_empty());
    assert!(start_combat_system(&vec![4], &mut ctx, &mut log));
    assert_eq!(ctx.encounter, Some(4));
    assert!(matches!(log[0], CombatEvent::CombatStarted));
}
