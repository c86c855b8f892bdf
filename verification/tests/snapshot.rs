//! The AI's picture of a battle.

use combat::ai_cache::{AiCache, AooStrike, EvaluationMode, UnitAiCache};
use combat::ai_tags::AiTags;
use combat::bootstrap::{build_unit, UnitBuildInput};
use combat::content::{
    AbilityDef, AbilityRange, AoEShape, ContentView, DiceExpr, EffectDef, ResourceCost,
    ResourceKind, StatusApplication, StatusBonuses, StatusDef, StatusOn, TargetType,
};
use combat::hex::{hex_from_offset, Hex};
use combat::ids::{entity_to_uid, Entity, UnitId, UnitIdMap};
use combat::phases::AiBehaviorKind;
use combat::positions::HexPositions;
use combat::snapshot::{
    applies_cc, build_snapshot, compute_tags, make_record, max_attack_range, retain_visible,
    AiCombatantRow, BattleSnapshot, UnitView,
};
use combat::state::{
    ActiveStatus, CasterContext, CombatState, CritFailEffect, EffectSource, EnvId, EnvObject, Pool,
    PoolTable, RegenRule, RegenTable, RuntimeStats, Team, TurnQueue, Unit,
};
use combat::tag_cache::build_caches;
use combat::templates::PathDef;

// ---------------------------------------------------------------------------
// Helpers
// ---------------------------------------------------------------------------

fn entity(id: u32) -> Entity {
    let outside = bevy::prelude::Entity::from_raw_u32(id).expect("valid entity id");
    Entity::try_from_bits(outside.to_bits()).expect("valid bits")
}

fn pool(current: i32, max: i32) -> Option<Pool> {
    Some(Pool { current, max })
}

struct Build {
    id: u32,
    team: Team,
    pos: Hex,
    hp: i32,
    max_hp: i32,
    armor: i32,
    armor_bonus: i32,
    ap: i32,
    mana: Option<Pool>,
    rage: Option<Pool>,
    energy: Option<Pool>,
    max_attack_range: u32,
    statuses: Vec<ActiveStatus>,
}

fn build(id: u32, team: Team, pos: Hex) -> Build {
    Build {
        id,
        team,
        pos,
        hp: 20,
        max_hp: 20,
        armor: 0,
        armor_bonus: 0,
        ap: 1,
        mana: None,
        rage: None,
        energy: None,
        max_attack_range: 1,
        statuses: vec![],
    }
}

fn regen() -> RegenTable {
    RegenTable {
        hp: RegenRule::Never,
        mana: RegenRule::Increment(1),
        rage: RegenRule::Never,
        energy: RegenRule::Increment(1),
        ap: RegenRule::RefillToMax,
        mp: RegenRule::RefillToMax,
    }
}

fn unit_of(b: Build) -> Unit {
    Unit {
        id: entity_to_uid(entity(b.id)),
        team: b.team,
        pos: b.pos,
        runtime: RuntimeStats { armor: b.armor, magic_resist: 0, base_speed: 3 },
        armor_bonus: b.armor_bonus,
        damage_taken_bonus: 0,
        speed: 3,
        reactions_left: 1,
        reactions_max: 1,
        statuses: b.statuses,
        caster_context: CasterContext::default(),
        aoo_dice: None,
        auras: vec![],
        enemy_phases: vec![],
        passives: vec![],
        tags: vec![],
        pools: PoolTable {
            hp: pool(b.hp, b.max_hp),
            mana: b.mana,
            rage: b.rage,
            energy: b.energy,
            ap: pool(b.ap, b.ap),
            mp: pool(3, 3),
        },
        regen_per_pool: regen(),
        template_id: None,
    }
}

fn record(id: u32, max_attack_range: u32) -> UnitAiCache {
    UnitAiCache {
        entity: entity(id),
        tags: AiTags::empty(),
        max_attack_range,
        aoo: None,
        crit_fail_effect: CritFailEffect::Miss,
        abilities: vec![],
        caster_ctx: CasterContext::default(),
        forced_mode: None,
    }
}

fn state_of(units: Vec<Unit>) -> CombatState {
    CombatState {
        units,
        round: 1,
        turn_queue: TurnQueue { order: vec![], index: 0 },
        environment: vec![],
        blocked_hexes: vec![],
    }
}

fn parts(builds: Vec<Build>) -> (CombatState, AiCache) {
    let records = builds.iter().map(|b| record(b.id, b.max_attack_range)).collect();
    let units = builds.into_iter().map(unit_of).collect();
    (state_of(units), AiCache::from_units(records))
}

fn snapshot_from(builds: Vec<Build>) -> BattleSnapshot {
    let (state, cache) = parts(builds);
    BattleSnapshot::new(state, cache)
}

fn def(cost_ap: i32, costs: Vec<ResourceCost>) -> AbilityDef {
    ability("x", EffectDef::Damage { dice: DiceExpr { count: 1, sides: 6, bonus: 0 } }, cost_ap, costs)
}

fn ability(id: &str, effect: EffectDef, cost_ap: i32, costs: Vec<ResourceCost>) -> AbilityDef {
    AbilityDef {
        id: id.to_string(),
        name: id.to_string(),
        target_type: TargetType::SingleEnemy,
        range: AbilityRange { min: 0, max: 1 },
        effect,
        costs,
        cost_ap,
        aoe: AoEShape::Single,
        friendly_fire: false,
        statuses: vec![],
        key: None,
        is_move_toggle: false,
        passive: false,
        ai_tags_override: None,
    }
}

fn cost(resource: ResourceKind, amount: i32) -> ResourceCost {
    ResourceCost { resource, amount }
}

fn status(id: &str) -> StatusDef {
    StatusDef {
        id: id.to_string(),
        name: id.to_string(),
        skips_turn: false,
        causes_disadvantage: false,
        blocks_mana_abilities: false,
        forces_targeting: false,
        bonuses: StatusBonuses::default(),
        dot_dice: None,
        hp_percent_dot: 0,
        buff_class: None,
    }
}

fn content_with_statuses() -> ContentView {
    let mut defending = status("defending");
    defending.bonuses.armor_bonus = 4;
    let mut taunted = status("taunted");
    taunted.forces_targeting = true;
    let mut stunned = status("stunned");
    stunned.skips_turn = true;
    ContentView { abilities: vec![], statuses: vec![defending, taunted, stunned] }
}

fn active_status(id: &str) -> ActiveStatus {
    ActiveStatus {
        id: id.to_string(),
        rounds_remaining: 1,
        dot_per_tick: 0,
        applier: EffectSource::Unit(UnitId(1)),
    }
}

// ---------------------------------------------------------------------------
// Costs and resources
// ---------------------------------------------------------------------------

#[test]
fn can_afford_covers_ap_and_all_resource_kinds() {
    let mut b = build(1, Team::Enemy, hex_from_offset(0, 0));
    b.ap = 2;
    b.mana = pool(5, 10);
    b.rage = pool(3, 10);
    b.energy = pool(4, 10);
    let snap = snapshot_from(vec![b]);
    let u = snap.unit(entity(1)).expect("view");
    let cases: Vec<(&str, i32, Vec<ResourceCost>, bool)> = vec![
        ("free ability", 1, vec![], true),
        ("AP shortage", 3, vec![], false),
        ("mana ok", 1, vec![cost(ResourceKind::Mana, 5)], true),
        ("mana short", 1, vec![cost(ResourceKind::Mana, 6)], false),
        ("rage ok", 1, vec![cost(ResourceKind::Rage, 3)], true),
        ("rage short", 1, vec![cost(ResourceKind::Rage, 4)], false),
        ("energy ok", 1, vec![cost(ResourceKind::Energy, 4)], true),
        ("energy short", 1, vec![cost(ResourceKind::Energy, 5)], false),
        ("hp ok", 1, vec![cost(ResourceKind::Hp, 20)], true),
        ("hp short", 1, vec![cost(ResourceKind::Hp, 21)], false),
        (
            "two costs both ok",
            1,
            vec![cost(ResourceKind::Mana, 5), cost(ResourceKind::Rage, 3)],
            true,
        ),
        (
            "two costs one short",
            1,
            vec![cost(ResourceKind::Mana, 5), cost(ResourceKind::Rage, 4)],
            false,
        ),
    ];
    for (name, ap_cost, costs, want) in cases {
        let d = def(ap_cost, costs);
        assert_eq!(u.can_afford(&d), want, "{name}");
    }
}

#[test]
fn resource_amount_treats_absent_option_pools_as_zero() {
    let mut b = build(1, Team::Enemy, hex_from_offset(0, 0));
    b.ap = 2;
    let snap = snapshot_from(vec![b]);
    let u = snap.unit(entity(1)).expect("view");
    assert_eq!(u.resource_amount(ResourceKind::Mana), 0);
    assert_eq!(u.resource_amount(ResourceKind::Rage), 0);
    assert_eq!(u.resource_amount(ResourceKind::Energy), 0);
    assert_eq!(u.resource_amount(ResourceKind::Hp), u.state.hp());
    let d = def(1, vec![cost(ResourceKind::Mana, 1)]);
    assert!(!u.can_afford(&d));
}

#[test]
fn dead_units_stay_in_snapshot_and_are_filtered_by_default() {
    let alive = build(1, Team::Enemy, hex_from_offset(0, 0));
    let mut corpse = build(2, Team::Player, hex_from_offset(1, 0));
    corpse.hp = 0;
    let snap = snapshot_from(vec![alive, corpse]);

    assert!(snap.unit(entity(2)).is_some(), "corpse must stay in units");
    assert_eq!(snap.unit(entity(2)).map(|u| u.is_alive()), Some(false));

    assert_eq!(snap.enemies_of(Team::Enemy).len(), 0, "default enemies_of hides dead");
    assert_eq!(snap.allies_of(Team::Enemy).len(), 1, "alive ally still visible");

    assert_eq!(snap.all_enemies_of(Team::Enemy).len(), 1);
    assert_eq!(snap.dead_enemies_of(Team::Enemy).len(), 1);
    assert_eq!(snap.dead_units().len(), 1);
}

// ---------------------------------------------------------------------------
// Unit views
// ---------------------------------------------------------------------------

fn snap_view_with(
    entity_raw: u32,
    hp: i32,
    max_hp: i32,
    armor: i32,
    armor_bonus: i32,
) -> (BattleSnapshot, Entity) {
    let mut b = build(entity_raw, Team::Player, hex_from_offset(0, 0));
    b.hp = hp;
    b.max_hp = max_hp;
    b.armor = armor;
    b.armor_bonus = armor_bonus;
    (snapshot_from(vec![b]), entity(entity_raw))
}

#[test]
fn unit_view_eff_hp_additive() {
    let cases: &[(i32, i32, i32, i32)] =
        &[(5, 0, 0, 5), (5, 3, 0, 8), (5, 0, 2, 7), (5, 3, 2, 10), (0, 5, 0, 5)];
    for (idx, &(hp, armor, ab, expected)) in cases.iter().enumerate() {
        let (snap, entity) = snap_view_with((idx + 1) as u32, hp, 20, armor, ab);
        let view = snap.unit(entity).expect("view");
        assert_eq!(view.eff_hp(), expected, "hp={hp} armor={armor} ab={ab}");
    }
}

#[test]
fn unit_view_eff_max_hp_additive_and_clamp() {
    let cases: &[(i32, i32, i32, i32)] =
        &[(10, 0, 0, 10), (10, 3, 0, 13), (10, 0, 2, 12), (10, 3, 2, 15), (-5, 0, 0, 1)];
    for (idx, &(max_hp, armor, ab, expected)) in cases.iter().enumerate() {
        let (snap, entity) = snap_view_with((idx + 1) as u32, 5, max_hp, armor, ab);
        let view = snap.unit(entity).expect("view");
        assert_eq!(view.eff_max_hp(), expected, "max_hp={max_hp} armor={armor} ab={ab}");
    }
}

fn def_with_cost(cost_ap: i32, resource: ResourceKind, amount: i32) -> AbilityDef {
    def(cost_ap, vec![cost(resource, amount)])
}

#[test]
fn unit_view_can_afford_ap_and_resource_boundaries() {
    let mut b = build(1, Team::Player, hex_from_offset(0, 0));
    b.ap = 2;
    b.mana = pool(5, 10);
    let snap = snapshot_from(vec![b]);
    let view = snap.unit(entity(1)).expect("view");

    assert!(view.can_afford(&def(2, vec![])), "AP == cost");
    assert!(!view.can_afford(&def(3, vec![])), "AP < cost");
    assert!(!view.can_afford(&def_with_cost(2, ResourceKind::Mana, 6)), "short mana fails");
    assert!(!view.can_afford(&def_with_cost(3, ResourceKind::Mana, 5)), "short AP fails");
    assert!(view.can_afford(&def_with_cost(2, ResourceKind::Mana, 5)), "exact ok");
}

#[test]
fn unit_view_is_alive_boundary() {
    let (snap_alive, entity_alive) = snap_view_with(1, 1, 20, 0, 0);
    assert!(snap_alive.unit(entity_alive).expect("view").is_alive(), "hp=1 must be alive");
    let (snap_dead, entity_dead) = snap_view_with(2, 0, 20, 0, 0);
    assert!(!snap_dead.unit(entity_dead).expect("view").is_alive(), "hp=0 must be dead");
}

#[test]
fn unit_view_resource_amount_returns_correct_pool() {
    let mut b = build(1, Team::Player, hex_from_offset(0, 0));
    b.hp = 15;
    b.mana = pool(7, 10);
    b.rage = pool(3, 10);
    b.energy = pool(4, 10);
    let snap = snapshot_from(vec![b]);
    let view = snap.unit(entity(1)).expect("view");
    assert_eq!(view.resource_amount(ResourceKind::Hp), 15);
    assert_eq!(view.resource_amount(ResourceKind::Mana), 7);
    assert_eq!(view.resource_amount(ResourceKind::Rage), 3);
    assert_eq!(view.resource_amount(ResourceKind::Energy), 4);
}

#[test]
fn unit_view_reads_statuses_by_their_tags() {
    let content = content_with_statuses();
    let (status_tags, _) = build_caches(&content);
    let mut b = build(1, Team::Player, hex_from_offset(0, 0));
    b.statuses = vec![active_status("defending")];
    let mut c = build(2, Team::Player, hex_from_offset(1, 0));
    c.statuses = vec![active_status("defending"), active_status("stunned")];
    let mut d = build(3, Team::Player, hex_from_offset(2, 0));
    d.statuses = vec![active_status("taunted")];
    let snap = snapshot_from(vec![b, c, d]);
    let seen: Vec<(bool, bool)> = [1u32, 2, 3]
        .iter()
        .map(|&id| {
            let u = snap.unit(entity(id)).expect("view");
            (u.is_stunned(&status_tags), u.forces_targeting(&status_tags))
        })
        .collect();
    assert_eq!(seen, vec![(false, false), (true, false), (false, true)]);
    assert_eq!(snap.unit(entity(2)).expect("view").statuses().len(), 2);
}

// ---------------------------------------------------------------------------
// Lookups
// ---------------------------------------------------------------------------

#[test]
fn entity_for_uid_some_for_known_none_for_unknown() {
    let snap = snapshot_from(vec![build(7, Team::Player, hex_from_offset(0, 0))]);
    let uid = snap.uid_for_entity(entity(7)).expect("uid must be known");
    assert_eq!(snap.entity_for_uid(uid), Some(entity(7)), "known uid");
    assert_eq!(snap.entity_for_uid(UnitId(u64::MAX)), None, "unknown uid");
}

#[test]
fn unit_at_some_for_occupied_none_for_empty() {
    let pos = hex_from_offset(3, 3);
    let other_pos = hex_from_offset(5, 5);
    let snap = snapshot_from(vec![build(1, Team::Player, pos)]);
    assert!(snap.unit_at(pos).is_some(), "occupied position");
    assert!(snap.unit_at(other_pos).is_none(), "empty position");
}

#[test]
fn new_with_id_map_populates_both_directions() {
    let e = entity(99);
    let uid = UnitId(42);
    let cache = AiCache::from_units(vec![]);
    let snap = BattleSnapshot::new_with_id_map(state_of(vec![]), cache, &vec![(e, uid)]);
    assert_eq!(snap.entity_for_uid(uid), Some(e));
    assert_eq!(snap.uid_for_entity(e), Some(uid));
}

#[test]
fn enemies_of_excludes_dead_and_same_team() {
    let mut live_enemy = build(1, Team::Enemy, hex_from_offset(0, 0));
    live_enemy.hp = 10;
    let mut dead_enemy = build(2, Team::Enemy, hex_from_offset(1, 0));
    dead_enemy.hp = 0;
    let mut live_ally = build(3, Team::Player, hex_from_offset(2, 0));
    live_ally.hp = 10;
    let snap = snapshot_from(vec![live_enemy, dead_enemy, live_ally]);
    assert_eq!(snap.enemies_of(Team::Player).len(), 1, "only live enemies counted");
    assert_eq!(snap.allies_of(Team::Player).len(), 1, "ally visible");
}

#[test]
fn all_enemies_of_includes_dead_enemies() {
    let mut live_enemy = build(1, Team::Enemy, hex_from_offset(0, 0));
    live_enemy.hp = 10;
    let mut dead_enemy = build(2, Team::Enemy, hex_from_offset(1, 0));
    dead_enemy.hp = 0;
    let snap = snapshot_from(vec![live_enemy, dead_enemy]);
    assert_eq!(snap.all_enemies_of(Team::Player).len(), 2, "includes corpses");
    assert_eq!(snap.dead_enemies_of(Team::Player).len(), 1, "only corpses");
    assert_eq!(snap.enemies_of(Team::Player).len(), 1, "only live enemies");
}

#[test]
fn living_and_fallen_enemies_keep_their_order() {
    let units: Vec<_> = [(1, 10), (2, 0), (3, 7), (4, 0)]
        .into_iter()
        .map(|(id, hp)| {
            let mut b = build(id, Team::Enemy, hex_from_offset(id as i32, 0));
            b.hp = hp;
            b
        })
        .collect();
    let snap = snapshot_from(units);
    let ids = |list: Vec<UnitView>| list.iter().map(|u| u.entity()).collect::<Vec<Entity>>();
    let living = ids(snap.enemies_of(Team::Player));
    let fallen = ids(snap.dead_enemies_of(Team::Player));
    assert_eq!(living, vec![entity(1), entity(3)]);
    assert_eq!(fallen, vec![entity(2), entity(4)]);
    let all = ids(snap.all_enemies_of(Team::Player));
    assert_eq!(all, vec![entity(1), entity(2), entity(3), entity(4)]);
}

#[test]
fn rebuild_index_populates_maps_when_empty() {
    let e = entity(5);
    let mut b = build(5, Team::Player, hex_from_offset(0, 0));
    b.hp = 10;
    let (state, cache) = parts(vec![b]);
    let mut snap = BattleSnapshot::unindexed(state, cache);
    assert!(snap.unit(e).is_none(), "must fail before rebuild");
    snap.rebuild_index();
    assert!(snap.uid_for_entity(e).is_some(), "entity to uid");
    let uid = snap.uid_for_entity(e).unwrap();
    assert_eq!(snap.entity_for_uid(uid), Some(e), "uid to entity");
}

#[test]
fn rebuild_index_no_op_when_state_empty() {
    let mut snap = BattleSnapshot::new(state_of(vec![]), AiCache::from_units(vec![]));
    snap.rebuild_index();
    assert!(snap.index.knows_no_unit());
    assert!(snap.uid_for_entity(entity(1)).is_none());
}

#[test]
fn rebuild_index_keeps_an_index_that_is_there() {
    let e = entity(6);
    let (state, cache) = parts(vec![build(6, Team::Player, hex_from_offset(0, 0))]);
    let mut snap = BattleSnapshot::new_with_id_map(state, cache, &vec![(e, UnitId(42))]);
    snap.rebuild_index();
    assert_eq!(snap.uid_for_entity(e), Some(UnitId(42)));
}

// ---------------------------------------------------------------------------
// The cache
// ---------------------------------------------------------------------------

#[test]
fn cache_fields_match_unit_snapshot_for_all_units() {
    let mut u1 = build(1, Team::Player, hex_from_offset(0, 0));
    u1.max_attack_range = 3;
    let mut u2 = build(2, Team::Enemy, hex_from_offset(1, 0));
    u2.max_attack_range = 1;
    let snap = snapshot_from(vec![u1, u2]);
    for (id, range) in [(1u32, 3u32), (2, 1)] {
        let u = snap.unit(entity(id)).expect("unit in snapshot");
        let uc = snap.cache.unit(entity(id)).expect("unit in cache");
        assert_eq!(uc.entity, u.entity(), "entity mismatch");
        assert_eq!(uc.tags, u.cache.tags);
        assert_eq!(uc.max_attack_range, u.cache.max_attack_range);
        assert_eq!(uc.max_attack_range, range);
        assert_eq!(uc.aoo, u.cache.aoo);
        assert_eq!(uc.crit_fail_effect, u.cache.crit_fail_effect);
        assert_eq!(uc.abilities, u.cache.abilities);
        assert_eq!(uc.forced_mode, u.cache.forced_mode);
    }
}

#[test]
fn cache_finds_with_and_without_index() {
    let mut cache = AiCache::unindexed(vec![record(1, 2), record(2, 4)]);
    assert_eq!(cache.unit(entity(2)).map(|u| u.max_attack_range), Some(4));
    assert!(cache.by_entity.is_empty());
    cache.build_index();
    assert!(!cache.by_entity.is_empty());
    assert_eq!(cache.unit(entity(2)).map(|u| u.max_attack_range), Some(4));
    assert!(cache.unit(entity(3)).is_none());
    assert!(AiCache::default().unit(entity(1)).is_none());
}

// ---------------------------------------------------------------------------
// Building
// ---------------------------------------------------------------------------

fn combatant(id: u32, abilities: Vec<&str>) -> AiCombatantRow {
    AiCombatantRow {
        entity: entity(id),
        hp: 20,
        max_hp: 20,
        mana: None,
        rage: None,
        energy: None,
        abilities: abilities.iter().map(|a| a.to_string()).collect(),
        caster_ctx: CasterContext::default(),
        path: None,
        behavior: None,
    }
}

fn combat_content() -> ContentView {
    let mut bow = ability("bow", EffectDef::WeaponAttack { ranged: true }, 1, vec![]);
    bow.range = AbilityRange { min: 2, max: 5 };
    let sword = ability("sword", EffectDef::WeaponAttack { ranged: false }, 1, vec![]);
    let mut heal = ability(
        "heal",
        EffectDef::Heal { dice: DiceExpr { count: 1, sides: 6, bonus: 0 } },
        1,
        vec![],
    );
    heal.target_type = TargetType::SingleAlly;
    heal.range = AbilityRange { min: 0, max: 9 };
    let mut stun = ability("stun", EffectDef::StatusOnly, 1, vec![]);
    stun.statuses = vec![StatusApplication {
        status: "stunned".to_string(),
        on: StatusOn::Target,
        duration_rounds: 1,
    }];
    ContentView {
        abilities: vec![bow, sword, heal, stun],
        statuses: content_with_statuses().statuses,
    }
}

#[test]
fn tags_say_what_a_combatant_can_do() {
    let content = combat_content();
    let archer = compute_tags(&combatant(1, vec!["bow", "heal"]), &content, false);
    assert!(archer.ranged && archer.can_heal);
    assert!(!archer.melee_only && !archer.can_cc && !archer.opponent_objective);
    let guard = compute_tags(&combatant(1, vec!["sword", "stun"]), &content, true);
    assert!(guard.can_cc && guard.opponent_objective);
    assert!(!guard.ranged && !guard.can_heal && !guard.low_hp);
}

#[test]
fn low_hit_points_are_below_three_tenths() {
    let content = combat_content();
    let mut row = combatant(1, vec![]);
    row.hp = 6;
    assert!(!compute_tags(&row, &content, false).low_hp);
    row.hp = 5;
    assert!(compute_tags(&row, &content, false).low_hp);
}

#[test]
fn attack_range_counts_attacks_only() {
    let content = combat_content();
    let ids: Vec<String> = vec!["sword".to_string(), "bow".to_string(), "heal".to_string()];
    assert_eq!(max_attack_range(&ids, &content), 5);
    assert_eq!(max_attack_range(&vec!["nobody".to_string()], &content), 0);
}

#[test]
fn crowd_control_needs_a_status_that_stops() {
    let content = combat_content();
    assert!(applies_cc(&content.abilities[3], &content));
    assert!(!applies_cc(&content.abilities[1], &content));
}

#[test]
fn records_hold_path_and_behavior() {
    let content = combat_content();
    let paths =
        vec![PathDef { id: "faith".to_string(), crit_fail_effect: CritFailEffect::BrokenFaith }];
    let mut row = combatant(4, vec!["sword"]);
    row.path = Some("faith".to_string());
    row.behavior = Some(AiBehaviorKind::Flee);
    let weapon = DiceExpr { count: 2, sides: 4, bonus: 0 };
    row.caster_ctx.weapon_dice = Some(weapon);
    row.caster_ctx.str_mod = 3;
    let made = make_record(&row, &content, &paths, &vec![entity(4)]);
    assert_eq!(made.entity, entity(4));
    assert_eq!(made.crit_fail_effect, CritFailEffect::BrokenFaith);
    assert_eq!(made.forced_mode, Some(EvaluationMode::Flee));
    assert_eq!(made.aoo, Some(AooStrike { dice: weapon, str_mod: 3 }));
    assert!(made.tags.opponent_objective);
    assert_eq!(made.abilities, vec!["sword".to_string()]);
}

fn trap(id: u32, owner: Option<Team>) -> EnvObject {
    EnvObject {
        id: EnvId(id),
        hex: hex_from_offset(0, 0),
        ability: "spike_trap".to_string(),
        owner,
        revealed_to_player: false,
        revealed_to_enemy: false,
    }
}

#[test]
fn only_seen_objects_are_kept() {
    let mut shown = trap(3, Some(Team::Player));
    shown.revealed_to_enemy = true;
    let all = vec![trap(1, Some(Team::Enemy)), trap(2, None), shown, trap(4, Some(Team::Player))];
    let ids: Vec<u32> = retain_visible(&all, Team::Enemy).iter().map(|e| e.id.0).collect();
    assert_eq!(ids, vec![1, 3]);
    let ids: Vec<u32> = retain_visible(&all, Team::Player).iter().map(|e| e.id.0).collect();
    assert_eq!(ids, vec![3, 4]);
}

#[test]
fn snapshots_hold_who_has_a_place() {
    let content = combat_content();
    let mut state = state_of(vec![
        unit_of(build(1, Team::Enemy, hex_from_offset(0, 0))),
        unit_of(build(2, Team::Player, hex_from_offset(1, 0))),
    ]);
    state.environment = vec![trap(1, Some(Team::Enemy)), trap(2, None)];
    let mut living = HexPositions::new();
    living.insert(entity(1), hex_from_offset(0, 0));
    let mut fallen = HexPositions::new();
    fallen.insert(entity(2), hex_from_offset(1, 0));
    let mut ids = UnitIdMap::new();
    for id in [1u32, 2] {
        ids.insert(entity(id), entity_to_uid(entity(id)));
    }
    let rows = vec![combatant(1, vec!["bow"]), combatant(2, vec![]), combatant(3, vec![])];
    let snap = build_snapshot(
        &rows,
        &living,
        &fallen,
        &content,
        &vec![],
        state,
        &ids,
        &vec![],
        Team::Enemy,
    );
    assert_eq!(snap.cache.units.len(), 2, "who stands nowhere has no record");
    assert_eq!(snap.unit(entity(1)).map(|u| u.cache.max_attack_range), Some(5));
    assert_eq!(snap.state.environment.len(), 1, "hidden objects are left out");
}

// ---------------------------------------------------------------------------
// Bonuses of statuses
// ---------------------------------------------------------------------------

fn check_status_bonuses() {
    let view = content_with_statuses();
    assert_eq!(view.status_bonuses(&"defending".to_string()).armor_bonus, 4);
    let taunted = view.status_bonuses(&"taunted".to_string());
    assert_eq!(taunted.armor_bonus, 0);
    assert_eq!(taunted.speed_bonus, 0);
    let unknown = view.status_bonuses(&"__nonexistent__".to_string());
    assert_eq!(unknown.armor_bonus, 0);
    assert_eq!(unknown.speed_bonus, 0);
}

fn check_refreshed_aggregates() {
    let view = content_with_statuses();
    let input = UnitBuildInput {
        uid: UnitId(1),
        team: Team::Player,
        pos: Hex::zero(),
        armor: 3,
        magic_resist: 0,
        base_speed: 3,
        reactions_max: 1,
        statuses: vec![active_status("defending")],
        pools: PoolTable {
            hp: pool(20, 20),
            mana: None,
            rage: None,
            energy: None,
            ap: pool(1, 1),
            mp: pool(3, 3),
        },
        regen_per_pool: regen(),
        template_id: None,
    };
    let u = build_unit(input, &view);
    assert_eq!(u.armor_bonus, 4, "defending must contribute +4 armor_bonus");
    assert_eq!(u.runtime.armor + u.armor_bonus, 7);
}

#[test]
fn content_view_ecs_content_view_status_bonuses_reads_real_armor_bonus() {
    check_status_bonuses();
}

#[test]
fn engine_bridge_ecs_content_view_status_bonuses_reads_real_armor_bonus() {
    check_status_bonuses();
}

#[test]
fn content_view_refresh_aggregates_via_ecs_content_view_picks_up_defending_armor() {
    check_refreshed_aggregates();
}

#[test]
fn engine_bridge_refresh_aggregates_via_ecs_content_view_picks_up_defending_armor() {
    check_refreshed_aggregates();
}

// ---------------------------------------------------------------------------
// Flags
// ---------------------------------------------------------------------------

#[test]
fn flags_and_numbers_are_one_for_one() {
    for bits in 0u16..512 {
        assert_eq!(AiTags::from_bits_truncate(bits).bits(), bits);
    }
    assert_eq!(AiTags::from_bits_truncate(0xfe00 | 1).bits(), 1, "unknown bits are dropped");
    assert_eq!(AiTags::from_bits_truncate(256), AiTags { opponent_objective: true, ..AiTags::empty() });
    assert_eq!(AiTags::default().bits(), 0);
}
