//! Tags of abilities and statuses, and the caches of them.

use combat::classify::{derive_ability_tags, derive_status_tags, StatusTagLookup};
use combat::content::{
    AbilityDef, AbilityRange, AoEShape, ContentView, DiceExpr, EffectDef, StatusApplication,
    StatusBonuses, StatusDef, StatusOn, TargetType,
};
use combat::tag_cache::{build_caches, unknown_override, AbilityTagCache, StatusTagCache};
use combat::tags::{AbilityTag, AbilityTagSet, StatusTag, StatusTagSet};

// ---------------------------------------------------------------------------
// Helpers
// ---------------------------------------------------------------------------

fn no_bonuses() -> StatusBonuses {
    StatusBonuses { speed_bonus: 0, armor_bonus: 0, damage_taken_bonus: 0 }
}

fn make_status(id: &str) -> StatusDef {
    StatusDef {
        id: id.to_string(),
        name: id.to_string(),
        skips_turn: false,
        causes_disadvantage: false,
        blocks_mana_abilities: false,
        forces_targeting: false,
        bonuses: no_bonuses(),
        dot_dice: None,
        hp_percent_dot: 0,
        buff_class: None,
    }
}

fn empty_status() -> StatusDef {
    make_status("test_status")
}

fn named_ability(
    id: &str,
    effect: EffectDef,
    target_type: TargetType,
    statuses: Vec<StatusApplication>,
) -> AbilityDef {
    AbilityDef {
        id: id.to_string(),
        name: id.to_string(),
        target_type,
        range: AbilityRange { min: 0, max: 0 },
        effect,
        costs: vec![],
        cost_ap: 1,
        aoe: AoEShape::Single,
        friendly_fire: false,
        statuses,
        key: None,
        is_move_toggle: false,
        passive: false,
        ai_tags_override: None,
    }
}

fn make_ability(
    effect: EffectDef,
    target_type: TargetType,
    statuses: Vec<StatusApplication>,
) -> AbilityDef {
    named_ability("test_ability", effect, target_type, statuses)
}

fn dice() -> DiceExpr {
    DiceExpr { count: 1, sides: 6, bonus: 0 }
}

/// The tags of statuses, for a lookup.
struct Lookup {
    entries: Vec<(String, StatusTagSet)>,
}

impl Lookup {
    fn cache(&self) -> StatusTagCache {
        StatusTagCache {
            entries: self
                .entries
                .iter()
                .map(|(id, tags)| combat::tag_cache::StatusEntry {
                    id: id.clone(),
                    tags: *tags,
                    bonuses: no_bonuses(),
                })
                .collect(),
        }
    }
}

fn empty_lookup() -> StatusTagCache {
    Lookup { entries: vec![] }.cache()
}

fn lookup_with(id: &str, tag: StatusTag) -> StatusTagCache {
    Lookup { entries: vec![(id.to_string(), only_status(tag))] }.cache()
}

fn only_status(tag: StatusTag) -> StatusTagSet {
    StatusTagSet::from_iter_tags(vec![tag])
}

fn only_ability(tag: AbilityTag) -> AbilityTagSet {
    AbilityTagSet::from_iter_tags(vec![tag])
}

fn defs_with_forces_targeting(id: &str) -> Vec<StatusDef> {
    let mut def = make_status(id);
    def.forces_targeting = true;
    vec![def]
}

fn status_app(id: &str, on: StatusOn) -> StatusApplication {
    StatusApplication { status: id.to_string(), on, duration_rounds: 1 }
}

/// The entries that the tests below speak of: `taunt` puts `taunted` and
/// `defending` on its caster, `paralyzing_shot` hurts and stuns.
fn load_content() -> ContentView {
    let mut taunted = make_status("taunted");
    taunted.forces_targeting = true;
    let mut defending = make_status("defending");
    defending.bonuses.armor_bonus = 4;
    defending.buff_class = Some("armor_buff".to_string());
    let mut paralyzed = make_status("paralyzed");
    paralyzed.skips_turn = true;
    ContentView {
        abilities: vec![
            named_ability(
                "taunt",
                EffectDef::StatusOnly,
                TargetType::Myself,
                vec![
                    status_app("taunted", StatusOn::MySelf),
                    status_app("defending", StatusOn::Target),
                ],
            ),
            named_ability(
                "paralyzing_shot",
                EffectDef::Damage { dice: dice() },
                TargetType::SingleEnemy,
                vec![status_app("paralyzed", StatusOn::Target)],
            ),
            named_ability(
                "melee_attack",
                EffectDef::WeaponAttack { ranged: false },
                TargetType::SingleEnemy,
                vec![],
            ),
        ],
        statuses: vec![taunted, defending, paralyzed],
    }
}

fn build_status_lookup(content: &ContentView) -> StatusTagCache {
    Lookup {
        entries: content
            .statuses
            .iter()
            .map(|def| (def.id.clone(), derive_status_tags(def)))
            .collect(),
    }
    .cache()
}

fn melee_with_override(names: Vec<&str>) -> ContentView {
    let mut content = load_content();
    for def in content.abilities.iter_mut() {
        if def.id == "melee_attack" {
            def.ai_tags_override = Some(names.iter().map(|n| n.to_string()).collect());
        }
    }
    content
}

fn text(s: &str) -> String {
    s.to_string()
}

// ---------------------------------------------------------------------------
// Statuses
// ---------------------------------------------------------------------------

#[test]
fn status_skips_turn_yields_hard_cc() {
    let mut def = empty_status();
    def.skips_turn = true;
    assert_eq!(derive_status_tags(&def), only_status(StatusTag::HardCC));
}

#[test]
fn status_disadvantage_yields_soft_cc() {
    let mut def = empty_status();
    def.causes_disadvantage = true;
    assert_eq!(derive_status_tags(&def), only_status(StatusTag::SoftCC));
}

#[test]
fn status_negative_speed_yields_soft_cc() {
    let mut def = empty_status();
    def.bonuses.speed_bonus = -1;
    assert_eq!(derive_status_tags(&def), only_status(StatusTag::SoftCC));
}

#[test]
fn status_positive_speed_alone_yields_cosmetic() {
    let mut def = empty_status();
    def.bonuses.speed_bonus = 1;
    assert_eq!(derive_status_tags(&def), only_status(StatusTag::Cosmetic));
}

#[test]
fn status_dot_dice_yields_dot() {
    let mut def = empty_status();
    def.dot_dice = Some(DiceExpr { count: 1, sides: 4, bonus: 0 });
    assert_eq!(derive_status_tags(&def), only_status(StatusTag::Dot));
}

#[test]
fn status_hp_percent_dot_yields_dot() {
    let mut def = empty_status();
    def.hp_percent_dot = 5;
    assert_eq!(derive_status_tags(&def), only_status(StatusTag::Dot));
}

#[test]
fn status_armor_bonus_yields_buff() {
    let mut def = empty_status();
    def.bonuses.armor_bonus = 4;
    assert_eq!(derive_status_tags(&def), only_status(StatusTag::Buff));
}

#[test]
fn status_buff_class_yields_buff() {
    let mut def = empty_status();
    def.buff_class = Some(text("armor_buff"));
    assert_eq!(derive_status_tags(&def), only_status(StatusTag::Buff));
}

#[test]
fn status_unrecognised_field_yields_cosmetic_fallback() {
    let mut def = empty_status();
    def.bonuses.damage_taken_bonus = 2;
    def.blocks_mana_abilities = true;
    assert_eq!(derive_status_tags(&def), only_status(StatusTag::Cosmetic));
}

#[test]
fn status_combo_negative_speed_and_dot_yields_soft_cc_and_dot() {
    let mut def = empty_status();
    def.bonuses.speed_bonus = -1;
    def.hp_percent_dot = 5;
    assert_eq!(
        derive_status_tags(&def),
        StatusTagSet::from_iter_tags(vec![StatusTag::SoftCC, StatusTag::Dot])
    );
}

#[test]
fn derive_status_tags_taunted_has_compulsion() {
    let content = load_content();
    let def = content.status_def(&text("taunted")).expect("taunted");
    let tags = derive_status_tags(def);
    assert!(tags.contains_tag(StatusTag::Compulsion), "taunted must have Compulsion");
    assert!(!tags.contains_tag(StatusTag::Cosmetic), "no Cosmetic when Compulsion is set");
}

#[test]
fn derive_status_tags_compulsion_set_for_forces_targeting() {
    let mut def = make_status("test_compulsion");
    def.forces_targeting = true;
    let tags = derive_status_tags(&def);
    assert_eq!(tags, only_status(StatusTag::Compulsion));
    assert!(!tags.contains_tag(StatusTag::Cosmetic));
}

// ---------------------------------------------------------------------------
// Abilities
// ---------------------------------------------------------------------------

#[test]
fn ability_weapon_attack_yields_offensive() {
    let def =
        make_ability(EffectDef::WeaponAttack { ranged: false }, TargetType::SingleEnemy, vec![]);
    assert_eq!(
        derive_ability_tags(&def, &empty_lookup(), &vec![]),
        only_ability(AbilityTag::Offensive)
    );
}

#[test]
fn ability_damage_effect_yields_offensive() {
    let def = make_ability(EffectDef::Damage { dice: dice() }, TargetType::SingleEnemy, vec![]);
    assert_eq!(
        derive_ability_tags(&def, &empty_lookup(), &vec![]),
        only_ability(AbilityTag::Offensive)
    );
}

#[test]
fn ability_spell_damage_yields_offensive() {
    let def = make_ability(EffectDef::SpellDamage { dice: dice() }, TargetType::Ground, vec![]);
    assert_eq!(
        derive_ability_tags(&def, &empty_lookup(), &vec![]),
        only_ability(AbilityTag::Offensive)
    );
}

#[test]
fn ability_heal_to_ally_yields_rescue() {
    let def = make_ability(EffectDef::Heal { dice: dice() }, TargetType::SingleAlly, vec![]);
    assert_eq!(
        derive_ability_tags(&def, &empty_lookup(), &vec![]),
        only_ability(AbilityTag::Rescue)
    );
}

#[test]
fn ability_heal_to_self_yields_no_rescue() {
    let def = make_ability(EffectDef::Heal { dice: dice() }, TargetType::Myself, vec![]);
    let tags = derive_ability_tags(&def, &empty_lookup(), &vec![]);
    assert!(!tags.contains_tag(AbilityTag::Rescue), "Heal+Myself must not yield Rescue");
}

#[test]
fn ability_non_heal_to_ally_yields_no_rescue() {
    let def = make_ability(EffectDef::StatusOnly, TargetType::SingleAlly, vec![]);
    let tags = derive_ability_tags(&def, &empty_lookup(), &vec![]);
    assert!(!tags.contains_tag(AbilityTag::Rescue), "non-Heal+SingleAlly is no Rescue");
}

#[test]
fn ability_summon_yields_summon() {
    let def = make_ability(
        EffectDef::Summon { template_id: text("x"), max_active: None },
        TargetType::Myself,
        vec![],
    );
    assert_eq!(
        derive_ability_tags(&def, &empty_lookup(), &vec![]),
        only_ability(AbilityTag::Summon)
    );
}

#[test]
fn ability_grant_movement_yields_mobility() {
    let def = make_ability(EffectDef::GrantMovement { distance: 2 }, TargetType::Myself, vec![]);
    assert_eq!(
        derive_ability_tags(&def, &empty_lookup(), &vec![]),
        only_ability(AbilityTag::Mobility)
    );
}

#[test]
fn ability_no_effect_no_statuses_yields_empty() {
    let def = make_ability(EffectDef::StatusOnly, TargetType::SingleEnemy, vec![]);
    assert_eq!(derive_ability_tags(&def, &empty_lookup(), &vec![]), AbilityTagSet::empty());
}

fn tags_of_status(
    target_type: TargetType,
    on: StatusOn,
    id: &str,
    tag: StatusTag,
) -> AbilityTagSet {
    let def = make_ability(EffectDef::StatusOnly, target_type, vec![status_app(id, on)]);
    derive_ability_tags(&def, &lookup_with(id, tag), &vec![])
}

#[test]
fn ability_applies_buff_to_self_via_my_self_yields_defensive() {
    let tags = tags_of_status(TargetType::SingleEnemy, StatusOn::MySelf, "buff", StatusTag::Buff);
    assert!(tags.contains_tag(AbilityTag::Defensive));
}

#[test]
fn ability_applies_buff_to_ally_via_target_yields_defensive() {
    let tags = tags_of_status(TargetType::SingleAlly, StatusOn::Target, "buff", StatusTag::Buff);
    assert!(tags.contains_tag(AbilityTag::Defensive));
}

#[test]
fn ability_applies_buff_via_target_when_target_is_myself_yields_defensive() {
    let tags = tags_of_status(TargetType::Myself, StatusOn::Target, "buff", StatusTag::Buff);
    assert!(tags.contains_tag(AbilityTag::Defensive));
}

#[test]
fn ability_applies_buff_to_enemy_target_yields_no_defensive() {
    let tags = tags_of_status(TargetType::SingleEnemy, StatusOn::Target, "buff", StatusTag::Buff);
    assert!(!tags.contains_tag(AbilityTag::Defensive));
}

#[test]
fn ability_applies_hardcc_to_single_enemy_yields_apply_cc() {
    let tags = tags_of_status(TargetType::SingleEnemy, StatusOn::Target, "stun", StatusTag::HardCC);
    assert!(tags.contains_tag(AbilityTag::ApplyCC));
}

#[test]
fn ability_applies_softcc_to_ground_yields_apply_cc() {
    let tags = tags_of_status(TargetType::Ground, StatusOn::Target, "slow", StatusTag::SoftCC);
    assert!(tags.contains_tag(AbilityTag::ApplyCC));
}

#[test]
fn ability_applies_cc_to_self_via_my_self_yields_no_apply_cc() {
    let tags = tags_of_status(TargetType::SingleEnemy, StatusOn::MySelf, "stun", StatusTag::HardCC);
    assert!(!tags.contains_tag(AbilityTag::ApplyCC));
}

#[test]
fn ability_applies_cc_to_ally_target_yields_no_apply_cc() {
    let tags = tags_of_status(TargetType::SingleAlly, StatusOn::Target, "stun", StatusTag::HardCC);
    assert!(!tags.contains_tag(AbilityTag::ApplyCC));
}

#[test]
fn ability_applies_dot_to_enemy_yields_no_apply_cc() {
    let tags = tags_of_status(TargetType::SingleEnemy, StatusOn::Target, "poison", StatusTag::Dot);
    assert!(!tags.contains_tag(AbilityTag::ApplyCC));
}

fn tags_of_taunt(target_type: TargetType, on: StatusOn) -> AbilityTagSet {
    let def = make_ability(EffectDef::StatusOnly, target_type, vec![status_app("taunt", on)]);
    derive_ability_tags(&def, &empty_lookup(), &defs_with_forces_targeting("taunt"))
}

#[test]
fn ability_applies_forces_targeting_to_self_via_my_self_yields_peel() {
    let tags = tags_of_taunt(TargetType::Myself, StatusOn::MySelf);
    assert!(tags.contains_tag(AbilityTag::Peel));
}

#[test]
fn ability_applies_forces_targeting_to_ally_via_target_yields_peel() {
    let tags = tags_of_taunt(TargetType::SingleAlly, StatusOn::Target);
    assert!(tags.contains_tag(AbilityTag::Peel));
}

#[test]
fn ability_applies_forces_targeting_via_target_when_target_is_myself_yields_peel() {
    let tags = tags_of_taunt(TargetType::Myself, StatusOn::Target);
    assert!(tags.contains_tag(AbilityTag::Peel));
}

#[test]
fn ability_applies_forces_targeting_to_enemy_yields_no_peel() {
    let tags = tags_of_taunt(TargetType::SingleEnemy, StatusOn::Target);
    assert!(!tags.contains_tag(AbilityTag::Peel));
}

#[test]
fn ability_damage_plus_cc_status_yields_offensive_and_apply_cc() {
    let def = make_ability(
        EffectDef::Damage { dice: dice() },
        TargetType::SingleEnemy,
        vec![status_app("stun", StatusOn::Target)],
    );
    let tags = derive_ability_tags(&def, &lookup_with("stun", StatusTag::HardCC), &vec![]);
    assert_eq!(
        tags,
        AbilityTagSet::from_iter_tags(vec![AbilityTag::Offensive, AbilityTag::ApplyCC])
    );
}

#[test]
fn derive_ability_tags_taunt_has_peel_via_taunted_status() {
    let content = load_content();
    let lookup = build_status_lookup(&content);
    let def = content.ability_def(&text("taunt")).expect("taunt");
    let tags = derive_ability_tags(def, &lookup, &content.statuses);
    assert!(tags.contains_tag(AbilityTag::Peel), "taunt must have PEEL");

    let mut plain = load_content().statuses;
    for status in plain.iter_mut() {
        if status.id == "taunted" {
            status.forces_targeting = false;
        }
    }
    let tags_no_peel = derive_ability_tags(def, &lookup, &plain);
    assert!(!tags_no_peel.contains_tag(AbilityTag::Peel));
    assert!(tags_no_peel.contains_tag(AbilityTag::Defensive), "still via defending");
}

#[test]
fn derive_ability_tags_paralyzing_shot_has_offensive_and_apply_cc() {
    let content = load_content();
    let lookup = build_status_lookup(&content);
    let def = content.ability_def(&text("paralyzing_shot")).expect("paralyzing_shot");
    let tags = derive_ability_tags(def, &lookup, &content.statuses);
    assert!(tags.contains_tag(AbilityTag::Offensive), "must have OFFENSIVE");
    assert!(tags.contains_tag(AbilityTag::ApplyCC), "must have APPLY_CC");
    assert_eq!(
        tags,
        AbilityTagSet::from_iter_tags(vec![AbilityTag::Offensive, AbilityTag::ApplyCC])
    );
}

#[test]
fn classify_is_pure_no_io() {
    let content = load_content();
    let lookup = build_status_lookup(&content);
    let def = content.ability_def(&text("taunt")).expect("taunt");
    let r1 = derive_ability_tags(def, &lookup, &content.statuses);
    let r2 = derive_ability_tags(def, &lookup, &content.statuses);
    assert_eq!(r1, r2, "classifier must be deterministic / pure");
}

#[test]
fn lookup_of_unknown_status_has_no_tags() {
    assert!(empty_lookup().get_tags(&text("nobody")).is_empty());
}

// ---------------------------------------------------------------------------
// Tag sets
// ---------------------------------------------------------------------------

#[test]
fn ability_tag_set_iter_order_is_stable() {
    let tags: Vec<AbilityTag> = AbilityTag::iter();
    assert_eq!(
        tags,
        vec![
            AbilityTag::Offensive,
            AbilityTag::Defensive,
            AbilityTag::Rescue,
            AbilityTag::Summon,
            AbilityTag::Mobility,
            AbilityTag::ApplyCC,
            AbilityTag::Peel,
        ]
    );
}

#[test]
fn status_tag_set_iter_order_is_stable() {
    let tags: Vec<StatusTag> = StatusTag::iter();
    assert_eq!(
        tags,
        vec![
            StatusTag::HardCC,
            StatusTag::SoftCC,
            StatusTag::Dot,
            StatusTag::Buff,
            StatusTag::Compulsion,
            StatusTag::Cosmetic,
        ]
    );
}

fn owned(names: Vec<&'static str>) -> Vec<String> {
    names.iter().map(|n| n.to_string()).collect()
}

#[test]
fn ability_tag_set_serde_round_trip_named_list() {
    let set = AbilityTagSet::from_iter_tags(vec![
        AbilityTag::Offensive,
        AbilityTag::Peel,
        AbilityTag::Rescue,
    ]);
    let names = set.to_names();
    assert_eq!(names, vec!["offensive", "rescue", "peel"]);
    let decoded = AbilityTagSet::from_names(&owned(names)).expect("known names");
    assert_eq!(decoded, set);
}

#[test]
fn status_tag_set_serde_round_trip_named_list() {
    let set = StatusTagSet::from_iter_tags(vec![StatusTag::HardCC, StatusTag::Dot]);
    let names = set.to_names();
    assert_eq!(names, vec!["hard_cc", "dot"]);
    let decoded = StatusTagSet::from_names(&owned(names)).expect("known names");
    assert_eq!(decoded, set);
}

#[test]
fn ability_tag_set_unknown_string_in_deserialize_errors() {
    let result = AbilityTagSet::from_names(&vec![text("bogus_tag")]);
    assert!(result.is_err());
    assert_eq!(result.unwrap_err().name, "bogus_tag");
}

#[test]
fn status_tag_set_unknown_name_is_told() {
    let result = StatusTagSet::from_names(&vec![text("dot"), text("offensive")]);
    assert_eq!(result.unwrap_err().name, "offensive");
}

#[test]
fn tag_sets_insert_and_contain() {
    let mut set = AbilityTagSet::empty();
    assert!(set.is_empty());
    set.insert_tag(AbilityTag::Summon);
    set.insert_tag(AbilityTag::Summon);
    set.insert_tag(AbilityTag::Defensive);
    assert_eq!(set.iter_tags(), vec![AbilityTag::Defensive, AbilityTag::Summon]);
    assert!(set.contains(only_ability(AbilityTag::Summon)));
    assert!(!set.contains(only_ability(AbilityTag::Peel)));
    assert!(set.contains(AbilityTagSet::empty()));
    let mut status = StatusTagSet::default();
    status.insert_tag(StatusTag::Cosmetic);
    assert_eq!(status.iter_tags(), vec![StatusTag::Cosmetic]);
    assert!(status.contains(StatusTagSet::empty()));
}

#[test]
fn names_of_tags_are_found_again() {
    for tag in AbilityTag::iter() {
        assert_eq!(AbilityTag::from_name(tag.name()), Some(tag));
    }
    for tag in StatusTag::iter() {
        assert_eq!(StatusTag::from_name(tag.name()), Some(tag));
    }
    assert_eq!(AbilityTag::from_name("hard_cc"), None);
    assert_eq!(StatusTag::from_name("peel"), None);
}

// ---------------------------------------------------------------------------
// Caches
// ---------------------------------------------------------------------------

#[test]
fn build_caches_global_content_covers_all_abilities() {
    let content = load_content();
    let (sc, ac) = build_caches(&content);
    assert_eq!(ac.entries.len(), content.abilities.len());
    assert_eq!(sc.entries.len(), content.statuses.len());
}

#[test]
fn build_caches_status_first_then_abilities_dependency_satisfied() {
    let content = load_content();
    let (_, ac) = build_caches(&content);
    let tags = ac.get(&text("taunt"));
    assert!(tags.contains_tag(AbilityTag::Peel), "taunt must have PEEL");
    assert!(tags.contains_tag(AbilityTag::Defensive), "taunt must have DEFENSIVE");
}

#[test]
fn build_caches_is_idempotent() {
    let content = load_content();
    let (sc1, ac1) = build_caches(&content);
    let (sc2, ac2) = build_caches(&content);
    assert_eq!(format!("{:?}", sc1), format!("{:?}", sc2));
    assert_eq!(format!("{:?}", ac1), format!("{:?}", ac2));
}

fn melee_effective(content: &ContentView) -> AbilityTagSet {
    let (_, ac): (StatusTagCache, AbilityTagCache) = build_caches(content);
    ac.effective(&text("melee_attack"))
}

#[test]
fn override_replaces_derived_not_appends() {
    let effective = melee_effective(&melee_with_override(vec!["defensive"]));
    assert_eq!(effective, only_ability(AbilityTag::Defensive), "override must replace");
    assert!(!effective.contains(only_ability(AbilityTag::Offensive)));
}

#[test]
fn override_empty_vec_results_in_empty_tag_set() {
    assert_eq!(melee_effective(&melee_with_override(vec![])), AbilityTagSet::empty());
}

#[test]
fn override_none_uses_derived() {
    assert_eq!(melee_effective(&load_content()), only_ability(AbilityTag::Offensive));
}

#[test]
fn override_multi_tag_combines() {
    let tags = melee_effective(&melee_with_override(vec!["offensive", "peel"]));
    assert!(tags.contains_tag(AbilityTag::Offensive));
    assert!(tags.contains_tag(AbilityTag::Peel));
    assert_eq!(tags, AbilityTagSet::from_iter_tags(vec![AbilityTag::Offensive, AbilityTag::Peel]));
}

#[test]
fn unknown_overrides_are_pointed_out() {
    assert_eq!(unknown_override(&load_content()), None);
    assert_eq!(unknown_override(&melee_with_override(vec!["offensive", "bogus_tag"])), Some(2));
}

#[test]
fn caches_know_what_they_hold() {
    let (sc, ac) = build_caches(&load_content());
    assert!(sc.contains_key(&text("defending")));
    assert!(!sc.contains_key(&text("taunt")));
    assert!(ac.contains_key(&text("taunt")));
    assert!(!ac.contains_key(&text("defending")));
    assert_eq!(sc.bonuses(&text("defending")).armor_bonus, 4);
    assert_eq!(sc.bonuses(&text("nobody")), StatusBonuses::default());
    assert_eq!(sc.get(&text("paralyzed")), only_status(StatusTag::HardCC));
    assert!(ac.get(&text("nobody")).is_empty());
    assert!(ac.effective(&text("nobody")).is_empty());
}

#[test]
fn tags_have_bits_of_their_own() {
    assert_eq!(AbilityTagSet::empty().bits(), 0);
    let bits: Vec<u8> =
        AbilityTag::iter().iter().map(|t| AbilityTagSet::from_iter_tags(vec![*t]).bits()).collect();
    assert_eq!(bits, vec![1, 2, 4, 8, 16, 32, 64]);
    let both = AbilityTagSet::from_iter_tags(vec![AbilityTag::Peel, AbilityTag::Offensive]);
    assert_eq!(both.bits(), 65);
    let all = StatusTagSet::from_iter_tags(StatusTag::iter());
    assert_eq!(all.bits(), 63);
    assert_eq!(StatusTagSet::from_iter_tags(vec![StatusTag::Compulsion]).bits(), 32);
}
