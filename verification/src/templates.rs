//! Templates of units: what a summoned unit starts with.

use crate::content::{find, lookup, AbilityDef, ContentView, DiceExpr, EffectDef, Keyed};
use crate::state::{CasterContext, CritFailEffect, RegenRule, RegenTable};
use vstd::prelude::*;
use vstd::string::StringExecFns;

verus! {

/// A start value of a pool, by the pool's name.
#[derive(Debug)]
pub struct InitialPool {
    pub pool: String,
    pub value: i32,
}

/// A template as the content has it.
#[derive(Debug)]
pub struct UnitTemplateDef {
    pub id: String,
    pub name: String,
    pub race: String,
    pub speed: i32,
    pub ability_ids: Vec<String>,
    pub mana_max: i32,
    pub rage_max: i32,
    pub energy_max: i32,
    /// The path of the unit, which decides how its casts fail.
    pub path: Option<String>,
    pub initial_statuses: Vec<String>,
    pub initial_pools: Vec<InitialPool>,
}

/// A race and its display name.
#[derive(Debug)]
pub struct RaceDef {
    pub id: String,
    pub name: String,
}

/// A path and how casts fail on it.
#[derive(Debug)]
pub struct PathDef {
    pub id: String,
    pub crit_fail_effect: CritFailEffect,
}

impl Keyed for UnitTemplateDef {
    open spec fn key(&self) -> Seq<char> {
        self.id@
    }

    fn has_key(&self, id: &String) -> (r: bool) {
        self.id == *id
    }
}

impl Keyed for RaceDef {
    open spec fn key(&self) -> Seq<char> {
        self.id@
    }

    fn has_key(&self, id: &String) -> (r: bool) {
        self.id == *id
    }
}

impl Keyed for PathDef {
    open spec fn key(&self) -> Seq<char> {
        self.id@
    }

    fn has_key(&self, id: &String) -> (r: bool) {
        self.id == *id
    }
}

impl Keyed for InitialPool {
    open spec fn key(&self) -> Seq<char> {
        self.pool@
    }

    fn has_key(&self, id: &String) -> (r: bool) {
        self.pool == *id
    }
}

/// The name under which a unit appears: its race, where that has a name, and
/// its own.
pub open spec fn display_name(tpl: UnitTemplateDef, races: Seq<RaceDef>) -> Seq<char> {
    match lookup(races, tpl.race@) {
        Some(r) if r.name@.len() > 0 => r.name@ + " "@ + tpl.name@,
        _ => tpl.name@,
    }
}

/// The name under which a unit appears: its race, where that has a name, and
/// its own.
pub fn make_display_name(tpl: &UnitTemplateDef, races: &Vec<RaceDef>) -> (r: String)
    ensures
        r@ == display_name(*tpl, races@),
{
    match find(races, &tpl.race) {
        Some(race) => {
            if race.name.as_str().is_empty() {
                tpl.name.clone()
            } else {
                let mut r = race.name.clone();
                r.append(" ");
                r.append(tpl.name.as_str());
                r
            }
        },
        None => tpl.name.clone(),
    }
}

/// How casts fail on a path; a plain miss without a known path.
pub open spec fn crit_fail_of(path: Option<String>, paths: Seq<PathDef>) -> CritFailEffect {
    match path {
        Some(p) => match lookup(paths, p@) {
            Some(d) => d.crit_fail_effect,
            None => CritFailEffect::Miss,
        },
        None => CritFailEffect::Miss,
    }
}

/// How casts fail on a path; a plain miss without a known path.
pub fn crit_fail_effect_of(path: &Option<String>, paths: &Vec<PathDef>) -> (r: CritFailEffect)
    ensures
        r == crit_fail_of(*path, paths@),
{
    match path {
        Some(p) => match find(paths, p) {
            Some(d) => d.crit_fail_effect,
            None => CritFailEffect::Miss,
        },
        None => CritFailEffect::Miss,
    }
}

/// Whether an ability is a weapon attack at arm's length.
pub open spec fn is_melee_attack(def: AbilityDef) -> bool {
    def.effect matches EffectDef::WeaponAttack { ranged } && !ranged && def.range.max == 1
}

/// Whether one of the abilities is a weapon attack at arm's length.
pub open spec fn has_melee_attack(ids: Seq<String>, content: ContentView) -> bool {
    exists|i: int|
        0 <= i < ids.len() && (content.ability((#[trigger] ids[i])@) matches Some(d)
            && is_melee_attack(d))
}

/// Whether one of the abilities is a weapon attack at arm's length.
pub fn any_melee_attack(ids: &Vec<String>, content: &ContentView) -> (r: bool)
    ensures
        r == has_melee_attack(ids@, *content),
{
    let mut i: usize = 0;
    while i < ids.len()
        invariant
            i <= ids.len(),
            forall|j: int|
                0 <= j < i ==> !(content.ability((#[trigger] ids@[j])@) matches Some(d)
                    && is_melee_attack(d)),
        decreases ids.len() - i,
    {
        if let Some(def) = content.ability_def(&ids[i]) {
            if let EffectDef::WeaponAttack { ranged } = &def.effect {
                if !*ranged && def.range.max == 1 {
                    assert(is_melee_attack(content.ability(ids@[i as int]@)->0));
                    return true;
                }
            }
        }
        i = i + 1;
    }
    false
}

/// The dice of an opportunity attack: those of the weapon with the strength of
/// its bearer added, for who has a melee attack and a weapon.
pub open spec fn aoo_dice(
    melee: bool,
    weapon: Option<DiceExpr>,
    strength_mod: i32,
) -> Option<DiceExpr> {
    match weapon {
        Some(d) if melee => Some(DiceExpr { bonus: (d.bonus + strength_mod) as i32, ..d }),
        _ => None,
    }
}

/// Whether the strength of a bearer can be added to its weapon's bonus.
pub open spec fn aoo_dice_fits(
    melee: bool,
    weapon: Option<DiceExpr>,
    strength_mod: i32,
) -> bool {
    melee ==> (weapon matches Some(d) ==> i32::MIN <= d.bonus + strength_mod <= i32::MAX)
}

/// The dice of an opportunity attack.
pub fn make_aoo_dice(melee: bool, weapon: Option<DiceExpr>, strength_mod: i32) -> (r: Option<
    DiceExpr,
>)
    requires
        aoo_dice_fits(melee, weapon, strength_mod),
    ensures
        r == aoo_dice(melee, weapon, strength_mod),
{
    match weapon {
        Some(d) if melee => Some(
            DiceExpr { count: d.count, sides: d.sides, bonus: d.bonus + strength_mod },
        ),
        _ => None,
    }
}

/// What pools do at the start of a turn: action and movement points fill up,
/// mana and energy grow by one, the others stay.
pub open spec fn regen_rules() -> RegenTable {
    RegenTable {
        hp: RegenRule::Never,
        mana: RegenRule::Increment(1),
        rage: RegenRule::Never,
        energy: RegenRule::Increment(1),
        ap: RegenRule::RefillToMax,
        mp: RegenRule::RefillToMax,
    }
}

/// What pools do at the start of a turn.
pub fn default_regen() -> (r: RegenTable)
    ensures
        r == regen_rules(),
{
    RegenTable {
        hp: RegenRule::Never,
        mana: RegenRule::Increment(1),
        rage: RegenRule::Never,
        energy: RegenRule::Increment(1),
        ap: RegenRule::RefillToMax,
        mp: RegenRule::RefillToMax,
    }
}

/// Start values of the pools, where they differ from the usual ones.
#[derive(Clone, Copy, PartialEq, Eq, Structural, Debug)]
pub struct StartPools {
    pub hp: Option<i32>,
    pub mana: Option<i32>,
    pub rage: Option<i32>,
    pub energy: Option<i32>,
    pub ap: Option<i32>,
    pub mp: Option<i32>,
}

/// The start value of the pool with the given name.
pub open spec fn start_value(pools: Seq<InitialPool>, name: Seq<char>) -> Option<i32> {
    match lookup(pools, name) {
        Some(p) => Some(p.value),
        None => None,
    }
}

fn find_start_value(pools: &Vec<InitialPool>, name: &str) -> (r: Option<i32>)
    ensures
        r == start_value(pools@, name@),
{
    let key = crate::text::owned(name);
    match find(pools, &key) {
        Some(p) => Some(p.value),
        None => None,
    }
}

/// A template as the engine wants it.
#[derive(Debug)]
pub struct UnitTemplate {
    pub max_hp: i32,
    pub armor: i32,
    pub magic_resist: i32,
    pub base_speed: i32,
    pub max_ap: i32,
    pub mana_max: i32,
    pub energy_max: i32,
    pub rage_max: i32,
    pub caster_context: CasterContext,
    pub aoo_dice: Option<DiceExpr>,
    pub regen_per_pool: RegenTable,
    pub initial_statuses: Vec<String>,
    pub initial_pools: StartPools,
}

/// What equipment and attributes give a unit of a template.
#[derive(Clone, Copy, PartialEq, Eq, Structural, Debug)]
pub struct EquippedStats {
    pub max_hp: i32,
    pub armor: i32,
    pub str_mod: i32,
    pub int_mod: i32,
    pub dex_mod: i32,
    pub spell_power: i32,
    pub weapon_dice: Option<DiceExpr>,
    pub ranged_dice: Option<DiceExpr>,
    /// Modifier of the bare strength, without equipment.
    pub strength_mod: i32,
}

/// Whether `t` is the engine's form of a template. Summoned units resist no
/// magic and have one action point.
pub open spec fn is_engine_template(
    t: UnitTemplate,
    tpl: UnitTemplateDef,
    stats: EquippedStats,
    content: ContentView,
    paths: Seq<PathDef>,
) -> bool {
    &&& t.max_hp == stats.max_hp
    &&& t.armor == stats.armor
    &&& t.magic_resist == 0
    &&& t.base_speed == tpl.speed
    &&& t.max_ap == 1
    &&& t.mana_max == tpl.mana_max
    &&& t.energy_max == tpl.energy_max
    &&& t.rage_max == tpl.rage_max
    &&& t.caster_context == (CasterContext {
        str_mod: stats.str_mod,
        int_mod: stats.int_mod,
        dex_mod: stats.dex_mod,
        spell_power: stats.spell_power,
        weapon_dice: stats.weapon_dice,
        ranged_dice: stats.ranged_dice,
        crit_fail_outcome: crit_fail_of(tpl.path, paths),
    })
    &&& t.aoo_dice == aoo_dice(
        has_melee_attack(tpl.ability_ids@, content),
        stats.weapon_dice,
        stats.strength_mod,
    )
    &&& t.regen_per_pool == regen_rules()
    &&& t.initial_statuses@ == tpl.initial_statuses@
    &&& t.initial_pools == (StartPools {
        hp: start_value(tpl.initial_pools@, "hp"@),
        mana: start_value(tpl.initial_pools@, "mana"@),
        rage: start_value(tpl.initial_pools@, "rage"@),
        energy: start_value(tpl.initial_pools@, "energy"@),
        ap: start_value(tpl.initial_pools@, "ap"@),
        mp: start_value(tpl.initial_pools@, "mp"@),
    })
}

/// A list with the same texts.
pub fn copy_strings(items: &Vec<String>) -> (r: Vec<String>)
    ensures
        r@ == items@,
{
    let mut r: Vec<String> = Vec::new();
    let mut i: usize = 0;
    while i < items.len()
        invariant
            i <= items.len(),
            r@ == items@.take(i as int),
        decreases items.len() - i,
    {
        r.push(items[i].clone());
        assert(r@ =~= items@.take(i + 1));
        i = i + 1;
    }
    assert(r@ =~= items@);
    r
}

/// The engine's form of a template.
pub fn build_engine_template_from_def(
    tpl: &UnitTemplateDef,
    stats: EquippedStats,
    content: &ContentView,
    paths: &Vec<PathDef>,
) -> (r: UnitTemplate)
    requires
        aoo_dice_fits(
            has_melee_attack(tpl.ability_ids@, *content),
            stats.weapon_dice,
            stats.strength_mod,
        ),
    ensures
        is_engine_template(r, *tpl, stats, *content, paths@),
{
    let melee = any_melee_attack(&tpl.ability_ids, content);
    UnitTemplate {
        max_hp: stats.max_hp,
        armor: stats.armor,
        magic_resist: 0,
        base_speed: tpl.speed,
        max_ap: 1,
        mana_max: tpl.mana_max,
        energy_max: tpl.energy_max,
        rage_max: tpl.rage_max,
        caster_context: CasterContext {
            str_mod: stats.str_mod,
            int_mod: stats.int_mod,
            dex_mod: stats.dex_mod,
            spell_power: stats.spell_power,
            weapon_dice: stats.weapon_dice,
            ranged_dice: stats.ranged_dice,
            crit_fail_outcome: crit_fail_effect_of(&tpl.path, paths),
        },
        aoo_dice: make_aoo_dice(melee, stats.weapon_dice, stats.strength_mod),
        regen_per_pool: default_regen(),
        initial_statuses: copy_strings(&tpl.initial_statuses),
        initial_pools: StartPools {
            hp: find_start_value(&tpl.initial_pools, "hp"),
            mana: find_start_value(&tpl.initial_pools, "mana"),
            rage: find_start_value(&tpl.initial_pools, "rage"),
            energy: find_start_value(&tpl.initial_pools, "energy"),
            ap: find_start_value(&tpl.initial_pools, "ap"),
            mp: find_start_value(&tpl.initial_pools, "mp"),
        },
    }
}

/// Whoever lacks a melee attack, or a weapon, makes no opportunity attacks.
pub proof fn law_aoo_needs_melee_and_weapon(melee: bool, weapon: Option<DiceExpr>, strength: i32)
    ensures
        aoo_dice(melee, weapon, strength) is Some <==> melee && weapon is Some,
{
}

/// A unit is called by its race and its name, with a space between them; by its name alone
/// where the race is not known or has no name.
pub proof fn law_display_name(tpl: UnitTemplateDef, races: Seq<RaceDef>)
    ensures
        ({
            let shown = display_name(tpl, races);
            match lookup(races, tpl.race@) {
                Some(r) => if r.name@.len() == 0 {
                    shown == tpl.name@
                } else {
                    &&& shown.len() == r.name@.len() + 1 + tpl.name@.len()
                    &&& shown.take(r.name@.len() as int) =~= r.name@
                    &&& shown[r.name@.len() as int] == ' '
                    &&& shown.skip((r.name@.len() + 1) as int) =~= tpl.name@
                },
                None => shown == tpl.name@,
            }
        }),
{
    reveal_strlit(" ");
}

/// Casts fail as the path says, and plainly without a known path.
pub proof fn law_crit_fail(path: Option<String>, paths: Seq<PathDef>)
    ensures
        path is None ==> crit_fail_of(path, paths) is Miss,
        path matches Some(p) ==> (match lookup(paths, p@) {
            Some(d) => crit_fail_of(path, paths) == d.crit_fail_effect,
            None => crit_fail_of(path, paths) is Miss,
        }),
{
}

/// An attack at arm's length is one with a weapon that is not ranged and reaches one cell.
/// One more ability adds such an attack if and only if it is one.
pub proof fn law_melee_by_one_more(ids: Seq<String>, more: String, content: ContentView)
    ensures
        !has_melee_attack(Seq::empty(), content),
        has_melee_attack(ids.push(more), content) <==> has_melee_attack(ids, content) || (
        content.ability(more@) is Some && content.ability(more@)->0.range.max == 1
            && content.ability(more@)->0.effect is WeaponAttack && !content.ability(
            more@,
        )->0.effect->ranged),
{
    let all = ids.push(more);
    assert(all[ids.len() as int] == more);
    if has_melee_attack(ids, content) {
        let i = choose|i: int|
            0 <= i < ids.len() && (content.ability((#[trigger] ids[i])@) matches Some(d)
                && is_melee_attack(d));
        assert(all[i] == ids[i]);
    }
    if has_melee_attack(all, content) {
        let i = choose|i: int|
            0 <= i < all.len() && (content.ability((#[trigger] all[i])@) matches Some(d)
                && is_melee_attack(d));
        if i < ids.len() {
            assert(ids[i] == all[i]);
        }
    }
}

/// An opportunity attack is rolled with the dice of the weapon, and strength adds to them.
pub proof fn law_aoo_dice(weapon: DiceExpr, strength: i32)
    requires
        i32::MIN <= weapon.bonus + strength <= i32::MAX,
    ensures
        aoo_dice(true, Some(weapon), strength) matches Some(d) && d.count == weapon.count
            && d.sides == weapon.sides && d.bonus == weapon.bonus + strength,
        aoo_dice(false, Some(weapon), strength) is None,
        aoo_dice(true, None, strength) is None,
{
}

/// At the start of a turn mana and energy grow by one, action and movement points are full
/// again, and hit points and rage stay.
pub proof fn law_regen()
    ensures
        regen_rules().mana == RegenRule::Increment(1),
        regen_rules().energy == RegenRule::Increment(1),
        regen_rules().ap is RefillToMax,
        regen_rules().mp is RefillToMax,
        regen_rules().hp is Never,
        regen_rules().rage is Never,
{
}

/// A pool starts with the first value that is listed under its name; one that is not listed
/// has no value of its own.
pub proof fn law_start_value(pools: Seq<InitialPool>, name: Seq<char>)
    ensures
        start_value(pools, name) matches Some(v) ==> exists|i: int| #[trigger]
            crate::content::is_first_entry(pools, name, i) && pools[i].value == v,
        start_value(pools, name) is None ==> forall|i: int|
            0 <= i < pools.len() ==> (#[trigger] pools[i]).pool@ != name,
{
    crate::content::law_lookup_finds_the_first(pools, name);
    if start_value(pools, name) is None {
        assert forall|i: int| 0 <= i < pools.len() implies (#[trigger] pools[i]).pool@ != name by {
            assert(pools[i].key() != name);
        }
    }
}

/// What the engine gets of a template: hit points, armor and modifiers of the equipped
/// unit, pools, speed and statuses of the template, one action point, no resistance to
/// magic, and an opportunity attack for who fights at arm's length.
pub proof fn law_engine_template(
    t: UnitTemplate,
    tpl: UnitTemplateDef,
    stats: EquippedStats,
    content: ContentView,
    paths: Seq<PathDef>,
)
    requires
        is_engine_template(t, tpl, stats, content, paths),
    ensures
        t.max_hp == stats.max_hp,
        t.armor == stats.armor,
        t.magic_resist == 0,
        t.base_speed == tpl.speed,
        t.max_ap == 1,
        t.mana_max == tpl.mana_max && t.energy_max == tpl.energy_max && t.rage_max == tpl.rage_max,
        t.caster_context.str_mod == stats.str_mod,
        t.caster_context.int_mod == stats.int_mod,
        t.caster_context.dex_mod == stats.dex_mod,
        t.caster_context.spell_power == stats.spell_power,
        t.caster_context.weapon_dice == stats.weapon_dice,
        t.caster_context.ranged_dice == stats.ranged_dice,
        tpl.path is None ==> t.caster_context.crit_fail_outcome is Miss,
        t.aoo_dice is Some <==> stats.weapon_dice is Some && has_melee_attack(
            tpl.ability_ids@,
            content,
        ),
        t.aoo_dice is Some && i32::MIN <= stats.weapon_dice->0.bonus + stats.strength_mod
            <= i32::MAX ==> t.aoo_dice->0.bonus == stats.weapon_dice->0.bonus + stats.strength_mod,
        t.initial_statuses@ == tpl.initial_statuses@,
        t.initial_pools.hp == start_value(tpl.initial_pools@, "hp"@),
        t.initial_pools.mana == start_value(tpl.initial_pools@, "mana"@),
        t.initial_pools.rage == start_value(tpl.initial_pools@, "rage"@),
        t.initial_pools.energy == start_value(tpl.initial_pools@, "energy"@),
        t.initial_pools.ap == start_value(tpl.initial_pools@, "ap"@),
        t.initial_pools.mp == start_value(tpl.initial_pools@, "mp"@),
        t.regen_per_pool.mana == RegenRule::Increment(1),
        t.regen_per_pool.energy == RegenRule::Increment(1),
        t.regen_per_pool.ap is RefillToMax && t.regen_per_pool.mp is RefillToMax,
        t.regen_per_pool.hp is Never && t.regen_per_pool.rage is Never,
{
}

} // verus!
