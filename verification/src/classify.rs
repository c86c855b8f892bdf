//! Which tags an ability or a status has, read off its definition.

use crate::content::{
    lookup, AbilityDef, EffectDef, StatusApplication, StatusDef, StatusOn, TargetType,
};
use crate::tags::{AbilityTag, AbilityTagSet, StatusTag, StatusTagSet};
use vstd::prelude::*;

verus! {

/// A table that knows the tags of statuses.
pub trait StatusTagLookup {
    /// The tags of a status.
    spec fn tags_of(&self, id: Seq<char>) -> Set<StatusTag>;

    /// The tags of a status.
    fn get_tags(&self, id: &String) -> (r: StatusTagSet)
        ensures
            r@ == self.tags_of(id@),
    ;
}

/// Whether a status has a tag.
///
/// - hard control: it skips turns;
/// - soft control: it causes disadvantage or slows;
/// - damage over time: it rolls or takes a share of hit points each turn;
/// - buff: it has a buff class or adds armor;
/// - compulsion: it forces targeting;
/// - cosmetic: none of these.
pub open spec fn status_has_tag(def: StatusDef, t: StatusTag) -> bool {
    match t {
        StatusTag::HardCC => def.skips_turn,
        StatusTag::SoftCC => def.causes_disadvantage || def.bonuses.speed_bonus < 0,
        StatusTag::Dot => def.dot_dice is Some || def.hp_percent_dot > 0,
        StatusTag::Buff => def.buff_class is Some || def.bonuses.armor_bonus > 0,
        StatusTag::Compulsion => def.forces_targeting,
        StatusTag::Cosmetic => {
            &&& !def.skips_turn
            &&& !def.causes_disadvantage
            &&& def.bonuses.speed_bonus >= 0
            &&& def.dot_dice is None
            &&& def.hp_percent_dot <= 0
            &&& def.buff_class is None
            &&& def.bonuses.armor_bonus <= 0
            &&& !def.forces_targeting
        },
    }
}

/// The tags of a status.
pub open spec fn status_tags(def: StatusDef) -> Set<StatusTag> {
    Set::new(|t: StatusTag| status_has_tag(def, t))
}

/// The tags of a status.
pub fn derive_status_tags(def: &StatusDef) -> (r: StatusTagSet)
    ensures
        r@ == status_tags(*def),
{
    let mut s = StatusTagSet::empty();
    if def.skips_turn {
        s.insert_tag(StatusTag::HardCC);
    }
    if def.causes_disadvantage || def.bonuses.speed_bonus < 0 {
        s.insert_tag(StatusTag::SoftCC);
    }
    if def.dot_dice.is_some() || def.hp_percent_dot > 0 {
        s.insert_tag(StatusTag::Dot);
    }
    if def.buff_class.is_some() || def.bonuses.armor_bonus > 0 {
        s.insert_tag(StatusTag::Buff);
    }
    if def.forces_targeting {
        s.insert_tag(StatusTag::Compulsion);
    }
    proof {
        let ghost_tags = s@;
        assert(status_has_tag(*def, StatusTag::Cosmetic) ==> s@ =~= Set::empty());
        assert(!status_has_tag(*def, StatusTag::Cosmetic) ==> exists|t: StatusTag| s@.contains(t))
            by {
            assert(s@.contains(StatusTag::HardCC) == def.skips_turn);
            assert(s@.contains(StatusTag::SoftCC) == (def.causes_disadvantage
                || def.bonuses.speed_bonus < 0));
            assert(s@.contains(StatusTag::Dot) == (def.dot_dice is Some || def.hp_percent_dot > 0));
            assert(s@.contains(StatusTag::Buff) == (def.buff_class is Some
                || def.bonuses.armor_bonus > 0));
            assert(s@.contains(StatusTag::Compulsion) == def.forces_targeting);
        }
    }
    if s.is_empty() {
        s.insert_tag(StatusTag::Cosmetic);
    }
    assert(s@ =~= status_tags(*def));
    s
}

/// Whether a status lands on the caster or on an ally.
pub open spec fn lands_on_own_side(target_type: TargetType, on: StatusOn) -> bool {
    on is MySelf || target_type is SingleAlly || target_type is Myself
}

/// Whether a status lands on an enemy.
pub open spec fn lands_on_enemy(target_type: TargetType, on: StatusOn) -> bool {
    on is Target && (target_type is SingleEnemy || target_type is Ground)
}

/// Whether the content has a status of that id which forces targeting.
pub open spec fn forces_targeting(defs: Seq<StatusDef>, id: Seq<char>) -> bool {
    match lookup(defs, id) {
        Some(d) => d.forces_targeting,
        None => false,
    }
}

/// Whether one of the statuses lands on the own side and is a buff.
pub open spec fn buffs_own_side<L: StatusTagLookup>(
    applied: Seq<StatusApplication>,
    target_type: TargetType,
    table: L,
) -> bool {
    exists|i: int|
        0 <= i < applied.len() && lands_on_own_side(target_type, (#[trigger] applied[i]).on)
            && table.tags_of(applied[i].status@).contains(StatusTag::Buff)
}

/// Whether one of the statuses lands on an enemy and controls it.
pub open spec fn controls_enemy<L: StatusTagLookup>(
    applied: Seq<StatusApplication>,
    target_type: TargetType,
    table: L,
) -> bool {
    exists|i: int|
        0 <= i < applied.len() && lands_on_enemy(target_type, (#[trigger] applied[i]).on) && (
        table.tags_of(applied[i].status@).contains(StatusTag::HardCC) || table.tags_of(
            applied[i].status@,
        ).contains(StatusTag::SoftCC))
}

/// Whether one of the statuses lands on the own side and draws attacks.
pub open spec fn taunts(
    applied: Seq<StatusApplication>,
    target_type: TargetType,
    defs: Seq<StatusDef>,
) -> bool {
    exists|i: int|
        0 <= i < applied.len() && lands_on_own_side(target_type, (#[trigger] applied[i]).on)
            && forces_targeting(defs, applied[i].status@)
}

/// Whether an ability has a tag.
///
/// - offensive: it deals damage directly;
/// - rescue: it heals a single ally;
/// - summon, mobility: by its effect;
/// - defensive: it puts a buff on its caster or an ally;
/// - control: it puts hard or soft control on an enemy;
/// - peel: it puts a status that forces targeting on its caster or an ally.
pub open spec fn ability_has_tag<L: StatusTagLookup>(
    def: AbilityDef,
    table: L,
    defs: Seq<StatusDef>,
    t: AbilityTag,
) -> bool {
    match t {
        AbilityTag::Offensive => def.effect is WeaponAttack || def.effect is Damage
            || def.effect is SpellDamage,
        AbilityTag::Rescue => def.target_type is SingleAlly && def.effect is Heal,
        AbilityTag::Summon => def.effect is Summon,
        AbilityTag::Mobility => def.effect is GrantMovement,
        AbilityTag::Defensive => buffs_own_side(def.statuses@, def.target_type, table),
        AbilityTag::ApplyCC => controls_enemy(def.statuses@, def.target_type, table),
        AbilityTag::Peel => taunts(def.statuses@, def.target_type, defs),
    }
}

/// The tags of an ability.
pub open spec fn ability_tags<L: StatusTagLookup>(
    def: AbilityDef,
    table: L,
    defs: Seq<StatusDef>,
) -> Set<AbilityTag> {
    Set::new(|t: AbilityTag| ability_has_tag(def, table, defs, t))
}

fn own_side(target_type: TargetType, on: StatusOn) -> (r: bool)
    ensures
        r == lands_on_own_side(target_type, on),
{
    on == StatusOn::MySelf || (on == StatusOn::Target && target_type == TargetType::SingleAlly)
        || (on == StatusOn::Target && target_type == TargetType::Myself)
}

fn any_buff<L: StatusTagLookup>(
    applied: &Vec<StatusApplication>,
    target_type: TargetType,
    table: &L,
) -> (r: bool)
    ensures
        r == buffs_own_side(applied@, target_type, *table),
{
    let mut i: usize = 0;
    while i < applied.len()
        invariant
            i <= applied.len(),
            forall|j: int|
                0 <= j < i ==> !(lands_on_own_side(target_type, (#[trigger] applied@[j]).on)
                    && table.tags_of(applied@[j].status@).contains(StatusTag::Buff)),
        decreases applied.len() - i,
    {
        if own_side(target_type, applied[i].on) && table.get_tags(
            &applied[i].status,
        ).contains_tag(StatusTag::Buff) {
            assert(lands_on_own_side(target_type, applied@[i as int].on));
            return true;
        }
        i = i + 1;
    }
    false
}

fn any_control<L: StatusTagLookup>(
    applied: &Vec<StatusApplication>,
    target_type: TargetType,
    table: &L,
) -> (r: bool)
    ensures
        r == controls_enemy(applied@, target_type, *table),
{
    let mut i: usize = 0;
    while i < applied.len()
        invariant
            i <= applied.len(),
            forall|j: int|
                0 <= j < i ==> !(lands_on_enemy(target_type, (#[trigger] applied@[j]).on) && (
                table.tags_of(applied@[j].status@).contains(StatusTag::HardCC) || table.tags_of(
                    applied@[j].status@,
                ).contains(StatusTag::SoftCC))),
        decreases applied.len() - i,
    {
        if applied[i].on == StatusOn::Target && (target_type == TargetType::SingleEnemy
            || target_type == TargetType::Ground) {
            let tags = table.get_tags(&applied[i].status);
            if tags.contains_tag(StatusTag::HardCC) || tags.contains_tag(StatusTag::SoftCC) {
                assert(lands_on_enemy(target_type, applied@[i as int].on));
                return true;
            }
        }
        i = i + 1;
    }
    false
}

fn any_taunt(
    applied: &Vec<StatusApplication>,
    target_type: TargetType,
    defs: &Vec<StatusDef>,
) -> (r: bool)
    ensures
        r == taunts(applied@, target_type, defs@),
{
    let mut i: usize = 0;
    while i < applied.len()
        invariant
            i <= applied.len(),
            forall|j: int|
                0 <= j < i ==> !(lands_on_own_side(target_type, (#[trigger] applied@[j]).on)
                    && forces_targeting(defs@, applied@[j].status@)),
        decreases applied.len() - i,
    {
        if own_side(target_type, applied[i].on) {
            let taunt = match crate::content::find(defs, &applied[i].status) {
                Some(d) => d.forces_targeting,
                None => false,
            };
            if taunt {
                assert(lands_on_own_side(target_type, applied@[i as int].on));
                return true;
            }
        }
        i = i + 1;
    }
    false
}

/// The tags of an ability, given the tags and the definitions of statuses.
pub fn derive_ability_tags<L: StatusTagLookup>(
    def: &AbilityDef,
    status_lookup: &L,
    status_defs: &Vec<StatusDef>,
) -> (r: AbilityTagSet)
    ensures
        r@ == ability_tags(*def, *status_lookup, status_defs@),
{
    let mut s = AbilityTagSet::empty();
    match &def.effect {
        EffectDef::WeaponAttack { .. } => s.insert_tag(AbilityTag::Offensive),
        EffectDef::Damage { .. } => s.insert_tag(AbilityTag::Offensive),
        EffectDef::SpellDamage { .. } => s.insert_tag(AbilityTag::Offensive),
        EffectDef::Heal { .. } => {
            if def.target_type == TargetType::SingleAlly {
                s.insert_tag(AbilityTag::Rescue);
            }
        },
        EffectDef::Summon { .. } => s.insert_tag(AbilityTag::Summon),
        EffectDef::GrantMovement { .. } => s.insert_tag(AbilityTag::Mobility),
        _ => {},
    }
    if any_buff(&def.statuses, def.target_type, status_lookup) {
        s.insert_tag(AbilityTag::Defensive);
    }
    if any_control(&def.statuses, def.target_type, status_lookup) {
        s.insert_tag(AbilityTag::ApplyCC);
    }
    if any_taunt(&def.statuses, def.target_type, status_defs) {
        s.insert_tag(AbilityTag::Peel);
    }
    assert(s@ =~= ability_tags(*def, *status_lookup, status_defs@));
    s
}

/// Every status has a tag, and it is cosmetic exactly when it has no other.
pub proof fn law_cosmetic_iff_no_other_tag(def: StatusDef)
    ensures
        exists|t: StatusTag| #[trigger] status_tags(def).contains(t),
        status_tags(def).contains(StatusTag::Cosmetic) <==> (forall|t: StatusTag| #[trigger]
            status_tags(def).contains(t) ==> t is Cosmetic),
{
    let s = status_tags(def);
    assert(s.contains(StatusTag::HardCC) == def.skips_turn);
    assert(s.contains(StatusTag::SoftCC) == (def.causes_disadvantage || def.bonuses.speed_bonus
        < 0));
    assert(s.contains(StatusTag::Dot) == (def.dot_dice is Some || def.hp_percent_dot > 0));
    assert(s.contains(StatusTag::Buff) == (def.buff_class is Some || def.bonuses.armor_bonus > 0));
    assert(s.contains(StatusTag::Compulsion) == def.forces_targeting);
    assert(s.contains(StatusTag::Cosmetic) || s.contains(StatusTag::HardCC) || s.contains(
        StatusTag::SoftCC,
    ) || s.contains(StatusTag::Dot) || s.contains(StatusTag::Buff) || s.contains(
        StatusTag::Compulsion,
    ));
}

/// An ability with a direct effect and no statuses has at most the tag of that
/// effect; one without either has none.
pub proof fn law_effect_tags_exclude_each_other<L: StatusTagLookup>(
    def: AbilityDef,
    table: L,
    defs: Seq<StatusDef>,
    a: AbilityTag,
    b: AbilityTag,
)
    requires
        def.statuses@.len() == 0,
        ability_tags(def, table, defs).contains(a),
        ability_tags(def, table, defs).contains(b),
    ensures
        a == b,
        !(def.effect is StatusOnly),
{
    assert(ability_has_tag(def, table, defs, a));
    assert(ability_has_tag(def, table, defs, b));
}

/// What each tag of a status stands for.
pub proof fn law_status_tags_by_cause(def: StatusDef)
    ensures
        status_tags(def).contains(StatusTag::HardCC) <==> def.skips_turn,
        def.causes_disadvantage ==> status_tags(def).contains(StatusTag::SoftCC),
        def.bonuses.speed_bonus < 0 ==> status_tags(def).contains(StatusTag::SoftCC),
        !def.causes_disadvantage && def.bonuses.speed_bonus >= 0 ==> !status_tags(def).contains(
            StatusTag::SoftCC,
        ),
        def.dot_dice is Some ==> status_tags(def).contains(StatusTag::Dot),
        def.hp_percent_dot > 0 ==> status_tags(def).contains(StatusTag::Dot),
        def.dot_dice is None && def.hp_percent_dot <= 0 ==> !status_tags(def).contains(
            StatusTag::Dot,
        ),
        def.buff_class is Some ==> status_tags(def).contains(StatusTag::Buff),
        def.bonuses.armor_bonus > 0 ==> status_tags(def).contains(StatusTag::Buff),
        def.buff_class is None && def.bonuses.armor_bonus <= 0 ==> !status_tags(def).contains(
            StatusTag::Buff,
        ),
        status_tags(def).contains(StatusTag::Compulsion) <==> def.forces_targeting,
{
}

/// What the effect of an ability says of it: strikes are offensive, healing a single ally
/// rescues, and calling units and granting movement speak for themselves.
pub proof fn law_ability_tags_by_effect<L: StatusTagLookup>(
    def: AbilityDef,
    table: L,
    defs: Seq<StatusDef>,
)
    ensures
        ({
            let tags = ability_tags(def, table, defs);
            &&& def.effect is WeaponAttack || def.effect is Damage || def.effect is SpellDamage
                ==> tags.contains(AbilityTag::Offensive)
            &&& def.effect is Heal || def.effect is StatusOnly || def.effect is GrantMovement
                || def.effect is RestoreResources || def.effect is Summon ==> !tags.contains(
                AbilityTag::Offensive,
            )
            &&& tags.contains(AbilityTag::Rescue) <==> def.effect is Heal
                && def.target_type is SingleAlly
            &&& tags.contains(AbilityTag::Summon) <==> def.effect is Summon
            &&& tags.contains(AbilityTag::Mobility) <==> def.effect is GrantMovement
        }),
{
}

/// A status on the caster itself, or of an ability for an ally or for the caster, lands on
/// its own side; one on the target of an ability for an enemy or the ground lands on an
/// enemy. Each lands on one of the two.
pub proof fn law_where_a_status_lands(target_type: TargetType, on: StatusOn)
    ensures
        lands_on_own_side(target_type, on) != lands_on_enemy(target_type, on),
        lands_on_own_side(target_type, StatusOn::MySelf),
        lands_on_enemy(TargetType::SingleEnemy, StatusOn::Target),
        lands_on_enemy(TargetType::Ground, StatusOn::Target),
        lands_on_own_side(TargetType::SingleAlly, on),
        lands_on_own_side(TargetType::Myself, on),
{
}

/// What the statuses of an ability say of it: it defends where it puts a buff on its own
/// side, controls where it puts a status on an enemy that costs turns or hampers, and peels
/// where it puts one on its own side that draws attacks.
pub proof fn law_ability_tags_by_status<L: StatusTagLookup>(
    def: AbilityDef,
    table: L,
    defs: Seq<StatusDef>,
    i: int,
)
    requires
        0 <= i < def.statuses@.len(),
    ensures
        ({
            let tags = ability_tags(def, table, defs);
            let s = def.statuses@[i];
            let own = lands_on_own_side(def.target_type, s.on);
            let borne = table.tags_of(s.status@);
            &&& own && borne.contains(StatusTag::Buff) ==> tags.contains(AbilityTag::Defensive)
            &&& !own && borne.contains(StatusTag::HardCC) ==> tags.contains(AbilityTag::ApplyCC)
            &&& !own && borne.contains(StatusTag::SoftCC) ==> tags.contains(AbilityTag::ApplyCC)
            &&& own && lookup(defs, s.status@) is Some && lookup(
                defs,
                s.status@,
            )->0.forces_targeting ==> tags.contains(AbilityTag::Peel)
        }),
{
    law_where_a_status_lands(def.target_type, def.statuses@[i].on);
}

/// Whether the status at `i` makes an ability defend, control or peel.
pub open spec fn causes<L: StatusTagLookup>(
    def: AbilityDef,
    table: L,
    defs: Seq<StatusDef>,
    tag: AbilityTag,
    i: int,
) -> bool {
    let s = def.statuses@[i];
    let on_enemy = s.on is Target && (def.target_type is SingleEnemy || def.target_type is Ground);
    let borne = table.tags_of(s.status@);
    &&& 0 <= i < def.statuses@.len()
    &&& match tag {
        AbilityTag::Defensive => !on_enemy && borne.contains(StatusTag::Buff),
        AbilityTag::ApplyCC => on_enemy && (borne.contains(StatusTag::HardCC) || borne.contains(
            StatusTag::SoftCC,
        )),
        AbilityTag::Peel => !on_enemy && lookup(defs, s.status@) is Some && lookup(
            defs,
            s.status@,
        )->0.forces_targeting,
        _ => false,
    }
}

/// No ability defends, controls or peels without a status that makes it do so.
pub proof fn law_no_tag_without_a_status<L: StatusTagLookup>(
    def: AbilityDef,
    table: L,
    defs: Seq<StatusDef>,
    tag: AbilityTag,
)
    requires
        tag is Defensive || tag is ApplyCC || tag is Peel,
        ability_tags(def, table, defs).contains(tag),
    ensures
        exists|i: int| causes(def, table, defs, tag, i),
{
    let applied = def.statuses@;
    let i = match tag {
        AbilityTag::Defensive => choose|i: int|
            0 <= i < applied.len() && lands_on_own_side(def.target_type, (#[trigger] applied[i]).on)
                && table.tags_of(applied[i].status@).contains(StatusTag::Buff),
        AbilityTag::ApplyCC => choose|i: int|
            0 <= i < applied.len() && lands_on_enemy(def.target_type, (#[trigger] applied[i]).on)
                && (table.tags_of(applied[i].status@).contains(StatusTag::HardCC) || table.tags_of(
                applied[i].status@,
            ).contains(StatusTag::SoftCC)),
        _ => choose|i: int|
            0 <= i < applied.len() && lands_on_own_side(def.target_type, (#[trigger] applied[i]).on)
                && forces_targeting(defs, applied[i].status@),
    };
    assert(causes(def, table, defs, tag, i));
}

} // verus!
