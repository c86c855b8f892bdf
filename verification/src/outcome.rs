//! What an ability does, before anything is applied.

use crate::content::{
    AbilityDef, DiceExpr, EffectDef, ResourceCost, ResourceKind, StatusApplication, StatusOn,
};
use crate::ids::Entity;
use crate::state::CritFailEffect;
use crate::text::{owned, push_decimal, to_decimal};
use vstd::prelude::*;
use vstd::string::StringExecFns;

verus! {

/// Something that rolls dice: the total, and its breakdown for the log.
pub trait DiceSource: Sized {
    /// Whether a roll of some dice, made by a source that was `before`, may show
    /// `total` with the breakdown `text` and leave the source as `after`. A source
    /// that does not say may show anything.
    open spec fn may_roll(
        before: Self,
        expr: DiceExpr,
        disadvantage: bool,
        after: Self,
        total: i32,
        text: Seq<char>,
    ) -> bool {
        true
    }

    fn roll_dice(&mut self, expr: &DiceExpr, disadvantage: bool) -> (r: (i32, String))
        ensures
            Self::may_roll(*old(self), *expr, disadvantage, *final(self), r.0, r.1@),
    ;
}

/// A dice source that always gives the mean of the dice.
#[derive(Debug)]
pub struct ExpectedValue;

/// A quotient of whole numbers.
pub struct Quotient {
    pub num: int,
    pub den: int,
}

/// The mean of some dice and their bonus. With disadvantage each die is rolled
/// twice and the lesser counts. A die without sides shows nothing.
pub open spec fn mean_of(expr: DiceExpr, disadvantage: bool) -> Quotient {
    let count = expr.count as int;
    let sides = expr.sides as int;
    let bonus = expr.bonus as int;
    if sides == 0 {
        Quotient { num: bonus, den: 1 }
    } else if disadvantage {
        Quotient {
            num: count * ((sides + 1) * (2 * sides + 1)) + (6 * sides) * bonus,
            den: 6 * sides,
        }
    } else {
        Quotient { num: count * (sides + 1) + 2 * bonus, den: 2 }
    }
}

/// The whole number nearest to a quotient; of two that are as near, the one
/// further from zero.
pub open spec fn nearest(q: Quotient) -> int {
    if q.num >= 0 {
        (2 * q.num + q.den) / (2 * q.den)
    } else {
        -((-2 * q.num + q.den) / (2 * q.den))
    }
}

/// The 32-bit number nearest to a number.
pub open spec fn clamped(i: int) -> i32 {
    if i < i32::MIN {
        i32::MIN
    } else if i > i32::MAX {
        i32::MAX
    } else {
        i as i32
    }
}

impl DiceSource for ExpectedValue {
    /// It shows the whole number nearest to the mean, and never changes.
    open spec fn may_roll(
        before: Self,
        expr: DiceExpr,
        disadvantage: bool,
        after: Self,
        total: i32,
        text: Seq<char>,
    ) -> bool {
        &&& total == clamped(nearest(mean_of(expr, disadvantage)))
        &&& text == Seq::<char>::empty()
        &&& after == before
    }

    fn roll_dice(&mut self, expr: &DiceExpr, disadvantage: bool) -> (r: (i32, String)) {
        let count: i128 = expr.count as i128;
        let sides: i128 = expr.sides as i128;
        let bonus: i128 = expr.bonus as i128;
        let ghost q = mean_of(*expr, disadvantage);
        let mut num: i128 = bonus;
        let mut den: i128 = 1;
        if sides > 0 && disadvantage {
            assert(0 <= (sides + 1) * (2 * sides + 1) <= 0x4_0000_0000_0000_0000)
                by (nonlinear_arith)
                requires
                    0 < sides <= 0xffff_ffff,
            ;
            let per_die: i128 = (sides + 1) * (2 * sides + 1);
            assert(0 <= count * per_die <= 0x4_0000_0000_0000_0000_0000_0000)
                by (nonlinear_arith)
                requires
                    0 <= count <= 0xffff_ffff,
                    0 <= per_die <= 0x4_0000_0000_0000_0000,
            ;
            assert(-0x6_0000_0000_0000_0000 <= (6 * sides) * bonus <= 0x6_0000_0000_0000_0000)
                by (nonlinear_arith)
                requires
                    0 < sides <= 0xffff_ffff,
                    -0x8000_0000 <= bonus <= 0x7fff_ffff,
            ;
            num = count * per_die + (6 * sides) * bonus;
            den = 6 * sides;
        } else if sides > 0 {
            assert(0 <= count * (sides + 1) <= 0x1_0000_0000_0000_0000) by (nonlinear_arith)
                requires
                    0 <= count <= 0xffff_ffff,
                    0 < sides <= 0xffff_ffff,
            ;
            num = count * (sides + 1) + 2 * bonus;
            den = 2;
        }
        assert(num == q.num && den == q.den);
        let total: i128 = if num >= 0 {
            (2 * num + den) / (2 * den)
        } else {
            -((-2 * num + den) / (2 * den))
        };
        let r: i32 = if total < i32::MIN as i128 {
            i32::MIN
        } else if total > i32::MAX as i128 {
            i32::MAX
        } else {
            total as i32
        };
        (r, String::new())
    }
}

/// The numbers of an ability in the hands of a caster.
#[derive(Clone, Copy, PartialEq, Eq, Structural, Debug)]
pub struct EffectCalc {
    pub dice: Option<DiceExpr>,
    pub bonus: i32,
    pub is_heal: bool,
    pub pierces_armor: bool,
}

/// How a cast failed critically, if it did.
#[derive(Debug)]
pub enum CritOutcome {
    /// The cast did not fail.
    Normal,
    /// It failed without further consequence.
    Miss,
    /// It failed and put a status on the caster.
    SelfStatus { status: String, duration_rounds: u32, log_description: String },
    /// It failed and hurt the caster.
    SelfDamage { amount: i32, damage_breakdown: String, log_description: String },
    /// It works, but costs twice the mana.
    ManaOverload,
}

/// The direct effect of a cast.
#[derive(Debug)]
pub enum OutcomePrimary {
    /// Raw damage to each affected target.
    Damage { raw: i32, pierces_armor: bool },
    /// Healing of each affected target.
    Heal { amount: i32 },
    GrantMovement { distance: i32 },
    RestoreResources,
    Summon { template: String, max_active: Option<u32> },
    /// No direct effect.
    Nothing,
}

/// A status that a cast puts on someone.
#[derive(Debug)]
pub struct StatusApply {
    pub target: Entity,
    pub status: String,
    pub duration_rounds: u32,
}

/// All that a cast does.
#[derive(Debug)]
pub struct AbilityOutcome {
    pub affected: Vec<Entity>,
    pub primary: OutcomePrimary,
    pub statuses: Vec<StatusApply>,
    /// How the number came about, for the log.
    pub breakdown: String,
    pub crit: CritOutcome,
}

impl CritOutcome {
    /// Whether the failure suppresses the effect and the statuses.
    pub open spec fn suppresses(&self) -> bool {
        self is Miss || self is SelfStatus || self is SelfDamage
    }

    /// Whether the failure suppresses the effect and the statuses.
    pub fn skips_primary(&self) -> (r: bool)
        ensures
            r == self.suppresses(),
    {
        match self {
            CritOutcome::Miss => true,
            CritOutcome::SelfStatus { .. } => true,
            CritOutcome::SelfDamage { .. } => true,
            _ => false,
        }
    }

    /// Whether the mana cost is doubled.
    pub fn is_mana_overload(&self) -> (r: bool)
        ensures
            r == (self is ManaOverload),
    {
        match self {
            CritOutcome::ManaOverload => true,
            _ => false,
        }
    }
}

/// The mana that a list of costs asks for.
pub open spec fn mana_cost(costs: Seq<ResourceCost>) -> int
    decreases costs.len(),
{
    if costs.len() == 0 {
        0
    } else {
        mana_cost(costs.drop_last()) + (if costs.last().resource is Mana {
            costs.last().amount as int
        } else {
            0
        })
    }
}

/// Whether the mana costs can be added up: no partial sum leaves 32 bits, nor
/// does the total plus one.
pub open spec fn mana_cost_fits(costs: Seq<ResourceCost>) -> bool {
    &&& forall|n: int|
        0 <= n <= costs.len() ==> i32::MIN <= #[trigger] mana_cost(costs.take(n)) <= i32::MAX
    &&& mana_cost(costs) < i32::MAX
}

/// Adds up the mana that a list of costs asks for.
fn total_mana_cost(costs: &Vec<ResourceCost>) -> (r: i32)
    requires
        mana_cost_fits(costs@),
    ensures
        r == mana_cost(costs@),
{
    let mut r: i32 = 0;
    let mut i: usize = 0;
    assert(costs@.take(0) =~= Seq::empty());
    while i < costs.len()
        invariant
            i <= costs.len(),
            mana_cost_fits(costs@),
            r == mana_cost(costs@.take(i as int)),
        decreases costs.len() - i,
    {
        assert(costs@.take(i + 1).drop_last() =~= costs@.take(i as int));
        assert(i32::MIN <= mana_cost(costs@.take(i + 1)) <= i32::MAX);
        if costs[i].resource == ResourceKind::Mana {
            r = r + costs[i].amount;
        }
        i = i + 1;
    }
    assert(costs@.take(i as int) =~= costs@);
    r
}

/// Half of `n`, rounded towards zero.
pub open spec fn half_towards_zero(n: int) -> int {
    if n >= 0 {
        n / 2
    } else {
        -((-n) / 2)
    }
}

/// The hit points that a breach of the circuit costs: half of the mana,
/// rounded up.
pub open spec fn breach_damage(mana: int) -> int {
    half_towards_zero(mana + 1)
}

/// Whether `crit` is the status `id` on the caster, for `rounds` rounds.
pub open spec fn is_self_status(
    crit: CritOutcome,
    id: Seq<char>,
    rounds: u32,
    description: Seq<char>,
) -> bool {
    crit matches CritOutcome::SelfStatus { status, duration_rounds, log_description } && status@
        == id && duration_rounds == rounds && log_description@ == description
}

/// Whether `crit` is what a failure of kind `effect` leads to at a given mana
/// cost. An overload needs mana to double; without any it is a plain miss.
pub open spec fn fails_as(crit: CritOutcome, effect: CritFailEffect, mana: int) -> bool {
    match effect {
        CritFailEffect::Miss => crit is Miss,
        CritFailEffect::ManaOverload => if mana > 0 {
            crit is ManaOverload
        } else {
            crit is Miss
        },
        CritFailEffect::BrokenFaith => is_self_status(
            crit,
            "broken_faith"@,
            1,
            "Сломленная вера — магия заблокирована на 1 ход"@,
        ),
        CritFailEffect::CircuitBreach => crit matches CritOutcome::SelfDamage {
            amount,
            damage_breakdown,
            log_description,
        } && amount == breach_damage(mana) && damage_breakdown@ == "разгерметизация: "@
            + crate::text::decimal(mana) + "/2="@ + crate::text::decimal(amount as int)
            && log_description@ == "Разгерметизация контура — "@ + crate::text::decimal(
            amount as int,
        ) + " урона себе"@,
        CritFailEffect::Exhaustion => is_self_status(
            crit,
            "exhaustion"@,
            2,
            "Телесный откат — истощение на 2 хода"@,
        ),
        CritFailEffect::PactControl => is_self_status(
            crit,
            "pact_control"@,
            1,
            "Власть договора — AI управляет на 1 ход"@,
        ),
    }
}

/// What a failure leads to at a given mana cost.
pub fn map_crit_fail(effect: CritFailEffect, mana: i32) -> (r: CritOutcome)
    requires
        mana < i32::MAX,
    ensures
        fails_as(r, effect, mana as int),
{
    match effect {
        CritFailEffect::Miss => CritOutcome::Miss,
        CritFailEffect::ManaOverload => {
            if mana > 0 {
                CritOutcome::ManaOverload
            } else {
                CritOutcome::Miss
            }
        },
        CritFailEffect::BrokenFaith => CritOutcome::SelfStatus {
            status: owned("broken_faith"),
            duration_rounds: 1,
            log_description: owned("Сломленная вера — магия заблокирована на 1 ход"),
        },
        CritFailEffect::CircuitBreach => {
            let amount: i32 = if mana + 1 >= 0 {
                (mana + 1) / 2
            } else {
                -((-(mana + 1)) / 2)
            };
            let mut breakdown = owned("разгерметизация: ");
            push_decimal(&mut breakdown, mana as i64);
            breakdown.append("/2=");
            push_decimal(&mut breakdown, amount as i64);
            let mut description = owned("Разгерметизация контура — ");
            push_decimal(&mut description, amount as i64);
            description.append(" урона себе");
            CritOutcome::SelfDamage {
                amount,
                damage_breakdown: breakdown,
                log_description: description,
            }
        },
        CritFailEffect::Exhaustion => CritOutcome::SelfStatus {
            status: owned("exhaustion"),
            duration_rounds: 2,
            log_description: owned("Телесный откат — истощение на 2 хода"),
        },
        CritFailEffect::PactControl => CritOutcome::SelfStatus {
            status: owned("pact_control"),
            duration_rounds: 1,
            log_description: owned("Власть договора — AI управляет на 1 ход"),
        },
    }
}

/// The text of a roll: the dice where there are any, the bonus where there is
/// one, and the total.
pub open spec fn breakdown_text(dice: Seq<char>, bonus: int, total: int) -> Seq<char> {
    if dice.len() == 0 {
        crate::text::decimal(total)
    } else if bonus == 0 {
        dice + " = "@ + crate::text::decimal(total)
    } else {
        dice + " + "@ + crate::text::decimal(bonus) + " = "@ + crate::text::decimal(total)
    }
}

/// The text of a roll.
pub fn effect_breakdown(dice_str: &String, bonus: i32, total: i32) -> (r: String)
    ensures
        r@ == breakdown_text(dice_str@, bonus as int, total as int),
{
    if dice_str.as_str().is_empty() {
        return to_decimal(total as i64);
    }
    let mut r = dice_str.clone();
    if bonus != 0 {
        r.append(" + ");
        push_decimal(&mut r, bonus as i64);
    }
    r.append(" = ");
    push_decimal(&mut r, total as i64);
    r
}

/// The statuses of one application: on each affected target, or on the actor.
pub open spec fn applied_one(
    app: StatusApplication,
    actor: Entity,
    affected: Seq<Entity>,
) -> Seq<StatusApply> {
    match app.on {
        StatusOn::Target => Seq::new(
            affected.len(),
            |i: int|
                StatusApply {
                    target: affected[i],
                    status: app.status,
                    duration_rounds: app.duration_rounds,
                },
        ),
        StatusOn::MySelf => seq![
            StatusApply {
                target: actor,
                status: app.status,
                duration_rounds: app.duration_rounds,
            },
        ],
    }
}

/// The statuses of all applications, in order.
pub open spec fn applied(
    apps: Seq<StatusApplication>,
    actor: Entity,
    affected: Seq<Entity>,
) -> Seq<StatusApply>
    decreases apps.len(),
{
    if apps.len() == 0 {
        Seq::empty()
    } else {
        applied(apps.drop_last(), actor, affected) + applied_one(apps.last(), actor, affected)
    }
}

fn apply_statuses(
    apps: &Vec<StatusApplication>,
    actor: Entity,
    affected: &Vec<Entity>,
) -> (r: Vec<StatusApply>)
    ensures
        r@ == applied(apps@, actor, affected@),
{
    let mut r: Vec<StatusApply> = Vec::new();
    let mut i: usize = 0;
    assert(apps@.take(0) =~= Seq::empty());
    while i < apps.len()
        invariant
            i <= apps.len(),
            r@ == applied(apps@.take(i as int), actor, affected@),
        decreases apps.len() - i,
    {
        let app = &apps[i];
        let ghost before = r@;
        match app.on {
            StatusOn::Target => {
                let mut k: usize = 0;
                while k < affected.len()
                    invariant
                        k <= affected.len(),
                        app.on is Target,
                        r@ == before + applied_one(*app, actor, affected@).take(k as int),
                    decreases affected.len() - k,
                {
                    r.push(
                        StatusApply {
                            target: affected[k],
                            status: app.status.clone(),
                            duration_rounds: app.duration_rounds,
                        },
                    );
                    assert(r@ =~= before + applied_one(*app, actor, affected@).take(k + 1));
                    k = k + 1;
                }
                assert(r@ =~= before + applied_one(*app, actor, affected@));
            },
            StatusOn::MySelf => {
                r.push(
                    StatusApply {
                        target: actor,
                        status: app.status.clone(),
                        duration_rounds: app.duration_rounds,
                    },
                );
                assert(r@ =~= before + applied_one(*app, actor, affected@));
            },
        }
        assert(apps@.take(i + 1).drop_last() =~= apps@.take(i as int));
        i = i + 1;
    }
    assert(apps@.take(i as int) =~= apps@);
    r
}

/// Whether `primary` is the direct effect of an ability whose roll came to
/// `roll`.
pub open spec fn primary_of(
    primary: OutcomePrimary,
    effect: EffectDef,
    calc: Option<EffectCalc>,
    roll: int,
) -> bool {
    match calc {
        Some(c) => if c.is_heal {
            primary matches OutcomePrimary::Heal { amount } && amount == roll + c.bonus
        } else {
            primary matches OutcomePrimary::Damage { raw, pierces_armor } && raw == roll + c.bonus
                && pierces_armor == c.pierces_armor
        },
        None => match effect {
            EffectDef::GrantMovement { distance } => primary == (OutcomePrimary::GrantMovement {
                distance,
            }),
            EffectDef::RestoreResources => primary is RestoreResources,
            EffectDef::Summon { template_id, max_active } => primary == (OutcomePrimary::Summon {
                template: template_id,
                max_active,
            }),
            _ => primary is Nothing,
        },
    }
}

/// Whether `o` is the outcome of a cast that was resolved with the given roll.
pub open spec fn is_outcome(
    o: AbilityOutcome,
    actor: Entity,
    def: AbilityDef,
    affected: Seq<Entity>,
    calc: Option<EffectCalc>,
    crit_failed: bool,
    crit_fail_effect: CritFailEffect,
    roll: int,
    dice: Seq<char>,
) -> bool {
    &&& if crit_failed {
        fails_as(o.crit, crit_fail_effect, mana_cost(def.costs@))
    } else {
        o.crit is Normal
    }
    &&& if o.crit.suppresses() {
        &&& o.affected@.len() == 0
        &&& o.primary is Nothing
        &&& o.statuses@.len() == 0
        &&& o.breakdown@.len() == 0
    } else {
        &&& o.affected@ == affected
        &&& primary_of(o.primary, def.effect, calc, roll)
        &&& o.statuses@ == applied(def.statuses@, actor, affected)
        &&& o.breakdown@ == (match calc {
            Some(c) => breakdown_text(dice, c.bonus as int, roll + c.bonus),
            None => Seq::<char>::empty(),
        })
    }
}

/// Whether a cast has its effect: it did not fail, or it merely costs more.
pub open spec fn has_effect(
    def: AbilityDef,
    crit_failed: bool,
    crit_fail_effect: CritFailEffect,
) -> bool {
    crit_failed ==> crit_fail_effect is ManaOverload && mana_cost(def.costs@) > 0
}

/// Whether roll and bonus add up within 32 bits.
pub open spec fn sum_fits(calc: Option<EffectCalc>, roll: i32) -> bool {
    calc matches Some(c) ==> i32::MIN <= roll + c.bonus <= i32::MAX
}

/// Whether `r` is what a cast comes to that was resolved with the given roll:
/// nothing when roll and bonus are added up and leave 32 bits, and an outcome
/// in every other case.
pub open spec fn is_resolved(
    r: Option<AbilityOutcome>,
    actor: Entity,
    def: AbilityDef,
    affected: Seq<Entity>,
    calc: Option<EffectCalc>,
    crit_failed: bool,
    crit_fail_effect: CritFailEffect,
    roll: i32,
    dice: Seq<char>,
) -> bool {
    let is_owed = has_effect(def, crit_failed, crit_fail_effect) ==> sum_fits(calc, roll);
    match r {
        Some(o) => is_owed && is_outcome(
            o,
            actor,
            def,
            affected,
            calc,
            crit_failed,
            crit_fail_effect,
            roll as int,
            dice,
        ),
        None => !is_owed,
    }
}

/// Resolves a cast whose dice, where it has any, came to `roll`. The result is
/// `None` when the cast has its effect and the sum of roll and bonus leaves 32
/// bits, and only then.
pub fn resolve_outcome(
    actor: Entity,
    def: &AbilityDef,
    affected: Vec<Entity>,
    calc: Option<EffectCalc>,
    crit_failed: bool,
    crit_fail_effect: CritFailEffect,
    roll: i32,
    dice_str: &String,
) -> (r: Option<AbilityOutcome>)
    requires
        mana_cost_fits(def.costs@),
    ensures
        is_resolved(
            r,
            actor,
            *def,
            affected@,
            calc,
            crit_failed,
            crit_fail_effect,
            roll,
            dice_str@,
        ),
{
    let mana: i32 = total_mana_cost(&def.costs);
    let crit = if crit_failed {
        map_crit_fail(crit_fail_effect, mana)
    } else {
        CritOutcome::Normal
    };
    if crit.skips_primary() {
        return Some(
            AbilityOutcome {
                affected: Vec::new(),
                primary: OutcomePrimary::Nothing,
                statuses: Vec::new(),
                breakdown: String::new(),
                crit,
            },
        );
    }
    let (primary, breakdown) = match calc {
        Some(c) => {
            let raw: i32 = match roll.checked_add(c.bonus) {
                Some(sum) => sum,
                None => {
                    return None;
                },
            };
            let text = effect_breakdown(dice_str, c.bonus, raw);
            if c.is_heal {
                (OutcomePrimary::Heal { amount: raw }, text)
            } else {
                (OutcomePrimary::Damage { raw, pierces_armor: c.pierces_armor }, text)
            }
        },
        None => {
            let p = match &def.effect {
                EffectDef::GrantMovement { distance } => OutcomePrimary::GrantMovement {
                    distance: *distance,
                },
                EffectDef::RestoreResources => OutcomePrimary::RestoreResources,
                EffectDef::Summon { template_id, max_active } => OutcomePrimary::Summon {
                    template: template_id.clone(),
                    max_active: *max_active,
                },
                _ => OutcomePrimary::Nothing,
            };
            (p, String::new())
        },
    };
    assert(breakdown@ =~= (match calc {
        Some(c) => breakdown_text(dice_str@, c.bonus as int, roll + c.bonus),
        None => Seq::<char>::empty(),
    }));
    let statuses = apply_statuses(&def.statuses, actor, &affected);
    Some(AbilityOutcome { affected, primary, statuses, breakdown, crit })
}

/// Whether a cast rolls dice: it has some, and has its effect.
pub open spec fn rolls_dice(
    def: AbilityDef,
    calc: Option<EffectCalc>,
    crit_failed: bool,
    crit_fail_effect: CritFailEffect,
) -> bool {
    &&& calc matches Some(c) && c.dice is Some
    &&& has_effect(def, crit_failed, crit_fail_effect)
}

/// Whether a cast's dice may show `roll`, with the breakdown `dice`: its own dice,
/// rolled once by `before` with the given disadvantage, which leaves `after`. A
/// cast that rolls none counts a roll of zero and leaves the source alone.
pub open spec fn is_rolled<R: DiceSource>(
    before: R,
    after: R,
    def: AbilityDef,
    calc: Option<EffectCalc>,
    disadvantage: bool,
    crit_failed: bool,
    crit_fail_effect: CritFailEffect,
    roll: i32,
    dice: Seq<char>,
) -> bool {
    if rolls_dice(def, calc, crit_failed, crit_fail_effect) {
        R::may_roll(before, calc->0.dice->0, disadvantage, after, roll, dice)
    } else {
        roll == 0 && dice.len() == 0 && after == before
    }
}

/// Whether `r` is what a cast may come to whose dice are rolled by `before`, which
/// leaves `after`.
pub open spec fn is_cast<R: DiceSource>(
    r: Option<AbilityOutcome>,
    before: R,
    after: R,
    actor: Entity,
    def: AbilityDef,
    affected: Seq<Entity>,
    calc: Option<EffectCalc>,
    disadvantage: bool,
    crit_failed: bool,
    crit_fail_effect: CritFailEffect,
) -> bool {
    exists|roll: i32, dice: Seq<char>|
        #![trigger is_resolved(
            r,
            actor,
            def,
            affected,
            calc,
            crit_failed,
            crit_fail_effect,
            roll,
            dice,
        )]
        is_rolled(
            before,
            after,
            def,
            calc,
            disadvantage,
            crit_failed,
            crit_fail_effect,
            roll,
            dice,
        ) && is_resolved(
            r,
            actor,
            def,
            affected,
            calc,
            crit_failed,
            crit_fail_effect,
            roll,
            dice,
        )
}

/// Resolves a cast, rolling its dice with `rng` where it rolls any; a cast that
/// rolls none counts a roll of zero and leaves `rng` alone. The result is `None`
/// when the sum of a roll and the bonus leaves 32 bits, and only then.
pub fn compute_ability_outcome<R: DiceSource>(
    actor: Entity,
    def: &AbilityDef,
    affected: Vec<Entity>,
    calc: Option<EffectCalc>,
    disadvantage: bool,
    crit_failed: bool,
    crit_fail_effect: CritFailEffect,
    rng: &mut R,
) -> (r: Option<AbilityOutcome>)
    requires
        mana_cost_fits(def.costs@),
    ensures
        is_cast(
            r,
            *old(rng),
            *final(rng),
            actor,
            *def,
            affected@,
            calc,
            disadvantage,
            crit_failed,
            crit_fail_effect,
        ),
        !rolls_dice(*def, calc, crit_failed, crit_fail_effect) ==> r is Some,
{
    let overload = crit_fail_effect == CritFailEffect::ManaOverload && total_mana_cost(&def.costs)
        > 0;
    let dice: Option<DiceExpr> = match calc {
        Some(c) => if crit_failed && !overload {
            None
        } else {
            c.dice
        },
        None => None,
    };
    assert(rolls_dice(*def, calc, crit_failed, crit_fail_effect) == dice is Some);
    let (roll, dice_str) = match dice {
        Some(d) => rng.roll_dice(&d, disadvantage),
        None => (0i32, String::new()),
    };
    assert(is_rolled(
        *old(rng),
        *rng,
        *def,
        calc,
        disadvantage,
        crit_failed,
        crit_fail_effect,
        roll,
        dice_str@,
    ));
    resolve_outcome(
        actor,
        def,
        affected,
        calc,
        crit_failed,
        crit_fail_effect,
        roll,
        &dice_str,
    )
}

/// The expected value of dice lies within half a point of their mean.
pub proof fn law_expected_is_near_the_mean(expr: DiceExpr, disadvantage: bool)
    ensures
        ({
            let q = mean_of(expr, disadvantage);
            let r = nearest(q);
            &&& q.den > 0
            &&& -q.den <= 2 * (q.num - r * q.den) <= q.den
        }),
{
    let q = mean_of(expr, disadvantage);
    let den = q.den;
    let d = 2 * den;
    let x = if q.num >= 0 {
        2 * q.num + den
    } else {
        -2 * q.num + den
    };
    let k = x / d;
    assert(d * k <= x < d * k + d) by (nonlinear_arith)
        requires
            d > 0,
            k == x / d,
    ;
    let r = nearest(q);
    assert(2 * (k * den) == d * k) by (nonlinear_arith)
        requires
            d == 2 * den,
    ;
    assert((-k) * den == -(k * den)) by (nonlinear_arith);
}

/// A failure that suppresses the effect leaves nothing to apply; one that does
/// not (an overload) leaves what a normal cast would, down to the breakdown. In a
/// cast that did not fail the kind of failure plays no part.
pub proof fn law_crit_keeps_or_drops_everything(
    o: AbilityOutcome,
    normal: AbilityOutcome,
    actor: Entity,
    def: AbilityDef,
    affected: Seq<Entity>,
    calc: Option<EffectCalc>,
    effect: CritFailEffect,
    other: CritFailEffect,
    roll: int,
    dice: Seq<char>,
)
    requires
        is_outcome(o, actor, def, affected, calc, true, effect, roll, dice),
        is_outcome(normal, actor, def, affected, calc, false, other, roll, dice),
    ensures
        o.crit.suppresses() ==> o.affected@.len() == 0 && o.statuses@.len() == 0
            && o.primary is Nothing && o.breakdown@.len() == 0,
        o.crit is ManaOverload ==> same_payload(o, normal) && mana_cost(def.costs@) > 0,
        o.crit.suppresses() <==> !(o.crit is ManaOverload),
        normal.crit is Normal,
        !normal.crit.suppresses(),
        is_outcome(normal, actor, def, affected, calc, false, effect, roll, dice),
{
}

/// Whether two casts do the same to the same targets, and tell of it alike.
pub open spec fn same_payload(a: AbilityOutcome, b: AbilityOutcome) -> bool {
    &&& a.affected@ == b.affected@
    &&& a.primary == b.primary
    &&& a.statuses@ == b.statuses@
    &&& a.breakdown@ == b.breakdown@
}

/// Whether a roll of a dice source is settled by its state: whatever it may show,
/// it shows nothing else.
pub open spec fn is_settled<R: DiceSource>(rng: R, expr: DiceExpr, disadvantage: bool) -> bool {
    forall|a: R, m: i32, s: Seq<char>, b: R, n: i32, t: Seq<char>|
        #![trigger R::may_roll(rng, expr, disadvantage, a, m, s), R::may_roll(
            rng,
            expr,
            disadvantage,
            b,
            n,
            t,
        )]
        R::may_roll(rng, expr, disadvantage, a, m, s) && R::may_roll(
            rng,
            expr,
            disadvantage,
            b,
            n,
            t,
        ) ==> m == n && s == t
}

/// An overload differs from a cast that did not fail in nothing but its mark: made
/// from the same state of dice whose roll that state settles, both come to the
/// same, whatever kind of failure the other was told of.
pub proof fn law_overload_casts_as_usual<R: DiceSource>(
    overload: Option<AbilityOutcome>,
    usual: Option<AbilityOutcome>,
    rng: R,
    after: R,
    after_usual: R,
    actor: Entity,
    def: AbilityDef,
    affected: Seq<Entity>,
    calc: Option<EffectCalc>,
    disadvantage: bool,
    other: CritFailEffect,
)
    requires
        mana_cost(def.costs@) > 0,
        calc matches Some(c) ==> (c.dice matches Some(d) ==> is_settled(rng, d, disadvantage)),
        is_cast(
            overload,
            rng,
            after,
            actor,
            def,
            affected,
            calc,
            disadvantage,
            true,
            CritFailEffect::ManaOverload,
        ),
        is_cast(
            usual,
            rng,
            after_usual,
            actor,
            def,
            affected,
            calc,
            disadvantage,
            false,
            other,
        ),
    ensures
        overload is Some <==> usual is Some,
        overload is Some ==> {
            &&& same_payload(overload->0, usual->0)
            &&& overload->0.crit is ManaOverload
            &&& usual->0.crit is Normal
        },
{
}

/// The mean of dice is settled.
pub proof fn law_expected_is_settled(expr: DiceExpr, disadvantage: bool)
    ensures
        is_settled(ExpectedValue, expr, disadvantage),
{
}

/// A cast puts each of its target statuses on every affected target and each of
/// its self statuses on the actor: as many statuses as that makes.
pub proof fn law_status_count(apps: Seq<StatusApplication>, actor: Entity, affected: Seq<Entity>)
    ensures
        forall|i: int|
            0 <= i < applied(apps, actor, affected).len() ==> {
                let a = #[trigger] applied(apps, actor, affected)[i];
                a.target == actor || affected.contains(a.target)
            },
        affected.len() == 1 ==> applied(apps, actor, affected).len() == apps.len(),
    decreases apps.len(),
{
    if apps.len() > 0 {
        law_status_count(apps.drop_last(), actor, affected);
        let before = applied(apps.drop_last(), actor, affected);
        let last = applied_one(apps.last(), actor, affected);
        assert forall|i: int| 0 <= i < applied(apps, actor, affected).len() implies {
            let a = #[trigger] applied(apps, actor, affected)[i];
            a.target == actor || affected.contains(a.target)
        } by {
            if i >= before.len() {
                assert(applied(apps, actor, affected)[i] == last[i - before.len()]);
            } else {
                assert(applied(apps, actor, affected)[i] == before[i]);
            }
        }
    }
}

/// The number of a direct effect, be it damage or healing.
pub open spec fn amount_dealt(o: AbilityOutcome) -> int {
    match o.primary {
        OutcomePrimary::Damage { raw, .. } => raw as int,
        OutcomePrimary::Heal { amount } => amount as int,
        _ => 0,
    }
}

/// A cast that rolls dice does what they show and its bonus, be it damage or healing,
/// to all that it affects; and its breakdown ends in that very number.
pub proof fn law_dice_and_bonus_count(
    o: AbilityOutcome,
    actor: Entity,
    def: AbilityDef,
    affected: Seq<Entity>,
    calc: EffectCalc,
    roll: i32,
    dice: Seq<char>,
)
    requires
        is_resolved(
            Some(o),
            actor,
            def,
            affected,
            Some(calc),
            false,
            CritFailEffect::Miss,
            roll,
            dice,
        ),
    ensures
        amount_dealt(o) == roll + calc.bonus,
        calc.is_heal <==> o.primary is Heal,
        !calc.is_heal ==> (o.primary matches OutcomePrimary::Damage { pierces_armor, .. }
            && pierces_armor == calc.pierces_armor),
        o.affected@ == affected,
        o.crit is Normal,
        o.breakdown@.len() >= crate::text::decimal(amount_dealt(o)).len(),
        o.breakdown@.skip(o.breakdown@.len() - crate::text::decimal(amount_dealt(o)).len())
            == crate::text::decimal(amount_dealt(o)),
{
    let total = crate::text::decimal(amount_dealt(o));
    assert(o.breakdown@.skip(o.breakdown@.len() - total.len()) =~= total);
}

/// Each point more that the dice show is a point more of damage or healing; and what
/// an ability would hurt for, it heals for where it heals.
pub proof fn law_better_roll_does_more(
    low: AbilityOutcome,
    high: AbilityOutcome,
    actor: Entity,
    def: AbilityDef,
    affected: Seq<Entity>,
    calc: EffectCalc,
    other: EffectCalc,
    roll: i32,
    more: i32,
    dice: Seq<char>,
    dice_more: Seq<char>,
    crit_failed: bool,
    effect: CritFailEffect,
)
    requires
        other.bonus == calc.bonus,
        has_effect(def, crit_failed, effect),
        is_resolved(
            Some(low),
            actor,
            def,
            affected,
            Some(calc),
            crit_failed,
            effect,
            roll,
            dice,
        ),
        is_resolved(
            Some(high),
            actor,
            def,
            affected,
            Some(other),
            crit_failed,
            effect,
            more,
            dice_more,
        ),
    ensures
        amount_dealt(high) - amount_dealt(low) == more - roll,
        low.statuses@ == high.statuses@,
        low.affected@ == high.affected@,
{
}

/// A cast that fails critically and is no overload does nothing to anybody: it
/// affects no one, has no effect and no statuses. One that does not fail, or that is
/// overloaded, has its effect in full.
pub proof fn law_failed_cast_does_nothing(
    o: AbilityOutcome,
    actor: Entity,
    def: AbilityDef,
    affected: Seq<Entity>,
    calc: Option<EffectCalc>,
    crit_failed: bool,
    effect: CritFailEffect,
    roll: i32,
    dice: Seq<char>,
)
    requires
        is_resolved(Some(o), actor, def, affected, calc, crit_failed, effect, roll, dice),
    ensures
        !crit_failed ==> o.crit is Normal && o.affected@ == affected,
        crit_failed && effect is ManaOverload && mana_cost(def.costs@) > 0 ==> o.crit
            is ManaOverload && o.affected@ == affected,
        crit_failed && effect is ManaOverload && mana_cost(def.costs@) <= 0 ==> o.crit is Miss,
        crit_failed && effect is Miss ==> o.crit is Miss,
        crit_failed && effect is CircuitBreach ==> (o.crit matches CritOutcome::SelfDamage {
            amount,
            ..
        } && (mana_cost(def.costs@) >= 0 ==> mana_cost(def.costs@) <= 2 * amount
            <= mana_cost(def.costs@) + 1)),
        crit_failed && (effect is BrokenFaith || effect is Exhaustion || effect is PactControl)
            ==> o.crit is SelfStatus,
        crit_failed && !(o.crit is ManaOverload) ==> o.affected@.len() == 0 && o.primary is Nothing
            && o.statuses@.len() == 0 && o.breakdown@.len() == 0,
{
}

/// Each way to fail leaves a mark of its own on the caster, for its own time: broken
/// faith and the pact for a round, exhaustion for two.
pub proof fn law_failures_are_told_apart(a: CritOutcome, b: CritOutcome, c: CritOutcome, mana: int)
    requires
        fails_as(a, CritFailEffect::BrokenFaith, mana),
        fails_as(b, CritFailEffect::Exhaustion, mana),
        fails_as(c, CritFailEffect::PactControl, mana),
    ensures
        a->SelfStatus_status@ == "broken_faith"@,
        b->SelfStatus_status@ == "exhaustion"@,
        c->SelfStatus_status@ == "pact_control"@,
        a->SelfStatus_duration_rounds == 1,
        b->SelfStatus_duration_rounds == 2,
        c->SelfStatus_duration_rounds == 1,
{
}

/// An ability without numbers grants the movement, restores, or summons just what its
/// definition says, and nothing else.
pub proof fn law_plain_effects(
    o: AbilityOutcome,
    actor: Entity,
    def: AbilityDef,
    affected: Seq<Entity>,
    roll: i32,
    dice: Seq<char>,
)
    requires
        is_resolved(
            Some(o),
            actor,
            def,
            affected,
            None,
            false,
            CritFailEffect::Miss,
            roll,
            dice,
        ),
    ensures
        o.primary matches OutcomePrimary::GrantMovement { distance } ==> def.effect
            == (EffectDef::GrantMovement { distance }),
        def.effect matches EffectDef::GrantMovement { distance } ==> o.primary
            == (OutcomePrimary::GrantMovement { distance }),
        o.primary is RestoreResources <==> def.effect is RestoreResources,
        def.effect matches EffectDef::Summon { template_id, max_active } ==> o.primary
            == (OutcomePrimary::Summon { template: template_id, max_active }),
        o.primary is Summon ==> def.effect is Summon,
        !(o.primary is Damage) && !(o.primary is Heal),
        o.breakdown@.len() == 0,
{
}

/// A status for targets is put on each of them, and one for the caster on the caster
/// alone; each lasts as long as the ability says, and nothing else is put on anybody.
pub proof fn law_statuses_go_where_they_belong(
    apps: Seq<StatusApplication>,
    actor: Entity,
    affected: Seq<Entity>,
)
    ensures
        forall|i: int, t: Entity|
            #![trigger apps[i], affected.contains(t)]
            0 <= i < apps.len() && apps[i].on is Target && affected.contains(t) ==> applied(
                apps,
                actor,
                affected,
            ).contains(
                StatusApply {
                    target: t,
                    status: apps[i].status,
                    duration_rounds: apps[i].duration_rounds,
                },
            ),
        forall|i: int|
            0 <= i < apps.len() && (#[trigger] apps[i]).on is MySelf ==> applied(
                apps,
                actor,
                affected,
            ).contains(
                StatusApply {
                    target: actor,
                    status: apps[i].status,
                    duration_rounds: apps[i].duration_rounds,
                },
            ),
        forall|k: int|
            0 <= k < applied(apps, actor, affected).len() ==> is_asked_for(
                #[trigger] applied(apps, actor, affected)[k],
                apps,
                actor,
                affected,
            ),
    decreases apps.len(),
{
    let all = applied(apps, actor, affected);
    if apps.len() > 0 {
        let rest = apps.drop_last();
        let before = applied(rest, actor, affected);
        let own = applied_one(apps.last(), actor, affected);
        law_statuses_go_where_they_belong(rest, actor, affected);
        assert forall|i: int, t: Entity|
            #![trigger apps[i], affected.contains(t)]
            0 <= i < apps.len() && apps[i].on is Target && affected.contains(t) implies all.contains(
            StatusApply {
                target: t,
                status: apps[i].status,
                duration_rounds: apps[i].duration_rounds,
            },
        ) by {
            let s = StatusApply {
                target: t,
                status: apps[i].status,
                duration_rounds: apps[i].duration_rounds,
            };
            if i < rest.len() {
                assert(rest[i] == apps[i]);
                let k = choose|k: int| 0 <= k < before.len() && before[k] == s;
                assert(all[k] == s);
            } else {
                let k = choose|k: int| 0 <= k < affected.len() && affected[k] == t;
                assert(own[k] == s);
                assert(all[before.len() + k] == s);
            }
        }
        assert forall|i: int| 0 <= i < apps.len() && (#[trigger] apps[i]).on is MySelf implies all.contains(
            StatusApply {
                target: actor,
                status: apps[i].status,
                duration_rounds: apps[i].duration_rounds,
            },
        ) by {
            let s = StatusApply {
                target: actor,
                status: apps[i].status,
                duration_rounds: apps[i].duration_rounds,
            };
            if i < rest.len() {
                assert(rest[i] == apps[i]);
                let k = choose|k: int| 0 <= k < before.len() && before[k] == s;
                assert(all[k] == s);
            } else {
                assert(all[before.len() as int] == s);
            }
        }
        assert forall|k: int| 0 <= k < all.len() implies is_asked_for(
            #[trigger] all[k],
            apps,
            actor,
            affected,
        ) by {
            if k < before.len() {
                assert(all[k] == before[k]);
                assert(is_asked_for(before[k], rest, actor, affected));
                let i = choose|i: int| is_asked_by(before[k], rest, i, actor, affected);
                assert(rest[i] == apps[i]);
                assert(is_asked_by(all[k], apps, i, actor, affected));
            } else {
                assert(all[k] == own[k - before.len()]);
                if apps.last().on is Target {
                    assert(affected.contains(affected[k - before.len()]));
                }
                assert(is_asked_by(all[k], apps, apps.len() - 1, actor, affected));
            }
        }
    }
}

/// Whether application `i` asks for a status: on an affected target, or on the actor.
pub open spec fn is_asked_by(
    s: StatusApply,
    apps: Seq<StatusApplication>,
    i: int,
    actor: Entity,
    affected: Seq<Entity>,
) -> bool {
    &&& 0 <= i < apps.len()
    &&& s.status == apps[i].status
    &&& s.duration_rounds == apps[i].duration_rounds
    &&& match apps[i].on {
        StatusOn::Target => affected.contains(s.target),
        StatusOn::MySelf => s.target == actor,
    }
}

/// Whether some application asks for a status.
pub open spec fn is_asked_for(
    s: StatusApply,
    apps: Seq<StatusApplication>,
    actor: Entity,
    affected: Seq<Entity>,
) -> bool {
    exists|i: int| is_asked_by(s, apps, i, actor, affected)
}

/// Only costs in mana count as mana, and they add up.
pub proof fn law_mana_costs_add_up(a: Seq<ResourceCost>, b: Seq<ResourceCost>, c: ResourceCost)
    ensures
        mana_cost(a + b) == mana_cost(a) + mana_cost(b),
        c.resource is Mana ==> mana_cost(seq![c]) == c.amount,
        !(c.resource is Mana) ==> mana_cost(seq![c]) == 0,
    decreases b.len(),
{
    reveal_with_fuel(mana_cost, 2);
    assert(seq![c].drop_last() =~= Seq::empty());
    if b.len() == 0 {
        assert(a + b =~= a);
    } else {
        law_mana_costs_add_up(a, b.drop_last(), c);
        assert((a + b).drop_last() =~= a + b.drop_last());
    }
}

/// The sum of the first square numbers.
pub open spec fn squares(n: nat) -> int
    decreases n,
{
    if n == 0 {
        0
    } else {
        squares((n - 1) as nat) + n * n
    }
}

proof fn squares_in_closed_form(n: nat)
    ensures
        6 * squares(n) == n * (n + 1) * (2 * n + 1),
    decreases n,
{
    if n > 0 {
        let m = (n - 1) as nat;
        squares_in_closed_form(m);
        assert(m * (m + 1) * (2 * m + 1) + 6 * (n * n) == n * (n + 1) * (2 * n + 1))
            by (nonlinear_arith)
            requires
                m == n - 1,
        ;
    } else {
        assert(n * (n + 1) * (2 * n + 1) == 0) by (nonlinear_arith)
            requires
                n == 0,
        ;
    }
}

/// The mean of dice lies halfway between the least and the most that they show. With
/// disadvantage each die counts the lower of two: what it shows on the mean is the sum of the
/// squares up to its sides, shared out over all pairs of sides. Dice without sides show
/// nothing, and the bonus counts in full.
pub proof fn law_mean_of_dice(expr: DiceExpr)
    ensures
        ({
            let q = mean_of(expr, false);
            expr.sides > 0 ==> q.den == 2 && q.num == (expr.count + expr.bonus) + (expr.count
                * expr.sides + expr.bonus)
        }),
        ({
            let q = mean_of(expr, true);
            expr.sides > 0 ==> q.den > 0 && (q.num - q.den * expr.bonus) * (expr.sides * expr.sides)
                == q.den * (expr.count * squares(expr.sides as nat))
        }),
        forall|disadvantage: bool|
            expr.sides == 0 ==> (#[trigger] mean_of(expr, disadvantage)).num == expr.bonus * mean_of(
                expr,
                disadvantage,
            ).den,
{
    let (c, s, b) = (expr.count as int, expr.sides as int, expr.bonus as int);
    assert(c * (s + 1) == c * s + c) by (nonlinear_arith);
    squares_in_closed_form(expr.sides as nat);
    let sq = squares(expr.sides as nat);
    if s > 0 {
        assert((c * ((s + 1) * (2 * s + 1))) * (s * s) == (6 * s) * (c * sq)) by (nonlinear_arith)
            requires
                6 * sq == s * (s + 1) * (2 * s + 1),
        ;
        assert((6 * s) * b == 6 * s * b);
    }
}

/// A breach hurts by half of the mana, rounded up.
pub proof fn law_breach(mana: int)
    ensures
        mana >= 0 ==> mana <= 2 * breach_damage(mana) <= mana + 1,
{
}

/// How each failure shows: a plain miss, twice the mana where there is any, or a status on the
/// caster that blocks magic or hands over control for a round or exhausts for two.
pub proof fn law_failures(crit: CritOutcome, effect: CritFailEffect, mana: int)
    requires
        fails_as(crit, effect, mana),
    ensures
        effect is Miss ==> crit is Miss,
        effect is ManaOverload && mana > 0 ==> crit is ManaOverload,
        effect is ManaOverload && mana <= 0 ==> crit is Miss,
        effect is BrokenFaith ==> crit is SelfStatus && crit->duration_rounds == 1 && crit->status@
            == "broken_faith"@,
        effect is Exhaustion ==> crit is SelfStatus && crit->duration_rounds == 2 && crit->status@
            == "exhaustion"@,
        effect is PactControl ==> crit is SelfStatus && crit->duration_rounds == 1 && crit->status@
            == "pact_control"@,
        effect is CircuitBreach && mana >= 0 ==> crit is SelfDamage && mana <= 2 * crit->amount
            <= mana + 1,
        crit.suppresses() <==> !(crit is ManaOverload),
{
}

/// How a number came about ends with the number, and begins with the dice where there were any.
pub proof fn law_breakdown(dice: Seq<char>, bonus: int, total: int)
    ensures
        ({
            let t = breakdown_text(dice, bonus, total);
            let n = crate::text::decimal(total);
            &&& t.len() >= n.len()
            &&& t.skip(t.len() - n.len()) =~= n
            &&& t.len() >= dice.len()
            &&& t.take(dice.len() as int) =~= dice
            &&& dice.len() == 0 ==> t == n
            &&& dice.len() > 0 && bonus != 0 ==> t.len() > dice.len() + n.len()
                + crate::text::decimal(bonus).len()
        }),
{
    reveal_strlit(" + ");
    reveal_strlit(" = ");
}

} // verus!
