//! What speaks for and against spending resources on a candidate, and against
//! doing what another unit has claimed.

use crate::candidates::{ActionCandidate, CandidateKind, CandidateModel};
use crate::content::{
    AbilityDef, ContentView, DiceExpr, ResourceCost, ResourceKind, StatusApplication, TargetType,
};
use crate::decisions::{area_hits, in_area, Hittable};
use crate::effects_math::area_fits;
use crate::ids::Entity;
use crate::outcome::EffectCalc;
use crate::reservations::{Claims, Reservations};
use crate::snapshot::{applies_cc, costs_turns};
use vstd::prelude::*;

verus! {

/// Whether an ability is an attack that costs nothing.
pub open spec fn is_free_attack(def: AbilityDef) -> bool {
    def.costs@.len() == 0 && def.target_type == TargetType::SingleEnemy
}

/// Whether one of some abilities is an attack that costs nothing.
pub open spec fn any_free_attack(ids: Seq<String>, content: ContentView) -> bool {
    exists|i: int|
        0 <= i < ids.len() && (content.ability((#[trigger] ids[i])@) matches Some(d)
            && is_free_attack(d))
}

/// Whether one of some abilities is an attack that costs nothing.
pub fn has_free_attack(ids: &Vec<String>, content: &ContentView) -> (r: bool)
    ensures
        r == any_free_attack(ids@, *content),
{
    let mut i: usize = 0;
    while i < ids.len()
        invariant
            i <= ids.len(),
            forall|j: int|
                0 <= j < i ==> !(content.ability((#[trigger] ids@[j])@) matches Some(d)
                    && is_free_attack(d)),
        decreases ids.len() - i,
    {
        if let Some(d) = content.ability_def(&ids[i]) {
            if d.costs.len() == 0 && d.target_type == TargetType::SingleEnemy {
                assert(content.ability(ids@[i as int]@) matches Some(d) && is_free_attack(d));
                return true;
            }
        }
        i = i + 1;
    }
    false
}

/// The mana among some costs.
pub fn mana_cost(costs: &Vec<ResourceCost>) -> (r: i128)
    ensures
        r == crate::outcome::mana_cost(costs@),
{
    let mut r: i128 = 0;
    let mut i: usize = 0;
    assert(costs@.take(0) =~= Seq::empty());
    while i < costs.len()
        invariant
            i <= costs.len(),
            -0x8000_0000 * i <= r <= 0x8000_0000 * i,
            r == crate::outcome::mana_cost(costs@.take(i as int)),
        decreases costs.len() - i,
    {
        assert(costs@.take(i + 1).drop_last() =~= costs@.take(i as int));
        if costs[i].resource == ResourceKind::Mana {
            r = r + costs[i].amount as i128;
        }
        i = i + 1;
    }
    assert(costs@.take(i as int) =~= costs@);
    r
}

/// What speaks for and against spending resources.
#[derive(Clone, Copy, PartialEq, Eq, Structural, Debug)]
pub struct SpendFacts {
    /// How many enemies the area of the ability hits; none without an area.
    pub hits: usize,
    /// Whether the ability costs others turns.
    pub is_cc: bool,
    /// Whether there is an attack that costs nothing.
    pub has_free_attack: bool,
    /// Whether the fight has hardly begun.
    pub is_early: bool,
}

/// The last round that counts as the beginning of a fight.
pub const EARLY_ROUND: u32 = 1;

/// What speaks for and against spending resources on a candidate; nothing where it
/// costs nothing or casts nothing.
pub open spec fn facts_of(
    c: CandidateModel,
    ids: Seq<String>,
    content: ContentView,
    enemies: Seq<Hittable>,
    round: u32,
) -> Option<SpendFacts> {
    match c.kind {
        CandidateKind::Cast { ability, target_pos, .. } => match content.ability(ability@) {
            Some(def) if def.costs@.len() > 0 => Some(
                SpendFacts {
                    hits: in_area(def.aoe, c.tile, target_pos, enemies).len() as usize,
                    is_cc: costs_turns(def, content),
                    has_free_attack: any_free_attack(ids, content),
                    is_early: round <= EARLY_ROUND,
                },
            ),
            _ => None,
        },
        CandidateKind::MoveOnly => None,
    }
}

/// What speaks for and against spending resources on a candidate.
pub fn spend_facts(
    c: &ActionCandidate,
    ids: &Vec<String>,
    content: &ContentView,
    enemies: &Vec<Hittable>,
    round: u32,
) -> (r: Option<SpendFacts>)
    requires
        c@.kind matches CandidateKind::Cast { ability, target_pos, .. } ==> (content.ability(
            ability@,
        ) matches Some(def) ==> (def.costs@.len() > 0 ==> area_fits(
            def.aoe,
            c@.tile,
            target_pos,
        ))),
    ensures
        r == facts_of(c@, ids@, *content, enemies@, round),
{
    if let CandidateKind::Cast { ability, target_pos, .. } = &c.kind {
        if let Some(def) = content.ability_def(ability) {
            if def.costs.len() > 0 {
                let hits = area_hits(def.aoe, c.tile, *target_pos, enemies);
                return Some(
                    SpendFacts {
                        hits: hits.len(),
                        is_cc: applies_cc(def, content),
                        has_free_attack: has_free_attack(ids, content),
                        is_early: round <= EARLY_ROUND,
                    },
                );
            }
        }
    }
    None
}

/// What the claims of others mean for a candidate.
#[derive(Clone, Copy, PartialEq, Eq, Structural, Debug)]
pub struct ClaimFacts {
    /// The target is as good as dead.
    pub is_overkill: bool,
    /// The target is hurt already, but not enough.
    pub is_focus: bool,
    /// The target loses turns already.
    pub is_repeated_cc: bool,
    /// The cell is taken.
    pub is_taken: bool,
}

/// What claims mean for a candidate, by the hit points of its target.
pub open spec fn claim_facts_of(
    c: CandidateModel,
    target_hp: Option<i64>,
    claims: Claims,
) -> ClaimFacts {
    let target = c.target();
    let reserved = match target {
        Some(t) => claims.damage_on(t) as int,
        None => 0,
    };
    ClaimFacts {
        is_overkill: reserved > 0 && (target_hp matches Some(hp) && hp - reserved <= 0),
        is_focus: reserved > 0 && (target_hp matches Some(hp) && hp - reserved > 0),
        is_repeated_cc: target matches Some(t) && claims.cc.contains(t),
        is_taken: claims.tiles.contains(c.tile),
    }
}

/// What claims mean for a candidate. `target_hp` is in the unit that damage is
/// claimed in; `None` where the target is not known.
pub fn claim_facts(c: &ActionCandidate, target_hp: Option<i64>, reservations: &Reservations) -> (r:
    ClaimFacts)
    ensures
        r == claim_facts_of(c@, target_hp, reservations@),
{
    let mut is_overkill = false;
    let mut is_focus = false;
    let mut is_repeated_cc = false;
    if let Some(t) = c.target() {
        let reserved = reservations.reserved_damage(t);
        if reserved > 0 {
            if let Some(hp) = target_hp {
                if hp <= reserved {
                    is_overkill = true;
                } else {
                    is_focus = true;
                }
            }
        }
        is_repeated_cc = reservations.has_reserved_cc(t);
    }
    ClaimFacts {
        is_overkill,
        is_focus,
        is_repeated_cc,
        is_taken: reservations.is_tile_reserved(c.tile),
    }
}

// ---------------------------------------------------------------------------
// Kills and lost turns
// ---------------------------------------------------------------------------

/// What stands between a target and its fall.
#[derive(Clone, Copy, PartialEq, Eq, Structural, Debug)]
pub struct TargetGuard {
    pub hp: i32,
    pub armor: i32,
    pub armor_bonus: i32,
    pub damage_taken_bonus: i32,
}

/// Twice the mean of some dice; nothing where there are none.
pub open spec fn twice_mean(dice: Option<DiceExpr>) -> int {
    match dice {
        Some(expr) => if expr.sides == 0 {
            2 * expr.bonus
        } else {
            expr.count * (expr.sides + 1) + 2 * expr.bonus
        },
        None => 0,
    }
}

/// Whether an attack is expected to kill: it is aimed at an enemy, and the mean of
/// its dice with all bonuses, less the armor that it does not pierce, reaches the
/// target's hit points.
pub open spec fn kills(
    target_type: TargetType,
    calc: Option<EffectCalc>,
    target: Option<TargetGuard>,
) -> bool {
    match (calc, target) {
        (Some(c), Some(t)) => {
            let armor = if c.pierces_armor {
                0
            } else {
                t.armor + t.armor_bonus
            };
            target_type == TargetType::SingleEnemy && twice_mean(c.dice) + 2 * c.bonus - 2 * armor
                + 2 * t.damage_taken_bonus >= 2 * t.hp
        },
        _ => false,
    }
}

fn double_mean(dice: Option<DiceExpr>) -> (r: i128)
    ensures
        r == twice_mean(dice),
        -0x1_0000_0000 <= r <= 0x2_0000_0000_0000_0000,
{
    match dice {
        Some(expr) => {
            if expr.sides == 0 {
                2 * expr.bonus as i128
            } else {
                let count: i128 = expr.count as i128;
                let faces: i128 = expr.sides as i128 + 1;
                assert(0 <= count * faces <= 0x1_0000_0000_0000_0000) by (nonlinear_arith)
                    requires
                        0 <= count <= 0xffff_ffff,
                        0 <= faces <= 0x1_0000_0000,
                ;
                count * faces + 2 * expr.bonus as i128
            }
        },
        None => 0,
    }
}

/// Whether an attack is expected to kill its target.
pub fn compute_kill_flag(
    target_type: TargetType,
    calc: Option<EffectCalc>,
    target: Option<TargetGuard>,
) -> (r: bool)
    ensures
        r == kills(target_type, calc, target),
{
    match calc {
        Some(c) => match target {
            Some(t) => {
                if target_type != TargetType::SingleEnemy {
                    return false;
                }
                let armor: i128 = if c.pierces_armor {
                    0
                } else {
                    t.armor as i128 + t.armor_bonus as i128
                };
                double_mean(c.dice) + 2 * c.bonus as i128 - 2 * armor
                    + 2 * t.damage_taken_bonus as i128 >= 2 * t.hp as i128
            },
            None => false,
        },
        None => false,
    }
}

/// What the statuses of an ability are worth in turns lost and in points of armor
/// and vulnerability, each times the rounds that it lasts.
#[derive(Clone, Copy, PartialEq, Eq, Structural, Debug)]
pub struct StatusWorth {
    pub turns_lost: u128,
    pub points: u128,
}

/// A number, but nothing for one below zero.
pub open spec fn positive(i: i32) -> int {
    if i > 0 {
        i as int
    } else {
        0
    }
}

/// Turns that the statuses of an ability cost their bearer.
pub open spec fn turns_lost(list: Seq<StatusApplication>, content: ContentView) -> int
    decreases list.len(),
{
    if list.len() == 0 {
        0
    } else {
        let s = list.last();
        turns_lost(list.drop_last(), content) + (match content.status(s.status@) {
            Some(d) if d.skips_turn => s.duration_rounds as int,
            _ => 0,
        })
    }
}

/// Points of armor and vulnerability that the statuses of an ability give, each
/// for as many rounds as it lasts. What they take away does not count.
pub open spec fn status_points(list: Seq<StatusApplication>, content: ContentView) -> int
    decreases list.len(),
{
    if list.len() == 0 {
        0
    } else {
        let s = list.last();
        status_points(list.drop_last(), content) + (match content.status(s.status@) {
            Some(d) => (positive(d.bonuses.damage_taken_bonus) + positive(d.bonuses.armor_bonus))
                * s.duration_rounds,
            None => 0,
        })
    }
}

fn floor_at_zero(i: i32) -> (r: u128)
    ensures
        r == positive(i),
        0 <= r <= 0x7fff_ffff,
{
    if i > 0 {
        i as u128
    } else {
        0
    }
}

/// What the statuses of an ability are worth.
pub fn compute_cc_value(list: &Vec<StatusApplication>, content: &ContentView) -> (r: StatusWorth)
    ensures
        r.turns_lost == turns_lost(list@, *content),
        r.points == status_points(list@, *content),
{
    let mut lost: u128 = 0;
    let mut points: u128 = 0;
    let mut i: usize = 0;
    assert(list@.take(0) =~= Seq::empty());
    while i < list.len()
        invariant
            i <= list.len(),
            lost == turns_lost(list@.take(i as int), *content),
            points == status_points(list@.take(i as int), *content),
            lost <= 0x1_0000_0000 * i,
            points <= 0xffff_ffff_ffff_ffff * i,
        decreases list.len() - i,
    {
        assert(list@.take(i + 1).drop_last() =~= list@.take(i as int));
        if let Some(d) = content.status_def(&list[i].status) {
            let rounds: u128 = list[i].duration_rounds as u128;
            if d.skips_turn {
                lost = lost + rounds;
            }
            let both: u128 = floor_at_zero(d.bonuses.damage_taken_bonus) + floor_at_zero(
                d.bonuses.armor_bonus,
            );
            assert(0 <= both * rounds <= 0xffff_ffff_ffff_ffff) by (nonlinear_arith)
                requires
                    0 <= both <= 0xffff_fffe,
                    0 <= rounds <= 0xffff_ffff,
            ;
            points = points + both * rounds;
        }
        i = i + 1;
    }
    assert(list@.take(i as int) =~= list@);
    StatusWorth { turns_lost: lost, points }
}

// ---------------------------------------------------------------------------
// Laws
// ---------------------------------------------------------------------------

/// What kills a target kills it also when it has fewer hit points left.
pub proof fn law_kills_the_weaker_too(
    target_type: TargetType,
    calc: Option<EffectCalc>,
    target: TargetGuard,
    hp: i32,
)
    requires
        hp <= target.hp,
        kills(target_type, calc, Some(target)),
    ensures
        kills(target_type, calc, Some(TargetGuard { hp, ..target })),
{
}

/// A fresh round speaks against no candidate.
pub proof fn law_no_claims_no_objection(c: CandidateModel, target_hp: Option<i64>)
    ensures
        claim_facts_of(c, target_hp, Claims::none()) == (ClaimFacts {
            is_overkill: false,
            is_focus: false,
            is_repeated_cc: false,
            is_taken: false,
        }),
{
}

/// One more ability adds an attack that costs nothing if and only if it has no cost and
/// strikes a single enemy.
pub proof fn law_free_attack_by_one_more(ids: Seq<String>, more: String, content: ContentView)
    ensures
        !any_free_attack(Seq::empty(), content),
        any_free_attack(ids.push(more), content) <==> any_free_attack(ids, content) || (
        content.ability(more@) matches Some(d) && d.costs@.len() == 0 && d.target_type
            == TargetType::SingleEnemy),
{
    let all = ids.push(more);
    if any_free_attack(ids, content) {
        let i = choose|i: int|
            0 <= i < ids.len() && (content.ability((#[trigger] ids[i])@) matches Some(d)
                && is_free_attack(d));
        assert(all[i] == ids[i]);
    }
    if content.ability(more@) matches Some(d) && is_free_attack(d) {
        assert(all[ids.len() as int] == more);
    }
    if any_free_attack(all, content) {
        let i = choose|i: int|
            0 <= i < all.len() && (content.ability((#[trigger] all[i])@) matches Some(d)
                && is_free_attack(d));
        if i < ids.len() {
            assert(ids[i] == all[i]);
        }
    }
}

/// Only the cast of a known ability that costs something is weighed. The fight has
/// hardly begun in its first round and before.
pub proof fn law_what_is_weighed(
    c: CandidateModel,
    ids: Seq<String>,
    content: ContentView,
    enemies: Seq<Hittable>,
    round: u32,
)
    ensures
        c.kind is MoveOnly ==> facts_of(c, ids, content, enemies, round) is None,
        c.kind is Cast && content.ability(c.kind->ability@) is None ==> facts_of(
            c,
            ids,
            content,
            enemies,
            round,
        ) is None,
        c.kind is Cast && content.ability(c.kind->ability@) is Some ==> (facts_of(
            c,
            ids,
            content,
            enemies,
            round,
        ) is Some <==> content.ability(c.kind->ability@)->0.costs@.len() > 0),
        facts_of(c, ids, content, enemies, round) matches Some(f) ==> {
            let def = content.ability(c.kind->ability@)->0;
            &&& f.is_early <==> round < 2
            &&& f.has_free_attack <==> any_free_attack(ids, content)
            &&& f.is_cc <==> costs_turns(def, content)
            &&& enemies.len() <= usize::MAX ==> f.hits == in_area(
                def.aoe,
                c.tile,
                c.kind->target_pos,
                enemies,
            ).len()
        },
{
    if c.kind is Cast && content.ability(c.kind->ability@) is Some {
        crate::decisions::hits_are_few(
            content.ability(c.kind->ability@)->0.aoe,
            c.tile,
            c.kind->target_pos,
            enemies,
        );
    }
}

/// A target on which somebody claims damage is as good as dead where the claim is at
/// least its hit points, and worth finishing where it is less; never both, and neither
/// where nobody claims damage or the hit points are not known.
pub proof fn law_claims_on_a_target(
    c: CandidateModel,
    target: Entity,
    hp: i64,
    claims: Claims,
)
    requires
        c.kind matches CandidateKind::Cast { target: t, .. } && t == Some(target),
    ensures
        ({
            let f = claim_facts_of(c, Some(hp), claims);
            &&& f.is_overkill <==> claims.damage_on(target) > 0 && claims.damage_on(target) >= hp
            &&& f.is_focus <==> claims.damage_on(target) > 0 && claims.damage_on(target) < hp
            &&& f.is_repeated_cc <==> claims.cc.contains(target)
            &&& f.is_taken <==> claims.tiles.contains(c.tile)
        }),
        !claim_facts_of(c, None, claims).is_overkill,
        !claim_facts_of(c, None, claims).is_focus,
{
}

/// Without a target nothing but the cell can be claimed.
pub proof fn law_claims_without_a_target(c: CandidateModel, hp: Option<i64>, claims: Claims)
    requires
        c.target() is None,
    ensures
        ({
            let f = claim_facts_of(c, hp, claims);
            &&& !f.is_overkill && !f.is_focus && !f.is_repeated_cc
            &&& f.is_taken <==> claims.tiles.contains(c.tile)
        }),
{
}

/// Twice the mean of a roll is the least that it can show and the most, together; a die
/// without sides shows nothing.
pub proof fn law_mean_is_in_the_middle(expr: DiceExpr)
    ensures
        expr.sides > 0 ==> twice_mean(Some(expr)) == (expr.count + expr.bonus) + (expr.count
            * expr.sides + expr.bonus),
        expr.sides == 0 ==> twice_mean(Some(expr)) == expr.bonus + expr.bonus,
        twice_mean(None) == 0,
{
    assert(expr.count * (expr.sides + 1) == expr.count * expr.sides + expr.count)
        by (nonlinear_arith);
}

/// An attack on a single enemy is thought to kill exactly where its mean, less the armor
/// that it does not pierce and with what makes the target suffer more, is at least the
/// hit points. Nothing else is thought to kill.
pub proof fn law_when_an_attack_kills(target_type: TargetType, c: EffectCalc, t: TargetGuard)
    ensures
        target_type != TargetType::SingleEnemy ==> !kills(target_type, Some(c), Some(t)),
        !kills(target_type, None, Some(t)),
        !kills(target_type, Some(c), None),
        target_type == TargetType::SingleEnemy && c.pierces_armor ==> (kills(
            target_type,
            Some(c),
            Some(t),
        ) <==> twice_mean(c.dice) >= 2 * (t.hp - c.bonus - t.damage_taken_bonus)),
        target_type == TargetType::SingleEnemy && !c.pierces_armor ==> (kills(
            target_type,
            Some(c),
            Some(t),
        ) <==> twice_mean(c.dice) >= 2 * (t.hp + t.armor + t.armor_bonus - c.bonus
            - t.damage_taken_bonus)),
{
}

/// Statuses are worth what each of them is worth, together: one that skips turns costs
/// as many as it lasts, and each round of it is worth its bonuses to armor and to damage
/// suffered as far as they are not below zero.
pub proof fn law_statuses_are_worth_their_sum(
    list: Seq<StatusApplication>,
    more: StatusApplication,
    content: ContentView,
)
    ensures
        turns_lost(Seq::empty(), content) == 0,
        status_points(Seq::empty(), content) == 0,
        turns_lost(list.push(more), content) - turns_lost(list, content) == (if content.status(
            more.status@,
        ) is Some && content.status(more.status@)->0.skips_turn {
            more.duration_rounds as int
        } else {
            0
        }),
        ({
            let gain = status_points(list.push(more), content) - status_points(list, content);
            match content.status(more.status@) {
                Some(d) => {
                    let (a, v) = (d.bonuses.armor_bonus, d.bonuses.damage_taken_bonus);
                    &&& a >= 0 && v >= 0 ==> gain == (a + v) * more.duration_rounds
                    &&& a >= 0 && v <= 0 ==> gain == a * more.duration_rounds
                    &&& a <= 0 && v >= 0 ==> gain == v * more.duration_rounds
                    &&& a <= 0 && v <= 0 ==> gain == 0
                },
                None => gain == 0,
            }
        }),
{
    assert(list.push(more).drop_last() =~= list);
    reveal_with_fuel(turns_lost, 2);
    reveal_with_fuel(status_points, 2);
    if let Some(d) = content.status(more.status@) {
        let (a, v) = (d.bonuses.armor_bonus, d.bonuses.damage_taken_bonus);
        assert((v + a) * more.duration_rounds == (a + v) * more.duration_rounds);
        assert(0 * more.duration_rounds == 0);
    }
}

} // verus!
