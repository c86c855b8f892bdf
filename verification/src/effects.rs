//! Damage, healing and statuses applied to combatants directly, and the end of a
//! turn.

use crate::bootstrap::EcsStatus;
use crate::content::ContentView;
use crate::effects_math::{counted_armor, final_damage};
use crate::events::CombatEvent;
use crate::hex::max;
use crate::ids::Entity;
use crate::movement::{gain_rage, rage_gained, rage_line, RageRow};
use crate::state::Team;
use crate::translate::opt_seq;
use vstd::prelude::*;

verus! {

/// Damage that is to be applied.
#[derive(Debug)]
pub struct DamageMsg {
    pub target: Entity,
    pub source: Entity,
    pub amount: i32,
    pub breakdown: String,
    pub pierces_armor: bool,
}

/// Healing that is to be applied.
#[derive(Debug)]
pub struct HealMsg {
    pub target: Entity,
    pub amount: i32,
    pub breakdown: String,
}

/// A status that is to be applied.
#[derive(Debug)]
pub struct StatusMsg {
    pub source: Entity,
    pub target: Entity,
    pub status: String,
    pub duration_rounds: u32,
}

/// Hit points and armor of a combatant.
#[derive(Clone, Copy, PartialEq, Eq, Structural, Debug)]
pub struct VitalRow {
    pub entity: Entity,
    pub team: Team,
    pub hp: i32,
    pub max_hp: i32,
    pub armor: i32,
    pub is_dead: bool,
}

/// Statuses of a combatant.
#[derive(Debug)]
pub struct StatusRow {
    pub entity: Entity,
    pub statuses: Vec<EcsStatus>,
}

/// Statuses of a combatant, as a sequence.
#[verifier::ext_equal]
pub struct StatusModel {
    pub entity: Entity,
    pub statuses: Seq<EcsStatus>,
}

impl View for StatusRow {
    type V = StatusModel;

    open spec fn view(&self) -> StatusModel {
        StatusModel { entity: self.entity, statuses: self.statuses@ }
    }
}

/// Statuses of combatants, as sequences.
pub open spec fn status_models(rows: Seq<StatusRow>) -> Seq<StatusModel> {
    Seq::new(rows.len(), |i: int| rows[i]@)
}

// ---------------------------------------------------------------------------
// Lookup
// ---------------------------------------------------------------------------

/// Whether `i` is the place of the first vitals of an entity.
pub open spec fn is_first_vital(rows: Seq<VitalRow>, entity: Entity, i: int) -> bool {
    &&& 0 <= i < rows.len()
    &&& rows[i].entity == entity
    &&& forall|j: int| 0 <= j < i ==> (#[trigger] rows[j]).entity != entity
}

/// The place of the first vitals of an entity.
pub open spec fn vital_place(rows: Seq<VitalRow>, entity: Entity) -> Option<int> {
    if exists|i: int| is_first_vital(rows, entity, i) {
        Some(choose|i: int| is_first_vital(rows, entity, i))
    } else {
        None
    }
}

pub(crate) fn find_vital(rows: &Vec<VitalRow>, entity: Entity) -> (r: Option<usize>)
    ensures
        match r {
            Some(i) => vital_place(rows@, entity) == Some(i as int) && i < rows@.len(),
            None => vital_place(rows@, entity) is None,
        },
{
    let mut i: usize = 0;
    while i < rows.len()
        invariant
            i <= rows.len(),
            forall|j: int| 0 <= j < i ==> (#[trigger] rows@[j]).entity != entity,
        decreases rows.len() - i,
    {
        if rows[i].entity == entity {
            proof {
                assert(is_first_vital(rows@, entity, i as int));
                let k = choose|k: int| is_first_vital(rows@, entity, k);
                assert(is_first_vital(rows@, entity, k));
                if k < i {
                    assert(rows@[k].entity != entity);
                }
                if i < k {
                    assert(rows@[i as int].entity != entity);
                }
            }
            return Some(i);
        }
        i = i + 1;
    }
    proof {
        assert forall|k: int| !is_first_vital(rows@, entity, k) by {
            if 0 <= k < rows@.len() {
                assert(rows@[k].entity != entity);
            }
        }
    }
    None
}

/// Whether `i` is the place of the first statuses of an entity.
pub open spec fn is_first_status(rows: Seq<StatusModel>, entity: Entity, i: int) -> bool {
    &&& 0 <= i < rows.len()
    &&& rows[i].entity == entity
    &&& forall|j: int| 0 <= j < i ==> (#[trigger] rows[j]).entity != entity
}

/// The place of the first statuses of an entity.
pub open spec fn status_place(rows: Seq<StatusModel>, entity: Entity) -> Option<int> {
    if exists|i: int| is_first_status(rows, entity, i) {
        Some(choose|i: int| is_first_status(rows, entity, i))
    } else {
        None
    }
}

pub(crate) fn find_status(rows: &Vec<StatusRow>, entity: Entity) -> (r: Option<usize>)
    ensures
        match r {
            Some(i) => status_place(status_models(rows@), entity) == Some(i as int) && i
                < rows@.len(),
            None => status_place(status_models(rows@), entity) is None,
        },
{
    let ghost m = status_models(rows@);
    let mut i: usize = 0;
    while i < rows.len()
        invariant
            i <= rows.len(),
            m == status_models(rows@),
            forall|j: int| 0 <= j < i ==> (#[trigger] m[j]).entity != entity,
        decreases rows.len() - i,
    {
        if rows[i].entity == entity {
            proof {
                assert(m[i as int].entity == entity);
                assert(is_first_status(m, entity, i as int));
                let k = choose|k: int| is_first_status(m, entity, k);
                assert(is_first_status(m, entity, k));
                if k < i {
                    assert(m[k].entity != entity);
                }
                if i < k {
                    assert(m[i as int].entity != entity);
                }
            }
            return Some(i);
        }
        assert(m[i as int].entity != entity);
        i = i + 1;
    }
    proof {
        assert forall|k: int| !is_first_status(m, entity, k) by {
            if 0 <= k < m.len() {
                assert(m[k].entity != entity);
            }
        }
    }
    None
}

// ---------------------------------------------------------------------------
// Damage
// ---------------------------------------------------------------------------

/// Armor that statuses add.
pub open spec fn armor_sum(statuses: Seq<EcsStatus>, content: ContentView) -> int
    decreases statuses.len(),
{
    if statuses.len() == 0 {
        0
    } else {
        armor_sum(statuses.drop_last(), content) + content.bonuses(
            statuses.last().id@,
        ).armor_bonus
    }
}

/// Vulnerability that statuses add.
pub open spec fn vulnerability_sum(statuses: Seq<EcsStatus>, content: ContentView) -> int
    decreases statuses.len(),
{
    if statuses.len() == 0 {
        0
    } else {
        vulnerability_sum(statuses.drop_last(), content) + content.bonuses(
            statuses.last().id@,
        ).damage_taken_bonus
    }
}

pub(crate) fn sum_bonuses(statuses: &Vec<EcsStatus>, content: &ContentView) -> (r: (i128, i128))
    ensures
        r.0 == armor_sum(statuses@, *content),
        r.1 == vulnerability_sum(statuses@, *content),
        -0x8000_0000_0000_0000_0000_0000 <= r.0 <= 0x8000_0000_0000_0000_0000_0000,
        -0x8000_0000_0000_0000_0000_0000 <= r.1 <= 0x8000_0000_0000_0000_0000_0000,
{
    let mut armor: i128 = 0;
    let mut vulnerability: i128 = 0;
    let mut i: usize = 0;
    assert(statuses@.take(0) =~= Seq::empty());
    while i < statuses.len()
        invariant
            i <= statuses.len(),
            armor == armor_sum(statuses@.take(i as int), *content),
            vulnerability == vulnerability_sum(statuses@.take(i as int), *content),
            -0x8000_0000 * i <= armor <= 0x8000_0000 * i,
            -0x8000_0000 * i <= vulnerability <= 0x8000_0000 * i,
        decreases statuses.len() - i,
    {
        assert(statuses@.take(i + 1).drop_last() =~= statuses@.take(i as int));
        let b = content.status_bonuses(&statuses[i].id);
        armor = armor + b.armor_bonus as i128;
        vulnerability = vulnerability + b.damage_taken_bonus as i128;
        i = i + 1;
    }
    assert(statuses@.take(i as int) =~= statuses@);
    (armor, vulnerability)
}

/// The statuses of an entity; none where it has no row.
pub open spec fn statuses_of(rows: Seq<StatusModel>, entity: Entity) -> Seq<EcsStatus> {
    match status_place(rows, entity) {
        Some(i) => rows[i].statuses,
        None => Seq::empty(),
    }
}

/// The damage that reaches a combatant.
pub open spec fn damage_dealt(
    row: VitalRow,
    statuses: Seq<EcsStatus>,
    msg: DamageMsg,
    content: ContentView,
) -> int {
    final_damage(
        msg.amount as int,
        row.armor + armor_sum(statuses, content),
        vulnerability_sum(statuses, content),
        msg.pierces_armor,
    )
}

/// A combatant after damage: hit points do not fall below zero, and at zero it
/// is marked as fallen.
pub open spec fn hurt(row: VitalRow, damage: int) -> VitalRow {
    let hp = max(row.hp - damage, 0) as i32;
    VitalRow { hp, is_dead: row.is_dead || hp <= 0, ..row }
}

/// The log lines of damage.
pub open spec fn damage_lines(
    row: VitalRow,
    statuses: Seq<EcsStatus>,
    msg: DamageMsg,
    content: ContentView,
) -> Seq<CombatEvent> {
    let damage = damage_dealt(row, statuses, msg, content);
    let line = CombatEvent::DamageRolled {
        target: msg.target,
        formula: msg.breakdown,
        armor_reduced: counted_armor(
            row.armor + armor_sum(statuses, content),
            msg.pierces_armor,
        ) as i128,
        final_damage: damage as i128,
    };
    if hurt(row, damage).hp <= 0 {
        seq![line, CombatEvent::UnitDied { entity: msg.target }]
    } else {
        seq![line]
    }
}

/// Vitals and log after the first `n` damages. Damage to who has no vitals is
/// dropped.
pub open spec fn after_damages(
    vitals: Seq<VitalRow>,
    log: Seq<CombatEvent>,
    msgs: Seq<DamageMsg>,
    n: nat,
    statuses: Seq<StatusModel>,
    content: ContentView,
) -> (Seq<VitalRow>, Seq<CombatEvent>)
    decreases n,
{
    if n == 0 {
        (vitals, log)
    } else {
        let (v, l) = after_damages(vitals, log, msgs, (n - 1) as nat, statuses, content);
        let msg = msgs[n - 1];
        match vital_place(v, msg.target) {
            Some(i) => {
                let own = statuses_of(statuses, msg.target);
                (
                    v.update(i, hurt(v[i], damage_dealt(v[i], own, msg, content))),
                    l + damage_lines(v[i], own, msg, content),
                )
            },
            None => (v, l),
        }
    }
}

/// Applies damages one after the other.
pub fn apply_damages(
    msgs: &Vec<DamageMsg>,
    vitals: &mut Vec<VitalRow>,
    statuses: &Vec<StatusRow>,
    content: &ContentView,
    log: &mut Vec<CombatEvent>,
)
    ensures
        (final(vitals)@, final(log)@) == after_damages(
            old(vitals)@,
            old(log)@,
            msgs@,
            msgs@.len(),
            status_models(statuses@),
            *content,
        ),
{
    let ghost m = status_models(statuses@);
    let mut n: usize = 0;
    while n < msgs.len()
        invariant
            n <= msgs.len(),
            m == status_models(statuses@),
            (vitals@, log@) == after_damages(
                old(vitals)@,
                old(log)@,
                msgs@,
                n as nat,
                m,
                *content,
            ),
        decreases msgs.len() - n,
    {
        let msg = &msgs[n];
        if let Some(i) = find_vital(vitals, msg.target) {
            let ghost v = vitals@;
            let ghost l = log@;
            let ghost own = statuses_of(m, msg.target);
            let (armor_bonus, vulnerability) = match find_status(statuses, msg.target) {
                Some(k) => sum_bonuses(&statuses[k].statuses, content),
                None => (0i128, 0i128),
            };
            let row = vitals[i];
            let armor: i128 = if msg.pierces_armor {
                0
            } else {
                row.armor as i128 + armor_bonus
            };
            let total: i128 = msg.amount as i128 - armor + vulnerability;
            let damage: i128 = if total < 1 {
                1
            } else {
                total
            };
            let hp: i32 = if row.hp as i128 - damage <= 0 {
                0
            } else {
                (row.hp as i128 - damage) as i32
            };
            vitals.set(
                i,
                VitalRow {
                    entity: row.entity,
                    team: row.team,
                    hp,
                    max_hp: row.max_hp,
                    armor: row.armor,
                    is_dead: row.is_dead || hp <= 0,
                },
            );
            log.push(
                CombatEvent::DamageRolled {
                    target: msg.target,
                    formula: msg.breakdown.clone(),
                    armor_reduced: armor,
                    final_damage: damage,
                },
            );
            if hp <= 0 {
                log.push(CombatEvent::UnitDied { entity: msg.target });
            }
            assert(damage == damage_dealt(v[i as int], own, *msg, *content));
            assert(log@ =~= l + damage_lines(v[i as int], own, *msg, *content));
        }
        n = n + 1;
    }
}

/// Rage and log after the first `n` damages: a point for who dealt it, then one
/// for who took it.
pub open spec fn after_rage(
    rage: Seq<RageRow>,
    log: Seq<CombatEvent>,
    msgs: Seq<DamageMsg>,
    n: nat,
) -> (Seq<RageRow>, Seq<CombatEvent>)
    decreases n,
{
    if n == 0 {
        (rage, log)
    } else {
        let (r, l) = after_rage(rage, log, msgs, (n - 1) as nat);
        let msg = msgs[n - 1];
        let r1 = rage_gained(r, msg.source);
        let l1 = l + opt_seq(rage_line(r, msg.source));
        (rage_gained(r1, msg.target), l1 + opt_seq(rage_line(r1, msg.target)))
    }
}

/// Gives rage for damages.
pub fn apply_rage(msgs: &Vec<DamageMsg>, rage: &mut Vec<RageRow>, log: &mut Vec<CombatEvent>)
    ensures
        (final(rage)@, final(log)@) == after_rage(old(rage)@, old(log)@, msgs@, msgs@.len()),
{
    let mut n: usize = 0;
    while n < msgs.len()
        invariant
            n <= msgs.len(),
            (rage@, log@) == after_rage(old(rage)@, old(log)@, msgs@, n as nat),
        decreases msgs.len() - n,
    {
        gain_rage(rage, msgs[n].source, log);
        gain_rage(rage, msgs[n].target, log);
        n = n + 1;
    }
}

// ---------------------------------------------------------------------------
// Healing
// ---------------------------------------------------------------------------

/// Healing on its way through the statuses of a combatant.
#[verifier::ext_equal]
pub struct Cleansing {
    pub remaining: int,
    pub statuses: Seq<EcsStatus>,
    pub lines: Seq<CombatEvent>,
}

/// Healing after one more status: it is used up on damage over time first. What
/// is fully undone is logged and marked as over.
pub open spec fn cleansed(c: Cleansing, s: EcsStatus, target: Entity) -> Cleansing {
    if c.remaining > 0 && s.dot_per_tick > 0 {
        if c.remaining >= s.dot_per_tick {
            Cleansing {
                remaining: c.remaining - s.dot_per_tick,
                statuses: c.statuses.push(
                    EcsStatus { dot_per_tick: 0, rounds_remaining: 0, ..s },
                ),
                lines: c.lines.push(CombatEvent::PoisonCleansed { target, status: s.id }),
            }
        } else {
            Cleansing {
                remaining: 0,
                statuses: c.statuses.push(
                    EcsStatus { dot_per_tick: (s.dot_per_tick - c.remaining) as i32, ..s },
                ),
                lines: c.lines,
            }
        }
    } else {
        Cleansing { statuses: c.statuses.push(s), ..c }
    }
}

/// Healing after all statuses.
pub open spec fn cleanse(amount: int, statuses: Seq<EcsStatus>, target: Entity) -> Cleansing
    decreases statuses.len(),
{
    if statuses.len() == 0 {
        Cleansing { remaining: amount, statuses: Seq::empty(), lines: Seq::empty() }
    } else {
        cleansed(cleanse(amount, statuses.drop_last(), target), statuses.last(), target)
    }
}

/// The statuses that are not over, in order.
pub open spec fn lasting(statuses: Seq<EcsStatus>) -> Seq<EcsStatus>
    decreases statuses.len(),
{
    if statuses.len() == 0 {
        Seq::empty()
    } else if statuses.last().rounds_remaining > 0 {
        lasting(statuses.drop_last()).push(statuses.last())
    } else {
        lasting(statuses.drop_last())
    }
}

pub(crate) fn copy_status(s: &EcsStatus) -> (r: EcsStatus)
    ensures
        r == *s,
{
    EcsStatus {
        id: s.id.clone(),
        rounds_remaining: s.rounds_remaining,
        dot_per_tick: s.dot_per_tick,
        applier: s.applier,
    }
}

/// Uses healing up on damage over time; what is over is removed. The result is
/// what is left of the healing.
fn cleanse_statuses(
    amount: i32,
    statuses: &mut Vec<EcsStatus>,
    target: Entity,
    log: &mut Vec<CombatEvent>,
) -> (remaining: i32)
    ensures
        ({
            let c = cleanse(amount as int, old(statuses)@, target);
            &&& remaining == c.remaining
            &&& final(statuses)@ == lasting(c.statuses)
            &&& final(log)@ == old(log)@ + c.lines
        }),
{
    let ghost before = statuses@;
    let ghost lines = log@;
    let mut remaining: i32 = amount;
    let mut kept: Vec<EcsStatus> = Vec::new();
    let mut i: usize = 0;
    assert(before.take(0) =~= Seq::empty());
    assert(log@ =~= lines + Seq::<CombatEvent>::empty());
    while i < statuses.len()
        invariant
            i <= statuses.len(),
            statuses@ == before,
            ({
                let c = cleanse(amount as int, before.take(i as int), target);
                &&& remaining == c.remaining
                &&& kept@ == lasting(c.statuses)
                &&& log@ == lines + c.lines
            }),
        decreases statuses.len() - i,
    {
        let ghost c = cleanse(amount as int, before.take(i as int), target);
        assert(before.take(i + 1).drop_last() =~= before.take(i as int));
        let mut s = copy_status(&statuses[i]);
        if remaining > 0 && s.dot_per_tick > 0 {
            if remaining >= s.dot_per_tick {
                remaining = remaining - s.dot_per_tick;
                log.push(CombatEvent::PoisonCleansed { target, status: s.id.clone() });
                s.dot_per_tick = 0;
                s.rounds_remaining = 0;
            } else {
                s.dot_per_tick = s.dot_per_tick - remaining;
                remaining = 0;
            }
        }
        let ghost next = cleansed(c, before[i as int], target);
        assert(next.statuses.drop_last() =~= c.statuses);
        assert(s == next.statuses.last());
        assert(log@ =~= lines + next.lines);
        if s.rounds_remaining > 0 {
            kept.push(s);
        }
        i = i + 1;
    }
    assert(before.take(i as int) =~= before);
    *statuses = kept;
    remaining
}

/// A combatant after healing, which its maximum caps.
pub open spec fn healed(row: VitalRow, amount: int) -> VitalRow {
    VitalRow {
        hp: (if row.hp + amount < row.max_hp {
            row.hp + amount
        } else {
            row.max_hp as int
        }) as i32,
        ..row
    }
}

/// Whether healing brings a combatant to hit points that fit 32 bits, by a gain
/// that does.
pub open spec fn heal_fits(row: VitalRow, amount: int) -> bool {
    if row.hp + amount < row.max_hp {
        row.hp + amount >= i32::MIN
    } else {
        i32::MIN <= row.max_hp - row.hp <= i32::MAX
    }
}

/// Vitals, statuses and log while healing is applied.
#[verifier::ext_equal]
pub struct Healing {
    pub vitals: Seq<VitalRow>,
    pub statuses: Seq<StatusModel>,
    pub log: Seq<CombatEvent>,
}

/// What is left of healing after the target's statuses.
pub open spec fn heal_left(h: Healing, msg: HealMsg) -> int {
    match status_place(h.statuses, msg.target) {
        Some(k) => cleanse(msg.amount as int, h.statuses[k].statuses, msg.target).remaining,
        None => msg.amount as int,
    }
}

/// After one healing: damage over time on the target is undone first, what is
/// left restores hit points.
pub open spec fn after_heal(h: Healing, msg: HealMsg) -> Healing {
    let left = heal_left(h, msg);
    let (statuses, lines) = match status_place(h.statuses, msg.target) {
        Some(k) => {
            let c = cleanse(msg.amount as int, h.statuses[k].statuses, msg.target);
            (
                h.statuses.update(
                    k,
                    StatusModel { statuses: lasting(c.statuses), ..h.statuses[k] },
                ),
                h.log + c.lines,
            )
        },
        None => (h.statuses, h.log),
    };
    match vital_place(h.vitals, msg.target) {
        Some(i) if left > 0 => Healing {
            vitals: h.vitals.update(i, healed(h.vitals[i], left)),
            statuses,
            log: lines.push(
                CombatEvent::HealRolled {
                    target: msg.target,
                    formula: msg.breakdown,
                    amount: (healed(h.vitals[i], left).hp - h.vitals[i].hp) as i32,
                },
            ),
        },
        _ => Healing { vitals: h.vitals, statuses, log: lines },
    }
}

/// After the first `n` healings.
pub open spec fn after_heals(h: Healing, msgs: Seq<HealMsg>, n: nat) -> Healing
    decreases n,
{
    if n == 0 {
        h
    } else {
        after_heal(after_heals(h, msgs, (n - 1) as nat), msgs[n - 1])
    }
}

/// Whether no number of the healings leaves 32 bits.
pub open spec fn heals_fit(h: Healing, msgs: Seq<HealMsg>) -> bool {
    forall|n: nat|
        n < msgs.len() ==> {
            let now = #[trigger] after_heals(h, msgs, n);
            let msg = msgs[n as int];
            match vital_place(now.vitals, msg.target) {
                Some(i) => heal_left(now, msg) > 0 ==> heal_fits(
                    now.vitals[i],
                    heal_left(now, msg),
                ),
                None => true,
            }
        }
}

/// Heals a combatant and tells by how much.
pub(crate) fn heal_vital(row: VitalRow, amount: i32) -> (r: (VitalRow, i32))
    requires
        heal_fits(row, amount as int),
    ensures
        r.0 == healed(row, amount as int),
        r.1 == r.0.hp - row.hp,
{
    let sum: i64 = row.hp as i64 + amount as i64;
    let hp: i32 = if sum < row.max_hp as i64 {
        sum as i32
    } else {
        row.max_hp
    };
    (
        VitalRow {
            entity: row.entity,
            team: row.team,
            hp,
            max_hp: row.max_hp,
            armor: row.armor,
            is_dead: row.is_dead,
        },
        hp - row.hp,
    )
}

/// Applies healings one after the other.
pub fn apply_heals(
    msgs: &Vec<HealMsg>,
    vitals: &mut Vec<VitalRow>,
    statuses: &mut Vec<StatusRow>,
    log: &mut Vec<CombatEvent>,
)
    requires
        heals_fit(
            Healing {
                vitals: old(vitals)@,
                statuses: status_models(old(statuses)@),
                log: old(log)@,
            },
            msgs@,
        ),
    ensures
        (Healing {
            vitals: final(vitals)@,
            statuses: status_models(final(statuses)@),
            log: final(log)@,
        }) == after_heals(
            Healing {
                vitals: old(vitals)@,
                statuses: status_models(old(statuses)@),
                log: old(log)@,
            },
            msgs@,
            msgs@.len(),
        ),
{
    let ghost h0 = Healing {
        vitals: vitals@,
        statuses: status_models(statuses@),
        log: log@,
    };
    let mut n: usize = 0;
    while n < msgs.len()
        invariant
            n <= msgs.len(),
            heals_fit(h0, msgs@),
            (Healing { vitals: vitals@, statuses: status_models(statuses@), log: log@ })
                == after_heals(h0, msgs@, n as nat),
        decreases msgs.len() - n,
    {
        let msg = &msgs[n];
        let ghost h = Healing {
            vitals: vitals@,
            statuses: status_models(statuses@),
            log: log@,
        };
        let mut left: i32 = msg.amount;
        if let Some(k) = find_status(statuses, msg.target) {
            left = cleanse_statuses(msg.amount, &mut statuses[k].statuses, msg.target, log);
            assert(status_models(statuses@) =~= after_heal(h, *msg).statuses);
        }
        if left > 0 {
            if let Some(i) = find_vital(vitals, msg.target) {
                let (row, gained) = heal_vital(vitals[i], left);
                vitals.set(i, row);
                log.push(
                    CombatEvent::HealRolled {
                        target: msg.target,
                        formula: msg.breakdown.clone(),
                        amount: gained,
                    },
                );
            }
        }
        assert((Healing { vitals: vitals@, statuses: status_models(statuses@), log: log@ })
            =~= after_heal(h, *msg));
        n = n + 1;
    }
}

/// What effects act on.
#[verifier::ext_equal]
pub struct EffectWorld {
    pub vitals: Seq<VitalRow>,
    pub statuses: Seq<StatusModel>,
    pub rage: Seq<RageRow>,
    pub log: Seq<CombatEvent>,
}

/// After damages, then healings, and then the rage that the damages give.
pub open spec fn after_effects(
    w: EffectWorld,
    damages: Seq<DamageMsg>,
    heals: Seq<HealMsg>,
    content: ContentView,
) -> EffectWorld {
    let (v, l) = after_damages(w.vitals, w.log, damages, damages.len(), w.statuses, content);
    let h = after_heals(
        Healing { vitals: v, statuses: w.statuses, log: l },
        heals,
        heals.len(),
    );
    let (rage, log) = after_rage(w.rage, h.log, damages, damages.len());
    EffectWorld { vitals: h.vitals, statuses: h.statuses, rage, log }
}

/// Applies damages, then healings, then gives rage for the damages.
pub fn apply_effects_system(
    damages: &Vec<DamageMsg>,
    heals: &Vec<HealMsg>,
    vitals: &mut Vec<VitalRow>,
    statuses: &mut Vec<StatusRow>,
    rage: &mut Vec<RageRow>,
    content: &ContentView,
    log: &mut Vec<CombatEvent>,
)
    requires
        ({
            let (v, l) = after_damages(
                old(vitals)@,
                old(log)@,
                damages@,
                damages@.len(),
                status_models(old(statuses)@),
                *content,
            );
            heals_fit(
                Healing { vitals: v, statuses: status_models(old(statuses)@), log: l },
                heals@,
            )
        }),
    ensures
        (EffectWorld {
            vitals: final(vitals)@,
            statuses: status_models(final(statuses)@),
            rage: final(rage)@,
            log: final(log)@,
        }) == after_effects(
            EffectWorld {
                vitals: old(vitals)@,
                statuses: status_models(old(statuses)@),
                rage: old(rage)@,
                log: old(log)@,
            },
            damages@,
            heals@,
            *content,
        ),
{
    apply_damages(damages, vitals, statuses, content, log);
    apply_heals(heals, vitals, statuses, log);
    apply_rage(damages, rage, log);
}

/// Damage over time that statuses deal per turn.
pub open spec fn dot_sum(statuses: Seq<EcsStatus>) -> int
    decreases statuses.len(),
{
    if statuses.len() == 0 {
        0
    } else {
        dot_sum(statuses.drop_last()) + max(statuses.last().dot_per_tick as int, 0)
    }
}

/// Healing is spent one for one on damage over time: what is left of it falls by
/// what the damage over time falls by, and is zero only once it is spent.
pub proof fn law_cleansing_is_one_for_one(
    amount: int,
    statuses: Seq<EcsStatus>,
    target: Entity,
)
    requires
        amount >= 0,
    ensures
        ({
            let c = cleanse(amount, statuses, target);
            &&& 0 <= c.remaining <= amount
            &&& amount - c.remaining == dot_sum(statuses) - dot_sum(c.statuses)
            &&& c.remaining > 0 ==> dot_sum(c.statuses) == 0
        }),
    decreases statuses.len(),
{
    if statuses.len() > 0 {
        law_cleansing_is_one_for_one(amount, statuses.drop_last(), target);
        let c = cleanse(amount, statuses.drop_last(), target);
        let d = cleanse(amount, statuses, target);
        assert(d.statuses.drop_last() =~= c.statuses);
    }
}

/// Damage never brings hit points below zero nor raises them above what they
/// were, and who is at zero is marked as fallen.
pub proof fn law_hurt(row: VitalRow, damage: int)
    requires
        damage >= 1,
        row.hp >= 0,
    ensures
        0 <= hurt(row, damage).hp <= row.hp,
        hurt(row, damage).hp == 0 <==> damage >= row.hp,
        hurt(row, damage).hp == 0 ==> hurt(row, damage).is_dead,
{
}

/// The bonuses of statuses simply add up, whatever their order.
pub proof fn law_bonuses_add_up(
    a: Seq<EcsStatus>,
    b: Seq<EcsStatus>,
    s: EcsStatus,
    content: ContentView,
)
    ensures
        armor_sum(a + b, content) == armor_sum(a, content) + armor_sum(b, content),
        vulnerability_sum(a + b, content) == vulnerability_sum(a, content) + vulnerability_sum(
            b,
            content,
        ),
        armor_sum(seq![s], content) == content.bonuses(s.id@).armor_bonus,
        vulnerability_sum(seq![s], content) == content.bonuses(s.id@).damage_taken_bonus,
    decreases b.len(),
{
    reveal_with_fuel(armor_sum, 2);
    reveal_with_fuel(vulnerability_sum, 2);
    assert(seq![s].drop_last() =~= Seq::empty());
    if b.len() == 0 {
        assert(a + b =~= a);
    } else {
        law_bonuses_add_up(a, b.drop_last(), s, content);
        assert((a + b).drop_last() =~= a + b.drop_last());
    }
}

/// Armor does not count against damage that pierces it: combatants that differ in
/// their armor, or in the armor of their statuses, lose the same. What they lose is
/// the damage and their vulnerability, and one hit point at least.
pub proof fn law_piercing_ignores_armor(
    a: VitalRow,
    b: VitalRow,
    on_a: Seq<EcsStatus>,
    on_b: Seq<EcsStatus>,
    msg: DamageMsg,
    content: ContentView,
)
    requires
        msg.pierces_armor,
        vulnerability_sum(on_a, content) == vulnerability_sum(on_b, content),
    ensures
        damage_dealt(a, on_a, msg, content) == damage_dealt(b, on_b, msg, content),
        damage_dealt(a, on_a, msg, content) >= 1,
        msg.amount + vulnerability_sum(on_a, content) >= 1 ==> damage_dealt(a, on_a, msg, content)
            == msg.amount + vulnerability_sum(on_a, content),
{
}

/// Armor counts point for point against any other damage, that of the combatant as
/// that of its statuses, down to one hit point; vulnerability counts for it, point
/// for point.
pub proof fn law_armor_counts_point_for_point(
    row: VitalRow,
    statuses: Seq<EcsStatus>,
    msg: DamageMsg,
    content: ContentView,
)
    requires
        !msg.pierces_armor,
    ensures
        damage_dealt(row, statuses, msg, content) >= 1,
        msg.amount + vulnerability_sum(statuses, content) > row.armor + armor_sum(
            statuses,
            content,
        ) ==> damage_dealt(row, statuses, msg, content) + row.armor + armor_sum(statuses, content)
            == msg.amount + vulnerability_sum(statuses, content),
        msg.amount + vulnerability_sum(statuses, content) <= row.armor + armor_sum(
            statuses,
            content,
        ) ==> damage_dealt(row, statuses, msg, content) == 1,
{
}

/// Each damage lands on the first combatant of that name and on nobody else. It loses
/// what the damage comes to, stops at zero hit points and has then fallen; a line
/// tells of the damage, and one of the fall where there is one. Without a combatant of
/// that name nothing happens.
pub proof fn law_each_damage_lands(
    vitals: Seq<VitalRow>,
    log: Seq<CombatEvent>,
    msgs: Seq<DamageMsg>,
    n: nat,
    statuses: Seq<StatusModel>,
    content: ContentView,
    i: int,
)
    requires
        0 < n <= msgs.len(),
        is_first_vital(
            after_damages(vitals, log, msgs, (n - 1) as nat, statuses, content).0,
            msgs[n - 1].target,
            i,
        ),
    ensures
        ({
            let (v, l) = after_damages(vitals, log, msgs, (n - 1) as nat, statuses, content);
            let (w, k) = after_damages(vitals, log, msgs, n, statuses, content);
            let lost = damage_dealt(v[i], statuses_of(statuses, v[i].entity), msgs[n - 1], content);
            &&& w.len() == v.len()
            &&& w[i] == VitalRow { hp: w[i].hp, is_dead: w[i].is_dead, ..v[i] }
            &&& v[i].hp > lost ==> w[i].hp == v[i].hp - lost && w[i].is_dead == v[i].is_dead
                && k.len() == l.len() + 1
            &&& v[i].hp <= lost ==> w[i].hp == 0 && w[i].is_dead && k.len() == l.len() + 2
                && k.last() == (CombatEvent::UnitDied { entity: v[i].entity })
            &&& l.is_prefix_of(k)
            &&& k[l.len() as int] matches CombatEvent::DamageRolled {
                target,
                formula,
                armor_reduced,
                final_damage,
            } && target == v[i].entity && formula == msgs[n - 1].breakdown && final_damage
                == lost as i128 && (msgs[n - 1].pierces_armor ==> armor_reduced == 0) && (
            !msgs[n - 1].pierces_armor ==> armor_reduced == (v[i].armor + armor_sum(
                statuses_of(statuses, v[i].entity),
                content,
            )) as i128)
            &&& forall|j: int| 0 <= j < v.len() && j != i ==> (#[trigger] w[j]) == v[j]
        }),
{
    let (v, l) = after_damages(vitals, log, msgs, (n - 1) as nat, statuses, content);
    let msg = msgs[n - 1];
    first_vital_is_found(v, msg.target, i);
    let (w, k) = after_damages(vitals, log, msgs, n, statuses, content);
    let own = statuses_of(statuses, msg.target);
    let lost = damage_dealt(v[i], own, msg, content);
    assert(k == l + damage_lines(v[i], own, msg, content));
    assert(l =~= k.take(l.len() as int));
    if v[i].hp > lost {
        assert(0 < v[i].hp - lost <= i32::MAX);
    }
}

/// Damage on nobody that is there changes nothing.
pub proof fn law_lost_damage_changes_nothing(
    vitals: Seq<VitalRow>,
    log: Seq<CombatEvent>,
    msgs: Seq<DamageMsg>,
    n: nat,
    statuses: Seq<StatusModel>,
    content: ContentView,
    v: Seq<VitalRow>,
)
    requires
        0 < n <= msgs.len(),
        v == after_damages(vitals, log, msgs, (n - 1) as nat, statuses, content).0,
        forall|j: int| 0 <= j < v.len() ==> (#[trigger] v[j]).entity != msgs[n - 1].target,
    ensures
        after_damages(vitals, log, msgs, n, statuses, content) == after_damages(
            vitals,
            log,
            msgs,
            (n - 1) as nat,
            statuses,
            content,
        ),
{
    let target = msgs[n - 1].target;
    assert forall|k: int| !is_first_vital(v, target, k) by {
        if 0 <= k < v.len() {
            assert(v[k].entity != target);
        }
    }
}

pub(crate) proof fn first_vital_is_found(rows: Seq<VitalRow>, entity: Entity, i: int)
    requires
        is_first_vital(rows, entity, i),
    ensures
        vital_place(rows, entity) == Some(i),
{
    let k = choose|k: int| is_first_vital(rows, entity, k);
    assert(is_first_vital(rows, entity, k));
    if k < i {
        assert(rows[k].entity != entity);
    }
    if i < k {
        assert(rows[i].entity != entity);
    }
}

pub(crate) proof fn first_status_is_found(rows: Seq<StatusModel>, entity: Entity, i: int)
    requires
        is_first_status(rows, entity, i),
    ensures
        status_place(rows, entity) == Some(i),
{
    let k = choose|k: int| is_first_status(rows, entity, k);
    assert(is_first_status(rows, entity, k));
    if k < i {
        assert(rows[k].entity != entity);
    }
    if i < k {
        assert(rows[i].entity != entity);
    }
}

/// A combatant is hurt by the statuses that stand in its own row.
pub proof fn law_own_statuses_count(rows: Seq<StatusModel>, entity: Entity, i: int)
    ensures
        is_first_status(rows, entity, i) ==> statuses_of(rows, entity) == rows[i].statuses,
        (forall|j: int| 0 <= j < rows.len() ==> (#[trigger] rows[j]).entity != entity)
            ==> statuses_of(rows, entity).len() == 0,
{
    if is_first_status(rows, entity, i) {
        first_status_is_found(rows, entity, i);
    }
    if forall|j: int| 0 <= j < rows.len() ==> (#[trigger] rows[j]).entity != entity {
        assert forall|k: int| !is_first_status(rows, entity, k) by {
            if 0 <= k < rows.len() {
                assert(rows[k].entity != entity);
            }
        }
    }
}

/// Healing a combatant gives it every point up to its maximum, and none beyond.
pub proof fn law_healing_fills_up(row: VitalRow, amount: int)
    requires
        amount >= 0,
        row.hp <= row.max_hp,
    ensures
        row.hp + amount <= row.max_hp ==> healed(row, amount).hp == row.hp + amount,
        row.hp + amount >= row.max_hp ==> healed(row, amount).hp == row.max_hp,
        healed(row, amount) == (VitalRow { hp: healed(row, amount).hp, ..row }),
{
}

/// A healing goes to the first combatant of that name. What its damage over time does
/// not use up restores its hit points, up to the maximum, and is told as what was
/// restored; nobody else is touched.
pub proof fn law_each_healing_lands(h: Healing, msg: HealMsg, i: int)
    requires
        is_first_vital(h.vitals, msg.target, i),
    ensures
        ({
            let now = after_heal(h, msg);
            let left = heal_left(h, msg);
            &&& now.vitals.len() == h.vitals.len()
            &&& forall|j: int| 0 <= j < h.vitals.len() && j != i ==> (#[trigger] now.vitals[j])
                == h.vitals[j]
            &&& left <= 0 ==> now.vitals[i] == h.vitals[i]
            &&& left > 0 && h.vitals[i].hp + left <= h.vitals[i].max_hp ==> now.vitals[i].hp
                == h.vitals[i].hp + left
            &&& left > 0 && h.vitals[i].hp + left > h.vitals[i].max_hp ==> now.vitals[i].hp
                == h.vitals[i].max_hp
            &&& left > 0 && heal_fits(h.vitals[i], left) ==> (now.log.last()
                matches CombatEvent::HealRolled { target, formula, amount } && target == msg.target
                && formula == msg.breakdown && h.vitals[i].hp + amount == now.vitals[i].hp)
        }),
{
    first_vital_is_found(h.vitals, msg.target, i);
    if let Some(k) = status_place(h.statuses, msg.target) {
        healing_is_not_multiplied(msg.amount as int, h.statuses[k].statuses, msg.target);
    }
}

proof fn healing_is_not_multiplied(amount: int, statuses: Seq<EcsStatus>, target: Entity)
    ensures
        cleanse(amount, statuses, target).remaining <= amount,
    decreases statuses.len(),
{
    if statuses.len() > 0 {
        healing_is_not_multiplied(amount, statuses.drop_last(), target);
    }
}

/// Healing undoes damage over time on the target before anything else; the statuses
/// of others are left alone.
pub proof fn law_healing_cleanses_its_target(h: Healing, msg: HealMsg, k: int)
    requires
        is_first_status(h.statuses, msg.target, k),
        msg.amount >= 0,
    ensures
        ({
            let now = after_heal(h, msg);
            let own = h.statuses[k].statuses;
            &&& now.statuses.len() == h.statuses.len()
            &&& now.statuses[k].entity == msg.target
            &&& forall|j: int| 0 <= j < h.statuses.len() && j != k ==> (#[trigger] now.statuses[j])
                == h.statuses[j]
            &&& dot_sum(own) >= msg.amount ==> heal_left(h, msg) == 0
            &&& dot_sum(own) < msg.amount ==> heal_left(h, msg) == msg.amount - dot_sum(own)
            &&& forall|s: EcsStatus| #[trigger]
                now.statuses[k].statuses.contains(s) ==> s.rounds_remaining > 0
            &&& forall|s: EcsStatus| #[trigger]
                own.contains(s) && s.rounds_remaining > 0 && s.dot_per_tick <= 0
                    ==> now.statuses[k].statuses.contains(s)
        }),
{
    first_status_is_found(h.statuses, msg.target, k);
    let own = h.statuses[k].statuses;
    let c = cleanse(msg.amount as int, own, msg.target);
    law_cleansing_is_one_for_one(msg.amount as int, own, msg.target);
    dots_are_no_debt(c.statuses);
    assert forall|s: EcsStatus| #[trigger] lasting(c.statuses).contains(s) implies s.rounds_remaining
        > 0 by {
        law_lasting(c.statuses, s);
    }
    assert forall|s: EcsStatus| #[trigger]
        own.contains(s) && s.rounds_remaining > 0 && s.dot_per_tick <= 0 implies lasting(
        c.statuses,
    ).contains(s) by {
        let i = choose|i: int| 0 <= i < own.len() && own[i] == s;
        harmless_is_kept(msg.amount as int, own, msg.target, i);
        assert(c.statuses.contains(s));
        law_lasting(c.statuses, s);
    }
}

proof fn dots_are_no_debt(statuses: Seq<EcsStatus>)
    ensures
        dot_sum(statuses) >= 0,
    decreases statuses.len(),
{
    if statuses.len() > 0 {
        dots_are_no_debt(statuses.drop_last());
    }
}

proof fn harmless_is_kept(amount: int, statuses: Seq<EcsStatus>, target: Entity, i: int)
    requires
        0 <= i < statuses.len(),
        statuses[i].dot_per_tick <= 0,
    ensures
        cleanse(amount, statuses, target).statuses.len() == statuses.len(),
        cleanse(amount, statuses, target).statuses[i] == statuses[i],
    decreases statuses.len(),
{
    let rest = statuses.drop_last();
    cleansing_keeps_count(amount, rest, target);
    if i < rest.len() {
        harmless_is_kept(amount, rest, target, i);
    }
}

proof fn cleansing_keeps_count(amount: int, statuses: Seq<EcsStatus>, target: Entity)
    ensures
        cleanse(amount, statuses, target).statuses.len() == statuses.len(),
    decreases statuses.len(),
{
    if statuses.len() > 0 {
        cleansing_keeps_count(amount, statuses.drop_last(), target);
    }
}

/// The statuses that last are just those with rounds left.
pub proof fn law_lasting(statuses: Seq<EcsStatus>, s: EcsStatus)
    ensures
        lasting(statuses).contains(s) <==> statuses.contains(s) && s.rounds_remaining > 0,
    decreases statuses.len(),
{
    let all = lasting(statuses);
    if statuses.len() > 0 {
        let rest = statuses.drop_last();
        let before = lasting(rest);
        law_lasting(rest, s);
        assert(statuses[statuses.len() - 1] == statuses.last());
        if before.contains(s) {
            let k = choose|k: int| 0 <= k < before.len() && before[k] == s;
            assert(all[k] == s);
        }
        if rest.contains(s) {
            let k = choose|k: int| 0 <= k < rest.len() && rest[k] == s;
            assert(statuses[k] == s);
        }
        if statuses.last() == s && s.rounds_remaining > 0 {
            assert(all[all.len() - 1] == s);
        }
        if all.contains(s) && !before.contains(s) {
            let k = choose|k: int| 0 <= k < all.len() && all[k] == s;
            if k < before.len() {
                assert(before[k] == s);
            }
        }
        if statuses.contains(s) && !rest.contains(s) {
            let k = choose|k: int| 0 <= k < statuses.len() && statuses[k] == s;
            if k < rest.len() {
                assert(rest[k] == s);
            }
        }
    }
}

/// Damage enrages whoever deals it and whoever takes it, a point each.
pub proof fn law_damage_enrages_both(
    rage: Seq<RageRow>,
    log: Seq<CombatEvent>,
    msgs: Seq<DamageMsg>,
    n: nat,
    i: int,
    j: int,
)
    requires
        0 < n <= msgs.len(),
        msgs[n - 1].source != msgs[n - 1].target,
        crate::movement::is_first_rage(
            after_rage(rage, log, msgs, (n - 1) as nat).0,
            msgs[n - 1].source,
            i,
        ),
        crate::movement::is_first_rage(
            after_rage(rage, log, msgs, (n - 1) as nat).0,
            msgs[n - 1].target,
            j,
        ),
    ensures
        ({
            let (r, l) = after_rage(rage, log, msgs, (n - 1) as nat);
            let (w, k) = after_rage(rage, log, msgs, n);
            &&& w.len() == r.len()
            &&& r[i].current < r[i].max ==> w[i].current == r[i].current + 1
            &&& r[i].current >= r[i].max ==> w[i].current == r[i].current
            &&& r[j].current < r[j].max ==> w[j].current == r[j].current + 1
            &&& r[j].current >= r[j].max ==> w[j].current == r[j].current
            &&& forall|m: int| 0 <= m < r.len() && m != i && m != j ==> (#[trigger] w[m]) == r[m]
            &&& k.len() == l.len() + 2
            &&& k[l.len() as int] == (CombatEvent::RageGained {
                actor: msgs[n - 1].source,
                current: w[i].current,
                max: r[i].max,
            })
            &&& k.last() == (CombatEvent::RageGained {
                actor: msgs[n - 1].target,
                current: w[j].current,
                max: r[j].max,
            })
        }),
{
    let (r, l) = after_rage(rage, log, msgs, (n - 1) as nat);
    let msg = msgs[n - 1];
    crate::movement::first_rage_is_found(r, msg.source, i);
    let r1 = rage_gained(r, msg.source);
    assert forall|m: int| 0 <= m < j implies (#[trigger] r1[m]).entity != msg.target by {
        assert(r[m].entity != msg.target);
    }
    assert(crate::movement::is_first_rage(r1, msg.target, j));
    crate::movement::first_rage_is_found(r1, msg.target, j);
}

proof fn healing_needs_no_log(a: Healing, b: Healing, msgs: Seq<HealMsg>, n: nat)
    requires
        n <= msgs.len(),
        a.vitals == b.vitals,
        a.statuses == b.statuses,
    ensures
        after_heals(a, msgs, n).vitals == after_heals(b, msgs, n).vitals,
        after_heals(a, msgs, n).statuses == after_heals(b, msgs, n).statuses,
    decreases n,
{
    if n > 0 {
        healing_needs_no_log(a, b, msgs, (n - 1) as nat);
    }
}

pub(crate) proof fn rage_needs_no_log(
    rage: Seq<RageRow>,
    a: Seq<CombatEvent>,
    b: Seq<CombatEvent>,
    msgs: Seq<DamageMsg>,
    n: nat,
)
    requires
        n <= msgs.len(),
    ensures
        after_rage(rage, a, msgs, n).0 == after_rage(rage, b, msgs, n).0,
    decreases n,
{
    if n > 0 {
        rage_needs_no_log(rage, a, b, msgs, (n - 1) as nat);
    }
}

/// Damages and healings of one time have the same effect as the damages first and the
/// healings after them. Only damages give rage.
pub proof fn law_damages_come_before_healings(
    w: EffectWorld,
    damages: Seq<DamageMsg>,
    heals: Seq<HealMsg>,
    content: ContentView,
)
    ensures
        ({
            let whole = after_effects(w, damages, heals, content);
            let first = after_effects(w, damages, Seq::empty(), content);
            let second = after_effects(first, Seq::empty(), heals, content);
            &&& whole.vitals == second.vitals
            &&& whole.statuses == second.statuses
            &&& whole.rage == second.rage
            &&& second.rage == first.rage
            &&& first.statuses == w.statuses
        }),
{
    let (v, l) = after_damages(w.vitals, w.log, damages, damages.len(), w.statuses, content);
    let h = Healing { vitals: v, statuses: w.statuses, log: l };
    let first = after_effects(w, damages, Seq::empty(), content);
    healing_needs_no_log(
        h,
        Healing { vitals: first.vitals, statuses: first.statuses, log: first.log },
        heals,
        heals.len(),
    );
    rage_needs_no_log(w.rage, l, after_heals(h, heals, heals.len()).log, damages, damages.len());
}

/// Two rounds of damages have the same effect as all of them at once.
pub proof fn law_damages_compose(
    vitals: Seq<VitalRow>,
    log: Seq<CombatEvent>,
    a: Seq<DamageMsg>,
    b: Seq<DamageMsg>,
    statuses: Seq<StatusModel>,
    content: ContentView,
)
    ensures
        ({
            let (v, l) = after_damages(vitals, log, a, a.len(), statuses, content);
            after_damages(vitals, log, a + b, (a + b).len(), statuses, content) == after_damages(
                v,
                l,
                b,
                b.len(),
                statuses,
                content,
            )
        }),
{
    damages_in_parts(vitals, log, a, b, b.len(), statuses, content);
}

proof fn damages_in_parts(
    vitals: Seq<VitalRow>,
    log: Seq<CombatEvent>,
    a: Seq<DamageMsg>,
    b: Seq<DamageMsg>,
    n: nat,
    statuses: Seq<StatusModel>,
    content: ContentView,
)
    requires
        n <= b.len(),
    ensures
        ({
            let (v, l) = after_damages(vitals, log, a, a.len(), statuses, content);
            after_damages(vitals, log, a + b, a.len() + n, statuses, content) == after_damages(
                v,
                l,
                b,
                n,
                statuses,
                content,
            )
        }),
    decreases n,
{
    if n > 0 {
        damages_in_parts(vitals, log, a, b, (n - 1) as nat, statuses, content);
        assert((a + b)[a.len() + n - 1] == b[n - 1]);
        assert((a.len() + n - 1) as nat == a.len() + (n - 1) as nat);
    } else {
        only_the_first_count(vitals, log, a, a + b, a.len(), statuses, content);
    }
}

proof fn only_the_first_count(
    vitals: Seq<VitalRow>,
    log: Seq<CombatEvent>,
    a: Seq<DamageMsg>,
    b: Seq<DamageMsg>,
    n: nat,
    statuses: Seq<StatusModel>,
    content: ContentView,
)
    requires
        n <= a.len(),
        n <= b.len(),
        forall|k: int| 0 <= k < n ==> #[trigger] a[k] == b[k],
    ensures
        after_damages(vitals, log, a, n, statuses, content) == after_damages(
            vitals,
            log,
            b,
            n,
            statuses,
            content,
        ),
    decreases n,
{
    if n > 0 {
        only_the_first_count(vitals, log, a, b, (n - 1) as nat, statuses, content);
        assert(a[n - 1] == b[n - 1]);
    }
}

} // verus!
