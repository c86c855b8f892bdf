//! Walking on the board, and the opportunity attacks that it provokes.

use crate::bootstrap::{fits, EcsStatus};
use crate::content::{ContentView, DiceExpr, EffectDef};
use crate::effects::{armor_sum, sum_bonuses, vulnerability_sum};
use crate::effects_math::{final_damage, final_damage_i32};
use crate::events::CombatEvent;
use crate::hex::{distance, Board, Hex};
use crate::ids::Entity;
use crate::outcome::DiceSource;
use crate::positions::{held_by_other, HexPositions};
use crate::state::Team;
use crate::targets::all_in_range;
use crate::translate::opt_seq;
use vstd::prelude::*;

verus! {

// ---------------------------------------------------------------------------
// Whether a move may begin
// ---------------------------------------------------------------------------

/// What decides whether a combatant may move.
#[derive(Clone, Copy, PartialEq, Eq, Structural, Debug)]
pub struct MoverRow {
    pub can_move: bool,
    pub movement_points: i32,
}

/// Whether a move may begin: it is asked of the combatant whose turn it is, who
/// can move that far, and it ends on a free cell of the board.
pub open spec fn may_move(
    actor: Entity,
    path: Seq<Hex>,
    active: Option<Entity>,
    mover: Option<MoverRow>,
    board: Board,
    cells: Map<Entity, Hex>,
) -> bool {
    &&& active == Some(actor)
    &&& path.len() > 0
    &&& mover matches Some(m) && m.can_move && path.len() <= m.movement_points
    &&& board.contains(path.last())
    &&& !held_by_other(cells, path.last(), actor)
}

/// Whether a move may begin.
pub fn check_move(
    actor: Entity,
    path: &Vec<Hex>,
    active: Option<Entity>,
    mover: Option<MoverRow>,
    board: &Board,
    positions: &HexPositions,
) -> (r: bool)
    requires
        board.wf(),
    ensures
        r == may_move(actor, path@, active, mover, *board, positions@),
{
    let is_active = match active {
        Some(a) => a == actor,
        None => false,
    };
    if !is_active || path.len() == 0 {
        return false;
    }
    match mover {
        Some(m) => {
            if !m.can_move || m.movement_points < 0 || path.len() as u64 > m.movement_points as u64 {
                return false;
            }
        },
        None => {
            return false;
        },
    }
    let dest = path[path.len() - 1];
    board.in_bounds(dest) && !positions.held_by_other(dest, actor)
}

// ---------------------------------------------------------------------------
// Who may attack the mover
// ---------------------------------------------------------------------------

/// A combatant that may attack whoever walks away from it.
#[derive(Clone, Copy, PartialEq, Eq, Structural, Debug)]
pub struct Provoker {
    pub entity: Entity,
    pub pos: Hex,
    pub dice: DiceExpr,
    pub str_mod: i32,
    pub reactions_left: u8,
}

/// What decides whether a combatant may attack the mover.
#[derive(Debug)]
pub struct WatcherRow {
    pub entity: Entity,
    pub team: Team,
    pub hp: i32,
    pub is_dead: bool,
    pub statuses: Vec<String>,
    pub abilities: Vec<String>,
    pub weapon_dice: Option<DiceExpr>,
    pub str_mod: i32,
    pub reactions_left: u8,
}

/// Whether one of the statuses skips turns.
pub open spec fn is_stunned(statuses: Seq<String>, content: ContentView) -> bool {
    exists|i: int|
        0 <= i < statuses.len() && (content.status((#[trigger] statuses[i])@) matches Some(d)
            && d.skips_turn)
}

/// Whether one of the abilities is a weapon attack at arm's length.
pub open spec fn strikes_adjacent(abilities: Seq<String>, content: ContentView) -> bool {
    exists|i: int|
        0 <= i < abilities.len() && (content.ability((#[trigger] abilities[i])@) matches Some(d)
            && d.effect is WeaponAttack && d.range.max == 1)
}

/// The attacker that a combatant is to a mover of the given team: an enemy on
/// its feet and not stunned, with a melee attack, a reaction left, a place on
/// the board and a weapon.
pub open spec fn provoker_of(
    row: WatcherRow,
    mover: Entity,
    team: Team,
    content: ContentView,
    cells: Map<Entity, Hex>,
) -> Option<Provoker> {
    if row.entity != mover && !row.is_dead && row.hp > 0 && row.team != team && !is_stunned(
        row.statuses@,
        content,
    ) && strikes_adjacent(row.abilities@, content) && row.reactions_left > 0
        && cells.contains_key(row.entity) && row.weapon_dice is Some {
        Some(
            Provoker {
                entity: row.entity,
                pos: cells[row.entity],
                dice: row.weapon_dice->0,
                str_mod: row.str_mod,
                reactions_left: row.reactions_left,
            },
        )
    } else {
        None
    }
}

/// The attackers among some combatants, in order.
pub open spec fn provokers_of(
    rows: Seq<WatcherRow>,
    mover: Entity,
    team: Team,
    content: ContentView,
    cells: Map<Entity, Hex>,
) -> Seq<Provoker>
    decreases rows.len(),
{
    if rows.len() == 0 {
        Seq::empty()
    } else {
        let rest = provokers_of(rows.drop_last(), mover, team, content, cells);
        match provoker_of(rows.last(), mover, team, content, cells) {
            Some(p) => rest.push(p),
            None => rest,
        }
    }
}

/// Whether one of the statuses skips turns.
pub fn check_stunned(statuses: &Vec<String>, content: &ContentView) -> (r: bool)
    ensures
        r == is_stunned(statuses@, *content),
{
    let mut i: usize = 0;
    while i < statuses.len()
        invariant
            i <= statuses.len(),
            forall|j: int|
                0 <= j < i ==> !(content.status((#[trigger] statuses@[j])@) matches Some(d)
                    && d.skips_turn),
        decreases statuses.len() - i,
    {
        if let Some(d) = content.status_def(&statuses[i]) {
            if d.skips_turn {
                assert(content.status(statuses@[i as int]@) matches Some(d) && d.skips_turn);
                return true;
            }
        }
        i = i + 1;
    }
    false
}

fn check_strikes_adjacent(abilities: &Vec<String>, content: &ContentView) -> (r: bool)
    ensures
        r == strikes_adjacent(abilities@, *content),
{
    let mut i: usize = 0;
    while i < abilities.len()
        invariant
            i <= abilities.len(),
            forall|j: int|
                0 <= j < i ==> !(content.ability((#[trigger] abilities@[j])@) matches Some(d)
                    && d.effect is WeaponAttack && d.range.max == 1),
        decreases abilities.len() - i,
    {
        if let Some(d) = content.ability_def(&abilities[i]) {
            let weapon = match &d.effect {
                EffectDef::WeaponAttack { .. } => true,
                _ => false,
            };
            if weapon && d.range.max == 1 {
                assert(content.ability(abilities@[i as int]@) matches Some(d)
                    && d.effect is WeaponAttack && d.range.max == 1);
                return true;
            }
        }
        i = i + 1;
    }
    false
}

/// The attackers among some combatants, in order.
pub fn collect_provokers(
    rows: &Vec<WatcherRow>,
    mover: Entity,
    team: Team,
    content: &ContentView,
    positions: &HexPositions,
) -> (r: Vec<Provoker>)
    ensures
        r@ == provokers_of(rows@, mover, team, *content, positions@),
{
    let mut r: Vec<Provoker> = Vec::new();
    let mut i: usize = 0;
    assert(rows@.take(0) =~= Seq::empty());
    while i < rows.len()
        invariant
            i <= rows.len(),
            r@ == provokers_of(rows@.take(i as int), mover, team, *content, positions@),
        decreases rows.len() - i,
    {
        let row = &rows[i];
        assert(rows@.take(i + 1).drop_last() =~= rows@.take(i as int));
        if row.entity != mover && !row.is_dead && row.hp > 0 && row.team != team
            && !check_stunned(&row.statuses, content) && check_strikes_adjacent(
            &row.abilities,
            content,
        ) && row.reactions_left > 0 {
            if let Some(pos) = positions.get(row.entity) {
                if let Some(dice) = row.weapon_dice {
                    r.push(
                        Provoker {
                            entity: row.entity,
                            pos,
                            dice,
                            str_mod: row.str_mod,
                            reactions_left: row.reactions_left,
                        },
                    );
                }
            }
        }
        i = i + 1;
    }
    assert(rows@.take(i as int) =~= rows@);
    r
}

// ---------------------------------------------------------------------------
// The walk
// ---------------------------------------------------------------------------

/// An opportunity attack that was made.
#[derive(Clone, Copy, PartialEq, Eq, Structural, Debug)]
pub struct Fired {
    pub attacker: Entity,
    pub damage: i32,
    pub killed: bool,
}

/// Why a walk cannot go on.
#[derive(Clone, Copy, PartialEq, Eq, Structural, Debug)]
pub enum Halt {
    /// An attack has no roll yet; these dice give it.
    NeedsRoll(DiceExpr),
    /// The numbers of an attack leave 32 bits.
    OutOfRange,
}

/// How far a walk has come.
#[verifier::ext_equal]
pub struct WalkModel {
    pub hp: int,
    /// The cell that the current step leaves.
    pub prev: Hex,
    /// Number of steps taken, the fatal one included.
    pub walked: nat,
    /// Reactions that each attacker has left.
    pub reactions: Seq<u8>,
    pub fired: Seq<Fired>,
    pub died: bool,
    pub halt: Option<Halt>,
}

impl WalkModel {
    /// Whether nothing happens any more.
    pub open spec fn is_over(self) -> bool {
        self.died || self.halt is Some
    }
}

/// What the mover has against attacks.
pub struct Guard {
    pub armor: int,
    pub vulnerability: int,
}

/// Whether an attacker attacks on a step: it has a reaction left and the step
/// leaves its reach.
pub open spec fn attacks(p: Provoker, reactions: u8, prev: Hex, step: Hex) -> bool {
    reactions > 0 && distance(prev, p.pos) == 1 && distance(step, p.pos) != 1
}

/// Whether the numbers of an attack fit 32 bits on the way to its damage.
pub open spec fn attack_fits(roll: i32, str_mod: i32, guard: Guard) -> bool {
    &&& fits(roll + str_mod)
    &&& fits(roll + str_mod - guard.armor)
    &&& fits(roll + str_mod - guard.armor + guard.vulnerability)
}

/// The damage of an attack.
pub open spec fn attack_damage(roll: i32, str_mod: i32, guard: Guard) -> int {
    final_damage(roll + str_mod, guard.armor, guard.vulnerability, false)
}

/// The walk after attacker number `j` had its chance at a step. Its damage, if
/// it attacks, comes from the next roll.
pub open spec fn strike(
    t: WalkModel,
    p: Provoker,
    j: int,
    step: Hex,
    guard: Guard,
    rolls: Seq<i32>,
) -> WalkModel {
    if attacks(p, t.reactions[j], t.prev, step) {
        let k = t.fired.len() as int;
        if k >= rolls.len() {
            WalkModel { halt: Some(Halt::NeedsRoll(p.dice)), ..t }
        } else if !attack_fits(rolls[k], p.str_mod, guard) {
            WalkModel { halt: Some(Halt::OutOfRange), ..t }
        } else {
            let damage = attack_damage(rolls[k], p.str_mod, guard);
            let hp = crate::hex::max(t.hp - damage, 0);
            WalkModel {
                hp,
                reactions: t.reactions.update(j, (t.reactions[j] - 1) as u8),
                fired: t.fired.push(
                    Fired { attacker: p.entity, damage: damage as i32, killed: hp == 0 },
                ),
                died: hp == 0,
                ..t
            }
        }
    } else {
        t
    }
}

/// The walk after the first `n` attackers had their chance at a step. Once the
/// mover has fallen nobody attacks any more.
pub open spec fn sweep(
    t: WalkModel,
    provokers: Seq<Provoker>,
    n: nat,
    step: Hex,
    guard: Guard,
    rolls: Seq<i32>,
) -> WalkModel
    decreases n,
{
    if n == 0 {
        t
    } else {
        let s = sweep(t, provokers, (n - 1) as nat, step, guard, rolls);
        if s.is_over() {
            s
        } else {
            strike(s, provokers[n - 1], n - 1, step, guard, rolls)
        }
    }
}

/// The walk after the first `n` steps. It ends where the mover falls.
pub open spec fn walk(
    start: WalkModel,
    path: Seq<Hex>,
    n: nat,
    provokers: Seq<Provoker>,
    guard: Guard,
    rolls: Seq<i32>,
) -> WalkModel
    decreases n,
{
    if n == 0 {
        start
    } else {
        let t = walk(start, path, (n - 1) as nat, provokers, guard, rolls);
        if t.is_over() {
            t
        } else {
            let step = path[n - 1];
            let u = sweep(
                WalkModel { walked: t.walked + 1, ..t },
                provokers,
                provokers.len(),
                step,
                guard,
                rolls,
            );
            WalkModel { prev: step, ..u }
        }
    }
}

/// A walk that has not begun.
pub open spec fn walk_start(hp: int, pos: Hex, provokers: Seq<Provoker>) -> WalkModel {
    WalkModel {
        hp,
        prev: pos,
        walked: 0,
        reactions: Seq::new(provokers.len(), |j: int| provokers[j].reactions_left),
        fired: Seq::empty(),
        died: false,
        halt: None,
    }
}

/// A whole walk, as far as the rolls allow.
pub open spec fn whole_walk(
    hp: int,
    pos: Hex,
    path: Seq<Hex>,
    provokers: Seq<Provoker>,
    guard: Guard,
    rolls: Seq<i32>,
) -> WalkModel {
    walk(walk_start(hp, pos, provokers), path, path.len(), provokers, guard, rolls)
}

/// The result of a walk.
#[derive(Debug)]
pub struct Walk {
    /// Hit points left.
    pub hp: i32,
    /// Number of steps taken, the fatal one included.
    pub walked: usize,
    pub fired: Vec<Fired>,
    pub died: bool,
}

/// Whether `w` is what a walk came to that was not halted.
pub open spec fn is_walk(w: Walk, t: WalkModel) -> bool {
    &&& t.halt is None
    &&& w.hp == t.hp
    &&& w.walked == t.walked
    &&& w.fired@ == t.fired
    &&& w.died == t.died
}

/// How far a walk gets with some rolls.
#[derive(Debug)]
pub enum Replay {
    Done(Walk),
    Halted(Halt),
}

proof fn sweep_once_over(
    t: WalkModel,
    provokers: Seq<Provoker>,
    n: nat,
    m: nat,
    step: Hex,
    guard: Guard,
    rolls: Seq<i32>,
)
    requires
        n <= m,
        n == m || sweep(t, provokers, n, step, guard, rolls).is_over(),
    ensures
        sweep(t, provokers, m, step, guard, rolls) == sweep(t, provokers, n, step, guard, rolls),
    decreases m,
{
    if n < m {
        sweep_once_over(t, provokers, n, (m - 1) as nat, step, guard, rolls);
    }
}

proof fn walk_once_over(
    start: WalkModel,
    path: Seq<Hex>,
    n: nat,
    m: nat,
    provokers: Seq<Provoker>,
    guard: Guard,
    rolls: Seq<i32>,
)
    requires
        n <= m,
        n == m || walk(start, path, n, provokers, guard, rolls).is_over(),
    ensures
        walk(start, path, m, provokers, guard, rolls) == walk(
            start,
            path,
            n,
            provokers,
            guard,
            rolls,
        ),
    decreases m,
{
    if n < m {
        walk_once_over(start, path, n, (m - 1) as nat, provokers, guard, rolls);
    }
}

/// The damage of an opportunity attack; none where the numbers leave 32 bits on
/// the way.
fn checked_damage(roll: i32, str_mod: i32, armor: i32, vulnerability: i32) -> (r: Option<i32>)
    ensures
        ({
            let guard = Guard { armor: armor as int, vulnerability: vulnerability as int };
            match r {
                Some(d) => attack_fits(roll, str_mod, guard) && d == attack_damage(
                    roll,
                    str_mod,
                    guard,
                ),
                None => !attack_fits(roll, str_mod, guard),
            }
        }),
{
    let raw: i32 = roll.checked_add(str_mod)?;
    let rest: i32 = raw.checked_sub(armor)?;
    let _total: i32 = rest.checked_add(vulnerability)?;
    Some(final_damage_i32(raw, armor, vulnerability, false))
}

/// Whether it can be told when a mover walks away from someone; without provokers
/// no distance is needed.
pub open spec fn walk_fits(pos: Hex, path: Seq<Hex>, provokers: Seq<Provoker>) -> bool {
    provokers.len() > 0 ==> {
        &&& pos.in_range()
        &&& all_in_range(path)
        &&& forall|i: int| 0 <= i < provokers.len() ==> (#[trigger] provokers[i]).pos.in_range()
    }
}

/// Walks a path, one step after the other, with given rolls. Whoever the mover
/// walks away from attacks, as long as it has reactions left. The walk ends early
/// where the mover falls, where an attack has no roll, or where the numbers of an
/// attack leave 32 bits.
pub fn replay_walk(
    hp: i32,
    pos: Hex,
    path: &Vec<Hex>,
    provokers: &Vec<Provoker>,
    armor: i32,
    vulnerability: i32,
    rolls: &Vec<i32>,
) -> (r: Replay)
    requires
        walk_fits(pos, path@, provokers@),
    ensures
        ({
            let guard = Guard { armor: armor as int, vulnerability: vulnerability as int };
            let t = whole_walk(hp as int, pos, path@, provokers@, guard, rolls@);
            match r {
                Replay::Done(w) => is_walk(w, t),
                Replay::Halted(h) => t.halt == Some(h),
            }
        }),
{
    let ghost guard = Guard { armor: armor as int, vulnerability: vulnerability as int };
    let ghost start = walk_start(hp as int, pos, provokers@);
    let mut reactions: Vec<u8> = Vec::new();
    let mut k: usize = 0;
    while k < provokers.len()
        invariant
            k <= provokers.len(),
            reactions@ == Seq::new(k as nat, |j: int| provokers@[j].reactions_left),
        decreases provokers.len() - k,
    {
        reactions.push(provokers[k].reactions_left);
        assert(reactions@ =~= Seq::new((k + 1) as nat, |j: int| provokers@[j].reactions_left));
        k = k + 1;
    }
    let mut fired: Vec<Fired> = Vec::new();
    let mut hp_left: i32 = hp;
    let mut prev = pos;
    let mut died = false;
    let mut i: usize = 0;
    let ghost t0 = WalkModel {
        hp: hp_left as int,
        prev,
        walked: 0,
        reactions: reactions@,
        fired: fired@,
        died,
        halt: None,
    };
    assert(t0 =~= start);
    while i < path.len() && !died
        invariant
            i <= path.len(),
            walk_fits(prev, path@, provokers@),
            start == walk_start(hp as int, pos, provokers@),
            guard == (Guard { armor: armor as int, vulnerability: vulnerability as int }),
            reactions@.len() == provokers@.len(),
            (WalkModel {
                hp: hp_left as int,
                prev,
                walked: i as nat,
                reactions: reactions@,
                fired: fired@,
                died,
                halt: None,
            }) == walk(start, path@, i as nat, provokers@, guard, rolls@),
        decreases path.len() - i,
    {
        let ghost t = walk(start, path@, i as nat, provokers@, guard, rolls@);
        let ghost t1 = WalkModel { walked: t.walked + 1, ..t };
        let step = path[i];
        assert(provokers@.len() > 0 ==> path@[i as int].in_range());
        let mut j: usize = 0;
        while j < provokers.len() && !died
            invariant
                j <= provokers.len(),
                i < path.len(),
                step == path@[i as int],
                start == walk_start(hp as int, pos, provokers@),
                walk_fits(prev, path@, provokers@),
                provokers@.len() > 0 ==> step.in_range(),
                t1.prev == prev,
                !t.is_over(),
                t1 == (WalkModel { walked: t.walked + 1, ..t }),
                t == walk(start, path@, i as nat, provokers@, guard, rolls@),
                guard == (Guard { armor: armor as int, vulnerability: vulnerability as int }),
                reactions@.len() == provokers@.len(),
                (WalkModel {
                    hp: hp_left as int,
                    prev,
                    walked: (i + 1) as nat,
                    reactions: reactions@,
                    fired: fired@,
                    died,
                    halt: None,
                }) == sweep(t1, provokers@, j as nat, step, guard, rolls@),
            decreases provokers.len() - j,
        {
            let p = provokers[j];
            assert(provokers@[j as int].pos.in_range());
            if reactions[j] > 0 && prev.unsigned_distance_to(p.pos) == 1
                && step.unsigned_distance_to(p.pos) != 1 {
                let halt: Option<Halt> = if fired.len() >= rolls.len() {
                    Some(Halt::NeedsRoll(p.dice))
                } else {
                    match checked_damage(rolls[fired.len()], p.str_mod, armor, vulnerability) {
                        None => Some(Halt::OutOfRange),
                        Some(damage) => {
                            hp_left = if hp_left as i64 - damage as i64 <= 0 {
                                0
                            } else {
                                hp_left - damage
                            };
                            let left: u8 = reactions[j] - 1;
                            reactions.set(j, left);
                            died = hp_left == 0;
                            fired.push(Fired { attacker: p.entity, damage, killed: died });
                            None
                        },
                    }
                };
                if let Some(h) = halt {
                    proof {
                        let n = (j + 1) as nat;
                        assert(sweep(t1, provokers@, n, step, guard, rolls@).halt == Some(h));
                        sweep_once_over(
                            t1,
                            provokers@,
                            n,
                            provokers@.len(),
                            step,
                            guard,
                            rolls@,
                        );
                        let m = (i + 1) as nat;
                        assert(walk(start, path@, m, provokers@, guard, rolls@).halt == Some(h));
                        walk_once_over(start, path@, m, path@.len(), provokers@, guard, rolls@);
                    }
                    return Replay::Halted(h);
                }
            }
            assert((WalkModel {
                hp: hp_left as int,
                prev,
                walked: (i + 1) as nat,
                reactions: reactions@,
                fired: fired@,
                died,
                halt: None,
            }) =~= sweep(t1, provokers@, (j + 1) as nat, step, guard, rolls@));
            j = j + 1;
        }
        proof {
            sweep_once_over(t1, provokers@, j as nat, provokers@.len(), step, guard, rolls@);
        }
        prev = step;
        i = i + 1;
    }
    proof {
        walk_once_over(start, path@, i as nat, path@.len(), provokers@, guard, rolls@);
    }
    Replay::Done(Walk { hp: hp_left, walked: i, fired, died })
}

/// Reactions of all attackers together.
pub open spec fn reaction_sum(reactions: Seq<u8>) -> nat
    decreases reactions.len(),
{
    if reactions.len() == 0 {
        0
    } else {
        reaction_sum(reactions.drop_last()) + reactions.last() as nat
    }
}

proof fn reaction_sum_of_update(reactions: Seq<u8>, j: int, v: u8)
    requires
        0 <= j < reactions.len(),
    ensures
        reaction_sum(reactions.update(j, v)) == reaction_sum(reactions) - reactions[j] + v,
        reaction_sum(reactions) >= reactions[j],
    decreases reactions.len(),
{
    if j < reactions.len() - 1 {
        assert(reactions.update(j, v).drop_last() =~= reactions.drop_last().update(j, v));
        reaction_sum_of_update(reactions.drop_last(), j, v);
    } else {
        assert(reactions.update(j, v).drop_last() =~= reactions.drop_last());
    }
}

/// What holds of the rolls and reactions of a walk at any time: each attack took
/// one of both, and where a roll is wanted all are used up and a reaction is left.
spec fn rolls_are_spent(t: WalkModel, total: nat, attackers: nat, rolls: Seq<i32>) -> bool {
    &&& t.reactions.len() == attackers
    &&& reaction_sum(t.reactions) + t.fired.len() == total
    &&& t.fired.len() <= rolls.len()
    &&& (t.halt matches Some(Halt::NeedsRoll(_)) ==> t.fired.len() == rolls.len() && reaction_sum(
        t.reactions,
    ) > 0)
}

proof fn sweep_spends_rolls(
    t: WalkModel,
    provokers: Seq<Provoker>,
    n: nat,
    step: Hex,
    guard: Guard,
    rolls: Seq<i32>,
    total: nat,
)
    requires
        n <= provokers.len(),
        rolls_are_spent(t, total, provokers.len(), rolls),
    ensures
        rolls_are_spent(
            sweep(t, provokers, n, step, guard, rolls),
            total,
            provokers.len(),
            rolls,
        ),
        sweep(t, provokers, n, step, guard, rolls).walked == t.walked,
    decreases n,
{
    if n > 0 {
        sweep_spends_rolls(t, provokers, (n - 1) as nat, step, guard, rolls, total);
        let s = sweep(t, provokers, (n - 1) as nat, step, guard, rolls);
        if !s.is_over() && attacks(provokers[n - 1], s.reactions[n - 1], s.prev, step) {
            reaction_sum_of_update(s.reactions, n - 1, (s.reactions[n - 1] - 1) as u8);
        }
    }
}

proof fn walk_spends_rolls(
    start: WalkModel,
    path: Seq<Hex>,
    n: nat,
    provokers: Seq<Provoker>,
    guard: Guard,
    rolls: Seq<i32>,
    total: nat,
)
    requires
        start.walked == 0,
        rolls_are_spent(start, total, provokers.len(), rolls),
    ensures
        rolls_are_spent(
            walk(start, path, n, provokers, guard, rolls),
            total,
            provokers.len(),
            rolls,
        ),
        walk(start, path, n, provokers, guard, rolls).walked <= n,
    decreases n,
{
    if n > 0 {
        walk_spends_rolls(start, path, (n - 1) as nat, provokers, guard, rolls, total);
        let t = walk(start, path, (n - 1) as nat, provokers, guard, rolls);
        if !t.is_over() {
            let t1 = WalkModel { walked: t.walked + 1, ..t };
            sweep_spends_rolls(t1, provokers, provokers.len(), path[n - 1], guard, rolls, total);
        }
    }
}

/// Whether roll number `k` of a walk is one that the walk asked for: a roll of the
/// dice of the attack that wanted one, made by the source as the earlier rolls
/// left it.
pub open spec fn is_asked_roll<R: DiceSource>(
    states: Seq<R>,
    rolls: Seq<i32>,
    k: int,
    hp: int,
    pos: Hex,
    path: Seq<Hex>,
    provokers: Seq<Provoker>,
    guard: Guard,
) -> bool {
    match whole_walk(hp, pos, path, provokers, guard, rolls.take(k)).halt {
        Some(Halt::NeedsRoll(dice)) => exists|text: Seq<char>| #[trigger]
            R::may_roll(states[k], dice, false, states[k + 1], rolls[k], text),
        _ => false,
    }
}

/// Whether some rolls are those that a walk asks for, one after the other. The
/// source of the dice is in `states[k]` before roll number `k`.
pub open spec fn are_asked_rolls<R: DiceSource>(
    states: Seq<R>,
    rolls: Seq<i32>,
    hp: int,
    pos: Hex,
    path: Seq<Hex>,
    provokers: Seq<Provoker>,
    guard: Guard,
) -> bool {
    &&& states.len() == rolls.len() + 1
    &&& forall|k: int|
        0 <= k < rolls.len() ==> #[trigger] is_asked_roll(
            states,
            rolls,
            k,
            hp,
            pos,
            path,
            provokers,
            guard,
        )
}

/// Whether `r` is what the whole walk comes to under the given rolls: nothing
/// where the numbers of an attack leave 32 bits.
pub open spec fn is_walk_under(
    r: Option<Walk>,
    rolls: Seq<i32>,
    hp: int,
    pos: Hex,
    path: Seq<Hex>,
    provokers: Seq<Provoker>,
    guard: Guard,
) -> bool {
    let t = whole_walk(hp, pos, path, provokers, guard, rolls);
    match r {
        Some(w) => is_walk(w, t),
        None => t.halt == Some(Halt::OutOfRange),
    }
}

/// Whether `r` is what a walk may come to whose attacks are rolled by `before`,
/// which leaves `after`.
pub open spec fn is_rolled_walk<R: DiceSource>(
    r: Option<Walk>,
    before: R,
    after: R,
    hp: int,
    pos: Hex,
    path: Seq<Hex>,
    provokers: Seq<Provoker>,
    guard: Guard,
) -> bool {
    exists|states: Seq<R>, rolls: Seq<i32>|
        #[trigger] are_asked_rolls(states, rolls, hp, pos, path, provokers, guard)
            && states.first() == before && states.last() == after && is_walk_under(
            r,
            rolls,
            hp,
            pos,
            path,
            provokers,
            guard,
        )
}

/// Walks a path as [`replay_walk`] does, and rolls with `rng` for each attack as
/// it comes. The result is `None` when the numbers of an attack leave 32 bits.
pub fn walk_path<R: DiceSource>(
    hp: i32,
    pos: Hex,
    path: &Vec<Hex>,
    provokers: &Vec<Provoker>,
    armor: i32,
    vulnerability: i32,
    rng: &mut R,
) -> (r: Option<Walk>)
    requires
        walk_fits(pos, path@, provokers@),
    ensures
        is_rolled_walk(
            r,
            *old(rng),
            *final(rng),
            hp as int,
            pos,
            path@,
            provokers@,
            Guard { armor: armor as int, vulnerability: vulnerability as int },
        ),
        provokers@.len() == 0 ==> r is Some && *final(rng) == *old(rng),
        r matches Some(w) ==> w.walked <= path@.len(),
{
    let ghost guard = Guard { armor: armor as int, vulnerability: vulnerability as int };
    let ghost start = walk_start(hp as int, pos, provokers@);
    let ghost total = reaction_sum(start.reactions);
    let ghost mut states: Seq<R> = seq![*rng];
    let mut rolls: Vec<i32> = Vec::new();
    loop
        invariant
            walk_fits(pos, path@, provokers@),
            guard == (Guard { armor: armor as int, vulnerability: vulnerability as int }),
            start == walk_start(hp as int, pos, provokers@),
            total == reaction_sum(start.reactions),
            rolls@.len() <= total,
            provokers@.len() == 0 ==> *rng == *old(rng),
            are_asked_rolls(states, rolls@, hp as int, pos, path@, provokers@, guard),
            states.first() == *old(rng),
            states.last() == *rng,
        decreases total - rolls@.len(),
    {
        let ghost t = whole_walk(hp as int, pos, path@, provokers@, guard, rolls@);
        proof {
            walk_spends_rolls(start, path@, path@.len(), provokers@, guard, rolls@, total);
            if provokers@.len() == 0 {
                law_unopposed_walk(
                    hp as int,
                    pos,
                    path@,
                    path@.len(),
                    provokers@,
                    guard,
                    rolls@,
                );
            }
        }
        match replay_walk(hp, pos, path, provokers, armor, vulnerability, &rolls) {
            Replay::Done(w) => {
                assert(is_walk(w, t));
                return Some(w);
            },
            Replay::Halted(Halt::OutOfRange) => {
                assert(t.halt == Some(Halt::OutOfRange));
                return None;
            },
            Replay::Halted(Halt::NeedsRoll(dice)) => {
                let ghost before = *rng;
                let (roll, text) = rng.roll_dice(&dice, false);
                let ghost fewer = rolls@;
                let ghost earlier = states;
                rolls.push(roll);
                proof {
                    states = states.push(*rng);
                    assert forall|k: int| 0 <= k < rolls@.len() implies #[trigger] is_asked_roll(
                        states,
                        rolls@,
                        k,
                        hp as int,
                        pos,
                        path@,
                        provokers@,
                        guard,
                    ) by {
                        if k < fewer.len() {
                            assert(rolls@.take(k) =~= fewer.take(k));
                            assert(is_asked_roll(
                                earlier,
                                fewer,
                                k,
                                hp as int,
                                pos,
                                path@,
                                provokers@,
                                guard,
                            ));
                            let halt = whole_walk(
                                hp as int,
                                pos,
                                path@,
                                provokers@,
                                guard,
                                fewer.take(k),
                            ).halt;
                            if let Some(Halt::NeedsRoll(d)) = halt {
                                let s = choose|s: Seq<char>| #[trigger]
                                    R::may_roll(
                                        earlier[k],
                                        d,
                                        false,
                                        earlier[k + 1],
                                        fewer[k],
                                        s,
                                    );
                                assert(R::may_roll(
                                    states[k],
                                    d,
                                    false,
                                    states[k + 1],
                                    rolls@[k],
                                    s,
                                ));
                            }
                        } else {
                            assert(rolls@.take(k) =~= fewer);
                            assert(states[k] == before);
                            assert(R::may_roll(
                                states[k],
                                dice,
                                false,
                                states[k + 1],
                                rolls@[k],
                                text@,
                            ));
                        }
                    }
                }
            },
        }
    }
}

// ---------------------------------------------------------------------------
// What a walk leads to
// ---------------------------------------------------------------------------

/// Rage of a combatant.
#[derive(Clone, Copy, PartialEq, Eq, Structural, Debug)]
pub struct RageRow {
    pub entity: Entity,
    pub current: i32,
    pub max: i32,
}

/// Reactions of a combatant.
#[derive(Clone, Copy, PartialEq, Eq, Structural, Debug)]
pub struct ReactionRow {
    pub entity: Entity,
    pub remaining: u8,
}

/// Rage after one more point of it, which the maximum caps.
pub open spec fn raised(row: RageRow) -> RageRow {
    RageRow {
        current: if row.current < row.max {
            (row.current + 1) as i32
        } else {
            row.current
        },
        ..row
    }
}

/// Whether `i` is the place of the first rage of an entity.
pub open spec fn is_first_rage(rows: Seq<RageRow>, entity: Entity, i: int) -> bool {
    &&& 0 <= i < rows.len()
    &&& rows[i].entity == entity
    &&& forall|j: int| 0 <= j < i ==> (#[trigger] rows[j]).entity != entity
}

/// The place of the first rage of an entity.
pub open spec fn rage_place(rows: Seq<RageRow>, entity: Entity) -> Option<int> {
    if exists|i: int| is_first_rage(rows, entity, i) {
        Some(choose|i: int| is_first_rage(rows, entity, i))
    } else {
        None
    }
}

/// All rage after an entity gained a point.
pub open spec fn rage_gained(rows: Seq<RageRow>, entity: Entity) -> Seq<RageRow> {
    match rage_place(rows, entity) {
        Some(i) => rows.update(i, raised(rows[i])),
        None => rows,
    }
}

/// The log line of a gained point of rage.
pub open spec fn rage_line(rows: Seq<RageRow>, entity: Entity) -> Option<CombatEvent> {
    match rage_place(rows, entity) {
        Some(i) => Some(
            CombatEvent::RageGained {
                actor: entity,
                current: raised(rows[i]).current,
                max: rows[i].max,
            },
        ),
        None => None,
    }
}

/// Gives an entity a point of rage, where it has rage at all, and logs it.
pub fn gain_rage(rows: &mut Vec<RageRow>, entity: Entity, log: &mut Vec<CombatEvent>)
    ensures
        final(rows)@ == rage_gained(old(rows)@, entity),
        final(log)@ == old(log)@ + opt_seq(rage_line(old(rows)@, entity)),
{
    let ghost before = rows@;
    let ghost lines = log@;
    let mut i: usize = 0;
    while i < rows.len()
        invariant
            i <= rows.len(),
            before == old(rows)@,
            lines == old(log)@,
            rows@ == before,
            log@ == lines,
            forall|j: int| 0 <= j < i ==> (#[trigger] before[j]).entity != entity,
        decreases rows.len() - i,
    {
        if rows[i].entity == entity {
            proof {
                assert(is_first_rage(before, entity, i as int));
                let k = choose|k: int| is_first_rage(before, entity, k);
                assert(is_first_rage(before, entity, k));
                if k < i {
                    assert(before[k].entity != entity);
                }
                if i < k {
                    assert(before[i as int].entity != entity);
                }
            }
            let row = rows[i];
            let current: i32 = if row.current < row.max {
                row.current + 1
            } else {
                row.current
            };
            rows.set(i, RageRow { entity: row.entity, current, max: row.max });
            log.push(CombatEvent::RageGained { actor: entity, current, max: row.max });
            assert(rows@ =~= rage_gained(before, entity));
            assert(log@ =~= lines + opt_seq(rage_line(before, entity)));
            return;
        }
        i = i + 1;
    }
    proof {
        assert forall|k: int| !is_first_rage(before, entity, k) by {
            if 0 <= k < before.len() {
                assert(before[k].entity != entity);
            }
        }
        assert(log@ =~= lines + opt_seq(rage_line(before, entity)));
    }
}

/// All reactions after the first row of an entity spent one, where it has any.
pub open spec fn reaction_spent(rows: Seq<ReactionRow>, entity: Entity) -> Seq<ReactionRow> {
    Seq::new(
        rows.len(),
        |i: int|
            if rows[i].entity == entity && rows[i].remaining > 0 && (forall|j: int|
                0 <= j < i ==> (#[trigger] rows[j]).entity != entity) {
                ReactionRow { remaining: (rows[i].remaining - 1) as u8, ..rows[i] }
            } else {
                rows[i]
            },
    )
}

/// Takes a reaction from an entity, where it has any.
pub fn spend_reaction(rows: &mut Vec<ReactionRow>, entity: Entity)
    ensures
        final(rows)@ == reaction_spent(old(rows)@, entity),
{
    let ghost before = rows@;
    let mut i: usize = 0;
    while i < rows.len()
        invariant
            i <= rows.len(),
            before == old(rows)@,
            rows@ == before,
            forall|j: int| 0 <= j < i ==> (#[trigger] before[j]).entity != entity,
        decreases rows.len() - i,
    {
        if rows[i].entity == entity {
            let row = rows[i];
            if row.remaining > 0 {
                rows.set(i, ReactionRow { entity: row.entity, remaining: row.remaining - 1 });
            }
            proof {
                assert forall|k: int| 0 <= k < before.len() implies rows@[k] == reaction_spent(
                    before,
                    entity,
                )[k] by {
                    if k > i {
                        assert(before[i as int].entity == entity);
                    }
                }
                assert(rows@ =~= reaction_spent(before, entity));
            }
            return;
        }
        i = i + 1;
    }
    assert(rows@ =~= reaction_spent(before, entity));
}

/// Rage and log lines after the first `n` attacks on a mover: each gives a point
/// of rage to the attacker and to the mover, and is then logged itself.
pub open spec fn after_attacks(
    rage: Seq<RageRow>,
    log: Seq<CombatEvent>,
    fired: Seq<Fired>,
    n: nat,
    mover: Entity,
) -> (Seq<RageRow>, Seq<CombatEvent>)
    decreases n,
{
    if n == 0 {
        (rage, log)
    } else {
        let (r, l) = after_attacks(rage, log, fired, (n - 1) as nat, mover);
        let f = fired[n - 1];
        let r1 = rage_gained(r, f.attacker);
        let l1 = l + opt_seq(rage_line(r, f.attacker));
        let r2 = rage_gained(r1, mover);
        let l2 = l1 + opt_seq(rage_line(r1, mover));
        (
            r2,
            l2.push(
                CombatEvent::OpportunityAttack {
                    attacker: f.attacker,
                    target: mover,
                    damage: f.damage,
                    killed: f.killed,
                },
            ),
        )
    }
}

/// Reactions after the first `n` attackers spent theirs, one after the other.
pub open spec fn reactions_after(
    rows: Seq<ReactionRow>,
    fired: Seq<Fired>,
    n: nat,
) -> Seq<ReactionRow>
    decreases n,
{
    if n == 0 {
        rows
    } else {
        reaction_spent(reactions_after(rows, fired, (n - 1) as nat), fired[n - 1].attacker)
    }
}

/// Writes the attacks of a walk: reactions, rage and log.
fn settle_attacks(
    mover: Entity,
    fired: &Vec<Fired>,
    reactions: &mut Vec<ReactionRow>,
    rage: &mut Vec<RageRow>,
    log: &mut Vec<CombatEvent>,
)
    ensures
        (final(rage)@, final(log)@) == after_attacks(
            old(rage)@,
            old(log)@,
            fired@,
            fired@.len(),
            mover,
        ),
        final(reactions)@ == reactions_after(old(reactions)@, fired@, fired@.len()),
{
    let mut n: usize = 0;
    while n < fired.len()
        invariant
            n <= fired.len(),
            (rage@, log@) == after_attacks(old(rage)@, old(log)@, fired@, n as nat, mover),
            reactions@ == reactions_after(old(reactions)@, fired@, n as nat),
        decreases fired.len() - n,
    {
        let f = fired[n];
        spend_reaction(reactions, f.attacker);
        gain_rage(rage, f.attacker, log);
        gain_rage(rage, mover, log);
        log.push(
            CombatEvent::OpportunityAttack {
                attacker: f.attacker,
                target: mover,
                damage: f.damage,
                killed: f.killed,
            },
        );
        n = n + 1;
    }
}

/// Where a walk ended.
pub open spec fn walk_end(old_pos: Hex, path: Seq<Hex>, walked: nat) -> Hex {
    if walked == 0 {
        old_pos
    } else {
        path[walked - 1]
    }
}

/// What a finished move asks of the display world.
#[derive(Debug)]
pub struct MoveEnd {
    /// Hit points of the mover.
    pub hp: i32,
    /// Whether the mover has fallen.
    pub died: bool,
    pub movement_points: i32,
    /// Whether the mark of bonus movement is taken off.
    pub remove_bonus: bool,
    /// Cells to show the token walking over, the start included.
    pub waypoints: Vec<Hex>,
    /// Whether the last cell turned out to be taken, so that the mover stays.
    pub blocked: bool,
}

/// The log after a move: its attacks, the fall of the mover, and the move
/// itself unless the last cell was taken.
pub open spec fn move_log(
    attacks: Seq<CombatEvent>,
    actor: Entity,
    died: bool,
    blocked: bool,
    from: Hex,
    to: Hex,
) -> Seq<CombatEvent> {
    let a = if died {
        attacks.push(CombatEvent::UnitDied { entity: actor })
    } else {
        attacks
    };
    if blocked {
        a
    } else {
        a.push(CombatEvent::UnitMoved { actor, from, to })
    }
}

/// What a move reads and writes besides the mover.
pub struct MoveWorld {
    pub cells: Map<Entity, Hex>,
    pub reactions: Seq<ReactionRow>,
    pub rage: Seq<RageRow>,
    pub log: Seq<CombatEvent>,
}

/// Whether `after` and `r` are what a walk leads to. The steps taken are paid for
/// even where the last cell turns out to be taken.
pub open spec fn settles(
    before: MoveWorld,
    after: MoveWorld,
    r: MoveEnd,
    actor: Entity,
    old_pos: Hex,
    path: Seq<Hex>,
    walk: Walk,
    movement_points: i32,
    has_bonus: bool,
) -> bool {
    let end = walk_end(old_pos, path, walk.walked as nat);
    let blocked = end != old_pos && held_by_other(before.cells, end, actor);
    let (rage_after, lines) = after_attacks(
        before.rage,
        before.log,
        walk.fired@,
        walk.fired@.len(),
        actor,
    );
    &&& r.hp == walk.hp
    &&& r.died == walk.died
    &&& r.movement_points == crate::hex::max(movement_points - walk.walked, 0)
    &&& r.blocked == blocked
    &&& r.remove_bonus == (!blocked && has_bonus && r.movement_points == 0)
    &&& r.waypoints@ == seq![old_pos] + path.take(walk.walked as int)
    &&& after.cells == (if end != old_pos && !blocked {
        before.cells.insert(actor, end)
    } else {
        before.cells
    })
    &&& after.rage == rage_after
    &&& after.log == move_log(lines, actor, walk.died, blocked, old_pos, end)
    &&& after.reactions == reactions_after(before.reactions, walk.fired@, walk.fired@.len())
}

/// Writes what a walk led to.
pub fn settle_move(
    actor: Entity,
    old_pos: Hex,
    path: &Vec<Hex>,
    walk: &Walk,
    movement_points: i32,
    has_bonus: bool,
    positions: &mut HexPositions,
    reactions: &mut Vec<ReactionRow>,
    rage: &mut Vec<RageRow>,
    log: &mut Vec<CombatEvent>,
) -> (r: MoveEnd)
    requires
        walk.walked <= path@.len(),
    ensures
        settles(
            MoveWorld {
                cells: old(positions)@,
                reactions: old(reactions)@,
                rage: old(rage)@,
                log: old(log)@,
            },
            MoveWorld {
                cells: final(positions)@,
                reactions: final(reactions)@,
                rage: final(rage)@,
                log: final(log)@,
            },
            r,
            actor,
            old_pos,
            path@,
            *walk,
            movement_points,
            has_bonus,
        ),
{
    settle_attacks(actor, &walk.fired, reactions, rage, log);
    if walk.died {
        log.push(CombatEvent::UnitDied { entity: actor });
    }
    let mut waypoints: Vec<Hex> = Vec::new();
    waypoints.push(old_pos);
    let mut k: usize = 0;
    assert(waypoints@ =~= seq![old_pos] + path@.take(0));
    while k < walk.walked
        invariant
            k <= walk.walked <= path@.len(),
            waypoints@ == seq![old_pos] + path@.take(k as int),
        decreases walk.walked - k,
    {
        waypoints.push(path[k]);
        assert(waypoints@ =~= seq![old_pos] + path@.take(k + 1));
        k = k + 1;
    }
    let end = if walk.walked == 0 {
        old_pos
    } else {
        path[walk.walked - 1]
    };
    let left: i32 = if movement_points < 0 || walk.walked as u64 >= movement_points as u64 {
        0
    } else {
        movement_points - walk.walked as i32
    };
    let mut blocked = false;
    if end != old_pos {
        if positions.held_by_other(end, actor) {
            blocked = true;
        } else {
            positions.insert(actor, end);
        }
    }
    if !blocked {
        log.push(CombatEvent::UnitMoved { actor, from: old_pos, to: end });
    }
    MoveEnd {
        hp: walk.hp,
        died: walk.died,
        movement_points: left,
        remove_bonus: !blocked && has_bonus && left == 0,
        waypoints,
        blocked,
    }
}

// ---------------------------------------------------------------------------
// A move from request to end
// ---------------------------------------------------------------------------

/// The combatant that is asked to move. Hit points and armor are zero for who
/// has none.
#[derive(Debug)]
pub struct MoverSheet {
    pub team: Team,
    pub may_move: bool,
    pub movement_points: i32,
    pub has_bonus: bool,
    pub hp: i32,
    pub armor: i32,
    pub statuses: Vec<EcsStatus>,
}

/// What decides whether the mover may move.
pub open spec fn mover_row(sheet: Option<MoverSheet>) -> Option<MoverRow> {
    match sheet {
        Some(s) => Some(
            MoverRow { can_move: s.may_move, movement_points: s.movement_points },
        ),
        None => None,
    }
}

/// What the mover has against attacks: its armor, and what its statuses add.
pub open spec fn guard_of(sheet: MoverSheet, content: ContentView) -> Guard {
    Guard {
        armor: sheet.armor + armor_sum(sheet.statuses@, content),
        vulnerability: vulnerability_sum(sheet.statuses@, content),
    }
}

/// Whether the mover's armor and vulnerability fit 32 bits.
pub open spec fn sheet_fits(sheet: MoverSheet, content: ContentView) -> bool {
    &&& fits(guard_of(sheet, content).armor)
    &&& fits(guard_of(sheet, content).vulnerability)
}

/// The cell of an entity; the origin for who stands nowhere.
pub open spec fn cell_or_origin(cells: Map<Entity, Hex>, entity: Entity) -> Hex {
    if cells.contains_key(entity) {
        cells[entity]
    } else {
        Hex::origin()
    }
}

/// Whether `walk` is a walk that the mover may make with dice rolled by `rng`, which
/// leaves `rng_after`, and `after` and `end` are what it leads to.
pub open spec fn comes_of<R: DiceSource>(
    walk: Walk,
    rng: R,
    rng_after: R,
    sheet: MoverSheet,
    foes: Seq<Provoker>,
    guard: Guard,
    before: MoveWorld,
    after: MoveWorld,
    end: MoveEnd,
    actor: Entity,
    path: Seq<Hex>,
) -> bool {
    let from = cell_or_origin(before.cells, actor);
    &&& is_rolled_walk(
        Some(walk),
        rng,
        rng_after,
        sheet.hp as int,
        from,
        path,
        foes,
        guard,
    )
    &&& settles(
        before,
        after,
        end,
        actor,
        from,
        path,
        walk,
        sheet.movement_points,
        sheet.has_bonus,
    )
}

/// Whether `after` and `end` are what a walk leads to that the mover may make with
/// dice rolled by `rng`, which leaves `rng_after`.
pub open spec fn is_moved<R: DiceSource>(
    rng: R,
    rng_after: R,
    sheet: MoverSheet,
    foes: Seq<Provoker>,
    guard: Guard,
    before: MoveWorld,
    after: MoveWorld,
    end: MoveEnd,
    actor: Entity,
    path: Seq<Hex>,
) -> bool {
    exists|walk: Walk|
        #[trigger] comes_of(
            walk,
            rng,
            rng_after,
            sheet,
            foes,
            guard,
            before,
            after,
            end,
            actor,
            path,
        )
}

/// Carries out a requested move: refused unless it may begin, it is walked, the
/// opportunity attacks that it provokes are rolled with `rng`, and what it led to
/// is written. The result is `None` for a refused move, and when the numbers of an
/// attack leave 32 bits; nothing is written then.
pub fn movement_system<R: DiceSource>(
    actor: Entity,
    path: &Vec<Hex>,
    active: Option<Entity>,
    mover: &Option<MoverSheet>,
    watchers: &Vec<WatcherRow>,
    board: &Board,
    content: &ContentView,
    positions: &mut HexPositions,
    reactions: &mut Vec<ReactionRow>,
    rage: &mut Vec<RageRow>,
    log: &mut Vec<CombatEvent>,
    rng: &mut R,
) -> (r: Option<MoveEnd>)
    requires
        board.wf(),
        may_move(actor, path@, active, mover_row(*mover), *board, old(positions)@) ==> sheet_fits(
            mover->0,
            *content,
        ) && walk_fits(
            cell_or_origin(old(positions)@, actor),
            path@,
            provokers_of(watchers@, actor, mover->0.team, *content, old(positions)@),
        ),
    ensures
        r is None ==> {
            &&& final(positions)@ == old(positions)@
            &&& final(reactions)@ == old(reactions)@
            &&& final(rage)@ == old(rage)@
            &&& final(log)@ == old(log)@
        },
        !may_move(actor, path@, active, mover_row(*mover), *board, old(positions)@) ==> r is None
            && *final(rng) == *old(rng),
        may_move(actor, path@, active, mover_row(*mover), *board, old(positions)@) ==> ({
            let s = mover->0;
            let from = cell_or_origin(old(positions)@, actor);
            let foes = provokers_of(watchers@, actor, s.team, *content, old(positions)@);
            let guard = guard_of(s, *content);
            &&& foes.len() == 0 ==> r is Some && *final(rng) == *old(rng)
            &&& match r {
                Some(end) => is_moved(
                    *old(rng),
                    *final(rng),
                    s,
                    foes,
                    guard,
                    MoveWorld {
                        cells: old(positions)@,
                        reactions: old(reactions)@,
                        rage: old(rage)@,
                        log: old(log)@,
                    },
                    MoveWorld {
                        cells: final(positions)@,
                        reactions: final(reactions)@,
                        rage: final(rage)@,
                        log: final(log)@,
                    },
                    end,
                    actor,
                    path@,
                ),
                None => is_rolled_walk(
                    None,
                    *old(rng),
                    *final(rng),
                    s.hp as int,
                    from,
                    path@,
                    foes,
                    guard,
                ),
            }
        }),
{
    let sheet = match mover {
        Some(s) => s,
        None => {
            return None;
        },
    };
    let row = MoverRow { can_move: sheet.may_move, movement_points: sheet.movement_points };
    if !check_move(actor, path, active, Some(row), board, positions) {
        return None;
    }
    let from = match positions.get(actor) {
        Some(h) => h,
        None => Hex::zero(),
    };
    let (status_armor, status_vulnerability) = sum_bonuses(&sheet.statuses, content);
    let armor: i32 = (sheet.armor as i128 + status_armor) as i32;
    let vulnerability: i32 = status_vulnerability as i32;
    let foes = collect_provokers(watchers, actor, sheet.team, content, positions);
    let ghost guard = guard_of(*sheet, *content);
    assert(guard == Guard { armor: armor as int, vulnerability: vulnerability as int });
    match walk_path(sheet.hp, from, path, &foes, armor, vulnerability, rng) {
        Some(walk) => {
            let ghost before = MoveWorld {
                cells: positions@,
                reactions: reactions@,
                rage: rage@,
                log: log@,
            };
            let end = settle_move(
                actor,
                from,
                path,
                &walk,
                sheet.movement_points,
                sheet.has_bonus,
                positions,
                reactions,
                rage,
                log,
            );
            proof {
                let after = MoveWorld {
                    cells: positions@,
                    reactions: reactions@,
                    rage: rage@,
                    log: log@,
                };
                assert(comes_of(
                    walk,
                    *old(rng),
                    *rng,
                    *sheet,
                    foes@,
                    guard,
                    before,
                    after,
                    end,
                    actor,
                    path@,
                ));
            }
            Some(end)
        },
        None => None,
    }
}

// ---------------------------------------------------------------------------
// Laws
// ---------------------------------------------------------------------------

/// The damage of several attacks together.
pub open spec fn total_damage(fired: Seq<Fired>) -> int
    decreases fired.len(),
{
    if fired.len() == 0 {
        0
    } else {
        total_damage(fired.drop_last()) + fired.last().damage
    }
}

/// What holds of a walk at any time: hit points are the ones at the start less
/// all damage, but never below zero; every attack costs at least one; the mover
/// has fallen exactly if the last attack was the fatal one, and no earlier one
/// was.
pub open spec fn walk_is_sound(t: WalkModel, hp: int) -> bool {
    &&& t.hp == crate::hex::max(hp - total_damage(t.fired), 0)
    &&& forall|i: int| 0 <= i < t.fired.len() ==> (#[trigger] t.fired[i]).damage >= 1
    &&& forall|i: int| 0 <= i < t.fired.len() - 1 ==> !(#[trigger] t.fired[i]).killed
    &&& t.died <==> t.fired.len() > 0 && t.fired.last().killed
    &&& t.fired.len() > 0 ==> (t.fired.last().killed <==> t.hp == 0)
}

proof fn sweep_is_sound(
    t: WalkModel,
    hp: int,
    provokers: Seq<Provoker>,
    n: nat,
    step: Hex,
    guard: Guard,
    rolls: Seq<i32>,
)
    requires
        n <= provokers.len(),
        !t.died,
        walk_is_sound(t, hp),
    ensures
        walk_is_sound(sweep(t, provokers, n, step, guard, rolls), hp),
    decreases n,
{
    if n > 0 {
        sweep_is_sound(t, hp, provokers, (n - 1) as nat, step, guard, rolls);
        let s = sweep(t, provokers, (n - 1) as nat, step, guard, rolls);
        let u = sweep(t, provokers, n, step, guard, rolls);
        if u.fired.len() > s.fired.len() {
            let p = provokers[n - 1];
            let damage = attack_damage(rolls[s.fired.len() as int], p.str_mod, guard);
            assert(1 <= damage <= i32::MAX);
            assert(u.fired.drop_last() =~= s.fired);
            assert(total_damage(u.fired) == total_damage(s.fired) + damage);
            assert forall|i: int| 0 <= i < u.fired.len() - 1 implies !(
            #[trigger] u.fired[i]).killed by {
                assert(u.fired[i] == s.fired[i]);
            }
        }
    }
}

/// A walk of a mover with hit points is sound at every step: taking all damage
/// at once at the end costs as many hit points as taking it blow by blow.
pub proof fn law_walk_is_sound(
    hp: int,
    pos: Hex,
    path: Seq<Hex>,
    n: nat,
    provokers: Seq<Provoker>,
    guard: Guard,
    rolls: Seq<i32>,
)
    requires
        hp >= 0,
        n <= path.len(),
    ensures
        walk_is_sound(
            walk(walk_start(hp, pos, provokers), path, n, provokers, guard, rolls),
            hp,
        ),
    decreases n,
{
    let start = walk_start(hp, pos, provokers);
    if n > 0 {
        law_walk_is_sound(hp, pos, path, (n - 1) as nat, provokers, guard, rolls);
        let t = walk(start, path, (n - 1) as nat, provokers, guard, rolls);
        if !t.is_over() {
            let t1 = WalkModel { walked: t.walked + 1, ..t };
            sweep_is_sound(t1, hp, provokers, provokers.len(), path[n - 1], guard, rolls);
        }
    }
}

/// No attacker attacks more often than it has reactions: all attacks of a walk
/// together are as many as the reactions that were spent.
pub proof fn law_attacks_cost_reactions(
    hp: int,
    pos: Hex,
    path: Seq<Hex>,
    provokers: Seq<Provoker>,
    guard: Guard,
    rolls: Seq<i32>,
)
    ensures
        ({
            let t = whole_walk(hp, pos, path, provokers, guard, rolls);
            &&& reaction_sum(t.reactions) + t.fired.len() == reaction_sum(
                walk_start(hp, pos, provokers).reactions,
            )
            &&& t.fired.len() <= rolls.len()
            &&& t.walked <= path.len()
        }),
{
    let start = walk_start(hp, pos, provokers);
    let total = reaction_sum(start.reactions);
    walk_spends_rolls(start, path, path.len(), provokers, guard, rolls, total);
}

/// Nobody is attacked who walks past no one: without attackers all steps are
/// taken and no hit point is lost, whatever might be rolled.
pub proof fn law_unopposed_walk(
    hp: int,
    pos: Hex,
    path: Seq<Hex>,
    n: nat,
    provokers: Seq<Provoker>,
    guard: Guard,
    rolls: Seq<i32>,
)
    requires
        n <= path.len(),
        provokers.len() == 0,
    ensures
        ({
            let t = walk(walk_start(hp, pos, provokers), path, n, provokers, guard, rolls);
            t.walked == n && t.hp == hp && !t.is_over() && t.fired.len() == 0
        }),
    decreases n,
{
    if n > 0 {
        law_unopposed_walk(hp, pos, path, (n - 1) as nat, provokers, guard, rolls);
    }
}

/// A move begins exactly where it is asked of the combatant whose turn it is, who may
/// move and has a movement point for each step, and where it ends on the board, on a
/// cell that nobody else holds.
pub proof fn law_when_a_move_begins(
    actor: Entity,
    path: Seq<Hex>,
    active: Option<Entity>,
    mover: Option<MoverRow>,
    board: Board,
    cells: Map<Entity, Hex>,
)
    ensures
        may_move(actor, path, active, mover, board, cells) ==> {
            &&& active == Some(actor)
            &&& mover is Some
            &&& mover->0.can_move
            &&& 1 <= path.len() <= mover->0.movement_points
            &&& board.contains(path[path.len() - 1])
            &&& forall|e: Entity|
                #![trigger cells[e]]
                cells.contains_key(e) && e != actor ==> cells[e] != path[path.len() - 1]
        },
        active == Some(actor) && (mover matches Some(m) && m.can_move && 1 <= path.len()
            <= m.movement_points) && board.contains(path[path.len() - 1]) && (forall|e: Entity|
            #![trigger cells[e]]
            cells.contains_key(e) && e != actor ==> cells[e] != path[path.len() - 1]) ==> may_move(
            actor,
            path,
            active,
            mover,
            board,
            cells,
        ),
{
    assert(path.len() > 0 ==> path.last() == path[path.len() - 1]);
    if may_move(actor, path, active, mover, board, cells) {
        assert forall|e: Entity|
            #![trigger cells[e]]
            cells.contains_key(e) && e != actor implies cells[e] != path[path.len() - 1] by {
            assert(cells.contains_key(e));
        }
    }
}

/// Whether a combatant strikes at whoever walks away: it is an enemy of the mover,
/// stands on the board alive and awake, fights at arm's length with a weapon in hand,
/// and has a reaction left.
pub open spec fn is_on_guard(
    row: WatcherRow,
    mover: Entity,
    team: Team,
    content: ContentView,
    cells: Map<Entity, Hex>,
) -> bool {
    &&& row.entity != mover
    &&& row.team != team
    &&& row.hp >= 1 && !row.is_dead
    &&& row.reactions_left >= 1
    &&& row.weapon_dice is Some
    &&& cells.contains_key(row.entity)
    &&& forall|i: int|
        0 <= i < row.statuses@.len() ==> !(content.status((#[trigger] row.statuses@[i])@)
            matches Some(d) && d.skips_turn)
    &&& exists|i: int|
        0 <= i < row.abilities@.len() && (content.ability((#[trigger] row.abilities@[i])@)
            matches Some(d) && d.effect is WeaponAttack && d.range.max == 1)
}

/// Those that strike at a mover are just those on guard against it, each from where it
/// stands, with its own weapon, strength and reactions.
pub proof fn law_who_strikes(
    rows: Seq<WatcherRow>,
    mover: Entity,
    team: Team,
    content: ContentView,
    cells: Map<Entity, Hex>,
    p: Provoker,
)
    ensures
        provokers_of(rows, mover, team, content, cells).contains(p) <==> exists|i: int|
            0 <= i < rows.len() && is_on_guard(#[trigger] rows[i], mover, team, content, cells)
                && p.entity == rows[i].entity && p.pos == cells[rows[i].entity] && rows[i].weapon_dice
                == Some(p.dice) && p.str_mod == rows[i].str_mod && p.reactions_left
                == rows[i].reactions_left,
    decreases rows.len(),
{
    let all = provokers_of(rows, mover, team, content, cells);
    if rows.len() > 0 {
        let rest = rows.drop_last();
        let before = provokers_of(rest, mover, team, content, cells);
        law_who_strikes(rest, mover, team, content, cells, p);
        let row = rows.last();
        assert(rows[rows.len() - 1] == row);
        assert(is_on_guard(row, mover, team, content, cells) == (provoker_of(
            row,
            mover,
            team,
            content,
            cells,
        ) is Some));
        if before.contains(p) {
            let k = choose|k: int| 0 <= k < before.len() && before[k] == p;
            assert(all[k] == p);
            let i = choose|i: int|
                0 <= i < rest.len() && is_on_guard(
                    #[trigger] rest[i],
                    mover,
                    team,
                    content,
                    cells,
                ) && p.entity == rest[i].entity && p.pos == cells[rest[i].entity]
                    && rest[i].weapon_dice == Some(p.dice) && p.str_mod == rest[i].str_mod
                    && p.reactions_left == rest[i].reactions_left;
            assert(rows[i] == rest[i]);
        } else {
            if all.contains(p) {
                let k = choose|k: int| 0 <= k < all.len() && all[k] == p;
                if k < before.len() {
                    assert(before[k] == p);
                }
            }
            if exists|i: int|
                0 <= i < rows.len() && is_on_guard(
                    #[trigger] rows[i],
                    mover,
                    team,
                    content,
                    cells,
                ) && p.entity == rows[i].entity && p.pos == cells[rows[i].entity]
                    && rows[i].weapon_dice == Some(p.dice) && p.str_mod == rows[i].str_mod
                    && p.reactions_left == rows[i].reactions_left {
                let i = choose|i: int|
                    0 <= i < rows.len() && is_on_guard(
                        #[trigger] rows[i],
                        mover,
                        team,
                        content,
                        cells,
                    ) && p.entity == rows[i].entity && p.pos == cells[rows[i].entity]
                        && rows[i].weapon_dice == Some(p.dice) && p.str_mod == rows[i].str_mod
                        && p.reactions_left == rows[i].reactions_left;
                if i < rest.len() {
                    assert(rest[i] == rows[i]);
                } else {
                    assert(all[all.len() - 1] == p);
                }
            }
        }
    }
}

/// Whoever stands next to an attacker and steps out of its reach is attacked, as long
/// as the attacker has a reaction, which this costs; what the dice show and its
/// strength, less the armor and with the vulnerability, comes off the mover's hit
/// points, one at least. No other step is attacked.
pub proof fn law_leaving_reach_is_attacked(
    t: WalkModel,
    p: Provoker,
    j: int,
    step: Hex,
    guard: Guard,
    rolls: Seq<i32>,
)
    requires
        0 <= j < t.reactions.len(),
        t.fired.len() < rolls.len(),
        attack_fits(rolls[t.fired.len() as int], p.str_mod, guard),
    ensures
        ({
            let u = strike(t, p, j, step, guard, rolls);
            let raw = rolls[t.fired.len() as int] + p.str_mod - guard.armor + guard.vulnerability;
            let lost = if raw >= 1 {
                raw
            } else {
                1
            };
            let leaves = distance(t.prev, p.pos) == 1 && distance(step, p.pos) != 1;
            &&& leaves && t.reactions[j] >= 1 ==> {
                &&& u.fired.len() == t.fired.len() + 1
                &&& u.fired.drop_last() == t.fired
                &&& u.fired.last().attacker == p.entity
                &&& u.fired.last().damage == lost
                &&& u.reactions.len() == t.reactions.len()
                &&& u.reactions[j] == t.reactions[j] - 1
                &&& forall|k: int|
                    0 <= k < t.reactions.len() && k != j ==> (#[trigger] u.reactions[k])
                        == t.reactions[k]
                &&& t.hp > lost ==> u.hp == t.hp - lost && !u.died && !u.fired.last().killed
                &&& t.hp <= lost ==> u.hp == 0 && u.died && u.fired.last().killed
                &&& u.halt == t.halt
            }
            &&& !(leaves && t.reactions[j] >= 1) ==> u == t
            &&& u.walked == t.walked && u.prev == t.prev
        }),
{
    let u = strike(t, p, j, step, guard, rolls);
    if attacks(p, t.reactions[j], t.prev, step) {
        assert(u.fired.drop_last() =~= t.fired);
    }
}

/// At each step every attacker has its chance, one after the other, until the mover
/// has fallen.
pub proof fn law_every_attacker_has_its_chance(
    t: WalkModel,
    provokers: Seq<Provoker>,
    n: nat,
    step: Hex,
    guard: Guard,
    rolls: Seq<i32>,
)
    requires
        n < provokers.len(),
    ensures
        ({
            let s = sweep(t, provokers, n, step, guard, rolls);
            let u = sweep(t, provokers, n + 1, step, guard, rolls);
            &&& s.died || s.halt is Some ==> u == s
            &&& !s.died && s.halt is None ==> u == strike(
                s,
                provokers[n as int],
                n as int,
                step,
                guard,
                rolls,
            )
            &&& sweep(t, provokers, 0, step, guard, rolls) == t
        }),
{
}

/// A mover that has not fallen has taken every step so far and stands where the last
/// one led; one that fell takes no further step.
pub proof fn law_walk_follows_the_path(
    hp: int,
    pos: Hex,
    path: Seq<Hex>,
    n: nat,
    provokers: Seq<Provoker>,
    guard: Guard,
    rolls: Seq<i32>,
)
    requires
        n <= path.len(),
    ensures
        ({
            let t = walk(walk_start(hp, pos, provokers), path, n, provokers, guard, rolls);
            &&& !t.died && t.halt is None ==> t.walked == n && t.prev == (if n == 0 {
                pos
            } else {
                path[n - 1]
            })
            &&& t.walked <= n
            &&& n > 0 ==> ({
                let s = walk(
                    walk_start(hp, pos, provokers),
                    path,
                    (n - 1) as nat,
                    provokers,
                    guard,
                    rolls,
                );
                s.died ==> t == s
            })
            &&& n == 0 ==> t.hp == hp && t.fired.len() == 0 && forall|j: int|
                0 <= j < provokers.len() ==> t.reactions[j] == (
                #[trigger] provokers[j]).reactions_left
        }),
    decreases n,
{
    if n > 0 {
        law_walk_follows_the_path(hp, pos, path, (n - 1) as nat, provokers, guard, rolls);
        let t = walk(
            walk_start(hp, pos, provokers),
            path,
            (n - 1) as nat,
            provokers,
            guard,
            rolls,
        );
        sweep_keeps_count(
            WalkModel { walked: t.walked + 1, ..t },
            provokers,
            provokers.len(),
            path[n - 1],
            guard,
            rolls,
        );
    }
}

proof fn sweep_keeps_count(
    t: WalkModel,
    provokers: Seq<Provoker>,
    n: nat,
    step: Hex,
    guard: Guard,
    rolls: Seq<i32>,
)
    ensures
        sweep(t, provokers, n, step, guard, rolls).walked == t.walked,
        sweep(t, provokers, n, step, guard, rolls).prev == t.prev,
    decreases n,
{
    if n > 0 {
        sweep_keeps_count(t, provokers, (n - 1) as nat, step, guard, rolls);
    }
}

/// What a mover has against attacks is its own armor and what its statuses add to it.
pub proof fn law_guard(sheet: MoverSheet, content: ContentView)
    ensures
        guard_of(sheet, content).armor - sheet.armor == armor_sum(sheet.statuses@, content),
        guard_of(sheet, content).vulnerability == vulnerability_sum(sheet.statuses@, content),
{
}

pub(crate) proof fn first_rage_is_found(rows: Seq<RageRow>, entity: Entity, i: int)
    requires
        is_first_rage(rows, entity, i),
    ensures
        rage_place(rows, entity) == Some(i),
{
    let k = choose|k: int| is_first_rage(rows, entity, k);
    assert(is_first_rage(rows, entity, k));
    if k < i {
        assert(rows[k].entity != entity);
    }
    if i < k {
        assert(rows[i].entity != entity);
    }
}

/// A gained point of rage is one point more, up to the maximum, for the one who gains
/// it and for nobody else; and it is told as it then stands.
pub proof fn law_rage_rises_by_one(rows: Seq<RageRow>, entity: Entity, i: int)
    requires
        is_first_rage(rows, entity, i),
    ensures
        ({
            let now = rage_gained(rows, entity);
            &&& now.len() == rows.len()
            &&& rows[i].current < rows[i].max ==> now[i].current == rows[i].current + 1
            &&& rows[i].current >= rows[i].max ==> now[i].current == rows[i].current
            &&& now[i].max == rows[i].max && now[i].entity == entity
            &&& forall|j: int| 0 <= j < rows.len() && j != i ==> (#[trigger] now[j]) == rows[j]
            &&& rage_line(rows, entity) == Some(
                CombatEvent::RageGained {
                    actor: entity,
                    current: now[i].current,
                    max: rows[i].max,
                },
            )
        }),
{
    first_rage_is_found(rows, entity, i);
}

/// Who has no rage gains none.
pub proof fn law_no_rage_from_nothing(rows: Seq<RageRow>, entity: Entity)
    requires
        forall|j: int| 0 <= j < rows.len() ==> (#[trigger] rows[j]).entity != entity,
    ensures
        rage_gained(rows, entity) == rows,
        rage_line(rows, entity) is None,
{
    assert forall|k: int| !is_first_rage(rows, entity, k) by {
        if 0 <= k < rows.len() {
            assert(rows[k].entity != entity);
        }
    }
}

/// An opportunity attack enrages the attacker and the mover, a point each, and is
/// then told with its damage.
pub proof fn law_attacks_enrage_both(
    rage: Seq<RageRow>,
    log: Seq<CombatEvent>,
    fired: Seq<Fired>,
    n: nat,
    mover: Entity,
    i: int,
    j: int,
)
    requires
        0 < n <= fired.len(),
        fired[n - 1].attacker != mover,
        is_first_rage(
            after_attacks(rage, log, fired, (n - 1) as nat, mover).0,
            fired[n - 1].attacker,
            i,
        ),
        is_first_rage(after_attacks(rage, log, fired, (n - 1) as nat, mover).0, mover, j),
    ensures
        ({
            let (r, l) = after_attacks(rage, log, fired, (n - 1) as nat, mover);
            let (w, k) = after_attacks(rage, log, fired, n, mover);
            &&& w.len() == r.len()
            &&& r[i].current < r[i].max ==> w[i].current == r[i].current + 1
            &&& r[j].current < r[j].max ==> w[j].current == r[j].current + 1
            &&& forall|m: int| 0 <= m < r.len() && m != i && m != j ==> (#[trigger] w[m]) == r[m]
            &&& k.len() == l.len() + 3
            &&& k.last() == (CombatEvent::OpportunityAttack {
                attacker: fired[n - 1].attacker,
                target: mover,
                damage: fired[n - 1].damage,
                killed: fired[n - 1].killed,
            })
        }),
{
    let (r, l) = after_attacks(rage, log, fired, (n - 1) as nat, mover);
    let f = fired[n - 1];
    first_rage_is_found(r, f.attacker, i);
    let r1 = rage_gained(r, f.attacker);
    assert forall|m: int| 0 <= m < j implies (#[trigger] r1[m]).entity != mover by {
        assert(r[m].entity != mover);
    }
    assert(is_first_rage(r1, mover, j));
    first_rage_is_found(r1, mover, j);
}

/// A reaction is spent by its owner alone, and none below zero.
pub proof fn law_reaction_is_spent(rows: Seq<ReactionRow>, entity: Entity, i: int)
    requires
        0 <= i < rows.len(),
        rows[i].entity == entity,
        forall|j: int| 0 <= j < i ==> (#[trigger] rows[j]).entity != entity,
    ensures
        reaction_spent(rows, entity).len() == rows.len(),
        rows[i].remaining >= 1 ==> reaction_spent(rows, entity)[i].remaining + 1
            == rows[i].remaining,
        rows[i].remaining == 0 ==> reaction_spent(rows, entity)[i].remaining == 0,
        reaction_spent(rows, entity)[i].entity == entity,
        forall|j: int|
            0 <= j < rows.len() && j != i ==> (#[trigger] reaction_spent(rows, entity)[j])
                == rows[j],
{
    assert forall|j: int| 0 <= j < rows.len() && j != i implies (#[trigger] reaction_spent(
        rows,
        entity,
    )[j]) == rows[j] by {
        if j > i {
            assert(rows[i].entity == entity);
        }
    }
}

/// Every attack of a walk costs its attacker a reaction, in order.
pub proof fn law_attacks_spend_in_order(rows: Seq<ReactionRow>, fired: Seq<Fired>, n: nat)
    requires
        0 < n <= fired.len(),
    ensures
        reactions_after(rows, fired, 0) == rows,
        reactions_after(rows, fired, n) == reaction_spent(
            reactions_after(rows, fired, (n - 1) as nat),
            fired[n - 1].attacker,
        ),
{
}

/// What a move leaves behind: the mover stands where its last step led, unless someone
/// else holds that cell; nobody else has moved; each step has cost a movement point;
/// the mark of bonus movement goes with the last one; the fall of the mover is told
/// where it fell, and the way it went where it got through.
pub proof fn law_move_is_settled(
    before: MoveWorld,
    after: MoveWorld,
    r: MoveEnd,
    actor: Entity,
    old_pos: Hex,
    path: Seq<Hex>,
    walk: Walk,
    movement_points: i32,
    has_bonus: bool,
)
    requires
        settles(before, after, r, actor, old_pos, path, walk, movement_points, has_bonus),
        walk.walked <= path.len(),
    ensures
        walk.walked <= movement_points ==> r.movement_points + walk.walked == movement_points,
        walk.walked > movement_points ==> r.movement_points == 0,
        r.hp == walk.hp,
        r.died == walk.died,
        forall|e: Entity|
            e != actor ==> (after.cells.contains_key(e) <==> before.cells.contains_key(e))
                && (before.cells.contains_key(e) ==> #[trigger] after.cells[e] == before.cells[e]),
        r.waypoints@.len() == walk.walked + 1,
        r.waypoints@[0] == old_pos,
        forall|k: int| 0 <= k < walk.walked ==> #[trigger] r.waypoints@[k + 1] == path[k],
        walk.walked > 0 && path[walk.walked - 1] != old_pos && (forall|e: Entity|
            #![trigger before.cells[e]]
            before.cells.contains_key(e) && e != actor ==> before.cells[e] != path[walk.walked
                - 1]) ==> !r.blocked && after.cells.contains_key(actor) && after.cells[actor]
            == path[walk.walked - 1],
        r.blocked ==> after.cells == before.cells && !r.remove_bonus,
        !r.blocked ==> (r.remove_bonus <==> has_bonus && r.movement_points == 0),
        walk.walked > 0 && !r.blocked ==> after.log.last() == (CombatEvent::UnitMoved {
            actor,
            from: old_pos,
            to: path[walk.walked - 1],
        }),
        walk.died ==> after.log.contains(CombatEvent::UnitDied { entity: actor }),
{
    let end = walk_end(old_pos, path, walk.walked as nat);
    let lines = after_attacks(
        before.rage,
        before.log,
        walk.fired@,
        walk.fired@.len(),
        actor,
    ).1;
    if walk.died {
        assert(after.log[lines.len() as int] == (CombatEvent::UnitDied { entity: actor }));
    }
    if end != old_pos && held_by_other(before.cells, end, actor) {
        let e = choose|e: Entity| #[trigger]
            before.cells.contains_key(e) && e != actor && before.cells[e] == end;
        assert(before.cells[e] == end);
    }
}

} // verus!
