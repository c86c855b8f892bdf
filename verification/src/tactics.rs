//! A plainer AI: it uses its best ability on whom it reaches, and else moves up.

use crate::bootstrap::EcsStatus;
use crate::candidates::{copy_cells, way_to, Reach};
use crate::content::{AbilityRange, ContentView};
use crate::effects::{armor_sum, sum_bonuses, vulnerability_sum};
use crate::hex::{distance, Hex};
use crate::ids::Entity;
use crate::legality::{any_taunt, scan_statuses};
use crate::pool::first_standing;
use crate::positions::{HexPositions, Standing};
use crate::state::Team;
use crate::targets::all_in_range;
use vstd::prelude::*;

verus! {

// ---------------------------------------------------------------------------
// Targets
// ---------------------------------------------------------------------------

/// A combatant as the AI looks at it.
#[derive(Debug)]
pub struct CombatantInfo {
    pub entity: Entity,
    pub team: Team,
    pub hp: i32,
    pub max_hp: i32,
    pub armor: i32,
    pub statuses: Vec<EcsStatus>,
}

/// A living combatant on the board.
#[derive(Clone, Copy, PartialEq, Eq, Structural, Debug)]
pub struct TargetInfo {
    pub entity: Entity,
    pub pos: Hex,
    pub hp: i32,
    pub max_hp: i32,
    pub armor: i32,
    pub armor_bonus: i128,
    pub damage_taken_bonus: i128,
    /// Whether attacks must go to it.
    pub taunts: bool,
}

/// What the AI sees of a combatant on a cell.
pub open spec fn info_of(row: CombatantInfo, pos: Hex, content: ContentView) -> TargetInfo {
    TargetInfo {
        entity: row.entity,
        pos,
        hp: row.hp,
        max_hp: row.max_hp,
        armor: row.armor,
        armor_bonus: armor_sum(row.statuses@, content) as i128,
        damage_taken_bonus: vulnerability_sum(row.statuses@, content) as i128,
        taunts: any_taunt(row.statuses@, content),
    }
}

/// The living of a team that stand on the board, in order.
pub open spec fn living_of(
    rows: Seq<CombatantInfo>,
    team: Team,
    cells: Map<Entity, Hex>,
    content: ContentView,
) -> Seq<TargetInfo>
    decreases rows.len(),
{
    if rows.len() == 0 {
        Seq::empty()
    } else {
        let rest = living_of(rows.drop_last(), team, cells, content);
        let row = rows.last();
        if row.team == team && row.hp > 0 && cells.contains_key(row.entity) {
            rest.push(info_of(row, cells[row.entity], content))
        } else {
            rest
        }
    }
}

/// The living of a team that stand on the board.
pub fn living_targets(
    rows: &Vec<CombatantInfo>,
    team: Team,
    positions: &HexPositions,
    content: &ContentView,
) -> (r: Vec<TargetInfo>)
    ensures
        r@ == living_of(rows@, team, positions@, *content),
{
    let mut r: Vec<TargetInfo> = Vec::new();
    let mut i: usize = 0;
    assert(rows@.take(0) =~= Seq::empty());
    while i < rows.len()
        invariant
            i <= rows.len(),
            r@ == living_of(rows@.take(i as int), team, positions@, *content),
        decreases rows.len() - i,
    {
        assert(rows@.take(i + 1).drop_last() =~= rows@.take(i as int));
        let row = &rows[i];
        if row.team == team && row.hp > 0 {
            if let Some(pos) = positions.get(row.entity) {
                let (armor_bonus, damage_taken_bonus) = sum_bonuses(&row.statuses, content);
                let (_, _, taunts) = scan_statuses(&row.statuses, content);
                r.push(
                    TargetInfo {
                        entity: row.entity,
                        pos,
                        hp: row.hp,
                        max_hp: row.max_hp,
                        armor: row.armor,
                        armor_bonus,
                        damage_taken_bonus,
                        taunts,
                    },
                );
            }
        }
        i = i + 1;
    }
    assert(rows@.take(i as int) =~= rows@);
    r
}

/// Those of some that draw attacks, in order.
pub open spec fn drawing(targets: Seq<TargetInfo>) -> Seq<TargetInfo>
    decreases targets.len(),
{
    if targets.len() == 0 {
        Seq::empty()
    } else if targets.last().taunts {
        drawing(targets.drop_last()).push(targets.last())
    } else {
        drawing(targets.drop_last())
    }
}

/// Whom attacks may go to: those that draw them, where there are any, else all.
pub open spec fn attackable(targets: Seq<TargetInfo>) -> Seq<TargetInfo> {
    if drawing(targets).len() > 0 {
        drawing(targets)
    } else {
        targets
    }
}

/// Whom attacks may go to.
pub fn forced_or_all(targets: Vec<TargetInfo>) -> (r: Vec<TargetInfo>)
    ensures
        r@ == attackable(targets@),
{
    let mut forced: Vec<TargetInfo> = Vec::new();
    let mut i: usize = 0;
    assert(targets@.take(0) =~= Seq::empty());
    while i < targets.len()
        invariant
            i <= targets.len(),
            forced@ == drawing(targets@.take(i as int)),
        decreases targets.len() - i,
    {
        assert(targets@.take(i + 1).drop_last() =~= targets@.take(i as int));
        if targets[i].taunts {
            forced.push(targets[i]);
        }
        i = i + 1;
    }
    assert(targets@.take(i as int) =~= targets@);
    if forced.len() > 0 {
        forced
    } else {
        targets
    }
}

// ---------------------------------------------------------------------------
// The best of some
// ---------------------------------------------------------------------------

/// Whether `i` is the place of the best number; the first of equals.
pub open spec fn is_best(keys: Seq<Option<i64>>, i: int) -> bool {
    &&& 0 <= i < keys.len()
    &&& keys[i] is Some
    &&& forall|j: int|
        0 <= j < keys.len() && (#[trigger] keys[j]) is Some ==> keys[j]->0 <= keys[i]->0
    &&& forall|j: int| 0 <= j < i && (#[trigger] keys[j]) is Some ==> keys[j]->0 < keys[i]->0
}

/// The place of the best number, where there is any.
pub open spec fn best_place(keys: Seq<Option<i64>>) -> Option<int> {
    if exists|i: int| is_best(keys, i) {
        Some(choose|i: int| is_best(keys, i))
    } else {
        None
    }
}

proof fn best_is_unique(keys: Seq<Option<i64>>, i: int)
    requires
        is_best(keys, i),
    ensures
        best_place(keys) == Some(i),
{
    let k = choose|k: int| is_best(keys, k);
    assert(is_best(keys, k));
    assert(keys[k] is Some);
    assert(keys[i] is Some);
}

/// Finds the best number; the first of equals.
pub fn first_best(keys: &Vec<Option<i64>>) -> (r: Option<usize>)
    ensures
        match r {
            Some(i) => best_place(keys@) == Some(i as int) && i < keys@.len(),
            None => best_place(keys@) is None,
        },
{
    let mut best: Option<(usize, i64)> = None;
    let mut i: usize = 0;
    while i < keys.len()
        invariant
            i <= keys.len(),
            match best {
                Some((k, v)) => is_best(keys@.take(i as int), k as int) && keys@[k as int]
                    == Some(v),
                None => forall|j: int| 0 <= j < i ==> (#[trigger] keys@[j]) is None,
            },
        decreases keys.len() - i,
    {
        let ghost before = keys@.take(i as int);
        let ghost after = keys@.take(i + 1);
        if let Some(v) = keys[i] {
            match best {
                Some((k, w)) => {
                    if v > w {
                        best = Some((i, v));
                        proof {
                            assert forall|j: int|
                                0 <= j < after.len() && (#[trigger] after[j])
                                    is Some implies after[j]->0 <= after[i as int]->0 && (j < i
                                ==> after[j]->0 < after[i as int]->0) by {
                                if j < i {
                                    assert(before[j] == after[j]);
                                }
                            }
                            assert(is_best(after, i as int));
                        }
                    } else {
                        proof {
                            assert forall|j: int|
                                0 <= j < after.len() && (#[trigger] after[j])
                                    is Some implies after[j]->0 <= after[k as int]->0 && (j < k
                                ==> after[j]->0 < after[k as int]->0) by {
                                if j < i {
                                    assert(before[j] == after[j]);
                                }
                            }
                            assert(before[k as int] == after[k as int]);
                            assert(is_best(after, k as int));
                        }
                    }
                },
                None => {
                    best = Some((i, v));
                    assert(is_best(after, i as int));
                },
            }
        } else {
            if let Some((k, w)) = best {
                proof {
                    assert forall|j: int|
                        0 <= j < after.len() && (#[trigger] after[j]) is Some implies after[j]->0
                        <= after[k as int]->0 && (j < k ==> after[j]->0 < after[k as int]->0) by {
                        if j < i {
                            assert(before[j] == after[j]);
                        }
                    }
                    assert(before[k as int] == after[k as int]);
                    assert(is_best(after, k as int));
                }
            }
        }
        i = i + 1;
    }
    assert(keys@.take(i as int) =~= keys@);
    match best {
        Some((k, _)) => {
            proof {
                best_is_unique(keys@, k as int);
            }
            Some(k)
        },
        None => {
            proof {
                assert forall|k: int| !is_best(keys@, k) by {}
            }
            None
        },
    }
}

/// A cell that an ability can be aimed at, and how good that would be. Only the
/// order of scores counts.
#[derive(Debug)]
pub struct Aim {
    pub ability: String,
    pub target_pos: Hex,
    pub range: AbilityRange,
    /// Whether it would do any good at all.
    pub is_good: bool,
    pub score: i64,
    /// The score where the aim is nearer than the ability is made for.
    pub near_score: i64,
}

/// Scores of aims that do any good, wherever they are.
pub open spec fn any_keys(aims: Seq<Aim>) -> Seq<Option<i64>> {
    Seq::new(
        aims.len(),
        |i: int|
            if aims[i].is_good {
                Some(aims[i].score)
            } else {
                None
            },
    )
}

/// Scores of aims that do any good and are in range of a cell.
pub open spec fn range_keys(aims: Seq<Aim>, from: Hex) -> Seq<Option<i64>> {
    Seq::new(
        aims.len(),
        |i: int|
            {
                let d = distance(from, aims[i].target_pos);
                if aims[i].is_good && (d <= aims[i].range.max || aims[i].range.max == 0) {
                    Some(
                        if d < aims[i].range.min {
                            aims[i].near_score
                        } else {
                            aims[i].score
                        },
                    )
                } else {
                    None
                }
            },
    )
}

/// The best aims: in range of a cell, and wherever.
#[derive(Clone, Copy, PartialEq, Eq, Structural, Debug)]
pub struct EvalResult {
    /// Place of the best aim that is in range.
    pub best_in_range: Option<usize>,
    /// Place of the best aim.
    pub best_any: Option<usize>,
}

/// Finds the best aims.
pub fn evaluate_targets(aims: &Vec<Aim>, from: Hex) -> (r: EvalResult)
    requires
        forall|i: int|
            0 <= i < aims@.len() && (#[trigger] aims@[i]).is_good ==> from.in_range()
                && aims@[i].target_pos.in_range(),
    ensures
        match r.best_in_range {
            Some(i) => best_place(range_keys(aims@, from)) == Some(i as int) && i < aims@.len(),
            None => best_place(range_keys(aims@, from)) is None,
        },
        match r.best_any {
            Some(i) => best_place(any_keys(aims@)) == Some(i as int) && i < aims@.len(),
            None => best_place(any_keys(aims@)) is None,
        },
{
    let mut any: Vec<Option<i64>> = Vec::new();
    let mut near: Vec<Option<i64>> = Vec::new();
    let mut i: usize = 0;
    while i < aims.len()
        invariant
            i <= aims.len(),
            forall|j: int|
                0 <= j < aims@.len() && (#[trigger] aims@[j]).is_good ==> from.in_range()
                    && aims@[j].target_pos.in_range(),
            any@ == any_keys(aims@).take(i as int),
            near@ == range_keys(aims@, from).take(i as int),
        decreases aims.len() - i,
    {
        let aim = &aims[i];
        if aim.is_good {
            let d = from.unsigned_distance_to(aim.target_pos);
            any.push(Some(aim.score));
            near.push(
                if d <= aim.range.max || aim.range.max == 0 {
                    Some(
                        if d < aim.range.min {
                            aim.near_score
                        } else {
                            aim.score
                        },
                    )
                } else {
                    None
                },
            );
        } else {
            any.push(None);
            near.push(None);
        }
        assert(any@ =~= any_keys(aims@).take(i + 1));
        assert(near@ =~= range_keys(aims@, from).take(i + 1));
        i = i + 1;
    }
    assert(any@ =~= any_keys(aims@));
    assert(near@ =~= range_keys(aims@, from));
    EvalResult { best_in_range: first_best(&near), best_any: first_best(&any) }
}

// ---------------------------------------------------------------------------
// Moving up
// ---------------------------------------------------------------------------

/// A way to a cell from which an aim is in range.
#[verifier::ext_equal]
pub struct WayIn {
    pub path: Seq<Hex>,
    pub cell: Hex,
    pub aim: Hex,
}

/// The ways to the first `n` cells from which an aim is in range.
pub open spec fn ways_to_aim(
    reach: Reach,
    aim: Hex,
    range: u32,
    n: nat,
) -> Seq<WayIn>
    decreases n,
{
    if n == 0 {
        Seq::empty()
    } else {
        let rest = ways_to_aim(reach, aim, range, (n - 1) as nat);
        let cell = reach.destinations@[n - 1];
        match way_to(reach.paths@, cell) {
            Some(path) if distance(cell, aim) <= range => rest.push(WayIn { path, cell, aim }),
            _ => rest,
        }
    }
}

/// The ways to cells from which one of the first `n` aims is in range.
pub open spec fn ways_to_aims(reach: Reach, aims: Seq<Hex>, range: u32, n: nat) -> Seq<WayIn>
    decreases n,
{
    if n == 0 {
        Seq::empty()
    } else {
        ways_to_aims(reach, aims, range, (n - 1) as nat) + ways_to_aim(
            reach,
            aims[n - 1],
            range,
            reach.destinations@.len(),
        )
    }
}

/// The shortest of some ways; the first of equals.
pub open spec fn shortest(ways: Seq<WayIn>) -> Option<WayIn>
    decreases ways.len(),
{
    if ways.len() == 0 {
        None
    } else {
        match shortest(ways.drop_last()) {
            Some(w) if w.path.len() <= ways.last().path.len() => Some(w),
            _ => Some(ways.last()),
        }
    }
}

/// The nearest cell to any of the first `n` targets of a list that one of the first
/// `m` cells offers; the first of equals. The cell comes with its distance.
pub open spec fn nearest_of(cells: Seq<Hex>, targets: Seq<Hex>, m: nat, n: nat) -> Option<
    (Hex, int),
>
    decreases m, n,
{
    if m == 0 {
        None
    } else if n == 0 {
        nearest_of(cells, targets, (m - 1) as nat, targets.len())
    } else {
        let d = distance(cells[m - 1], targets[n - 1]);
        match nearest_of(cells, targets, m, (n - 1) as nat) {
            Some((h, best)) if best <= d => Some((h, best)),
            _ => Some((cells[m - 1], d)),
        }
    }
}

/// How an enemy moves up.
#[derive(Debug)]
pub enum Approach {
    /// To a cell from which it can use an ability.
    IntoRange { path: Vec<Hex>, cell: Hex, aim: Hex },
    /// As near as it gets.
    Closer { path: Vec<Hex> },
    Stay,
}

/// How an enemy moves up: by the shortest way to a cell from which an aim is in
/// range, else to the cell nearest to any target.
pub open spec fn is_approach(
    a: Approach,
    reach: Reach,
    aims: Seq<Hex>,
    targets: Seq<Hex>,
    range: u32,
) -> bool {
    match shortest(ways_to_aims(reach, aims, range, aims.len())) {
        Some(w) => a matches Approach::IntoRange { path, cell, aim } && path@ == w.path && cell
            == w.cell && aim == w.aim,
        None => match nearest_of(
            reach.destinations@,
            targets,
            reach.destinations@.len(),
            targets.len(),
        ) {
            Some((cell, d)) => match way_to(reach.paths@, cell) {
                Some(p) => a matches Approach::Closer { path } && path@ == p,
                None => a is Stay,
            },
            None => a is Stay,
        },
    }
}

fn find_shortest(reach: &Reach, aims: &Vec<Hex>, range: u32) -> (r: Option<(Vec<Hex>, Hex, Hex)>)
    requires
        all_in_range(reach.destinations@),
        all_in_range(aims@),
    ensures
        match r {
            Some((path, cell, aim)) => shortest(ways_to_aims(*reach, aims@, range, aims@.len()))
                == Some(WayIn { path: path@, cell, aim }),
            None => shortest(ways_to_aims(*reach, aims@, range, aims@.len())) is None,
        },
{
    let mut best: Option<(Vec<Hex>, Hex, Hex)> = None;
    let mut a: usize = 0;
    while a < aims.len()
        invariant
            a <= aims.len(),
            all_in_range(reach.destinations@),
            all_in_range(aims@),
            match best {
                Some((path, cell, aim)) => shortest(
                    ways_to_aims(*reach, aims@, range, a as nat),
                ) == Some(WayIn { path: path@, cell, aim }),
                None => shortest(ways_to_aims(*reach, aims@, range, a as nat)) is None,
            },
        decreases aims.len() - a,
    {
        let aim = aims[a];
        assert(aims@[a as int].in_range());
        let ghost head = ways_to_aims(*reach, aims@, range, a as nat);
        let mut n: usize = 0;
        assert(head + ways_to_aim(*reach, aim, range, 0) =~= head);
        while n < reach.destinations.len()
            invariant
                n <= reach.destinations.len(),
                aim.in_range(),
                all_in_range(reach.destinations@),
                match best {
                    Some((path, cell, at)) => shortest(
                        head + ways_to_aim(*reach, aim, range, n as nat),
                    ) == Some(WayIn { path: path@, cell, aim: at }),
                    None => shortest(head + ways_to_aim(*reach, aim, range, n as nat)) is None,
                },
            decreases reach.destinations.len() - n,
        {
            let cell = reach.destinations[n];
            assert(reach.destinations@[n as int].in_range());
            let ghost before = head + ways_to_aim(*reach, aim, range, n as nat);
            if cell.unsigned_distance_to(aim) <= range {
                if let Some(path) = reach.path_to(cell) {
                    let ghost w = WayIn { path: path@, cell, aim };
                    assert(head + ways_to_aim(*reach, aim, range, (n + 1) as nat)
                        =~= before.push(w));
                    assert(before.push(w).drop_last() =~= before);
                    let is_better = match &best {
                        Some((known, _, _)) => path.len() < known.len(),
                        None => true,
                    };
                    if is_better {
                        best = Some((path, cell, aim));
                    }
                }
            }
            n = n + 1;
        }
        a = a + 1;
    }
    best
}

fn find_nearest_cell(cells: &Vec<Hex>, targets: &Vec<Hex>) -> (r: Option<Hex>)
    requires
        all_in_range(cells@),
        all_in_range(targets@),
    ensures
        match r {
            Some(h) => nearest_of(cells@, targets@, cells@.len(), targets@.len()) matches Some(
                (g, d),
            ) && g == h,
            None => nearest_of(cells@, targets@, cells@.len(), targets@.len()) is None,
        },
{
    let mut best: Option<(Hex, u32)> = None;
    let mut m: usize = 0;
    while m < cells.len()
        invariant
            m <= cells.len(),
            all_in_range(cells@),
            all_in_range(targets@),
            match best {
                Some((h, d)) => nearest_of(cells@, targets@, m as nat, targets@.len()) == Some(
                    (h, d as int),
                ),
                None => nearest_of(cells@, targets@, m as nat, targets@.len()) is None,
            },
        decreases cells.len() - m,
    {
        assert(cells@[m as int].in_range());
        let mut n: usize = 0;
        while n < targets.len()
            invariant
                n <= targets.len(),
                m < cells.len(),
                cells@[m as int].in_range(),
                all_in_range(targets@),
                match best {
                    Some((h, d)) => nearest_of(cells@, targets@, (m + 1) as nat, n as nat)
                        == Some((h, d as int)),
                    None => nearest_of(cells@, targets@, (m + 1) as nat, n as nat) is None,
                },
            decreases targets.len() - n,
        {
            assert(targets@[n as int].in_range());
            let d = cells[m].unsigned_distance_to(targets[n]);
            let is_better = match best {
                Some((_, known)) => d < known,
                None => true,
            };
            if is_better {
                best = Some((cells[m], d));
            }
            n = n + 1;
        }
        m = m + 1;
    }
    match best {
        Some((h, _)) => Some(h),
        None => None,
    }
}

/// Whether an enemy moves up towards its best aim, where it has one, else towards all
/// targets.
pub open spec fn is_move_plan(
    a: Approach,
    reach: Reach,
    best_aim: Option<Hex>,
    targets: Seq<Hex>,
    range: u32,
) -> bool {
    is_approach(
        a,
        reach,
        match best_aim {
            Some(h) => seq![h],
            None => targets,
        },
        targets,
        range,
    )
}

/// Plans how an enemy moves up: towards its best aim, where it has one, else
/// towards all targets.
pub fn plan_movement(
    reach: &Reach,
    best_aim: Option<Hex>,
    targets: &Vec<Hex>,
    range: u32,
) -> (r: Approach)
    requires
        all_in_range(reach.destinations@),
        all_in_range(targets@),
        best_aim matches Some(h) ==> h.in_range(),
    ensures
        is_move_plan(r, *reach, best_aim, targets@, range),
{
    let found = match best_aim {
        Some(h) => {
            let mut one: Vec<Hex> = Vec::new();
            one.push(h);
            assert(one@ =~= seq![h]);
            find_shortest(reach, &one, range)
        },
        None => find_shortest(reach, targets, range),
    };
    if let Some((path, cell, aim)) = found {
        return Approach::IntoRange { path, cell, aim };
    }
    if let Some(dest) = find_nearest_cell(&reach.destinations, targets) {
        if let Some(path) = reach.path_to(dest) {
            return Approach::Closer { path };
        }
    }
    Approach::Stay
}

/// Cells that an enemy cannot pass: those of other living enemies on the board.
pub open spec fn impassable(rows: Seq<CombatantInfo>, actor: Entity, cells: Map<Entity, Hex>) -> Seq<
    Hex,
>
    decreases rows.len(),
{
    if rows.len() == 0 {
        Seq::empty()
    } else {
        let rest = impassable(rows.drop_last(), actor, cells);
        let row = rows.last();
        if row.entity != actor && row.team == Team::Enemy && row.hp > 0 && cells.contains_key(
            row.entity,
        ) {
            rest.push(cells[row.entity])
        } else {
            rest
        }
    }
}

/// Cells that an enemy cannot pass.
pub fn impassable_cells(rows: &Vec<CombatantInfo>, actor: Entity, positions: &HexPositions) -> (r:
    Vec<Hex>)
    ensures
        r@ == impassable(rows@, actor, positions@),
{
    let mut r: Vec<Hex> = Vec::new();
    let mut i: usize = 0;
    assert(rows@.take(0) =~= Seq::empty());
    while i < rows.len()
        invariant
            i <= rows.len(),
            r@ == impassable(rows@.take(i as int), actor, positions@),
        decreases rows.len() - i,
    {
        assert(rows@.take(i + 1).drop_last() =~= rows@.take(i as int));
        let row = &rows[i];
        if row.entity != actor && row.team == Team::Enemy && row.hp > 0 {
            if let Some(pos) = positions.get(row.entity) {
                r.push(pos);
            }
        }
        i = i + 1;
    }
    assert(rows@.take(i as int) =~= rows@);
    r
}

/// Cells that others than an actor stand on, in order.
pub open spec fn taken(standing: Seq<Standing>, actor: Entity) -> Seq<Hex>
    decreases standing.len(),
{
    if standing.len() == 0 {
        Seq::empty()
    } else if standing.last().entity != actor {
        taken(standing.drop_last(), actor).push(standing.last().hex)
    } else {
        taken(standing.drop_last(), actor)
    }
}

/// Cells that others than an actor stand on: it can pass them, but not stop there.
pub fn taken_cells(standing: &Vec<Standing>, actor: Entity) -> (r: Vec<Hex>)
    ensures
        r@ == taken(standing@, actor),
{
    let mut r: Vec<Hex> = Vec::new();
    let mut i: usize = 0;
    assert(standing@.take(0) =~= Seq::empty());
    while i < standing.len()
        invariant
            i <= standing.len(),
            r@ == taken(standing@.take(i as int), actor),
        decreases standing.len() - i,
    {
        assert(standing@.take(i + 1).drop_last() =~= standing@.take(i as int));
        if standing[i].entity != actor {
            r.push(standing[i].hex);
        }
        i = i + 1;
    }
    assert(standing@.take(i as int) =~= standing@);
    r
}

// ---------------------------------------------------------------------------
// A turn
// ---------------------------------------------------------------------------

/// What an enemy does in its turn, one after the other.
#[derive(Debug)]
pub enum EnemyCommand {
    UseAbility { actor: Entity, ability: String, target: Entity, target_pos: Hex },
    MoveUnit { actor: Entity, path: Vec<Hex> },
    EndTurn { actor: Entity },
}

/// Whether a command uses an ability on a cell, with whoever stands there first as
/// its target, else the actor.
pub open spec fn is_use(
    c: EnemyCommand,
    actor: Entity,
    ability: Seq<char>,
    target_pos: Hex,
    standing: Seq<Standing>,
) -> bool {
    c matches EnemyCommand::UseAbility { actor: a, ability: s, target, target_pos: p } && a
        == actor && s@ == ability && p == target_pos && target == (match first_standing(
        standing,
        target_pos,
    ) {
        Some(e) => e,
        None => actor,
    })
}

fn standing_on(standing: &Vec<Standing>, cell: Hex) -> (r: Option<Entity>)
    ensures
        r == first_standing(standing@, cell),
{
    let mut i: usize = 0;
    assert(standing@.skip(0) =~= standing@);
    while i < standing.len()
        invariant
            i <= standing.len(),
            first_standing(standing@, cell) == first_standing(standing@.skip(i as int), cell),
        decreases standing.len() - i,
    {
        assert(standing@.skip(i as int).drop_first() =~= standing@.skip(i + 1));
        if standing[i].hex == cell {
            return Some(standing[i].entity);
        }
        i = i + 1;
    }
    None
}

fn use_on(actor: Entity, ability: &String, target_pos: Hex, standing: &Vec<Standing>) -> (r:
    EnemyCommand)
    ensures
        is_use(r, actor, ability@, target_pos, standing@),
{
    let target = match standing_on(standing, target_pos) {
        Some(e) => e,
        None => actor,
    };
    EnemyCommand::UseAbility { actor, ability: ability.clone(), target, target_pos }
}

/// The enemy whose turn it may be.
#[derive(Clone, Copy, PartialEq, Eq, Structural, Debug)]
pub struct EnemyRow {
    pub entity: Entity,
    pub team: Team,
    pub is_alive: bool,
    pub has_abilities: bool,
    pub action: bool,
    pub movement: bool,
    pub is_on_board: bool,
}

/// How the turn of an enemy begins.
#[derive(Clone, Copy, PartialEq, Eq, Structural, Debug)]
pub enum EnemyOpening {
    /// It is not the turn of an enemy that can do anything about it.
    Idle,
    /// Action and movement are spent.
    Spent,
    /// It looks for something to do.
    Think,
}

/// How the turn of an enemy begins.
pub open spec fn opening_of(row: Option<EnemyRow>, any_target: bool) -> EnemyOpening {
    match row {
        Some(r) => if r.team != Team::Enemy || !r.is_alive || !r.has_abilities {
            EnemyOpening::Idle
        } else if !r.action && !r.movement {
            EnemyOpening::Spent
        } else if !r.is_on_board || !any_target {
            EnemyOpening::Idle
        } else {
            EnemyOpening::Think
        },
        None => EnemyOpening::Idle,
    }
}

/// Finds how the turn of an enemy begins.
pub fn open_enemy_turn(row: Option<EnemyRow>, any_target: bool) -> (r: EnemyOpening)
    ensures
        r == opening_of(row, any_target),
{
    let row = match row {
        Some(row) => row,
        None => return EnemyOpening::Idle,
    };
    if row.team != Team::Enemy || !row.is_alive || !row.has_abilities {
        return EnemyOpening::Idle;
    }
    if !row.action && !row.movement {
        return EnemyOpening::Spent;
    }
    if !row.is_on_board || !any_target {
        return EnemyOpening::Idle;
    }
    EnemyOpening::Think
}

/// An ability and the cell that it is aimed at.
#[derive(Debug)]
pub struct Shot {
    pub ability: String,
    pub target_pos: Hex,
}

/// What an enemy has found to do.
#[derive(Debug)]
pub struct EnemyPlan {
    /// The best ability and aim that is in range.
    pub in_range: Option<Shot>,
    /// How it could move up.
    pub approach: Approach,
    /// The best ability and aim from where it would move to.
    pub after_move: Option<Shot>,
}

/// Whether commands are those of an enemy's turn. It uses what is in range; else it
/// moves up, and uses an ability there if it can; and ends its turn where it uses
/// none.
pub open spec fn is_turn(
    commands: Seq<EnemyCommand>,
    row: EnemyRow,
    plan: EnemyPlan,
    standing: Seq<Standing>,
) -> bool {
    let end = EnemyCommand::EndTurn { actor: row.entity };
    if row.action && plan.in_range is Some {
        &&& commands.len() == 1
        &&& is_use(
            commands[0],
            row.entity,
            plan.in_range->0.ability@,
            plan.in_range->0.target_pos,
            standing,
        )
    } else if row.movement {
        match plan.approach {
            Approach::IntoRange { path, .. } => {
                &&& commands.len() == 2
                &&& commands[0] matches EnemyCommand::MoveUnit { actor: a, path: p } && a
                    == row.entity && p@ == path@
                &&& if row.action && plan.after_move is Some {
                    is_use(
                        commands[1],
                        row.entity,
                        plan.after_move->0.ability@,
                        plan.after_move->0.target_pos,
                        standing,
                    )
                } else {
                    commands[1] == end
                }
            },
            Approach::Closer { path } => {
                &&& commands.len() == 2
                &&& commands[0] matches EnemyCommand::MoveUnit { actor: a, path: p } && a
                    == row.entity && p@ == path@
                &&& commands[1] == end
            },
            Approach::Stay => commands == seq![end],
        }
    } else {
        commands == seq![end]
    }
}

/// Turns what an enemy has found to do into the commands of its turn.
pub fn enemy_ai_system(row: EnemyRow, plan: &EnemyPlan, standing: &Vec<Standing>) -> (commands:
    Vec<EnemyCommand>)
    ensures
        is_turn(commands@, row, *plan, standing@),
{
    let mut commands: Vec<EnemyCommand> = Vec::new();
    let actor = row.entity;
    if row.action {
        if let Some(shot) = &plan.in_range {
            commands.push(use_on(actor, &shot.ability, shot.target_pos, standing));
            return commands;
        }
    }
    if row.movement {
        match &plan.approach {
            Approach::IntoRange { path, .. } => {
                commands.push(EnemyCommand::MoveUnit { actor, path: copy_cells(path) });
                if row.action {
                    if let Some(shot) = &plan.after_move {
                        commands.push(use_on(actor, &shot.ability, shot.target_pos, standing));
                        return commands;
                    }
                }
            },
            Approach::Closer { path } => {
                commands.push(EnemyCommand::MoveUnit { actor, path: copy_cells(path) });
            },
            Approach::Stay => {},
        }
    }
    commands.push(EnemyCommand::EndTurn { actor });
    commands
}

// ---------------------------------------------------------------------------
// Laws
// ---------------------------------------------------------------------------

/// Attacks go only to who draws them, while anybody does.
pub proof fn law_taunts_bind(targets: Seq<TargetInfo>, i: int)
    requires
        exists|k: int| 0 <= k < targets.len() && (#[trigger] targets[k]).taunts,
        0 <= i < attackable(targets).len(),
    ensures
        attackable(targets)[i].taunts,
        targets.contains(attackable(targets)[i]),
{
    let k = choose|k: int| 0 <= k < targets.len() && (#[trigger] targets[k]).taunts;
    drawing_holds(targets, k);
    drawing_is_part(targets, i);
}

proof fn drawing_holds(targets: Seq<TargetInfo>, k: int)
    requires
        0 <= k < targets.len(),
        targets[k].taunts,
    ensures
        drawing(targets).len() > 0,
    decreases targets.len(),
{
    if k < targets.len() - 1 {
        assert(targets.drop_last()[k] == targets[k]);
        drawing_holds(targets.drop_last(), k);
    }
}

proof fn drawing_is_part(targets: Seq<TargetInfo>, i: int)
    requires
        0 <= i < drawing(targets).len(),
    ensures
        drawing(targets)[i].taunts,
        targets.contains(drawing(targets)[i]),
    decreases targets.len(),
{
    let rest = targets.drop_last();
    let d = drawing(rest);
    if i < d.len() {
        drawing_is_part(rest, i);
        let k = choose|k: int| 0 <= k < rest.len() && rest[k] == d[i];
        assert(targets[k] == d[i]);
    } else {
        assert(targets[targets.len() - 1] == targets.last());
    }
}

/// No way into range is shorter than the one that is taken.
pub proof fn law_shortest_way(ways: Seq<WayIn>, i: int)
    requires
        0 <= i < ways.len(),
    ensures
        shortest(ways) matches Some(w) && w.path.len() <= ways[i].path.len() && ways.contains(w),
    decreases ways.len(),
{
    let rest = ways.drop_last();
    if rest.len() > 0 {
        let j = if i < rest.len() {
            i
        } else {
            0
        };
        law_shortest_way(rest, j);
        assert(ways[j] == rest[j]);
        let w = shortest(rest)->0;
        let k = choose|k: int| 0 <= k < rest.len() && rest[k] == w;
        assert(ways[k] == w);
    }
    assert(ways[ways.len() - 1] == ways.last());
}

/// A turn that uses no ability is ended.
pub proof fn law_idle_turn_ends(
    commands: Seq<EnemyCommand>,
    row: EnemyRow,
    plan: EnemyPlan,
    standing: Seq<Standing>,
)
    requires
        is_turn(commands, row, plan, standing),
    ensures
        commands.len() > 0,
        commands.last() is UseAbility || commands.last() == (EnemyCommand::EndTurn {
            actor: row.entity,
        }),
{
}

/// Whether a command has an actor use what it found, on whoever stands first on the
/// cell aimed at; the actor itself is named where nobody stands there.
pub open spec fn is_strike(
    c: EnemyCommand,
    actor: Entity,
    shot: Shot,
    standing: Seq<Standing>,
) -> bool {
    c matches EnemyCommand::UseAbility { actor: a, ability, target, target_pos } && {
        &&& a == actor
        &&& ability@ == shot.ability@
        &&& target_pos == shot.target_pos
        &&& (forall|k: int|
            0 <= k < standing.len() ==> (#[trigger] standing[k]).hex != shot.target_pos) ==> target
            == actor
        &&& forall|k: int|
            0 <= k < standing.len() && (#[trigger] standing[k]).hex == shot.target_pos && (forall|
                j: int,
            |
                0 <= j < k ==> (#[trigger] standing[j]).hex != shot.target_pos) ==> target
                == standing[k].entity
    }
}

proof fn first_standing_is_first(standing: Seq<Standing>, cell: Hex, k: int)
    ensures
        (forall|j: int| 0 <= j < standing.len() ==> (#[trigger] standing[j]).hex != cell)
            ==> first_standing(standing, cell) is None,
        0 <= k < standing.len() && standing[k].hex == cell && (forall|j: int|
            0 <= j < k ==> (#[trigger] standing[j]).hex != cell) ==> first_standing(
            standing,
            cell,
        ) == Some(standing[k].entity),
    decreases standing.len(),
{
    if standing.len() > 0 {
        let rest = standing.drop_first();
        assert(forall|j: int| 0 <= j < rest.len() ==> (#[trigger] rest[j]) == standing[j + 1]);
        first_standing_is_first(rest, cell, k - 1);
        if forall|j: int| 0 <= j < standing.len() ==> (#[trigger] standing[j]).hex != cell {
            assert(standing[0].hex != cell);
        }
        if 0 < k && (forall|j: int| 0 <= j < k ==> (#[trigger] standing[j]).hex != cell) {
            assert(standing[0].hex != cell);
        }
    }
}

proof fn use_is_strike(c: EnemyCommand, actor: Entity, shot: Shot, standing: Seq<Standing>)
    requires
        is_use(c, actor, shot.ability@, shot.target_pos, standing),
    ensures
        is_strike(c, actor, shot, standing),
{
    first_standing_is_first(standing, shot.target_pos, 0);
    assert forall|k: int|
        0 <= k < standing.len() && (#[trigger] standing[k]).hex == shot.target_pos && (forall|
            j: int,
        |
            0 <= j < k ==> (#[trigger] standing[j]).hex
                != shot.target_pos) implies c->UseAbility_target == standing[k].entity by {
        first_standing_is_first(standing, shot.target_pos, k);
    }
}

/// An enemy strikes whenever it can. With its action left it uses what is in range,
/// at once and alone. With nothing in range but a way into range, it walks that way
/// and then strikes from there, wherever it has found an ability to use.
pub proof fn law_enemy_strikes_when_it_can(
    commands: Seq<EnemyCommand>,
    row: EnemyRow,
    plan: EnemyPlan,
    standing: Seq<Standing>,
)
    requires
        is_turn(commands, row, plan, standing),
    ensures
        row.action ==> (plan.in_range matches Some(shot) ==> commands.len() == 1 && is_strike(
            commands[0],
            row.entity,
            shot,
            standing,
        )),
        row.action && row.movement && plan.in_range is None ==> (plan.approach
            matches Approach::IntoRange { path, .. } ==> (plan.after_move matches Some(shot) ==> {
            &&& commands.len() == 2
            &&& commands[0] matches EnemyCommand::MoveUnit { actor, path: walked } && actor
                == row.entity && walked@ == path@
            &&& is_strike(commands[1], row.entity, shot, standing)
        })),
{
    if row.action {
        if let Some(shot) = plan.in_range {
            use_is_strike(commands[0], row.entity, shot, standing);
        } else if row.movement && plan.approach is IntoRange {
            if let Some(shot) = plan.after_move {
                use_is_strike(commands[1], row.entity, shot, standing);
            }
        }
    }
}

/// A turn passes without an ability only where none can be used, neither before nor
/// after a move into range; and it is then ended, as its last command.
pub proof fn law_enemy_gives_up_only_without_a_shot(
    commands: Seq<EnemyCommand>,
    row: EnemyRow,
    plan: EnemyPlan,
    standing: Seq<Standing>,
)
    requires
        is_turn(commands, row, plan, standing),
        forall|i: int| 0 <= i < commands.len() ==> !((#[trigger] commands[i]) is UseAbility),
    ensures
        !row.action || plan.in_range is None,
        !row.action || !row.movement || !(plan.approach is IntoRange) || plan.after_move is None,
        commands.len() > 0,
        commands.last() == (EnemyCommand::EndTurn { actor: row.entity }),
{
    assert(commands.len() > 0);
    assert(!(commands[0] is UseAbility));
    if commands.len() > 1 {
        assert(!(commands[1] is UseAbility));
    }
}

/// In its turn an enemy commands nobody but itself. It walks at most once, first, only
/// with movement left and with nothing to strike in place, and it does walk where it
/// can get nearer; it strikes at most once, only with its action left, and then does
/// nothing more.
pub proof fn law_enemy_turn_is_orderly(
    commands: Seq<EnemyCommand>,
    row: EnemyRow,
    plan: EnemyPlan,
    standing: Seq<Standing>,
)
    requires
        is_turn(commands, row, plan, standing),
    ensures
        forall|i: int|
            0 <= i < commands.len() ==> match #[trigger] commands[i] {
                EnemyCommand::UseAbility { actor, .. } => actor == row.entity && row.action && i
                    == commands.len() - 1,
                EnemyCommand::MoveUnit { actor, .. } => actor == row.entity && row.movement && i
                    == 0 && !(row.action && plan.in_range is Some),
                EnemyCommand::EndTurn { actor } => actor == row.entity && i == commands.len() - 1,
            },
        row.movement && !(row.action && plan.in_range is Some) ==> match plan.approach {
            Approach::IntoRange { path, .. } => commands[0] matches EnemyCommand::MoveUnit {
                path: p,
                ..
            } && p@ == path@,
            Approach::Closer { path } => commands[0] matches EnemyCommand::MoveUnit { path: p, .. }
                && p@ == path@ && commands.last() is EndTurn,
            Approach::Stay => commands.len() == 1,
        },
{
}

/// A turn is thought about exactly where a living enemy on the board, with abilities
/// and with its action or movement left, faces somebody; one with neither left is
/// only ended.
pub proof fn law_who_thinks(row: Option<EnemyRow>, any_target: bool)
    ensures
        opening_of(row, any_target) is Think <==> any_target && (row matches Some(r) && r.is_alive
            && r.team == Team::Enemy && r.has_abilities && r.is_on_board && (r.action
            || r.movement)),
        opening_of(row, any_target) is Spent <==> (row matches Some(r) && r.is_alive && r.team
            == Team::Enemy && r.has_abilities && !r.action && !r.movement),
{
}

/// The targets are just the living combatants of the team that stand on the board,
/// each where it stands, with its own hit points and armor.
pub proof fn law_living_targets(
    rows: Seq<CombatantInfo>,
    team: Team,
    cells: Map<Entity, Hex>,
    content: ContentView,
)
    ensures
        forall|k: int|
            0 <= k < living_of(rows, team, cells, content).len() ==> exists|i: int|
                0 <= i < rows.len() && is_seen_as(
                    #[trigger] rows[i],
                    #[trigger] living_of(rows, team, cells, content)[k],
                    team,
                    cells,
                ),
        forall|i: int|
            0 <= i < rows.len() && (#[trigger] rows[i]).team == team && rows[i].hp > 0
                && cells.contains_key(rows[i].entity) ==> exists|k: int|
                0 <= k < living_of(rows, team, cells, content).len() && is_seen_as(
                    rows[i],
                    #[trigger] living_of(rows, team, cells, content)[k],
                    team,
                    cells,
                ),
    decreases rows.len(),
{
    let all = living_of(rows, team, cells, content);
    if rows.len() > 0 {
        let part = rows.drop_last();
        let before = living_of(part, team, cells, content);
        law_living_targets(part, team, cells, content);
        assert forall|k: int| 0 <= k < all.len() implies exists|i: int|
            0 <= i < rows.len() && is_seen_as(
                #[trigger] rows[i],
                #[trigger] all[k],
                team,
                cells,
            ) by {
            if k < before.len() {
                assert(all[k] == before[k]);
                let i = choose|i: int|
                    0 <= i < part.len() && is_seen_as(
                        #[trigger] part[i],
                        before[k],
                        team,
                        cells,
                    );
                assert(is_seen_as(rows[i], all[k], team, cells));
            } else {
                assert(is_seen_as(rows[rows.len() - 1], all[k], team, cells));
            }
        }
        assert forall|i: int|
            0 <= i < rows.len() && (#[trigger] rows[i]).team == team && rows[i].hp > 0
                && cells.contains_key(rows[i].entity) implies exists|k: int|
            0 <= k < all.len() && is_seen_as(rows[i], #[trigger] all[k], team, cells) by {
            if i < part.len() {
                assert(part[i] == rows[i]);
                let k = choose|k: int|
                    0 <= k < before.len() && is_seen_as(
                        part[i],
                        #[trigger] before[k],
                        team,
                        cells,
                    );
                assert(all[k] == before[k]);
            } else {
                assert(is_seen_as(rows[i], all[all.len() - 1], team, cells));
            }
        }
    }
}

/// Whether a target is what is seen of a living combatant of a team.
pub open spec fn is_seen_as(
    row: CombatantInfo,
    t: TargetInfo,
    team: Team,
    cells: Map<Entity, Hex>,
) -> bool {
    &&& row.team == team
    &&& row.hp > 0
    &&& cells.contains_key(row.entity)
    &&& t.entity == row.entity
    &&& t.pos == cells[row.entity]
    &&& t.hp == row.hp
    &&& t.max_hp == row.max_hp
    &&& t.armor == row.armor
}

/// Whoever draws attacks can be attacked, and where nobody does everybody can.
pub proof fn law_attackable(targets: Seq<TargetInfo>)
    ensures
        forall|i: int|
            0 <= i < targets.len() && (#[trigger] targets[i]).taunts ==> attackable(
                targets,
            ).contains(targets[i]),
        (forall|i: int| 0 <= i < targets.len() ==> !(#[trigger] targets[i]).taunts) ==> attackable(
            targets,
        ) == targets,
{
    assert forall|i: int| 0 <= i < targets.len() && (#[trigger] targets[i]).taunts implies attackable(
        targets,
    ).contains(targets[i]) by {
        drawing_keeps(targets, i);
    }
    if forall|i: int| 0 <= i < targets.len() ==> !(#[trigger] targets[i]).taunts {
        if drawing(targets).len() > 0 {
            drawing_is_part(targets, 0);
            let k = choose|k: int| 0 <= k < targets.len() && targets[k] == drawing(targets)[0];
            assert(!targets[k].taunts);
        }
    }
}

proof fn drawing_keeps(targets: Seq<TargetInfo>, i: int)
    requires
        0 <= i < targets.len(),
        targets[i].taunts,
    ensures
        drawing(targets).contains(targets[i]),
    decreases targets.len(),
{
    let d = drawing(targets);
    if i == targets.len() - 1 {
        assert(d[d.len() - 1] == targets[i]);
    } else {
        let rest = targets.drop_last();
        drawing_keeps(rest, i);
        let k = choose|k: int| 0 <= k < drawing(rest).len() && drawing(rest)[k] == rest[i];
        assert(d[k] == targets[i]);
    }
}

/// The worth of an aim from a cell: less where the target stands too near.
pub open spec fn worth_from(aim: Aim, from: Hex) -> i64 {
    if distance(from, aim.target_pos) >= aim.range.min {
        aim.score
    } else {
        aim.near_score
    }
}

/// Whether an aim is one to use from a cell: it does good, and the target is not too
/// far. A range of zero has no end.
pub open spec fn is_usable_from(aim: Aim, from: Hex) -> bool {
    aim.is_good && !(aim.range.max > 0 && distance(from, aim.target_pos) > aim.range.max)
}

/// The best aim in range is usable, and no usable one is worth more from there; the
/// best of all does good, and none that does has a higher score. Neither is missing
/// where there is one.
pub proof fn law_best_aims(aims: Seq<Aim>, from: Hex)
    ensures
        match best_place(range_keys(aims, from)) {
            Some(i) => 0 <= i < aims.len() && is_usable_from(aims[i], from) && forall|j: int|
                0 <= j < aims.len() && is_usable_from(#[trigger] aims[j], from) ==> worth_from(
                    aims[j],
                    from,
                ) <= worth_from(aims[i], from),
            None => forall|j: int|
                0 <= j < aims.len() ==> !is_usable_from(#[trigger] aims[j], from),
        },
        match best_place(any_keys(aims)) {
            Some(i) => 0 <= i < aims.len() && aims[i].is_good && forall|j: int|
                0 <= j < aims.len() && (#[trigger] aims[j]).is_good ==> aims[j].score
                    <= aims[i].score,
            None => forall|j: int| 0 <= j < aims.len() ==> !(#[trigger] aims[j]).is_good,
        },
{
    let near = range_keys(aims, from);
    let any = any_keys(aims);
    a_best_exists(near, near.len());
    a_best_exists(any, any.len());
    assert forall|j: int| 0 <= j < aims.len() implies (near[j] is Some) == is_usable_from(
        #[trigger] aims[j],
        from,
    ) && (near[j] is Some ==> near[j]->0 == worth_from(aims[j], from)) && (any[j] is Some)
        == aims[j].is_good && (any[j] is Some ==> any[j]->0 == aims[j].score) by {}
    if let Some(i) = best_place(near) {
        assert(is_best(near, i));
        assert(aims[i] == aims[i]);
        assert forall|j: int|
            0 <= j < aims.len() && is_usable_from(#[trigger] aims[j], from) implies worth_from(
            aims[j],
            from,
        ) <= worth_from(aims[i], from) by {
            assert(near[j] is Some);
        }
    } else {
        assert forall|j: int| 0 <= j < aims.len() implies !is_usable_from(
            #[trigger] aims[j],
            from,
        ) by {
            assert(near[j] is None);
        }
    }
    if let Some(i) = best_place(any) {
        assert(is_best(any, i));
        assert forall|j: int| 0 <= j < aims.len() && (#[trigger] aims[j]).is_good implies aims[j].score
            <= aims[i].score by {
            assert(any[j] is Some);
        }
    } else {
        assert forall|j: int| 0 <= j < aims.len() implies !(#[trigger] aims[j]).is_good by {
            assert(any[j] is None);
        }
    }
}

/// Among the first `n` numbers there is a first best one, where there is any.
proof fn a_best_exists(keys: Seq<Option<i64>>, n: nat)
    requires
        n <= keys.len(),
    ensures
        (exists|i: int| is_best(keys.take(n as int), i)) || forall|j: int|
            0 <= j < n ==> (#[trigger] keys[j]) is None,
        n == keys.len() ==> (best_place(keys) is Some || forall|j: int|
            0 <= j < n ==> (#[trigger] keys[j]) is None),
    decreases n,
{
    let all = keys.take(n as int);
    if n > 0 {
        a_best_exists(keys, (n - 1) as nat);
        let part = keys.take(n - 1);
        assert(forall|j: int| 0 <= j < n - 1 ==> part[j] == (#[trigger] all[j]));
        if exists|i: int| is_best(part, i) {
            let i = choose|i: int| is_best(part, i);
            assert(part[i] == all[i]);
            if all[n - 1] is Some && all[n - 1]->0 > all[i]->0 {
                assert forall|j: int| 0 <= j < n - 1 && (#[trigger] all[j]) is Some implies all[j]->0
                    < all[n - 1]->0 by {
                    assert(part[j] is Some);
                }
                assert(is_best(all, n - 1));
            } else {
                assert forall|j: int| 0 <= j < n && (#[trigger] all[j]) is Some implies all[j]->0
                    <= all[i]->0 && (j < i ==> all[j]->0 < all[i]->0) by {
                    if j < n - 1 {
                        assert(part[j] is Some);
                    }
                }
                assert(is_best(all, i));
            }
        } else if all[n - 1] is Some {
            assert forall|j: int| 0 <= j < n - 1 implies (#[trigger] all[j]) is None by {
                assert(keys[j] is None);
            }
            assert(is_best(all, n - 1));
        }
    }
    if n == keys.len() {
        assert(all =~= keys);
    }
}

/// An approach into range ends on a reachable cell from which an aim is no further
/// than the range, by a way to that cell, and no other such cell has a shorter way.
/// It is taken wherever there is such a cell.
pub proof fn law_approach_into_range(
    a: Approach,
    reach: Reach,
    aims: Seq<Hex>,
    targets: Seq<Hex>,
    range: u32,
)
    requires
        is_approach(a, reach, aims, targets, range),
    ensures
        a matches Approach::IntoRange { path, cell, aim } ==> {
            &&& reach.destinations@.contains(cell)
            &&& aims.contains(aim)
            &&& distance(cell, aim) <= range
            &&& way_to(reach.paths@, cell) == Some(path@)
        },
        forall|m: int, n: int|
            0 <= m < aims.len() && 0 <= n < reach.destinations@.len() && distance(
                #[trigger] reach.destinations@[n],
                #[trigger] aims[m],
            ) <= range ==> (way_to(reach.paths@, reach.destinations@[n]) matches Some(p) ==> (a
                matches Approach::IntoRange { path, .. } && path@.len() <= p.len())),
{
    let ways = ways_to_aims(reach, aims, range, aims.len());
    if ways.len() > 0 {
        law_shortest_way(ways, 0);
        let w = shortest(ways)->0;
        let k = choose|k: int| 0 <= k < ways.len() && ways[k] == w;
        ways_lead_into_range(reach, aims, range, aims.len(), k);
    }
    assert forall|m: int, n: int|
        0 <= m < aims.len() && 0 <= n < reach.destinations@.len() && distance(
            #[trigger] reach.destinations@[n],
            #[trigger] aims[m],
        ) <= range implies (way_to(reach.paths@, reach.destinations@[n]) matches Some(p) ==> (a
            matches Approach::IntoRange { path, .. } && path@.len() <= p.len())) by {
        if let Some(p) = way_to(reach.paths@, reach.destinations@[n]) {
            every_way_is_listed(reach, aims, range, aims.len(), m, n);
            let w = WayIn { path: p, cell: reach.destinations@[n], aim: aims[m] };
            let k = choose|k: int| 0 <= k < ways.len() && ways[k] == w;
            law_shortest_way(ways, k);
        }
    }
}

proof fn ways_lead_into_range(reach: Reach, aims: Seq<Hex>, range: u32, n: nat, k: int)
    requires
        n <= aims.len(),
        0 <= k < ways_to_aims(reach, aims, range, n).len(),
    ensures
        ({
            let w = ways_to_aims(reach, aims, range, n)[k];
            &&& reach.destinations@.contains(w.cell)
            &&& aims.contains(w.aim)
            &&& distance(w.cell, w.aim) <= range
            &&& way_to(reach.paths@, w.cell) == Some(w.path)
        }),
    decreases n,
{
    let before = ways_to_aims(reach, aims, range, (n - 1) as nat);
    let all = ways_to_aims(reach, aims, range, n);
    if k < before.len() {
        ways_lead_into_range(reach, aims, range, (n - 1) as nat, k);
        assert(all[k] == before[k]);
    } else {
        let count = reach.destinations@.len();
        aim_ways_lead_into_range(reach, aims[n - 1], range, count, k - before.len());
        assert(all[k] == ways_to_aim(reach, aims[n - 1], range, count)[k - before.len()]);
        assert(aims.contains(aims[n - 1]));
    }
}

proof fn aim_ways_lead_into_range(reach: Reach, aim: Hex, range: u32, n: nat, k: int)
    requires
        n <= reach.destinations@.len(),
        0 <= k < ways_to_aim(reach, aim, range, n).len(),
    ensures
        ({
            let w = ways_to_aim(reach, aim, range, n)[k];
            &&& reach.destinations@.contains(w.cell)
            &&& w.aim == aim
            &&& distance(w.cell, aim) <= range
            &&& way_to(reach.paths@, w.cell) == Some(w.path)
        }),
    decreases n,
{
    let before = ways_to_aim(reach, aim, range, (n - 1) as nat);
    if k < before.len() {
        aim_ways_lead_into_range(reach, aim, range, (n - 1) as nat, k);
    } else {
        assert(reach.destinations@.contains(reach.destinations@[n - 1]));
    }
}

proof fn every_way_is_listed(reach: Reach, aims: Seq<Hex>, range: u32, n: nat, m: int, d: int)
    requires
        0 <= m < n <= aims.len(),
        0 <= d < reach.destinations@.len(),
        distance(reach.destinations@[d], aims[m]) <= range,
        way_to(reach.paths@, reach.destinations@[d]) is Some,
    ensures
        ways_to_aims(reach, aims, range, n).contains(
            WayIn {
                path: way_to(reach.paths@, reach.destinations@[d])->0,
                cell: reach.destinations@[d],
                aim: aims[m],
            },
        ),
    decreases n,
{
    let w = WayIn {
        path: way_to(reach.paths@, reach.destinations@[d])->0,
        cell: reach.destinations@[d],
        aim: aims[m],
    };
    let before = ways_to_aims(reach, aims, range, (n - 1) as nat);
    let all = ways_to_aims(reach, aims, range, n);
    if m < n - 1 {
        every_way_is_listed(reach, aims, range, (n - 1) as nat, m, d);
        let k = choose|k: int| 0 <= k < before.len() && before[k] == w;
        assert(all[k] == w);
    } else {
        let count = reach.destinations@.len();
        let here = ways_to_aim(reach, aims[m], range, count);
        every_aim_way_is_listed(reach, aims[m], range, count, d);
        let k = choose|k: int| 0 <= k < here.len() && here[k] == w;
        assert(all[before.len() + k] == w);
    }
}

proof fn every_aim_way_is_listed(reach: Reach, aim: Hex, range: u32, n: nat, d: int)
    requires
        0 <= d < n <= reach.destinations@.len(),
        distance(reach.destinations@[d], aim) <= range,
        way_to(reach.paths@, reach.destinations@[d]) is Some,
    ensures
        ways_to_aim(reach, aim, range, n).contains(
            WayIn {
                path: way_to(reach.paths@, reach.destinations@[d])->0,
                cell: reach.destinations@[d],
                aim,
            },
        ),
    decreases n,
{
    let w = WayIn {
        path: way_to(reach.paths@, reach.destinations@[d])->0,
        cell: reach.destinations@[d],
        aim,
    };
    let before = ways_to_aim(reach, aim, range, (n - 1) as nat);
    let all = ways_to_aim(reach, aim, range, n);
    if d < n - 1 {
        every_aim_way_is_listed(reach, aim, range, (n - 1) as nat, d);
        let k = choose|k: int| 0 <= k < before.len() && before[k] == w;
        assert(all[k] == w);
    } else {
        assert(all[all.len() - 1] == w);
    }
}

/// The nearest cell is one of the cells, and none of them is nearer to any target.
pub proof fn law_nearest_cell(cells: Seq<Hex>, targets: Seq<Hex>, m: nat, n: nat)
    requires
        m <= cells.len(),
        n <= targets.len(),
        targets.len() > 0,
    ensures
        m > 0 && n > 0 ==> nearest_of(cells, targets, m, n) is Some,
        m > 1 ==> nearest_of(cells, targets, m, n) is Some,
        nearest_of(cells, targets, m, n) matches Some((h, d)) ==> {
            &&& cells.contains(h)
            &&& exists|b: int| 0 <= b < targets.len() && distance(h, #[trigger] targets[b]) == d
            &&& forall|a: int, b: int|
                0 <= a < cells.len() && 0 <= b < targets.len() && (a < m - 1 || (a == m - 1 && b
                    < n)) ==> d <= distance(#[trigger] cells[a], #[trigger] targets[b])
        },
    decreases m, n,
{
    if m > 0 {
        if n == 0 {
            law_nearest_cell(cells, targets, (m - 1) as nat, targets.len());
        } else {
            law_nearest_cell(cells, targets, m, (n - 1) as nat);
            assert(cells.contains(cells[m - 1]));
        }
    }
}

/// Whether a cell is as near to target `b` as any of the cells is to any target.
pub open spec fn is_nearest_pair(cell: Hex, b: int, cells: Seq<Hex>, targets: Seq<Hex>) -> bool {
    &&& 0 <= b < targets.len()
    &&& forall|i: int, j: int|
        0 <= i < cells.len() && 0 <= j < targets.len() ==> distance(cell, targets[b]) <= distance(
            #[trigger] cells[i],
            #[trigger] targets[j],
        )
}

/// Whether a path is the way to a cell than which none is nearer to any target.
pub open spec fn leads_nearest(path: Seq<Hex>, cell: Hex, reach: Reach, targets: Seq<Hex>) -> bool {
    &&& reach.destinations@.contains(cell)
    &&& way_to(reach.paths@, cell) == Some(path)
    &&& exists|b: int| is_nearest_pair(cell, b, reach.destinations@, targets)
}

/// An approach that only gets closer goes to a reachable cell than which none is
/// nearer to any target.
pub proof fn law_approach_closer(
    a: Approach,
    reach: Reach,
    aims: Seq<Hex>,
    targets: Seq<Hex>,
    range: u32,
)
    requires
        is_approach(a, reach, aims, targets, range),
        targets.len() > 0,
    ensures
        a matches Approach::Closer { path } ==> exists|cell: Hex|
            leads_nearest(path@, cell, reach, targets),
        a is Stay && reach.destinations@.len() > 0 ==> exists|cell: Hex|
            #[trigger] reach.destinations@.contains(cell) && way_to(reach.paths@, cell) is None,
{
    let cells = reach.destinations@;
    law_nearest_cell(cells, targets, cells.len(), targets.len());
    if let Some((h, d)) = nearest_of(cells, targets, cells.len(), targets.len()) {
        let b = choose|b: int| 0 <= b < targets.len() && distance(h, #[trigger] targets[b]) == d;
        assert(is_nearest_pair(h, b, cells, targets));
        if let Approach::Closer { path } = a {
            assert(leads_nearest(path@, h, reach, targets));
        }
    }
}

/// An enemy cannot pass just the cells where its living fellows stand.
pub proof fn law_fellows_block(
    rows: Seq<CombatantInfo>,
    actor: Entity,
    cells: Map<Entity, Hex>,
    h: Hex,
)
    ensures
        impassable(rows, actor, cells).contains(h) <==> exists|i: int|
            0 <= i < rows.len() && (#[trigger] rows[i]).entity != actor && rows[i].team
                == Team::Enemy && rows[i].hp > 0 && cells.contains_key(rows[i].entity)
                && cells[rows[i].entity] == h,
    decreases rows.len(),
{
    let all = impassable(rows, actor, cells);
    if rows.len() > 0 {
        let part = rows.drop_last();
        let before = impassable(part, actor, cells);
        law_fellows_block(part, actor, cells, h);
        let row = rows.last();
        if before.contains(h) {
            let k = choose|k: int| 0 <= k < before.len() && before[k] == h;
            assert(all[k] == h);
            let i = choose|i: int|
                0 <= i < part.len() && (#[trigger] part[i]).entity != actor && part[i].team
                    == Team::Enemy && part[i].hp > 0 && cells.contains_key(part[i].entity)
                    && cells[part[i].entity] == h;
            assert(rows[i] == part[i]);
        }
        if row.entity != actor && row.team == Team::Enemy && row.hp > 0 && cells.contains_key(
            row.entity,
        ) && cells[row.entity] == h {
            assert(all[all.len() - 1] == h);
            assert(rows[rows.len() - 1] == row);
        }
        if all.contains(h) && !before.contains(h) {
            let k = choose|k: int| 0 <= k < all.len() && all[k] == h;
            if k < before.len() {
                assert(before[k] == h);
            }
            assert(rows[rows.len() - 1] == row);
        }
        if exists|i: int|
            0 <= i < rows.len() && (#[trigger] rows[i]).entity != actor && rows[i].team
                == Team::Enemy && rows[i].hp > 0 && cells.contains_key(rows[i].entity)
                && cells[rows[i].entity] == h {
            let i = choose|i: int|
                0 <= i < rows.len() && (#[trigger] rows[i]).entity != actor && rows[i].team
                    == Team::Enemy && rows[i].hp > 0 && cells.contains_key(rows[i].entity)
                    && cells[rows[i].entity] == h;
            if i < part.len() {
                assert(part[i] == rows[i]);
            }
        }
    }
}

/// The cells that an actor cannot stop on are just those that others stand on.
pub proof fn law_taken_cells(standing: Seq<Standing>, actor: Entity, h: Hex)
    ensures
        taken(standing, actor).contains(h) <==> exists|i: int|
            0 <= i < standing.len() && (#[trigger] standing[i]).entity != actor && standing[i].hex
                == h,
    decreases standing.len(),
{
    let all = taken(standing, actor);
    if standing.len() > 0 {
        let part = standing.drop_last();
        let before = taken(part, actor);
        law_taken_cells(part, actor, h);
        let last = standing.last();
        assert(standing[standing.len() - 1] == last);
        if before.contains(h) {
            let k = choose|k: int| 0 <= k < before.len() && before[k] == h;
            assert(all[k] == h);
            let i = choose|i: int|
                0 <= i < part.len() && (#[trigger] part[i]).entity != actor && part[i].hex == h;
            assert(standing[i] == part[i]);
        }
        if last.entity != actor && last.hex == h {
            assert(all[all.len() - 1] == h);
        }
        if all.contains(h) && !before.contains(h) {
            let k = choose|k: int| 0 <= k < all.len() && all[k] == h;
            if k < before.len() {
                assert(before[k] == h);
            }
        }
        if exists|i: int|
            0 <= i < standing.len() && (#[trigger] standing[i]).entity != actor && standing[i].hex
                == h {
            let i = choose|i: int|
                0 <= i < standing.len() && (#[trigger] standing[i]).entity != actor
                    && standing[i].hex == h;
            if i < part.len() {
                assert(part[i] == standing[i]);
            }
        }
    }
}

/// An enemy that has a best aim moves into range of that aim, and of no other; one without it
/// into range of one of the targets. It moves into range whenever it knows a way.
pub proof fn law_moves_towards_its_aim(
    a: Approach,
    reach: Reach,
    best_aim: Option<Hex>,
    targets: Seq<Hex>,
    range: u32,
    n: int,
)
    requires
        is_move_plan(a, reach, best_aim, targets, range),
    ensures
        a matches Approach::IntoRange { path, cell, aim } ==> {
            &&& best_aim is Some ==> best_aim == Some(aim)
            &&& best_aim is None ==> targets.contains(aim)
            &&& distance(cell, aim) <= range
            &&& way_to(reach.paths@, cell) == Some(path@)
        },
        best_aim matches Some(h) ==> (0 <= n < reach.destinations@.len() && distance(
            reach.destinations@[n],
            h,
        ) <= range && way_to(reach.paths@, reach.destinations@[n]) is Some ==> a is IntoRange),
{
    let aims = match best_aim {
        Some(h) => seq![h],
        None => targets,
    };
    law_approach_into_range(a, reach, aims, targets, range);
    if let Some(h) = best_aim {
        assert(aims[0] == h);
        if 0 <= n < reach.destinations@.len() && distance(reach.destinations@[n], h) <= range {
            assert(distance(reach.destinations@[n], aims[0]) <= range);
        }
    }
}

/// Of the ways that are shortest the first is taken.
pub proof fn law_first_of_the_shortest(ways: Seq<WayIn>)
    ensures
        shortest(ways) is None <==> ways.len() == 0,
        ways.len() > 0 ==> exists|i: int| #[trigger] leads_first(ways, i, shortest(ways)->0),
    decreases ways.len(),
{
    if ways.len() > 0 {
        let part = ways.drop_last();
        let n = ways.len() - 1;
        law_first_of_the_shortest(part);
        match shortest(part) {
            Some(w) if w.path.len() <= ways.last().path.len() => {
                let i = choose|i: int| #[trigger] leads_first(part, i, shortest(part)->0);
                assert forall|j: int| 0 <= j < ways.len() implies w.path.len() <= (
                #[trigger] ways[j]).path.len() by {
                    if j < n {
                        assert(part[j] == ways[j]);
                    }
                }
                assert forall|j: int| 0 <= j < i implies w.path.len() < (
                #[trigger] ways[j]).path.len() by {
                    assert(part[j] == ways[j]);
                }
                assert(leads_first(ways, i, w));
                assert(leads_first(ways, i, shortest(ways)->0));
            },
            Some(w) => {
                let i = choose|i: int| #[trigger] leads_first(part, i, shortest(part)->0);
                assert forall|j: int| 0 <= j < n implies ways.last().path.len() < (
                #[trigger] ways[j]).path.len() by {
                    assert(part[j] == ways[j]);
                }
                assert(leads_first(ways, n, ways.last()));
                assert(leads_first(ways, n, shortest(ways)->0));
            },
            None => {
                assert(leads_first(ways, n, ways.last()));
                assert(leads_first(ways, n, shortest(ways)->0));
            },
        }
    }
}

/// Whether the way at `i` is no longer than any other, and shorter than all before it.
pub open spec fn leads_first(ways: Seq<WayIn>, i: int, w: WayIn) -> bool {
    &&& 0 <= i < ways.len()
    &&& ways[i] == w
    &&& forall|j: int| 0 <= j < ways.len() ==> w.path.len() <= (#[trigger] ways[j]).path.len()
    &&& forall|j: int| 0 <= j < i ==> w.path.len() < (#[trigger] ways[j]).path.len()
}

} // verus!
