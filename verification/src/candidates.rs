//! What a unit of the AI could do: cast an ability from a cell it can get to, or
//! just go there.

use crate::ai_tags::AiTags;
use crate::content::{AoEShape, ContentView, TargetType};
use crate::hex::{distance, Board, Hex};
use crate::ids::Entity;
use crate::positions::Standing;
use crate::ranking::{is_ranking, law_there_is_a_ranking, precedes, rank_by, ranking, SortKey};
use crate::targets::{
    all_in_range, is_listing, list_in_order, listing, lists_cell, pushed_holds,
};
use vstd::prelude::*;

verus! {

// ---------------------------------------------------------------------------
// Candidates
// ---------------------------------------------------------------------------

/// What is done on the cell that a candidate goes to.
#[derive(Debug)]
pub enum CandidateKind {
    Cast { ability: String, target_pos: Hex, target: Option<Entity> },
    MoveOnly,
}

/// Something that a unit could do: go to a cell and cast there, or just go.
#[derive(Debug)]
pub struct ActionCandidate {
    pub tile: Hex,
    pub path: Vec<Hex>,
    pub kind: CandidateKind,
}

/// A candidate with its path as a sequence.
#[verifier::ext_equal]
pub struct CandidateModel {
    pub tile: Hex,
    pub path: Seq<Hex>,
    pub kind: CandidateKind,
}

impl View for ActionCandidate {
    type V = CandidateModel;

    open spec fn view(&self) -> CandidateModel {
        CandidateModel { tile: self.tile, path: self.path@, kind: self.kind }
    }
}

impl CandidateModel {
    /// The target of a cast, where it has one.
    pub open spec fn target(self) -> Option<Entity> {
        match self.kind {
            CandidateKind::Cast { target, .. } => target,
            CandidateKind::MoveOnly => None,
        }
    }
}

/// Candidates with their paths as sequences.
pub open spec fn candidate_models(list: Seq<ActionCandidate>) -> Seq<CandidateModel> {
    Seq::new(list.len(), |i: int| list[i]@)
}

impl ActionCandidate {
    /// The ability that is cast.
    pub fn ability(&self) -> (r: Option<&String>)
        ensures
            match self.kind {
                CandidateKind::Cast { ability, .. } => r == Some(&ability),
                CandidateKind::MoveOnly => r is None,
            },
    {
        match &self.kind {
            CandidateKind::Cast { ability, .. } => Some(ability),
            CandidateKind::MoveOnly => None,
        }
    }

    /// The target of a cast, where it has one.
    pub fn target(&self) -> (r: Option<Entity>)
        ensures
            r == self@.target(),
    {
        match &self.kind {
            CandidateKind::Cast { target, .. } => *target,
            CandidateKind::MoveOnly => None,
        }
    }

    /// The cell that is aimed at.
    pub fn target_pos(&self) -> (r: Option<Hex>)
        ensures
            match self.kind {
                CandidateKind::Cast { target_pos, .. } => r == Some(target_pos),
                CandidateKind::MoveOnly => r is None,
            },
    {
        match &self.kind {
            CandidateKind::Cast { target_pos, .. } => Some(*target_pos),
            CandidateKind::MoveOnly => None,
        }
    }

    /// Whether nothing is cast.
    pub fn is_move_only(&self) -> (r: bool)
        ensures
            r == (self.kind is MoveOnly),
    {
        match &self.kind {
            CandidateKind::Cast { .. } => false,
            CandidateKind::MoveOnly => true,
        }
    }

    /// The same candidate once more.
    pub fn copied(&self) -> (r: ActionCandidate)
        ensures
            r@ == self@,
    {
        let path = copy_cells(&self.path);
        let kind = match &self.kind {
            CandidateKind::Cast { ability, target_pos, target } => CandidateKind::Cast {
                ability: ability.clone(),
                target_pos: *target_pos,
                target: *target,
            },
            CandidateKind::MoveOnly => CandidateKind::MoveOnly,
        };
        ActionCandidate { tile: self.tile, path, kind }
    }
}

/// The same cells once more.
pub fn copy_cells(cells: &Vec<Hex>) -> (r: Vec<Hex>)
    ensures
        r@ == cells@,
{
    let mut r: Vec<Hex> = Vec::new();
    let mut i: usize = 0;
    while i < cells.len()
        invariant
            i <= cells.len(),
            r@ == cells@.take(i as int),
        decreases cells.len() - i,
    {
        r.push(cells[i]);
        assert(r@ =~= cells@.take(i + 1));
        i = i + 1;
    }
    assert(cells@.take(i as int) =~= cells@);
    r
}

// ---------------------------------------------------------------------------
// What is known of the field
// ---------------------------------------------------------------------------

/// The way to a cell.
#[derive(Debug)]
pub struct PathTo {
    pub cell: Hex,
    pub path: Vec<Hex>,
}

/// Where a unit can get to: the cells it can stop on, and ways to cells.
#[derive(Debug)]
pub struct Reach {
    pub destinations: Vec<Hex>,
    pub paths: Vec<PathTo>,
}

/// The first way to a cell.
pub open spec fn way_to(paths: Seq<PathTo>, cell: Hex) -> Option<Seq<Hex>>
    decreases paths.len(),
{
    if paths.len() == 0 {
        None
    } else if paths[0].cell == cell {
        Some(paths[0].path@)
    } else {
        way_to(paths.drop_first(), cell)
    }
}

impl Reach {
    /// The way to a cell.
    pub fn path_to(&self, cell: Hex) -> (r: Option<Vec<Hex>>)
        ensures
            match r {
                Some(p) => way_to(self.paths@, cell) == Some(p@),
                None => way_to(self.paths@, cell) is None,
            },
    {
        let mut i: usize = 0;
        assert(self.paths@.skip(0) =~= self.paths@);
        while i < self.paths.len()
            invariant
                i <= self.paths.len(),
                way_to(self.paths@, cell) == way_to(self.paths@.skip(i as int), cell),
            decreases self.paths.len() - i,
        {
            assert(self.paths@.skip(i as int).drop_first() =~= self.paths@.skip(i + 1));
            if self.paths[i].cell == cell {
                return Some(copy_cells(&self.paths[i].path));
            }
            i = i + 1;
        }
        None
    }
}

/// How good a cell is for some purpose. Only the order of scores counts.
#[derive(Clone, Copy, PartialEq, Eq, Structural, Debug)]
pub struct CellScore {
    pub cell: Hex,
    pub score: i64,
}

/// The score of a cell; zero where it has none.
pub open spec fn score_of(scores: Seq<CellScore>, cell: Hex) -> i64
    decreases scores.len(),
{
    if scores.len() == 0 {
        0
    } else if scores[0].cell == cell {
        scores[0].score
    } else {
        score_of(scores.drop_first(), cell)
    }
}

/// The score of a cell; zero where it has none.
pub fn cell_score(scores: &Vec<CellScore>, cell: Hex) -> (r: i64)
    ensures
        r == score_of(scores@, cell),
{
    let mut i: usize = 0;
    assert(scores@.skip(0) =~= scores@);
    while i < scores.len()
        invariant
            i <= scores.len(),
            score_of(scores@, cell) == score_of(scores@.skip(i as int), cell),
        decreases scores.len() - i,
    {
        assert(scores@.skip(i as int).drop_first() =~= scores@.skip(i + 1));
        if scores[i].cell == cell {
            return scores[i].score;
        }
        i = i + 1;
    }
    0
}

/// A living enemy, and how much it is wanted as a target.
#[derive(Clone, Copy, PartialEq, Eq, Structural, Debug)]
pub struct EnemySpot {
    pub entity: Entity,
    pub pos: Hex,
    pub priority: i64,
}

/// The unit that is to act.
#[derive(Debug)]
pub struct ActiveUnit {
    pub entity: Entity,
    pub pos: Hex,
    pub can_act: bool,
    pub can_move: bool,
    pub hp: i32,
    pub mana: i32,
    pub rage: i32,
    pub energy: i32,
    pub tags: AiTags,
    pub abilities: Vec<String>,
}

/// What the unit that is to act knows of the field.
#[derive(Debug)]
pub struct Field {
    pub board: Board,
    pub enemies: Vec<EnemySpot>,
    /// Cells of living allies, its own among them.
    pub allies: Vec<Hex>,
    /// Cells of other living allies that are wounded.
    pub wounded: Vec<Hex>,
    /// Who stands where, the fallen among them.
    pub standing: Vec<Standing>,
    /// The living.
    pub living: Vec<Entity>,
    /// Cells from which some enemy is in sight.
    pub seeing: Vec<Hex>,
    /// How good cells are to attack from.
    pub opportunity: Vec<CellScore>,
    /// How good cells are to escape to.
    pub escape: Vec<CellScore>,
}

/// Cells of enemies.
pub open spec fn enemy_cells(enemies: Seq<EnemySpot>) -> Seq<Hex> {
    Seq::new(enemies.len(), |i: int| enemies[i].pos)
}

fn collect_enemy_cells(enemies: &Vec<EnemySpot>) -> (r: Vec<Hex>)
    ensures
        r@ == enemy_cells(enemies@),
{
    let mut r: Vec<Hex> = Vec::new();
    let mut i: usize = 0;
    while i < enemies.len()
        invariant
            i <= enemies.len(),
            r@.len() == i,
            forall|j: int| 0 <= j < i ==> (#[trigger] r@[j]) == enemies@[j].pos,
        decreases enemies.len() - i,
    {
        r.push(enemies[i].pos);
        i = i + 1;
    }
    assert(r@ =~= enemy_cells(enemies@));
    r
}

/// Whether the cells that are worth acting from can be told: distances are needed
/// from reachable cells to enemies, and to wounded allies where the unit can heal.
pub open spec fn tiles_fit(
    unit: ActiveUnit,
    field: Field,
    reach: Reach,
    content: ContentView,
) -> bool {
    &&& field.enemies@.len() > 0 ==> all_in_range(reach.destinations@) && all_in_range(
        enemy_cells(field.enemies@),
    )
    &&& unit.tags.can_heal && heal_range(unit.abilities@, content) > 0 && field.wounded@.len()
        > 0 ==> all_in_range(reach.destinations@) && all_in_range(field.wounded@)
}

// ---------------------------------------------------------------------------
// The best of some cells
// ---------------------------------------------------------------------------

/// The best `n` of some cells.
pub open spec fn best_cells(cells: Seq<Hex>, keys: Seq<SortKey>, n: nat) -> Set<Hex> {
    Set::new(
        |h: Hex|
            exists|a: int|
                0 <= a < n && a < cells.len() && cells[(#[trigger] ranking(keys)[a]) as int] == h,
    )
}

/// Whether every cell of a list is among some cells.
pub open spec fn is_among(list: Seq<Hex>, cells: Seq<Hex>) -> bool {
    forall|h: Hex| #[trigger] list.contains(h) ==> cells.contains(h)
}

/// Adds the best `n` of some cells to a list without repetition.
pub fn pick_top(cells: &Vec<Hex>, keys: &Vec<SortKey>, n: usize, out: &mut Vec<Hex>)
    requires
        keys@.len() == cells@.len(),
        old(out)@.no_duplicates(),
    ensures
        final(out)@.no_duplicates(),
        final(out)@.to_set() == old(out)@.to_set().union(best_cells(cells@, keys@, n as nat)),
        is_among(old(out)@, cells@) ==> is_among(final(out)@, cells@),
{
    let order = rank_by(keys);
    let ghost before = out@;
    let mut a: usize = 0;
    while a < n && a < order.len()
        invariant
            a <= order@.len(),
            a <= n,
            order@ == ranking(keys@),
            is_ranking(order@, keys@),
            keys@.len() == cells@.len(),
            out@.no_duplicates(),
            is_among(before, cells@) ==> is_among(out@, cells@),
            forall|h: Hex| #[trigger]
                out@.contains(h) <==> before.contains(h) || exists|b: int|
                    0 <= b < a && cells@[(#[trigger] ranking(keys@)[b]) as int] == h,
        decreases order.len() - a,
    {
        let ghost so_far = out@;
        assert(order@[a as int] < keys@.len());
        let h = cells[order[a]];
        assert(cells@.contains(h));
        if !lists_cell(out, h) {
            out.push(h);
            proof {
                pushed_holds(so_far, h);
            }
        }
        proof {
            assert forall|g: Hex| #[trigger]
                out@.contains(g) <==> before.contains(g) || exists|b: int|
                    0 <= b < a + 1 && cells@[(#[trigger] ranking(keys@)[b]) as int] == g by {
                assert(out@.contains(g) <==> so_far.contains(g) || g == h);
                if so_far.contains(g) && !before.contains(g) {
                    let b = choose|b: int|
                        0 <= b < a && cells@[(#[trigger] ranking(keys@)[b]) as int] == g;
                    assert(0 <= b < a + 1 && cells@[ranking(keys@)[b] as int] == g);
                }
                if g == h {
                    assert(cells@[ranking(keys@)[a as int] as int] == g);
                }
                if exists|b: int|
                    0 <= b < a + 1 && cells@[(#[trigger] ranking(keys@)[b]) as int] == g {
                    let b = choose|b: int|
                        0 <= b < a + 1 && cells@[(#[trigger] ranking(keys@)[b]) as int] == g;
                    if b < a {
                        assert(so_far.contains(g));
                    }
                }
            }
        }
        a = a + 1;
    }
    proof {
        let target = before.to_set().union(best_cells(cells@, keys@, n as nat));
        assert forall|h: Hex| out@.to_set().contains(h) == target.contains(h) by {
            assert(out@.to_set().contains(h) <==> out@.contains(h));
            if out@.contains(h) && !before.contains(h) {
                let b = choose|b: int|
                    0 <= b < a && cells@[(#[trigger] ranking(keys@)[b]) as int] == h;
                assert(b < n && b < cells@.len());
            }
            if best_cells(cells@, keys@, n as nat).contains(h) {
                let b = choose|b: int|
                    0 <= b < n && b < cells@.len() && cells@[(#[trigger] ranking(
                        keys@,
                    )[b]) as int] == h;
                assert(b < a);
            }
        }
        assert(out@.to_set() =~= target);
    }
}

/// Cells ordered by their scores.
pub open spec fn score_keys(cells: Seq<Hex>, scores: Seq<CellScore>) -> Seq<SortKey> {
    Seq::new(
        cells.len(),
        |i: int| SortKey { value: score_of(scores, cells[i]) as i128, cost: 0 },
    )
}

fn make_score_keys(cells: &Vec<Hex>, scores: &Vec<CellScore>) -> (r: Vec<SortKey>)
    ensures
        r@ == score_keys(cells@, scores@),
{
    let mut r: Vec<SortKey> = Vec::new();
    let mut i: usize = 0;
    while i < cells.len()
        invariant
            i <= cells.len(),
            r@ == score_keys(cells@, scores@).take(i as int),
        decreases cells.len() - i,
    {
        r.push(SortKey { value: cell_score(scores, cells[i]) as i128, cost: 0 });
        assert(r@ =~= score_keys(cells@, scores@).take(i + 1));
        i = i + 1;
    }
    assert(r@ =~= score_keys(cells@, scores@));
    r
}

/// Cells ordered by how near they are to another.
pub open spec fn near_keys(cells: Seq<Hex>, to: Hex) -> Seq<SortKey> {
    Seq::new(
        cells.len(),
        |i: int| SortKey { value: 0, cost: distance(cells[i], to) as i128 },
    )
}

fn make_near_keys(cells: &Vec<Hex>, to: Hex) -> (r: Vec<SortKey>)
    requires
        all_in_range(cells@),
        to.in_range(),
    ensures
        r@ == near_keys(cells@, to),
{
    let mut r: Vec<SortKey> = Vec::new();
    let mut i: usize = 0;
    while i < cells.len()
        invariant
            i <= cells.len(),
            all_in_range(cells@),
            to.in_range(),
            r@ == near_keys(cells@, to).take(i as int),
        decreases cells.len() - i,
    {
        assert(cells@[i as int].in_range());
        r.push(SortKey { value: 0, cost: cells[i].unsigned_distance_to(to) as i128 });
        assert(r@ =~= near_keys(cells@, to).take(i + 1));
        i = i + 1;
    }
    assert(r@ =~= near_keys(cells@, to));
    r
}

/// Cells ordered by their scores, those of a kind before all others.
pub open spec fn favored_keys(
    cells: Seq<Hex>,
    scores: Seq<CellScore>,
    favored: Seq<bool>,
) -> Seq<SortKey> {
    Seq::new(
        cells.len(),
        |i: int|
            if favored[i] {
                SortKey { value: score_of(scores, cells[i]) as i128, cost: 0 }
            } else {
                SortKey { value: LOWEST, cost: 0 }
            },
    )
}

/// Less than every score.
pub const LOWEST: i128 = -0x1_0000_0000_0000_0000;

fn make_favored_keys(cells: &Vec<Hex>, scores: &Vec<CellScore>, favored: &Vec<bool>) -> (r: Vec<
    SortKey,
>)
    requires
        favored@.len() == cells@.len(),
    ensures
        r@ == favored_keys(cells@, scores@, favored@),
{
    let mut r: Vec<SortKey> = Vec::new();
    let mut i: usize = 0;
    while i < cells.len()
        invariant
            i <= cells.len(),
            favored@.len() == cells@.len(),
            r@ == favored_keys(cells@, scores@, favored@).take(i as int),
        decreases cells.len() - i,
    {
        let value: i128 = if favored[i] {
            cell_score(scores, cells[i]) as i128
        } else {
            LOWEST
        };
        r.push(SortKey { value, cost: 0 });
        assert(r@ =~= favored_keys(cells@, scores@, favored@).take(i + 1));
        i = i + 1;
    }
    assert(r@ =~= favored_keys(cells@, scores@, favored@));
    r
}

// ---------------------------------------------------------------------------
// Cells to act from
// ---------------------------------------------------------------------------

/// Whether `i` is the place of the most wanted enemy; the last of equals.
pub open spec fn is_most_wanted(enemies: Seq<EnemySpot>, i: int) -> bool {
    &&& 0 <= i < enemies.len()
    &&& forall|j: int|
        0 <= j < enemies.len() ==> (#[trigger] enemies[j]).priority <= enemies[i].priority
    &&& forall|j: int|
        i < j < enemies.len() ==> (#[trigger] enemies[j]).priority < enemies[i].priority
}

/// The place of the most wanted enemy.
pub open spec fn most_wanted(enemies: Seq<EnemySpot>) -> int {
    choose|i: int| is_most_wanted(enemies, i)
}

pub(crate) fn find_most_wanted(enemies: &Vec<EnemySpot>) -> (r: usize)
    requires
        enemies@.len() > 0,
    ensures
        r == most_wanted(enemies@),
        r < enemies@.len(),
{
    let mut best: usize = 0;
    let mut i: usize = 1;
    while i < enemies.len()
        invariant
            1 <= i <= enemies.len(),
            best < i,
            forall|j: int|
                0 <= j < i ==> (#[trigger] enemies@[j]).priority <= enemies@[best as int].priority,
            forall|j: int|
                best < j < i ==> (#[trigger] enemies@[j]).priority
                    < enemies@[best as int].priority,
        decreases enemies.len() - i,
    {
        if enemies[i].priority >= enemies[best].priority {
            best = i;
        }
        i = i + 1;
    }
    proof {
        assert(is_most_wanted(enemies@, best as int));
        let k = most_wanted(enemies@);
        assert(is_most_wanted(enemies@, k));
        assert(enemies@[k].priority == enemies@[best as int].priority);
    }
    best
}

/// Radii of the circles among abilities, in order.
pub open spec fn circle_radii(ids: Seq<String>, content: ContentView) -> Seq<u32>
    decreases ids.len(),
{
    if ids.len() == 0 {
        Seq::empty()
    } else {
        let rest = circle_radii(ids.drop_last(), content);
        match content.ability(ids.last()@) {
            Some(d) => match d.aoe {
                AoEShape::Circle { radius } => rest.push(radius),
                _ => rest,
            },
            None => rest,
        }
    }
}

fn collect_radii(ids: &Vec<String>, content: &ContentView) -> (r: Vec<u32>)
    ensures
        r@ == circle_radii(ids@, *content),
{
    let mut r: Vec<u32> = Vec::new();
    let mut i: usize = 0;
    assert(ids@.take(0) =~= Seq::empty());
    while i < ids.len()
        invariant
            i <= ids.len(),
            r@ == circle_radii(ids@.take(i as int), *content),
        decreases ids.len() - i,
    {
        assert(ids@.take(i + 1).drop_last() =~= ids@.take(i as int));
        if let Some(d) = content.ability_def(&ids[i]) {
            if let AoEShape::Circle { radius } = d.aoe {
                r.push(radius);
            }
        }
        i = i + 1;
    }
    assert(ids@.take(i as int) =~= ids@);
    r
}

/// How many different cells of a list a circle touches.
pub open spec fn touched(h: Hex, radius: u32, cells: Seq<Hex>) -> nat
    decreases cells.len(),
{
    if cells.len() == 0 {
        0
    } else {
        let rest = touched(h, radius, cells.drop_last());
        if distance(h, cells.last()) <= radius && !cells.drop_last().contains(cells.last()) {
            rest + 1
        } else {
            rest
        }
    }
}

fn count_touched(h: Hex, radius: u32, cells: &Vec<Hex>) -> (r: usize)
    requires
        cells@.len() > 0 ==> h.in_range() && all_in_range(cells@),
    ensures
        r == touched(h, radius, cells@),
        r <= cells@.len(),
{
    let mut r: usize = 0;
    let mut i: usize = 0;
    assert(cells@.take(0) =~= Seq::empty());
    while i < cells.len()
        invariant
            i <= cells.len(),
            r <= i,
            cells@.len() > 0 ==> h.in_range() && all_in_range(cells@),
            r == touched(h, radius, cells@.take(i as int)),
        decreases cells.len() - i,
    {
        assert(cells@.take(i + 1).drop_last() =~= cells@.take(i as int));
        assert(cells@[i as int].in_range());
        let mut seen = false;
        let mut j: usize = 0;
        while j < i
            invariant
                j <= i < cells.len(),
                seen == (exists|k: int| 0 <= k < j && (#[trigger] cells@[k]) == cells@[i as int]),
            decreases i - j,
        {
            if cells[j] == cells[i] {
                seen = true;
            }
            j = j + 1;
        }
        proof {
            let part = cells@.take(i as int);
            if seen {
                let k = choose|k: int| 0 <= k < i && (#[trigger] cells@[k]) == cells@[i as int];
                assert(part[k] == cells@[i as int]);
            }
            if part.contains(cells@[i as int]) {
                let k = choose|k: int| 0 <= k < part.len() && part[k] == cells@[i as int];
                assert(cells@[k] == cells@[i as int]);
            }
        }
        if !seen && h.unsigned_distance_to(cells[i]) <= radius {
            r = r + 1;
        }
        i = i + 1;
    }
    assert(cells@.take(i as int) =~= cells@);
    r
}

/// The most cells of a list that one of some circles touches.
pub open spec fn most_touched(h: Hex, radii: Seq<u32>, cells: Seq<Hex>) -> nat
    decreases radii.len(),
{
    if radii.len() == 0 {
        0
    } else {
        let rest = most_touched(h, radii.drop_last(), cells);
        let last = touched(h, radii.last(), cells);
        if last > rest {
            last
        } else {
            rest
        }
    }
}

/// Cells ordered by how many enemies one of some circles around them touches.
pub open spec fn circle_keys(cells: Seq<Hex>, radii: Seq<u32>, enemies: Seq<Hex>) -> Seq<
    SortKey,
> {
    Seq::new(
        cells.len(),
        |i: int| SortKey { value: most_touched(cells[i], radii, enemies) as i128, cost: 0 },
    )
}

fn make_circle_keys(cells: &Vec<Hex>, radii: &Vec<u32>, enemies: &Vec<Hex>) -> (r: Vec<SortKey>)
    requires
        enemies@.len() > 0 ==> all_in_range(cells@) && all_in_range(enemies@),
    ensures
        r@ == circle_keys(cells@, radii@, enemies@),
{
    let mut r: Vec<SortKey> = Vec::new();
    let mut i: usize = 0;
    while i < cells.len()
        invariant
            i <= cells.len(),
            enemies@.len() > 0 ==> all_in_range(cells@) && all_in_range(enemies@),
            r@ == circle_keys(cells@, radii@, enemies@).take(i as int),
        decreases cells.len() - i,
    {
        assert(enemies@.len() > 0 ==> cells@[i as int].in_range());
        let mut most: usize = 0;
        let mut k: usize = 0;
        assert(radii@.take(0) =~= Seq::empty());
        while k < radii.len()
            invariant
                k <= radii.len(),
                i < cells.len(),
                enemies@.len() > 0 ==> cells@[i as int].in_range() && all_in_range(enemies@),
                most == most_touched(cells@[i as int], radii@.take(k as int), enemies@),
            decreases radii.len() - k,
        {
            assert(radii@.take(k + 1).drop_last() =~= radii@.take(k as int));
            let n = count_touched(cells[i], radii[k], enemies);
            if n > most {
                most = n;
            }
            k = k + 1;
        }
        assert(radii@.take(k as int) =~= radii@);
        r.push(SortKey { value: most as i128, cost: 0 });
        assert(r@ =~= circle_keys(cells@, radii@, enemies@).take(i + 1));
        i = i + 1;
    }
    assert(r@ =~= circle_keys(cells@, radii@, enemies@));
    r
}

/// The longest range of abilities on allies.
pub open spec fn heal_range(ids: Seq<String>, content: ContentView) -> u32
    decreases ids.len(),
{
    if ids.len() == 0 {
        0
    } else {
        let rest = heal_range(ids.drop_last(), content);
        match content.ability(ids.last()@) {
            Some(d) if d.target_type == TargetType::SingleAlly && d.range.max > rest => d.range.max,
            _ => rest,
        }
    }
}

fn find_heal_range(ids: &Vec<String>, content: &ContentView) -> (r: u32)
    ensures
        r == heal_range(ids@, *content),
{
    let mut r: u32 = 0;
    let mut i: usize = 0;
    assert(ids@.take(0) =~= Seq::empty());
    while i < ids.len()
        invariant
            i <= ids.len(),
            r == heal_range(ids@.take(i as int), *content),
        decreases ids.len() - i,
    {
        assert(ids@.take(i + 1).drop_last() =~= ids@.take(i as int));
        if let Some(d) = content.ability_def(&ids[i]) {
            if d.target_type == TargetType::SingleAlly && d.range.max > r {
                r = d.range.max;
            }
        }
        i = i + 1;
    }
    assert(ids@.take(i as int) =~= ids@);
    r
}

/// Which cells are within a range of another.
pub open spec fn within(cells: Seq<Hex>, of: Hex, range: u32) -> Seq<bool> {
    Seq::new(cells.len(), |i: int| distance(cells[i], of) <= range)
}

/// Which cells are in a list.
pub open spec fn listed(cells: Seq<Hex>, list: Seq<Hex>) -> Seq<bool> {
    Seq::new(cells.len(), |i: int| list.contains(cells[i]))
}

fn flag_within(cells: &Vec<Hex>, of: Hex, range: u32) -> (r: Vec<bool>)
    requires
        all_in_range(cells@),
        of.in_range(),
    ensures
        r@ == within(cells@, of, range),
{
    let mut r: Vec<bool> = Vec::new();
    let mut i: usize = 0;
    while i < cells.len()
        invariant
            i <= cells.len(),
            all_in_range(cells@),
            of.in_range(),
            r@ == within(cells@, of, range).take(i as int),
        decreases cells.len() - i,
    {
        assert(cells@[i as int].in_range());
        r.push(cells[i].unsigned_distance_to(of) <= range);
        assert(r@ =~= within(cells@, of, range).take(i + 1));
        i = i + 1;
    }
    assert(r@ =~= within(cells@, of, range));
    r
}

fn flag_listed(cells: &Vec<Hex>, list: &Vec<Hex>) -> (r: Vec<bool>)
    ensures
        r@ == listed(cells@, list@),
{
    let mut r: Vec<bool> = Vec::new();
    let mut i: usize = 0;
    while i < cells.len()
        invariant
            i <= cells.len(),
            r@ == listed(cells@, list@).take(i as int),
        decreases cells.len() - i,
    {
        r.push(lists_cell(list, cells[i]));
        assert(r@ =~= listed(cells@, list@).take(i + 1));
        i = i + 1;
    }
    assert(r@ =~= listed(cells@, list@));
    r
}

/// For each of the first `n` wounded allies, the two best cells to escape to of
/// those within healing range of it.
pub open spec fn support_cells(
    cells: Seq<Hex>,
    escape: Seq<CellScore>,
    wounded: Seq<Hex>,
    range: u32,
    n: nat,
) -> Set<Hex>
    decreases n,
{
    if n == 0 {
        Set::empty()
    } else {
        support_cells(cells, escape, wounded, range, (n - 1) as nat).union(
            best_cells(
                cells,
                favored_keys(cells, escape, within(cells, wounded[n - 1], range)),
                2,
            ),
        )
    }
}

/// Cells that are worth acting from, by several lights: to attack, to be safe, to
/// be near the most wanted enemy, to catch many in a circle, to keep an enemy in
/// sight from safety, to heal from safety; and the unit's own cell in any case.
pub open spec fn diverse_set(
    unit: ActiveUnit,
    field: Field,
    reach: Reach,
    content: ContentView,
) -> Set<Hex> {
    let cells = reach.destinations@;
    let enemies = enemy_cells(field.enemies@);
    let offensive = best_cells(cells, score_keys(cells, field.opportunity@), 3);
    let safe = best_cells(cells, score_keys(cells, field.escape@), 3);
    let wanted = if field.enemies@.len() > 0 {
        best_cells(
            cells,
            near_keys(cells, field.enemies@[most_wanted(field.enemies@)].pos),
            2,
        )
    } else {
        Set::empty()
    };
    let radii = circle_radii(unit.abilities@, content);
    let circles = if unit.tags.has_aoe && radii.len() > 0 {
        best_cells(cells, circle_keys(cells, radii, enemies), 2)
    } else {
        Set::empty()
    };
    let kiting = if unit.tags.ranged {
        best_cells(
            cells,
            favored_keys(cells, field.escape@, listed(cells, field.seeing@)),
            2,
        )
    } else {
        Set::empty()
    };
    let range = heal_range(unit.abilities@, content);
    let support = if unit.tags.can_heal && range > 0 {
        support_cells(cells, field.escape@, field.wounded@, range, field.wounded@.len())
    } else {
        Set::empty()
    };
    Set::<Hex>::empty().union(offensive).union(safe).union(wanted).union(circles).union(
        kiting,
    ).union(support).insert(unit.pos)
}

/// Lists cells that are worth acting from, in order.
pub fn select_diverse_tiles(
    unit: &ActiveUnit,
    field: &Field,
    reach: &Reach,
    content: &ContentView,
) -> (r: Vec<Hex>)
    requires
        tiles_fit(*unit, *field, *reach, *content),
    ensures
        r@ == listing(diverse_set(*unit, *field, *reach, *content)),
        is_listing(r@, diverse_set(*unit, *field, *reach, *content)),
        forall|i: int|
            0 <= i < r@.len() ==> (#[trigger] r@[i]) == unit.pos || reach.destinations@.contains(
                r@[i],
            ),
{
    let cells = &reach.destinations;
    let enemies = collect_enemy_cells(&field.enemies);
    let mut tiles: Vec<Hex> = Vec::new();
    assert(tiles@.to_set() =~= Set::<Hex>::empty());
    pick_top(cells, &make_score_keys(cells, &field.opportunity), 3, &mut tiles);
    pick_top(cells, &make_score_keys(cells, &field.escape), 3, &mut tiles);
    let ghost s2 = tiles@.to_set();
    if field.enemies.len() > 0 {
        let wanted = field.enemies[find_most_wanted(&field.enemies)].pos;
        proof {
            let k = most_wanted(field.enemies@);
            assert(enemy_cells(field.enemies@)[k] == wanted);
            assert(enemy_cells(field.enemies@)[k].in_range());
        }
        pick_top(cells, &make_near_keys(cells, wanted), 2, &mut tiles);
    } else {
        assert(s2.union(Set::empty()) =~= s2);
    }
    let ghost s3 = tiles@.to_set();
    let radii = collect_radii(&unit.abilities, content);
    if unit.tags.has_aoe && radii.len() > 0 {
        pick_top(cells, &make_circle_keys(cells, &radii, &enemies), 2, &mut tiles);
    } else {
        assert(s3.union(Set::empty()) =~= s3);
    }
    let ghost s4 = tiles@.to_set();
    if unit.tags.ranged {
        let sees = flag_listed(cells, &field.seeing);
        pick_top(cells, &make_favored_keys(cells, &field.escape, &sees), 2, &mut tiles);
    } else {
        assert(s4.union(Set::empty()) =~= s4);
    }
    let ghost s5 = tiles@.to_set();
    let range = find_heal_range(&unit.abilities, content);
    if unit.tags.can_heal && range > 0 {
        let mut i: usize = 0;
        assert(s5.union(Set::empty()) =~= s5);
        while i < field.wounded.len()
            invariant
                i <= field.wounded.len(),
                field.wounded@.len() > 0 ==> all_in_range(cells@) && all_in_range(field.wounded@),
                tiles@.no_duplicates(),
                is_among(tiles@, cells@),
                tiles@.to_set() == s5.union(
                    support_cells(cells@, field.escape@, field.wounded@, range, i as nat),
                ),
            decreases field.wounded.len() - i,
        {
            assert(field.wounded@[i as int].in_range());
            let near = flag_within(cells, field.wounded[i], range);
            let ghost before = tiles@.to_set();
            pick_top(cells, &make_favored_keys(cells, &field.escape, &near), 2, &mut tiles);
            assert(tiles@.to_set() =~= s5.union(
                support_cells(cells@, field.escape@, field.wounded@, range, (i + 1) as nat),
            ));
            i = i + 1;
        }
    } else {
        assert(s5.union(Set::empty()) =~= s5);
    }
    let ghost s6 = tiles@;
    if !lists_cell(&tiles, unit.pos) {
        tiles.push(unit.pos);
        proof {
            pushed_holds(s6, unit.pos);
        }
    }
    assert(tiles@.to_set() =~= diverse_set(*unit, *field, *reach, *content)) by {
        assert forall|h: Hex| tiles@.to_set().contains(h) == s6.to_set().insert(
            unit.pos,
        ).contains(h) by {
            assert(tiles@.to_set().contains(h) <==> tiles@.contains(h));
            assert(s6.to_set().contains(h) <==> s6.contains(h));
        }
        assert(tiles@.to_set() =~= s6.to_set().insert(unit.pos));
    }
    let r = list_in_order(&tiles);
    proof {
        assert forall|i: int| 0 <= i < r@.len() implies (#[trigger] r@[i]) == unit.pos
            || reach.destinations@.contains(r@[i]) by {
            assert(r@.contains(r@[i]));
            assert(tiles@.to_set().contains(r@[i]));
            assert(tiles@.contains(r@[i]));
            assert(tiles@.contains(r@[i]) <==> s6.contains(r@[i]) || r@[i] == unit.pos);
        }
    }
    r
}

/// The way to a cell is the first that is listed for it.
pub proof fn law_way_as_listed(paths: Seq<PathTo>, k: int)
    requires
        0 <= k < paths.len(),
        forall|j: int| 0 <= j < k ==> (#[trigger] paths[j]).cell != paths[k].cell,
    ensures
        way_to(paths, paths[k].cell) == Some(paths[k].path@),
    decreases paths.len(),
{
    if k > 0 {
        assert(paths[0].cell != paths[k].cell);
        let rest = paths.drop_first();
        assert forall|j: int| 0 <= j < k - 1 implies (#[trigger] rest[j]).cell
            != rest[k - 1].cell by {
            assert(paths[j + 1].cell != paths[k].cell);
        }
        law_way_as_listed(rest, k - 1);
    }
}

/// There is no way to a cell for which none is listed.
pub proof fn law_no_way_unlisted(paths: Seq<PathTo>, cell: Hex)
    requires
        forall|j: int| 0 <= j < paths.len() ==> (#[trigger] paths[j]).cell != cell,
    ensures
        way_to(paths, cell) is None,
    decreases paths.len(),
{
    if paths.len() > 0 {
        assert(paths[0].cell != cell);
        let rest = paths.drop_first();
        assert forall|j: int| 0 <= j < rest.len() implies (#[trigger] rest[j]).cell != cell by {
            assert(paths[j + 1].cell != cell);
        }
        law_no_way_unlisted(rest, cell);
    }
}

/// The score of a cell is the first that is listed for it.
pub proof fn law_score_as_listed(scores: Seq<CellScore>, k: int)
    requires
        0 <= k < scores.len(),
        forall|j: int| 0 <= j < k ==> (#[trigger] scores[j]).cell != scores[k].cell,
    ensures
        score_of(scores, scores[k].cell) == scores[k].score,
    decreases scores.len(),
{
    if k > 0 {
        assert(scores[0].cell != scores[k].cell);
        let rest = scores.drop_first();
        assert forall|j: int| 0 <= j < k - 1 implies (#[trigger] rest[j]).cell
            != rest[k - 1].cell by {
            assert(scores[j + 1].cell != scores[k].cell);
        }
        law_score_as_listed(rest, k - 1);
    }
}

/// A cell for which no score is listed has none.
pub proof fn law_no_score_unlisted(scores: Seq<CellScore>, cell: Hex)
    requires
        forall|j: int| 0 <= j < scores.len() ==> (#[trigger] scores[j]).cell != cell,
    ensures
        score_of(scores, cell) == 0,
    decreases scores.len(),
{
    if scores.len() > 0 {
        assert(scores[0].cell != cell);
        let rest = scores.drop_first();
        assert forall|j: int| 0 <= j < rest.len() implies (#[trigger] rest[j]).cell != cell by {
            assert(scores[j + 1].cell != cell);
        }
        law_no_score_unlisted(rest, cell);
    }
}

/// The best cells are no more than asked for, and a cell that is left out has no place
/// that comes before one of a cell that is taken for the sake of that place.
pub proof fn law_best_cells(cells: Seq<Hex>, keys: Seq<SortKey>, n: nat, i: int)
    requires
        cells.len() == keys.len(),
        keys.len() <= usize::MAX,
        0 <= i < cells.len(),
    ensures
        !best_cells(cells, keys, n).contains(cells[i]) ==> forall|a: int|
            0 <= a < n && a < cells.len() ==> precedes(
                keys,
                (#[trigger] ranking(keys)[a]) as int,
                i,
            ),
        n >= cells.len() ==> best_cells(cells, keys, n).contains(cells[i]),
        !best_cells(cells, keys, 0).contains(cells[i]),
        forall|h: Hex| #[trigger] best_cells(cells, keys, n).contains(h) ==> cells.contains(h),
{
    law_there_is_a_ranking(keys);
    let r = ranking(keys);
    assert(r.contains(i as usize));
    let b = choose|b: int| 0 <= b < r.len() && r[b] == i as usize;
    if b < n {
        assert(cells[r[b] as int] == cells[i]);
        assert(best_cells(cells, keys, n).contains(cells[i]));
    }
    if !best_cells(cells, keys, n).contains(cells[i]) {
        assert forall|a: int| 0 <= a < n && a < cells.len() implies precedes(
            keys,
            (#[trigger] r[a]) as int,
            i,
        ) by {
            assert(precedes(keys, r[a] as int, r[b] as int));
        }
    }
}

/// A cell that is left out of the best scores no more than one that leads.
pub proof fn law_best_scores(cells: Seq<Hex>, scores: Seq<CellScore>, n: nat, i: int, a: int)
    requires
        cells.len() <= usize::MAX,
        0 <= i < cells.len(),
        0 <= a < n,
        a < cells.len(),
        !best_cells(cells, score_keys(cells, scores), n).contains(cells[i]),
    ensures
        ({
            let lead = cells[ranking(score_keys(cells, scores))[a] as int];
            &&& best_cells(cells, score_keys(cells, scores), n).contains(lead)
            &&& score_of(scores, lead) >= score_of(scores, cells[i])
        }),
{
    let keys = score_keys(cells, scores);
    law_there_is_a_ranking(keys);
    law_best_cells(cells, keys, n, i);
    assert(precedes(keys, ranking(keys)[a] as int, i));
    assert(cells[ranking(keys)[a] as int] == cells[ranking(keys)[a] as int]);
}

/// A cell that is left out of the nearest is no nearer than one that leads.
pub proof fn law_nearest_cells(cells: Seq<Hex>, to: Hex, n: nat, i: int, a: int)
    requires
        cells.len() <= usize::MAX,
        0 <= i < cells.len(),
        0 <= a < n,
        a < cells.len(),
        !best_cells(cells, near_keys(cells, to), n).contains(cells[i]),
    ensures
        ({
            let lead = cells[ranking(near_keys(cells, to))[a] as int];
            &&& best_cells(cells, near_keys(cells, to), n).contains(lead)
            &&& distance(lead, to) <= distance(cells[i], to)
        }),
{
    let keys = near_keys(cells, to);
    law_there_is_a_ranking(keys);
    law_best_cells(cells, keys, n, i);
    assert(precedes(keys, ranking(keys)[a] as int, i));
    assert(cells[ranking(keys)[a] as int] == cells[ranking(keys)[a] as int]);
    distances_fit(cells[i], to);
    distances_fit(cells[ranking(keys)[a] as int], to);
}

proof fn distances_fit(a: Hex, b: Hex)
    ensures
        distance(a, b) as i128 == distance(a, b),
{
}

/// A favored cell comes before every cell that is not favored; among favored cells the
/// higher score comes first.
pub proof fn law_favored_come_first(
    cells: Seq<Hex>,
    scores: Seq<CellScore>,
    favored: Seq<bool>,
    i: int,
    j: int,
)
    requires
        0 <= i < cells.len(),
        0 <= j < cells.len(),
        favored.len() == cells.len(),
    ensures
        favored[i] && !favored[j] ==> precedes(favored_keys(cells, scores, favored), i, j),
        favored[i] && favored[j] && score_of(scores, cells[i]) > score_of(scores, cells[j])
            ==> precedes(favored_keys(cells, scores, favored), i, j),
{
}

/// The enemy that is wanted most has no lower priority than any other, and of those with
/// the same priority it is the last.
pub proof fn law_most_wanted(enemies: Seq<EnemySpot>, i: int, j: int)
    requires
        is_most_wanted(enemies, i),
        0 <= j < enemies.len(),
    ensures
        most_wanted(enemies) == i,
        enemies[i].priority >= enemies[j].priority,
        enemies[i].priority == enemies[j].priority ==> j <= i,
{
    let k = most_wanted(enemies);
    assert(is_most_wanted(enemies, k));
    assert(enemies[k].priority <= enemies[i].priority);
    assert(enemies[i].priority <= enemies[k].priority);
    if k < i {
        assert(enemies[i].priority < enemies[k].priority);
    }
    if i < k {
        assert(enemies[k].priority < enemies[i].priority);
    }
}

/// Each ability with a circle adds its radius, others add none.
pub proof fn law_radii_by_one_more(ids: Seq<String>, more: String, content: ContentView)
    ensures
        circle_radii(Seq::empty(), content).len() == 0,
        circle_radii(ids.push(more), content) == (match content.ability(more@) {
            Some(d) => if d.aoe is Circle {
                circle_radii(ids, content).push(d.aoe->radius)
            } else {
                circle_radii(ids, content)
            },
            None => circle_radii(ids, content),
        }),
{
    assert(ids.push(more).drop_last() =~= ids);
}

/// A circle touches one more where one more cell is within its radius that was not
/// counted yet.
pub proof fn law_touched_by_one_more(h: Hex, radius: u32, cells: Seq<Hex>, more: Hex)
    ensures
        touched(h, radius, Seq::empty()) == 0,
        cells.contains(more) || distance(h, more) > radius ==> touched(h, radius, cells.push(more))
            == touched(h, radius, cells),
        !cells.contains(more) && distance(h, more) <= radius ==> touched(
            h,
            radius,
            cells.push(more),
        ) == touched(h, radius, cells) + 1,
{
    assert(cells.push(more).drop_last() =~= cells);
}

/// The most that one of some circles touches is what one of them touches, and no other
/// touches more.
pub proof fn law_most_touched(h: Hex, radii: Seq<u32>, cells: Seq<Hex>, i: int)
    requires
        0 <= i < radii.len(),
    ensures
        touched(h, radii[i], cells) <= most_touched(h, radii, cells),
        exists|k: int|
            0 <= k < radii.len() && touched(h, #[trigger] radii[k], cells) == most_touched(
                h,
                radii,
                cells,
            ),
    decreases radii.len(),
{
    let part = radii.drop_last();
    let n = radii.len() - 1;
    if n == 0 {
        reveal_with_fuel(most_touched, 2);
        assert(touched(h, radii[0], cells) == most_touched(h, radii, cells));
    } else {
        law_most_touched(h, part, cells, if i < n {
            i
        } else {
            0
        });
        let k = choose|k: int|
            0 <= k < part.len() && touched(h, #[trigger] part[k], cells) == most_touched(
                h,
                part,
                cells,
            );
        assert(radii[k] == part[k]);
        assert(radii[n] == radii.last());
        if i < n {
            assert(part[i] == radii[i]);
        }
    }
}

/// The range of healing is the longest among the abilities for a single ally.
pub proof fn law_heal_range(ids: Seq<String>, content: ContentView, i: int)
    requires
        0 <= i < ids.len(),
    ensures
        content.ability(ids[i]@) is Some && content.ability(ids[i]@)->0.target_type
            == TargetType::SingleAlly ==> content.ability(ids[i]@)->0.range.max <= heal_range(
            ids,
            content,
        ),
        heal_range(ids, content) > 0 ==> exists|k: int| #[trigger] heals_as_far(
            ids,
            content,
            k,
            heal_range(ids, content),
        ),
    decreases ids.len(),
{
    let part = ids.drop_last();
    let n = ids.len() - 1;
    if n > 0 {
        law_heal_range(part, content, if i < n {
            i
        } else {
            0
        });
        if heal_range(part, content) == heal_range(ids, content) && heal_range(ids, content) > 0 {
            let k = choose|k: int| #[trigger]
                heals_as_far(part, content, k, heal_range(ids, content));
            assert(heals_as_far(ids, content, k, heal_range(ids, content)));
        }
    } else {
        reveal_with_fuel(heal_range, 2);
    }
    if heal_range(part, content) != heal_range(ids, content) {
        assert(heals_as_far(ids, content, n, heal_range(ids, content)));
    }
    if i < n {
        assert(part[i] == ids[i]);
    }
}

/// Whether the ability at `k` is for a single ally and reaches as far as given.
pub open spec fn heals_as_far(ids: Seq<String>, content: ContentView, k: int, range: u32) -> bool {
    0 <= k < ids.len() && (content.ability(ids[k]@) matches Some(d) && d.target_type
        == TargetType::SingleAlly && d.range.max == range)
}

/// Where to act from. The unit's own cell always counts, and so do the three best cells
/// to attack from and the three best to escape to, the two nearest to the enemy that is
/// wanted most, and for those who have use for them the two from which circles touch
/// most, the two safest from which an enemy is in sight, and the two safest from which
/// each of the wounded can be healed. No other cell counts.
pub proof fn law_where_to_act_from(
    unit: ActiveUnit,
    field: Field,
    reach: Reach,
    content: ContentView,
    h: Hex,
)
    ensures
        ({
            let cells = reach.destinations@;
            let tiles = diverse_set(unit, field, reach, content);
            let radii = circle_radii(unit.abilities@, content);
            let range = heal_range(unit.abilities@, content);
            let by_attack = best_cells(cells, score_keys(cells, field.opportunity@), 3).contains(h);
            let by_escape = best_cells(cells, score_keys(cells, field.escape@), 3).contains(h);
            let by_wanted = field.enemies@.len() > 0 && best_cells(
                cells,
                near_keys(cells, field.enemies@[most_wanted(field.enemies@)].pos),
                2,
            ).contains(h);
            let by_circle = unit.tags.has_aoe && radii.len() > 0 && best_cells(
                cells,
                circle_keys(cells, radii, enemy_cells(field.enemies@)),
                2,
            ).contains(h);
            let by_sight = unit.tags.ranged && best_cells(
                cells,
                favored_keys(cells, field.escape@, listed(cells, field.seeing@)),
                2,
            ).contains(h);
            let by_support = unit.tags.can_heal && range > 0 && supports_one(
                cells,
                field.escape@,
                field.wounded@,
                range,
                h,
            );
            &&& tiles.contains(unit.pos)
            &&& tiles.contains(h) <==> h == unit.pos || by_attack || by_escape || by_wanted
                || by_circle || by_sight || by_support
        }),
{
    let cells = reach.destinations@;
    let range = heal_range(unit.abilities@, content);
    supporting(cells, field.escape@, field.wounded@, range, field.wounded@.len(), h);
    assert(supports_one(cells, field.escape@, field.wounded@, range, h) <==> exists|k: int|
        0 <= k < field.wounded@.len() && #[trigger] supports(
            cells,
            field.escape@,
            field.wounded@,
            range,
            k,
            h,
        ));
}

/// Whether a cell is one of the two best to escape to from which one of the wounded can
/// be healed.
pub open spec fn supports(
    cells: Seq<Hex>,
    escape: Seq<CellScore>,
    wounded: Seq<Hex>,
    range: u32,
    k: int,
    h: Hex,
) -> bool {
    best_cells(cells, favored_keys(cells, escape, within(cells, wounded[k], range)), 2).contains(h)
}

/// Whether a cell is one of the two best to escape to from which some one of the wounded
/// can be healed.
pub open spec fn supports_one(
    cells: Seq<Hex>,
    escape: Seq<CellScore>,
    wounded: Seq<Hex>,
    range: u32,
    h: Hex,
) -> bool {
    exists|k: int|
        0 <= k < wounded.len() && #[trigger] supports(cells, escape, wounded, range, k, h)
}

proof fn supporting(
    cells: Seq<Hex>,
    escape: Seq<CellScore>,
    wounded: Seq<Hex>,
    range: u32,
    n: nat,
    h: Hex,
)
    requires
        n <= wounded.len(),
    ensures
        support_cells(cells, escape, wounded, range, n).contains(h) <==> exists|k: int|
            0 <= k < n && #[trigger] supports(cells, escape, wounded, range, k, h),
    decreases n,
{
    if n > 0 {
        let m = (n - 1) as nat;
        supporting(cells, escape, wounded, range, m, h);
        assert(support_cells(cells, escape, wounded, range, n).contains(h) <==> support_cells(
            cells,
            escape,
            wounded,
            range,
            m,
        ).contains(h) || supports(cells, escape, wounded, range, m as int, h));
    }
}

/// A cell is within reach of another exactly where it is no farther than the range, and
/// listed exactly where the list has it.
pub proof fn law_reach_and_lists(cells: Seq<Hex>, of: Hex, range: u32, list: Seq<Hex>, i: int)
    requires
        0 <= i < cells.len(),
    ensures
        within(cells, of, range)[i] <==> distance(cells[i], of) <= range,
        listed(cells, list)[i] <==> list.contains(cells[i]),
{
}

} // verus!
