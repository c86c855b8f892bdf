//! Which cells an ability can be aimed at.

use crate::content::{AbilityDef, AoEShape, TargetType};
use crate::hex::{
    all_steps, distance, hex_circle, stepped, steps, Board, Hex, COORD_LIMIT, RADIUS_LIMIT,
};
use crate::ranking::{precedes, rank_by, SortKey};
use vstd::prelude::*;

verus! {

/// Whether a cell is near enough for a longest range; a range of zero is
/// unlimited.
pub open spec fn is_near_enough(from: Hex, to: Hex, max_range: u32) -> bool {
    max_range == 0 || distance(from, to) <= max_range
}

/// Whether a cell is near enough for a longest range.
pub fn near_enough(from: Hex, to: Hex, max_range: u32) -> (r: bool)
    requires
        max_range > 0 ==> from.in_range() && to.in_range(),
    ensures
        r == is_near_enough(from, to, max_range),
{
    max_range == 0 || from.unsigned_distance_to(to) <= max_range
}

/// Whether all cells of a list are ones whose distances can be told.
pub open spec fn all_in_range(cells: Seq<Hex>) -> bool {
    forall|i: int| 0 <= i < cells.len() ==> (#[trigger] cells[i]).in_range()
}

// ---------------------------------------------------------------------------
// Single targets
// ---------------------------------------------------------------------------

/// The cells of a list that are near enough, in order.
pub open spec fn near_cells(from: Hex, max_range: u32, cells: Seq<Hex>) -> Seq<Hex>
    decreases cells.len(),
{
    if cells.len() == 0 {
        Seq::empty()
    } else {
        let rest = near_cells(from, max_range, cells.drop_last());
        if is_near_enough(from, cells.last(), max_range) {
            rest.push(cells.last())
        } else {
            rest
        }
    }
}

fn keep_near(from: Hex, max_range: u32, cells: &Vec<Hex>) -> (r: Vec<Hex>)
    requires
        max_range > 0 ==> from.in_range() && all_in_range(cells@),
    ensures
        r@ == near_cells(from, max_range, cells@),
{
    let mut r: Vec<Hex> = Vec::new();
    let mut i: usize = 0;
    assert(cells@.take(0) =~= Seq::empty());
    while i < cells.len()
        invariant
            i <= cells.len(),
            max_range > 0 ==> from.in_range() && all_in_range(cells@),
            r@ == near_cells(from, max_range, cells@.take(i as int)),
        decreases cells.len() - i,
    {
        assert(cells@.take(i + 1).drop_last() =~= cells@.take(i as int));
        assert(max_range > 0 ==> cells@[i as int].in_range());
        if near_enough(from, cells[i], max_range) {
            r.push(cells[i]);
        }
        i = i + 1;
    }
    assert(cells@.take(i as int) =~= cells@);
    r
}

/// The cells that an ability on one target can be aimed at: those of enemies or
/// of allies, whichever it is for.
pub open spec fn single_cells(
    from: Hex,
    max_range: u32,
    target_type: TargetType,
    enemies: Seq<Hex>,
    allies: Seq<Hex>,
) -> Seq<Hex> {
    match target_type {
        TargetType::SingleEnemy => near_cells(from, max_range, enemies),
        TargetType::SingleAlly => near_cells(from, max_range, allies),
        TargetType::Myself => Seq::empty(),
        TargetType::Ground => Seq::empty(),
    }
}

/// Whether the cells that an ability on one target can be aimed at can be told:
/// where the range is limited, distances to those it is for are needed.
pub open spec fn single_fits(
    from: Hex,
    max_range: u32,
    target_type: TargetType,
    enemies: Seq<Hex>,
    allies: Seq<Hex>,
) -> bool {
    max_range > 0 ==> match target_type {
        TargetType::SingleEnemy => from.in_range() && all_in_range(enemies),
        TargetType::SingleAlly => from.in_range() && all_in_range(allies),
        TargetType::Myself => true,
        TargetType::Ground => true,
    }
}

/// The cells that an ability on one target can be aimed at.
pub fn candidates_single(
    from: Hex,
    max_range: u32,
    target_type: TargetType,
    enemies: &Vec<Hex>,
    allies: &Vec<Hex>,
) -> (r: Vec<Hex>)
    requires
        single_fits(from, max_range, target_type, enemies@, allies@),
    ensures
        r@ == single_cells(from, max_range, target_type, enemies@, allies@),
{
    match target_type {
        TargetType::SingleEnemy => keep_near(from, max_range, enemies),
        TargetType::SingleAlly => keep_near(from, max_range, allies),
        TargetType::Myself => Vec::new(),
        TargetType::Ground => Vec::new(),
    }
}

// ---------------------------------------------------------------------------
// Cells in order
// ---------------------------------------------------------------------------

/// Whether a cell comes before another: by column of the plane, then by row.
pub open spec fn cell_before(a: Hex, b: Hex) -> bool {
    a.x < b.x || (a.x == b.x && a.y < b.y)
}

/// Whether a list holds exactly the cells of a set, in order.
pub open spec fn is_listing(s: Seq<Hex>, cells: Set<Hex>) -> bool {
    &&& forall|a: int, b: int|
        0 <= a < b < s.len() ==> cell_before(#[trigger] s[a], #[trigger] s[b])
    &&& forall|h: Hex| #[trigger] s.contains(h) <==> cells.contains(h)
}

/// The cells of a set, in order.
pub open spec fn listing(cells: Set<Hex>) -> Seq<Hex> {
    choose|s: Seq<Hex>| is_listing(s, cells)
}

/// There is but one way to list the cells of a set in order.
pub proof fn law_listing_is_unique(s: Seq<Hex>, cells: Set<Hex>)
    requires
        is_listing(s, cells),
    ensures
        listing(cells) == s,
{
    let t = listing(cells);
    assert(is_listing(t, cells));
    listings_agree(s, t, cells, s.len());
    listings_agree(t, s, cells, t.len());
    if s.len() < t.len() {
        let h = t[s.len() as int];
        assert(t.contains(h));
        assert(s.contains(h));
        let p = choose|p: int| 0 <= p < s.len() && s[p] == h;
        assert(s[p] == t[p]);
        assert(cell_before(t[p], t[s.len() as int]));
    }
    if t.len() < s.len() {
        let h = s[t.len() as int];
        assert(s.contains(h));
        assert(t.contains(h));
        let p = choose|p: int| 0 <= p < t.len() && t[p] == h;
        assert(t[p] == s[p]);
        assert(cell_before(s[p], s[t.len() as int]));
    }
    assert(s =~= t);
}

proof fn listings_agree(s: Seq<Hex>, t: Seq<Hex>, cells: Set<Hex>, n: nat)
    requires
        is_listing(s, cells),
        is_listing(t, cells),
        n <= s.len(),
    ensures
        n <= t.len() ==> forall|k: int| 0 <= k < n ==> (#[trigger] s[k]) == t[k],
        n > t.len() ==> forall|k: int| 0 <= k < t.len() ==> (#[trigger] s[k]) == t[k],
    decreases n,
{
    if n > 0 {
        let k = n - 1;
        listings_agree(s, t, cells, k as nat);
        if n <= t.len() && s[k] != t[k] {
            assert(s.contains(s[k]));
            assert(t.contains(t[k]));
            assert(t.contains(s[k]));
            assert(s.contains(t[k]));
            let p = choose|p: int| 0 <= p < s.len() && s[p] == t[k];
            let q = choose|q: int| 0 <= q < t.len() && t[q] == s[k];
            if p < k {
                assert(s[p] == t[p]);
                assert(cell_before(t[p], t[k]));
            }
            if q < k {
                assert(s[q] == t[q]);
                assert(cell_before(s[q], s[k]));
            }
            assert(cell_before(s[k], s[p]));
            assert(cell_before(t[k], t[q]));
        }
    }
}

/// Puts different cells in order.
pub fn list_in_order(cells: &Vec<Hex>) -> (r: Vec<Hex>)
    requires
        cells@.no_duplicates(),
    ensures
        r@ == listing(cells@.to_set()),
        is_listing(r@, cells@.to_set()),
{
    let mut keys: Vec<SortKey> = Vec::new();
    let mut i: usize = 0;
    while i < cells.len()
        invariant
            i <= cells.len(),
            keys@.len() == i,
            forall|j: int|
                0 <= j < i ==> (#[trigger] keys@[j]).value == -cells@[j].x && keys@[j].cost
                    == cells@[j].y,
        decreases cells.len() - i,
    {
        keys.push(SortKey { value: -(cells[i].x as i128), cost: cells[i].y as i128 });
        i = i + 1;
    }
    let order = rank_by(&keys);
    let mut r: Vec<Hex> = Vec::new();
    let mut k: usize = 0;
    while k < order.len()
        invariant
            k <= order.len(),
            order@.len() == cells@.len(),
            forall|a: int| 0 <= a < order@.len() ==> (#[trigger] order@[a]) < cells@.len(),
            r@.len() == k,
            forall|a: int| 0 <= a < k ==> (#[trigger] r@[a]) == cells@[order@[a] as int],
        decreases order.len() - k,
    {
        r.push(cells[order[k]]);
        k = k + 1;
    }
    proof {
        let set = cells@.to_set();
        assert forall|a: int, b: int| 0 <= a < b < r@.len() implies cell_before(
            #[trigger] r@[a],
            #[trigger] r@[b],
        ) by {
            let p = order@[a] as int;
            let q = order@[b] as int;
            assert(precedes(keys@, p, q));
            assert(keys@[p].value == -cells@[p].x);
            assert(keys@[q].value == -cells@[q].x);
            if keys@[p] == keys@[q] {
                assert(cells@[p] == cells@[q]);
            }
        }
        assert forall|h: Hex| #[trigger] r@.contains(h) <==> set.contains(h) by {
            if r@.contains(h) {
                let a = choose|a: int| 0 <= a < r@.len() && r@[a] == h;
                assert(cells@[order@[a] as int] == h);
                assert(cells@.contains(h));
            }
            if set.contains(h) {
                let p = choose|p: int| 0 <= p < cells@.len() && cells@[p] == h;
                assert(order@.contains(p as usize));
                let a = choose|a: int| 0 <= a < order@.len() && order@[a] == p as usize;
                assert(r@[a] == h);
            }
        }
        law_listing_is_unique(r@, set);
    }
    r
}

pub(crate) fn lists_cell(cells: &Vec<Hex>, h: Hex) -> (r: bool)
    ensures
        r == cells@.contains(h),
{
    let mut i: usize = 0;
    while i < cells.len()
        invariant
            i <= cells.len(),
            forall|j: int| 0 <= j < i ==> (#[trigger] cells@[j]) != h,
        decreases cells.len() - i,
    {
        if cells[i] == h {
            assert(cells@[i as int] == h);
            return true;
        }
        i = i + 1;
    }
    false
}

// ---------------------------------------------------------------------------
// Circles
// ---------------------------------------------------------------------------

/// The cells from which a circle reaches an enemy and that are near enough.
pub open spec fn circle_set(from: Hex, max_range: u32, radius: u32, enemies: Seq<Hex>) -> Set<
    Hex,
> {
    Set::new(
        |h: Hex|
            is_near_enough(from, h, max_range) && exists|i: int|
                0 <= i < enemies.len() && distance(#[trigger] enemies[i], h) <= radius,
    )
}

/// Whether circles around all cells of a list stay among the cells whose distances
/// can be told.
pub open spec fn circles_in_range(cells: Seq<Hex>, radius: u32) -> bool {
    forall|i: int|
        0 <= i < cells.len() ==> -COORD_LIMIT + radius <= (#[trigger] cells[i]).x <= COORD_LIMIT
            - radius && -COORD_LIMIT + radius <= cells[i].y <= COORD_LIMIT - radius
}

/// Whether the cells that a circle can be aimed at can be told: the circles around
/// enemies must be small enough to be listed, and where the range is limited,
/// distances to their cells are needed.
pub open spec fn circles_fit(from: Hex, max_range: u32, radius: u32, enemies: Seq<Hex>) -> bool {
    &&& radius <= RADIUS_LIMIT
    &&& all_in_range(enemies)
    &&& max_range > 0 ==> from.in_range() && circles_in_range(enemies, radius)
}

/// The cells that a circle can be aimed at, in order: those from which it reaches
/// an enemy and that are near enough.
pub fn candidates_circle(from: Hex, max_range: u32, radius: u32, enemies: &Vec<Hex>) -> (r: Vec<
    Hex,
>)
    requires
        circles_fit(from, max_range, radius, enemies@),
    ensures
        r@ == listing(circle_set(from, max_range, radius, enemies@)),
        is_listing(r@, circle_set(from, max_range, radius, enemies@)),
{
    let mut centers: Vec<Hex> = Vec::new();
    let mut i: usize = 0;
    while i < enemies.len()
        invariant
            i <= enemies.len(),
            circles_fit(from, max_range, radius, enemies@),
            centers@.no_duplicates(),
            forall|h: Hex| #[trigger]
                centers@.contains(h) <==> is_near_enough(from, h, max_range) && exists|j: int|
                    0 <= j < i && distance(#[trigger] enemies@[j], h) <= radius,
        decreases enemies.len() - i,
    {
        let enemy = enemies[i];
        assert(enemies@[i as int].in_range());
        let around = hex_circle(enemy, radius);
        let ghost before = centers@;
        let mut c: usize = 0;
        while c < around.len()
            invariant
                c <= around.len(),
                i < enemies.len(),
                enemy == enemies@[i as int],
                circles_fit(from, max_range, radius, enemies@),
                forall|h: Hex| #[trigger] around@.contains(h) <==> distance(enemy, h) <= radius,
                centers@.no_duplicates(),
                    forall|h: Hex| #[trigger]
                    before.contains(h) <==> is_near_enough(from, h, max_range) && exists|j: int|
                        0 <= j < i && distance(#[trigger] enemies@[j], h) <= radius,
                forall|h: Hex| #[trigger]
                    centers@.contains(h) <==> before.contains(h) || (is_near_enough(
                        from,
                        h,
                        max_range,
                    ) && around@.take(c as int).contains(h)),
            decreases around.len() - c,
        {
            let cell = around[c];
            let ghost old_centers = centers@;
            proof {
                assert(around@.contains(cell));
                assert(max_range > 0 ==> cell.in_range()) by {
                    assert(max_range > 0 ==> enemies@[i as int].x <= COORD_LIMIT - radius);
                }
                assert(around@.take(c + 1) =~= around@.take(c as int).push(cell));
                pushed_holds(around@.take(c as int), cell);
            }
            if near_enough(from, cell, max_range) && !lists_cell(&centers, cell) {
                centers.push(cell);
                proof {
                    pushed_holds(old_centers, cell);
                }
            }
            c = c + 1;
        }
        proof {
            assert(around@.take(c as int) =~= around@);
            assert forall|h: Hex| #[trigger]
                centers@.contains(h) <==> is_near_enough(from, h, max_range) && exists|j: int|
                    0 <= j < i + 1 && distance(#[trigger] enemies@[j], h) <= radius by {
                if centers@.contains(h) {
                    if before.contains(h) {
                        let j = choose|j: int|
                            0 <= j < i && distance(#[trigger] enemies@[j], h) <= radius;
                        assert(0 <= j < i + 1);
                    } else {
                        assert(around@.contains(h));
                        assert(distance(enemies@[i as int], h) <= radius);
                    }
                }
                if is_near_enough(from, h, max_range) && exists|j: int|
                    0 <= j < i + 1 && distance(#[trigger] enemies@[j], h) <= radius {
                    let j = choose|j: int|
                        0 <= j < i + 1 && distance(#[trigger] enemies@[j], h) <= radius;
                    if j < i {
                        assert(before.contains(h));
                    } else {
                        assert(around@.contains(h));
                    }
                }
            }
        }
        i = i + 1;
    }
    assert(centers@.to_set() =~= circle_set(from, max_range, radius, enemies@));
    list_in_order(&centers)
}

pub(crate) proof fn pushed_holds<T>(s: Seq<T>, t: T)
    ensures
        forall|x: T| #[trigger] s.push(t).contains(x) <==> s.contains(x) || x == t,
{
    assert forall|x: T| #[trigger] s.push(t).contains(x) <==> s.contains(x) || x == t by {
        let p = s.push(t);
        if p.contains(x) {
            let i = choose|i: int| 0 <= i < p.len() && p[i] == x;
            if i < s.len() {
                assert(s[i] == x);
            }
        }
        if s.contains(x) {
            let i = choose|i: int| 0 <= i < s.len() && s[i] == x;
            assert(p[i] == x);
        }
        if x == t {
            assert(p[s.len() as int] == t);
        }
    }
}

// ---------------------------------------------------------------------------
// Lines
// ---------------------------------------------------------------------------

/// The cells from one on in a direction, up to a range or the edge of the board.
pub open spec fn ray(from: Hex, step: Hex, d: nat, range: nat, board: Board) -> Seq<Hex>
    decreases range + 1 - d,
{
    if d > range || !board.contains(stepped(from, step, d as int)) {
        Seq::empty()
    } else {
        seq![stepped(from, step, d as int)] + ray(from, step, d + 1, range, board)
    }
}

/// The cells that a line can be aimed at: along the six directions, up to the
/// range or the edge of the board. A range of zero counts as one.
pub open spec fn line_cells(from: Hex, max_range: u32, board: Board, dirs: nat) -> Seq<Hex>
    decreases dirs,
{
    if dirs == 0 {
        Seq::empty()
    } else {
        line_cells(from, max_range, board, (dirs - 1) as nat) + ray(
            from,
            steps()[dirs - 1],
            1,
            line_range(max_range),
            board,
        )
    }
}

/// The range of lines: one at least.
pub open spec fn line_range(max_range: u32) -> nat {
    if max_range == 0 {
        1
    } else {
        max_range as nat
    }
}

/// A cell of the board is one whose distances can be told.
proof fn board_is_in_range(board: Board, h: Hex)
    requires
        board.wf(),
        board.contains(h),
    ensures
        h.in_range(),
{
    assert(board.row_cols@[h.y as int] <= crate::hex::BOARD_LIMIT);
}

fn walk_ray(from: Hex, step: Hex, range: u32, board: &Board, out: &mut Vec<Hex>)
    requires
        from.in_range(),
        board.wf(),
        -1 <= step.x <= 1,
        -1 <= step.y <= 1,
    ensures
        final(out)@ == old(out)@ + ray(from, step, 1, range as nat, *board),
{
    let ghost head = out@;
    let ghost all = ray(from, step, 1, range as nat, *board);
    let mut d: u32 = 0;
    let mut cur = from;
    assert(stepped(from, step, 0) == from);
    assert(out@ + all =~= head + all);
    while d < range
        invariant
            d <= range,
            head == old(out)@,
            all == ray(from, step, 1, range as nat, *board),
            from.in_range(),
            board.wf(),
            -1 <= step.x <= 1,
            -1 <= step.y <= 1,
            cur == stepped(from, step, d as int),
            cur.x == from.x + step.x * d,
            cur.y == from.y + step.y * d,
            cur.in_range(),
            head + all == out@ + ray(from, step, (d + 1) as nat, range as nat, *board),
        decreases range - d,
    {
        let next = Hex { x: cur.x + step.x, y: cur.y + step.y };
        proof {
            assert(step.x * d + step.x == step.x * (d + 1)) by (nonlinear_arith);
            assert(step.y * d + step.y == step.y * (d + 1)) by (nonlinear_arith);
            assert(next == stepped(from, step, d + 1));
        }
        if !board.in_bounds(next) {
            assert(out@ + Seq::<Hex>::empty() =~= out@);
            return ;
        }
        let ghost before = out@;
        let ghost rest = ray(from, step, (d + 2) as nat, range as nat, *board);
        out.push(next);
        proof {
            board_is_in_range(*board, next);
            assert(before + (seq![next] + rest) =~= out@ + rest);
        }
        cur = next;
        d = d + 1;
    }
    assert(out@ + Seq::<Hex>::empty() =~= out@);
}

/// The cells that a line can be aimed at.
pub fn candidates_line(from: Hex, max_range: u32, board: &Board) -> (r: Vec<Hex>)
    requires
        from.in_range(),
        board.wf(),
    ensures
        r@ == line_cells(from, max_range, *board, 6),
{
    let dirs = all_steps();
    let range: u32 = if max_range == 0 {
        1
    } else {
        max_range
    };
    let mut r: Vec<Hex> = Vec::new();
    let mut i: usize = 0;
    while i < dirs.len()
        invariant
            i <= dirs@.len(),
            dirs@ == steps(),
            from.in_range(),
            board.wf(),
            range == line_range(max_range),
            r@ == line_cells(from, max_range, *board, i as nat),
        decreases dirs.len() - i,
    {
        assert(-1 <= steps()[i as int].x <= 1 && -1 <= steps()[i as int].y <= 1);
        walk_ray(from, dirs[i], range, board, &mut r);
        i = i + 1;
    }
    r
}

// ---------------------------------------------------------------------------
// All abilities
// ---------------------------------------------------------------------------

/// The cells that an ability can be aimed at from a cell.
pub open spec fn target_cells(
    def: AbilityDef,
    from: Hex,
    enemies: Seq<Hex>,
    allies: Seq<Hex>,
    board: Board,
) -> Seq<Hex> {
    match def.aoe {
        AoEShape::Single => single_cells(from, def.range.max, def.target_type, enemies, allies),
        AoEShape::Circle { radius } => listing(
            circle_set(from, def.range.max, radius, enemies),
        ),
        AoEShape::Line { .. } => line_cells(from, def.range.max, board, 6),
    }
}

/// Whether the cells that an ability can be aimed at from a cell can be told.
pub open spec fn aim_fits(
    def: AbilityDef,
    from: Hex,
    enemies: Seq<Hex>,
    allies: Seq<Hex>,
    board: Board,
) -> bool {
    match def.aoe {
        AoEShape::Single => single_fits(from, def.range.max, def.target_type, enemies, allies),
        AoEShape::Circle { radius } => circles_fit(from, def.range.max, radius, enemies),
        AoEShape::Line { .. } => from.in_range() && board.wf(),
    }
}

/// The cells that an ability can be aimed at from a cell.
pub fn aim_cells(
    def: &AbilityDef,
    from: Hex,
    enemies: &Vec<Hex>,
    allies: &Vec<Hex>,
    board: &Board,
) -> (r: Vec<Hex>)
    requires
        aim_fits(*def, from, enemies@, allies@, *board),
    ensures
        r@ == target_cells(*def, from, enemies@, allies@, *board),
{
    match def.aoe {
        AoEShape::Single => candidates_single(
            from,
            def.range.max,
            def.target_type,
            enemies,
            allies,
        ),
        AoEShape::Circle { radius } => candidates_circle(from, def.range.max, radius, enemies),
        AoEShape::Line { .. } => candidates_line(from, def.range.max, board),
    }
}

// ---------------------------------------------------------------------------
// Laws
// ---------------------------------------------------------------------------

/// A single target is always near enough, and every enemy or ally that is near
/// enough is a target.
pub proof fn law_near_cells(from: Hex, max_range: u32, cells: Seq<Hex>, h: Hex)
    ensures
        near_cells(from, max_range, cells).contains(h) <==> cells.contains(h) && is_near_enough(
            from,
            h,
            max_range,
        ),
    decreases cells.len(),
{
    if cells.len() > 0 {
        let rest = cells.drop_last();
        law_near_cells(from, max_range, rest, h);
        assert(cells =~= rest.push(cells.last()));
        pushed_holds(rest, cells.last());
        pushed_holds(near_cells(from, max_range, rest), cells.last());
    } else {
        assert(near_cells(from, max_range, cells) =~= cells);
    }
}

/// A line stays on the board, and on it keeps to one direction and the range.
pub proof fn law_ray_stays_on_board(
    from: Hex,
    step: Hex,
    d: nat,
    range: nat,
    board: Board,
    i: int,
)
    requires
        0 <= i < ray(from, step, d, range, board).len(),
    ensures
        ray(from, step, d, range, board)[i] == stepped(from, step, d + i),
        board.contains(ray(from, step, d, range, board)[i]),
        d + i <= range,
    decreases range + 1 - d,
{
    if i > 0 {
        let rest = ray(from, step, d + 1, range, board);
        law_ray_stays_on_board(from, step, d + 1, range, board, i - 1);
        assert(ray(from, step, d, range, board)[i] == rest[i - 1]);
    }
}

/// A single target in the sense of a kind of target: one of the enemies or one of the
/// allies, no farther than the range, where there is one.
pub proof fn law_single_targets(
    from: Hex,
    max_range: u32,
    target_type: TargetType,
    enemies: Seq<Hex>,
    allies: Seq<Hex>,
    h: Hex,
)
    ensures
        single_cells(from, max_range, target_type, enemies, allies).contains(h) <==> (max_range
            == 0 || distance(from, h) <= max_range) && ((target_type == TargetType::SingleEnemy
            && enemies.contains(h)) || (target_type == TargetType::SingleAlly && allies.contains(
            h,
        ))),
{
    law_near_cells(from, max_range, enemies, h);
    law_near_cells(from, max_range, allies, h);
}

/// Targets are listed in the order in which they were given.
pub proof fn law_targets_keep_their_order(from: Hex, max_range: u32, cells: Seq<Hex>, more: Hex)
    ensures
        near_cells(from, max_range, cells.push(more)) == if max_range == 0 || distance(from, more)
            <= max_range {
            near_cells(from, max_range, cells).push(more)
        } else {
            near_cells(from, max_range, cells)
        },
{
    assert(cells.push(more).drop_last() =~= cells);
}

/// Whether a circle with the given radius around a cell touches one of some cells.
pub open spec fn touches_one(h: Hex, radius: u32, cells: Seq<Hex>) -> bool {
    exists|i: int| 0 <= i < cells.len() && distance(h, #[trigger] cells[i]) <= radius
}

/// A circle is aimed at exactly the cells in range from which it touches an enemy, each
/// once, row after row.
pub proof fn law_circle_targets(
    s: Seq<Hex>,
    from: Hex,
    max_range: u32,
    radius: u32,
    enemies: Seq<Hex>,
    h: Hex,
    i: int,
    j: int,
)
    requires
        is_listing(s, circle_set(from, max_range, radius, enemies)),
    ensures
        s.contains(h) <==> (max_range == 0 || distance(from, h) <= max_range) && touches_one(
            h,
            radius,
            enemies,
        ),
        0 <= i < j < s.len() ==> s[i].x < s[j].x || (s[i].x == s[j].x && s[i].y < s[j].y),
{
    assert(circle_set(from, max_range, radius, enemies).contains(h) <==> is_near_enough(
        from,
        h,
        max_range,
    ) && exists|k: int| 0 <= k < enemies.len() && distance(#[trigger] enemies[k], h) <= radius);
    if touches_one(h, radius, enemies) {
        let k = choose|k: int|
            0 <= k < enemies.len() && distance(h, #[trigger] enemies[k]) <= radius;
        assert(distance(enemies[k], h) <= radius);
    }
    if exists|k: int| 0 <= k < enemies.len() && distance(#[trigger] enemies[k], h) <= radius {
        let k = choose|k: int|
            0 <= k < enemies.len() && distance(#[trigger] enemies[k], h) <= radius;
        assert(distance(h, enemies[k]) <= radius);
    }
    if 0 <= i < j < s.len() {
        assert(cell_before(s[i], s[j]));
    }
}

/// Whether the board goes on for `d` cells in a direction.
pub open spec fn is_clear_to(from: Hex, step: Hex, d: int, board: Board) -> bool {
    forall|k: int| 1 <= k <= d ==> board.contains(#[trigger] stepped(from, step, k))
}

/// Whether a cell lies in one of the six directions, within a range, and the board
/// goes on until there.
pub open spec fn is_in_line(from: Hex, range: int, board: Board, h: Hex) -> bool {
    exists|dir: int, d: int|
        0 <= dir < 6 && 1 <= d <= range && h == #[trigger] stepped(from, steps()[dir], d)
            && is_clear_to(from, steps()[dir], d, board)
}

proof fn ray_reaches(from: Hex, step: Hex, d: nat, range: nat, board: Board, h: Hex)
    ensures
        ray(from, step, d, range, board).contains(h) <==> exists|k: int|
            d <= k <= range && h == #[trigger] stepped(from, step, k) && forall|j: int|
                d <= j <= k ==> board.contains(#[trigger] stepped(from, step, j)),
    decreases range + 1 - d,
{
    let r = ray(from, step, d, range, board);
    if d > range || !board.contains(stepped(from, step, d as int)) {
        if exists|k: int|
            d <= k <= range && h == #[trigger] stepped(from, step, k) && forall|j: int|
                d <= j <= k ==> board.contains(#[trigger] stepped(from, step, j)) {
            let k = choose|k: int|
                d <= k <= range && h == #[trigger] stepped(from, step, k) && forall|j: int|
                    d <= j <= k ==> board.contains(#[trigger] stepped(from, step, j));
            assert(board.contains(stepped(from, step, d as int)));
        }
    } else {
        let rest = ray(from, step, d + 1, range, board);
        let first = stepped(from, step, d as int);
        ray_reaches(from, step, d + 1, range, board, h);
        assert(r =~= seq![first] + rest);
        if r.contains(h) {
            let i = choose|i: int| 0 <= i < r.len() && r[i] == h;
            if i == 0 {
                assert(h == stepped(from, step, d as int));
            } else {
                assert(rest[i - 1] == h);
                let k = choose|k: int|
                    d + 1 <= k <= range && h == #[trigger] stepped(from, step, k) && forall|j: int|
                        d + 1 <= j <= k ==> board.contains(#[trigger] stepped(from, step, j));
                assert forall|j: int| d <= j <= k implies board.contains(
                    #[trigger] stepped(from, step, j),
                ) by {}
                assert(h == stepped(from, step, k));
            }
        }
        if exists|k: int|
            d <= k <= range && h == #[trigger] stepped(from, step, k) && forall|j: int|
                d <= j <= k ==> board.contains(#[trigger] stepped(from, step, j)) {
            let k = choose|k: int|
                d <= k <= range && h == #[trigger] stepped(from, step, k) && forall|j: int|
                    d <= j <= k ==> board.contains(#[trigger] stepped(from, step, j));
            if k == d {
                assert(r[0] == h);
            } else {
                assert(rest.contains(h));
                let i = choose|i: int| 0 <= i < rest.len() && rest[i] == h;
                assert(r[i + 1] == h);
            }
        }
    }
}

proof fn lines_reach(from: Hex, max_range: u32, board: Board, dirs: nat, h: Hex)
    requires
        dirs <= 6,
    ensures
        line_cells(from, max_range, board, dirs).contains(h) <==> exists|dir: int|
            0 <= dir < dirs && (#[trigger] ray(
                from,
                steps()[dir],
                1,
                line_range(max_range),
                board,
            )).contains(h),
    decreases dirs,
{
    if dirs > 0 {
        let n = (dirs - 1) as nat;
        lines_reach(from, max_range, board, n, h);
        let a = line_cells(from, max_range, board, n);
        let b = ray(from, steps()[n as int], 1, line_range(max_range), board);
        let all = line_cells(from, max_range, board, dirs);
        assert(all =~= a + b);
        if a.contains(h) {
            let i = choose|i: int| 0 <= i < a.len() && a[i] == h;
            assert(all[i] == h);
        }
        if b.contains(h) {
            let i = choose|i: int| 0 <= i < b.len() && b[i] == h;
            assert(all[a.len() + i] == h);
        }
        if all.contains(h) {
            let i = choose|i: int| 0 <= i < all.len() && all[i] == h;
            if i < a.len() {
                assert(a[i] == h);
            } else {
                assert(b[i - a.len()] == h);
            }
        }
    }
}

/// A line is aimed at exactly the cells in the six directions that are in range, one
/// cell away where there is no range, and to which the board goes on.
pub proof fn law_line_targets(from: Hex, max_range: u32, board: Board, h: Hex)
    ensures
        line_cells(from, max_range, board, 6).contains(h) <==> is_in_line(
            from,
            if max_range == 0 {
                1
            } else {
                max_range as int
            },
            board,
            h,
        ),
{
    let range = line_range(max_range);
    lines_reach(from, max_range, board, 6, h);
    if line_cells(from, max_range, board, 6).contains(h) {
        let dir = choose|dir: int|
            0 <= dir < 6 && (#[trigger] ray(
                from,
                steps()[dir],
                1,
                line_range(max_range),
                board,
            )).contains(h);
        ray_reaches(from, steps()[dir], 1, range, board, h);
        let k = choose|k: int|
            1 <= k <= range && h == #[trigger] stepped(from, steps()[dir], k) && forall|j: int|
                1 <= j <= k ==> board.contains(#[trigger] stepped(from, steps()[dir], j));
        assert(is_clear_to(from, steps()[dir], k, board));
        assert(h == stepped(from, steps()[dir], k));
    }
    if is_in_line(from, range as int, board, h) {
        let (dir, d) = choose|dir: int, d: int|
            0 <= dir < 6 && 1 <= d <= range && h == #[trigger] stepped(from, steps()[dir], d)
                && is_clear_to(from, steps()[dir], d, board);
        ray_reaches(from, steps()[dir], 1, range, board, h);
        assert(h == stepped(from, steps()[dir], d));
        assert(ray(from, steps()[dir], 1, line_range(max_range), board).contains(h));
    }
}

/// An ability without an area is aimed at single targets, a circle at circles and a line
/// at lines.
pub proof fn law_aim_by_shape(
    def: AbilityDef,
    from: Hex,
    enemies: Seq<Hex>,
    allies: Seq<Hex>,
    board: Board,
)
    ensures
        ({
            let aims = target_cells(def, from, enemies, allies, board);
            &&& def.aoe is Single ==> aims == single_cells(
                from,
                def.range.max,
                def.target_type,
                enemies,
                allies,
            )
            &&& def.aoe is Circle ==> aims == listing(
                circle_set(from, def.range.max, def.aoe->radius, enemies),
            )
            &&& def.aoe is Line ==> aims == line_cells(from, def.range.max, board, 6)
        }),
{
}

} // verus!
