//! The hex plane and the board on it.

use vstd::prelude::*;

verus! {

/// A cell in axial coordinates.
#[derive(Clone, Copy, PartialEq, Eq, Structural, Debug, Hash)]
pub struct Hex {
    pub x: i32,
    pub y: i32,
}

/// Largest coordinate, in absolute value, of a cell that distances, neighbours and
/// directions are computed of: three times the difference of two such coordinates
/// is the most that a direction takes, and still fits 32 bits.
pub const COORD_LIMIT: i32 = 0x1555_5555;

impl Hex {
    /// The cell at the origin.
    pub open spec fn origin() -> Hex {
        Hex { x: 0, y: 0 }
    }

    /// The cell at the origin.
    pub fn zero() -> (r: Hex)
        ensures
            r == Hex::origin(),
    {
        Hex { x: 0, y: 0 }
    }

    pub fn new(x: i32, y: i32) -> (r: Hex)
        ensures
            r == (Hex { x, y }),
    {
        Hex { x, y }
    }

    /// Whether the coordinates keep [`COORD_LIMIT`].
    pub open spec fn in_range(self) -> bool {
        &&& -COORD_LIMIT <= self.x <= COORD_LIMIT
        &&& -COORD_LIMIT <= self.y <= COORD_LIMIT
    }
}

pub open spec fn abs(i: int) -> int {
    if i < 0 {
        -i
    } else {
        i
    }
}

pub open spec fn max(a: int, b: int) -> int {
    if a < b {
        b
    } else {
        a
    }
}

/// Number of steps between two cells.
pub open spec fn distance(a: Hex, b: Hex) -> int {
    let dx = a.x - b.x;
    let dy = a.y - b.y;
    max(max(abs(dx), abs(dy)), abs(dx + dy))
}

/// Calls `hexx::Hex::unsigned_distance_to`. The claim: the result is the
/// largest of the absolute differences on the three axes, the third axis being
/// minus the sum of the other two.
#[verifier::external_body]
fn hexx_unsigned_distance(ax: i32, ay: i32, bx: i32, by: i32) -> (r: u32)
    requires
        (Hex { x: ax, y: ay }).in_range(),
        (Hex { x: bx, y: by }).in_range(),
    ensures
        r == distance(Hex { x: ax, y: ay }, Hex { x: bx, y: by }),
{
    hexx::Hex::new(ax, ay).unsigned_distance_to(hexx::Hex::new(bx, by))
}

impl Hex {
    /// Number of steps from one cell to another.
    pub fn unsigned_distance_to(self, other: Hex) -> (r: u32)
        requires
            self.in_range(),
            other.in_range(),
        ensures
            r == distance(self, other),
    {
        hexx_unsigned_distance(self.x, self.y, other.x, other.y)
    }
}

/// The six steps between neighbouring cells, in the order of hexx's edge
/// directions.
pub open spec fn steps() -> Seq<Hex> {
    seq![
        Hex { x: 1, y: 0 },
        Hex { x: 0, y: 1 },
        Hex { x: (-1) as i32, y: 1 },
        Hex { x: (-1) as i32, y: 0 },
        Hex { x: 0, y: (-1) as i32 },
        Hex { x: 1, y: (-1) as i32 },
    ]
}

/// The cell that is `n` times `step` away from `from`.
pub open spec fn stepped(from: Hex, step: Hex, n: int) -> Hex {
    Hex { x: (from.x + step.x * n) as i32, y: (from.y + step.y * n) as i32 }
}

/// The six cells next to `h`.
pub open spec fn neighbors(h: Hex) -> Seq<Hex> {
    Seq::new(6, |i: int| stepped(h, steps()[i], 1))
}

/// Calls `hexx::Hex::all_neighbors`. The claim: the result lists the sums of
/// the cell and each of hexx's six neighbour coordinates, in hexx's order.
#[verifier::external_body]
fn hexx_all_neighbors(x: i32, y: i32) -> (r: Vec<Hex>)
    requires
        (Hex { x, y }).in_range(),
    ensures
        r@ == neighbors(Hex { x, y }),
{
    let cells = hexx::Hex::new(x, y).all_neighbors();
    cells.iter().map(|h| Hex { x: h.x, y: h.y }).collect()
}

/// The six cells next to `h`.
pub fn all_neighbors(h: Hex) -> (r: Vec<Hex>)
    requires
        h.in_range(),
    ensures
        r@ == neighbors(h),
{
    hexx_all_neighbors(h.x, h.y)
}

/// The six steps between neighbouring cells.
pub fn all_steps() -> (r: Vec<Hex>)
    ensures
        r@ == steps(),
{
    let r = hexx_all_neighbors(0, 0);
    assert(r@ =~= steps());
    r
}

/// Largest radius of a circle of cells: the number of cells in a larger one does not
/// fit 32 bits.
pub const RADIUS_LIMIT: u32 = 0x93cc;

/// The cells of a circle on the column that is `x` to the right of its centre, from
/// the top.
pub open spec fn circle_column(center: Hex, radius: int, x: int) -> Seq<Hex> {
    let top = max(-radius, -x - radius);
    let bottom = -max(-radius, x - radius);
    Seq::new(
        (bottom - top + 1) as nat,
        |k: int| Hex { x: (center.x + x) as i32, y: (center.y + top + k) as i32 },
    )
}

/// The cells of a circle on its first `n` columns, from the left.
pub open spec fn circle_columns(center: Hex, radius: int, n: nat) -> Seq<Hex>
    decreases n,
{
    if n == 0 {
        Seq::empty()
    } else {
        circle_columns(center, radius, (n - 1) as nat) + circle_column(
            center,
            radius,
            n - 1 - radius,
        )
    }
}

/// The cells of a circle, column by column.
pub open spec fn circle(center: Hex, radius: u32) -> Seq<Hex> {
    circle_columns(center, radius as int, (2 * radius + 1) as nat)
}

proof fn column_is_part_of_the_circle(center: Hex, radius: u32, x: int, h: Hex)
    requires
        center.in_range(),
        radius <= RADIUS_LIMIT,
        -radius <= x <= radius,
    ensures
        circle_column(center, radius as int, x).contains(h) <==> distance(center, h) <= radius
            && h.x == center.x + x,
{
    let r = radius as int;
    let col = circle_column(center, r, x);
    let top = max(-r, -x - r);
    if col.contains(h) {
        let k = choose|k: int| 0 <= k < col.len() && col[k] == h;
        assert(h.y == center.y + top + k);
    }
    if distance(center, h) <= radius && h.x == center.x + x {
        let k = h.y - center.y - top;
        assert(0 <= k < col.len());
        assert(col[k] == h);
    }
}

proof fn columns_are_part_of_the_circle(center: Hex, radius: u32, n: nat)
    requires
        center.in_range(),
        radius <= RADIUS_LIMIT,
        n <= 2 * radius + 1,
    ensures
        circle_columns(center, radius as int, n).no_duplicates(),
        forall|h: Hex| #[trigger]
            circle_columns(center, radius as int, n).contains(h) <==> distance(center, h) <= radius
                && h.x < center.x - radius + n,
    decreases n,
{
    let r = radius as int;
    let all = circle_columns(center, r, n);
    if n > 0 {
        columns_are_part_of_the_circle(center, radius, (n - 1) as nat);
        let left = circle_columns(center, r, (n - 1) as nat);
        let x = n - 1 - r;
        let col = circle_column(center, r, x);
        assert forall|h: Hex| #[trigger] all.contains(h) <==> distance(center, h) <= radius && h.x
            < center.x - radius + n by {
            column_is_part_of_the_circle(center, radius, x, h);
            in_either(left, col, h);
            assert(left.contains(h) <==> distance(center, h) <= radius && h.x < center.x - radius
                + (n - 1));
        }
        assert forall|i: int, j: int| 0 <= i < j < all.len() implies all[i] != all[j] by {
            if j < left.len() {
                assert(left[i] != left[j]);
            } else if i < left.len() {
                assert(left.contains(left[i]));
                assert(all[j] == col[j - left.len()]);
                assert(all[j].x == center.x + x);
            } else {
                assert(all[i] == col[i - left.len()]);
                assert(all[j] == col[j - left.len()]);
            }
        }
    }
}

proof fn in_either(a: Seq<Hex>, b: Seq<Hex>, h: Hex)
    ensures
        (a + b).contains(h) <==> a.contains(h) || b.contains(h),
{
    let all = a + b;
    if all.contains(h) {
        let i = choose|i: int| 0 <= i < all.len() && all[i] == h;
        if i < a.len() {
            assert(a[i] == h);
        } else {
            assert(b[i - a.len()] == h);
        }
    }
    if a.contains(h) {
        let i = choose|i: int| 0 <= i < a.len() && a[i] == h;
        assert(all[i] == h);
    }
    if b.contains(h) {
        let i = choose|i: int| 0 <= i < b.len() && b[i] == h;
        assert(all[a.len() + i] == h);
    }
}

/// A circle holds exactly the cells whose distance from its centre is at most its
/// radius, each of them once.
pub proof fn law_circle(center: Hex, radius: u32)
    requires
        center.in_range(),
        radius <= RADIUS_LIMIT,
    ensures
        circle(center, radius).no_duplicates(),
        forall|h: Hex| #[trigger]
            circle(center, radius).contains(h) <==> distance(center, h) <= radius,
{
    columns_are_part_of_the_circle(center, radius, (2 * radius + 1) as nat);
}

/// Calls `hexx::Hex::range`. The claim: the result lists the cells that are at most
/// the radius away from the centre on each of the three axes, column by column from
/// the left, and on each column from the top.
#[verifier::external_body]
fn hexx_range(x: i32, y: i32, radius: u32) -> (r: Vec<Hex>)
    requires
        (Hex { x, y }).in_range(),
        radius <= RADIUS_LIMIT,
    ensures
        r@ == circle(Hex { x, y }, radius),
{
    hexx::Hex::new(x, y).range(radius).map(|h| Hex { x: h.x, y: h.y }).collect()
}

/// The cells at most `radius` away from `center`, each of them once, column by
/// column.
pub fn hex_circle(center: Hex, radius: u32) -> (r: Vec<Hex>)
    requires
        center.in_range(),
        radius <= RADIUS_LIMIT,
    ensures
        r@ == circle(center, radius),
        r@.no_duplicates(),
        forall|h: Hex| #[trigger] r@.contains(h) <==> distance(center, h) <= radius,
{
    proof {
        law_circle(center, radius);
    }
    hexx_range(center.x, center.y, radius)
}

/// The step from `origin` in the direction of `target`. On each of the three axes
/// the difference of the other two coordinates says how far ahead the target lies;
/// the step is along the axis with the largest, the first of equals.
pub open spec fn heading(origin: Hex, target: Hex) -> Hex {
    let dx = target.x - origin.x;
    let dy = target.y - origin.y;
    let dz = -dx - dy;
    let (a, b, c) = (dy - dx, dz - dy, dx - dz);
    if abs(a) >= abs(b) && abs(a) >= abs(c) {
        if a < 0 {
            steps()[5]
        } else {
            steps()[2]
        }
    } else if abs(b) >= abs(c) {
        if b < 0 {
            steps()[1]
        } else {
            steps()[4]
        }
    } else if c < 0 {
        steps()[3]
    } else {
        steps()[0]
    }
}

/// Calls `hexx::Hex::main_direction_to` and turns the direction into its
/// coordinates. The claim: of the three differences between the offset's cubic
/// coordinates the one of largest absolute value decides, the first of equals, and
/// its sign says which of the two opposite steps is taken.
#[verifier::external_body]
fn hexx_main_direction(ox: i32, oy: i32, tx: i32, ty: i32) -> (r: (i32, i32))
    requires
        (Hex { x: ox, y: oy }).in_range(),
        (Hex { x: tx, y: ty }).in_range(),
    ensures
        (Hex { x: r.0, y: r.1 }) == heading(Hex { x: ox, y: oy }, Hex { x: tx, y: ty }),
{
    let d = hexx::Hex::new(ox, oy).main_direction_to(hexx::Hex::new(tx, ty)).into_hex();
    (d.x, d.y)
}

/// The cells of a line: `length` cells from `target` on, away from `origin`.
pub open spec fn line(origin: Hex, target: Hex, length: nat) -> Seq<Hex> {
    Seq::new(length, |i: int| stepped(target, heading(origin, target), i))
}

/// Longest line that is drawn: its cells still fit 32 bits, wherever it begins.
pub const LENGTH_LIMIT: u32 = 0x6aaa_aaaa;

/// The cells of a line: `length` cells from `target` on, away from `origin`.
pub fn hex_line(origin: Hex, target: Hex, length: u32) -> (r: Vec<Hex>)
    requires
        origin.in_range(),
        target.in_range(),
        length <= LENGTH_LIMIT,
    ensures
        r@ == line(origin, target, length as nat),
{
    let (sx, sy) = hexx_main_direction(origin.x, origin.y, target.x, target.y);
    let ghost step = Hex { x: sx, y: sy };
    let mut r: Vec<Hex> = Vec::new();
    let mut cur = target;
    let mut i: u32 = 0;
    assert(step == heading(origin, target));
    while i < length
        invariant
            i <= length <= LENGTH_LIMIT,
            target.in_range(),
            -1 <= sx <= 1 && -1 <= sy <= 1,
            step == (Hex { x: sx, y: sy }),
            -i <= cur.x - target.x <= i,
            -i <= cur.y - target.y <= i,
            cur.x == target.x + sx * i,
            cur.y == target.y + sy * i,
            r@ == Seq::new(i as nat, |k: int| stepped(target, step, k)),
        decreases length - i,
    {
        r.push(cur);
        assert(r@ =~= Seq::new((i + 1) as nat, |k: int| stepped(target, step, k)));
        cur = Hex { x: cur.x + sx, y: cur.y + sy };
        assert(sx * i + sx == sx * (i + 1)) by (nonlinear_arith);
        assert(sy * i + sy == sy * (i + 1)) by (nonlinear_arith);
        i = i + 1;
    }
    r
}

// ---------------------------------------------------------------------------
// The board
// ---------------------------------------------------------------------------

/// Largest number of rows, and of cells in a row: the cells then keep
/// [`COORD_LIMIT`].
pub const BOARD_LIMIT: u32 = 0x1555_5555;

/// A board of rows, each with its own number of cells. Odd rows are shifted to
/// the right by half a cell.
#[derive(Debug)]
pub struct Board {
    pub row_cols: Vec<u32>,
}

/// The cell in column `col` of row `row`.
pub open spec fn from_offset(col: int, row: int) -> Hex {
    Hex { x: (col - row / 2) as i32, y: row as i32 }
}

/// The column of a cell in its row.
pub open spec fn column(h: Hex) -> int {
    h.x + h.y as int / 2
}

/// The cell in column `col` of row `row`.
pub fn hex_from_offset(col: i32, row: i32) -> (r: Hex)
    requires
        -COORD_LIMIT <= col <= COORD_LIMIT,
        -COORD_LIMIT <= row <= COORD_LIMIT,
    ensures
        r == from_offset(col as int, row as int),
        column(r) == col,
{
    Hex { x: col - half(row), y: row }
}

/// Column and row of a cell.
pub fn hex_to_offset(h: Hex) -> (r: (i32, i32))
    requires
        h.in_range(),
    ensures
        r.0 == column(h),
        r.1 == h.y,
{
    (h.x + half(h.y), h.y)
}

/// The column of a cell in its row, wherever the cell lies.
pub fn column_of(h: Hex) -> (r: i64)
    ensures
        r == column(h),
{
    let y: i64 = h.y as i64;
    let half: i64 = if y >= 0 {
        y / 2
    } else {
        -((1 - y) / 2)
    };
    h.x as i64 + half
}

/// Half of a number, rounded down.
fn half(i: i32) -> (r: i32)
    requires
        -COORD_LIMIT <= i <= COORD_LIMIT,
    ensures
        r == i as int / 2,
{
    if i >= 0 {
        i / 2
    } else {
        -((1 - i) / 2)
    }
}

impl Board {
    /// Whether rows and columns keep [`BOARD_LIMIT`].
    pub open spec fn wf(&self) -> bool {
        &&& self.row_cols@.len() <= BOARD_LIMIT
        &&& forall|r: int| 0 <= r < self.row_cols@.len() ==> #[trigger] self.row_cols@[r]
            <= BOARD_LIMIT
    }

    /// Whether a cell is on the board.
    pub open spec fn contains(&self, h: Hex) -> bool {
        0 <= h.y < self.row_cols@.len() && 0 <= column(h) < self.row_cols@[h.y as int]
    }

    /// Whether a cell is on the board.
    pub fn in_bounds(&self, h: Hex) -> (r: bool)
        requires
            self.wf(),
        ensures
            r == self.contains(h),
    {
        if h.y < 0 || h.y as usize >= self.row_cols.len() {
            return false;
        }
        let col: i64 = h.x as i64 + (h.y / 2) as i64;
        0 <= col && col < self.row_cols[h.y as usize] as i64
    }
}

/// The cells of one row, from left to right.
pub open spec fn row_cells(row: int, cols: nat) -> Seq<Hex> {
    Seq::new(cols, |q: int| from_offset(q, row))
}

/// The cells of all rows, row by row.
pub open spec fn cells(row_cols: Seq<u32>) -> Seq<Hex>
    decreases row_cols.len(),
{
    if row_cols.len() == 0 {
        Seq::empty()
    } else {
        cells(row_cols.drop_last()) + row_cells(row_cols.len() - 1, row_cols.last() as nat)
    }
}

/// The number of cells of all rows.
pub open spec fn cell_count(row_cols: Seq<u32>) -> nat
    decreases row_cols.len(),
{
    if row_cols.len() == 0 {
        0
    } else {
        cell_count(row_cols.drop_last()) + row_cols.last() as nat
    }
}

/// All cells of the board, row by row.
pub fn all_cells(board: &Board) -> (r: Vec<Hex>)
    requires
        board.wf(),
    ensures
        r@ == cells(board.row_cols@),
{
    let mut r: Vec<Hex> = Vec::new();
    let mut row: usize = 0;
    assert(board.row_cols@.take(0) =~= Seq::empty());
    while row < board.row_cols.len()
        invariant
            board.wf(),
            row <= board.row_cols.len(),
            r@ == cells(board.row_cols@.take(row as int)),
        decreases board.row_cols.len() - row,
    {
        let cols: u32 = board.row_cols[row];
        let ghost before = r@;
        let mut q: u32 = 0;
        assert(board.row_cols@[row as int] <= BOARD_LIMIT);
        while q < cols
            invariant
                q <= cols <= BOARD_LIMIT,
                row < BOARD_LIMIT,
                r@ == before + row_cells(row as int, q as nat),
            decreases cols - q,
        {
            r.push(hex_from_offset(q as i32, row as i32));
            assert(r@ =~= before + row_cells(row as int, (q + 1) as nat));
            q = q + 1;
        }
        assert(board.row_cols@.take(row + 1).drop_last() =~= board.row_cols@.take(row as int));
        row = row + 1;
        assert(r@ =~= cells(board.row_cols@.take(row as int)));
    }
    assert(board.row_cols@.take(row as int) =~= board.row_cols@);
    r
}

/// The list of all cells holds exactly the cells on the board, each of them
/// once, and as many as the rows have columns.
pub proof fn law_all_cells_are_the_board(board: Board)
    requires
        board.wf(),
    ensures
        cells(board.row_cols@).len() == cell_count(board.row_cols@),
        cells(board.row_cols@).no_duplicates(),
        forall|h: Hex| #[trigger] cells(board.row_cols@).contains(h) <==> board.contains(h),
{
    cells_properties(board.row_cols@);
}

proof fn cells_properties(rows: Seq<u32>)
    requires
        rows.len() <= BOARD_LIMIT,
        forall|r: int| 0 <= r < rows.len() ==> #[trigger] rows[r] <= BOARD_LIMIT,
    ensures
        cells(rows).len() == cell_count(rows),
        cells(rows).no_duplicates(),
        forall|h: Hex| #[trigger]
            cells(rows).contains(h) <==> 0 <= h.y < rows.len() && 0 <= column(h) < rows[h.y as int],
    decreases rows.len(),
{
    if rows.len() > 0 {
        let less = rows.drop_last();
        assert forall|r: int| 0 <= r < less.len() implies #[trigger] less[r] <= BOARD_LIMIT by {
            assert(less[r] == rows[r]);
        }
        cells_properties(less);
        let y = rows.len() - 1;
        let n = rows.last();
        assert(rows[y] <= BOARD_LIMIT);
        let a = cells(less);
        let b = row_cells(y, n as nat);
        let all = a + b;
        assert forall|q: int| 0 <= q < n implies (#[trigger] b[q]).y == y && column(b[q]) == q by {
        }
        assert forall|h: Hex| #[trigger] all.contains(h) <==> 0 <= h.y < rows.len() && 0 <= column(
            h,
        ) < rows[h.y as int] by {
            if all.contains(h) {
                let i = choose|i: int| 0 <= i < all.len() && all[i] == h;
                if i < a.len() {
                    assert(a[i] == h);
                    assert(a.contains(h));
                    assert(less[h.y as int] == rows[h.y as int]);
                } else {
                    assert(b[i - a.len()] == h);
                }
            }
            if 0 <= h.y < rows.len() && 0 <= column(h) < rows[h.y as int] {
                if h.y < less.len() {
                    assert(less[h.y as int] == rows[h.y as int]);
                    assert(a.contains(h));
                    let i = choose|i: int| 0 <= i < a.len() && a[i] == h;
                    assert(all[i] == h);
                } else {
                    let q = column(h);
                    assert(b[q] == h);
                    assert(all[a.len() + q] == h);
                }
            }
        }
        assert forall|i: int, j: int|
            0 <= i < j < all.len() implies all[i] != all[j] by {
            if j < a.len() {
                assert(a[i] != a[j]);
            } else if i < a.len() {
                assert(a.contains(a[i]));
                assert(all[j] == b[j - a.len()]);
            } else {
                assert(column(b[i - a.len()]) == i - a.len());
                assert(column(b[j - a.len()]) == j - a.len());
            }
        }
        assert(all.no_duplicates());
    }
}

/// Column and row lead back to the cell, and the cell to column and row.
pub proof fn law_offset_round_trip(h: Hex, col: i32, row: i32)
    requires
        -COORD_LIMIT <= col <= COORD_LIMIT,
        -COORD_LIMIT <= row <= COORD_LIMIT,
    ensures
        from_offset(column(h), h.y as int) == h,
        column(from_offset(col as int, row as int)) == col,
        from_offset(col as int, row as int).y == row,
{
}

/// Distance is symmetric, zero only between equal cells, and one exactly
/// between neighbours.
pub proof fn law_distance(a: Hex, b: Hex)
    requires
        a.in_range(),
        b.in_range(),
    ensures
        distance(a, b) == distance(b, a),
        distance(a, b) >= 0,
        distance(a, b) == 0 <==> a == b,
        distance(a, b) == 1 <==> neighbors(a).contains(b),
{
    if distance(a, b) == 1 {
        let dx = b.x - a.x;
        let dy = b.y - a.y;
        let i: int = if dx == 1 && dy == 0 {
            0
        } else if dx == 0 && dy == 1 {
            1
        } else if dx == -1 && dy == 1 {
            2
        } else if dx == -1 && dy == 0 {
            3
        } else if dx == 0 && dy == -1 {
            4
        } else {
            5
        };
        assert(neighbors(a)[i] == b);
    }
    if neighbors(a).contains(b) {
        let i = choose|i: int| 0 <= i < neighbors(a).len() && neighbors(a)[i] == b;
        assert(i == 0 || i == 1 || i == 2 || i == 3 || i == 4 || i == 5);
    }
}

/// Going by way of a third cell is never shorter.
pub proof fn law_distance_triangle(a: Hex, b: Hex, c: Hex)
    ensures
        distance(a, c) <= distance(a, b) + distance(b, c),
{
}

/// A direction is one of the six steps, and towards a target that lies straight
/// ahead along a step it is that step.
pub proof fn law_heading(origin: Hex, target: Hex, i: int, n: int)
    requires
        0 <= i < 6,
    ensures
        steps().contains(heading(origin, target)),
        n >= 1 && target.x == origin.x + n * steps()[i].x && target.y == origin.y + n
            * steps()[i].y ==> heading(origin, target) == steps()[i],
{
    let s = steps();
    assert(s[0] == s[0] && s.contains(s[0]) && s.contains(s[1]) && s.contains(s[2])
        && s.contains(s[3]) && s.contains(s[4]) && s.contains(s[5]));
    assert(i == 0 || i == 1 || i == 2 || i == 3 || i == 4 || i == 5);
    assert(n * 1 == n && n * 0 == 0 && n * (-1) == -n) by (nonlinear_arith);
}

/// Going `n` times in one direction leads `n` cells away.
pub proof fn law_step_takes_one(from: Hex, step: Hex, n: int)
    requires
        from.in_range(),
        steps().contains(step),
        0 <= n <= LENGTH_LIMIT,
    ensures
        distance(from, stepped(from, step, n)) == n,
{
    let i = choose|i: int| 0 <= i < 6 && steps()[i] == step;
    assert(step.x * n == n || step.x * n == 0 || step.x * n == -n) by (nonlinear_arith)
        requires
            step.x == 1 || step.x == 0 || step.x == -1,
    ;
    assert(step.y * n == n || step.y * n == 0 || step.y * n == -n) by (nonlinear_arith)
        requires
            step.y == 1 || step.y == 0 || step.y == -1,
    ;
    assert(step.x == 1 ==> step.x * n == n) by (nonlinear_arith);
    assert(step.x == 0 ==> step.x * n == 0) by (nonlinear_arith);
    assert(step.x == -1 ==> step.x * n == -n) by (nonlinear_arith);
    assert(step.y == 1 ==> step.y * n == n) by (nonlinear_arith);
    assert(step.y == 0 ==> step.y * n == 0) by (nonlinear_arith);
    assert(step.y == -1 ==> step.y * n == -n) by (nonlinear_arith);
}

/// The six steps lead to six different cells next to where they start, each with an
/// opposite three places on.
pub proof fn law_steps_go_round(i: int, j: int)
    requires
        0 <= i < j < 6,
    ensures
        steps().len() == 6,
        steps()[i] != steps()[j],
        distance(Hex::origin(), steps()[i]) == 1,
        j == i + 1 ==> distance(steps()[i], steps()[j]) == 1,
        j == i + 3 ==> steps()[i].x + steps()[j].x == 0 && steps()[i].y + steps()[j].y == 0,
{
}

/// How far a way leads along a step.
pub open spec fn along(dx: int, dy: int, step: Hex) -> int {
    dx * step.x + dy * step.y + (dx + dy) * (step.x + step.y)
}

proof fn along_counts(dx: int, dy: int, step: Hex)
    requires
        -1 <= step.x <= 1,
        -1 <= step.y <= 1,
    ensures
        along(dx, dy, step) == times(2 * dx + dy, step.x as int) + times(
            dx + 2 * dy,
            step.y as int,
        ),
{
    let (x, y) = (step.x as int, step.y as int);
    assert(dx * x + dy * y + (dx + dy) * (x + y) == (2 * dx + dy) * x + (dx + 2 * dy) * y)
        by (nonlinear_arith);
    assert(x == 0 ==> (2 * dx + dy) * x == 0) by (nonlinear_arith);
    assert(x == 1 ==> (2 * dx + dy) * x == 2 * dx + dy) by (nonlinear_arith);
    assert(x == -1 ==> (2 * dx + dy) * x == -(2 * dx + dy)) by (nonlinear_arith);
    assert(y == 0 ==> (dx + 2 * dy) * y == 0) by (nonlinear_arith);
    assert(y == 1 ==> (dx + 2 * dy) * y == dx + 2 * dy) by (nonlinear_arith);
    assert(y == -1 ==> (dx + 2 * dy) * y == -(dx + 2 * dy)) by (nonlinear_arith);
}

/// A number, its opposite or nothing, by a sign.
pub open spec fn times(n: int, sign: int) -> int {
    if sign > 0 {
        n
    } else if sign < 0 {
        -n
    } else {
        0
    }
}

/// The heading is the step along which the way to the target leads farthest.
pub proof fn law_heading_leads_farthest(origin: Hex, target: Hex, i: int)
    requires
        0 <= i < 6,
    ensures
        ({
            let (dx, dy) = (target.x - origin.x, target.y - origin.y);
            along(dx, dy, heading(origin, target)) >= along(dx, dy, steps()[i])
        }),
{
    let (dx, dy) = (target.x - origin.x, target.y - origin.y);
    along_counts(dx, dy, steps()[0]);
    along_counts(dx, dy, steps()[1]);
    along_counts(dx, dy, steps()[2]);
    along_counts(dx, dy, steps()[3]);
    along_counts(dx, dy, steps()[4]);
    along_counts(dx, dy, steps()[5]);
}

/// A line goes on from the target in the direction in which it came.
pub proof fn law_line_goes_on(origin: Hex, target: Hex, length: nat, i: int, n: int)
    requires
        origin.in_range(),
        0 <= i < 6,
        1 <= n <= COORD_LIMIT,
        target.x == origin.x + n * steps()[i].x,
        target.y == origin.y + n * steps()[i].y,
    ensures
        line(origin, target, length).len() == length,
        forall|k: int|
            0 <= k < length ==> #[trigger] line(origin, target, length)[k] == stepped(
                target,
                steps()[i],
                k,
            ),
{
    law_heading(origin, target, i, n);
}

/// A cell is on the board if and only if its row is one of the board's rows and its
/// place in the row is one of that row's places.
pub proof fn law_cells_by_row(board: Board, row: int, col: int)
    requires
        board.wf(),
        -COORD_LIMIT <= row <= COORD_LIMIT,
        -COORD_LIMIT <= col <= COORD_LIMIT,
    ensures
        board.contains(from_offset(col, row)) <==> 0 <= row < board.row_cols@.len() && 0 <= col
            < board.row_cols@[row],
{
    law_offset_round_trip(from_offset(col, row), col as i32, row as i32);
}

/// The next cell of a row is one step to the right; every second row begins one step
/// further to the left.
pub proof fn law_rows_are_staggered(col: int, row: int)
    requires
        -COORD_LIMIT <= col < COORD_LIMIT,
        -COORD_LIMIT <= row < COORD_LIMIT - 1,
    ensures
        from_offset(0, 0) == Hex::origin(),
        from_offset(col + 1, row).x == from_offset(col, row).x + 1,
        from_offset(col + 1, row).y == from_offset(col, row).y,
        from_offset(col, row + 2).x == from_offset(col, row).x - 1,
        from_offset(col, row + 2).y == from_offset(col, row).y + 2,
        row % 2 == 0 ==> from_offset(col, row + 1).x == from_offset(col, row).x,
{
}

} // verus!
