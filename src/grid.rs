//! The mathematical model of a grid: its dimensions and its cells in
//! row-major order, with the rules of one generation.
use vstd::arithmetic::div_mod::{
    lemma_fundamental_div_mod, lemma_mod_add_multiples_vanish, lemma_small_mod,
};
use vstd::prelude::*;

verus! {

/// A toroidal grid of `width` columns and `height` rows; the cell at
/// `(row, col)` is `cells[row * width + col]`.
pub ghost struct Grid {
    pub width: nat,
    pub height: nat,
    pub cells: Seq<bool>,
}

/// The number of cells of a grid with these dimensions.
pub open spec fn cell_count(width: nat, height: nat) -> nat {
    width * height
}

/// `1` for a live cell, `0` for a dead one.
pub open spec fn live_value(alive: bool) -> nat {
    if alive {
        1
    } else {
        0
    }
}

/// The transition rule: a live cell survives with two or three live
/// neighbours, a dead cell comes alive with exactly three.
pub open spec fn rule(alive: bool, live_neighbors: nat) -> bool {
    if alive {
        live_neighbors == 2 || live_neighbors == 3
    } else {
        live_neighbors == 3
    }
}

/// The cells after a resize to `size` cells: a shrink leaves them all dead;
/// a growth keeps the cells there were and adds dead ones.
pub open spec fn resized(cells: Seq<bool>, size: nat) -> Seq<bool> {
    if cells.len() > size {
        Seq::new(size, |i: int| false)
    } else {
        cells + Seq::new((size - cells.len()) as nat, |i: int| false)
    }
}

impl Grid {
    /// Positive dimensions, and one cell per position.
    pub open spec fn wf(self) -> bool {
        &&& self.width > 0
        &&& self.height > 0
        &&& self.cells.len() == cell_count(self.width, self.height)
    }

    /// The linear index of `(row, col)`, both taken modulo the dimensions.
    pub open spec fn index(self, row: int, col: int) -> int {
        (row % (self.height as int)) * self.width + col % (self.width as int)
    }

    /// Whether the cell at `(row, col)`, wrapped onto the torus, is alive.
    pub open spec fn alive(self, row: int, col: int) -> bool {
        self.cells[self.index(row, col)]
    }

    /// The number of live cells among the eight neighbours of `(row, col)`,
    /// with wraparound at every edge.
    pub open spec fn live_neighbors(self, row: int, col: int) -> nat {
        live_value(self.alive(row - 1, col - 1)) + live_value(self.alive(row - 1, col))
            + live_value(self.alive(row - 1, col + 1)) + live_value(self.alive(row, col - 1))
            + live_value(self.alive(row, col + 1)) + live_value(self.alive(row + 1, col - 1))
            + live_value(self.alive(row + 1, col)) + live_value(self.alive(row + 1, col + 1))
    }

    /// The next generation: every cell follows `rule` from the current one.
    pub open spec fn next(self) -> Grid {
        Grid {
            width: self.width,
            height: self.height,
            cells: Seq::new(
                self.cells.len(),
                |i: int|
                    rule(
                        self.cells[i],
                        self.live_neighbors(i / (self.width as int), i % (self.width as int)),
                    ),
            ),
        }
    }

    /// The grid with the cell at `(row, col)` flipped.
    pub open spec fn toggled(self, row: int, col: int) -> Grid {
        Grid {
            cells: self.cells.update(self.index(row, col), !self.alive(row, col)),
            ..self
        }
    }

    /// The grid with every cell dead.
    pub open spec fn cleared(self) -> Grid {
        Grid { cells: Seq::new(self.cells.len(), |i: int| false), ..self }
    }

    /// Whether no cell is alive.
    pub open spec fn all_dead(self) -> bool {
        forall|i: int| 0 <= i < self.cells.len() ==> !#[trigger] self.cells[i]
    }

    /// Whether some coordinate of `coords` lands on linear index `i`.
    pub open spec fn seeds(self, coords: Seq<(u32, u32)>, i: int) -> bool {
        exists|j: int|
            0 <= j < coords.len() && #[trigger] self.index(coords[j].0 as int, coords[j].1 as int)
                == i
    }

    /// The grid with every coordinate of `coords` made alive and the other
    /// cells as they were.
    pub open spec fn seeded(self, coords: Seq<(u32, u32)>) -> Grid {
        Grid {
            cells: Seq::new(self.cells.len(), |i: int| self.cells[i] || self.seeds(coords, i)),
            ..self
        }
    }
}

/// For `0 <= x < n`, the neighbours `x - 1` and `x + 1` wrap modulo `n` to
/// the other end at the edges.
pub proof fn lemma_wrap_step(x: int, n: int)
    requires
        0 <= x < n,
    ensures
        (x - 1) % n == if x == 0 { n - 1 } else { x - 1 },
        (x + 1) % n == if x == n - 1 { 0 } else { x + 1 },
        x % n == x,
{
    lemma_small_mod(x as nat, n as nat);
    if x == 0 {
        lemma_mod_add_multiples_vanish(n - 1, n);
        lemma_small_mod((n - 1) as nat, n as nat);
        assert(x - 1 + n == n - 1);
        assert((x - 1) % n == (n - 1) % n) by {
            lemma_mod_add_multiples_vanish(-1, n);
        }
    } else {
        lemma_small_mod((x - 1) as nat, n as nat);
    }
    if x == n - 1 {
        lemma_mod_add_multiples_vanish(0, n);
        lemma_small_mod(0, n as nat);
    } else {
        lemma_small_mod((x + 1) as nat, n as nat);
    }
}

/// Positions that agree modulo the dimensions name the same cell.
pub proof fn lemma_same_cell(g: Grid, row1: int, col1: int, row2: int, col2: int)
    requires
        row1 % (g.height as int) == row2 % (g.height as int),
        col1 % (g.width as int) == col2 % (g.width as int),
    ensures
        g.index(row1, col1) == g.index(row2, col2),
{
}

/// The eight neighbours of a cell inside the grid are the cells of the
/// rows `north` and `south` and the columns `west` and `east` around it,
/// which wrap to the far edge at the borders.
pub proof fn lemma_neighbors_around(
    g: Grid,
    row: int,
    col: int,
    north: int,
    south: int,
    west: int,
    east: int,
)
    requires
        g.wf(),
        0 <= row < g.height,
        0 <= col < g.width,
        north == if row == 0 { g.height - 1 } else { row - 1 },
        south == if row == g.height - 1 { 0 } else { row + 1 },
        west == if col == 0 { g.width - 1 } else { col - 1 },
        east == if col == g.width - 1 { 0 } else { col + 1 },
    ensures
        g.live_neighbors(row, col) == live_value(g.alive(north, west)) + live_value(
            g.alive(north, col),
        ) + live_value(g.alive(north, east)) + live_value(g.alive(row, west)) + live_value(
            g.alive(row, east),
        ) + live_value(g.alive(south, west)) + live_value(g.alive(south, col)) + live_value(
            g.alive(south, east),
        ),
{
    let (w, h) = (g.width as int, g.height as int);
    lemma_wrap_step(row, h);
    lemma_wrap_step(col, w);
    lemma_small_mod(north as nat, h as nat);
    lemma_small_mod(south as nat, h as nat);
    lemma_small_mod(west as nat, w as nat);
    lemma_small_mod(east as nat, w as nat);
    lemma_same_cell(g, north, west, row - 1, col - 1);
    lemma_same_cell(g, north, col, row - 1, col);
    lemma_same_cell(g, north, east, row - 1, col + 1);
    lemma_same_cell(g, row, west, row, col - 1);
    lemma_same_cell(g, row, east, row, col + 1);
    lemma_same_cell(g, south, west, row + 1, col - 1);
    lemma_same_cell(g, south, col, row + 1, col);
    lemma_same_cell(g, south, east, row + 1, col + 1);
}

/// A position inside the grid has an index inside the cells, and the index
/// of the row and column of a cell index is that index.
pub proof fn lemma_index_bounds(g: Grid, row: int, col: int)
    requires
        g.wf(),
    ensures
        0 <= g.index(row, col) < g.cells.len(),
        0 <= row < g.height && 0 <= col < g.width ==> g.index(row, col) == row * g.width + col,
{
    let (w, h) = (g.width as int, g.height as int);
    let (r, c) = (row % h, col % w);
    assert(0 <= r < h && 0 <= c < w);
    assert(0 <= r * w + c < w * h) by (nonlinear_arith)
        requires
            0 <= r < h,
            0 <= c < w,
    ;
    if 0 <= row < h && 0 <= col < w {
        lemma_small_mod(row as nat, h as nat);
        lemma_small_mod(col as nat, w as nat);
    }
}

/// Each linear index of the grid lies in the row `i / width` and the column
/// `i % width`, inside the grid.
pub proof fn lemma_decode(g: Grid, i: int)
    requires
        g.wf(),
        0 <= i < g.cells.len(),
    ensures
        0 <= i / (g.width as int) < g.height,
        0 <= i % (g.width as int) < g.width,
        g.index(i / (g.width as int), i % (g.width as int)) == i,
{
    let (w, h) = (g.width as int, g.height as int);
    lemma_fundamental_div_mod(i, w);
    let (r, c) = (i / w, i % w);
    assert(0 <= c < w);
    assert(0 <= r < h) by (nonlinear_arith)
        requires
            i == w * r + c,
            0 <= c < w,
            0 <= i < w * h,
            w > 0,
    ;
    lemma_index_bounds(g, r, c);
}

/// No cell comes alive in a grid where every cell is dead.
pub proof fn lemma_dead_grid_stays_dead(g: Grid)
    requires
        g.wf(),
        g.all_dead(),
    ensures
        g.next().all_dead(),
{
    assert forall|i: int| 0 <= i < g.next().cells.len() implies !#[trigger] g.next().cells[i] by {
        let (r, c) = (i / (g.width as int), i % (g.width as int));
        lemma_index_bounds(g, r - 1, c - 1);
        lemma_index_bounds(g, r - 1, c);
        lemma_index_bounds(g, r - 1, c + 1);
        lemma_index_bounds(g, r, c - 1);
        lemma_index_bounds(g, r, c + 1);
        lemma_index_bounds(g, r + 1, c - 1);
        lemma_index_bounds(g, r + 1, c);
        lemma_index_bounds(g, r + 1, c + 1);
        assert(g.live_neighbors(r, c) == 0);
    }
}

/// A cell without live neighbours is dead in the next generation.
pub proof fn lemma_isolated_cell_dies(g: Grid, row: int, col: int)
    requires
        g.wf(),
        0 <= row < g.height,
        0 <= col < g.width,
        g.live_neighbors(row, col) == 0,
    ensures
        !g.next().alive(row, col),
{
    lemma_index_bounds(g, row, col);
    let i = row * g.width + col;
    lemma_decode(g, i);
    lemma_fundamental_div_mod(i, g.width as int);
    let (r, c) = (i / (g.width as int), i % (g.width as int));
    assert(r == row && c == col) by (nonlinear_arith)
        requires
            i == g.width * r + c,
            i == row * g.width + col,
            0 <= c < g.width,
            0 <= col < g.width,
    ;
}

/// On a grid with a single live cell at linear index `j`, the cell at
/// `(x, y)` is alive exactly when `x` and `y` wrap onto the row and column
/// of `j`.
proof fn lemma_lone_alive(g: Grid, j: int, x: int, y: int)
    requires
        g.wf(),
        0 <= j < g.cells.len(),
        forall|i: int| 0 <= i < g.cells.len() && i != j ==> !#[trigger] g.cells[i],
        g.cells[j],
    ensures
        g.alive(x, y) == (x % (g.height as int) == j / (g.width as int) && y % (g.width as int)
            == j % (g.width as int)),
{
    let (w, h) = (g.width as int, g.height as int);
    lemma_decode(g, j);
    lemma_index_bounds(g, x, y);
    lemma_fundamental_div_mod(j, w);
    let (lr, lc) = (j / w, j % w);
    let (a, b) = (x % h, y % w);
    assert(0 <= b < w && 0 <= lc < w);
    assert((a * w + b == w * lr + lc) == (a == lr && b == lc)) by (nonlinear_arith)
        requires
            0 <= b < w,
            0 <= lc < w,
    {
        if a < lr {
            assert(a * w + w <= lr * w) by (nonlinear_arith)
                requires
                    a < lr,
                    w > 0,
            ;
        } else if a > lr {
            assert(lr * w + w <= a * w) by (nonlinear_arith)
                requires
                    a > lr,
                    w > 0,
            ;
        }
    }
}

/// `1` when `x` wraps onto `target` modulo `n`, else `0`.
pub open spec fn hit(x: int, n: int, target: int) -> int {
    if x % n == target {
        1
    } else {
        0
    }
}

/// Around a position `x` of a torus dimension of at least two, `x` itself
/// and a neighbour never wrap onto the same place.
proof fn lemma_hits_apart(x: int, n: int, target: int)
    requires
        0 <= x < n,
        n >= 2,
    ensures
        hit(x, n, target) == 1 ==> hit(x - 1, n, target) == 0 && hit(x + 1, n, target) == 0,
        hit(x, n, target) == 1 <==> x == target,
{
    lemma_wrap_step(x, n);
}

/// On a torus of at least two rows and two columns, a grid with a single
/// live cell is all dead after one generation: the live cell has no live
/// neighbour, and no dead cell sees it exactly three times.
pub proof fn lemma_lone_cell_dies(g: Grid, j: int)
    requires
        g.wf(),
        g.width >= 2,
        g.height >= 2,
        0 <= j < g.cells.len(),
        g.cells[j],
        forall|i: int| 0 <= i < g.cells.len() && i != j ==> !#[trigger] g.cells[i],
    ensures
        g.next().all_dead(),
{
    let (w, h) = (g.width as int, g.height as int);
    lemma_decode(g, j);
    let (lr, lc) = (j / w, j % w);
    assert forall|i: int| 0 <= i < g.next().cells.len() implies !#[trigger] g.next().cells[i] by {
        lemma_decode(g, i);
        let (r, c) = (i / w, i % w);
        lemma_lone_alive(g, j, r - 1, c - 1);
        lemma_lone_alive(g, j, r - 1, c);
        lemma_lone_alive(g, j, r - 1, c + 1);
        lemma_lone_alive(g, j, r, c - 1);
        lemma_lone_alive(g, j, r, c + 1);
        lemma_lone_alive(g, j, r + 1, c - 1);
        lemma_lone_alive(g, j, r + 1, c);
        lemma_lone_alive(g, j, r + 1, c + 1);
        lemma_hits_apart(r, h, lr);
        lemma_hits_apart(c, w, lc);
        let (an, a0, as_) = (hit(r - 1, h, lr), hit(r, h, lr), hit(r + 1, h, lr));
        let (bw, b0, be) = (hit(c - 1, w, lc), hit(c, w, lc), hit(c + 1, w, lc));
        assert(g.live_neighbors(r, c) == an * bw + an * b0 + an * be + a0 * bw + a0 * be + as_
            * bw + as_ * b0 + as_ * be);
        if i == j {
            assert(g.live_neighbors(r, c) == 0);
        } else {
            assert(!(a0 == 1 && b0 == 1)) by {
                lemma_fundamental_div_mod(i, w);
                lemma_fundamental_div_mod(j, w);
            }
            assert(g.live_neighbors(r, c) != 3);
        }
    }
}

/// The top-left cell counts the bottom-right cell among its neighbours.
pub proof fn lemma_corner_neighbor(g: Grid)
    requires
        g.wf(),
        g.alive(g.height - 1, g.width - 1),
    ensures
        g.live_neighbors(0, 0) >= 1,
{
    lemma_wrap_step(0, g.height as int);
    lemma_wrap_step(0, g.width as int);
    lemma_wrap_step(g.height - 1, g.height as int);
    lemma_wrap_step(g.width - 1, g.width as int);
    assert(g.index(-1, -1) == g.index(g.height - 1, g.width - 1));
}

/// Making the same coordinates alive a second time changes nothing.
pub proof fn lemma_seeding_idempotent(g: Grid, coords: Seq<(u32, u32)>)
    ensures
        g.seeded(coords).seeded(coords) == g.seeded(coords),
{
    let s = g.seeded(coords);
    assert forall|i: int| 0 <= i < s.cells.len() implies s.seeds(coords, i) == g.seeds(coords, i) by {
        if s.seeds(coords, i) {
            let j = choose|j: int|
                0 <= j < coords.len() && #[trigger] s.index(coords[j].0 as int, coords[j].1 as int)
                    == i;
            assert(g.index(coords[j].0 as int, coords[j].1 as int) == i);
        }
        if g.seeds(coords, i) {
            let j = choose|j: int|
                0 <= j < coords.len() && #[trigger] g.index(coords[j].0 as int, coords[j].1 as int)
                    == i;
            assert(s.index(coords[j].0 as int, coords[j].1 as int) == i);
        }
    }
    assert(s.seeded(coords).cells =~= s.cells);
}

/// Flipping the same cell twice restores the grid.
pub proof fn lemma_toggle_involution(g: Grid, row: int, col: int)
    requires
        g.wf(),
    ensures
        g.toggled(row, col).toggled(row, col) == g,
{
    lemma_index_bounds(g, row, col);
    assert(g.toggled(row, col).toggled(row, col).cells =~= g.cells);
}

/// A cleared grid is left as it is by a generation.
pub proof fn lemma_cleared_is_fixed_point(g: Grid)
    requires
        g.wf(),
    ensures
        g.cleared().next() == g.cleared(),
{
    let z = g.cleared();
    lemma_dead_grid_stays_dead(z);
    assert(z.next().cells =~= z.cells);
}

} // verus!
