//! The mathematical model of a universe: its dimensions and its cells in
//! row-major order, with the rule of the game stated over them.

use vstd::arithmetic::div_mod::{
    lemma_fundamental_div_mod_converse, lemma_mod_add_multiples_vanish,
    lemma_mod_sub_multiples_vanish,
};
use vstd::prelude::*;

verus! {

/// A grid of `width * height` cells; the cell at `(row, col)` is
/// `cells[row * width + col]`, `true` when it is alive.
pub struct Grid {
    pub width: nat,
    pub height: nat,
    pub cells: Seq<bool>,
}

/// The rule of the game: an alive cell stays alive with two or three alive
/// neighbours, a dead one comes alive with exactly three.
pub open spec fn next_state(alive: bool, live_neighbors: int) -> bool {
    if alive {
        live_neighbors == 2 || live_neighbors == 3
    } else {
        live_neighbors == 3
    }
}

impl Grid {
    /// The cell storage matches the dimensions.
    pub open spec fn wf(self) -> bool {
        self.cells.len() == self.width * self.height
    }

    /// A grid of the given dimensions with every cell dead.
    pub open spec fn dead(width: nat, height: nat) -> Grid {
        Grid { width, height, cells: Seq::new(width * height, |i: int| false) }
    }

    /// Position of `(row, col)` in `cells`.
    pub open spec fn index(self, row: int, col: int) -> int {
        row * self.width + col
    }

    pub open spec fn alive(self, row: int, col: int) -> bool {
        self.cells[self.index(row, col)]
    }

    /// 1 when the cell at `(row, col)`, taken around both edges, is alive.
    pub open spec fn alive_wrapped(self, row: int, col: int) -> int {
        if self.alive(row % (self.height as int), col % (self.width as int)) {
            1
        } else {
            0
        }
    }

    /// How many of the eight cells around `(row, col)` are alive, the grid
    /// wrapping around at its edges.
    pub open spec fn live_neighbors(self, row: int, col: int) -> int {
        self.alive_wrapped(row - 1, col - 1) + self.alive_wrapped(row - 1, col)
            + self.alive_wrapped(row - 1, col + 1) + self.alive_wrapped(row, col - 1)
            + self.alive_wrapped(row, col + 1) + self.alive_wrapped(row + 1, col - 1)
            + self.alive_wrapped(row + 1, col) + self.alive_wrapped(row + 1, col + 1)
    }

    /// The next generation: every cell updated at once from the current one.
    pub open spec fn next(self) -> Grid {
        Grid {
            width: self.width,
            height: self.height,
            cells: Seq::new(
                self.cells.len(),
                |i: int|
                    next_state(
                        self.cells[i],
                        self.live_neighbors(i / (self.width as int), i % (self.width as int)),
                    ),
            ),
        }
    }

    /// Whether `(row, col)` is one of `coords`.
    pub open spec fn listed(coords: Seq<(u32, u32)>, row: int, col: int) -> bool {
        exists|k: int| 0 <= k < coords.len() && coords[k].0 == row && coords[k].1 == col
    }

    /// The grid with the cells at `coords` made alive and the others as they were.
    pub open spec fn with_alive(self, coords: Seq<(u32, u32)>) -> Grid {
        Grid {
            width: self.width,
            height: self.height,
            cells: Seq::new(
                self.cells.len(),
                |i: int|
                    self.cells[i] || exists|k: int|
                        0 <= k < coords.len() && self.index(
                            coords[k].0 as int,
                            coords[k].1 as int,
                        ) == i,
            ),
        }
    }

    /// Every coordinate of `coords` lies inside the grid.
    pub open spec fn in_bounds(self, coords: Seq<(u32, u32)>) -> bool {
        forall|k: int|
            0 <= k < coords.len() ==> (#[trigger] coords[k]).0 < self.height && coords[k].1
                < self.width
    }
}

/// A cell inside the grid has an index inside `cells`, and no other cell
/// inside the grid shares it.
pub proof fn lemma_index_unique(g: Grid, row: int, col: int, row2: int, col2: int)
    requires
        g.wf(),
        0 <= row < g.height,
        0 <= col < g.width,
        0 <= row2 < g.height,
        0 <= col2 < g.width,
    ensures
        0 <= g.index(row, col) < g.cells.len(),
        g.index(row, col) / (g.width as int) == row,
        g.index(row, col) % (g.width as int) == col,
        g.index(row, col) == g.index(row2, col2) ==> row == row2 && col == col2,
{
    let w = g.width as int;
    lemma_fundamental_div_mod_converse(g.index(row, col), w, row, col);
    lemma_fundamental_div_mod_converse(g.index(row2, col2), w, row2, col2);
    assert(0 <= row * w + col < g.width * g.height) by (nonlinear_arith)
        requires
            0 <= row < g.height,
            0 <= col < w,
            w == g.width,
    ;
}

/// Moving a coordinate by one full turn lands on the same wrapped coordinate.
proof fn lemma_wrap_shift(x: int, n: int)
    requires
        n > 0,
    ensures
        (x + n) % n == x % n,
        (x - n) % n == x % n,
{
    lemma_mod_add_multiples_vanish(x, n);
    lemma_mod_sub_multiples_vanish(x, n);
}

/// The neighbour count of any cell lies in `[0, 8]`, and it does not change
/// when the row moves by the height or the column by the width: the grid
/// wraps around at its edges.
pub proof fn lemma_live_neighbors_toroidal(g: Grid, row: int, col: int)
    requires
        g.width > 0,
        g.height > 0,
    ensures
        0 <= g.live_neighbors(row, col) <= 8,
        g.live_neighbors(row + g.height, col) == g.live_neighbors(row, col),
        g.live_neighbors(row - g.height, col) == g.live_neighbors(row, col),
        g.live_neighbors(row, col + g.width) == g.live_neighbors(row, col),
        g.live_neighbors(row, col - g.width) == g.live_neighbors(row, col),
{
    let h = g.height as int;
    let w = g.width as int;
    lemma_wrap_shift(row - 1, h);
    lemma_wrap_shift(row, h);
    lemma_wrap_shift(row + 1, h);
    lemma_wrap_shift(col - 1, w);
    lemma_wrap_shift(col, w);
    lemma_wrap_shift(col + 1, w);
    assert((row + h - 1) % h == (row - 1) % h && (row + h + 1) % h == (row + 1) % h && (row + h)
        % h == row % h && (row - h - 1) % h == (row - 1) % h && (row - h + 1) % h == (row + 1) % h
        && (row - h) % h == row % h);
    assert((col + w - 1) % w == (col - 1) % w && (col + w + 1) % w == (col + 1) % w && (col + w)
        % w == col % w && (col - w - 1) % w == (col - 1) % w && (col - w + 1) % w == (col + 1) % w
        && (col - w) % w == col % w);
}

/// The next generation is a function of the grid's dimensions and content
/// alone: two grids that agree give the same next generation.
pub proof fn lemma_next_deterministic(a: Grid, b: Grid)
    requires
        a.width == b.width,
        a.height == b.height,
        a.cells == b.cells,
    ensures
        a.next() == b.next(),
{
}

/// Making the cells of `coords` alive makes exactly those cells alive and
/// leaves every other cell as it was.
pub proof fn lemma_with_alive_exact(g: Grid, coords: Seq<(u32, u32)>, row: int, col: int)
    requires
        g.wf(),
        g.in_bounds(coords),
        0 <= row < g.height,
        0 <= col < g.width,
    ensures
        g.with_alive(coords).wf(),
        g.with_alive(coords).alive(row, col) == (g.alive(row, col) || Grid::listed(
            coords,
            row,
            col,
        )),
{
    lemma_index_unique(g, row, col, row, col);
    let i = g.index(row, col);
    if exists|k: int|
        0 <= k < coords.len() && g.index(coords[k].0 as int, coords[k].1 as int) == i {
        let k = choose|k: int|
            0 <= k < coords.len() && g.index(coords[k].0 as int, coords[k].1 as int) == i;
        lemma_index_unique(g, coords[k].0 as int, coords[k].1 as int, row, col);
    }
    if Grid::listed(coords, row, col) {
        let k = choose|k: int| 0 <= k < coords.len() && coords[k].0 == row && coords[k].1 == col;
        assert(g.index(coords[k].0 as int, coords[k].1 as int) == i);
    }
}

/// An alive cell with no alive neighbour is dead in the next generation.
pub proof fn lemma_lone_cell_dies(g: Grid, row: int, col: int)
    requires
        g.wf(),
        0 <= row < g.height,
        0 <= col < g.width,
        g.alive(row, col),
        g.live_neighbors(row, col) == 0,
    ensures
        !g.next().alive(row, col),
{
    lemma_index_unique(g, row, col, row, col);
}

} // verus!
