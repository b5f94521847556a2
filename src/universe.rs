//! The simulation engine: a toroidal grid of cells stored one bit each.

use fixedbitset::FixedBitSet;
use vstd::prelude::*;

use crate::bitset::{bits_of, get_bit, new_clear, set_bit};
use crate::grid::{lemma_index_unique, lemma_live_neighbors_toroidal, next_state, Grid};
use vstd::arithmetic::mul::lemma_mul_is_commutative;
use vstd::arithmetic::div_mod::{lemma_mod_add_multiples_vanish, lemma_small_mod};

verus! {

/// Width of a newly created universe.
pub const DEFAULT_WIDTH: u32 = 64;

/// Height of a newly created universe.
pub const DEFAULT_HEIGHT: u32 = 64;

/// The state of one cell.
#[derive(Clone, Copy, Debug, PartialEq, Eq, Structural)]
pub enum Cell {
    Dead,
    Alive,
}

/// A grid of `width * height` cells, row-major, the cell at `(row, col)`
/// being bit `row * width + col` of `cells`.
pub struct Universe {
    width: u32,
    height: u32,
    cells: FixedBitSet,
}

impl View for Universe {
    type V = Grid;

    closed spec fn view(&self) -> Grid {
        Grid { width: self.width as nat, height: self.height as nat, cells: bits_of(self.cells) }
    }
}

impl Universe {
    /// The storage holds one bit per cell, and every index fits in a `u32`.
    pub open spec fn wf(&self) -> bool {
        &&& self@.wf()
        &&& self@.width * self@.height <= u32::MAX
    }

    fn get_index(&self, row: u32, column: u32) -> (r: usize)
        requires
            self.wf(),
            row < self@.height,
            column < self@.width,
        ensures
            r == self@.index(row as int, column as int),
            r < self@.cells.len(),
    {
        proof {
            lemma_index_unique(self@, row as int, column as int, row as int, column as int);
        }
        (row * self.width + column) as usize
    }

    /// 1 when the cell at `(row, column)` is alive, else 0.
    fn cell_value(&self, row: u32, column: u32) -> (r: u8)
        requires
            self.wf(),
            row < self@.height,
            column < self@.width,
        ensures
            r == (if self@.alive(row as int, column as int) { 1int } else { 0int }),
    {
        let idx = self.get_index(row, column);
        if get_bit(&self.cells, idx) {
            1
        } else {
            0
        }
    }

    /// The number of alive cells among the eight around `(row, column)`,
    /// wrapping around the grid's edges.
    pub fn live_neighbor_count(&self, row: u32, column: u32) -> (r: u8)
        requires
            self.wf(),
            row < self@.height,
            column < self@.width,
        ensures
            r == self@.live_neighbors(row as int, column as int),
            r <= 8,
    {
        let h = self.height as u64;
        let w = self.width as u64;
        let north = ((row as u64 + (h - 1)) % h) as u32;
        let south = ((row as u64 + 1) % h) as u32;
        let west = ((column as u64 + (w - 1)) % w) as u32;
        let east = ((column as u64 + 1) % w) as u32;
        proof {
            let (r, c, hi, wi) = (row as int, column as int, h as int, w as int);
            lemma_mod_add_multiples_vanish(r - 1, hi);
            lemma_mod_add_multiples_vanish(c - 1, wi);
            assert(north == (r - 1) % hi);
            assert(west == (c - 1) % wi);
            lemma_small_mod(r as nat, hi as nat);
            lemma_small_mod(c as nat, wi as nat);
            lemma_live_neighbors_toroidal(self@, row as int, column as int);
        }
        self.cell_value(north, west) + self.cell_value(north, column) + self.cell_value(
            north,
            east,
        ) + self.cell_value(row, west) + self.cell_value(row, east) + self.cell_value(south, west)
            + self.cell_value(south, column) + self.cell_value(south, east)
    }

    /// Replaces the cells by a grid of the current dimensions, all dead.
    fn reset_to_dead(&mut self)
        requires
            old(self)@.width * old(self)@.height <= u32::MAX,
        ensures
            final(self)@ == Grid::dead(old(self)@.width, old(self)@.height),
            final(self).wf(),
    {
        proof {
            lemma_mul_is_commutative(self.height as int, self.width as int);
        }
        let size = (self.height * self.width) as usize;
        let mut next = new_clear(size);
        let mut i: usize = 0;
        while i < size
            invariant
                size == self@.width * self@.height,
                bits_of(next) == Seq::new(size as nat, |j: int| false),
            decreases size - i,
        {
            set_bit(&mut next, i, false);
            i += 1;
        }
        self.cells = next;
        proof {
            assert(self@.cells =~= Grid::dead(self@.width, self@.height).cells);
        }
    }

    /// Advances the universe by one generation: every cell takes its next
    /// state from the current generation at once.
    pub fn tick(&mut self)
        requires
            old(self).wf(),
        ensures
            final(self).wf(),
            final(self)@ == old(self)@.next(),
            forall|row: int, col: int|
                0 <= row < old(self)@.height && 0 <= col < old(self)@.width ==> #[trigger] final(self)@.alive(row, col)
                    == next_state(
                    old(self)@.alive(row, col),
                    old(self)@.live_neighbors(row, col),
                ),
    {
        let w = self.width;
        let h = self.height;
        proof {
            lemma_mul_is_commutative(h as int, w as int);
        }
        let size = (h * w) as usize;
        let mut next = new_clear(size);
        let ghost target = self@.next().cells;
        let mut row: u32 = 0;
        while row < h
            invariant
                self.wf(),
                self@ == old(self)@,
                w == self@.width,
                h == self@.height,
                size == self@.cells.len(),
                target == self@.next().cells,
                row <= h,
                bits_of(next).len() == size,
                forall|i: int| 0 <= i < row * w ==> bits_of(next)[i] == target[i],
            decreases h - row,
        {
            let mut col: u32 = 0;
            while col < w
                invariant
                    self.wf(),
                    self@ == old(self)@,
                    w == self@.width,
                    h == self@.height,
                    size == self@.cells.len(),
                    target == self@.next().cells,
                    row < h,
                    col <= w,
                    bits_of(next).len() == size,
                    forall|i: int| 0 <= i < row * w + col ==> bits_of(next)[i] == target[i],
                decreases w - col,
            {
                let idx = self.get_index(row, col);
                let cell = get_bit(&self.cells, idx);
                let live_neighbor = self.live_neighbor_count(row, col);
                let state = match (cell, live_neighbor) {
                    (true, x) if x < 2 => false,
                    (true, 2) | (true, 3) => true,
                    (true, x) if x > 3 => false,
                    (false, 3) => true,
                    (otherwise, _) => otherwise,
                };
                proof {
                    lemma_index_unique(self@, row as int, col as int, row as int, col as int);
                    assert(state == target[idx as int]);
                }
                set_bit(&mut next, idx, state);
                col += 1;
            }
            proof {
                assert(row * w + w == (row + 1) * w) by (nonlinear_arith);
            }
            row += 1;
        }
        self.cells = next;
        proof {
            assert(h * w == row * w);
            assert(self@.cells =~= old(self)@.next().cells);
            assert forall|row: int, col: int|
                0 <= row < h && 0 <= col < w implies #[trigger] self@.alive(row, col) == next_state(
                old(self)@.alive(row, col),
                old(self)@.live_neighbors(row, col),
            ) by {
                lemma_index_unique(old(self)@, row, col, row, col);
            }
        }
    }

    /// A universe of `DEFAULT_WIDTH` by `DEFAULT_HEIGHT` cells whose cell `i`,
    /// in row-major order, is alive when `alive[i]` is.
    pub fn new(alive: &[bool]) -> (r: Universe)
        requires
            alive@.len() == DEFAULT_WIDTH * DEFAULT_HEIGHT,
        ensures
            r.wf(),
            r@.width == DEFAULT_WIDTH,
            r@.height == DEFAULT_HEIGHT,
            r@.cells == alive@,
    {
        let width = DEFAULT_WIDTH;
        let height = DEFAULT_HEIGHT;
        let size = (width * height) as usize;
        let mut cells = new_clear(size);
        let mut i: usize = 0;
        while i < size
            invariant
                size == alive@.len(),
                i <= size,
                bits_of(cells).len() == size,
                forall|j: int| 0 <= j < i ==> bits_of(cells)[j] == alive@[j],
            decreases size - i,
        {
            set_bit(&mut cells, i, alive[i]);
            i += 1;
        }
        proof {
            assert(bits_of(cells) =~= alive@);
        }
        Universe { width, height, cells }
    }

    pub fn width(&self) -> (r: u32)
        ensures
            r == self@.width,
    {
        self.width
    }

    pub fn height(&self) -> (r: u32)
        ensures
            r == self@.height,
    {
        self.height
    }

    /// Sets the width and makes every cell dead.
    pub fn set_width(&mut self, width: u32)
        requires
            width * old(self)@.height <= u32::MAX,
        ensures
            final(self).wf(),
            final(self)@ == Grid::dead(width as nat, old(self)@.height),
            forall|row: int, col: int|
                0 <= row < final(self)@.height && 0 <= col < width ==> !#[trigger] final(self)@.alive(row, col),
    {
        self.width = width;
        self.reset_to_dead();
        proof {
            assert forall|row: int, col: int|
                0 <= row < self@.height && 0 <= col < width implies !#[trigger] self@.alive(
                row,
                col,
            ) by {
                lemma_index_unique(self@, row, col, row, col);
            }
        }
    }

    /// Sets the height and makes every cell dead.
    pub fn set_height(&mut self, height: u32)
        requires
            old(self)@.width * height <= u32::MAX,
        ensures
            final(self).wf(),
            final(self)@ == Grid::dead(old(self)@.width, height as nat),
            forall|row: int, col: int|
                0 <= row < height && 0 <= col < final(self)@.width ==> !#[trigger] final(self)@.alive(row, col),
    {
        self.height = height;
        self.reset_to_dead();
        proof {
            assert forall|row: int, col: int|
                0 <= row < height && 0 <= col < self@.width implies !#[trigger] self@.alive(
                row,
                col,
            ) by {
                lemma_index_unique(self@, row, col, row, col);
            }
        }
    }

    /// The bit storage of the cells, bit `row * width + col` for `(row, col)`.
    pub fn get_cells(&self) -> (r: &FixedBitSet)
        ensures
            bits_of(*r) == self@.cells,
    {
        &self.cells
    }

    /// Makes the cells at the given `(row, col)` coordinates alive and leaves
    /// the others as they were.
    pub fn set_cells(&mut self, cells: &[(u32, u32)])
        requires
            old(self).wf(),
            old(self)@.in_bounds(cells@),
        ensures
            final(self).wf(),
            final(self)@ == old(self)@.with_alive(cells@),
    {
        let mut n: usize = 0;
        proof {
            assert(old(self)@.with_alive(cells@.take(0)).cells =~= old(self)@.cells);
        }
        while n < cells.len()
            invariant
                self.wf(),
                self@.width == old(self)@.width,
                self@.height == old(self)@.height,
                old(self)@.in_bounds(cells@),
                n <= cells@.len(),
                self@ == old(self)@.with_alive(cells@.take(n as int)),
            decreases cells.len() - n,
        {
            let (row, col) = cells[n];
            let idx = self.get_index(row, col);
            set_bit(&mut self.cells, idx, true);
            proof {
                let g = old(self)@;
                let pre = cells@.take(n as int);
                let post = cells@.take(n + 1);
                let after = g.with_alive(post);
                assert forall|i: int| 0 <= i < after.cells.len() implies after.cells[i]
                    == self@.cells[i] by {
                    if i == idx {
                        assert(post[n as int] == cells@[n as int]);
                    } else {
                        if exists|k: int|
                            0 <= k < post.len() && g.index(
                                (#[trigger] post[k]).0 as int,
                                post[k].1 as int,
                            ) == i {
                            let k = choose|k: int|
                                0 <= k < post.len() && g.index(
                                    (#[trigger] post[k]).0 as int,
                                    post[k].1 as int,
                                ) == i;
                            assert(k != n);
                            assert(pre[k] == post[k]);
                        }
                        if exists|k: int|
                            0 <= k < pre.len() && g.index(
                                (#[trigger] pre[k]).0 as int,
                                pre[k].1 as int,
                            ) == i {
                            let k = choose|k: int|
                                0 <= k < pre.len() && g.index(
                                    (#[trigger] pre[k]).0 as int,
                                    pre[k].1 as int,
                                ) == i;
                            assert(pre[k] == post[k]);
                        }
                    }
                }
                assert(self@.cells =~= after.cells);
            }
            n += 1;
        }
        proof {
            assert(cells@.take(cells@.len() as int) =~= cells@);
        }
    }
}

} // verus!
