//! The grid engine: a double-buffered, bit-packed toroidal grid.
use crate::bitset::{all_clear, bits_of, block_bit, tail_clear};
use crate::grid::{
    cell_count, lemma_decode, lemma_index_bounds, lemma_neighbors_around, live_value, resized, rule,
    Grid,
};
use fixedbitset::FixedBitSet;
use vstd::prelude::*;

verus! {

/// The state of a Game of Life simulation: the current generation in
/// `cells`, and a buffer of the same length in which `tick` builds the next.
pub struct Universe {
    width: u32,
    height: u32,
    cells: FixedBitSet,
    next_cells: FixedBitSet,
}

/// Width and height of a universe made by `Universe::new`.
pub const DEFAULT_SIZE: u32 = 128;

/// Why a universe could not be built.
#[derive(Debug, Clone, Copy, PartialEq, Eq, Structural)]
pub enum GridError {
    /// `width * height` does not fit in a `u32`.
    SizeOverflow,
}

impl View for Universe {
    type V = Grid;

    closed spec fn view(&self) -> Grid {
        Grid { width: self.width as nat, height: self.height as nat, cells: bits_of(self.cells) }
    }
}

impl Universe {
    /// The staging buffer has as many bits as the current generation, and
    /// neither holds an enabled bit past its length.
    pub closed spec fn buffers_agree(&self) -> bool {
        &&& bits_of(self.next_cells).len() == bits_of(self.cells).len()
        &&& tail_clear(self.cells)
        &&& tail_clear(self.next_cells)
    }

    /// A well-formed universe: positive dimensions whose product fits in a
    /// `u32`, one bit per cell in both buffers.
    pub open spec fn wf(&self) -> bool {
        &&& self@.wf()
        &&& cell_count(self@.width, self@.height) <= u32::MAX
        &&& self.buffers_agree()
    }

    /// A universe of `DEFAULT_SIZE` by `DEFAULT_SIZE` dead cells.
    pub fn new() -> (r: Universe)
        ensures
            r.wf(),
            r@ == (Grid {
                width: DEFAULT_SIZE as nat,
                height: DEFAULT_SIZE as nat,
                cells: all_clear(cell_count(DEFAULT_SIZE as nat, DEFAULT_SIZE as nat)),
            }),
            r@.cells.len() == r@.width * r@.height,
    {
        let width = DEFAULT_SIZE;
        let height = DEFAULT_SIZE;
        let size = (width * height) as usize;
        let cells = FixedBitSet::with_capacity(size);
        let next_cells = FixedBitSet::with_capacity(size);
        Universe { width, height, cells, next_cells }
    }

    /// A universe of `width` by `height` dead cells; it fails when the
    /// number of cells does not fit in a `u32`.
    pub fn with_size(width: u32, height: u32) -> (r: Result<Universe, GridError>)
        requires
            width > 0,
            height > 0,
        ensures
            r is Ok <==> width * height <= u32::MAX,
            r is Err ==> r == Err::<Universe, GridError>(GridError::SizeOverflow),
            r matches Ok(u) ==> u.wf() && u@ == (Grid {
                width: width as nat,
                height: height as nat,
                cells: all_clear(cell_count(width as nat, height as nat)),
            }) && u@.cells.len() == u@.width * u@.height,
    {
        match width.checked_mul(height) {
            None => Err(GridError::SizeOverflow),
            Some(n) => {
                let size = n as usize;
                let cells = FixedBitSet::with_capacity(size);
                let next_cells = FixedBitSet::with_capacity(size);
                Ok(Universe { width, height, cells, next_cells })
            },
        }
    }

    /// Sets every cell from `draws`, one value per linear index; the caller
    /// draws them, for instance at random.
    pub fn reset(&mut self, draws: &[bool])
        requires
            old(self).wf(),
            draws@.len() == old(self)@.cells.len(),
        ensures
            final(self).wf(),
            final(self)@ == (Grid { cells: draws@, ..old(self)@ }),
    {
        let size = (self.width * self.height) as usize;
        let mut i: usize = 0;
        while i < size
            invariant
                self.wf(),
                self.width == old(self).width,
                self.height == old(self).height,
                size == self@.cells.len(),
                draws@.len() == size,
                i <= size,
                forall|j: int| 0 <= j < i ==> self@.cells[j] == draws@[j],
            decreases size - i,
        {
            self.cells.set(i, draws[i]);
            i += 1;
        }
        assert(self@.cells =~= draws@);
    }

    /// Makes every cell dead.
    pub fn clear(&mut self)
        requires
            old(self).wf(),
        ensures
            final(self).wf(),
            final(self)@ == old(self)@.cleared(),
    {
        self.cells.clear();
        assert(self@.cells =~= old(self)@.cleared().cells);
    }

    /// The number of columns.
    pub fn width(&self) -> (r: u32)
        ensures
            r as nat == self@.width,
    {
        self.width
    }

    /// The number of rows.
    pub fn height(&self) -> (r: u32)
        ensures
            r as nat == self@.height,
    {
        self.height
    }

    /// Changes the number of columns. Nothing happens when it is unchanged;
    /// otherwise the cells are resized as `resized` says, without keeping the
    /// shape of the pattern.
    pub fn set_width(&mut self, width: u32)
        requires
            old(self).wf(),
            width > 0,
            width * old(self)@.height <= u32::MAX,
        ensures
            final(self).wf(),
            final(self)@.width == width,
            final(self)@.height == old(self)@.height,
            final(self)@.cells == if width == old(self)@.width {
                old(self)@.cells
            } else {
                resized(old(self)@.cells, cell_count(width as nat, old(self)@.height))
            },
            final(self)@.cells.len() == final(self)@.width * final(self)@.height,
    {
        if self.width == width {
            return ;
        }
        self.width = width;
        self.update_cells_size()
    }

    /// Changes the number of rows. Nothing happens when it is unchanged;
    /// otherwise the cells are resized as `resized` says, without keeping the
    /// shape of the pattern.
    pub fn set_height(&mut self, height: u32)
        requires
            old(self).wf(),
            height > 0,
            old(self)@.width * height <= u32::MAX,
        ensures
            final(self).wf(),
            final(self)@.width == old(self)@.width,
            final(self)@.height == height,
            final(self)@.cells == if height == old(self)@.height {
                old(self)@.cells
            } else {
                resized(old(self)@.cells, cell_count(old(self)@.width, height as nat))
            },
            final(self)@.cells.len() == final(self)@.width * final(self)@.height,
    {
        if self.height == height {
            return ;
        }
        self.height = height;
        self.update_cells_size()
    }

    /// Brings both buffers to `width * height` bits: a shrink starts from
    /// dead cells, a growth keeps the cells and adds dead ones.
    fn update_cells_size(&mut self)
        requires
            old(self).width > 0,
            old(self).height > 0,
            old(self).width * old(self).height <= u32::MAX,
            old(self).buffers_agree(),
        ensures
            final(self).wf(),
            final(self).width == old(self).width,
            final(self).height == old(self).height,
            final(self)@.cells == resized(
                old(self)@.cells,
                cell_count(old(self)@.width, old(self)@.height),
            ),
    {
        let size = (self.width * self.height) as usize;
        if self.cells.len() > size {
            self.cells = FixedBitSet::with_capacity(size);
            self.next_cells = FixedBitSet::with_capacity(size);
        } else {
            self.cells.grow(size);
            self.next_cells.grow(size);
        }
        assert(self@.cells =~= resized(old(self)@.cells, size as nat));
    }

    /// The packed cells, `usize::BITS` to a word, least significant bit
    /// first, for a renderer to read without a call per cell.
    pub fn cells(&self) -> (r: &[usize])
        ensures
            r@.len() == (self@.cells.len() + usize::BITS as int - 1) / (usize::BITS as int),
            forall|i: int| 0 <= i < self@.cells.len() ==> #[trigger] block_bit(r@, i) == self@.cells[i],
    {
        self.cells.as_slice()
    }

    /// Flips the cell at `(row, col)`; both are taken modulo the dimensions.
    pub fn toggle_cell(&mut self, row: u32, col: u32)
        requires
            old(self).wf(),
        ensures
            final(self).wf(),
            final(self)@ == old(self)@.toggled(row as int, col as int),
    {
        let index = self.get_index(row, col);
        self.cells.toggle(index);
    }

    /// The index of `(row, column)` in the cells, both wrapped onto the grid.
    fn get_index(&self, row: u32, column: u32) -> (r: usize)
        requires
            self.wf(),
        ensures
            r as int == self@.index(row as int, column as int),
            r < self@.cells.len(),
    {
        proof {
            lemma_index_bounds(self@, row as int, column as int);
        }
        let r = row % self.height;
        let c = column % self.width;
        proof {
            assert(r * self.width <= r * self.width + c) by (nonlinear_arith)
                requires
                    c >= 0,
            ;
        }
        (r * self.width + c) as usize
    }

    /// The number of live neighbours of the cell at `(row, column)`, with
    /// the edges wrapping around.
    fn live_neighbor_count(&self, row: u32, column: u32) -> (r: u8)
        requires
            self.wf(),
            row < self@.height,
            column < self@.width,
        ensures
            r as nat == self@.live_neighbors(row as int, column as int),
    {
        let north = if row == 0 {
            self.height - 1
        } else {
            row - 1
        };
        let south = if row == self.height - 1 {
            0
        } else {
            row + 1
        };
        let west = if column == 0 {
            self.width - 1
        } else {
            column - 1
        };
        let east = if column == self.width - 1 {
            0
        } else {
            column + 1
        };
        proof {
            lemma_neighbors_around(
                self@,
                row as int,
                column as int,
                north as int,
                south as int,
                west as int,
                east as int,
            );
        }
        let mut count: u8 = 0;
        count += self.live_value_at(north, west);
        count += self.live_value_at(north, column);
        count += self.live_value_at(north, east);
        count += self.live_value_at(row, west);
        count += self.live_value_at(row, east);
        count += self.live_value_at(south, west);
        count += self.live_value_at(south, column);
        count += self.live_value_at(south, east);
        count
    }

    /// `1` when the cell at `(row, column)`, wrapped onto the grid, is
    /// alive, else `0`.
    fn live_value_at(&self, row: u32, column: u32) -> (r: u8)
        requires
            self.wf(),
        ensures
            r as nat == live_value(self@.alive(row as int, column as int)),
    {
        self.cells.contains(self.get_index(row, column)) as u8
    }

    /// Advances the universe by one generation: every cell follows the
    /// rule from the current generation, which is read whole before the
    /// buffers are swapped.
    pub fn tick(&mut self)
        requires
            old(self).wf(),
        ensures
            final(self).wf(),
            final(self)@ == old(self)@.next(),
    {
        let size = (self.width * self.height) as usize;
        let mut i: usize = 0;
        while i < size
            invariant
                self.wf(),
                self.width == old(self).width,
                self.height == old(self).height,
                self.cells == old(self).cells,
                size == self@.cells.len(),
                i <= size,
                forall|j: int| 0 <= j < i ==> bits_of(self.next_cells)[j] == #[trigger] old(self)@.next().cells[j],
            decreases size - i,
        {
            proof {
                lemma_decode(self@, i as int);
            }
            let row = (i as u32) / self.width;
            let col = (i as u32) % self.width;
            let cell = self.cells.contains(i);
            let live_neighbors = self.live_neighbor_count(row, col);
            let alive = match (cell, live_neighbors) {
                (true, x) if x < 2 => false,
                (true, 2) | (true, 3) => true,
                (true, x) if x > 3 => false,
                (false, 3) => true,
                (otherwise, _) => otherwise,
            };
            assert(alive == rule(cell, live_neighbors as nat));
            self.next_cells.set(i, alive);
            i += 1;
        }
        core::mem::swap(&mut self.cells, &mut self.next_cells);
        assert(self@.cells =~= old(self)@.next().cells);
    }

    /// The bit set of the current generation.
    pub fn get_cells(&self) -> (r: &FixedBitSet)
        ensures
            bits_of(*r) == self@.cells,
    {
        &self.cells
    }

    /// Makes alive the cell at each `(row, col)` of `cells`, wrapped onto
    /// the grid, and leaves the other cells as they were.
    pub fn set_alive_cells(&mut self, cells: &[(u32, u32)])
        requires
            old(self).wf(),
        ensures
            final(self).wf(),
            final(self)@ == old(self)@.seeded(cells@),
    {
        let ghost g = self@;
        let mut k: usize = 0;
        while k < cells.len()
            invariant
                self.wf(),
                self.width == old(self).width,
                self.height == old(self).height,
                g == old(self)@,
                k <= cells@.len(),
                self@.cells.len() == g.cells.len(),
                forall|i: int|
                    0 <= i < g.cells.len() ==> #[trigger] self@.cells[i] == (g.cells[i] || g.seeds(
                        cells@.subrange(0, k as int),
                        i,
                    )),
            decreases cells@.len() - k,
        {
            let (row, col) = cells[k];
            let index = self.get_index(row, col);
            self.cells.set(index, true);
            proof {
                let done = cells@.subrange(0, k as int);
                let more = cells@.subrange(0, k + 1);
                assert forall|i: int| 0 <= i < g.cells.len() implies g.seeds(more, i) == (g.seeds(
                    done,
                    i,
                ) || i == index) by {
                    if g.seeds(done, i) {
                        let j = choose|j: int|
                            0 <= j < done.len() && #[trigger] g.index(
                                done[j].0 as int,
                                done[j].1 as int,
                            ) == i;
                        assert(more[j] == done[j]);
                        assert(g.index(more[j].0 as int, more[j].1 as int) == i);
                    }
                    if i == index {
                        assert(more[k as int] == (row, col));
                        assert(g.index(more[k as int].0 as int, more[k as int].1 as int) == i);
                    }
                    if g.seeds(more, i) && i != index {
                        let j = choose|j: int|
                            0 <= j < more.len() && #[trigger] g.index(
                                more[j].0 as int,
                                more[j].1 as int,
                            ) == i;
                        assert(j != k);
                        assert(more[j] == done[j]);
                        assert(g.index(done[j].0 as int, done[j].1 as int) == i);
                    }
                }
            }
            k += 1;
        }
        assert(cells@.subrange(0, cells@.len() as int) =~= cells@);
        assert(self@.cells =~= g.seeded(cells@).cells);
    }
}

impl Default for Universe {
    /// The same universe as `Universe::new`.
    fn default() -> (r: Universe)
        ensures
            r.wf(),
            r@ == (Grid {
                width: DEFAULT_SIZE as nat,
                height: DEFAULT_SIZE as nat,
                cells: all_clear(cell_count(DEFAULT_SIZE as nat, DEFAULT_SIZE as nat)),
            }),
    {
        Universe::new()
    }
}

} // verus!
