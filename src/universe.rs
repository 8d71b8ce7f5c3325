//! The grid engine: a fixed-size toroidal grid of cells, one bit each,
//! advanced one generation at a time.

use vstd::prelude::*;
use fixedbitset::FixedBitSet;
use crate::bitset::{bits_of, cleared, duplicate, get, put};
use crate::rules::{
    advanced, alive_at, index_of, lemma_index_in_grid, live_neighbors, seed_pattern, seeded, step, well_formed,
    GridView,
};

verus! {

/// The state of one cell.
#[derive(Clone, Copy, Debug, PartialEq, Eq)]
pub enum Cell {
    Dead,
    Alive,
}

/// A toroidal grid of cells and the number of generations it has advanced.
pub struct Universe {
    width: u32,
    height: u32,
    cells: FixedBitSet,
    gen: u32,
}

impl View for Universe {
    type V = GridView;

    closed spec fn view(&self) -> GridView {
        GridView {
            width: self.width as nat,
            height: self.height as nat,
            cells: bits_of(self.cells),
            generation: self.gen as nat,
        }
    }
}

impl Universe {
    /// The grid is well formed: see `well_formed`.
    pub open spec fn wf(&self) -> bool {
        well_formed(self@)
    }

    /// A `width` by `height` grid at generation 0. With `random` set, cell
    /// `i` is `draws[i]` (the host draws one fair coin per cell); otherwise
    /// it follows the fixed pattern `seed_pattern`.
    pub fn new(width: u32, height: u32, random: bool, draws: &[bool]) -> (r: Universe)
        requires
            width > 0,
            height > 0,
            width * height <= u32::MAX,
            random ==> draws@.len() == width * height,
        ensures
            r.wf(),
            r@.width == width,
            r@.height == height,
            r@.generation == 0,
            r@.cells == (if random {
                draws@
            } else {
                seeded((width * height) as nat)
            }),
    {
        let size = (width * height) as usize;
        let mut cells = cleared(size);
        let mut i: usize = 0;
        while i < size
            invariant
                size == width * height,
                i <= size,
                random ==> draws@.len() == size,
                bits_of(cells).len() == size,
                forall|j: int|
                    0 <= j < i ==> #[trigger] bits_of(cells)[j] == (if random {
                        draws@[j]
                    } else {
                        seed_pattern(j)
                    }),
            decreases size - i,
        {
            let value = if random {
                draws[i]
            } else {
                i % 2 == 0 || i % 7 == 0
            };
            put(&mut cells, i, value);
            i += 1;
        }
        proof {
            if random {
                assert(bits_of(cells) =~= draws@);
            } else {
                assert(bits_of(cells) =~= seeded(size as nat));
            }
        }
        Universe { width, height, cells, gen: 0 }
    }

    /// The number of columns.
    pub fn width(&self) -> (r: u32)
        ensures
            r == self@.width,
    {
        self.width
    }

    /// The number of rows.
    pub fn height(&self) -> (r: u32)
        ensures
            r == self@.height,
    {
        self.height
    }

    /// The current generation's cells, row-major, one bit each.
    pub fn cells(&self) -> (r: &FixedBitSet)
        ensures
            bits_of(*r) == self@.cells,
    {
        &self.cells
    }

    /// How many generations the grid has advanced since it was made.
    pub fn gen(&self) -> (r: u32)
        ensures
            r == self@.generation,
    {
        self.gen
    }

    fn get_index(&self, row: u32, column: u32) -> (r: usize)
        requires
            self.wf(),
            row < self@.height,
            column < self@.width,
        ensures
            r == index_of(self@.width as int, row as int, column as int),
            r < self@.width * self@.height,
    {
        proof {
            lemma_index_in_grid(row as int, column as int, self.width as int, self.height as int);
        }
        (row * self.width + column) as usize
    }

    /// How many of the eight toroidal neighbours of (`row`, `column`) are alive.
    pub fn live_neighbor_count(&self, row: u32, column: u32) -> (r: u8)
        requires
            self.wf(),
            row < self@.height,
            column < self@.width,
        ensures
            r == live_neighbors(self@.cells, self@.width as int, self@.height as int, row as int, column as int),
    {
        let mut count: u8 = 0;

        let north = if row == 0 {
            self.height - 1
        } else {
            row - 1
        };

        let south = if row == self.height - 1 {
            0
        } else {
            row + 1
        };

        let west = if column == 0 {
            self.width - 1
        } else {
            column - 1
        };

        let east = if column == self.width - 1 {
            0
        } else {
            column + 1
        };

        let ghost cells = self@.cells;
        let ghost width = self@.width as int;

        let nw = self.get_index(north, west);
        let a_nw = get(&self.cells, nw);
        let n = self.get_index(north, column);
        let a_n = get(&self.cells, n);
        let ne = self.get_index(north, east);
        let a_ne = get(&self.cells, ne);
        let w = self.get_index(row, west);
        let a_w = get(&self.cells, w);
        let e = self.get_index(row, east);
        let a_e = get(&self.cells, e);
        let sw = self.get_index(south, west);
        let a_sw = get(&self.cells, sw);
        let s = self.get_index(south, column);
        let a_s = get(&self.cells, s);
        let se = self.get_index(south, east);
        let a_se = get(&self.cells, se);

        let ghost (nr, sr, wc, ec) = (north as int, south as int, west as int, east as int);
        let ghost (r, c) = (row as int, column as int);
        // `total` is the spec's sum, term by term, and `count` follows it
        let ghost mut total: int = 0;
        count += a_nw as u8;
        proof {
            total = total + alive_at(cells, width, nr, wc);
            assert(count == total);
        }
        count += a_n as u8;
        proof {
            total = total + alive_at(cells, width, nr, c);
            assert(count == total);
        }
        count += a_ne as u8;
        proof {
            total = total + alive_at(cells, width, nr, ec);
            assert(count == total);
        }
        count += a_w as u8;
        proof {
            total = total + alive_at(cells, width, r, wc);
            assert(count == total);
        }
        count += a_e as u8;
        proof {
            total = total + alive_at(cells, width, r, ec);
            assert(count == total);
        }
        count += a_sw as u8;
        proof {
            total = total + alive_at(cells, width, sr, wc);
            assert(count == total);
        }
        count += a_s as u8;
        proof {
            total = total + alive_at(cells, width, sr, c);
            assert(count == total);
        }
        count += a_se as u8;
        proof {
            total = total + alive_at(cells, width, sr, ec);
            assert(count == total);
        }
        count
    }

    /// Advances the grid one generation: every cell's next state is computed
    /// from the current generation alone, then the generation count grows by one.
    pub fn tick(&mut self)
        requires
            old(self).wf(),
            old(self)@.generation < u32::MAX,
        ensures
            final(self).wf(),
            advanced(old(self)@, final(self)@),
    {
        let mut next = duplicate(&self.cells);

        let mut row: u32 = 0;
        while row < self.height
            invariant
                self.wf(),
                self@ == old(self)@,
                row <= self@.height,
                bits_of(next).len() == self@.width * self@.height,
                forall|i: int|
                    0 <= i < row * self@.width ==> #[trigger] bits_of(next)[i] == step(
                        self@.cells,
                        self@.width,
                        self@.height,
                    )[i],
            decreases self@.height - row,
        {
            let mut col: u32 = 0;
            while col < self.width
                invariant
                    self.wf(),
                    self@ == old(self)@,
                    row < self@.height,
                    col <= self@.width,
                    bits_of(next).len() == self@.width * self@.height,
                    forall|i: int|
                        0 <= i < row * self@.width + col ==> #[trigger] bits_of(next)[i] == step(
                            self@.cells,
                            self@.width,
                            self@.height,
                        )[i],
                decreases self@.width - col,
            {
                let idx = self.get_index(row, col);
                let cell = get(&self.cells, idx);
                let live_neighbors = self.live_neighbor_count(row, col);

                let next_cell = match (cell, live_neighbors) {
                    // A live cell with fewer than two live neighbours dies.
                    (true, x) if x < 2 => false,
                    // A live cell with two or three live neighbours lives on.
                    (true, 2) | (true, 3) => true,
                    // A live cell with more than three live neighbours dies.
                    (true, x) if x > 3 => false,
                    // A dead cell with exactly three live neighbours is born.
                    (false, 3) => true,
                    // Every other cell keeps its state.
                    (otherwise, _) => otherwise,
                };

                proof {
                    lemma_index_in_grid(row as int, col as int, self@.width as int, self@.height as int);
                }
                put(&mut next, idx, next_cell);
                col += 1;
            }
            proof {
                let (r, w) = (row as int, self@.width as int);
                assert(r * w + w == (r + 1) * w) by (nonlinear_arith);
            }
            row += 1;
        }
        self.gen = self.gen + 1;
        self.cells = next;
        proof {
            let (w, h) = (old(self)@.width, old(self)@.height);
            assert(h * w == w * h) by (nonlinear_arith);
            assert forall|i: int| 0 <= i < w * h implies bits_of(next)[i] == step(old(self)@.cells, w, h)[i] by {
                assert(i < (row as nat) * w);
            }
            assert(bits_of(self.cells) =~= step(old(self)@.cells, w, h));
        }
    }
}

} // verus!
