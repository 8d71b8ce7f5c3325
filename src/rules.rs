//! The rule of the game as mathematics: toroidal neighbours, the fate of one
//! cell, the step of a whole grid, and what holds over many steps.

use vstd::prelude::*;
use vstd::arithmetic::div_mod::lemma_fundamental_div_mod_converse;

verus! {

/// What a grid is at one moment: its dimensions, its cells in row-major
/// order (`true` for alive), and how many generations it has advanced.
pub struct GridView {
    pub width: nat,
    pub height: nat,
    pub cells: Seq<bool>,
    pub generation: nat,
}

/// A grid whose dimensions are positive, whose area fits in a `u32`, and
/// which holds exactly one cell per position.
pub open spec fn well_formed(v: GridView) -> bool {
    &&& v.width > 0
    &&& v.height > 0
    &&& v.width * v.height <= u32::MAX
    &&& v.cells.len() == v.width * v.height
    &&& v.generation <= u32::MAX
}

/// The position before `i` on a ring of `n` positions.
pub open spec fn wrap_prev(i: int, n: int) -> int {
    if i == 0 {
        n - 1
    } else {
        i - 1
    }
}

/// The position after `i` on a ring of `n` positions.
pub open spec fn wrap_next(i: int, n: int) -> int {
    if i == n - 1 {
        0
    } else {
        i + 1
    }
}

/// The row-major index of the cell at (`row`, `col`).
#[verifier::opaque]
pub open spec fn index_of(width: int, row: int, col: int) -> int {
    row * width + col
}

/// 1 when the cell at (`row`, `col`) is alive, else 0.
pub open spec fn alive_at(cells: Seq<bool>, width: int, row: int, col: int) -> int {
    if cells[index_of(width, row, col)] {
        1
    } else {
        0
    }
}

/// How many of the eight toroidal neighbours of (`row`, `col`) are alive.
pub open spec fn live_neighbors(cells: Seq<bool>, width: int, height: int, row: int, col: int) -> int {
    let n = wrap_prev(row, height);
    let s = wrap_next(row, height);
    let w = wrap_prev(col, width);
    let e = wrap_next(col, width);
    alive_at(cells, width, n, w) + alive_at(cells, width, n, col) + alive_at(cells, width, n, e)
        + alive_at(cells, width, row, w) + alive_at(cells, width, row, e)
        + alive_at(cells, width, s, w) + alive_at(cells, width, s, col) + alive_at(cells, width, s, e)
}

/// The next state of a cell: a live one survives with two or three live
/// neighbours, a dead one is born with exactly three.
pub open spec fn next_state(alive: bool, neighbors: int) -> bool {
    if alive {
        neighbors == 2 || neighbors == 3
    } else {
        neighbors == 3
    }
}

/// One generation of the whole grid, every cell computed from `cells` alone.
pub open spec fn step(cells: Seq<bool>, width: nat, height: nat) -> Seq<bool> {
    Seq::new(
        width * height,
        |i: int|
            next_state(cells[i], live_neighbors(cells, width as int, height as int, i / width as int, i % width as int)),
    )
}

/// `n` generations of the whole grid.
pub open spec fn run(cells: Seq<bool>, width: nat, height: nat, n: nat) -> Seq<bool>
    decreases n,
{
    if n == 0 {
        cells
    } else {
        step(run(cells, width, height, (n - 1) as nat), width, height)
    }
}

/// The fixed starting pattern: cell `i` is alive when `i` is a multiple of 2 or of 7.
pub open spec fn seed_pattern(i: int) -> bool {
    i % 2 == 0 || i % 7 == 0
}

/// The fixed starting pattern over `size` cells.
pub open spec fn seeded(size: nat) -> Seq<bool> {
    Seq::new(size, |i: int| seed_pattern(i))
}

/// `b` is `a` after one advance.
pub open spec fn advanced(a: GridView, b: GridView) -> bool {
    &&& b.width == a.width
    &&& b.height == a.height
    &&& b.cells == step(a.cells, a.width, a.height)
    &&& b.generation == a.generation + 1
}

/// The states a grid passes through over successive advances.
pub open spec fn is_history(t: Seq<GridView>) -> bool {
    &&& t.len() > 0
    &&& forall|k: int| 0 <= k < t.len() - 1 ==> advanced(#[trigger] t[k], t[k + 1])
}

/// A cell position inside a `width` by `height` grid has its row-major
/// index inside the grid, and the index gives back the row and column.
pub proof fn lemma_index_in_grid(row: int, col: int, width: int, height: int)
    requires
        0 <= row < height,
        0 <= col < width,
    ensures
        index_of(width, row, col) == row * width + col,
        0 <= row * width + col < width * height,
        (row * width + col) / width == row,
        (row * width + col) % width == col,
{
    reveal(index_of);
    assert(0 <= row * width + col < width * height) by (nonlinear_arith)
        requires
            0 <= row < height,
            0 <= col < width,
    ;
    lemma_fundamental_div_mod_converse(row * width + col, width, row, col);
}

proof fn lemma_history_prefix(t: Seq<GridView>, k: int)
    requires
        is_history(t),
        0 <= k < t.len(),
    ensures
        t[k].width == t[0].width,
        t[k].height == t[0].height,
        t[k].generation == t[0].generation + k,
        t[k].cells == run(t[0].cells, t[0].width, t[0].height, k as nat),
    decreases k,
{
    if k > 0 {
        lemma_history_prefix(t, k - 1);
        assert(advanced(t[k - 1], t[k]));
    }
}

/// Advancing never changes a grid's dimensions, and the cells always number
/// exactly width times height.
pub proof fn lemma_dimensions_kept(t: Seq<GridView>)
    requires
        is_history(t),
        well_formed(t[0]),
    ensures
        forall|k: int|
            0 <= k < t.len() ==> {
                &&& (#[trigger] t[k]).width == t[0].width
                &&& t[k].height == t[0].height
                &&& t[k].cells.len() == t[0].width * t[0].height
            },
{
    assert forall|k: int| 0 <= k < t.len() implies {
        &&& (#[trigger] t[k]).width == t[0].width
        &&& t[k].height == t[0].height
        &&& t[k].cells.len() == t[0].width * t[0].height
    } by {
        lemma_history_prefix(t, k);
    }
}

/// After `n` advances the generation counter has grown by exactly `n`.
pub proof fn lemma_generation_counts(t: Seq<GridView>)
    requires
        is_history(t),
    ensures
        t.last().generation == t[0].generation + (t.len() - 1),
{
    lemma_history_prefix(t, t.len() - 1);
}

/// Two grids started with the same dimensions from the fixed pattern hold
/// the same cells after the same number of advances.
pub proof fn lemma_deterministic(t1: Seq<GridView>, t2: Seq<GridView>)
    requires
        is_history(t1),
        is_history(t2),
        t1.len() == t2.len(),
        t1[0].width == t2[0].width,
        t1[0].height == t2[0].height,
        t1[0].cells == seeded(t1[0].width * t1[0].height),
        t2[0].cells == seeded(t2[0].width * t2[0].height),
    ensures
        t1.last().cells == t2.last().cells,
        t1.last().cells == run(seeded(t1[0].width * t1[0].height), t1[0].width, t1[0].height, (t1.len() - 1) as nat),
{
    lemma_history_prefix(t1, t1.len() - 1);
    lemma_history_prefix(t2, t2.len() - 1);
}

} // verus!
