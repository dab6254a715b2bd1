//! The mathematical model of a grid and of the B3/S23 rule: a grid is a
//! row-major sequence of cells on a torus `width` wide and `height` high.

use vstd::arithmetic::div_mod::{lemma_fundamental_div_mod, lemma_fundamental_div_mod_converse};
use vstd::prelude::*;

verus! {

/// Position of the cell at (`row`, `col`) in the row-major sequence.
pub open spec fn index_of(width: int, row: int, col: int) -> int {
    row * width + col
}

/// Whether the cell at (`row`, `col`) is alive.
pub open spec fn cell(cells: Seq<bool>, width: int, row: int, col: int) -> bool {
    cells[index_of(width, row, col)]
}

/// 1 when the cell at offset (`dr`, `dc`) from (`row`, `col`), wrapped round
/// the torus, is alive; the zero offset is the cell itself and counts 0.
pub open spec fn offset_alive(
    cells: Seq<bool>,
    width: int,
    height: int,
    row: int,
    col: int,
    dr: int,
    dc: int,
) -> int {
    if dr == 0 && dc == 0 {
        0
    } else if cell(cells, width, (row + dr) % height, (col + dc) % width) {
        1
    } else {
        0
    }
}

/// The live neighbors of (`row`, `col`): the row offsets `height - 1`, 0, 1
/// against the column offsets `width - 1`, 0, 1, each taken modulo the grid.
pub open spec fn neighbor_count(cells: Seq<bool>, width: int, height: int, row: int, col: int) -> int {
    let up = height - 1;
    let left = width - 1;
    offset_alive(cells, width, height, row, col, up, left)
        + offset_alive(cells, width, height, row, col, up, 0)
        + offset_alive(cells, width, height, row, col, up, 1)
        + offset_alive(cells, width, height, row, col, 0, left)
        + offset_alive(cells, width, height, row, col, 0, 0)
        + offset_alive(cells, width, height, row, col, 0, 1)
        + offset_alive(cells, width, height, row, col, 1, left)
        + offset_alive(cells, width, height, row, col, 1, 0)
        + offset_alive(cells, width, height, row, col, 1, 1)
}

/// The rule: a live cell survives with 2 or 3 live neighbors, a dead cell is
/// born with exactly 3.
pub open spec fn next_state(alive: bool, neighbors: int) -> bool {
    if alive {
        neighbors == 2 || neighbors == 3
    } else {
        neighbors == 3
    }
}

/// The grid one generation later.
pub open spec fn next_generation(cells: Seq<bool>, width: int, height: int) -> Seq<bool> {
    Seq::new(
        (width * height) as nat,
        |i: int| next_state(cells[i], neighbor_count(cells, width, height, i / width, i % width)),
    )
}

/// The grid `n` generations later.
pub open spec fn generations(cells: Seq<bool>, width: int, height: int, n: nat) -> Seq<bool>
    decreases n,
{
    if n == 0 {
        cells
    } else {
        next_generation(generations(cells, width, height, (n - 1) as nat), width, height)
    }
}

/// A grid of `len` dead cells.
pub open spec fn all_dead(len: nat) -> Seq<bool> {
    Seq::new(len, |i: int| false)
}

/// The cells with the one at `i` flipped.
pub open spec fn toggled(cells: Seq<bool>, i: int) -> Seq<bool> {
    cells.update(i, !cells[i])
}

/// A cell inside the grid has its position inside the sequence.
pub proof fn lemma_index_in_range(width: int, height: int, row: int, col: int)
    requires
        0 <= row < height,
        0 <= col < width,
    ensures
        0 <= index_of(width, row, col) < width * height,
{
    assert(0 <= row * width) by (nonlinear_arith)
        requires
            0 <= row,
            0 <= width,
    ;
    assert((row + 1) * width <= height * width) by (nonlinear_arith)
        requires
            row + 1 <= height,
            0 <= width,
    ;
    assert((row + 1) * width == row * width + width) by (nonlinear_arith);
    assert(height * width == width * height) by (nonlinear_arith);
}

/// Two distinct cells of the grid sit at distinct positions.
pub proof fn lemma_index_distinct(width: int, r1: int, c1: int, r2: int, c2: int)
    requires
        0 <= r1,
        0 <= r2,
        0 <= c1 < width,
        0 <= c2 < width,
        r1 != r2 || c1 != c2,
    ensures
        index_of(width, r1, c1) != index_of(width, r2, c2),
{
    if r1 != r2 {
        lemma_fundamental_div_mod_converse(index_of(width, r1, c1), width, r1, c1);
        lemma_fundamental_div_mod_converse(index_of(width, r2, c2), width, r2, c2);
    }
}

/// Each cell of the next generation follows the rule from its own state and
/// its neighbors in the current one.
pub proof fn lemma_next_generation_cell(cells: Seq<bool>, width: int, height: int, row: int, col: int)
    requires
        0 <= row < height,
        0 <= col < width,
    ensures
        0 <= index_of(width, row, col) < width * height,
        cell(next_generation(cells, width, height), width, row, col) == next_state(
            cell(cells, width, row, col),
            neighbor_count(cells, width, height, row, col),
        ),
{
    lemma_index_in_range(width, height, row, col);
    lemma_fundamental_div_mod_converse(index_of(width, row, col), width, row, col);
}

/// Every position of the grid is the position of a cell.
pub proof fn lemma_position_is_cell(width: int, height: int, i: int)
    requires
        0 < width,
        0 <= i < width * height,
    ensures
        0 <= i / width < height,
        0 <= i % width < width,
        i == index_of(width, i / width, i % width),
{
    lemma_fundamental_div_mod(i, width);
    let q = i / width;
    let r = i % width;
    assert(0 <= q) by (nonlinear_arith)
        requires
            i == width * q + r,
            0 <= i,
            0 <= r < width,
    ;
    assert(q < height) by (nonlinear_arith)
        requires
            i == width * q + r,
            i < width * height,
            0 <= r,
            0 < width,
    ;
    assert(i == q * width + r) by (nonlinear_arith)
        requires
            i == width * q + r,
    ;
}

/// Flipping the same cell twice gives back the grid as it was.
pub proof fn lemma_toggle_twice(cells: Seq<bool>, i: int)
    requires
        0 <= i < cells.len(),
    ensures
        toggled(toggled(cells, i), i) == cells,
{
    assert(toggled(toggled(cells, i), i) =~= cells);
}

/// A dead grid has no live neighbors anywhere.
pub proof fn lemma_dead_grid_has_no_neighbors(width: int, height: int, row: int, col: int)
    requires
        0 <= row < height,
        0 <= col < width,
    ensures
        neighbor_count(all_dead((width * height) as nat), width, height, row, col) == 0,
{
    let cells = all_dead((width * height) as nat);
    assert forall|dr: int, dc: int| 0 <= dr && 0 <= dc implies #[trigger] offset_alive(
        cells,
        width,
        height,
        row,
        col,
        dr,
        dc,
    ) == 0 by {
        lemma_index_in_range(width, height, (row + dr) % height, (col + dc) % width);
    }
    assert(0 <= height - 1 && 0 <= width - 1);
    assert(offset_alive(cells, width, height, row, col, height - 1, width - 1) == 0);
    assert(offset_alive(cells, width, height, row, col, height - 1, 0) == 0);
    assert(offset_alive(cells, width, height, row, col, height - 1, 1) == 0);
    assert(offset_alive(cells, width, height, row, col, 0, width - 1) == 0);
    assert(offset_alive(cells, width, height, row, col, 0, 1) == 0);
    assert(offset_alive(cells, width, height, row, col, 1, width - 1) == 0);
    assert(offset_alive(cells, width, height, row, col, 1, 0) == 0);
    assert(offset_alive(cells, width, height, row, col, 1, 1) == 0);
}

/// A grid with every cell dead stays dead for any number of generations.
pub proof fn lemma_dead_grid_stays_dead(width: int, height: int, n: nat)
    requires
        width > 0,
        height > 0,
    ensures
        generations(all_dead((width * height) as nat), width, height, n) == all_dead(
            (width * height) as nat,
        ),
    decreases n,
{
    let dead = all_dead((width * height) as nat);
    if n > 0 {
        lemma_dead_grid_stays_dead(width, height, (n - 1) as nat);
        assert(0 <= width * height) by (nonlinear_arith)
            requires
                width > 0,
                height > 0,
        ;
        assert forall|i: int| 0 <= i < width * height implies #[trigger] next_generation(
            dead,
            width,
            height,
        )[i] == dead[i] by {
            lemma_position_is_cell(width, height, i);
            lemma_dead_grid_has_no_neighbors(width, height, i / width, i % width);
        }
        assert(next_generation(dead, width, height) =~= dead);
    }
}

/// On a 3 by 3 grid the neighbors of the corner (0, 0) are the eight other
/// cells, those on the far row and the far column included.
pub proof fn lemma_corner_wraps_on_three_by_three(cells: Seq<bool>)
    requires
        cells.len() == 9,
    ensures
        neighbor_count(cells, 3, 3, 0, 0) == (if cell(cells, 3, 2, 2) { 1int } else { 0 }) + (
        if cell(cells, 3, 2, 0) { 1int } else { 0 }) + (if cell(cells, 3, 2, 1) { 1int } else { 0 })
            + (if cell(cells, 3, 0, 2) { 1int } else { 0 }) + (if cell(cells, 3, 0, 1) { 1int } else { 0 })
            + (if cell(cells, 3, 1, 2) { 1int } else { 0 }) + (if cell(cells, 3, 1, 0) { 1int } else { 0 })
            + (if cell(cells, 3, 1, 1) { 1int } else { 0 }),
{
    assert((0int + 2) % 3 == 2);
    assert((0int + 0) % 3 == 0);
    assert((0int + 1) % 3 == 1);
}

} // verus!
