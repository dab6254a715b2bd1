//! The universe: the grid's dimensions and its packed cells.

use crate::bits::{bits_of, bit_at, bit_blocks, cleared_bits, flip_bit, set_bit};
use crate::rules::{
    cell, index_of, lemma_index_distinct, lemma_index_in_range, lemma_next_generation_cell,
    all_dead, lemma_position_is_cell, neighbor_count, next_generation, next_state, offset_alive,
    toggled,
};
use fixedbitset::FixedBitSet;
use vstd::prelude::*;

verus! {

/// The width of a freshly made universe.
pub const DEFAULT_WIDTH: u32 = 256;

/// The height of a freshly made universe.
pub const DEFAULT_HEIGHT: u32 = 128;

/// A `width` by `height` grid whose cells are packed one bit each, in
/// row-major order.
pub struct Universe {
    width: u32,
    height: u32,
    cells: FixedBitSet,
}

/// What a universe is: its dimensions and the row-major sequence of its cells,
/// `true` for alive.
pub ghost struct UniverseView {
    pub width: nat,
    pub height: nat,
    pub cells: Seq<bool>,
}

impl View for Universe {
    type V = UniverseView;

    closed spec fn view(&self) -> UniverseView {
        UniverseView { width: self.width as nat, height: self.height as nat, cells: bits_of(self.cells) }
    }
}

impl Universe {
    /// Both dimensions are positive, their product fits in a `u32`, and there
    /// is one cell for each place of the grid.
    pub open spec fn wf(&self) -> bool {
        &&& self@.width > 0
        &&& self@.height > 0
        &&& self@.width * self@.height <= u32::MAX
        &&& self@.cells.len() == self@.width * self@.height
    }

    /// Whether the cell at (`row`, `col`) is alive.
    pub open spec fn alive(&self, row: int, col: int) -> bool {
        cell(self@.cells, self@.width as int, row, col)
    }

    /// The number of live neighbors of the cell at (`row`, `col`).
    pub open spec fn live_neighbors(&self, row: int, col: int) -> int {
        neighbor_count(self@.cells, self@.width as int, self@.height as int, row, col)
    }

    /// The position of the cell at (`row`, `column`) in the packed cells.
    pub fn get_index(&self, row: u32, column: u32) -> (r: usize)
        requires
            self.wf(),
            row < self@.height,
            column < self@.width,
        ensures
            r == index_of(self@.width as int, row as int, column as int),
            r < self@.cells.len(),
    {
        proof {
            lemma_index_in_range(self.width as int, self.height as int, row as int, column as int);
        }
        (row * self.width + column) as usize
    }

    /// 1 when the neighbor at offset (`dr`, `dc`) from (`row`, `column`),
    /// wrapped round the grid, is alive; 0 for the cell itself.
    fn neighbor_alive(&self, row: u32, column: u32, dr: u32, dc: u32) -> (r: u8)
        requires
            self.wf(),
            row < self@.height,
            column < self@.width,
        ensures
            r == offset_alive(
                self@.cells,
                self@.width as int,
                self@.height as int,
                row as int,
                column as int,
                dr as int,
                dc as int,
            ),
    {
        if dr == 0 && dc == 0 {
            return 0;
        }
        let neighbor_row = ((row as u64 + dr as u64) % self.height as u64) as u32;
        let neighbor_col = ((column as u64 + dc as u64) % self.width as u64) as u32;
        let idx = self.get_index(neighbor_row, neighbor_col);
        if bit_at(&self.cells, idx) {
            1
        } else {
            0
        }
    }

    /// The number of live cells among the eight that surround (`row`,
    /// `column`) on the torus.
    pub fn live_neighbor_count(&self, row: u32, column: u32) -> (r: u8)
        requires
            self.wf(),
            row < self@.height,
            column < self@.width,
        ensures
            r == neighbor_count(
                self@.cells,
                self@.width as int,
                self@.height as int,
                row as int,
                column as int,
            ),
            r <= 8,
    {
        let up = self.height - 1;
        let left = self.width - 1;
        self.neighbor_alive(row, column, up, left) + self.neighbor_alive(row, column, up, 0)
            + self.neighbor_alive(row, column, up, 1) + self.neighbor_alive(row, column, 0, left)
            + self.neighbor_alive(row, column, 0, 0) + self.neighbor_alive(row, column, 0, 1)
            + self.neighbor_alive(row, column, 1, left) + self.neighbor_alive(row, column, 1, 0)
            + self.neighbor_alive(row, column, 1, 1)
    }

    /// Advances the whole grid by one generation: every cell's next state is
    /// computed from the current generation alone.
    pub fn tick(&mut self)
        requires
            old(self).wf(),
        ensures
            final(self).wf(),
            final(self)@.width == old(self)@.width,
            final(self)@.height == old(self)@.height,
            final(self)@.cells == next_generation(
                old(self)@.cells,
                old(self)@.width as int,
                old(self)@.height as int,
            ),
            forall|row: int, col: int|
                0 <= row < old(self)@.height && 0 <= col < old(self)@.width ==> {
                    let n = old(self).live_neighbors(row, col);
                    let before = old(self).alive(row, col);
                    let after = #[trigger] final(self).alive(row, col);
                    &&& (before && (n == 2 || n == 3)) ==> after
                    &&& (before && (n < 2 || n > 3)) ==> !after
                    &&& (!before && n == 3) ==> after
                    &&& (!before && n != 3) ==> !after
                },
    {
        let w = self.width;
        let h = self.height;
        let ghost cur = self@.cells;
        let size = (w * h) as usize;
        let mut next = cleared_bits(size);
        let mut row: u32 = 0;
        while row < h
            invariant
                self.wf(),
                self@.cells == cur,
                self@.width == w,
                self@.height == h,
                row <= h,
                bits_of(next).len() == w * h,
                forall|r: int, c: int|
                    0 <= r < row && 0 <= c < w ==> #[trigger] cell(bits_of(next), w as int, r, c)
                        == next_state(
                        cell(cur, w as int, r, c),
                        neighbor_count(cur, w as int, h as int, r, c),
                    ),
            decreases h - row,
        {
            let mut col: u32 = 0;
            while col < w
                invariant
                    self.wf(),
                    self@.cells == cur,
                    self@.width == w,
                    self@.height == h,
                    row < h,
                    col <= w,
                    bits_of(next).len() == w * h,
                    forall|r: int, c: int|
                        (0 <= r < row && 0 <= c < w) || (r == row && 0 <= c < col) ==> #[trigger] cell(
                            bits_of(next),
                            w as int,
                            r,
                            c,
                        ) == next_state(
                            cell(cur, w as int, r, c),
                            neighbor_count(cur, w as int, h as int, r, c),
                        ),
                decreases w - col,
            {
                let idx = self.get_index(row, col);
                let alive = bit_at(&self.cells, idx);
                let live_neighbors = self.live_neighbor_count(row, col);
                let next_cell = match (alive, live_neighbors) {
                    (true, x) if x < 2 => false,
                    (true, 2) | (true, 3) => true,
                    (true, x) if x > 3 => false,
                    (false, 3) => true,
                    (otherwise, _) => otherwise,
                };
                let ghost before = bits_of(next);
                set_bit(&mut next, idx, next_cell);
                proof {
                    assert forall|r: int, c: int|
                        (0 <= r < row && 0 <= c < w) || (r == row && 0 <= c < col + 1) implies #[trigger] cell(
                            bits_of(next),
                            w as int,
                            r,
                            c,
                        ) == next_state(
                            cell(cur, w as int, r, c),
                            neighbor_count(cur, w as int, h as int, r, c),
                        ) by {
                        lemma_index_in_range(w as int, h as int, r, c);
                        if r != row || c != col {
                            lemma_index_distinct(w as int, r, c, row as int, col as int);
                            assert(cell(before, w as int, r, c) == cell(bits_of(next), w as int, r, c));
                        }
                    }
                }
                col = col + 1;
            }
            row = row + 1;
        }
        proof {
            let ng = next_generation(cur, w as int, h as int);
            assert forall|i: int| 0 <= i < w * h implies bits_of(next)[i] == #[trigger] ng[i] by {
                lemma_position_is_cell(w as int, h as int, i);
                lemma_next_generation_cell(cur, w as int, h as int, i / w as int, i % w as int);
                assert(cell(bits_of(next), w as int, i / w as int, i % w as int) == bits_of(next)[i]);
            }
            assert(bits_of(next) =~= ng);
        }
        self.cells = next;
        proof {
            assert forall|row: int, col: int|
                0 <= row < h && 0 <= col < w implies #[trigger] self.alive(row, col) == next_state(
                cell(cur, w as int, row, col),
                neighbor_count(cur, w as int, h as int, row, col),
            ) by {
                lemma_next_generation_cell(cur, w as int, h as int, row, col);
            }
        }
    }

    /// A universe of `DEFAULT_WIDTH` by `DEFAULT_HEIGHT` cells, where cell
    /// `i` of the row-major order is alive when `alive[i]` is: one coin flip
    /// per cell, made by the caller.
    pub fn new(alive: &[bool]) -> (r: Universe)
        requires
            alive@.len() == DEFAULT_WIDTH * DEFAULT_HEIGHT,
        ensures
            r.wf(),
            r@.width == DEFAULT_WIDTH,
            r@.height == DEFAULT_HEIGHT,
            r@.cells == alive@,
    {
        let width = DEFAULT_WIDTH;
        let height = DEFAULT_HEIGHT;
        let size = (width * height) as usize;
        let mut cells = cleared_bits(size);
        let mut i: usize = 0;
        while i < size
            invariant
                size == alive@.len(),
                i <= size,
                bits_of(cells).len() == size,
                forall|k: int| 0 <= k < i ==> #[trigger] bits_of(cells)[k] == alive@[k],
            decreases size - i,
        {
            set_bit(&mut cells, i, alive[i]);
            i = i + 1;
        }
        proof {
            assert(bits_of(cells) =~= alive@);
        }
        Universe { width, height, cells }
    }

    /// The width of the grid, in cells.
    pub fn width(&self) -> (r: u32)
        ensures
            r == self@.width,
    {
        self.width
    }

    /// The height of the grid, in cells.
    pub fn height(&self) -> (r: u32)
        ensures
            r == self@.height,
    {
        self.height
    }

    /// The packed cells, bit `i` for the cell at position `i`.
    pub fn get_cells(&self) -> (r: &FixedBitSet)
        ensures
            bits_of(*r) == self@.cells,
    {
        &self.cells
    }

    /// The packed cells as 32-bit blocks: the cell at position `i` is bit
    /// `i % 32` of block `i / 32`. The view lasts until the next change.
    pub fn cells(&self) -> (r: &[u32])
        ensures
            r@.len() == (self@.cells.len() + 31) / 32,
            forall|i: int|
                0 <= i < self@.cells.len() ==> (#[trigger] self@.cells[i] == ((r@[i / 32] >> ((i
                    % 32) as u32)) & 1u32 == 1u32)),
    {
        bit_blocks(&self.cells)
    }

    /// Brings to life each cell named by a (row, column) pair; the others keep
    /// their state.
    pub fn set_cells(&mut self, cells: &[(u32, u32)])
        requires
            old(self).wf(),
            forall|j: int|
                0 <= j < cells@.len() ==> #[trigger] cells@[j].0 < old(self)@.height && cells@[j].1
                    < old(self)@.width,
        ensures
            final(self).wf(),
            final(self)@.width == old(self)@.width,
            final(self)@.height == old(self)@.height,
            forall|i: int|
                0 <= i < old(self)@.cells.len() ==> #[trigger] final(self)@.cells[i] == (old(
                    self,
                )@.cells[i] || named_in(cells@, old(self)@.width as int, i)),
    {
        let ghost start = self@.cells;
        let ghost w = self@.width as int;
        let mut k: usize = 0;
        while k < cells.len()
            invariant
                self.wf(),
                self@.width == old(self)@.width,
                self@.height == old(self)@.height,
                w == self@.width,
                start == old(self)@.cells,
                self@.cells.len() == start.len(),
                k <= cells@.len(),
                forall|j: int|
                    0 <= j < cells@.len() ==> #[trigger] cells@[j].0 < self@.height && cells@[j].1
                        < self@.width,
                forall|i: int|
                    0 <= i < start.len() ==> #[trigger] self@.cells[i] == (start[i] || named_in(
                        cells@.take(k as int),
                        w,
                        i,
                    )),
            decreases cells@.len() - k,
        {
            let (row, col) = cells[k];
            let idx = self.get_index(row, col);
            let ghost before = self@.cells;
            set_bit(&mut self.cells, idx, true);
            proof {
                assert forall|i: int| 0 <= i < start.len() implies #[trigger] self@.cells[i] == (
                start[i] || named_in(cells@.take(k + 1), w, i)) by {
                    let prefix = cells@.take(k as int);
                    let longer = cells@.take(k + 1);
                    assert(longer[k as int] == cells@[k as int]);
                    if i == idx {
                        assert(index_of(w, longer[k as int].0 as int, longer[k as int].1 as int) == i);
                    }
                    if named_in(prefix, w, i) {
                        let j = choose|j: int|
                            0 <= j < prefix.len() && index_of(w, prefix[j].0 as int, prefix[j].1 as int)
                                == i;
                        assert(longer[j] == prefix[j]);
                    }
                    if named_in(longer, w, i) && i != idx {
                        let j = choose|j: int|
                            0 <= j < longer.len() && index_of(w, longer[j].0 as int, longer[j].1 as int)
                                == i;
                        assert(prefix[j] == longer[j]);
                    }
                }
            }
            k = k + 1;
        }
        proof {
            assert(cells@.take(cells@.len() as int) =~= cells@);
        }
    }

    /// Flips the cell at position `idx`.
    pub fn toggle(&mut self, idx: usize)
        requires
            old(self).wf(),
            idx < old(self)@.cells.len(),
        ensures
            final(self).wf(),
            final(self)@.width == old(self)@.width,
            final(self)@.height == old(self)@.height,
            final(self)@.cells == toggled(old(self)@.cells, idx as int),
    {
        let alive = bit_at(&self.cells, idx);
        set_bit(&mut self.cells, idx, !alive);
    }

    /// Flips the cell at (`row`, `column`).
    pub fn toggle_cell(&mut self, row: u32, column: u32)
        requires
            old(self).wf(),
            row < old(self)@.height,
            column < old(self)@.width,
        ensures
            final(self).wf(),
            final(self)@.width == old(self)@.width,
            final(self)@.height == old(self)@.height,
            final(self)@.cells == toggled(
                old(self)@.cells,
                index_of(old(self)@.width as int, row as int, column as int),
            ),
    {
        let idx = self.get_index(row, column);
        flip_bit(&mut self.cells, idx);
    }

    /// Sets the width to `width` and makes every cell dead: no earlier state
    /// is kept.
    pub fn set_width(&mut self, width: u32)
        requires
            old(self).wf(),
            width > 0,
            width * old(self)@.height <= u32::MAX,
        ensures
            final(self).wf(),
            final(self)@.width == width,
            final(self)@.height == old(self)@.height,
            final(self)@.cells == all_dead((width * old(self)@.height) as nat),
    {
        self.width = width;
        let size = (width * self.height) as usize;
        self.cells = cleared_bits(size);
    }

    /// Sets the height to `height` and makes every cell dead: no earlier state
    /// is kept.
    pub fn set_height(&mut self, height: u32)
        requires
            old(self).wf(),
            height > 0,
            old(self)@.width * height <= u32::MAX,
        ensures
            final(self).wf(),
            final(self)@.width == old(self)@.width,
            final(self)@.height == height,
            final(self)@.cells == all_dead((old(self)@.width * height) as nat),
    {
        self.height = height;
        let size = (self.width * height) as usize;
        self.cells = cleared_bits(size);
    }
}

/// Whether some (row, column) pair of `cells` names position `i` of a grid
/// `width` wide.
pub open spec fn named_in(cells: Seq<(u32, u32)>, width: int, i: int) -> bool {
    exists|j: int|
        0 <= j < cells.len() && #[trigger] index_of(width, cells[j].0 as int, cells[j].1 as int) == i
}

} // verus!
