//! The simulation engine: one owned grid and the operations over it.
//!
//! `GridEngine` holds the sole grid of a session. Cells are stored in one
//! flat vector, addressed as `row * col_count + col`. Every operation keeps
//! the dimension invariant `cells.len() == row_count * col_count`, and
//! `step` is specified to produce exactly [`next_grid`] of the prior state.

use vstd::prelude::*;

verus! {

use crate::grid::cell_at;
use crate::grid::flat_idx;
use crate::grid::in_range;
use crate::grid::live_neighbors;
use crate::grid::next_cell;
use crate::grid::next_grid;
use crate::grid::toggled;
use crate::grid::lemma_flat_compose;

/// The Game of Life engine: a finite, non-toroidal grid of boolean cells,
/// live (`true`) or dead (`false`), owned for the lifetime of a session.
pub struct GridEngine {
    cells: Vec<bool>,
    row_count: usize,
    col_count: usize,
}

/// A read-only copy of the engine's state, for rendering: the flat cell
/// vector together with the dimensions that index it.
pub struct Snapshot {
    pub cells: Vec<bool>,
    pub row_count: usize,
    pub col_count: usize,
}

/// Builds a vector of `n` dead cells.
fn dead_cells(n: usize) -> (v: Vec<bool>)
    ensures
        v@.len() == n,
        forall|i: int| 0 <= i < n ==> !v@[i],
{
    let mut v: Vec<bool> = Vec::new();
    let mut k: usize = 0;
    while k < n
        invariant
            k <= n,
            v@.len() == k,
            forall|i: int| 0 <= i < k ==> !v@[i],
        decreases n - k,
    {
        v.push(false);
        k = k + 1;
    }
    v
}

impl GridEngine {
    /// The number of rows, as a mathematical integer.
    pub closed spec fn rows(&self) -> int {
        self.row_count as int
    }

    /// The number of columns, as a mathematical integer.
    pub closed spec fn cols(&self) -> int {
        self.col_count as int
    }

    /// The grid contents as a flat sequence, row by row.
    pub closed spec fn grid(&self) -> Seq<bool> {
        self.cells@
    }

    /// The dimension invariant: positive dimensions, one stored cell per
    /// grid position, and a grid small enough to index with `usize`.
    pub open spec fn wf(&self) -> bool {
        &&& 1 <= self.rows()
        &&& 1 <= self.cols()
        &&& self.grid().len() == self.rows() * self.cols()
        &&& self.rows() * self.cols() <= usize::MAX
    }

    /// True when (r, c) is on the grid and live.
    pub open spec fn cell(&self, r: int, c: int) -> bool {
        cell_at(self.grid(), self.rows(), self.cols(), r, c)
    }

    /// Creates an engine whose grid has the given dimensions and every
    /// cell dead.
    pub fn create(row_count: usize, col_count: usize) -> (engine: Self)
        requires
            1 <= row_count,
            1 <= col_count,
            row_count * col_count <= usize::MAX,
        ensures
            engine.wf(),
            engine.rows() == row_count,
            engine.cols() == col_count,
            forall|i: int| 0 <= i < engine.grid().len() ==> !engine.grid()[i],
    {
        let n = row_count * col_count;
        GridEngine { cells: dead_cells(n), row_count, col_count }
    }

    /// The current number of rows.
    pub fn row_count(&self) -> (r: usize)
        ensures
            r == self.rows(),
    {
        self.row_count
    }

    /// The current number of columns.
    pub fn col_count(&self) -> (c: usize)
        ensures
            c == self.cols(),
    {
        self.col_count
    }

    /// The flat position of (row, col) in the cell vector.
    fn row_col_as_idx(&self, row: usize, col: usize) -> (i: usize)
        requires
            self.wf(),
            row < self.rows(),
            col < self.cols(),
        ensures
            i == flat_idx(row as int, col as int, self.cols()),
            i < self.grid().len(),
    {
        proof {
            lemma_flat_compose(row as int, col as int, self.rows(), self.cols());
        }
        row * self.col_count + col
    }

    /// The cell at (row, col), or `None` when the position is off the grid.
    pub fn get_at_index(&self, row: usize, col: usize) -> (cell: Option<bool>)
        requires
            self.wf(),
        ensures
            cell == if in_range(self.rows(), self.cols(), row as int, col as int) {
                Some(self.cell(row as int, col as int))
            } else {
                None::<bool>
            },
    {
        if row < self.row_count && col < self.col_count {
            let i = self.row_col_as_idx(row, col);
            Some(self.cells[i])
        } else {
            None
        }
    }

    /// Flips the one cell at (row, col); every other cell is unchanged.
    pub fn toggle(&mut self, row: usize, col: usize)
        requires
            old(self).wf(),
            row < old(self).rows(),
            col < old(self).cols(),
        ensures
            final(self).wf(),
            final(self).rows() == old(self).rows(),
            final(self).cols() == old(self).cols(),
            final(self).grid() == toggled(
                old(self).grid(),
                flat_idx(row as int, col as int, old(self).cols()),
            ),
            final(self).cell(row as int, col as int) == !old(self).cell(row as int, col as int),
            forall|r: int, c: int|
                in_range(old(self).rows(), old(self).cols(), r, c) && !(r == row && c == col)
                    ==> final(self).cell(r, c) == old(self).cell(r, c),
    {
        let i = self.row_col_as_idx(row, col);
        let v = self.cells[i];
        self.cells.set(i, !v);
        proof {
            lemma_flat_compose(row as int, col as int, self.rows(), self.cols());
            assert forall|r: int, c: int|
                in_range(self.rows(), self.cols(), r, c) && !(r == row && c == col)
                    implies self.cell(r, c) == old(self).cell(r, c) by {
                lemma_flat_compose(r, c, self.rows(), self.cols());
            }
        }
    }

    /// Sets every cell to dead; the dimensions stay as they are.
    pub fn reset(&mut self)
        requires
            old(self).wf(),
        ensures
            final(self).wf(),
            final(self).rows() == old(self).rows(),
            final(self).cols() == old(self).cols(),
            forall|i: int| 0 <= i < final(self).grid().len() ==> !final(self).grid()[i],
    {
        let n = self.cells.len();
        self.cells = dead_cells(n);
    }

    /// Replaces the grid with a fresh all-dead grid of the new dimensions.
    /// The prior pattern is discarded, never re-mapped.
    pub fn resize(&mut self, row_count: usize, col_count: usize)
        requires
            old(self).wf(),
            1 <= row_count,
            1 <= col_count,
            row_count * col_count <= usize::MAX,
        ensures
            final(self).wf(),
            final(self).rows() == row_count,
            final(self).cols() == col_count,
            forall|i: int| 0 <= i < final(self).grid().len() ==> !final(self).grid()[i],
    {
        let n = row_count * col_count;
        self.row_count = row_count;
        self.col_count = col_count;
        self.cells = dead_cells(n);
    }

    /// The number of live cells among the 8 Moore neighbors of (row, col);
    /// positions off the grid contribute zero.
    #[verifier::rlimit(50)]
    fn alive_neighbors(&self, row: usize, col: usize) -> (n: usize)
        requires
            self.wf(),
            row < self.rows(),
            col < self.cols(),
        ensures
            n == live_neighbors(self.grid(), self.rows(), self.cols(), row as int, col as int),
    {
        let mut n: usize = 0;
        if row > 0 && col > 0 && self.is_live(row - 1, col - 1) {
            n = n + 1;
        }
        if row > 0 && self.is_live(row - 1, col) {
            n = n + 1;
        }
        if row > 0 && col + 1 < self.col_count && self.is_live(row - 1, col + 1) {
            n = n + 1;
        }
        if col > 0 && self.is_live(row, col - 1) {
            n = n + 1;
        }
        if col + 1 < self.col_count && self.is_live(row, col + 1) {
            n = n + 1;
        }
        if row + 1 < self.row_count && col > 0 && self.is_live(row + 1, col - 1) {
            n = n + 1;
        }
        if row + 1 < self.row_count && self.is_live(row + 1, col) {
            n = n + 1;
        }
        if row + 1 < self.row_count && col + 1 < self.col_count && self.is_live(row + 1, col + 1) {
            n = n + 1;
        }
        n
    }

    /// The cell at an in-range (row, col).
    fn is_live(&self, row: usize, col: usize) -> (live: bool)
        requires
            self.wf(),
            row < self.rows(),
            col < self.cols(),
        ensures
            live == self.cell(row as int, col as int),
    {
        let i = self.row_col_as_idx(row, col);
        self.cells[i]
    }

    /// Advances the grid by exactly one generation: every cell of the new
    /// grid follows Conway's rule applied to the frozen prior grid.
    pub fn step(&mut self)
        requires
            old(self).wf(),
        ensures
            final(self).wf(),
            final(self).rows() == old(self).rows(),
            final(self).cols() == old(self).cols(),
            final(self).grid() == next_grid(old(self).grid(), old(self).rows(), old(self).cols()),
    {
        let rows = self.row_count;
        let cols = self.col_count;
        let mut new_cells: Vec<bool> = Vec::new();
        let mut row: usize = 0;
        while row < rows
            invariant
                self == old(self),
                self.wf(),
                rows == self.rows(),
                cols == self.cols(),
                row <= rows,
                new_cells@.len() == row * cols,
                forall|i: int| 0 <= i < new_cells@.len()
                    ==> new_cells@[i] == next_cell(self.grid(), rows as int, cols as int, i / cols as int, i % cols as int),
            decreases rows - row,
        {
            let mut col: usize = 0;
            while col < cols
                invariant
                    self == old(self),
                    self.wf(),
                    rows == self.rows(),
                    cols == self.cols(),
                    row < rows,
                    col <= cols,
                    new_cells@.len() == row * cols + col,
                    forall|i: int| 0 <= i < new_cells@.len()
                        ==> new_cells@[i] == next_cell(self.grid(), rows as int, cols as int, i / cols as int, i % cols as int),
                decreases cols - col,
            {
                proof {
                    lemma_flat_compose(row as int, col as int, rows as int, cols as int);
                }
                let n = self.alive_neighbors(row, col);
                let cur = self.is_live(row, col);
                let next = if cur { n == 2 || n == 3 } else { n == 3 };
                new_cells.push(next);
                col = col + 1;
            }
            proof {
                assert((row + 1) * cols == row * cols + cols) by (nonlinear_arith);
            }
            row = row + 1;
        }
        self.cells = new_cells;
        proof {
            assert(self.grid() =~= next_grid(old(self).grid(), old(self).rows(), old(self).cols()));
        }
    }

    /// Overwrites the whole grid with the given bits, one per cell in flat
    /// order: the new contents are exactly `bits`, whatever the grid held
    /// before. The dimensions stay as they are.
    pub fn fill_from_bits(&mut self, bits: &Vec<bool>)
        requires
            old(self).wf(),
            bits@.len() == old(self).grid().len(),
        ensures
            final(self).wf(),
            final(self).rows() == old(self).rows(),
            final(self).cols() == old(self).cols(),
            final(self).grid() == bits@,
    {
        let n = self.cells.len();
        let mut k: usize = 0;
        while k < n
            invariant
                n == self.grid().len(),
                n == bits@.len(),
                self.wf(),
                self.rows() == old(self).rows(),
                self.cols() == old(self).cols(),
                k <= n,
                forall|i: int| 0 <= i < k ==> self.grid()[i] == bits@[i],
            decreases n - k,
        {
            let b = bits[k];
            self.cells.set(k, b);
            k = k + 1;
        }
        proof {
            assert(self.grid() =~= bits@);
        }
    }

    /// Redraws every cell with a fresh independent boolean from the random
    /// source, irrespective of its current value: it draws one bit per cell
    /// and hands them to [`Self::fill_from_bits`], a full-grid overwrite.
    /// The dimensions stay as they are; the cells themselves are random,
    /// so nothing more is promised here.
    pub fn randomize(&mut self)
        requires
            old(self).wf(),
        ensures
            final(self).wf(),
            final(self).rows() == old(self).rows(),
            final(self).cols() == old(self).cols(),
    {
        let n = self.cells.len();
        let bits = draw_bits(n);
        self.fill_from_bits(&bits);
    }

    /// A read-only copy of the current state, exactly as of the last
    /// mutating call.
    pub fn snapshot(&self) -> (snap: Snapshot)
        requires
            self.wf(),
        ensures
            snap.cells@ == self.grid(),
            snap.row_count == self.rows(),
            snap.col_count == self.cols(),
            snap.cells@.len() == snap.row_count * snap.col_count,
    {
        let n = self.cells.len();
        let mut cells: Vec<bool> = Vec::new();
        let mut k: usize = 0;
        while k < n
            invariant
                n == self.grid().len(),
                k <= n,
                cells@.len() == k,
                forall|i: int| 0 <= i < k ==> cells@[i] == self.grid()[i],
            decreases n - k,
        {
            let b = self.cells[k];
            cells.push(b);
            k = k + 1;
        }
        proof {
            assert(cells@ =~= self.grid());
        }
        Snapshot { cells, row_count: self.row_count, col_count: self.col_count }
    }
}

/// Draws `n` fresh booleans from the random source, one per cell to fill.
fn draw_bits(n: usize) -> (bits: Vec<bool>)
    ensures
        bits@.len() == n,
{
    let mut bits: Vec<bool> = Vec::new();
    let mut k: usize = 0;
    while k < n
        invariant
            k <= n,
            bits@.len() == k,
        decreases n - k,
    {
        let b = random_bool();
        bits.push(b);
        k = k + 1;
    }
    bits
}

/// Relies on `rand::random::<bool>()`: one freshly drawn boolean, uniformly
/// distributed over `{true, false}`, from the thread-local generator. The
/// outcome is random, so nothing is promised of the value.
#[verifier::external_body]
fn random_bool() -> bool {
    rand::random()
}

} // verus!
