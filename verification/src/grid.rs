//! The mathematical model of a finite, non-toroidal Game of Life grid.
//!
//! A grid of `rows * cols` cells is modelled as a flat `Seq<bool>`, where the
//! cell at (row, col) sits at flat position `row * cols + col`. The functions
//! here define that addressing scheme, the Moore-neighborhood live count, and
//! the synchronous transition to the next generation.

use vstd::prelude::*;

verus! {

use vstd::arithmetic::div_mod::lemma_fundamental_div_mod_converse;
use vstd::arithmetic::div_mod::lemma_mod_bound;
use vstd::arithmetic::div_mod::lemma_multiply_divide_lt;
use vstd::arithmetic::div_mod::lemma_fundamental_div_mod;
use vstd::arithmetic::mul::lemma_mul_inequality;

/// The flat position of the cell at (r, c) on a grid with `cols` columns.
pub open spec fn flat_idx(r: int, c: int, cols: int) -> int {
    r * cols + c
}

/// True when (r, c) is a position on a grid of `rows` rows and `cols` columns.
pub open spec fn in_range(rows: int, cols: int, r: int, c: int) -> bool {
    0 <= r < rows && 0 <= c < cols
}

/// True when (r, c) lies on the grid and holds a live cell. A position off
/// the grid counts as permanently dead: the grid does not wrap around.
pub open spec fn cell_at(cells: Seq<bool>, rows: int, cols: int, r: int, c: int) -> bool {
    in_range(rows, cols, r, c) && cells[flat_idx(r, c, cols)]
}

/// 1 for a live cell, 0 for a dead one.
pub open spec fn one_if(b: bool) -> int {
    if b { 1 } else { 0 }
}

/// The number of live cells among the 8 Moore-neighborhood positions of
/// (r, c), the cell itself excluded. Off-grid positions contribute zero.
pub open spec fn live_neighbors(cells: Seq<bool>, rows: int, cols: int, r: int, c: int) -> int {
    one_if(cell_at(cells, rows, cols, r - 1, c - 1))
        + one_if(cell_at(cells, rows, cols, r - 1, c))
        + one_if(cell_at(cells, rows, cols, r - 1, c + 1))
        + one_if(cell_at(cells, rows, cols, r, c - 1))
        + one_if(cell_at(cells, rows, cols, r, c + 1))
        + one_if(cell_at(cells, rows, cols, r + 1, c - 1))
        + one_if(cell_at(cells, rows, cols, r + 1, c))
        + one_if(cell_at(cells, rows, cols, r + 1, c + 1))
}

/// Conway's rule for one cell: a live cell survives with 2 or 3 live
/// neighbors; a dead cell becomes live with exactly 3; all else is dead.
pub open spec fn next_cell(cells: Seq<bool>, rows: int, cols: int, r: int, c: int) -> bool {
    let n = live_neighbors(cells, rows, cols, r, c);
    if cell_at(cells, rows, cols, r, c) {
        n == 2 || n == 3
    } else {
        n == 3
    }
}

/// The whole next generation, computed synchronously: every cell of the
/// result is a function of the previous generation alone.
pub open spec fn next_grid(cells: Seq<bool>, rows: int, cols: int) -> Seq<bool> {
    Seq::new((rows * cols) as nat, |i: int| next_cell(cells, rows, cols, i / cols, i % cols))
}

/// The grid after flipping the single cell at flat position `i`.
pub open spec fn toggled(cells: Seq<bool>, i: int) -> Seq<bool> {
    cells.update(i, !cells[i])
}

/// An in-range (r, c) maps to a flat position inside the grid, and the flat
/// position decomposes back into (r, c) by division and remainder.
pub proof fn lemma_flat_compose(r: int, c: int, rows: int, cols: int)
    requires
        in_range(rows, cols, r, c),
    ensures
        0 <= flat_idx(r, c, cols) < rows * cols,
        flat_idx(r, c, cols) / cols == r,
        flat_idx(r, c, cols) % cols == c,
{
    lemma_mul_inequality(r + 1, rows, cols);
    assert((r + 1) * cols == r * cols + cols) by (nonlinear_arith);
    lemma_fundamental_div_mod_converse(r * cols + c, cols, r, c);
}

/// Every flat position on the grid decomposes into an in-range (r, c).
pub proof fn lemma_flat_decompose(i: int, rows: int, cols: int)
    requires
        rows >= 1,
        cols >= 1,
        0 <= i < rows * cols,
    ensures
        in_range(rows, cols, i / cols, i % cols),
        i == flat_idx(i / cols, i % cols, cols),
{
    lemma_mod_bound(i, cols);
    assert(cols * rows == rows * cols) by (nonlinear_arith);
    lemma_multiply_divide_lt(i, cols, rows);
    lemma_fundamental_div_mod(i, cols);
    assert(cols * (i / cols) == (i / cols) * cols) by (nonlinear_arith);
    assert(i / cols >= 0) by {
        if i / cols < 0 {
            assert((i / cols) * cols <= (-1) * cols) by (nonlinear_arith)
                requires i / cols <= -1 && cols >= 1;
        }
    }
}

} // verus!
