//! Proved behaviours of the engine's grid model.
//!
//! A pattern is a predicate on (row, col) positions; a grid matches a
//! pattern when exactly the positions the pattern selects are live. The
//! lemmas here lift [`next_grid`] from flat sequences to patterns, and from
//! that prove the classic Game of Life behaviours: a toggle undoes itself,
//! stepping is deterministic, a 2x2 block away from the border is a still
//! life, a blinker oscillates with period 2, and a lone corner cell dies.

use vstd::prelude::*;

verus! {

use crate::grid::cell_at;
use crate::grid::flat_idx;
use crate::grid::in_range;
use crate::grid::live_neighbors;
use crate::grid::next_cell;
use crate::grid::next_grid;
use crate::grid::one_if;
use crate::grid::toggled;
use crate::grid::lemma_flat_compose;
use crate::grid::lemma_flat_decompose;

/// Toggling one cell twice restores the grid exactly.
pub proof fn lemma_toggle_involution(cells: Seq<bool>, i: int)
    requires
        0 <= i < cells.len(),
    ensures
        toggled(toggled(cells, i), i) == cells,
{
    assert(toggled(toggled(cells, i), i) =~= cells);
}

/// Two grids with the same dimensions and identical cell contents step to
/// identical next generations: the transition reads nothing but the grid.
pub proof fn lemma_step_deterministic(a: Seq<bool>, b: Seq<bool>, rows: int, cols: int)
    requires
        a.len() == b.len(),
        forall|i: int| 0 <= i < a.len() ==> a[i] == b[i],
    ensures
        next_grid(a, rows, cols) == next_grid(b, rows, cols),
{
    assert(a =~= b);
}

/// A grid matches a pattern when its live positions are exactly those the
/// pattern selects.
pub open spec fn matches_pattern(
    cells: Seq<bool>,
    rows: int,
    cols: int,
    pat: spec_fn(int, int) -> bool,
) -> bool {
    &&& cells.len() == rows * cols
    &&& forall|i: int| 0 <= i < cells.len() ==> #[trigger] cells[i] == pat(i / cols, i % cols)
}

/// On a grid that matches `pat`, a position holds a live cell exactly when
/// it is on the grid and selected by `pat`.
pub proof fn lemma_pattern_cell_at(
    cells: Seq<bool>,
    rows: int,
    cols: int,
    pat: spec_fn(int, int) -> bool,
    r: int,
    c: int,
)
    requires
        1 <= rows,
        1 <= cols,
        matches_pattern(cells, rows, cols, pat),
    ensures
        cell_at(cells, rows, cols, r, c) == (in_range(rows, cols, r, c) && pat(r, c)),
{
    if in_range(rows, cols, r, c) {
        lemma_flat_compose(r, c, rows, cols);
        assert(cells[flat_idx(r, c, cols)] == pat(r, c));
    }
}

/// The live-neighbor count of (r, c), read off a pattern rather than a
/// grid: one for each of the 8 neighbor positions that lies on the grid
/// and is selected.
pub open spec fn pattern_neighbors(
    rows: int,
    cols: int,
    pat: spec_fn(int, int) -> bool,
    r: int,
    c: int,
) -> int {
    one_if(in_range(rows, cols, r - 1, c - 1) && pat(r - 1, c - 1))
        + one_if(in_range(rows, cols, r - 1, c) && pat(r - 1, c))
        + one_if(in_range(rows, cols, r - 1, c + 1) && pat(r - 1, c + 1))
        + one_if(in_range(rows, cols, r, c - 1) && pat(r, c - 1))
        + one_if(in_range(rows, cols, r, c + 1) && pat(r, c + 1))
        + one_if(in_range(rows, cols, r + 1, c - 1) && pat(r + 1, c - 1))
        + one_if(in_range(rows, cols, r + 1, c) && pat(r + 1, c))
        + one_if(in_range(rows, cols, r + 1, c + 1) && pat(r + 1, c + 1))
}

/// On a matching grid the stored neighbor count and the pattern's agree.
pub proof fn lemma_pattern_neighbors(
    cells: Seq<bool>,
    rows: int,
    cols: int,
    pat: spec_fn(int, int) -> bool,
    r: int,
    c: int,
)
    requires
        1 <= rows,
        1 <= cols,
        matches_pattern(cells, rows, cols, pat),
    ensures
        live_neighbors(cells, rows, cols, r, c) == pattern_neighbors(rows, cols, pat, r, c),
{
    lemma_pattern_cell_at(cells, rows, cols, pat, r - 1, c - 1);
    lemma_pattern_cell_at(cells, rows, cols, pat, r - 1, c);
    lemma_pattern_cell_at(cells, rows, cols, pat, r - 1, c + 1);
    lemma_pattern_cell_at(cells, rows, cols, pat, r, c - 1);
    lemma_pattern_cell_at(cells, rows, cols, pat, r, c + 1);
    lemma_pattern_cell_at(cells, rows, cols, pat, r + 1, c - 1);
    lemma_pattern_cell_at(cells, rows, cols, pat, r + 1, c);
    lemma_pattern_cell_at(cells, rows, cols, pat, r + 1, c + 1);
}

/// Conway's rule applied to a pattern: the pattern of the next generation
/// of any grid that matches `pat`.
pub open spec fn pattern_next(
    rows: int,
    cols: int,
    pat: spec_fn(int, int) -> bool,
) -> spec_fn(int, int) -> bool {
    |r: int, c: int|
        {
            let n = pattern_neighbors(rows, cols, pat, r, c);
            if in_range(rows, cols, r, c) && pat(r, c) {
                n == 2 || n == 3
            } else {
                n == 3
            }
        }
}

/// Stepping a grid that matches `pat` yields a grid that matches
/// `pattern_next` of `pat`.
pub proof fn lemma_pattern_step(cells: Seq<bool>, rows: int, cols: int, pat: spec_fn(int, int) -> bool)
    requires
        1 <= rows,
        1 <= cols,
        matches_pattern(cells, rows, cols, pat),
    ensures
        matches_pattern(next_grid(cells, rows, cols), rows, cols, pattern_next(rows, cols, pat)),
{
    let nxt = next_grid(cells, rows, cols);
    assert(nxt.len() == rows * cols);
    assert forall|i: int| 0 <= i < nxt.len() implies #[trigger] nxt[i] == pattern_next(
        rows,
        cols,
        pat,
    )(i / cols, i % cols) by {
        lemma_flat_decompose(i, rows, cols);
        let r = i / cols;
        let c = i % cols;
        lemma_pattern_cell_at(cells, rows, cols, pat, r, c);
        lemma_pattern_neighbors(cells, rows, cols, pat, r, c);
        assert(nxt[i] == next_cell(cells, rows, cols, r, c));
    }
}

/// Two grids of the same dimensions that match patterns agreeing on every
/// on-grid position are the same grid.
pub proof fn lemma_match_unique(
    a: Seq<bool>,
    b: Seq<bool>,
    rows: int,
    cols: int,
    pa: spec_fn(int, int) -> bool,
    pb: spec_fn(int, int) -> bool,
)
    requires
        1 <= rows,
        1 <= cols,
        matches_pattern(a, rows, cols, pa),
        matches_pattern(b, rows, cols, pb),
        forall|r: int, c: int| in_range(rows, cols, r, c) ==> #[trigger] pa(r, c) == pb(r, c),
    ensures
        a == b,
{
    assert forall|i: int| 0 <= i < a.len() implies a[i] == b[i] by {
        lemma_flat_decompose(i, rows, cols);
    }
    assert(a =~= b);
}

/// The 2x2 block of live cells whose top-left corner is (r0, c0).
pub open spec fn block_pattern(r0: int, c0: int) -> spec_fn(int, int) -> bool {
    |r: int, c: int| r0 <= r <= r0 + 1 && c0 <= c <= c0 + 1
}

/// A 2x2 block of live cells away from every border, with all other cells
/// dead, is a still life: one step leaves the grid unchanged.
#[verifier::rlimit(50)]
pub proof fn lemma_block_still_life(cells: Seq<bool>, rows: int, cols: int, r0: int, c0: int)
    requires
        1 <= r0 && r0 + 1 <= rows - 2,
        1 <= c0 && c0 + 1 <= cols - 2,
        matches_pattern(cells, rows, cols, block_pattern(r0, c0)),
    ensures
        next_grid(cells, rows, cols) == cells,
{
    let pat = block_pattern(r0, c0);
    lemma_pattern_step(cells, rows, cols, pat);
    assert forall|r: int, c: int| in_range(rows, cols, r, c) implies #[trigger] pattern_next(
        rows,
        cols,
        pat,
    )(r, c) == pat(r, c) by {
        assert(pattern_next(rows, cols, pat)(r, c) == pat(r, c));
    }
    lemma_match_unique(
        next_grid(cells, rows, cols),
        cells,
        rows,
        cols,
        pattern_next(rows, cols, pat),
        pat,
    );
}

/// The horizontal blinker: three live cells in row r0, columns c0 to c0+2.
pub open spec fn horizontal_blinker(r0: int, c0: int) -> spec_fn(int, int) -> bool {
    |r: int, c: int| r == r0 && c0 <= c <= c0 + 2
}

/// The vertical blinker: three live cells in column c0+1, rows r0-1 to
/// r0+1, the same center as the horizontal one.
pub open spec fn vertical_blinker(r0: int, c0: int) -> spec_fn(int, int) -> bool {
    |r: int, c: int| c == c0 + 1 && r0 - 1 <= r <= r0 + 1
}

/// A horizontal blinker whose 3x3 bounding box lies on the grid becomes
/// the vertical blinker after one step, and returns to the horizontal
/// form after a second: the blinker oscillates with period 2.
#[verifier::rlimit(50)]
pub proof fn lemma_blinker_oscillates(cells: Seq<bool>, rows: int, cols: int, r0: int, c0: int)
    requires
        1 <= r0 && r0 + 1 <= rows - 1,
        0 <= c0 && c0 + 2 <= cols - 1,
        matches_pattern(cells, rows, cols, horizontal_blinker(r0, c0)),
    ensures
        matches_pattern(next_grid(cells, rows, cols), rows, cols, vertical_blinker(r0, c0)),
        next_grid(next_grid(cells, rows, cols), rows, cols) == cells,
{
    let horiz = horizontal_blinker(r0, c0);
    let vert = vertical_blinker(r0, c0);
    let mid = next_grid(cells, rows, cols);
    lemma_pattern_step(cells, rows, cols, horiz);
    assert forall|r: int, c: int| in_range(rows, cols, r, c) implies #[trigger] pattern_next(
        rows,
        cols,
        horiz,
    )(r, c) == vert(r, c) by {
        assert(pattern_next(rows, cols, horiz)(r, c) == vert(r, c));
    }
    assert(matches_pattern(mid, rows, cols, vert)) by {
        assert forall|i: int| 0 <= i < mid.len() implies #[trigger] mid[i] == vert(i / cols, i % cols) by {
            lemma_flat_decompose(i, rows, cols);
        }
    }
    lemma_pattern_step(mid, rows, cols, vert);
    assert forall|r: int, c: int| in_range(rows, cols, r, c) implies #[trigger] pattern_next(
        rows,
        cols,
        vert,
    )(r, c) == horiz(r, c) by {
        assert(pattern_next(rows, cols, vert)(r, c) == horiz(r, c));
    }
    lemma_match_unique(
        next_grid(mid, rows, cols),
        cells,
        rows,
        cols,
        pattern_next(rows, cols, vert),
        horiz,
    );
}

/// A single live cell in the corner (0, 0), with every other cell dead.
pub open spec fn lone_corner() -> spec_fn(int, int) -> bool {
    |r: int, c: int| r == 0 && c == 0
}

/// A lone live cell in the corner has no live neighbor — the grid does not
/// wrap around — so one step leaves every cell of the grid dead.
pub proof fn lemma_corner_cell_dies(cells: Seq<bool>, rows: int, cols: int)
    requires
        1 <= rows,
        1 <= cols,
        matches_pattern(cells, rows, cols, lone_corner()),
    ensures
        forall|i: int| 0 <= i < next_grid(cells, rows, cols).len()
            ==> !(#[trigger] next_grid(cells, rows, cols)[i]),
{
    let pat = lone_corner();
    lemma_pattern_step(cells, rows, cols, pat);
    let nxt = next_grid(cells, rows, cols);
    assert forall|i: int| 0 <= i < nxt.len() implies !(#[trigger] nxt[i]) by {
        lemma_flat_decompose(i, rows, cols);
        let r = i / cols;
        let c = i % cols;
        assert(nxt[i] == pattern_next(rows, cols, pat)(r, c));
        assert(pattern_neighbors(rows, cols, pat, r, c) <= 1);
    }
}

} // verus!
