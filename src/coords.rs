use vstd::prelude::*;
use vstd::arithmetic::div_mod::lemma_fundamental_div_mod_converse;

use crate::config::Config;

verus! {

/// Row-major position of cell `(x, y)` in a grid `w` cells wide.
pub open spec fn index_of(w: int, x: int, y: int) -> int {
    x + w * y
}

/// Column of the cell at index `i` in a grid `w` cells wide.
pub open spec fn column_of(w: int, i: int) -> int {
    i % w
}

/// Row of the cell at index `i` in a grid `w` cells wide.
pub open spec fn row_of(w: int, i: int) -> int {
    i / w
}

/// A position inside a `w` by `h` grid lies inside its flat array.
pub proof fn lemma_index_in_bounds(w: int, h: int, x: int, y: int)
    requires
        0 <= x < w,
        0 <= y < h,
    ensures
        0 <= index_of(w, x, y) < w * h,
{
    assert(0 <= x + w * y < w * h) by (nonlinear_arith)
        requires
            0 <= x < w,
            0 <= y < h,
    ;
}

/// Turning a position into an index and back gives the position again.
pub proof fn lemma_coords_of_index(w: int, x: int, y: int)
    requires
        0 <= x < w,
        0 <= y,
    ensures
        column_of(w, index_of(w, x, y)) == x,
        row_of(w, index_of(w, x, y)) == y,
{
    assert(x + w * y == y * w + x) by (nonlinear_arith);
    lemma_fundamental_div_mod_converse(x + w * y, w, y, x);
}

/// Turning a valid index into a position and back gives the index again,
/// and the position lies inside the grid.
pub proof fn lemma_index_of_coords(w: int, h: int, i: int)
    requires
        w > 0,
        0 <= i < w * h,
    ensures
        0 <= column_of(w, i) < w,
        0 <= row_of(w, i) < h,
        index_of(w, column_of(w, i), row_of(w, i)) == i,
{
    assert(i == w * (i / w) + i % w && 0 <= i % w < w) by (nonlinear_arith)
        requires
            w > 0,
            0 <= i,
    {
        vstd::arithmetic::div_mod::lemma_fundamental_div_mod(i, w);
    }
    assert(0 <= i / w < h) by (nonlinear_arith)
        requires
            w > 0,
            0 <= i < w * h,
            i == w * (i / w) + i % w,
            0 <= i % w < w,
    ;
}

/// Index of cell `(x, y)` in the flat grid of `cfg`.
pub fn coords_to_index(cfg: &Config, x: usize, y: usize) -> (r: usize)
    requires
        cfg.wf(),
        x < cfg.width,
        y < cfg.height,
    ensures
        r == index_of(cfg.width as int, x as int, y as int),
        r < cfg.cells(),
{
    proof {
        lemma_index_in_bounds(cfg.width as int, cfg.height as int, x as int, y as int);
    }
    x + cfg.width * y
}

/// Column and row of the cell at index `i` in a grid `grid_width` cells wide.
pub fn index_to_coords_with_grid_width(i: usize, grid_width: usize) -> (r: (usize, usize))
    requires
        grid_width > 0,
    ensures
        r.0 == column_of(grid_width as int, i as int),
        r.1 == row_of(grid_width as int, i as int),
{
    let x = i % grid_width;
    let y = i / grid_width;
    (x, y)
}

/// Column and row of the cell at index `i` in the grid of `cfg`.
pub fn index_to_coords(cfg: &Config, i: usize) -> (r: (usize, usize))
    requires
        cfg.wf(),
        i < cfg.cells(),
    ensures
        r.0 == column_of(cfg.width as int, i as int),
        r.1 == row_of(cfg.width as int, i as int),
        r.0 < cfg.width,
        r.1 < cfg.height,
        index_of(cfg.width as int, r.0 as int, r.1 as int) == i,
{
    proof {
        lemma_index_of_coords(cfg.width as int, cfg.height as int, i as int);
    }
    index_to_coords_with_grid_width(i, cfg.width)
}

} // verus!
