use vstd::prelude::*;
use rayon::iter::{IntoParallelIterator, ParallelIterator};

use crate::config::Config;
use crate::coords::{coords_to_index, index_of, lemma_coords_of_index, lemma_index_in_bounds};
use crate::rule::{alive_count, cell_rule, next_cell_state, next_value_at};

verus! {

/// Value of a freshly drawn cell: alive or dormant.
pub open spec fn cell_state_of(cfg: Config, alive: bool) -> u8 {
    if alive {
        cfg.live_value
    } else {
        0
    }
}

/// Cell `(x, y)` lies on one of the four edges of the grid.
pub open spec fn on_border(cfg: Config, x: int, y: int) -> bool {
    x == 0 || x == cfg.width - 1 || y == 0 || y == cfg.height - 1
}

/// The draw that a border cell ends up with. `rows[x]` holds the draws for
/// the top and bottom cells of column `x`, `cols[y]` those for the left and
/// right cells of row `y`; the column draws are written last, so they win
/// at the corners, and the right edge wins over the left.
pub open spec fn border_draw(
    cfg: Config,
    rows: Seq<(bool, bool)>,
    cols: Seq<(bool, bool)>,
    x: int,
    y: int,
) -> bool {
    if x == cfg.width - 1 {
        cols[y].1
    } else if x == 0 {
        cols[y].0
    } else if y == cfg.height - 1 {
        rows[x].1
    } else {
        rows[x].0
    }
}

/// Relies on rand::random::<bool>, a coin flip from the thread-local
/// generator. Nothing is promised of the value.
#[verifier::external_body]
fn random_bit() -> (r: bool) {
    rand::random::<bool>()
}

/// Relies on rayon's indexed parallel iterators: collecting
/// `(0..n).into_par_iter().map(f)` into a `Vec` gives `f(i)` at index `i`,
/// for every `i < n`.
#[verifier::external_body]
fn par_next_states(cfg: &Config, grid: &[u8]) -> (r: Vec<u8>)
    requires
        cfg.wf(),
        grid@.len() == cfg.cells(),
    ensures
        r@.len() == grid@.len(),
        forall|i: int| 0 <= i < r@.len() ==> r@[i] == next_value_at(*cfg, grid@, i),
{
    (0..grid.len()).into_par_iter().map(|i| next_cell_state(cfg, grid, i)).collect()
}

/// The cell value that a draw stands for.
pub fn cell_state(cfg: &Config, alive: bool) -> (r: u8)
    ensures
        r == cell_state_of(*cfg, alive),
{
    if alive {
        cfg.live_value
    } else {
        0
    }
}

/// A cell drawn at random: alive or dormant, each with even odds.
pub fn random_cell_state(cfg: &Config) -> (r: u8)
    ensures
        r == cfg.live_value || r == 0,
{
    cell_state(cfg, random_bit())
}

/// Applies the rule to every cell at once. Each new value is computed from
/// the given generation alone, never from a value of the new one.
pub fn next_generation(cfg: &Config, grid: &[u8]) -> (r: Vec<u8>)
    requires
        cfg.wf(),
        grid@.len() == cfg.cells(),
    ensures
        r@.len() == grid@.len(),
        forall|i: int| 0 <= i < r@.len() ==> r@[i] == next_value_at(*cfg, grid@, i),
{
    par_next_states(cfg, grid)
}

/// Overwrites the four edges of `grid` with the drawn values: first the top
/// and bottom rows from `rows`, then the left and right columns from `cols`.
/// Inner cells keep their values.
pub fn reseed_border(
    cfg: &Config,
    grid: &mut Vec<u8>,
    rows: &[(bool, bool)],
    cols: &[(bool, bool)],
)
    requires
        cfg.wf(),
        old(grid)@.len() == cfg.cells(),
        rows@.len() == cfg.width,
        cols@.len() == cfg.height,
    ensures
        final(grid)@.len() == cfg.cells(),
        forall|x: int, y: int|
            0 <= x < cfg.width && 0 <= y < cfg.height ==> #[trigger] final(grid)@[index_of(
                cfg.width as int,
                x,
                y,
            )] == if on_border(*cfg, x, y) {
                cell_state_of(*cfg, border_draw(*cfg, rows@, cols@, x, y))
            } else {
                old(grid)@[index_of(cfg.width as int, x, y)]
            },
{
    let ghost w = cfg.width as int;
    let ghost h = cfg.height as int;
    let ghost start = grid@;
    let bottom = cfg.height - 1;
    for x in 0..cfg.width
        invariant
            cfg.wf(),
            w == cfg.width,
            h == cfg.height,
            bottom == h - 1,
            rows@.len() == w,
            grid@.len() == w * h,
            start.len() == w * h,
            forall|a: int, b: int|
                0 <= a < w && 0 <= b < h ==> #[trigger] grid@[index_of(w, a, b)] == if a < x
                    && b == h - 1 {
                    cell_state_of(*cfg, rows@[a].1)
                } else if a < x && b == 0 {
                    cell_state_of(*cfg, rows@[a].0)
                } else {
                    start[index_of(w, a, b)]
                },
    {
        let top_i = coords_to_index(cfg, x, 0);
        let bottom_i = coords_to_index(cfg, x, bottom);
        let ghost before = grid@;
        grid.set(top_i, cell_state(cfg, rows[x].0));
        grid.set(bottom_i, cell_state(cfg, rows[x].1));
        assert forall|a: int, b: int| 0 <= a < w && 0 <= b < h implies #[trigger] grid@[index_of(
            w,
            a,
            b,
        )] == if a < x + 1 && b == h - 1 {
            cell_state_of(*cfg, rows@[a].1)
        } else if a < x + 1 && b == 0 {
            cell_state_of(*cfg, rows@[a].0)
        } else {
            start[index_of(w, a, b)]
        } by {
            lemma_coords_of_index(w, a, b);
            lemma_coords_of_index(w, x as int, 0);
            lemma_coords_of_index(w, x as int, h - 1);
            lemma_index_in_bounds(w, h, a, b);
            assert(before[index_of(w, a, b)] == if a < x && b == h - 1 {
                cell_state_of(*cfg, rows@[a].1)
            } else if a < x && b == 0 {
                cell_state_of(*cfg, rows@[a].0)
            } else {
                start[index_of(w, a, b)]
            });
        }
    }
    let ghost after_rows = grid@;
    let right = cfg.width - 1;
    for y in 0..cfg.height
        invariant
            cfg.wf(),
            w == cfg.width,
            h == cfg.height,
            right == w - 1,
            cols@.len() == h,
            grid@.len() == w * h,
            after_rows.len() == w * h,
            forall|a: int, b: int|
                0 <= a < w && 0 <= b < h ==> #[trigger] grid@[index_of(w, a, b)] == if b < y
                    && a == w - 1 {
                    cell_state_of(*cfg, cols@[b].1)
                } else if b < y && a == 0 {
                    cell_state_of(*cfg, cols@[b].0)
                } else {
                    after_rows[index_of(w, a, b)]
                },
    {
        let left_i = coords_to_index(cfg, 0, y);
        let right_i = coords_to_index(cfg, right, y);
        let ghost before = grid@;
        grid.set(left_i, cell_state(cfg, cols[y].0));
        grid.set(right_i, cell_state(cfg, cols[y].1));
        assert forall|a: int, b: int| 0 <= a < w && 0 <= b < h implies #[trigger] grid@[index_of(
            w,
            a,
            b,
        )] == if b < y + 1 && a == w - 1 {
            cell_state_of(*cfg, cols@[b].1)
        } else if b < y + 1 && a == 0 {
            cell_state_of(*cfg, cols@[b].0)
        } else {
            after_rows[index_of(w, a, b)]
        } by {
            lemma_coords_of_index(w, a, b);
            lemma_coords_of_index(w, 0, y as int);
            lemma_coords_of_index(w, w - 1, y as int);
            lemma_index_in_bounds(w, h, a, b);
            assert(before[index_of(w, a, b)] == if b < y && a == w - 1 {
                cell_state_of(*cfg, cols@[b].1)
            } else if b < y && a == 0 {
                cell_state_of(*cfg, cols@[b].0)
            } else {
                after_rows[index_of(w, a, b)]
            });
        }
    }
    assert forall|x: int, y: int| 0 <= x < w && 0 <= y < h implies #[trigger] grid@[index_of(
        w,
        x,
        y,
    )] == if on_border(*cfg, x, y) {
        cell_state_of(*cfg, border_draw(*cfg, rows@, cols@, x, y))
    } else {
        start[index_of(w, x, y)]
    } by {
        assert(after_rows[index_of(w, x, y)] == if x < w && y == h - 1 {
            cell_state_of(*cfg, rows@[x].1)
        } else if x < w && y == 0 {
            cell_state_of(*cfg, rows@[x].0)
        } else {
            start[index_of(w, x, y)]
        });
    }
}

/// One generation with the border draws given: the rule on every cell,
/// computed from `grid` alone, then the edges overwritten from `rows` and
/// `cols` as `reseed_border` does.
pub fn step_grid_with(
    cfg: &Config,
    grid: &[u8],
    rows: &[(bool, bool)],
    cols: &[(bool, bool)],
) -> (r: Vec<u8>)
    requires
        cfg.wf(),
        grid@.len() == cfg.cells(),
        rows@.len() == cfg.width,
        cols@.len() == cfg.height,
    ensures
        r@.len() == cfg.cells(),
        forall|x: int, y: int|
            0 <= x < cfg.width && 0 <= y < cfg.height ==> #[trigger] r@[index_of(
                cfg.width as int,
                x,
                y,
            )] == if on_border(*cfg, x, y) {
                cell_state_of(*cfg, border_draw(*cfg, rows@, cols@, x, y))
            } else {
                cell_rule(
                    *cfg,
                    grid@[index_of(cfg.width as int, x, y)],
                    alive_count(*cfg, grid@, x, y),
                )
            },
{
    let mut out = next_generation(cfg, grid);
    let ghost ruled = out@;
    reseed_border(cfg, &mut out, rows, cols);
    assert forall|x: int, y: int|
        0 <= x < cfg.width && 0 <= y < cfg.height && !on_border(*cfg, x, y) implies #[trigger] out@[index_of(cfg.width as int, x, y)] == cell_rule(
        *cfg,
        grid@[index_of(cfg.width as int, x, y)],
        alive_count(*cfg, grid@, x, y),
    ) by {
        lemma_coords_of_index(cfg.width as int, x, y);
        lemma_index_in_bounds(cfg.width as int, cfg.height as int, x, y);
        assert(ruled[index_of(cfg.width as int, x, y)] == next_value_at(
            *cfg,
            grid@,
            index_of(cfg.width as int, x, y),
        ));
    }
    out
}

/// `n` pairs of coin flips.
fn random_pairs(n: usize) -> (r: Vec<(bool, bool)>)
    ensures
        r@.len() == n,
{
    let mut pairs: Vec<(bool, bool)> = Vec::with_capacity(n);
    for k in 0..n
        invariant
            pairs@.len() == k,
    {
        let first = random_bit();
        let second = random_bit();
        pairs.push((first, second));
    }
    pairs
}

/// One generation: the rule on every cell, computed from `grid` alone, then
/// every edge cell redrawn at random as alive or dormant.
pub fn step_grid(cfg: &Config, grid: &[u8]) -> (r: Vec<u8>)
    requires
        cfg.wf(),
        grid@.len() == cfg.cells(),
    ensures
        r@.len() == cfg.cells(),
        forall|x: int, y: int|
            0 <= x < cfg.width && 0 <= y < cfg.height ==> {
                let v = #[trigger] r@[index_of(cfg.width as int, x, y)];
                if on_border(*cfg, x, y) {
                    v == cfg.live_value || v == 0
                } else {
                    v == cell_rule(
                        *cfg,
                        grid@[index_of(cfg.width as int, x, y)],
                        alive_count(*cfg, grid@, x, y),
                    )
                }
            },
{
    let rows = random_pairs(cfg.width);
    let cols = random_pairs(cfg.height);
    step_grid_with(cfg, grid, &rows, &cols)
}

/// A grid whose every cell is drawn at random as alive or dormant.
pub fn initial_grid(cfg: &Config) -> (r: Vec<u8>)
    requires
        cfg.wf(),
    ensures
        r@.len() == cfg.cells(),
        forall|i: int| 0 <= i < r@.len() ==> #[trigger] r@[i] == cfg.live_value || r@[i] == 0,
{
    let n = cfg.width * cfg.height;
    let mut grid: Vec<u8> = Vec::with_capacity(n);
    for i in 0..n
        invariant
            grid@.len() == i,
            forall|j: int| 0 <= j < i ==> #[trigger] grid@[j] == cfg.live_value || grid@[j] == 0,
    {
        grid.push(random_cell_state(cfg));
    }
    grid
}

/// A fresh random grid, to replace the current one on request.
pub fn reset(cfg: &Config) -> (r: Vec<u8>)
    requires
        cfg.wf(),
    ensures
        r@.len() == cfg.cells(),
        forall|i: int| 0 <= i < r@.len() ==> #[trigger] r@[i] == cfg.live_value || r@[i] == 0,
{
    initial_grid(cfg)
}

} // verus!
