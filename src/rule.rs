use vstd::prelude::*;

use crate::config::Config;
use crate::coords::{
    column_of, coords_to_index, index_of, index_to_coords, row_of,
};

verus! {

/// Cell `(x, y)` lies inside the grid and its value reaches the live value.
/// Positions outside the grid, negative ones included, are never alive.
pub open spec fn alive_at(cfg: Config, g: Seq<u8>, x: int, y: int) -> bool {
    &&& 0 <= x < cfg.width
    &&& 0 <= y < cfg.height
    &&& g[index_of(cfg.width as int, x, y)] >= cfg.live_value
}

/// One for a live cell, zero otherwise.
pub open spec fn alive_bit(cfg: Config, g: Seq<u8>, x: int, y: int) -> int {
    if alive_at(cfg, g, x, y) {
        1
    } else {
        0
    }
}

/// Number of live cells among the eight that surround `(x, y)`.
pub open spec fn alive_count(cfg: Config, g: Seq<u8>, x: int, y: int) -> int {
    alive_bit(cfg, g, x - 1, y - 1) + alive_bit(cfg, g, x, y - 1) + alive_bit(cfg, g, x + 1, y - 1)
        + alive_bit(cfg, g, x - 1, y) + alive_bit(cfg, g, x + 1, y) + alive_bit(
        cfg,
        g,
        x - 1,
        y + 1,
    ) + alive_bit(cfg, g, x, y + 1) + alive_bit(cfg, g, x + 1, y + 1)
}

/// A cell is kept alive (or born) when it has three live neighbours, or
/// when it is alive itself and has two.
pub open spec fn rescued(cfg: Config, v: u8, n: int) -> bool {
    (v >= cfg.live_value && n == 2) || n == 3
}

/// The value a cell that is not kept alive has one generation later: one
/// decay step less, but never below zero.
pub open spec fn decayed(cfg: Config, v: u8) -> u8 {
    if v > cfg.death_step {
        (v - cfg.death_step) as u8
    } else {
        0
    }
}

/// Next value of a cell of value `v` with `n` live neighbours.
pub open spec fn cell_rule(cfg: Config, v: u8, n: int) -> u8 {
    if rescued(cfg, v, n) {
        cfg.live_value
    } else {
        decayed(cfg, v)
    }
}

/// Next value, by the rule alone, of the cell at index `i` of grid `g`.
pub open spec fn next_value_at(cfg: Config, g: Seq<u8>, i: int) -> u8 {
    let x = column_of(cfg.width as int, i);
    let y = row_of(cfg.width as int, i);
    cell_rule(cfg, g[i], alive_count(cfg, g, x, y))
}

/// Value of a cell of value `v` after `k` generations in which it is never
/// kept alive.
pub open spec fn decay_steps(cfg: Config, v: u8, k: nat) -> u8
    decreases k,
{
    if k == 0 {
        v
    } else {
        decayed(cfg, decay_steps(cfg, v, (k - 1) as nat))
    }
}

/// For every grid and every position, in the grid or not, the live-neighbour
/// count lies between zero and eight, and no position outside the grid adds
/// to it.
pub proof fn lemma_alive_count_bounds(cfg: Config, g: Seq<u8>, x: int, y: int)
    ensures
        0 <= alive_count(cfg, g, x, y) <= 8,
        forall|a: int, b: int|
            !(0 <= a < cfg.width && 0 <= b < cfg.height) ==> #[trigger] alive_bit(cfg, g, a, b)
                == 0,
{
}

/// A live cell with two or three live neighbours is alive in the next
/// generation; with fewer than two or more than three it decays by one step
/// instead of dying outright.
pub proof fn lemma_live_cell_rule(cfg: Config, v: u8, n: int)
    requires
        cfg.wf(),
        v >= cfg.live_value,
        0 <= n <= 8,
    ensures
        n == 2 || n == 3 ==> cell_rule(cfg, v, n) == cfg.live_value,
        n < 2 || n > 3 ==> cell_rule(cfg, v, n) == decayed(cfg, v),
        n < 2 || n > 3 ==> cell_rule(cfg, v, n) == if v >= cfg.death_step {
            v - cfg.death_step
        } else {
            0
        },
        (n < 2 || n > 3) && v > cfg.death_step ==> cell_rule(cfg, v, n) > 0,
{
}

/// A cell that is not kept alive loses exactly one decay step per
/// generation, and never drops below dormant.
pub proof fn lemma_unrescued_decay(cfg: Config, v: u8, n: int)
    requires
        cfg.wf(),
        !rescued(cfg, v, n),
    ensures
        v >= cfg.death_step ==> cell_rule(cfg, v, n) == v - cfg.death_step,
        v < cfg.death_step ==> cell_rule(cfg, v, n) == 0,
        cell_rule(cfg, v, n) <= v,
{
}

/// A cell that was just alive and is never kept alive again goes down by one
/// decay step per generation and is dormant after exactly
/// `live_value / death_step` generations, not before.
pub proof fn lemma_decay_reaches_dormant(cfg: Config, k: nat)
    requires
        cfg.wf(),
        k <= cfg.live_value / cfg.death_step,
    ensures
        decay_steps(cfg, cfg.live_value, k) == cfg.live_value - k * cfg.death_step,
        k < cfg.live_value / cfg.death_step ==> decay_steps(cfg, cfg.live_value, k) > 0,
        k == cfg.live_value / cfg.death_step ==> decay_steps(cfg, cfg.live_value, k) == 0,
    decreases k,
{
    let live = cfg.live_value as int;
    let step = cfg.death_step as int;
    let q = live / step;
    assert(live == q * step) by (nonlinear_arith)
        requires
            step > 0,
            live % step == 0,
            q == live / step,
    {
        vstd::arithmetic::div_mod::lemma_fundamental_div_mod(live, step);
    }
    if k > 0 {
        lemma_decay_reaches_dormant(cfg, (k - 1) as nat);
        assert(live - (k - 1) * step == live - k * step + step) by (nonlinear_arith);
        assert(live - (k - 1) * step >= step) by (nonlinear_arith)
            requires
                1 <= k <= q,
                live == q * step,
                step > 0,
        ;
    } else {
        assert(k * step == 0) by (nonlinear_arith)
            requires
                k == 0,
        ;
    }
    assert(k < q ==> live - k * step > 0) by (nonlinear_arith)
        requires
            live == q * step,
            step > 0,
    ;
    assert(k == q ==> live - k * step == 0) by (nonlinear_arith)
        requires
            live == q * step,
    ;
}

/// Whether cell `(x, y)` is alive; any position outside the grid is not.
pub fn is_alive(cfg: &Config, grid: &[u8], x: isize, y: isize) -> (r: bool)
    requires
        cfg.wf(),
        grid@.len() == cfg.cells(),
    ensures
        r == alive_at(*cfg, grid@, x as int, y as int),
{
    if x < 0 || y < 0 {
        return false;
    }
    let ux = x as usize;
    let uy = y as usize;
    if ux >= cfg.width || uy >= cfg.height {
        return false;
    }
    grid[coords_to_index(cfg, ux, uy)] >= cfg.live_value
}

fn alive_bit_at(cfg: &Config, grid: &[u8], x: isize, y: isize) -> (r: usize)
    requires
        cfg.wf(),
        grid@.len() == cfg.cells(),
    ensures
        r == alive_bit(*cfg, grid@, x as int, y as int),
{
    if is_alive(cfg, grid, x, y) {
        1
    } else {
        0
    }
}

/// Number of live neighbours of the cell at index `i`, from zero to eight.
pub fn count_neighbours(cfg: &Config, i: usize, grid: &[u8]) -> (r: usize)
    requires
        cfg.wf(),
        i < cfg.cells(),
        grid@.len() == cfg.cells(),
    ensures
        r == alive_count(
            *cfg,
            grid@,
            column_of(cfg.width as int, i as int),
            row_of(cfg.width as int, i as int),
        ),
        r <= 8,
{
    let (ux, uy) = index_to_coords(cfg, i);
    assert(cfg.width <= cfg.cells() && cfg.height <= cfg.cells()) by (nonlinear_arith)
        requires
            cfg.width > 0,
            cfg.height > 0,
            cfg.cells() == cfg.width * cfg.height,
    ;
    let x = ux as isize;
    let y = uy as isize;
    alive_bit_at(cfg, grid, x - 1, y - 1) + alive_bit_at(cfg, grid, x, y - 1) + alive_bit_at(
        cfg,
        grid,
        x + 1,
        y - 1,
    ) + alive_bit_at(cfg, grid, x - 1, y) + alive_bit_at(cfg, grid, x + 1, y) + alive_bit_at(
        cfg,
        grid,
        x - 1,
        y + 1,
    ) + alive_bit_at(cfg, grid, x, y + 1) + alive_bit_at(cfg, grid, x + 1, y + 1)
}

/// Next value, by the rule alone, of the cell at index `i`: the live value
/// when the cell is kept alive, else its value less one decay step, floored
/// at zero.
pub fn next_cell_state(cfg: &Config, grid: &[u8], i: usize) -> (r: u8)
    requires
        cfg.wf(),
        i < cfg.cells(),
        grid@.len() == cfg.cells(),
    ensures
        r == next_value_at(*cfg, grid@, i as int),
{
    let is_alive = grid[i] >= cfg.live_value;
    let neighbours = count_neighbours(cfg, i, grid);
    if (is_alive && neighbours == 2) || neighbours == 3 {
        cfg.live_value
    } else if grid[i] > cfg.death_step {
        grid[i] - cfg.death_step
    } else {
        0
    }
}

} // verus!
