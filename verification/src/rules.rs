//! The Game of Life transition rule on a toroidal grid, stated as pure
//! mathematical functions over a sequence of cell states, together with the
//! verified executable helpers that compute it.
//!
//! A generation is a `Seq<bool>` of length `width * height`, laid out
//! row-major: cell `(x, y)` lives at index `y * width + x`.  Neighbor
//! coordinates wrap around both edges via Euclidean modulo, so the grid has
//! no boundary.

use vstd::prelude::*;
use vstd::arithmetic::div_mod::{lemma_fundamental_div_mod_converse, lemma_mod_bound, lemma_small_mod};

verus! {

/// Row-major linear index of cell `(x, y)` on a grid `w` cells wide.
pub open spec fn lin(w: int, x: int, y: int) -> int {
    y * w + x
}

/// State of cell `(x, y)` in generation `g`.
pub open spec fn cell_at(g: Seq<bool>, w: int, x: int, y: int) -> bool {
    g[lin(w, x, y)]
}

/// Coordinate `i` shifted by `d` and wrapped onto an axis of `m` cells.
///
/// Ghost `%` is the Euclidean remainder, so a negative shift wraps to the
/// positive range: `wrap(0, -1, m) == m - 1`.
pub open spec fn wrap(i: int, d: int, m: int) -> int {
    (i + d) % m
}

/// One if the bit is set, zero otherwise.
pub open spec fn b2i(b: bool) -> int {
    if b {
        1
    } else {
        0
    }
}

/// Whether the neighbor of `(x, y)` at offset `(dx, dy)` is alive in `g`,
/// with both coordinates wrapped toroidally.
pub open spec fn offset_alive(g: Seq<bool>, w: int, h: int, x: int, y: int, dx: int, dy: int) -> bool {
    cell_at(g, w, wrap(x, dx, w), wrap(y, dy, h))
}

/// Number of live cells among the 8 toroidal neighbors of `(x, y)`:
/// the offsets (-1,-1), (0,-1), (1,-1), (-1,0), (1,0), (-1,1), (0,1), (1,1).
pub open spec fn neighbor_count(g: Seq<bool>, w: int, h: int, x: int, y: int) -> int {
    b2i(offset_alive(g, w, h, x, y, -1, -1)) + b2i(offset_alive(g, w, h, x, y, 0, -1)) + b2i(
        offset_alive(g, w, h, x, y, 1, -1),
    ) + b2i(offset_alive(g, w, h, x, y, -1, 0)) + b2i(offset_alive(g, w, h, x, y, 1, 0)) + b2i(
        offset_alive(g, w, h, x, y, -1, 1),
    ) + b2i(offset_alive(g, w, h, x, y, 0, 1)) + b2i(offset_alive(g, w, h, x, y, 1, 1))
}

/// The transition rule for one cell: a live cell survives with 2 or 3 live
/// neighbors and dies otherwise; a dead cell is born with exactly 3.
pub open spec fn next_cell(alive: bool, n: int) -> bool {
    if alive {
        2 <= n <= 3
    } else {
        n == 3
    }
}

/// The next generation of the whole grid: every cell is rewritten by the
/// rule, and every neighbor count is taken from the pre-step generation `g`.
pub open spec fn next_grid(g: Seq<bool>, w: int, h: int) -> Seq<bool> {
    Seq::new(g.len(), |i: int| next_cell(g[i], neighbor_count(g, w, h, i % w, i / w)))
}

/// In-bounds coordinates have an in-bounds linear index.
pub proof fn lemma_lin_bounds(w: int, h: int, x: int, y: int)
    requires
        w > 0,
        h > 0,
        0 <= x < w,
        0 <= y < h,
    ensures
        0 <= lin(w, x, y) < w * h,
        lin(w, x, y) >= y * w,
{
    assert(y * w + x < w * h) by (nonlinear_arith)
        requires
            w > 0,
            h > 0,
            0 <= x < w,
            0 <= y < h,
    ;
    assert(y * w >= 0) by (nonlinear_arith)
        requires
            w > 0,
            0 <= y,
    ;
}

/// The linear index decomposes back into its coordinates.
pub proof fn lemma_lin_inverse(w: int, x: int, y: int)
    requires
        w > 0,
        0 <= x < w,
        0 <= y,
    ensures
        lin(w, x, y) % w == x,
        lin(w, x, y) / w == y,
{
    lemma_fundamental_div_mod_converse(y * w + x, w, y, x);
}

/// The grid-level step agrees with the per-cell rule: at every in-bounds
/// coordinate, the next generation holds exactly what the rule computes
/// from that cell's pre-step state and pre-step neighbor count.
pub proof fn lemma_next_grid_cell(g: Seq<bool>, w: int, h: int, x: int, y: int)
    requires
        w > 0,
        h > 0,
        0 <= x < w,
        0 <= y < h,
        g.len() == w * h,
    ensures
        cell_at(next_grid(g, w, h), w, x, y) == next_cell(
            cell_at(g, w, x, y),
            neighbor_count(g, w, h, x, y),
        ),
{
    lemma_lin_bounds(w, h, x, y);
    lemma_lin_inverse(w, x, y);
}

/// Determinism of the step: the next generation is a function of the
/// current generation and the dimensions alone, so stepping twice from
/// identical states yields identical results.  The rule itself draws on no
/// hidden input; randomness belongs only to external collaborators.
pub proof fn lemma_step_deterministic(g1: Seq<bool>, g2: Seq<bool>, w: int, h: int)
    requires
        g1 == g2,
    ensures
        next_grid(g1, w, h) == next_grid(g2, w, h),
{
}

/// Toroidal wraparound: the neighbor of `(0, 0)` at the diagonal offset
/// `(-1, -1)` is the opposite corner `(w - 1, h - 1)`, so the neighbor set
/// of the origin reaches across both edges.
pub proof fn lemma_toroidal_wraparound(g: Seq<bool>, w: int, h: int)
    requires
        w >= 1,
        h >= 1,
    ensures
        wrap(0, -1, w) == w - 1,
        wrap(0, -1, h) == h - 1,
        offset_alive(g, w, h, 0, 0, -1, -1) == cell_at(g, w, w - 1, h - 1),
{
    lemma_neg_one_wraps(w);
    lemma_neg_one_wraps(h);
}

/// `-1` wraps to the last coordinate of an axis of `m` cells.
pub proof fn lemma_neg_one_wraps(m: int)
    requires
        m >= 1,
    ensures
        (-1) % m == m - 1,
{
    lemma_fundamental_div_mod_converse(-1, m, -1, m - 1);
}

/// Decrementing an in-range coordinate, wrapped: the Euclidean form of the
/// branch `if i == 0 { m - 1 } else { i - 1 }`.
pub proof fn lemma_wrap_dec(i: int, m: int)
    requires
        m > 0,
        0 <= i < m,
    ensures
        i == 0 ==> wrap(i, -1, m) == m - 1,
        i > 0 ==> wrap(i, -1, m) == i - 1,
{
    if i == 0 {
        lemma_neg_one_wraps(m);
    } else {
        lemma_fundamental_div_mod_converse(i - 1, m, 0, i - 1);
    }
}

/// Incrementing an in-range coordinate, wrapped: the Euclidean form of the
/// branch `if i + 1 == m { 0 } else { i + 1 }`.
pub proof fn lemma_wrap_inc(i: int, m: int)
    requires
        m > 0,
        0 <= i < m,
    ensures
        i + 1 == m ==> wrap(i, 1, m) == 0,
        i + 1 < m ==> wrap(i, 1, m) == i + 1,
{
    if i + 1 == m {
        lemma_fundamental_div_mod_converse(m, m, 1, 0);
    } else {
        lemma_fundamental_div_mod_converse(i + 1, m, 0, i + 1);
    }
}

/// Wrapped neighbor coordinates stay on the grid.
pub proof fn lemma_wrap_in_range(i: int, d: int, m: int)
    requires
        m > 0,
    ensures
        0 <= wrap(i, d, m) < m,
{
    lemma_mod_bound(i + d, m);
}

/// Coordinate decremented by one with toroidal wraparound.
pub(crate) fn wrap_dec(i: usize, m: usize) -> (r: usize)
    requires
        m > 0,
        i < m,
    ensures
        r == wrap(i as int, -1, m as int),
        r < m,
{
    proof {
        lemma_wrap_dec(i as int, m as int);
    }
    if i == 0 {
        m - 1
    } else {
        i - 1
    }
}

/// Coordinate incremented by one with toroidal wraparound.
pub(crate) fn wrap_inc(i: usize, m: usize) -> (r: usize)
    requires
        m > 0,
        i < m,
    ensures
        r == wrap(i as int, 1, m as int),
        r < m,
{
    proof {
        lemma_wrap_inc(i as int, m as int);
    }
    if i + 1 == m {
        0
    } else {
        i + 1
    }
}

/// Reads cell `(x, y)` out of a row-major tile buffer.
pub(crate) fn grid_read(tiles: &Vec<bool>, width: usize, height: usize, x: usize, y: usize) -> (alive:
    bool)
    requires
        width > 0,
        height > 0,
        tiles@.len() == width * height,
        x < width,
        y < height,
    ensures
        alive == cell_at(tiles@, width as int, x as int, y as int),
{
    proof {
        lemma_lin_bounds(width as int, height as int, x as int, y as int);
        vstd::std_specs::vec::axiom_spec_len(tiles);
    }
    tiles[y * width + x]
}

/// Counts the live cells among the 8 toroidal neighbors of `(x, y)`.
pub(crate) fn count_alive(tiles: &Vec<bool>, width: usize, height: usize, x: usize, y: usize) -> (n:
    usize)
    requires
        width > 0,
        height > 0,
        tiles@.len() == width * height,
        x < width,
        y < height,
    ensures
        n == neighbor_count(tiles@, width as int, height as int, x as int, y as int),
        n <= 8,
{
    let xl = wrap_dec(x, width);
    let xr = wrap_inc(x, width);
    let yu = wrap_dec(y, height);
    let yd = wrap_inc(y, height);
    let mut n: usize = 0;
    if grid_read(tiles, width, height, xl, yu) {
        n = n + 1;
    }
    if grid_read(tiles, width, height, x, yu) {
        n = n + 1;
    }
    if grid_read(tiles, width, height, xr, yu) {
        n = n + 1;
    }
    if grid_read(tiles, width, height, xl, y) {
        n = n + 1;
    }
    if grid_read(tiles, width, height, xr, y) {
        n = n + 1;
    }
    if grid_read(tiles, width, height, xl, yd) {
        n = n + 1;
    }
    if grid_read(tiles, width, height, x, yd) {
        n = n + 1;
    }
    if grid_read(tiles, width, height, xr, yd) {
        n = n + 1;
    }
    proof {
        lemma_wrap_in_range(x as int, 0, width as int);
        lemma_wrap_in_range(y as int, 0, height as int);
        lemma_small_mod(x as nat, width as nat);
        lemma_small_mod(y as nat, height as nat);
    }
    n
}

/// Applies the transition rule to one cell state and neighbor count.
pub(crate) fn rule_next(alive: bool, n: usize) -> (next: bool)
    ensures
        next == next_cell(alive, n as int),
{
    if alive {
        2 <= n && n <= 3
    } else {
        n == 3
    }
}

} // verus!
