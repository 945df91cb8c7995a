//! The board: a fixed-size toroidal grid of cell states with a parallel
//! table of opaque per-cell handles, an immutable snapshot view, and an
//! atomic generation-step operation.
//!
//! The grid is created once with fixed dimensions, every cell dead and
//! every handle the sentinel, and is never resized.  `step_board` rewrites
//! every cell by the transition rule, reading neighbor counts only from the
//! pre-step generation, and commits the whole new generation at once.

use vstd::prelude::*;

use crate::render::{board_text, render_grid};
use crate::rules::{
    cell_at, count_alive, grid_read, lemma_lin_bounds, lemma_lin_inverse, lin, neighbor_count,
    next_cell, next_grid, rule_next,
};

verus! {

/// An opaque identifier a presentation layer associates with a cell.
///
/// The board never interprets it; it is pure pass-through storage so an
/// external collaborator can correlate grid coordinates with its own
/// renderable objects.  The id `0` is the sentinel for an unset handle.
#[derive(Clone, Copy, PartialEq, Eq, Structural, Debug)]
pub struct Handle {
    pub id: u64,
}

/// The sentinel id held by every handle slot before it is set.
pub const SENTINEL_HANDLE_ID: u64 = 0;

/// Construction was asked for a degenerate grid: a zero width or height.
#[derive(Clone, Copy, PartialEq, Eq, Structural, Debug)]
pub struct InvalidDimension;

/// One cell whose state changed during a step: its coordinates, its state
/// in the pre-step generation and its state in the committed one.
#[derive(Clone, Copy, PartialEq, Eq, Structural, Debug)]
pub struct StepChange {
    pub x: usize,
    pub y: usize,
    pub was_alive: bool,
    pub now_alive: bool,
}

/// A toroidal grid of cell states with a parallel handle table.
pub struct Board {
    pub tiles: Vec<bool>,
    pub handles: Vec<Handle>,
    pub width: usize,
    pub height: usize,
}

/// A read-only, self-contained copy of one committed generation.
///
/// It is decoupled from the live board, so later `set` calls or steps on
/// the board never perturb what the view reports.
pub struct BoardView {
    pub tiles: Vec<bool>,
    pub width: usize,
    pub height: usize,
}

/// An entry of `changes` is an in-bounds cell whose pre-step state `g` and
/// post-step state disagree, reported with both states.
pub open spec fn change_ok(c: StepChange, g: Seq<bool>, w: int, h: int) -> bool {
    &&& 0 <= c.x < w
    &&& 0 <= c.y < h
    &&& c.was_alive == cell_at(g, w, c.x as int, c.y as int)
    &&& c.now_alive == next_cell(c.was_alive, neighbor_count(g, w, h, c.x as int, c.y as int))
    &&& c.was_alive != c.now_alive
}

/// Every reported change is a genuine change of an in-bounds cell.
pub open spec fn changes_sound(cs: Seq<StepChange>, g: Seq<bool>, w: int, h: int) -> bool {
    forall|i: int| 0 <= i < cs.len() ==> change_ok(#[trigger] cs[i], g, w, h)
}

/// Every cell that the step changes below the linear index `upto` is
/// reported.
pub open spec fn changes_complete_upto(
    cs: Seq<StepChange>,
    g: Seq<bool>,
    w: int,
    h: int,
    upto: int,
) -> bool {
    forall|x: int, y: int|
        0 <= x < w && 0 <= y < h && lin(w, x, y) < upto && cell_at(g, w, x, y) != next_cell(
            cell_at(g, w, x, y),
            #[trigger] neighbor_count(g, w, h, x, y),
        ) ==> exists|i: int| 0 <= i < cs.len() && (#[trigger] cs[i]).x == x && cs[i].y == y
}

/// The reported changes come in strictly increasing row-major order, so no
/// cell is reported twice.
pub open spec fn changes_ordered(cs: Seq<StepChange>, w: int) -> bool {
    forall|i: int, j: int|
        0 <= i < j < cs.len() ==> lin(w, (#[trigger] cs[i]).x as int, cs[i].y as int) < lin(
            w,
            (#[trigger] cs[j]).x as int,
            cs[j].y as int,
        )
}

/// Distinct in-bounds coordinates have distinct linear indices.
proof fn lemma_lin_injective(w: int, x1: int, y1: int, x2: int, y2: int)
    requires
        w > 0,
        0 <= x1 < w,
        0 <= y1,
        0 <= x2 < w,
        0 <= y2,
        lin(w, x1, y1) == lin(w, x2, y2),
    ensures
        x1 == x2,
        y1 == y2,
{
    lemma_lin_inverse(w, x1, y1);
    lemma_lin_inverse(w, x2, y2);
}

/// Appending the change entry for the cell at linear index `upto` extends a
/// complete change list to `upto + 1`.
proof fn lemma_changes_extend(
    prev: Seq<StepChange>,
    entry: StepChange,
    g: Seq<bool>,
    w: int,
    h: int,
)
    requires
        w > 0,
        h > 0,
        0 <= entry.x < w,
        0 <= entry.y < h,
        changes_complete_upto(prev, g, w, h, lin(w, entry.x as int, entry.y as int)),
    ensures
        changes_complete_upto(
            prev.push(entry),
            g,
            w,
            h,
            lin(w, entry.x as int, entry.y as int) + 1,
        ),
{
    let l = lin(w, entry.x as int, entry.y as int);
    let cs = prev.push(entry);
    assert forall|x: int, y: int|
        0 <= x < w && 0 <= y < h && lin(w, x, y) < l + 1 && cell_at(g, w, x, y) != next_cell(
            cell_at(g, w, x, y),
            #[trigger] neighbor_count(g, w, h, x, y),
        ) implies exists|i: int|
        0 <= i < cs.len() && (#[trigger] cs[i]).x == x && cs[i].y == y by {
        if lin(w, x, y) < l {
            let i = choose|i: int|
                0 <= i < prev.len() && (#[trigger] prev[i]).x == x && prev[i].y == y;
            assert(cs[i].x == x && cs[i].y == y);
        } else {
            lemma_lin_injective(w, x, y, entry.x as int, entry.y as int);
            assert(cs[cs.len() - 1].x == x && cs[cs.len() - 1].y == y);
        }
    }
}

/// A cell the rule leaves unchanged needs no change entry: a complete
/// change list up to its linear index is complete one index further.
proof fn lemma_changes_skip(cs: Seq<StepChange>, g: Seq<bool>, w: int, h: int, x: int, y: int)
    requires
        w > 0,
        h > 0,
        0 <= x < w,
        0 <= y < h,
        changes_complete_upto(cs, g, w, h, lin(w, x, y)),
        cell_at(g, w, x, y) == next_cell(cell_at(g, w, x, y), neighbor_count(g, w, h, x, y)),
    ensures
        changes_complete_upto(cs, g, w, h, lin(w, x, y) + 1),
{
    let l = lin(w, x, y);
    assert forall|xx: int, yy: int|
        0 <= xx < w && 0 <= yy < h && lin(w, xx, yy) < l + 1 && cell_at(g, w, xx, yy) != next_cell(
            cell_at(g, w, xx, yy),
            #[trigger] neighbor_count(g, w, h, xx, yy),
        ) implies exists|i: int|
        0 <= i < cs.len() && (#[trigger] cs[i]).x == xx && cs[i].y == yy by {
        if lin(w, xx, yy) == l {
            lemma_lin_injective(w, xx, yy, x, y);
        }
    }
}

/// Builds a vector of `n` copies of one value.
fn filled<T: Copy>(value: T, n: usize) -> (v: Vec<T>)
    ensures
        v@.len() == n,
        forall|i: int| 0 <= i < n ==> v@[i] == value,
{
    let mut v: Vec<T> = Vec::new();
    let mut k: usize = 0;
    while k < n
        invariant
            k <= n,
            v@.len() == k,
            forall|i: int| 0 <= i < k ==> v@[i] == value,
        decreases n - k,
    {
        v.push(value);
        k = k + 1;
    }
    v
}

impl Board {
    /// The committed generation, row-major.
    pub open spec fn grid(self) -> Seq<bool> {
        self.tiles@
    }

    /// The handle table, row-major.
    pub open spec fn handle_table(self) -> Seq<Handle> {
        self.handles@
    }

    /// Well-formedness: both dimensions are positive and both tables cover
    /// exactly one slot per cell.
    pub open spec fn wf(self) -> bool {
        &&& self.width > 0
        &&& self.height > 0
        &&& self.grid().len() == self.width * self.height
        &&& self.handle_table().len() == self.width * self.height
    }

    /// State of cell `(x, y)` in the committed generation.
    pub open spec fn cell(self, x: int, y: int) -> bool {
        cell_at(self.grid(), self.width as int, x, y)
    }

    /// Handle associated with cell `(x, y)`.
    pub open spec fn handle_at(self, x: int, y: int) -> Handle {
        self.handle_table()[lin(self.width as int, x, y)]
    }

    /// Creates a `width * height` board, every cell dead and every handle
    /// the sentinel.  A zero width or height is a degenerate grid on which
    /// the wraparound arithmetic is meaningless, so construction fails with
    /// `InvalidDimension` exactly then.
    pub fn new(width: usize, height: usize) -> (r: Result<Board, InvalidDimension>)
        requires
            width * height <= usize::MAX,
        ensures
            r is Err <==> (width == 0 || height == 0),
            r matches Ok(b) ==> {
                &&& b.wf()
                &&& b.width == width
                &&& b.height == height
                &&& forall|i: int| 0 <= i < b.grid().len() ==> !b.grid()[i]
                &&& forall|i: int|
                    0 <= i < b.handle_table().len() ==> b.handle_table()[i].id
                        == SENTINEL_HANDLE_ID
            },
    {
        if width == 0 || height == 0 {
            return Err(InvalidDimension);
        }
        let size = width * height;
        Ok(
            Board {
                tiles: filled(false, size),
                handles: filled(Handle { id: SENTINEL_HANDLE_ID }, size),
                width,
                height,
            },
        )
    }

    /// Returns the alive state of cell `(x, y)` in the committed
    /// generation.
    pub fn get(&self, x: usize, y: usize) -> (alive: bool)
        requires
            self.wf(),
            x < self.width,
            y < self.height,
        ensures
            alive == self.cell(x as int, y as int),
    {
        grid_read(&self.tiles, self.width, self.height, x, y)
    }

    /// Writes the alive state of cell `(x, y)` directly.  Nothing else
    /// moves: every other cell and the whole handle table are unchanged.
    pub fn set(&mut self, x: usize, y: usize, alive: bool)
        requires
            old(self).wf(),
            x < old(self).width,
            y < old(self).height,
        ensures
            final(self).wf(),
            final(self).width == old(self).width,
            final(self).height == old(self).height,
            final(self).grid() == old(self).grid().update(
                lin(old(self).width as int, x as int, y as int),
                alive,
            ),
            final(self).cell(x as int, y as int) == alive,
            final(self).handle_table() == old(self).handle_table(),
    {
        proof {
            lemma_lin_bounds(self.width as int, self.height as int, x as int, y as int);
            vstd::std_specs::vec::axiom_spec_len(&self.tiles);
        }
        let i = y * self.width + x;
        self.tiles[i] = alive;
    }

    /// Returns the handle associated with cell `(x, y)`.
    pub fn get_entity(&self, x: usize, y: usize) -> (h: Handle)
        requires
            self.wf(),
            x < self.width,
            y < self.height,
        ensures
            h == self.handle_at(x as int, y as int),
    {
        proof {
            lemma_lin_bounds(self.width as int, self.height as int, x as int, y as int);
            vstd::std_specs::vec::axiom_spec_len(&self.handles);
        }
        self.handles[y * self.width + x]
    }

    /// Associates a handle with cell `(x, y)`.  The cell states are
    /// untouched: the handle table never interferes with the grid.
    pub fn set_entity(&mut self, x: usize, y: usize, h: Handle)
        requires
            old(self).wf(),
            x < old(self).width,
            y < old(self).height,
        ensures
            final(self).wf(),
            final(self).width == old(self).width,
            final(self).height == old(self).height,
            final(self).grid() == old(self).grid(),
            final(self).handle_table() == old(self).handle_table().update(
                lin(old(self).width as int, x as int, y as int),
                h,
            ),
            final(self).handle_at(x as int, y as int) == h,
    {
        proof {
            lemma_lin_bounds(self.width as int, self.height as int, x as int, y as int);
            vstd::std_specs::vec::axiom_spec_len(&self.handles);
        }
        let i = y * self.width + x;
        self.handles[i] = h;
    }

    /// Computes the next state of cell `(x, y)` by the rule, from the
    /// committed generation only.  The board itself is not changed.
    pub fn step_cell(&self, x: usize, y: usize) -> (next: bool)
        requires
            self.wf(),
            x < self.width,
            y < self.height,
        ensures
            next == next_cell(
                self.cell(x as int, y as int),
                neighbor_count(
                    self.grid(),
                    self.width as int,
                    self.height as int,
                    x as int,
                    y as int,
                ),
            ),
    {
        let n = count_alive(&self.tiles, self.width, self.height, x, y);
        let alive = self.get(x, y);
        rule_next(alive, n)
    }

    /// Advances the board by one generation and reports the cells that
    /// changed, in strictly increasing row-major order.
    ///
    /// Every cell is rewritten by the rule; every neighbor count is taken
    /// from a snapshot of the pre-step generation, never from a partially
    /// rewritten one.  The new generation is committed all at once, after
    /// the whole computation: the board moves atomically from holding
    /// generation N to holding generation N+1, and the handle table is
    /// untouched.
    pub fn step_board(&mut self) -> (changes: Vec<StepChange>)
        requires
            old(self).wf(),
        ensures
            final(self).wf(),
            final(self).width == old(self).width,
            final(self).height == old(self).height,
            final(self).handle_table() == old(self).handle_table(),
            final(self).grid() == next_grid(
                old(self).grid(),
                old(self).width as int,
                old(self).height as int,
            ),
            changes_sound(
                changes@,
                old(self).grid(),
                old(self).width as int,
                old(self).height as int,
            ),
            changes_complete_upto(
                changes@,
                old(self).grid(),
                old(self).width as int,
                old(self).height as int,
                old(self).width * old(self).height,
            ),
            changes_ordered(changes@, old(self).width as int),
    {
        let view = self.snapshot();
        let width = self.width;
        let height = self.height;
        let ghost g = self.grid();
        let ghost w = width as int;
        let ghost h = height as int;
        let ghost ng = next_grid(g, w, h);
        let mut next_tiles: Vec<bool> = Vec::new();
        let mut changes: Vec<StepChange> = Vec::new();
        let mut y: usize = 0;
        while y < height
            invariant
                view.wf(),
                view.width == width,
                view.height == height,
                view.grid() == g,
                g.len() == w * h,
                ng == next_grid(g, w, h),
                w == width as int,
                h == height as int,
                y <= height,
                next_tiles@.len() == y * width,
                forall|i: int| 0 <= i < y * w ==> next_tiles@[i] == ng[i],
                changes_sound(changes@, g, w, h),
                changes_complete_upto(changes@, g, w, h, y * w),
                changes_ordered(changes@, w),
                forall|i: int|
                    0 <= i < changes@.len() ==> lin(
                        w,
                        (#[trigger] changes@[i]).x as int,
                        changes@[i].y as int,
                    ) < y * w,
            decreases height - y,
        {
            let mut x: usize = 0;
            proof {
                lemma_lin_bounds(w, h, 0, y as int);
            }
            while x < width
                invariant
                    view.wf(),
                    view.width == width,
                    view.height == height,
                    view.grid() == g,
                    g.len() == w * h,
                    ng == next_grid(g, w, h),
                    w == width as int,
                    h == height as int,
                    y < height,
                    x <= width,
                    next_tiles@.len() == y * width + x,
                    forall|i: int| 0 <= i < y * w + x ==> next_tiles@[i] == ng[i],
                    changes_sound(changes@, g, w, h),
                    changes_complete_upto(changes@, g, w, h, y * w + x),
                    changes_ordered(changes@, w),
                    forall|i: int|
                        0 <= i < changes@.len() ==> lin(
                            w,
                            (#[trigger] changes@[i]).x as int,
                            changes@[i].y as int,
                        ) < y * w + x,
                decreases width - x,
            {
                proof {
                    lemma_lin_bounds(w, h, x as int, y as int);
                    lemma_lin_inverse(w, x as int, y as int);
                }
                let was_alive = view.get(x, y);
                let now_alive = view.next_state(x, y);
                next_tiles.push(now_alive);
                if was_alive != now_alive {
                    let entry = StepChange { x, y, was_alive, now_alive };
                    proof {
                        lemma_changes_extend(changes@, entry, g, w, h);
                    }
                    changes.push(entry);
                } else {
                    proof {
                        lemma_changes_skip(changes@, g, w, h, x as int, y as int);
                    }
                }
                x = x + 1;
            }
            y = y + 1;
            proof {
                assert(y * w == (y - 1) * w + w) by (nonlinear_arith);
            }
        }
        proof {
            assert(h * w == w * h) by (nonlinear_arith);
            assert(next_tiles@.len() == ng.len());
            assert forall|i: int| 0 <= i < ng.len() implies next_tiles@[i] == ng[i] by {
                assert(i < y * (width as int));
            }
            assert(next_tiles@ =~= ng);
        }
        self.tiles = next_tiles;
        changes
    }

    /// Produces a read-only, self-contained copy of the committed
    /// generation, decoupled from the live board.
    pub fn snapshot(&self) -> (view: BoardView)
        requires
            self.wf(),
        ensures
            view.wf(),
            view.width == self.width,
            view.height == self.height,
            view.grid() == self.grid(),
    {
        let copy = self.tiles.clone();
        proof {
            assert forall|i: int| 0 <= i < self.tiles@.len() implies copy@[i]
                == self.tiles@[i] by {
                assert(vstd::pervasive::cloned::<bool>(self.tiles[i], copy[i]));
            }
            assert(copy@ =~= self.tiles@);
        }
        BoardView { tiles: copy, width: self.width, height: self.height }
    }

    /// Builds the text picture of the committed generation: one column per
    /// line, each cell shown with its live-neighbor count.
    pub fn to_display_string(&self) -> (s: String)
        requires
            self.wf(),
        ensures
            s@ == board_text(self.grid(), self.width as int, self.height as int),
    {
        render_grid(&self.tiles, self.width, self.height)
    }
}

/// Reading a cell right after writing it yields the value written: `set`
/// leaves the grid that `get` reads with exactly `v` at `(x, y)`, in the
/// model both contracts are stated over.
pub proof fn lemma_set_then_get(g: Seq<bool>, w: int, h: int, x: int, y: int, v: bool)
    requires
        w > 0,
        h > 0,
        0 <= x < w,
        0 <= y < h,
        g.len() == w * h,
    ensures
        cell_at(g.update(lin(w, x, y), v), w, x, y) == v,
{
    lemma_lin_bounds(w, h, x, y);
}

impl BoardView {
    /// The generation the view holds, row-major.
    pub open spec fn grid(self) -> Seq<bool> {
        self.tiles@
    }

    /// Well-formedness: positive dimensions and one slot per cell.
    pub open spec fn wf(self) -> bool {
        &&& self.width > 0
        &&& self.height > 0
        &&& self.grid().len() == self.width * self.height
    }

    /// State of cell `(x, y)` in the view.
    pub open spec fn cell(self, x: int, y: int) -> bool {
        cell_at(self.grid(), self.width as int, x, y)
    }

    /// Returns the alive state of cell `(x, y)`.
    pub fn get(&self, x: usize, y: usize) -> (alive: bool)
        requires
            self.wf(),
            x < self.width,
            y < self.height,
        ensures
            alive == self.cell(x as int, y as int),
    {
        grid_read(&self.tiles, self.width, self.height, x, y)
    }

    /// Counts the live cells among the 8 toroidal neighbors of `(x, y)`.
    pub fn count_alive_neighbors(&self, x: usize, y: usize) -> (n: usize)
        requires
            self.wf(),
            x < self.width,
            y < self.height,
        ensures
            n == neighbor_count(self.grid(), self.width as int, self.height as int, x as int, y as int),
            n <= 8,
    {
        count_alive(&self.tiles, self.width, self.height, x, y)
    }

    /// Computes the next state of cell `(x, y)` by the rule, from the
    /// generation the view holds.
    pub fn next_state(&self, x: usize, y: usize) -> (next: bool)
        requires
            self.wf(),
            x < self.width,
            y < self.height,
        ensures
            next == next_cell(
                self.cell(x as int, y as int),
                neighbor_count(
                    self.grid(),
                    self.width as int,
                    self.height as int,
                    x as int,
                    y as int,
                ),
            ),
    {
        let n = self.count_alive_neighbors(x, y);
        let alive = self.get(x, y);
        rule_next(alive, n)
    }
}

} // verus!
