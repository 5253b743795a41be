//! The Game-of-Life engine: classification of a cell within a frozen grid and
//! the B3/S23 transition rule that takes every cell of one generation to its
//! value in the next.

use vstd::prelude::*;
use crate::grid::{Grid, GridError, Index};

verus! {

/// A transient classification of one cell for one transition step: the cell is
/// alive or dead, and carries the number of live cells among its up to eight
/// Moore neighbors (the center cell itself is never counted).
#[derive(PartialEq, Eq, Structural, Debug)]
pub enum CellState {
    Alive(i32),
    Dead(i32),
}

/// The standard Conway B3/S23 rule table: a live cell survives exactly on two
/// or three live neighbors, a dead cell is born exactly on three.
pub open spec fn spec_next_state(cell_state: CellState) -> i32 {
    match cell_state {
        CellState::Alive(n) => if 2 <= n && n <= 3 { 1 } else { 0 },
        CellState::Dead(n) => if n == 3 { 1 } else { 0 },
    }
}

/// Applies the rule table of `spec_next_state` to a classification, giving the
/// cell's value in the next generation.
pub fn get_next_state(cell_state: CellState) -> (r: i32)
    ensures
        r == spec_next_state(cell_state),
{
    match cell_state {
        CellState::Alive(n) => if n < 2 { 0 } else if n < 4 { 1 } else { 0 },
        CellState::Dead(n) => if n == 3 { 1 } else { 0 },
    }
}

/// 1 when (x, y) lies inside the grid and holds a live cell, else 0; a
/// coordinate beyond the edge counts as dead (clamping, no wraparound).
pub open spec fn is_live(g: Grid, x: int, y: int) -> int {
    if g.in_bounds(x, y) && g.cell(x, y) == 1 {
        1int
    } else {
        0int
    }
}

/// 1 when (x, y) lies inside the grid, else 0.
pub open spec fn is_inside(g: Grid, x: int, y: int) -> int {
    if g.in_bounds(x, y) {
        1int
    } else {
        0int
    }
}

/// The number of live cells among the up to eight Moore neighbors of (x, y),
/// the center excluded; cells beyond the grid's edge count as dead.
pub open spec fn live_neighbor_count(g: Grid, x: int, y: int) -> int {
    is_live(g, x - 1, y - 1) + is_live(g, x - 1, y) + is_live(g, x - 1, y + 1) + is_live(
        g,
        x,
        y - 1,
    ) + is_live(g, x, y + 1) + is_live(g, x + 1, y - 1) + is_live(g, x + 1, y) + is_live(
        g,
        x + 1,
        y + 1,
    )
}

/// The number of cells, other than the center, of the 3-by-3 block around
/// (x, y) that lie inside the grid.
pub open spec fn in_grid_neighbor_count(g: Grid, x: int, y: int) -> int {
    is_inside(g, x - 1, y - 1) + is_inside(g, x - 1, y) + is_inside(g, x - 1, y + 1) + is_inside(
        g,
        x,
        y - 1,
    ) + is_inside(g, x, y + 1) + is_inside(g, x + 1, y - 1) + is_inside(g, x + 1, y) + is_inside(
        g,
        x + 1,
        y + 1,
    )
}

/// The classification of one cell: out of bounds is a checked error, a live
/// (1) or dead (0) cell is classified with its live-neighbor count, and any
/// other stored value is refused — the engine never guesses.
pub open spec fn spec_cell_state(g: Grid, index: Index) -> Result<CellState, GridError> {
    if !g.in_bounds(index.x as int, index.y as int) {
        Err(GridError::OutOfBounds)
    } else if g.cell(index.x as int, index.y as int) == 1 {
        Ok(CellState::Alive(live_neighbor_count(g, index.x as int, index.y as int) as i32))
    } else if g.cell(index.x as int, index.y as int) == 0 {
        Ok(CellState::Dead(live_neighbor_count(g, index.x as int, index.y as int) as i32))
    } else {
        Err(GridError::InvalidCellState)
    }
}

/// The classification of one cell followed by the rule table.
pub open spec fn spec_next_for_index(g: Grid, index: Index) -> Result<i32, GridError> {
    match spec_cell_state(g, index) {
        Ok(cell_state) => Ok(spec_next_state(cell_state)),
        Err(e) => Err(e),
    }
}

/// The next value of the in-bounds cell (x, y) of a grid of {0, 1} cells.
pub open spec fn spec_next_cell(g: Grid, x: int, y: int) -> i32 {
    if g.cell(x, y) == 1 {
        spec_next_state(CellState::Alive(live_neighbor_count(g, x, y) as i32))
    } else {
        spec_next_state(CellState::Dead(live_neighbor_count(g, x, y) as i32))
    }
}

/// Every in-bounds cell holds 0 or 1.
pub open spec fn all_cells_valid(g: Grid) -> bool {
    forall|x: int, y: int|
        g.in_bounds(x, y) ==> (#[trigger] g.cell(x, y) == 0 || g.cell(x, y) == 1)
}

/// 1 when (x, y) holds a live cell, 0 otherwise (also beyond the edge).
fn live_at(grid: &Grid, x: usize, y: usize) -> (r: i32)
    ensures
        r == is_live(*grid, x as int, y as int),
{
    match grid.get(x, y) {
        Some(v) => if v == 1 {
            1
        } else {
            0
        },
        None => 0,
    }
}

/// Classifies the cell at `index`: alive or dead together with its
/// live-neighbor count, summed over the Moore neighborhood clamped at the
/// grid's edges.
#[verifier::rlimit(50)]
pub fn get_cell_state(grid: &Grid, index: Index) -> (r: Result<CellState, GridError>)
    requires
        grid.wf(),
    ensures
        r == spec_cell_state(*grid, index),
{
    match grid.get(index.x, index.y) {
        None => Err(GridError::OutOfBounds),
        Some(v) => {
            let cx = index.x;
            let cy = index.y;
            proof {
                assert(grid.height() <= grid.height() * grid.width() && grid.width()
                    <= grid.height() * grid.width()) by (nonlinear_arith)
                    requires
                        grid.width() >= 1,
                        grid.height() >= 1,
                ;
            }
            let mut alive_count: i32 = 0;
            if cx > 0 {
                if cy > 0 {
                    alive_count = alive_count + live_at(grid, cx - 1, cy - 1);
                }
                alive_count = alive_count + live_at(grid, cx - 1, cy);
                alive_count = alive_count + live_at(grid, cx - 1, cy + 1);
            }
            if cy > 0 {
                alive_count = alive_count + live_at(grid, cx, cy - 1);
            }
            alive_count = alive_count + live_at(grid, cx, cy + 1);
            if cy > 0 {
                alive_count = alive_count + live_at(grid, cx + 1, cy - 1);
            }
            alive_count = alive_count + live_at(grid, cx + 1, cy);
            alive_count = alive_count + live_at(grid, cx + 1, cy + 1);
            if v == 1 {
                Ok(CellState::Alive(alive_count))
            } else if v == 0 {
                Ok(CellState::Dead(alive_count))
            } else {
                Err(GridError::InvalidCellState)
            }
        },
    }
}

/// Classifies the cell at `index` and applies the rule table to the result.
pub fn get_next_state_for_index(grid: &Grid, index: Index) -> (r: Result<i32, GridError>)
    requires
        grid.wf(),
    ensures
        r == spec_next_for_index(*grid, index),
{
    match get_cell_state(grid, index) {
        Ok(cell_state) => Ok(get_next_state(cell_state)),
        Err(e) => Err(e),
    }
}

/// Computes a whole next generation: a freshly allocated grid of the same
/// dimensions whose every cell holds the rule table's verdict on the frozen
/// input, which is read only. Fails with `InvalidCellState` exactly when some
/// cell of the input holds a value other than 0 or 1.
pub fn create_next_grid(grid: &Grid) -> (r: Result<Grid, GridError>)
    requires
        grid.wf(),
    ensures
        (r is Ok) <==> all_cells_valid(*grid),
        r is Err ==> r->Err_0 == GridError::InvalidCellState,
        r is Ok ==> r->Ok_0.wf() && r->Ok_0.height() == grid.height() && r->Ok_0.width()
            == grid.width(),
        r is Ok ==> forall|x: int, y: int|
            grid.in_bounds(x, y) ==> #[trigger] r->Ok_0.cell(x, y) == spec_next_cell(*grid, x, y),
{
    let height = grid.get_height();
    let width = grid.get_width();
    let mut next_grid = Grid::new(width, height);
    let mut x: usize = 0;
    while x < height
        invariant
            x <= height,
            grid.wf(),
            height == grid.height(),
            width == grid.width(),
            next_grid.wf(),
            next_grid.height() == height,
            next_grid.width() == width,
            forall|i: int, j: int|
                0 <= i < x && 0 <= j < width ==> (#[trigger] grid.cell(i, j) == 0 || grid.cell(
                    i,
                    j,
                ) == 1),
            forall|i: int, j: int|
                0 <= i < x && 0 <= j < width ==> #[trigger] next_grid.cell(i, j) == spec_next_cell(
                    *grid,
                    i,
                    j,
                ),
        decreases height - x,
    {
        let mut y: usize = 0;
        while y < width
            invariant
                x < height,
                y <= width,
                grid.wf(),
                height == grid.height(),
                width == grid.width(),
                next_grid.wf(),
                next_grid.height() == height,
                next_grid.width() == width,
                forall|i: int, j: int|
                    0 <= i < x && 0 <= j < width ==> (#[trigger] grid.cell(i, j) == 0 || grid.cell(
                        i,
                        j,
                    ) == 1),
                forall|i: int, j: int|
                    0 <= i < x && 0 <= j < width ==> #[trigger] next_grid.cell(i, j)
                        == spec_next_cell(*grid, i, j),
                forall|j: int|
                    0 <= j < y ==> (#[trigger] grid.cell(x as int, j) == 0 || grid.cell(
                        x as int,
                        j,
                    ) == 1),
                forall|j: int|
                    0 <= j < y ==> #[trigger] next_grid.cell(x as int, j) == spec_next_cell(
                        *grid,
                        x as int,
                        j,
                    ),
            decreases width - y,
        {
            match get_next_state_for_index(grid, Index { x, y }) {
                Ok(v) => {
                    let ghost pre = next_grid;
                    let _ = next_grid.set(x, y, v);
                    proof {
                        assert forall|i: int, j: int|
                            0 <= i < x && 0 <= j < width implies #[trigger] next_grid.cell(i, j)
                            == spec_next_cell(*grid, i, j) by {
                            assert(next_grid.rows()[i] == pre.rows()[i]);
                            assert(next_grid.cell(i, j) == pre.cell(i, j));
                        }
                        assert forall|j: int| 0 <= j < y + 1 implies #[trigger] next_grid.cell(
                            x as int,
                            j,
                        ) == spec_next_cell(*grid, x as int, j) by {
                            assert(next_grid.rows()[x as int] == pre.rows()[x as int].update(
                                y as int,
                                v,
                            ));
                            if j < y {
                                assert(next_grid.cell(x as int, j) == pre.cell(x as int, j));
                            } else {
                                assert(next_grid.cell(x as int, j) == v);
                            }
                        }
                    }
                },
                Err(e) => {
                    proof {
                        assert(grid.in_bounds(x as int, y as int));
                        assert(!all_cells_valid(*grid));
                    }
                    return Err(e);
                },
            }
            y = y + 1;
        }
        x = x + 1;
    }
    Ok(next_grid)
}

/// Classification is idempotent: it depends on the frozen grid and the
/// coordinate alone, so any two results that meet `get_cell_state`'s contract
/// for the same grid and index are identical.
pub proof fn lemma_classification_idempotent(
    g: Grid,
    index: Index,
    r1: Result<CellState, GridError>,
    r2: Result<CellState, GridError>,
)
    requires
        r1 == spec_cell_state(g, index),
        r2 == spec_cell_state(g, index),
    ensures
        r1 == r2,
{
}

/// Edge clamping: a cell never counts more live neighbors than there are
/// cells of the grid, other than itself, in its Moore neighborhood — at most
/// eight, and none at all for the only cell of a 1-by-1 grid.
pub proof fn lemma_neighbor_count_clamped(g: Grid, x: int, y: int)
    ensures
        0 <= live_neighbor_count(g, x, y),
        live_neighbor_count(g, x, y) <= in_grid_neighbor_count(g, x, y),
        in_grid_neighbor_count(g, x, y) <= 8,
        g.in_bounds(x, y) && g.height() == 1 && g.width() == 1 ==> in_grid_neighbor_count(g, x, y)
            == 0,
{
}

} // verus!
