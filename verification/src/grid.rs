//! A rectangular, fixed-size two-dimensional container of cell values with
//! bounds-checked accessors.
//!
//! Axis convention, used everywhere in this crate: the first coordinate `x`
//! selects a row (so `0 <= x < height`), the second coordinate `y` selects a
//! column (so `0 <= y < width`), and a grid built `from_rows` satisfies
//! `get(x, y) == rows[x][y]`.

use vstd::prelude::*;
use crate::backing::{
    a2d_rows, a2d_width, a2d_filled_with, a2d_from_rows, a2d_from_columns, a2d_num_rows,
    a2d_num_columns, a2d_get, a2d_get_mut, a2d_set, choose_uniform,
};

verus! {

/// An ordered pair identifying one cell: row `x`, column `y`.
#[derive(Debug, Hash, Clone, Copy, PartialEq, Eq, Structural, PartialOrd)]
pub struct Index {
    pub x: usize,
    pub y: usize,
}

/// The supported selection shapes to get from a grid. The number is the
/// extent of the selection: the count of cells along one arm of the shape,
/// center included, so an extent of 1 selects a single cell for every shape.
#[derive(Debug, Clone, Copy, PartialEq, Eq, Structural)]
pub enum SelectionType {
    Cross(usize),
    DiagonalCross(usize),
    Circle(usize),
    Square(usize),
}

/// The typed failures of grid construction, access and classification.
#[derive(Debug, Clone, Copy, PartialEq, Eq, Structural)]
pub enum GridError {
    /// A coordinate lies beyond the grid's dimensions.
    OutOfBounds,
    /// Ragged rows or columns were handed to a constructor.
    InconsistentDimensions,
    /// A cell value outside {0, 1} was met during classification.
    InvalidCellState,
    /// A random fill was requested with no candidate values.
    EmptyCandidateSet,
}

/// Every row of `rows` has the length of the first one.
pub open spec fn rectangular(rows: Seq<Seq<i32>>) -> bool {
    forall|i: int| 0 <= i < rows.len() ==> #[trigger] rows[i].len() == rows[0].len()
}

/// The sequences held by a vector of vectors, in order.
pub open spec fn rows_view(elements: Seq<Vec<i32>>) -> Seq<Seq<i32>> {
    Seq::new(elements.len(), |i: int| elements[i]@)
}

/// A fixed-size two-dimensional grid of `i32` cell values.
pub struct Grid(array2d::Array2D<i32>);

impl Grid {
    /// The stored rows: `self.rows()[x][y]` is the cell in row `x`, column `y`.
    pub closed spec fn rows(self) -> Seq<Seq<i32>> {
        a2d_rows(self.0)
    }

    /// The number of columns.
    pub closed spec fn width(self) -> int {
        a2d_width(self.0) as int
    }

    /// The number of rows.
    pub open spec fn height(self) -> int {
        self.rows().len() as int
    }

    /// Well-formedness: every row has `width` cells, and the cell count fits
    /// in a `usize` (it is the length of one backing allocation).
    pub open spec fn wf(self) -> bool {
        &&& forall|i: int| 0 <= i < self.height() ==> #[trigger] self.rows()[i].len() == self.width()
        &&& self.height() * self.width() <= usize::MAX as int
    }

    /// The coordinate (x, y) lies inside the grid.
    pub open spec fn in_bounds(self, x: int, y: int) -> bool {
        0 <= x < self.height() && 0 <= y < self.width()
    }

    /// The cell value in row `x`, column `y`.
    pub open spec fn cell(self, x: int, y: int) -> i32 {
        self.rows()[x][y]
    }

    pub fn get_height(&self) -> (r: usize)
        ensures
            r == self.height(),
    {
        a2d_num_rows(&self.0)
    }

    pub fn get_width(&self) -> (r: usize)
        ensures
            r == self.width(),
    {
        a2d_num_columns(&self.0)
    }

    /// Builds a grid from a rectangular sequence of rows; fails with
    /// `InconsistentDimensions` exactly when the rows do not all share one
    /// length.
    pub fn from_rows(elements: &Vec<Vec<i32>>) -> (r: Result<Grid, GridError>)
        ensures
            (r is Ok) <==> rectangular(rows_view(elements@)),
            r is Err ==> r->Err_0 == GridError::InconsistentDimensions,
            r is Ok ==> r->Ok_0.wf() && r->Ok_0.rows() == rows_view(elements@) && r->Ok_0.width()
                == (if elements@.len() == 0 {
                0int
            } else {
                elements@[0]@.len() as int
            }),
    {
        match a2d_from_rows(elements) {
            Ok(arr) => Ok(Grid(arr)),
            Err(_) => Err(GridError::InconsistentDimensions),
        }
    }

    /// Builds a grid from a rectangular sequence of columns (the transpose of
    /// `from_rows`); fails with `InconsistentDimensions` exactly when the
    /// columns do not all share one length.
    pub fn from_columns(elements: &Vec<Vec<i32>>) -> (r: Result<Grid, GridError>)
        ensures
            (r is Ok) <==> rectangular(rows_view(elements@)),
            r is Err ==> r->Err_0 == GridError::InconsistentDimensions,
            r is Ok ==> r->Ok_0.wf() && r->Ok_0.width() == elements@.len() && r->Ok_0.height() == (
            if elements@.len() == 0 {
                0int
            } else {
                elements@[0]@.len() as int
            }),
            r is Ok ==> forall|x: int, y: int|
                r->Ok_0.in_bounds(x, y) ==> #[trigger] r->Ok_0.cell(x, y) == elements@[y]@[x],
    {
        match a2d_from_columns(elements) {
            Ok(arr) => Ok(Grid(arr)),
            Err(_) => Err(GridError::InconsistentDimensions),
        }
    }

    /// Returns the value at (x, y), or None exactly when the coordinate is
    /// out of bounds; an out-of-bounds lookup is a checked outcome, never a
    /// panic.
    pub fn get(&self, x: usize, y: usize) -> (r: Option<i32>)
        ensures
            (r is Some) <==> self.in_bounds(x as int, y as int),
            r is Some ==> r->0 == self.cell(x as int, y as int),
    {
        a2d_get(&self.0, x, y)
    }

    /// `get`, addressed by an `Index`.
    pub fn get_index(&self, index: Index) -> (r: Option<i32>)
        ensures
            (r is Some) <==> self.in_bounds(index.x as int, index.y as int),
            r is Some ==> r->0 == self.cell(index.x as int, index.y as int),
    {
        self.get(index.x, index.y)
    }

    /// Mutable access to the value at (x, y), or None exactly when the
    /// coordinate is out of bounds; whatever the caller writes through the
    /// reference changes that cell alone.
    pub fn get_mut(&mut self, x: usize, y: usize) -> (r: Option<&mut i32>)
        requires
            old(self).wf(),
        ensures
            (r is Some) <==> old(self).in_bounds(x as int, y as int),
            r is None ==> *final(self) == *old(self),
            r is Some ==> *r->0 == old(self).cell(x as int, y as int),
            r is Some ==> final(self).rows() == old(self).rows().update(
                x as int,
                old(self).rows()[x as int].update(y as int, *final(r->0)),
            ),
            final(self).wf(),
            final(self).height() == old(self).height(),
            final(self).width() == old(self).width(),
    {
        a2d_get_mut(&mut self.0, x, y)
    }

    /// `get_mut`, addressed by an `Index`.
    pub fn get_mut_index(&mut self, index: Index) -> (r: Option<&mut i32>)
        requires
            old(self).wf(),
        ensures
            (r is Some) <==> old(self).in_bounds(index.x as int, index.y as int),
            r is None ==> *final(self) == *old(self),
            r is Some ==> *r->0 == old(self).cell(index.x as int, index.y as int),
            r is Some ==> final(self).rows() == old(self).rows().update(
                index.x as int,
                old(self).rows()[index.x as int].update(index.y as int, *final(r->0)),
            ),
            final(self).wf(),
            final(self).height() == old(self).height(),
            final(self).width() == old(self).width(),
    {
        self.get_mut(index.x, index.y)
    }

    /// Writes `value` at (x, y); fails with `OutOfBounds` exactly when the
    /// coordinate exceeds the grid's dimensions, and then leaves the grid
    /// unchanged.
    pub fn set(&mut self, x: usize, y: usize, value: i32) -> (r: Result<(), GridError>)
        requires
            old(self).wf(),
        ensures
            (r is Ok) <==> old(self).in_bounds(x as int, y as int),
            r is Ok ==> final(self).rows() == old(self).rows().update(
                x as int,
                old(self).rows()[x as int].update(y as int, value),
            ),
            r is Err ==> *final(self) == *old(self) && r->Err_0 == GridError::OutOfBounds,
            final(self).wf(),
            final(self).height() == old(self).height(),
            final(self).width() == old(self).width(),
    {
        match a2d_set(&mut self.0, x, y, value) {
            Ok(()) => Ok(()),
            Err(_) => Err(GridError::OutOfBounds),
        }
    }

    /// `set`, addressed by an `Index`.
    pub fn set_index(&mut self, index: Index, value: i32) -> (r: Result<(), GridError>)
        requires
            old(self).wf(),
        ensures
            (r is Ok) <==> old(self).in_bounds(index.x as int, index.y as int),
            r is Ok ==> final(self).rows() == old(self).rows().update(
                index.x as int,
                old(self).rows()[index.x as int].update(index.y as int, value),
            ),
            r is Err ==> *final(self) == *old(self) && r->Err_0 == GridError::OutOfBounds,
            final(self).wf(),
            final(self).height() == old(self).height(),
            final(self).width() == old(self).width(),
    {
        self.set(index.x, index.y, value)
    }

    /// Allocates a width-by-height grid with every cell the given value. The
    /// cell count must fit in a `usize`: dimensions whose product overflows
    /// make allocation impossible and are a fatal configuration error.
    pub fn filled_with(initial_value: i32, width: usize, height: usize) -> (r: Grid)
        requires
            height * width <= usize::MAX,
        ensures
            r.wf(),
            r.height() == height,
            r.width() == width,
            forall|x: int, y: int| r.in_bounds(x, y) ==> #[trigger] r.cell(x, y) == initial_value,
    {
        Grid(a2d_filled_with(initial_value, height, width))
    }

    /// Allocates a width-by-height grid with every cell zero.
    pub fn new(width: usize, height: usize) -> (r: Grid)
        requires
            height * width <= usize::MAX,
        ensures
            r.wf(),
            r.height() == height,
            r.width() == width,
            forall|x: int, y: int| r.in_bounds(x, y) ==> #[trigger] r.cell(x, y) == 0,
    {
        Grid::filled_with(0, width, height)
    }

    /// Fills a fresh width-by-height grid by drawing every cell, with
    /// replacement, from the given candidates; fails with `EmptyCandidateSet`
    /// exactly when no candidate is given.
    pub fn random_filled(choice_collection: &Vec<i32>, width: usize, height: usize) -> (r: Result<
        Grid,
        GridError,
    >)
        requires
            height * width <= usize::MAX,
        ensures
            (r is Ok) <==> choice_collection@.len() > 0,
            r is Err ==> r->Err_0 == GridError::EmptyCandidateSet,
            r is Ok ==> r->Ok_0.wf() && r->Ok_0.height() == height && r->Ok_0.width() == width,
            r is Ok ==> forall|x: int, y: int|
                r->Ok_0.in_bounds(x, y) ==> choice_collection@.contains(#[trigger] r->Ok_0.cell(x, y)),
    {
        if choice_collection.len() == 0 {
            return Err(GridError::EmptyCandidateSet);
        }
        let mut grid = Grid::new(width, height);
        let mut x: usize = 0;
        while x < height
            invariant
                x <= height,
                choice_collection@.len() > 0,
                grid.wf(),
                grid.height() == height,
                grid.width() == width,
                forall|i: int, j: int|
                    0 <= i < x && 0 <= j < width ==> choice_collection@.contains(
                        #[trigger] grid.cell(i, j),
                    ),
            decreases height - x,
        {
            let mut y: usize = 0;
            while y < width
                invariant
                    x < height,
                    y <= width,
                    choice_collection@.len() > 0,
                    grid.wf(),
                    grid.height() == height,
                    grid.width() == width,
                    forall|i: int, j: int|
                        0 <= i < x && 0 <= j < width ==> choice_collection@.contains(
                            #[trigger] grid.cell(i, j),
                        ),
                    forall|j: int|
                        0 <= j < y ==> choice_collection@.contains(
                            #[trigger] grid.cell(x as int, j),
                        ),
                decreases width - y,
            {
                let val = choose_uniform(choice_collection);
                let ghost pre = grid;
                let _ = grid.set(x, y, val);
                proof {
                    assert forall|i: int, j: int|
                        0 <= i < x && 0 <= j < width implies choice_collection@.contains(
                        #[trigger] grid.cell(i, j),
                    ) by {
                        assert(grid.rows()[i] == pre.rows()[i]);
                        assert(grid.cell(i, j) == pre.cell(i, j));
                    }
                    assert forall|j: int| 0 <= j < y + 1 implies choice_collection@.contains(
                        #[trigger] grid.cell(x as int, j),
                    ) by {
                        assert(grid.rows()[x as int] == pre.rows()[x as int].update(y as int, val));
                        if j < y {
                            assert(grid.cell(x as int, j) == pre.cell(x as int, j));
                        } else {
                            assert(grid.cell(x as int, j) == val);
                        }
                    }
                }
                y = y + 1;
            }
            x = x + 1;
        }
        Ok(grid)
    }

    /// A human-readable text rendering of the grid, row by row: a filled
    /// square for a live cell, a blank for any other value, one line per
    /// row. A convenience, not a format other components may parse.
    #[verifier::loop_isolation(false)]
    pub fn render(&self) -> (r: String)
        requires
            self.wf(),
        ensures
            r@ == spec_render(*self, self.height()),
    {
        let height = self.get_height();
        let width = self.get_width();
        let mut s = String::new();
        let mut x: usize = 0;
        while x < height
            invariant
                x <= height,
                s@ == spec_render(*self, x as int),
            decreases height - x,
        {
            let mut y: usize = 0;
            while y < width
                invariant
                    x < height,
                    y <= width,
                    s@ == spec_render(*self, x as int) + spec_render_row(*self, x as int, y as int),
                decreases width - y,
            {
                let v = match self.get(x, y) {
                    Some(v) => v,
                    None => {
                        proof {
                            assert(false);
                        }
                        0
                    },
                };
                let ghost prev = s@;
                if v == 1 {
                    s.append(" \u{25a0}");
                    proof {
                        reveal_strlit(" \u{25a0}");
                        assert(s@ =~= prev + spec_render_cell(v));
                    }
                } else {
                    s.append("  ");
                    proof {
                        reveal_strlit("  ");
                        assert(s@ =~= prev + spec_render_cell(v));
                    }
                }
                proof {
                    assert(s@ =~= spec_render(*self, x as int) + spec_render_row(
                        *self,
                        x as int,
                        y as int + 1,
                    ));
                }
                y = y + 1;
            }
            let ghost prev = s@;
            s.append("\n");
            proof {
                reveal_strlit("\n");
                assert(s@ =~= prev + seq!['\n']);
                assert(s@ =~= spec_render(*self, x as int + 1));
            }
            x = x + 1;
        }
        s
    }
}

/// The two characters that render one cell: a blank join, then a filled
/// square for a live (1) cell and a blank for any other value.
pub open spec fn spec_render_cell(v: i32) -> Seq<char> {
    if v == 1 {
        seq![' ', '\u{25a0}']
    } else {
        seq![' ', ' ']
    }
}

/// The rendering of the first `y` cells of row `x`.
pub open spec fn spec_render_row(g: Grid, x: int, y: int) -> Seq<char>
    decreases y,
{
    if y <= 0 {
        Seq::empty()
    } else {
        spec_render_row(g, x, y - 1) + spec_render_cell(g.cell(x, y - 1))
    }
}

/// The rendering of the first `x` rows, each followed by a line break.
pub open spec fn spec_render(g: Grid, x: int) -> Seq<char>
    decreases x,
{
    if x <= 0 {
        Seq::empty()
    } else {
        spec_render(g, x - 1) + spec_render_row(g, x - 1, g.width()) + seq!['\n']
    }
}

/// In a well-formed grid with at least one row and one column, each dimension
/// fits in a `usize`, and their sum exceeds the possible cell count by at
/// most one.
pub proof fn lemma_dims_fit(g: Grid)
    requires
        g.wf(),
        g.height() >= 1,
        g.width() >= 1,
    ensures
        g.height() <= usize::MAX as int,
        g.width() <= usize::MAX as int,
        g.height() + g.width() <= g.height() * g.width() + 1,
{
    assert(g.height() <= g.height() * g.width() && g.width() <= g.height() * g.width()
        && g.height() + g.width() <= g.height() * g.width() + 1) by (nonlinear_arith)
        requires
            g.height() >= 1,
            g.width() >= 1,
    ;
}

/// After a successful `set` at (x, y) — whose contract states the new rows as
/// an update of the old ones — `get(x, y)` reads back the written value, and
/// every other cell is unchanged.
pub proof fn lemma_get_after_set(before: Grid, after: Grid, x: int, y: int, v: i32)
    requires
        before.wf(),
        before.in_bounds(x, y),
        after.rows() == before.rows().update(x, before.rows()[x].update(y, v)),
    ensures
        after.cell(x, y) == v,
        forall|i: int, j: int|
            before.in_bounds(i, j) && !(i == x && j == y) ==> #[trigger] after.cell(i, j)
                == before.cell(i, j),
{
}

} // verus!
