//! Shape-based neighborhood selection: the set of grid indices that a cross,
//! square, diagonal cross or circle of a given extent covers around a cell,
//! always clipped to the grid's bounds (clamping, no wraparound).

use vstd::prelude::*;
use crate::grid::{Grid, Index, SelectionType};

verus! {

broadcast use vstd::seq_lib::lemma_seq_contains_after_push;

/// The radius of a selection: the extent counts the cells along one arm
/// including the center, so the radius is one less; an extent of zero is
/// tolerated and treated like one.
pub open spec fn radius(extent: usize) -> int {
    if extent > 0 {
        extent - 1
    } else {
        0
    }
}

/// (px, py) lies on the plus shape of radius r around (cx, cy): on the
/// vertical arm through the center or on the horizontal one.
pub open spec fn on_cross(cx: int, cy: int, r: int, px: int, py: int) -> bool {
    (py == cy && cx - r <= px <= cx + r) || (px == cx && cy - r <= py <= cy + r)
}

/// (px, py) lies in the filled axis-aligned block of radius r around
/// (cx, cy): within Chebyshev distance r.
pub open spec fn on_square(cx: int, cy: int, r: int, px: int, py: int) -> bool {
    cx - r <= px <= cx + r && cy - r <= py <= cy + r
}

/// (px, py) lies on one of the two 45-degree diagonals of radius r through
/// (cx, cy).
pub open spec fn on_diagonal_cross(cx: int, cy: int, r: int, px: int, py: int) -> bool {
    (px - cx == py - cy || px - cx == cy - py) && cx - r <= px <= cx + r
}

/// (px, py) lies within Euclidean distance r of (cx, cy).
pub open spec fn on_circle(cx: int, cy: int, r: int, px: int, py: int) -> bool {
    (px - cx) * (px - cx) + (py - cy) * (py - cy) <= r * r
}

/// Membership in a selection: the cell lies inside the grid and on the
/// requested shape around the queried index.
pub open spec fn selected(g: Grid, selection_type: SelectionType, center: Index, p: Index) -> bool {
    g.in_bounds(p.x as int, p.y as int) && match selection_type {
        SelectionType::Cross(extent) => on_cross(
            center.x as int,
            center.y as int,
            radius(extent),
            p.x as int,
            p.y as int,
        ),
        SelectionType::DiagonalCross(extent) => on_diagonal_cross(
            center.x as int,
            center.y as int,
            radius(extent),
            p.x as int,
            p.y as int,
        ),
        SelectionType::Circle(extent) => on_circle(
            center.x as int,
            center.y as int,
            radius(extent),
            p.x as int,
            p.y as int,
        ),
        SelectionType::Square(extent) => on_square(
            center.x as int,
            center.y as int,
            radius(extent),
            p.x as int,
            p.y as int,
        ),
    }
}

/// No index occurs twice.
pub open spec fn distinct_indexes(s: Seq<Index>) -> bool {
    forall|i: int, j: int| 0 <= i < j < s.len() ==> s[i] != s[j]
}

/// A point within Euclidean distance r of the center lies within r along
/// each axis.
proof fn lemma_circle_window(dx: int, dy: int, r: int)
    requires
        0 <= r,
        dx * dx + dy * dy <= r * r,
    ensures
        -r <= dx <= r,
        -r <= dy <= r,
{
    assert(-r <= dx <= r && -r <= dy <= r) by (nonlinear_arith)
        requires
            0 <= r,
            dx * dx + dy * dy <= r * r,
    ;
}

/// Pushing an index that is not yet present keeps a selection free of
/// duplicates.
proof fn lemma_distinct_push(s: Seq<Index>, e: Index)
    requires
        distinct_indexes(s),
        !s.contains(e),
    ensures
        distinct_indexes(s.push(e)),
{
    assert forall|i: int, j: int| 0 <= i < j < s.push(e).len() implies s.push(e)[i] != s.push(
        e,
    )[j] by {
        if j == s.len() {
            assert(s.push(e)[i] == s[i]);
            if s[i] == e {
                assert(s.contains(e));
            }
        }
    }
}

impl Grid {
    /// The lower corner of the window of radius `extent` around `index`,
    /// clamped at zero on both axes.
    fn get_start_index(&self, extent: usize, index: &Index) -> (r: Index)
        ensures
            r.x == (if index.x as int - extent as int > 0 {
                index.x as int - extent as int
            } else {
                0int
            }),
            r.y == (if index.y as int - extent as int > 0 {
                index.y as int - extent as int
            } else {
                0int
            }),
    {
        Index {
            x: if index.x > extent {
                index.x - extent
            } else {
                0
            },
            y: if index.y > extent {
                index.y - extent
            } else {
                0
            },
        }
    }

    /// The upper corner of the window of radius `extent` around `index`,
    /// clamped to the last row and column.
    fn get_end_index(&self, extent: usize, index: &Index) -> (r: Index)
        requires
            self.in_bounds(index.x as int, index.y as int),
        ensures
            r.x == (if index.x + extent < self.height() {
                index.x as int + extent as int
            } else {
                self.height() - 1
            }),
            r.y == (if index.y + extent < self.width() {
                index.y as int + extent as int
            } else {
                self.width() - 1
            }),
    {
        let height = self.get_height();
        let width = self.get_width();
        Index {
            x: if height - 1 - index.x >= extent {
                index.x + extent
            } else {
                height - 1
            },
            y: if width - 1 - index.y >= extent {
                index.y + extent
            } else {
                width - 1
            },
        }
    }

    /// The plus shape around `index`: the vertical and horizontal spans of
    /// radius extent − 1, clipped to the grid.
    fn select_cross(&self, extent: usize, index: Index) -> (r: Vec<Index>)
        requires
            self.wf(),
            self.in_bounds(index.x as int, index.y as int),
        ensures
            distinct_indexes(r@),
            forall|p: Index| #[trigger]
                r@.contains(p) <==> selected(*self, SelectionType::Cross(extent), index, p),
    {
        proof {
            crate::grid::lemma_dims_fit(*self);
        }
        let r_ext = if extent > 0 {
            extent - 1
        } else {
            0
        };
        let start = self.get_start_index(r_ext, &index);
        let end = self.get_end_index(r_ext, &index);
        let mut indexes: Vec<Index> = Vec::new();

        let mut x = start.x;
        while x <= end.x
            invariant
                start.x <= x <= end.x + 1,
                end.x < self.height(),
                self.height() <= usize::MAX as int,
                distinct_indexes(indexes@),
                forall|p: Index| #[trigger]
                    indexes@.contains(p) <==> (p.y == index.y && start.x <= p.x < x),
            decreases end.x + 1 - x,
        {
            let e = Index { x, y: index.y };
            proof {
                assert(!indexes@.contains(e));
                lemma_distinct_push(indexes@, e);
            }
            indexes.push(e);
            x = x + 1;
        }

        let mut y = start.y;
        while y <= end.y
            invariant
                start.y <= y <= end.y + 1,
                end.y < self.width(),
                self.width() <= usize::MAX as int,
                distinct_indexes(indexes@),
                forall|p: Index| #[trigger]
                    indexes@.contains(p) <==> ((p.y == index.y && start.x <= p.x <= end.x) || (p.x
                        == index.x && p.y != index.y && start.y <= p.y < y)),
            decreases end.y + 1 - y,
        {
            if y != index.y {
                let e = Index { x: index.x, y };
                proof {
                    assert(!indexes@.contains(e));
                    lemma_distinct_push(indexes@, e);
                }
                indexes.push(e);
            }
            y = y + 1;
        }
        indexes
    }

    /// The filled block around `index`: every cell of the clamped window of
    /// radius extent − 1 in both axes.
    fn select_square(&self, extent: usize, index: Index) -> (r: Vec<Index>)
        requires
            self.wf(),
            self.in_bounds(index.x as int, index.y as int),
        ensures
            distinct_indexes(r@),
            forall|p: Index| #[trigger]
                r@.contains(p) <==> selected(*self, SelectionType::Square(extent), index, p),
    {
        proof {
            crate::grid::lemma_dims_fit(*self);
        }
        let r_ext = if extent > 0 {
            extent - 1
        } else {
            0
        };
        let start = self.get_start_index(r_ext, &index);
        let end = self.get_end_index(r_ext, &index);
        let mut indexes: Vec<Index> = Vec::new();

        let mut x = start.x;
        while x <= end.x
            invariant
                start.x <= x <= end.x + 1,
                end.x < self.height(),
                end.y < self.width(),
                start.y <= end.y,
                self.height() <= usize::MAX as int,
                self.width() <= usize::MAX as int,
                distinct_indexes(indexes@),
                forall|p: Index| #[trigger]
                    indexes@.contains(p) <==> (start.x <= p.x < x && start.y <= p.y <= end.y),
            decreases end.x + 1 - x,
        {
            let mut y = start.y;
            while y <= end.y
                invariant
                    start.x <= x <= end.x,
                    start.y <= y <= end.y + 1,
                    end.x < self.height(),
                    end.y < self.width(),
                    self.height() <= usize::MAX as int,
                    self.width() <= usize::MAX as int,
                    distinct_indexes(indexes@),
                    forall|p: Index| #[trigger]
                        indexes@.contains(p) <==> ((start.x <= p.x < x && start.y <= p.y <= end.y)
                            || (p.x == x && start.y <= p.y < y)),
                decreases end.y + 1 - y,
            {
                let e = Index { x, y };
                proof {
                    assert(!indexes@.contains(e));
                    lemma_distinct_push(indexes@, e);
                }
                indexes.push(e);
                y = y + 1;
            }
            x = x + 1;
        }
        indexes
    }

    /// The diagonal plus shape around `index`: the cells of the two
    /// 45-degree diagonals through it out to radius extent − 1, clipped to
    /// the grid (a step that would fall outside is excluded, never folded
    /// back).
    #[verifier::loop_isolation(false)]
    fn select_diagonal_cross(&self, extent: usize, index: Index) -> (r: Vec<Index>)
        requires
            self.wf(),
            self.in_bounds(index.x as int, index.y as int),
        ensures
            distinct_indexes(r@),
            forall|p: Index| #[trigger]
                r@.contains(p) <==> selected(*self, SelectionType::DiagonalCross(extent), index, p),
    {
        proof {
            crate::grid::lemma_dims_fit(*self);
        }
        let r_ext = if extent > 0 {
            extent - 1
        } else {
            0
        };
        let start = self.get_start_index(r_ext, &index);
        let end = self.get_end_index(r_ext, &index);
        let mut indexes: Vec<Index> = Vec::new();

        let mut x = start.x;
        while x <= end.x
            invariant
                start.x <= x <= end.x + 1,
                distinct_indexes(indexes@),
                forall|p: Index| #[trigger]
                    indexes@.contains(p) <==> (selected(
                        *self,
                        SelectionType::DiagonalCross(extent),
                        index,
                        p,
                    ) && p.x < x),
            decreases end.x + 1 - x,
        {
            let d = if x >= index.x {
                x - index.x
            } else {
                index.x - x
            };
            let y_up = index.y + d;
            if y_up < self.get_width() {
                let e = Index { x, y: y_up };
                proof {
                    assert(!indexes@.contains(e));
                    lemma_distinct_push(indexes@, e);
                }
                indexes.push(e);
            }
            if d > 0 && d <= index.y {
                let e = Index { x, y: index.y - d };
                proof {
                    assert(!indexes@.contains(e));
                    lemma_distinct_push(indexes@, e);
                }
                indexes.push(e);
            }
            proof {
                assert forall|p: Index| #[trigger] indexes@.contains(p) <==> (selected(
                    *self,
                    SelectionType::DiagonalCross(extent),
                    index,
                    p,
                ) && p.x < x + 1) by {
                    let cxi = index.x as int;
                    let cyi = index.y as int;
                    let pxi = p.x as int;
                    let pyi = p.y as int;
                    if pxi == x as int && selected(
                        *self,
                        SelectionType::DiagonalCross(extent),
                        index,
                        p,
                    ) {
                        assert(pyi == cyi + (pxi - cxi) || pyi == cyi - (pxi - cxi));
                        assert(pyi == cyi + d || pyi == cyi - d);
                    }
                }
            }
            x = x + 1;
        }
        indexes
    }

    /// The disk around `index`: every cell within Euclidean distance
    /// extent − 1 of it, clipped to the grid.
    #[verifier::loop_isolation(false)]
    fn select_circle(&self, extent: usize, index: Index) -> (r: Vec<Index>)
        requires
            self.wf(),
            self.in_bounds(index.x as int, index.y as int),
        ensures
            distinct_indexes(r@),
            forall|p: Index| #[trigger]
                r@.contains(p) <==> selected(*self, SelectionType::Circle(extent), index, p),
    {
        proof {
            crate::grid::lemma_dims_fit(*self);
        }
        let r_ext = if extent > 0 {
            extent - 1
        } else {
            0
        };
        let start = self.get_start_index(r_ext, &index);
        let end = self.get_end_index(r_ext, &index);
        let mut indexes: Vec<Index> = Vec::new();

        proof {
            assert forall|p: Index|
                selected(*self, SelectionType::Circle(extent), index, p) implies start.x <= p.x by {
                lemma_circle_window(
                    p.x as int - index.x as int,
                    p.y as int - index.y as int,
                    r_ext as int,
                );
            }
        }
        let mut x = start.x;
        while x <= end.x
            invariant
                start.x <= x <= end.x + 1,
                distinct_indexes(indexes@),
                forall|p: Index| #[trigger]
                    indexes@.contains(p) <==> (selected(
                        *self,
                        SelectionType::Circle(extent),
                        index,
                        p,
                    ) && p.x < x),
            decreases end.x + 1 - x,
        {
            proof {
                assert forall|p: Index|
                    selected(*self, SelectionType::Circle(extent), index, p) implies start.y <= p.y
                    <= end.y by {
                    lemma_circle_window(
                        p.x as int - index.x as int,
                        p.y as int - index.y as int,
                        r_ext as int,
                    );
                }
            }
            let mut y = start.y;
            while y <= end.y
                invariant
                    start.y <= y <= end.y + 1,
                    distinct_indexes(indexes@),
                    forall|p: Index| #[trigger]
                        indexes@.contains(p) <==> (selected(
                            *self,
                            SelectionType::Circle(extent),
                            index,
                            p,
                        ) && (p.x < x || (p.x == x && p.y < y))),
                decreases end.y + 1 - y,
            {
                let dx = if x >= index.x {
                    x - index.x
                } else {
                    index.x - x
                };
                let dy = if y >= index.y {
                    y - index.y
                } else {
                    index.y - y
                };
                let rr = square_to_u128(r_ext);
                let dx2 = square_to_u128(dx);
                let dy2 = square_to_u128(dy);
                proof {
                    assert((dy as int) * (dy as int) <= (r_ext as int) * (r_ext as int))
                        by (nonlinear_arith)
                        requires
                            0 <= dy as int <= r_ext as int,
                    ;
                    assert((x as int - index.x as int) * (x as int - index.x as int) == (
                    dx as int) * (dx as int)) by (nonlinear_arith)
                        requires
                            (x as int - index.x as int == dx as int) || (index.x as int - x as int
                                == dx as int),
                    ;
                    assert((y as int - index.y as int) * (y as int - index.y as int) == (
                    dy as int) * (dy as int)) by (nonlinear_arith)
                        requires
                            (y as int - index.y as int == dy as int) || (index.y as int - y as int
                                == dy as int),
                    ;
                }
                if dx2 <= rr - dy2 {
                    let e = Index { x, y };
                    proof {
                        assert(!indexes@.contains(e));
                        lemma_distinct_push(indexes@, e);
                    }
                    indexes.push(e);
                }
                proof {
                    assert forall|p: Index| #[trigger] indexes@.contains(p) <==> (selected(
                        *self,
                        SelectionType::Circle(extent),
                        index,
                        p,
                    ) && (p.x < x || (p.x == x && p.y < y + 1))) by {
                        if p.x == x && p.y == y {
                            assert(p == Index { x, y });
                        }
                    }
                }
                y = y + 1;
            }
            x = x + 1;
        }
        proof {
            assert forall|p: Index|
                selected(*self, SelectionType::Circle(extent), index, p) implies p.x < x by {
                lemma_circle_window(
                    p.x as int - index.x as int,
                    p.y as int - index.y as int,
                    r_ext as int,
                );
            }
        }
        indexes
    }

    /// The indices of the requested neighborhood around `index`, clipped to
    /// the grid's bounds, without duplicates; the queried index itself is
    /// always among them. None exactly when the queried index lies outside
    /// the grid, where no clipped neighborhood contains it.
    pub fn get_selection_indexes(&self, selection_type: SelectionType, index: Index) -> (r: Option<
        Vec<Index>,
    >)
        requires
            self.wf(),
        ensures
            (r is Some) <==> self.in_bounds(index.x as int, index.y as int),
            r is Some ==> distinct_indexes(r->0@),
            r is Some ==> forall|p: Index| #[trigger]
                r->0@.contains(p) <==> selected(*self, selection_type, index, p),
    {
        match self.get(index.x, index.y) {
            None => None,
            Some(_) => match selection_type {
                SelectionType::Cross(extent) => Some(self.select_cross(extent, index)),
                SelectionType::DiagonalCross(extent) => Some(
                    self.select_diagonal_cross(extent, index),
                ),
                SelectionType::Circle(extent) => Some(self.select_circle(extent, index)),
                SelectionType::Square(extent) => Some(self.select_square(extent, index)),
            },
        }
    }

    /// The set of cell values stored in the requested neighborhood: each
    /// value once, however many selected cells hold it. None exactly when
    /// the queried index lies outside the grid.
    pub fn get_selection(&self, selection_type: SelectionType, index: Index) -> (r: Option<
        Vec<i32>,
    >)
        requires
            self.wf(),
        ensures
            (r is Some) <==> self.in_bounds(index.x as int, index.y as int),
            r is Some ==> (forall|i: int, j: int|
                0 <= i < j < r->0@.len() ==> r->0@[i] != r->0@[j]),
            r is Some ==> forall|v: i32| #[trigger]
                r->0@.contains(v) <==> (exists|p: Index|
                    selected(*self, selection_type, index, p) && #[trigger] self.cell(
                        p.x as int,
                        p.y as int,
                    ) == v),
    {
        let indexes = match self.get_selection_indexes(selection_type, index) {
            None => {
                return None;
            },
            Some(v) => v,
        };
        let mut values: Vec<i32> = Vec::new();
        let mut i: usize = 0;
        while i < indexes.len()
            invariant
                i <= indexes@.len(),
                self.wf(),
                forall|p: Index| #[trigger]
                    indexes@.contains(p) <==> selected(*self, selection_type, index, p),
                forall|k: int, l: int| 0 <= k < l < values@.len() ==> values@[k] != values@[l],
                forall|v: i32| #[trigger]
                    values@.contains(v) <==> (exists|j: int|
                        0 <= j < i && self.cell(
                            #[trigger] indexes@[j].x as int,
                            indexes@[j].y as int,
                        ) == v),
            decreases indexes@.len() - i,
        {
            let p = indexes[i];
            proof {
                assert(indexes@.contains(p));
            }
            let v = match self.get(p.x, p.y) {
                Some(v) => v,
                None => {
                    proof {
                        assert(false);
                    }
                    0
                },
            };
            if !vec_holds(&values, v) {
                values.push(v);
            }
            i = i + 1;
        }
        proof {
            assert forall|v: i32| #[trigger] values@.contains(v) <==> (exists|p: Index|
                selected(*self, selection_type, index, p) && #[trigger] self.cell(
                    p.x as int,
                    p.y as int,
                ) == v) by {
                if values@.contains(v) {
                    let j = choose|j: int|
                        0 <= j < indexes@.len() && self.cell(
                            #[trigger] indexes@[j].x as int,
                            indexes@[j].y as int,
                        ) == v;
                    assert(indexes@.contains(indexes@[j]));
                }
                if exists|p: Index|
                    selected(*self, selection_type, index, p) && #[trigger] self.cell(
                        p.x as int,
                        p.y as int,
                    ) == v {
                    let p = choose|p: Index|
                        selected(*self, selection_type, index, p) && #[trigger] self.cell(
                            p.x as int,
                            p.y as int,
                        ) == v;
                    assert(indexes@.contains(p));
                    let j = choose|j: int| 0 <= j < indexes@.len() && indexes@[j] == p;
                    assert(self.cell(indexes@[j].x as int, indexes@[j].y as int) == v);
                }
            }
        }
        Some(values)
    }
}

/// Whether the vector already holds the value.
fn vec_holds(values: &Vec<i32>, v: i32) -> (r: bool)
    ensures
        r == values@.contains(v),
{
    let mut i: usize = 0;
    while i < values.len()
        invariant
            i <= values@.len(),
            forall|j: int| 0 <= j < i ==> values@[j] != v,
        decreases values@.len() - i,
    {
        if values[i] == v {
            proof {
                assert(values@.contains(v));
            }
            return true;
        }
        i = i + 1;
    }
    false
}

/// Squares a value exactly, wide enough that no square of a `usize` can
/// overflow.
fn square_to_u128(v: usize) -> (r: u128)
    ensures
        r == (v as int) * (v as int),
{
    proof {
        assert((v as int) * (v as int) <= u128::MAX as int) by (nonlinear_arith)
            requires
                0 <= v as int <= u64::MAX as int,
        ;
    }
    (v as u128) * (v as u128)
}

} // verus!
