//! A rectangular board of cells addressed by (row, column) points.
use vstd::prelude::*;

verus! {

/// A position on a board: row, then column.
#[derive(Clone, Copy, Debug, PartialEq, Eq, Structural)]
pub struct Point(pub usize, pub usize);

/// A displacement: rows, then columns; either may be negative.
#[derive(Clone, Copy, Debug, PartialEq, Eq, Structural)]
pub struct Vec2(pub isize, pub isize);

impl Point {
    /// The point displaced by `v`, or `None` where a coordinate would leave
    /// the range of `usize`.
    pub fn checked_add(self, v: Vec2) -> (r: Option<Point>)
        ensures
            ({
                let row = self.0 + v.0;
                let col = self.1 + v.1;
                &&& 0 <= row <= usize::MAX && 0 <= col <= usize::MAX ==> r == Some(
                    Point(row as usize, col as usize),
                )
                &&& !(0 <= row <= usize::MAX && 0 <= col <= usize::MAX) ==> r is None
            }),
    {
        let row = shift(self.0, v.0);
        let col = shift(self.1, v.1);
        match (row, col) {
            (Some(row), Some(col)) => Some(Point(row, col)),
            _ => None,
        }
    }
}

/// `x + d`, where it is a `usize`.
fn shift(x: usize, d: isize) -> (r: Option<usize>)
    ensures
        0 <= x + d <= usize::MAX ==> r == Some((x + d) as usize),
        !(0 <= x + d <= usize::MAX) ==> r is None,
{
    if d >= 0 {
        let u = d as usize;
        if x <= usize::MAX - u {
            Some(x + u)
        } else {
            None
        }
    } else {
        let u = (-(d as i128)) as usize;
        if x >= u {
            Some(x - u)
        } else {
            None
        }
    }
}

/// A rectangle given by its top-left and bottom-right corners, both
/// included.
#[derive(Clone, Copy, Debug, PartialEq, Eq, Structural)]
pub struct Rectangle(Point, Point);

impl Rectangle {
    pub closed spec fn top_left(&self) -> Point {
        self.0
    }

    pub closed spec fn bottom_right(&self) -> Point {
        self.1
    }

    /// The corners are ordered.
    pub closed spec fn wf(&self) -> bool {
        self.0.0 <= self.1.0 && self.0.1 <= self.1.1
    }

    /// Whether the rectangle covers (`r`, `c`).
    pub open spec fn covers(&self, r: int, c: int) -> bool {
        self.top_left().0 <= r <= self.bottom_right().0 && self.top_left().1 <= c
            <= self.bottom_right().1
    }

    /// The rectangle spanned by two opposite corners, in any order.
    pub fn new(p1: Point, p2: Point) -> (r: Rectangle)
        ensures
            r.wf(),
            r.top_left() == Point(min_of(p1.0, p2.0), min_of(p1.1, p2.1)),
            r.bottom_right() == Point(max_of(p1.0, p2.0), max_of(p1.1, p2.1)),
    {
        let Point(row1, col1) = p1;
        let Point(row2, col2) = p2;
        Rectangle(
            Point(
                if row1 <= row2 {
                    row1
                } else {
                    row2
                },
                if col1 <= col2 {
                    col1
                } else {
                    col2
                },
            ),
            Point(
                if row1 <= row2 {
                    row2
                } else {
                    row1
                },
                if col1 <= col2 {
                    col2
                } else {
                    col1
                },
            ),
        )
    }

    /// The top-left corner.
    pub fn corner1(&self) -> (r: &Point)
        ensures
            *r == self.top_left(),
    {
        &self.0
    }

    /// The bottom-right corner.
    pub fn corner2(&self) -> (r: &Point)
        ensures
            *r == self.bottom_right(),
    {
        &self.1
    }
}

/// The smaller of two sizes.
pub open spec fn min_of(a: usize, b: usize) -> usize {
    if a <= b {
        a
    } else {
        b
    }
}

/// The larger of two sizes.
pub open spec fn max_of(a: usize, b: usize) -> usize {
    if a <= b {
        b
    } else {
        a
    }
}

/// A grid of `rows` by `cols` elements, stored row after row.
#[derive(Debug)]
pub struct Board<T> {
    elems: Vec<T>,
    rows: usize,
    cols: usize,
}

/// Row-major positions are distinct for distinct cells, and in range.
proof fn lemma_position(r1: int, c1: int, r2: int, c2: int, rows: int, cols: int)
    requires
        0 <= r1 < rows,
        0 <= c1 < cols,
        0 <= r2 < rows,
        0 <= c2 < cols,
    ensures
        0 <= r1 * cols + c1 < rows * cols,
        r1 * cols + c1 == r2 * cols + c2 ==> r1 == r2 && c1 == c2,
{
    assert(0 <= r1 * cols + c1 < rows * cols) by (nonlinear_arith)
        requires
            0 <= r1 < rows,
            0 <= c1 < cols,
    ;
    if r1 * cols + c1 == r2 * cols + c2 {
        if r1 < r2 {
            assert(r1 * cols + c1 < r2 * cols + c2) by (nonlinear_arith)
                requires
                    r1 < r2,
                    0 <= c1 < cols,
                    0 <= c2,
            ;
        } else if r2 < r1 {
            assert(r2 * cols + c2 < r1 * cols + c1) by (nonlinear_arith)
                requires
                    r2 < r1,
                    0 <= c2 < cols,
                    0 <= c1,
            ;
        }
    }
}

impl<T: Copy> Board<T> {
    /// The element storage matches the dimensions.
    pub closed spec fn wf(&self) -> bool {
        self.elems.len() == self.rows * self.cols
    }

    pub closed spec fn nrows(&self) -> nat {
        self.rows as nat
    }

    pub closed spec fn ncols(&self) -> nat {
        self.cols as nat
    }

    /// The element at (`r`, `c`).
    pub closed spec fn cell(&self, r: int, c: int) -> T {
        self.elems@[r * self.cols + c]
    }

    /// Whether (`r`, `c`) lies on the board.
    pub open spec fn in_bounds(&self, r: int, c: int) -> bool {
        0 <= r < self.nrows() && 0 <= c < self.ncols()
    }

    /// A board of `rows` by `cols` elements, each `x`.
    pub fn new(rows: usize, cols: usize, x: T) -> (r: Board<T>)
        requires
            rows * cols <= usize::MAX,
        ensures
            r.wf(),
            r.nrows() == rows,
            r.ncols() == cols,
            forall|i: int, j: int| #[trigger] r.in_bounds(i, j) ==> r.cell(i, j) == x,
    {
        let n = rows * cols;
        let mut elems: Vec<T> = Vec::new();
        while elems.len() < n
            invariant
                elems.len() <= n,
                forall|k: int| 0 <= k < elems.len() ==> elems@[k] == x,
            decreases n - elems.len(),
        {
            elems.push(x);
        }
        let r = Board { rows, cols, elems };
        assert forall|i: int, j: int| #[trigger] r.in_bounds(i, j) implies r.cell(i, j) == x by {
            lemma_position(i, j, i, j, rows as int, cols as int);
        }
        r
    }

    /// The rectangle covering the whole board.
    pub fn rectangle(&self) -> (r: Rectangle)
        requires
            self.nrows() >= 1,
            self.ncols() >= 1,
        ensures
            r.wf(),
            r.top_left() == Point(0, 0),
            r.bottom_right() == Point((self.nrows() - 1) as usize, (self.ncols() - 1) as usize),
            forall|i: int, j: int| r.covers(i, j) <==> self.in_bounds(i, j),
    {
        Rectangle(Point(0, 0), Point(self.rows - 1, self.cols - 1))
    }

    /// The row indices.
    pub fn rows_range(&self) -> (r: core::ops::Range<usize>)
        ensures
            r.start == 0,
            r.end == self.nrows(),
    {
        0..self.rows
    }

    /// The column indices.
    pub fn cols_range(&self) -> (r: core::ops::Range<usize>)
        ensures
            r.start == 0,
            r.end == self.ncols(),
    {
        0..self.cols
    }

    /// Whether `point` lies on the board.
    pub fn contains(&self, point: Point) -> (r: bool)
        ensures
            r == self.in_bounds(point.0 as int, point.1 as int),
    {
        let Point(row, col) = point;
        row < self.rows && col < self.cols
    }

    /// The element at `point`, which must lie on the board.
    pub fn index(&self, point: Point) -> (r: &T)
        requires
            self.wf(),
            self.in_bounds(point.0 as int, point.1 as int),
        ensures
            *r == self.cell(point.0 as int, point.1 as int),
    {
        let Point(row, col) = point;
        proof {
            lemma_position(row as int, col as int, row as int, col as int, self.rows as int, self.cols as int);
        }
        &self.elems[row * self.cols + col]
    }

    /// The element at `point`, or `None` off the board.
    pub fn get(&self, point: Point) -> (r: Option<&T>)
        requires
            self.wf(),
        ensures
            self.in_bounds(point.0 as int, point.1 as int) ==> r == Some(
                &self.cell(point.0 as int, point.1 as int),
            ),
            !self.in_bounds(point.0 as int, point.1 as int) ==> r is None,
    {
        if self.contains(point) {
            Some(self.index(point))
        } else {
            None
        }
    }

    /// Writes `x` at `point`, which must lie on the board.
    pub fn set(&mut self, point: Point, x: T)
        requires
            old(self).wf(),
            old(self).in_bounds(point.0 as int, point.1 as int),
        ensures
            final(self).wf(),
            final(self).nrows() == old(self).nrows(),
            final(self).ncols() == old(self).ncols(),
            forall|i: int, j: int| #[trigger]
                final(self).in_bounds(i, j) ==> final(self).cell(i, j) == if i == point.0 && j
                    == point.1 {
                    x
                } else {
                    old(self).cell(i, j)
                },
    {
        let Point(row, col) = point;
        proof {
            lemma_position(row as int, col as int, row as int, col as int, self.rows as int, self.cols as int);
        }
        let k = row * self.cols + col;
        self.elems.set(k, x);
        proof {
            assert forall|i: int, j: int| #[trigger]
                final(self).in_bounds(i, j) implies final(self).cell(i, j) == if i == point.0 && j
                    == point.1 {
                    x
                } else {
                    old(self).cell(i, j)
                } by {
                lemma_position(i, j, row as int, col as int, self.rows as int, self.cols as int);
            }
        }
    }

    /// Writes `x` over every cell of `rectangle`, which must lie on the
    /// board.
    pub fn fill_rectangle(&mut self, rectangle: Rectangle, x: T)
        requires
            old(self).wf(),
            rectangle.wf(),
            old(self).in_bounds(rectangle.bottom_right().0 as int, rectangle.bottom_right().1 as int),
        ensures
            final(self).wf(),
            final(self).nrows() == old(self).nrows(),
            final(self).ncols() == old(self).ncols(),
            forall|i: int, j: int| #[trigger]
                final(self).in_bounds(i, j) ==> final(self).cell(i, j) == if rectangle.covers(i, j) {
                    x
                } else {
                    old(self).cell(i, j)
                },
    {
        let Rectangle(Point(row1, col1), Point(row2, col2)) = rectangle;
        let ghost start = *self;
        let mut row = row1;
        while row <= row2
            invariant
                self.wf(),
                self.nrows() == start.nrows(),
                self.ncols() == start.ncols(),
                row1 <= row <= row2 + 1,
                row2 < start.nrows(),
                col1 <= col2 < start.ncols(),
                rectangle == Rectangle(Point(row1, col1), Point(row2, col2)),
                forall|i: int, j: int| #[trigger]
                    self.in_bounds(i, j) ==> self.cell(i, j) == if row1 <= i < row && col1 <= j
                        <= col2 {
                        x
                    } else {
                        start.cell(i, j)
                    },
            decreases row2 + 1 - row,
        {
            let mut col = col1;
            while col <= col2
                invariant
                    self.wf(),
                    self.nrows() == start.nrows(),
                    self.ncols() == start.ncols(),
                    row1 <= row <= row2,
                    col1 <= col <= col2 + 1,
                    row2 < start.nrows(),
                    col2 < start.ncols(),
                    forall|i: int, j: int| #[trigger]
                        self.in_bounds(i, j) ==> self.cell(i, j) == if (row1 <= i < row && col1
                            <= j <= col2) || (i == row && col1 <= j < col) {
                            x
                        } else {
                            start.cell(i, j)
                        },
                decreases col2 + 1 - col,
            {
                let ghost before = *self;
                self.set(Point(row, col), x);
                assert forall|i: int, j: int| #[trigger] self.in_bounds(i, j) implies self.cell(i, j)
                    == if (row1 <= i < row && col1 <= j <= col2) || (i == row && col1 <= j <= col) {
                    x
                } else {
                    start.cell(i, j)
                } by {
                    assert(before.in_bounds(i, j));
                }
                col += 1;
            }
            row += 1;
        }
    }
}

} // verus!
