//! Positions and regions of a document, counted in rows and columns from
//! zero.

use vstd::prelude::*;

verus! {

/// A position in a document: a row and a column, both counted from zero.
#[derive(Clone, Copy, Debug, PartialEq, Eq, Structural)]
pub struct Point {
    pub row: usize,
    pub column: usize,
}

/// `a` comes no later than `b`: rows first, then columns.
pub open spec fn point_le(a: Point, b: Point) -> bool {
    a.row < b.row || (a.row == b.row && a.column <= b.column)
}

/// `a` comes strictly before `b`.
pub open spec fn point_lt(a: Point, b: Point) -> bool {
    a.row < b.row || (a.row == b.row && a.column < b.column)
}

impl Point {
    pub fn new(row: usize, column: usize) -> (r: Point)
        ensures
            r.row == row,
            r.column == column,
    {
        Point { row, column }
    }

    /// The first position of a document.
    pub fn zero() -> (r: Point)
        ensures
            r.row == 0,
            r.column == 0,
    {
        Point { row: 0, column: 0 }
    }

    pub fn le(&self, other: &Point) -> (r: bool)
        ensures
            r == point_le(*self, *other),
    {
        self.row < other.row || (self.row == other.row && self.column <= other.column)
    }

    pub fn lt(&self, other: &Point) -> (r: bool)
        ensures
            r == point_lt(*self, *other),
    {
        self.row < other.row || (self.row == other.row && self.column < other.column)
    }
}

/// The region between two points.
#[derive(Clone, Copy, Debug, PartialEq, Eq, Structural)]
pub struct Range {
    pub start: Point,
    pub end: Point,
}

/// `p` lies in `r`, its two end points included.
pub open spec fn range_contains(r: Range, p: Point) -> bool {
    point_le(r.start, p) && point_le(p, r.end)
}

impl Range {
    pub fn new(start: Point, end: Point) -> (r: Range)
        ensures
            r.start == start,
            r.end == end,
    {
        Range { start, end }
    }

    /// The empty region at the start of a document.
    pub fn zero() -> (r: Range)
        ensures
            r == Range::zero_spec(),
    {
        Range { start: Point::zero(), end: Point::zero() }
    }

    /// Whether `p` lies in this region, its two end points included.
    pub fn contains(&self, p: &Point) -> (r: bool)
        ensures
            r == range_contains(*self, *p),
    {
        self.start.le(p) && p.le(&self.end)
    }
}

impl Point {
    pub open spec fn zero_spec() -> Point {
        Point { row: 0, column: 0 }
    }
}

impl Range {
    pub open spec fn zero_spec() -> Range {
        Range { start: Point::zero_spec(), end: Point::zero_spec() }
    }
}

} // verus!
