use crate::direction::Direction;
use vstd::prelude::*;

verus! {

/// A grid position: a column `x` and a row `y`.
#[derive(Clone, Copy, Debug, PartialEq, Eq, Structural, Hash)]
pub struct Point {
    pub x: i32,
    pub y: i32,
}

impl Point {
    /// Makes the point in column `x` and row `y`.
    pub fn new(x: i32, y: i32) -> (p: Point)
        ensures
            p.x == x,
            p.y == y,
    {
        Point { x, y }
    }

    /// Returns the column.
    pub fn x(&self) -> (r: i32)
        ensures
            r == self.x,
    {
        self.x
    }

    /// Returns the row.
    pub fn y(&self) -> (r: i32)
        ensures
            r == self.y,
    {
        self.y
    }

    /// True if one more step in `dir` stays within the range of coordinates.
    pub open spec fn can_step(self, dir: Direction) -> bool {
        &&& i32::MIN <= self.x + dir.dx() <= i32::MAX
        &&& i32::MIN <= self.y + dir.dy() <= i32::MAX
    }

    /// The neighbouring point one step in `dir`.
    pub open spec fn step(self, dir: Direction) -> Point {
        Point { x: (self.x + dir.dx()) as i32, y: (self.y + dir.dy()) as i32 }
    }

    /// True if the two points are horizontal or vertical neighbours.
    pub open spec fn adjacent(self, other: Point) -> bool {
        ||| self.x == other.x && (other.y - self.y == 1 || self.y - other.y == 1)
        ||| self.y == other.y && (other.x - self.x == 1 || self.x - other.x == 1)
    }

    /// Returns the neighbouring point one step in `dir`, or `None` where that
    /// step would leave the range of coordinates.
    pub fn checked_step(self, dir: Direction) -> (r: Option<Point>)
        ensures
            r == (if self.can_step(dir) {
                Some(self.step(dir))
            } else {
                None
            }),
    {
        match dir {
            Direction::East => if self.x < i32::MAX {
                Some(Point { x: self.x + 1, y: self.y })
            } else {
                None
            },
            Direction::West => if self.x > i32::MIN {
                Some(Point { x: self.x - 1, y: self.y })
            } else {
                None
            },
            Direction::South => if self.y < i32::MAX {
                Some(Point { x: self.x, y: self.y + 1 })
            } else {
                None
            },
            Direction::North => if self.y > i32::MIN {
                Some(Point { x: self.x, y: self.y - 1 })
            } else {
                None
            },
        }
    }
}

/// An axis-aligned rectangle of grid cells: its left column, its top row and
/// its extent.
#[derive(Clone, Copy, Debug, PartialEq, Eq, Structural)]
pub struct Rect {
    pub left: i32,
    pub top: i32,
    pub width: u32,
    pub height: u32,
}

impl Rect {
    /// Makes the rectangle whose top-left cell is (`left`, `top`).
    pub fn new(left: i32, top: i32, width: u32, height: u32) -> (r: Rect)
        ensures
            r == (Rect { left, top, width, height }),
    {
        Rect { left, top, width, height }
    }

    /// True if the cell `pt` lies inside the rectangle.
    pub open spec fn spec_contains(&self, pt: Point) -> bool {
        &&& self.left <= pt.x < self.left + self.width
        &&& self.top <= pt.y < self.top + self.height
    }

    /// Returns the width in cells.
    pub fn width(&self) -> (r: u32)
        ensures
            r == self.width,
    {
        self.width
    }

    /// Returns the height in cells.
    pub fn height(&self) -> (r: u32)
        ensures
            r == self.height,
    {
        self.height
    }

    /// Returns true if the cell `pt` lies inside the rectangle.
    #[verifier::when_used_as_spec(spec_contains)]
    pub fn contains(&self, pt: Point) -> (r: bool)
        ensures
            r == self.spec_contains(pt),
    {
        let x: i64 = pt.x as i64;
        let y: i64 = pt.y as i64;
        let left: i64 = self.left as i64;
        let top: i64 = self.top as i64;
        left <= x && x < left + self.width as i64 && top <= y && y < top + self.height as i64
    }
}

} // verus!
