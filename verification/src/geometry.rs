//! Screen geometry. Rows and columns count from zero, with the origin in the top left corner.

use vstd::prelude::*;

verus! {

/// The size of the screen.
#[derive(Debug, Clone, Copy, PartialEq, Eq, Structural)]
pub struct Size {
    pub width: u16,
    pub height: u16,
}

/// A place on the screen.
#[derive(Debug, Clone, Copy, PartialEq, Eq, Structural)]
pub struct Position {
    pub x: u16,
    pub y: u16,
}

/// A rectangle on the screen.
#[derive(Debug, Clone, Copy, PartialEq, Eq, Structural)]
pub struct Rect {
    pub x: u16,
    pub y: u16,
    pub width: u16,
    pub height: u16,
}

/// The smaller of two numbers.
pub open spec fn smaller(a: int, b: int) -> int {
    if a <= b {
        a
    } else {
        b
    }
}

/// What is left of `a` when `b` is taken away, at least nothing.
pub open spec fn left_over(a: int, b: int) -> int {
    if a >= b {
        a - b
    } else {
        0
    }
}

impl Rect {
    /// The row below the rectangle, or the last coordinate if that is too far down.
    pub open spec fn end_row(self) -> int {
        smaller(self.y + self.height, u16::MAX as int)
    }

    /// The rectangle moved to another row.
    pub open spec fn at_row(self, row: int) -> Rect {
        Rect { x: self.x, y: row as u16, width: self.width, height: self.height }
    }

    /// The first row of the rectangle.
    pub fn top(self) -> (r: u16)
        ensures
            r == self.y,
    {
        self.y
    }

    /// The row below the rectangle, or the last coordinate if that is too far down.
    pub fn bottom(self) -> (r: u16)
        ensures
            r == self.end_row(),
    {
        self.y.saturating_add(self.height)
    }

    /// The top left corner.
    pub fn as_position(self) -> (r: Position)
        ensures
            r == (Position { x: self.x, y: self.y }),
    {
        Position { x: self.x, y: self.y }
    }
}

/// A rectangle ends as many rows below its top as it is high, or at the last coordinate if that is
/// further down; moving it to another row leaves the rest of it as it is.
pub proof fn law_rectangles(area: Rect, row: u16)
    ensures
        area.y + area.height <= u16::MAX ==> area.end_row() == area.y + area.height,
        area.y + area.height > u16::MAX ==> area.end_row() == u16::MAX,
        area.at_row(row as int).y == row,
        area.at_row(row as int).x == area.x,
        area.at_row(row as int).width == area.width,
        area.at_row(row as int).height == area.height,
{
}

} // verus!
