//! Rectangles of terminal cells.

use vstd::prelude::*;

verus! {

/// A rectangle of terminal cells: columns `x0` up to, not including, `x1`,
/// and rows `y0` up to, not including, `y1`.
#[derive(Copy, Clone, Debug, PartialEq, Eq, Structural)]
pub struct Bounds {
    pub x0: u16,
    pub y0: u16,
    pub x1: u16,
    pub y1: u16,
}

impl Default for Bounds {
    fn default() -> (bounds: Bounds)
        ensures
            bounds == (Bounds { x0: 0, y0: 0, x1: 0, y1: 0 }),
    {
        Bounds { x0: 0, y0: 0, x1: 0, y1: 0 }
    }
}

impl Bounds {
    /// A rectangle is well formed when neither of its ends lies before its
    /// start.
    pub open spec fn wf(self) -> bool {
        self.x0 <= self.x1 && self.y0 <= self.y1
    }

    /// The number of columns, as a number without bound.
    pub open spec fn columns(self) -> int {
        self.x1 - self.x0
    }

    /// The number of rows, as a number without bound.
    pub open spec fn rows(self) -> int {
        self.y1 - self.y0
    }

    /// The number of columns.
    pub fn width(self) -> (width: u16)
        requires
            self.x0 <= self.x1,
        ensures
            width == self.columns(),
    {
        self.x1 - self.x0
    }

    /// The number of rows.
    pub fn height(self) -> (height: u16)
        requires
            self.y0 <= self.y1,
        ensures
            height == self.rows(),
    {
        self.y1 - self.y0
    }

    /// Cuts the rectangle at row `y`: the rows above it, then the rows from it
    /// on.
    pub fn hsplit(self, y: u16) -> (parts: [Bounds; 2])
        ensures
            parts[0] == (Bounds { y1: y, ..self }),
            parts[1] == (Bounds { y0: y, ..self }),
    {
        [Bounds { y1: y, ..self }, Bounds { y0: y, ..self }]
    }

    /// Cuts the rectangle at column `x`: the columns left of it, then the
    /// columns from it on.
    pub fn vsplit(self, x: u16) -> (parts: [Bounds; 2])
        ensures
            parts[0] == (Bounds { x1: x, ..self }),
            parts[1] == (Bounds { x0: x, ..self }),
    {
        [Bounds { x1: x, ..self }, Bounds { x0: x, ..self }]
    }

    /// Cuts the rectangle into an upper and a lower half. With an odd number
    /// of rows the lower half has one row more.
    pub fn hsplit2(self) -> (parts: [Bounds; 2])
        requires
            self.y0 <= self.y1,
        ensures
            parts[0] == (Bounds { y1: (self.y0 + self.rows() / 2) as u16, ..self }),
            parts[1] == (Bounds { y0: (self.y0 + self.rows() / 2) as u16, ..self }),
            self.y0 <= parts[0].y1 <= self.y1,
    {
        let mid = self.y0 + self.height() / 2;
        [Bounds { y1: mid, ..self }, Bounds { y0: mid, ..self }]
    }

    /// Cuts the rectangle into a left and a right half. With an odd number of
    /// columns the right half has one column more.
    pub fn vsplit2(self) -> (parts: [Bounds; 2])
        requires
            self.x0 <= self.x1,
        ensures
            parts[0] == (Bounds { x1: (self.x0 + self.columns() / 2) as u16, ..self }),
            parts[1] == (Bounds { x0: (self.x0 + self.columns() / 2) as u16, ..self }),
            self.x0 <= parts[0].x1 <= self.x1,
    {
        let mid = self.x0 + self.width() / 2;
        [Bounds { x1: mid, ..self }, Bounds { x0: mid, ..self }]
    }

    /// Cuts the rectangle into three bands of rows. The upper and the lower
    /// band have a third of the rows each, rounded down; the middle band has
    /// the rest.
    pub fn hsplit3(self) -> (parts: [Bounds; 3])
        requires
            self.y0 <= self.y1,
        ensures
            parts[0] == (Bounds { y1: (self.y0 + self.rows() / 3) as u16, ..self }),
            parts[1] == (Bounds {
                y0: (self.y0 + self.rows() / 3) as u16,
                y1: (self.y1 - self.rows() / 3) as u16,
                ..self
            }),
            parts[2] == (Bounds { y0: (self.y1 - self.rows() / 3) as u16, ..self }),
            self.y0 <= parts[1].y0 <= parts[1].y1 <= self.y1,
    {
        let third = self.height() / 3;
        let upper = self.y0 + third;
        let lower = self.y1 - third;
        [
            Bounds { y1: upper, ..self },
            Bounds { y0: upper, y1: lower, ..self },
            Bounds { y0: lower, ..self },
        ]
    }

    /// Cuts the rectangle into three bands of columns. The left and the right
    /// band have a third of the columns each, rounded down; the middle band
    /// has the rest.
    pub fn vsplit3(self) -> (parts: [Bounds; 3])
        requires
            self.x0 <= self.x1,
        ensures
            parts[0] == (Bounds { x1: (self.x0 + self.columns() / 3) as u16, ..self }),
            parts[1] == (Bounds {
                x0: (self.x0 + self.columns() / 3) as u16,
                x1: (self.x1 - self.columns() / 3) as u16,
                ..self
            }),
            parts[2] == (Bounds { x0: (self.x1 - self.columns() / 3) as u16, ..self }),
            self.x0 <= parts[1].x0 <= parts[1].x1 <= self.x1,
    {
        let third = self.width() / 3;
        let left = self.x0 + third;
        let right = self.x1 - third;
        [
            Bounds { x1: left, ..self },
            Bounds { x0: left, x1: right, ..self },
            Bounds { x0: right, ..self },
        ]
    }
}

} // verus!
