//! Rectangles of terminal cells.

use vstd::prelude::*;

verus! {

/// A rectangle of terminal cells. `x` and `y` name the column and the row of its
/// top-left cell; `width` and `height` count cells.
#[derive(Clone, Copy, Debug, PartialEq, Eq, Structural)]
pub struct Rect {
    pub x: u16,
    pub y: u16,
    pub width: u16,
    pub height: u16,
}

impl Rect {
    /// The column just past the right edge.
    pub open spec fn right(self) -> int {
        self.x + self.width
    }

    /// The row just past the bottom edge.
    pub open spec fn bottom(self) -> int {
        self.y + self.height
    }

    /// Both far edges are coordinates that a `u16` can hold.
    pub open spec fn fits(self) -> bool {
        self.right() <= u16::MAX && self.bottom() <= u16::MAX
    }

    /// The cell at column `col`, row `row` belongs to the rectangle.
    pub open spec fn covers(self, col: int, row: int) -> bool {
        self.x <= col < self.right() && self.y <= row < self.bottom()
    }

    /// No edge of the rectangle lies outside `outer`.
    pub open spec fn within(self, outer: Rect) -> bool {
        &&& outer.x <= self.x
        &&& outer.y <= self.y
        &&& self.right() <= outer.right()
        &&& self.bottom() <= outer.bottom()
    }

    /// The two rectangles share no cell.
    pub open spec fn disjoint(self, other: Rect) -> bool {
        forall|col: int, row: int| !(self.covers(col, row) && #[trigger] other.covers(col, row))
    }

    /// The rectangle without any cell, at the origin.
    pub fn zero() -> (rect: Rect)
        ensures
            rect == (Rect { x: 0, y: 0, width: 0, height: 0 }),
    {
        Rect { x: 0, y: 0, width: 0, height: 0 }
    }

    /// Whether both far edges are coordinates that a `u16` can hold.
    pub fn is_fitting(&self) -> (ok: bool)
        ensures
            ok == self.fits(),
    {
        self.width <= u16::MAX - self.x && self.height <= u16::MAX - self.y
    }
}

/// What is left of `rect` when a border one cell wide is taken off every side.
/// A dimension under two cells leaves none; a corner on the last coordinate stays there.
pub open spec fn interior(rect: Rect) -> Rect {
    Rect {
        x: if rect.x < u16::MAX { (rect.x + 1) as u16 } else { rect.x },
        y: if rect.y < u16::MAX { (rect.y + 1) as u16 } else { rect.y },
        width: if rect.width >= 2 { (rect.width - 2) as u16 } else { 0 },
        height: if rect.height >= 2 { (rect.height - 2) as u16 } else { 0 },
    }
}

/// The area inside the border of `rect`.
pub fn inner_rect(rect: Rect) -> (inner: Rect)
    ensures
        inner == interior(rect),
{
    Rect {
        x: rect.x.saturating_add(1),
        y: rect.y.saturating_add(1),
        width: rect.width.saturating_sub(2),
        height: rect.height.saturating_sub(2),
    }
}

/// The interior of a rectangle that fits the coordinate range fits it too, and an
/// interior that has cells lies strictly inside the border.
pub proof fn lemma_interior_inside(rect: Rect)
    requires
        rect.fits(),
    ensures
        interior(rect).fits(),
        interior(rect).width > 0 && interior(rect).height > 0 ==> {
            &&& rect.x < interior(rect).x
            &&& rect.y < interior(rect).y
            &&& interior(rect).right() < rect.right()
            &&& interior(rect).bottom() < rect.bottom()
        },
        forall|col: int, row: int| #[trigger]
            interior(rect).covers(col, row) ==> rect.covers(col, row),
{
}

} // verus!
