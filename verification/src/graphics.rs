//! Screen geometry: rectangles of terminal cells.

use vstd::prelude::*;

verus! {

/// A rectangle of terminal cells: its top-left corner and its size.
#[derive(Debug, Clone, Copy, PartialEq, Eq, Structural)]
pub struct Rect {
    pub x: u16,
    pub y: u16,
    pub width: u16,
    pub height: u16,
}

/// `a + b`, or `u16::MAX` where the sum does not fit.
pub open spec fn sat_add_u16(a: int, b: int) -> int {
    if a + b > u16::MAX { u16::MAX as int } else { a + b }
}

/// `a - b`, or zero where the difference is negative.
pub open spec fn sat_sub(a: int, b: int) -> int {
    if a > b { a - b } else { 0 }
}

impl Rect {
    /// The rectangle without its `width` leftmost columns (all of them where
    /// it has fewer).
    pub open spec fn clipped_left(self, width: int) -> Rect {
        let w = if width < self.width { width } else { self.width as int };
        Rect { x: sat_add_u16(self.x as int, w) as u16, y: self.y, width: (self.width - w) as u16, height: self.height }
    }

    /// The rectangle without its `height` bottom rows (all of them where it
    /// has fewer).
    pub open spec fn clipped_bottom(self, height: int) -> Rect {
        Rect { x: self.x, y: self.y, width: self.width, height: sat_sub(self.height as int, height) as u16 }
    }

    pub fn new(x: u16, y: u16, width: u16, height: u16) -> (r: Rect)
        ensures
            r == (Rect { x, y, width, height }),
    {
        Rect { x, y, width, height }
    }

    /// The leftmost column.
    pub fn left(&self) -> (c: u16)
        ensures
            c == self.x,
    {
        self.x
    }

    /// The column just right of the rectangle (saturating).
    pub fn right(&self) -> (c: u16)
        ensures
            c == sat_add_u16(self.x as int, self.width as int),
    {
        self.x.saturating_add(self.width)
    }

    /// The topmost row.
    pub fn top(&self) -> (r: u16)
        ensures
            r == self.y,
    {
        self.y
    }

    /// The row just below the rectangle (saturating).
    pub fn bottom(&self) -> (r: u16)
        ensures
            r == sat_add_u16(self.y as int, self.height as int),
    {
        self.y.saturating_add(self.height)
    }

    /// The rectangle without its `width` leftmost columns.
    pub fn clip_left(self, width: u16) -> (r: Rect)
        ensures
            r == self.clipped_left(width as int),
    {
        let w = if width < self.width { width } else { self.width };
        Rect { x: self.x.saturating_add(w), y: self.y, width: self.width - w, height: self.height }
    }

    /// The rectangle without its `height` bottom rows.
    pub fn clip_bottom(self, height: u16) -> (r: Rect)
        ensures
            r == self.clipped_bottom(height as int),
    {
        Rect { x: self.x, y: self.y, width: self.width, height: self.height.saturating_sub(height) }
    }
}

impl Default for Rect {
    fn default() -> (r: Rect)
        ensures
            r == (Rect { x: 0, y: 0, width: 0, height: 0 }),
    {
        Rect { x: 0, y: 0, width: 0, height: 0 }
    }
}

/// Clipping keeps a rectangle inside the one it was clipped from.
pub proof fn lemma_clip_inside(r: Rect, width: int, height: int)
    requires
        width >= 0,
        height >= 0,
    ensures
        ({
            let c = r.clipped_left(width).clipped_bottom(height);
            &&& r.x <= c.x
            &&& c.x + c.width <= r.x + r.width
            &&& c.y == r.y
            &&& c.height <= r.height
        }),
{
}

} // verus!
