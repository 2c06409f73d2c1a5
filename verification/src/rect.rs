use vstd::prelude::*;
use vstd::arithmetic::div_mod::lemma_fundamental_div_mod;

verus! {

/// A room's bounding box. The stored bounds include the 1-tile wall margin;
/// the carved floor interior is `x1+1..=x2`, `y1+1..=y2`.
#[derive(Clone, Copy, PartialEq, Eq, Structural, Debug)]
pub struct Rect {
    pub x1: i32,
    pub y1: i32,
    pub x2: i32,
    pub y2: i32,
}

impl Rect {
    /// Margin-inclusive bounding-box overlap on both axes.
    pub open spec fn overlaps(self, other: Rect) -> bool {
        self.x1 <= other.x2 && self.x2 >= other.x1 && self.y1 <= other.y2 && self.y2 >= other.y1
    }

    /// The midpoint of the bounding box, rounded down on each axis.
    pub open spec fn center_spec(self) -> (int, int) {
        ((self.x1 + self.x2) / 2, (self.y1 + self.y2) / 2)
    }

    pub fn new(x: i32, y: i32, w: i32, h: i32) -> (r: Rect)
        requires
            0 <= x,
            0 <= y,
            0 <= w,
            0 <= h,
            x + w <= i32::MAX,
            y + h <= i32::MAX,
        ensures
            r.x1 == x,
            r.y1 == y,
            r.x2 == x + w,
            r.y2 == y + h,
    {
        Rect { x1: x, y1: y, x2: x + w, y2: y + h }
    }

    pub fn intersect(&self, other: &Rect) -> (r: bool)
        ensures
            r == self.overlaps(*other),
    {
        self.x1 <= other.x2 && self.x2 >= other.x1 && self.y1 <= other.y2 && self.y2 >= other.y1
    }

    pub fn center(&self) -> (c: (i32, i32))
        requires
            0 <= self.x1 <= self.x2,
            0 <= self.y1 <= self.y2,
            self.x1 + self.x2 <= i32::MAX,
            self.y1 + self.y2 <= i32::MAX,
        ensures
            c.0 == self.center_spec().0,
            c.1 == self.center_spec().1,
    {
        ((self.x1 + self.x2) / 2, (self.y1 + self.y2) / 2)
    }

    /// A bounding box with room for a 2-tile-wide interior lies strictly
    /// around its own center: the center is an interior coordinate.
    pub proof fn lemma_center_in_interior(self)
        requires
            0 <= self.x1,
            self.x1 + 2 <= self.x2,
            0 <= self.y1,
            self.y1 + 2 <= self.y2,
        ensures
            self.x1 < self.center_spec().0 <= self.x2,
            self.y1 < self.center_spec().1 <= self.y2,
    {
        lemma_fundamental_div_mod(self.x1 + self.x2, 2);
        lemma_fundamental_div_mod(self.y1 + self.y2, 2);
    }
}

} // verus!
