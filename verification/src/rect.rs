//! Axis-aligned integer rectangles, used for rooms.

use vstd::prelude::*;

verus! {

/// An axis-aligned rectangle with integer corners `(x1, y1)` and `(x2, y2)`.
#[derive(Clone, Copy, Debug, PartialEq, Eq, Structural)]
pub struct Rect {
    pub x1: i32,
    pub x2: i32,
    pub y1: i32,
    pub y2: i32,
}

/// Half of `n`, rounded toward zero.
pub open spec fn half_toward_zero(n: int) -> int {
    if n >= 0 {
        n / 2
    } else {
        -((-n) / 2)
    }
}

impl Rect {
    /// The rectangle has a positive extent on both axes.
    pub open spec fn wf(self) -> bool {
        self.x1 < self.x2 && self.y1 < self.y2
    }

    /// The rectangle with origin `(x, y)`, `w` wide and `h` high.
    pub open spec fn spec_new(x: int, y: int, w: int, h: int) -> Rect {
        Rect { x1: x as i32, x2: (x + w) as i32, y1: y as i32, y2: (y + h) as i32 }
    }

    /// The closed intervals `[x1, x2]` and `[y1, y2]` of the two rectangles
    /// overlap on both axes.
    pub open spec fn spec_intersects(self, other: Rect) -> bool {
        &&& self.x1 <= other.x2
        &&& self.x2 >= other.x1
        &&& self.y1 <= other.y2
        &&& self.y2 >= other.y1
    }

    /// The midpoint, each coordinate rounded toward zero.
    pub open spec fn spec_center(self) -> (int, int) {
        (half_toward_zero(self.x1 + self.x2), half_toward_zero(self.y1 + self.y2))
    }

    /// `(x, y)` is one of the tiles a room of this shape opens up: every
    /// tile of the closed rectangle but its left column and its top row.
    pub open spec fn interior(self, x: int, y: int) -> bool {
        self.x1 < x <= self.x2 && self.y1 < y <= self.y2
    }

    pub fn new(x: i32, y: i32, w: i32, h: i32) -> (r: Rect)
        requires
            i32::MIN <= x + w <= i32::MAX,
            i32::MIN <= y + h <= i32::MAX,
        ensures
            r == Rect::spec_new(x as int, y as int, w as int, h as int),
            r.x1 == x && r.x2 == x + w && r.y1 == y && r.y2 == y + h,
            r.wf() <==> w > 0 && h > 0,
    {
        Rect { x1: x, x2: x + w, y1: y, y2: y + h }
    }

    pub fn intersects(&self, other: &Rect) -> (hit: bool)
        ensures
            hit == self.spec_intersects(*other),
    {
        self.x1 <= other.x2 && self.x2 >= other.x1 && self.y1 <= other.y2 && self.y2 >= other.y1
    }

    pub fn center(&self) -> (c: (i32, i32))
        ensures
            (c.0 as int, c.1 as int) == self.spec_center(),
    {
        let sx: i64 = self.x1 as i64 + self.x2 as i64;
        let sy: i64 = self.y1 as i64 + self.y2 as i64;
        ((sx / 2) as i32, (sy / 2) as i32)
    }

    /// Overlap does not depend on which rectangle is asked.
    pub proof fn lemma_intersects_symmetric(a: Rect, b: Rect)
        ensures
            a.spec_intersects(b) == b.spec_intersects(a),
    {
    }

    /// Two rectangles fail to overlap exactly when one lies wholly to one
    /// side of the other on some axis; a well-formed rectangle overlaps
    /// itself.
    pub proof fn lemma_disjoint_iff_separated(a: Rect, b: Rect)
        ensures
            !a.spec_intersects(b) <==> (a.x2 < b.x1 || b.x2 < a.x1 || a.y2 < b.y1 || b.y2 < a.y1),
            a.wf() ==> a.spec_intersects(a),
    {
    }

    /// The center of a well-formed rectangle lies inside it, and inside
    /// its opened-up part once the rectangle spans two tiles each way.
    pub proof fn lemma_center_inside(r: Rect)
        requires
            r.wf(),
        ensures
            r.x1 <= r.spec_center().0 <= r.x2,
            r.y1 <= r.spec_center().1 <= r.y2,
            r.x2 - r.x1 >= 2 && r.y2 - r.y1 >= 2 ==> r.interior(
                r.spec_center().0,
                r.spec_center().1,
            ),
    {
    }
}

} // verus!
