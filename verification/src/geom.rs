//! Axis-aligned rectangles in fixed-point page coordinates.

use vstd::prelude::*;

verus! {

/// Every coordinate handled by the library stays within this magnitude,
/// so that the arithmetic of unions, gaps and margins fits in `i64`.
pub const COORD_BOUND: i64 = 0x4_0000_0000_0000;

/// A value within the coordinate range the library accepts.
pub open spec fn in_coord(v: int) -> bool {
    -COORD_BOUND <= v <= COORD_BOUND
}

/// Axis-aligned box: origin (x, y) plus width/height (w, h).
#[derive(Clone, Copy, Debug, PartialEq, Eq, Structural)]
pub struct Rect {
    pub x: i64,
    pub y: i64,
    pub w: i64,
    pub h: i64,
}

/// Mathematical view of a rectangle.
#[verifier::ext_equal]
pub ghost struct RectV {
    pub x: int,
    pub y: int,
    pub w: int,
    pub h: int,
}

impl View for Rect {
    type V = RectV;

    open spec fn view(&self) -> RectV {
        RectV { x: self.x as int, y: self.y as int, w: self.w as int, h: self.h as int }
    }
}

pub open spec fn spec_min(a: int, b: int) -> int {
    if a <= b { a } else { b }
}

pub open spec fn spec_max(a: int, b: int) -> int {
    if a >= b { a } else { b }
}

impl RectV {
    /// Both corners of the box lie within the library's coordinate range.
    pub open spec fn bounded(self) -> bool {
        in_coord(self.x) && in_coord(self.y) && in_coord(self.x + self.w) && in_coord(
            self.y + self.h,
        )
    }

    /// Union: origin is the component-wise minimum of both origins, the far
    /// corner the component-wise maximum of both far corners.
    pub open spec fn union(self, o: RectV) -> RectV {
        RectV {
            x: spec_min(self.x, o.x),
            y: spec_min(self.y, o.y),
            w: spec_max(self.x + self.w, o.x + o.w) - spec_min(self.x, o.x),
            h: spec_max(self.y + self.h, o.y + o.h) - spec_min(self.y, o.y),
        }
    }

    /// `self` contains `o`: both corners of `o` lie between the
    /// corresponding corners of `self`.
    pub open spec fn contains(self, o: RectV) -> bool {
        self.x <= o.x && self.y <= o.y && o.x + o.w <= self.x + self.w && o.y + o.h <= self.y
            + self.h
    }
}

impl Rect {
    /// The smallest box covering both rectangles.
    pub fn union(self, o: Rect) -> (r: Rect)
        requires
            self@.bounded(),
            o@.bounded(),
        ensures
            r@ == self@.union(o@),
            r@.bounded(),
    {
        let x = if self.x <= o.x { self.x } else { o.x };
        let y = if self.y <= o.y { self.y } else { o.y };
        let sfx = self.x + self.w;
        let ofx = o.x + o.w;
        let sfy = self.y + self.h;
        let ofy = o.y + o.h;
        let fx = if sfx >= ofx { sfx } else { ofx };
        let fy = if sfy >= ofy { sfy } else { ofy };
        Rect { x, y, w: fx - x, h: fy - y }
    }

    /// Whether `self` contains `o`.
    pub fn contains(self, o: Rect) -> (r: bool)
        requires
            self@.bounded(),
            o@.bounded(),
        ensures
            r == self@.contains(o@),
    {
        self.x <= o.x && self.y <= o.y && o.x + o.w <= self.x + self.w && o.y + o.h <= self.y
            + self.h
    }
}

/// The union of two boxes contains each of them.
pub proof fn lemma_union_contains(a: RectV, b: RectV)
    ensures
        a.union(b).contains(a),
        a.union(b).contains(b),
{
}

/// Union is commutative.
pub proof fn lemma_union_commutative(a: RectV, b: RectV)
    ensures
        a.union(b) == b.union(a),
{
}

/// Union is associative.
pub proof fn lemma_union_associative(a: RectV, b: RectV, c: RectV)
    ensures
        a.union(b).union(c) == a.union(b.union(c)),
{
}

} // verus!
