//! Rectangles.
use vstd::prelude::*;

verus! {

/// A rectangle: its top-left corner and its size.
#[derive(Debug, Clone, Copy, PartialEq, Eq, Structural)]
pub struct Rect {
    pub x: i32,
    pub y: i32,
    pub width: i32,
    pub height: i32,
}

impl Rect {
    /// The right edge.
    pub open spec fn right(self) -> int {
        self.x + self.width
    }

    /// The bottom edge.
    pub open spec fn bottom(self) -> int {
        self.y + self.height
    }

    /// Every edge of `inner` lies within this rectangle.
    pub open spec fn encloses(self, inner: Rect) -> bool {
        self.x <= inner.x && self.y <= inner.y && inner.right() <= self.right() && inner.bottom() <= self.bottom()
    }
}

/// A rectangle by its edges.
#[derive(Debug, Clone, Copy, PartialEq, Eq, Structural)]
pub struct Edges {
    pub left: i32,
    pub top: i32,
    pub right: i32,
    pub bottom: i32,
}

impl Edges {
    /// Its width and its height fit.
    pub open spec fn fits(self) -> bool {
        in_i32(self.right - self.left) && in_i32(self.bottom - self.top)
    }
}

/// A rectangle by its edges as a corner and a size: `[x, y, width, height]`.
pub open spec fn sided(e: Edges) -> Seq<i32> {
    seq![e.left, e.top, (e.right - e.left) as i32, (e.bottom - e.top) as i32]
}

/// A rectangle by its edges as a corner and a size: `[x, y, width, height]`.
pub fn sides(e: Edges) -> (r: [i32; 4])
    requires
        e.fits(),
    ensures
        r@ == sided(e),
{
    let r: [i32; 4] = [e.left, e.top, e.right - e.left, e.bottom - e.top];
    proof {
        assert(r@ =~= sided(e));
    }
    r
}

/// A coordinate that an `i32` holds.
pub open spec fn in_i32(v: int) -> bool {
    i32::MIN <= v <= i32::MAX
}

/// The larger of two numbers.
pub open spec fn larger(a: int, b: int) -> int {
    if a < b { b } else { a }
}

/// The smaller of two numbers.
pub open spec fn smaller(a: int, b: int) -> int {
    if a < b { a } else { b }
}

/// A corner and a size lead back to the edges, and what they enclose lies between those.
pub proof fn a_corner_and_a_size_lead_back_to_the_edges(e: Edges)
    requires
        -0x8000_0000 <= e.right - e.left <= 0x7fff_ffff,
        -0x8000_0000 <= e.bottom - e.top <= 0x7fff_ffff,
    ensures
        e.fits(),
        sided(e).len() == 4,
        sided(e)[0] == e.left,
        sided(e)[1] == e.top,
        sided(e)[0] + sided(e)[2] == e.right,
        sided(e)[1] + sided(e)[3] == e.bottom,
{
}

/// One rectangle encloses another where every point of that lies in it.
pub proof fn enclosing_is_about_every_point(outer: Rect, inner: Rect, x: int, y: int)
    ensures
        outer.encloses(inner) && inner.x <= x < inner.x + inner.width && inner.y <= y < inner.y + inner.height ==> outer.x <= x < outer.x + outer.width
            && outer.y <= y < outer.y + outer.height,
        outer.encloses(outer),
        outer.encloses(inner) && inner.encloses(outer) ==> outer == inner,
{
}

/// Of two numbers the larger and the smaller are the two, in order.
pub proof fn larger_and_smaller_are_the_two(a: int, b: int)
    ensures
        smaller(a, b) <= a <= larger(a, b),
        smaller(a, b) <= b <= larger(a, b),
        smaller(a, b) + larger(a, b) == a + b,
        larger(a, b) == a || larger(a, b) == b,
{
}

} // verus!
