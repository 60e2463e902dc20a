use vstd::prelude::*;
use crate::geometry::Point2;

verus! {

/// The Chebyshev norm of a cell: its ring radius.
pub open spec fn spec_chebyshev(p: Point2) -> int {
    vstd::math::max(vstd::math::abs(p.x as int) as int, vstd::math::abs(p.y as int) as int)
}

/// The points along the square ring of the given radius, walked corner to
/// corner: up the east side, across the north, down the west and back
/// along the south.
pub fn ring(radius: u32) -> (r: Vec<Point2>)
    requires
        radius <= 0x10000000,
    ensures
        r@.len() == (if radius == 0 {
            1int
        } else {
            8 * radius as int
        }),
        forall|i: int| 0 <= i < r@.len() ==> spec_chebyshev(#[trigger] r@[i]) == radius as int,
{
    let mut out: Vec<Point2> = Vec::new();
    if radius == 0 {
        out.push(Point2 { x: 0, y: 0 });
        return out;
    }
    let rad = radius as i32;
    let mut px: i32 = -rad;
    let mut py: i32 = -rad;
    while px < rad
        invariant
            1 <= rad <= 0x10000000,
            -rad <= px <= rad,
            py == -rad,
            out@.len() == px + rad,
            forall|i: int| 0 <= i < out@.len() ==> spec_chebyshev(#[trigger] out@[i]) == rad as int,
        decreases rad - px,
    {
        px = px + 1;
        out.push(Point2 { x: px, y: py });
    }
    while py < rad
        invariant
            1 <= rad <= 0x10000000,
            px == rad,
            -rad <= py <= rad,
            out@.len() == 2 * rad + (py + rad),
            forall|i: int| 0 <= i < out@.len() ==> spec_chebyshev(#[trigger] out@[i]) == rad as int,
        decreases rad - py,
    {
        py = py + 1;
        out.push(Point2 { x: px, y: py });
    }
    while px > -rad
        invariant
            1 <= rad <= 0x10000000,
            -rad <= px <= rad,
            py == rad,
            out@.len() == 4 * rad + (rad - px),
            forall|i: int| 0 <= i < out@.len() ==> spec_chebyshev(#[trigger] out@[i]) == rad as int,
        decreases px + rad,
    {
        px = px - 1;
        out.push(Point2 { x: px, y: py });
    }
    while py > -rad
        invariant
            1 <= rad <= 0x10000000,
            px == -rad,
            -rad <= py <= rad,
            out@.len() == 6 * rad + (rad - py),
            forall|i: int| 0 <= i < out@.len() ==> spec_chebyshev(#[trigger] out@[i]) == rad as int,
        decreases py + rad,
    {
        py = py - 1;
        out.push(Point2 { x: px, y: py });
    }
    out
}

} // verus!
