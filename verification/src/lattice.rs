use vstd::prelude::*;
use crate::geometry::Point2;

verus! {

/// Four-connectivity: `b` is one of the axis-aligned neighbours of `a`.
pub open spec fn adj4(a: (int, int), b: (int, int)) -> bool {
    ||| (b.0 == a.0 + 1 && b.1 == a.1)
    ||| (b.0 == a.0 && b.1 == a.1 + 1)
    ||| (b.0 == a.0 - 1 && b.1 == a.1)
    ||| (b.0 == a.0 && b.1 == a.1 - 1)
}

/// Eight-connectivity: `b` is a neighbour of `a`, diagonals included.
pub open spec fn adj8(a: (int, int), b: (int, int)) -> bool {
    &&& !(b.0 == a.0 && b.1 == a.1)
    &&& a.0 - 1 <= b.0 <= a.0 + 1
    &&& a.1 - 1 <= b.1 <= a.1 + 1
}

/// The four axis-aligned neighbours of a cell, in the fixed order east,
/// north, west, south.
pub fn cardinal4(center: Point2) -> (r: [Point2; 4])
    requires
        -0x40000000 <= center.x <= 0x40000000,
        -0x40000000 <= center.y <= 0x40000000,
    ensures
        r[0] == (Point2 { x: (center.x + 1) as i32, y: center.y }),
        r[1] == (Point2 { x: center.x, y: (center.y + 1) as i32 }),
        r[2] == (Point2 { x: (center.x - 1) as i32, y: center.y }),
        r[3] == (Point2 { x: center.x, y: (center.y - 1) as i32 }),
        forall|i: int| 0 <= i < 4 ==> adj4((center.x as int, center.y as int), (#[trigger] r[i].x as int, r[i].y as int)),
{
    [
        Point2 { x: center.x + 1, y: center.y },
        Point2 { x: center.x, y: center.y + 1 },
        Point2 { x: center.x - 1, y: center.y },
        Point2 { x: center.x, y: center.y - 1 },
    ]
}

/// The eight neighbours of a cell, in the fixed order east, north-east,
/// north, north-west, west, south-west, south, south-east.
pub fn cardinal8(center: Point2) -> (r: [Point2; 8])
    requires
        -0x40000000 <= center.x <= 0x40000000,
        -0x40000000 <= center.y <= 0x40000000,
    ensures
        r[0] == (Point2 { x: (center.x + 1) as i32, y: center.y }),
        r[1] == (Point2 { x: (center.x + 1) as i32, y: (center.y + 1) as i32 }),
        r[2] == (Point2 { x: center.x, y: (center.y + 1) as i32 }),
        r[3] == (Point2 { x: (center.x - 1) as i32, y: (center.y + 1) as i32 }),
        r[4] == (Point2 { x: (center.x - 1) as i32, y: center.y }),
        r[5] == (Point2 { x: (center.x - 1) as i32, y: (center.y - 1) as i32 }),
        r[6] == (Point2 { x: center.x, y: (center.y - 1) as i32 }),
        r[7] == (Point2 { x: (center.x + 1) as i32, y: (center.y - 1) as i32 }),
        forall|i: int| 0 <= i < 8 ==> adj8((center.x as int, center.y as int), (#[trigger] r[i].x as int, r[i].y as int)),
{
    [
        Point2 { x: center.x + 1, y: center.y },
        Point2 { x: center.x + 1, y: center.y + 1 },
        Point2 { x: center.x, y: center.y + 1 },
        Point2 { x: center.x - 1, y: center.y + 1 },
        Point2 { x: center.x - 1, y: center.y },
        Point2 { x: center.x - 1, y: center.y - 1 },
        Point2 { x: center.x, y: center.y - 1 },
        Point2 { x: center.x + 1, y: center.y - 1 },
    ]
}

/// The set of integer cells in the half-open rectangle
/// `[x0, x1) x [y0, y1)`.
pub open spec fn box_set(x0: int, x1: int, y0: int, y1: int) -> Set<(int, int)> {
    Set::new(|p: (int, int)| x0 <= p.0 < x1 && y0 <= p.1 < y1)
}

/// One row of such a rectangle.
spec fn row_set(x0: int, x1: int, y: int) -> Set<(int, int)> {
    Set::new(|p: (int, int)| x0 <= p.0 < x1 && p.1 == y)
}

proof fn lemma_row_set_card(x0: int, x1: int, y: int)
    requires
        x0 <= x1,
    ensures
        row_set(x0, x1, y).finite(),
        row_set(x0, x1, y).len() == x1 - x0,
    decreases x1 - x0,
{
    if x0 == x1 {
        assert(row_set(x0, x1, y) =~= Set::<(int, int)>::empty());
    } else {
        lemma_row_set_card(x0, x1 - 1, y);
        assert(row_set(x0, x1, y) =~= row_set(x0, x1 - 1, y).insert((x1 - 1, y)));
        assert(!row_set(x0, x1 - 1, y).contains((x1 - 1, y)));
    }
}

/// A bounded rectangle of cells is finite, with cardinality width times
/// height.
pub proof fn lemma_box_set_card(x0: int, x1: int, y0: int, y1: int)
    requires
        x0 <= x1,
        y0 <= y1,
    ensures
        box_set(x0, x1, y0, y1).finite(),
        box_set(x0, x1, y0, y1).len() == (x1 - x0) * (y1 - y0),
    decreases y1 - y0,
{
    if y0 == y1 {
        assert(box_set(x0, x1, y0, y1) =~= Set::<(int, int)>::empty());
    } else {
        lemma_box_set_card(x0, x1, y0, y1 - 1);
        lemma_row_set_card(x0, x1, y1 - 1);
        let below = box_set(x0, x1, y0, y1 - 1);
        let row = row_set(x0, x1, y1 - 1);
        assert(box_set(x0, x1, y0, y1) =~= below.union(row));
        assert(below.disjoint(row));
        vstd::set_lib::lemma_set_disjoint_lens::<(int, int)>(below, row);
        assert(below.union(row) == below + row);
        assert(below.union(row).len() == below.len() + row.len());
        assert((x1 - x0) * (y1 - y0) == (x1 - x0) * ((y1 - 1) - y0) + (x1 - x0)) by (nonlinear_arith);
    }
}

} // verus!
