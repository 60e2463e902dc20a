use vstd::prelude::*;

verus! {

/// An integer coordinate in the horizontal plane.
#[derive(Clone, Copy, PartialEq, Eq, Structural, Debug, Hash)]
pub struct Point2 {
    pub x: i32,
    pub y: i32,
}

/// An integer coordinate in space; `z` is the vertical axis.
#[derive(Clone, Copy, PartialEq, Eq, Structural, Debug, Hash)]
pub struct Point3 {
    pub x: i32,
    pub y: i32,
    pub z: i32,
}

impl Point2 {
    pub open spec fn spec_extend(self, z: i32) -> Point3 {
        Point3 { x: self.x, y: self.y, z }
    }

    pub fn new(x: i32, y: i32) -> (r: Self)
        ensures
            r == (Point2 { x, y }),
    {
        Point2 { x, y }
    }

    /// Extends this horizontal coordinate with a vertical component.
    pub fn extend(self, z: i32) -> (r: Point3)
        ensures
            r == (Point3 { x: self.x, y: self.y, z }),
    {
        Point3 { x: self.x, y: self.y, z }
    }
}

impl Point3 {
    pub fn new(x: i32, y: i32, z: i32) -> (r: Self)
        ensures
            r == (Point3 { x, y, z }),
    {
        Point3 { x, y, z }
    }

    /// Drops the vertical component.
    pub fn truncate(self) -> (r: Point2)
        ensures
            r == (Point2 { x: self.x, y: self.y }),
    {
        Point2 { x: self.x, y: self.y }
    }
}

/// An axis-aligned rectangle formed by two corners, `min` and `max`,
/// inclusive on every axis.
#[derive(Clone, Copy, PartialEq, Eq, Structural, Debug)]
pub struct BoundingBox2 {
    pub min: Point2,
    pub max: Point2,
}

/// An axis-aligned cuboid formed by two corners, `min` and `max`, inclusive
/// on every axis.
#[derive(Clone, Copy, PartialEq, Eq, Structural, Debug)]
pub struct BoundingBox3 {
    pub min: Point3,
    pub max: Point3,
}

fn min_i32(a: i32, b: i32) -> (r: i32)
    ensures
        r as int == vstd::math::min(a as int, b as int),
{
    if a < b {
        a
    } else {
        b
    }
}

fn max_i32(a: i32, b: i32) -> (r: i32)
    ensures
        r as int == vstd::math::max(a as int, b as int),
{
    if a > b {
        a
    } else {
        b
    }
}

impl BoundingBox2 {
    /// A box is well formed when its corners are ordered on both axes.
    pub open spec fn wf(&self) -> bool {
        self.min.x <= self.max.x && self.min.y <= self.max.y
    }

    pub open spec fn spec_contains(&self, pos: Point2) -> bool {
        &&& self.min.x <= pos.x <= self.max.x
        &&& self.min.y <= pos.y <= self.max.y
    }

    /// Two well-formed boxes overlap exactly when they share a point.
    pub open spec fn spec_overlaps(&self, other: BoundingBox2) -> bool {
        &&& self.min.x <= other.max.x && other.min.x <= self.max.x
        &&& self.min.y <= other.max.y && other.min.y <= self.max.y
    }

    pub open spec fn spec_union(&self, other: BoundingBox2) -> BoundingBox2 {
        BoundingBox2 {
            min: Point2 {
                x: vstd::math::min(self.min.x as int, other.min.x as int) as i32,
                y: vstd::math::min(self.min.y as int, other.min.y as int) as i32,
            },
            max: Point2 {
                x: vstd::math::max(self.max.x as int, other.max.x as int) as i32,
                y: vstd::math::max(self.max.y as int, other.max.y as int) as i32,
            },
        }
    }

    pub open spec fn spec_intersect(&self, other: BoundingBox2) -> Option<BoundingBox2> {
        if self.spec_overlaps(other) {
            Some(
                BoundingBox2 {
                    min: Point2 {
                        x: vstd::math::max(self.min.x as int, other.min.x as int) as i32,
                        y: vstd::math::max(self.min.y as int, other.min.y as int) as i32,
                    },
                    max: Point2 {
                        x: vstd::math::min(self.max.x as int, other.max.x as int) as i32,
                        y: vstd::math::min(self.max.y as int, other.max.y as int) as i32,
                    },
                },
            )
        } else {
            None
        }
    }

    /// Builds a box from two corners, sorting them per axis.
    pub fn new(p1: Point2, p2: Point2) -> (r: Self)
        ensures
            r.wf(),
            r.min.x as int == vstd::math::min(p1.x as int, p2.x as int),
            r.min.y as int == vstd::math::min(p1.y as int, p2.y as int),
            r.max.x as int == vstd::math::max(p1.x as int, p2.x as int),
            r.max.y as int == vstd::math::max(p1.y as int, p2.y as int),
    {
        BoundingBox2 {
            min: Point2 { x: min_i32(p1.x, p2.x), y: min_i32(p1.y, p2.y) },
            max: Point2 { x: max_i32(p1.x, p2.x), y: max_i32(p1.y, p2.y) },
        }
    }

    /// The smallest box containing both inputs; always defined.
    pub fn union(self, other: Self) -> (r: Self)
        ensures
            r == self.spec_union(other),
    {
        BoundingBox2 {
            min: Point2 { x: min_i32(self.min.x, other.min.x), y: min_i32(self.min.y, other.min.y) },
            max: Point2 { x: max_i32(self.max.x, other.max.x), y: max_i32(self.max.y, other.max.y) },
        }
    }

    pub open spec fn spec_try_union(a: Option<BoundingBox2>, b: Option<BoundingBox2>) -> Option<
        BoundingBox2,
    > {
        match (a, b) {
            (Some(a), Some(b)) => Some(a.spec_union(b)),
            (Some(v), None) => Some(v),
            (None, Some(v)) => Some(v),
            (None, None) => None,
        }
    }

    /// Unions two optional boxes, treating a missing box as neutral.
    pub fn try_union(box1: Option<Self>, box2: Option<Self>) -> (r: Option<Self>)
        ensures
            r == Self::spec_try_union(box1, box2),
    {
        match (box1, box2) {
            (Some(a), Some(b)) => Some(a.union(b)),
            (Some(v), None) => Some(v),
            (None, Some(v)) => Some(v),
            (None, None) => None,
        }
    }

    /// The common part of two boxes, or `None` when they do not overlap.
    pub fn intersect(self, other: Self) -> (r: Option<Self>)
        requires
            self.wf(),
            other.wf(),
        ensures
            r == self.spec_intersect(other),
    {
        if self.intersects_with(other) {
            Some(
                BoundingBox2 {
                    min: Point2 {
                        x: max_i32(self.min.x, other.min.x),
                        y: max_i32(self.min.y, other.min.y),
                    },
                    max: Point2 {
                        x: min_i32(self.max.x, other.max.x),
                        y: min_i32(self.max.y, other.max.y),
                    },
                },
            )
        } else {
            None
        }
    }

    /// Inclusive range test per axis.
    pub fn contains(self, pos: Point2) -> (r: bool)
        ensures
            r == self.spec_contains(pos),
    {
        pos.x >= self.min.x && pos.x <= self.max.x && pos.y >= self.min.y && pos.y <= self.max.y
    }

    /// Per axis, the ranges overlap when either box's low corner lies inside
    /// the other's range; neither interval is assumed to be the smaller one.
    pub fn intersects_with(self, other: Self) -> (r: bool)
        requires
            self.wf(),
            other.wf(),
        ensures
            r == self.spec_overlaps(other),
    {
        let x_overlap = (other.min.x >= self.min.x && other.min.x <= self.max.x) || (self.min.x
            >= other.min.x && self.min.x <= other.max.x);
        let y_overlap = (other.min.y >= self.min.y && other.min.y <= self.max.y) || (self.min.y
            >= other.min.y && self.min.y <= other.max.y);
        x_overlap && y_overlap
    }

    /// Extends this rectangle into a cuboid spanning the given vertical
    /// range; the two bounds are sorted first.
    pub fn extend(self, min: i32, max: i32) -> (r: BoundingBox3)
        ensures
            r.min == self.min.spec_extend(vstd::math::min(min as int, max as int) as i32),
            r.max == self.max.spec_extend(vstd::math::max(min as int, max as int) as i32),
    {
        let lo = min_i32(min, max);
        let hi = max_i32(min, max);
        BoundingBox3 {
            min: Point3 { x: self.min.x, y: self.min.y, z: lo },
            max: Point3 { x: self.max.x, y: self.max.y, z: hi },
        }
    }
}

impl BoundingBox3 {
    /// A box is well formed when its corners are ordered on all axes.
    pub open spec fn wf(&self) -> bool {
        self.min.x <= self.max.x && self.min.y <= self.max.y && self.min.z <= self.max.z
    }

    pub open spec fn spec_contains(&self, pos: Point3) -> bool {
        &&& self.min.x <= pos.x <= self.max.x
        &&& self.min.y <= pos.y <= self.max.y
        &&& self.min.z <= pos.z <= self.max.z
    }

    /// Two well-formed boxes overlap exactly when they share a point.
    pub open spec fn spec_overlaps(&self, other: BoundingBox3) -> bool {
        &&& self.min.x <= other.max.x && other.min.x <= self.max.x
        &&& self.min.y <= other.max.y && other.min.y <= self.max.y
        &&& self.min.z <= other.max.z && other.min.z <= self.max.z
    }

    pub open spec fn spec_union(&self, other: BoundingBox3) -> BoundingBox3 {
        BoundingBox3 {
            min: Point3 {
                x: vstd::math::min(self.min.x as int, other.min.x as int) as i32,
                y: vstd::math::min(self.min.y as int, other.min.y as int) as i32,
                z: vstd::math::min(self.min.z as int, other.min.z as int) as i32,
            },
            max: Point3 {
                x: vstd::math::max(self.max.x as int, other.max.x as int) as i32,
                y: vstd::math::max(self.max.y as int, other.max.y as int) as i32,
                z: vstd::math::max(self.max.z as int, other.max.z as int) as i32,
            },
        }
    }

    pub open spec fn spec_intersect(&self, other: BoundingBox3) -> Option<BoundingBox3> {
        if self.spec_overlaps(other) {
            Some(
                BoundingBox3 {
                    min: Point3 {
                        x: vstd::math::max(self.min.x as int, other.min.x as int) as i32,
                        y: vstd::math::max(self.min.y as int, other.min.y as int) as i32,
                        z: vstd::math::max(self.min.z as int, other.min.z as int) as i32,
                    },
                    max: Point3 {
                        x: vstd::math::min(self.max.x as int, other.max.x as int) as i32,
                        y: vstd::math::min(self.max.y as int, other.max.y as int) as i32,
                        z: vstd::math::min(self.max.z as int, other.max.z as int) as i32,
                    },
                },
            )
        } else {
            None
        }
    }

    /// Builds a box from two corners, sorting them per axis.
    pub fn new(p1: Point3, p2: Point3) -> (r: Self)
        ensures
            r.wf(),
            r.min.x as int == vstd::math::min(p1.x as int, p2.x as int),
            r.min.y as int == vstd::math::min(p1.y as int, p2.y as int),
            r.min.z as int == vstd::math::min(p1.z as int, p2.z as int),
            r.max.x as int == vstd::math::max(p1.x as int, p2.x as int),
            r.max.y as int == vstd::math::max(p1.y as int, p2.y as int),
            r.max.z as int == vstd::math::max(p1.z as int, p2.z as int),
    {
        BoundingBox3 {
            min: Point3 {
                x: min_i32(p1.x, p2.x),
                y: min_i32(p1.y, p2.y),
                z: min_i32(p1.z, p2.z),
            },
            max: Point3 {
                x: max_i32(p1.x, p2.x),
                y: max_i32(p1.y, p2.y),
                z: max_i32(p1.z, p2.z),
            },
        }
    }

    /// The smallest box containing both inputs; always defined.
    pub fn union(self, other: Self) -> (r: Self)
        ensures
            r == self.spec_union(other),
    {
        BoundingBox3 {
            min: Point3 {
                x: min_i32(self.min.x, other.min.x),
                y: min_i32(self.min.y, other.min.y),
                z: min_i32(self.min.z, other.min.z),
            },
            max: Point3 {
                x: max_i32(self.max.x, other.max.x),
                y: max_i32(self.max.y, other.max.y),
                z: max_i32(self.max.z, other.max.z),
            },
        }
    }

    pub open spec fn spec_try_union(a: Option<BoundingBox3>, b: Option<BoundingBox3>) -> Option<
        BoundingBox3,
    > {
        match (a, b) {
            (Some(a), Some(b)) => Some(a.spec_union(b)),
            (Some(v), None) => Some(v),
            (None, Some(v)) => Some(v),
            (None, None) => None,
        }
    }

    /// Unions two optional boxes, treating a missing box as neutral.
    pub fn try_union(box1: Option<Self>, box2: Option<Self>) -> (r: Option<Self>)
        ensures
            r == Self::spec_try_union(box1, box2),
    {
        match (box1, box2) {
            (Some(a), Some(b)) => Some(a.union(b)),
            (Some(v), None) => Some(v),
            (None, Some(v)) => Some(v),
            (None, None) => None,
        }
    }

    /// The common part of two boxes, or `None` when they do not overlap.
    pub fn intersect(self, other: Self) -> (r: Option<Self>)
        requires
            self.wf(),
            other.wf(),
        ensures
            r == self.spec_intersect(other),
    {
        if self.intersects_with(other) {
            Some(
                BoundingBox3 {
                    min: Point3 {
                        x: max_i32(self.min.x, other.min.x),
                        y: max_i32(self.min.y, other.min.y),
                        z: max_i32(self.min.z, other.min.z),
                    },
                    max: Point3 {
                        x: min_i32(self.max.x, other.max.x),
                        y: min_i32(self.max.y, other.max.y),
                        z: min_i32(self.max.z, other.max.z),
                    },
                },
            )
        } else {
            None
        }
    }

    /// Crops this box horizontally by a rectangle, keeping its own vertical
    /// range; `None` when the horizontal parts do not overlap.
    pub fn crop(self, bounding_box: BoundingBox2) -> (r: Option<Self>)
        requires
            self.wf(),
            bounding_box.wf(),
        ensures
            r == (match self.spec_truncate().spec_intersect(bounding_box) {
                Some(flat) => Some(
                    BoundingBox3 {
                        min: flat.min.spec_extend(self.min.z),
                        max: flat.max.spec_extend(self.max.z),
                    },
                ),
                None => None,
            }),
    {
        match self.truncate().intersect(bounding_box) {
            Some(flat) => Some(flat.extend(self.min.z, self.max.z)),
            None => None,
        }
    }

    /// Inclusive range test per axis.
    pub fn contains(self, pos: Point3) -> (r: bool)
        ensures
            r == self.spec_contains(pos),
    {
        pos.x >= self.min.x && pos.x <= self.max.x && pos.y >= self.min.y && pos.y <= self.max.y
            && pos.z >= self.min.z && pos.z <= self.max.z
    }

    /// Per axis, the ranges overlap when either box's low corner lies inside
    /// the other's range; neither interval is assumed to be the smaller one.
    pub fn intersects_with(self, other: Self) -> (r: bool)
        requires
            self.wf(),
            other.wf(),
        ensures
            r == self.spec_overlaps(other),
    {
        let x_overlap = (other.min.x >= self.min.x && other.min.x <= self.max.x) || (self.min.x
            >= other.min.x && self.min.x <= other.max.x);
        let y_overlap = (other.min.y >= self.min.y && other.min.y <= self.max.y) || (self.min.y
            >= other.min.y && self.min.y <= other.max.y);
        let z_overlap = (other.min.z >= self.min.z && other.min.z <= self.max.z) || (self.min.z
            >= other.min.z && self.min.z <= other.max.z);
        x_overlap && y_overlap && z_overlap
    }

    pub open spec fn spec_truncate(&self) -> BoundingBox2 {
        BoundingBox2 {
            min: Point2 { x: self.min.x, y: self.min.y },
            max: Point2 { x: self.max.x, y: self.max.y },
        }
    }

    /// Drops the vertical axis.
    pub fn truncate(self) -> (r: BoundingBox2)
        ensures
            r == self.spec_truncate(),
    {
        BoundingBox2 { min: self.min.truncate(), max: self.max.truncate() }
    }

    /// The sixteen-by-sixteen horizontal tile with the given tile coordinate.
    pub open spec fn spec_chunk_box(chunk: Point2) -> (int, int, int, int) {
        (16 * chunk.x, 16 * chunk.x + 15, 16 * chunk.y, 16 * chunk.y + 15)
    }

    /// Whether this box touches the given sixteen-wide horizontal tile.
    pub fn in_chunk(self, chunk: Point2) -> (r: bool)
        requires
            self.wf(),
        ensures
            r == {
                let (cx0, cx1, cy0, cy1) = Self::spec_chunk_box(chunk);
                self.min.x <= cx1 && cx0 <= self.max.x && self.min.y <= cy1 && cy0 <= self.max.y
            },
    {
        let cx0 = chunk.x as i64 * 16;
        let cx1 = chunk.x as i64 * 16 + 15;
        let cy0 = chunk.y as i64 * 16;
        let cy1 = chunk.y as i64 * 16 + 15;
        (self.min.x as i64) <= cx1 && cx0 <= (self.max.x as i64) && (self.min.y as i64) <= cy1
            && cy0 <= (self.max.y as i64)
    }
}

/// Bounding-box union is commutative.
pub proof fn lemma_union2_commutative(a: BoundingBox2, b: BoundingBox2)
    ensures
        a.spec_union(b) == b.spec_union(a),
{
}

/// Bounding-box union is associative.
pub proof fn lemma_union2_associative(a: BoundingBox2, b: BoundingBox2, c: BoundingBox2)
    ensures
        a.spec_union(b).spec_union(c) == a.spec_union(b.spec_union(c)),
{
}

/// Bounding-box intersection is commutative.
pub proof fn lemma_intersect2_commutative(a: BoundingBox2, b: BoundingBox2)
    ensures
        a.spec_intersect(b) == b.spec_intersect(a),
{
}

/// Bounding-box intersection is associative, with an empty result cutting the
/// chain short on either side.
pub proof fn lemma_intersect2_associative(a: BoundingBox2, b: BoundingBox2, c: BoundingBox2)
    requires
        a.wf(),
        b.wf(),
        c.wf(),
    ensures
        (match a.spec_intersect(b) {
            Some(ab) => ab.spec_intersect(c),
            None => None,
        }) == (match b.spec_intersect(c) {
            Some(bc) => a.spec_intersect(bc),
            None => None,
        }),
{
}

/// Intersecting a well-formed box with itself returns the box.
pub proof fn lemma_intersect2_self(a: BoundingBox2)
    requires
        a.wf(),
    ensures
        a.spec_intersect(a) == Some(a),
{
}

/// The overlap test is symmetric.
pub proof fn lemma_overlaps2_symmetric(a: BoundingBox2, b: BoundingBox2)
    ensures
        a.spec_overlaps(b) == b.spec_overlaps(a),
{
}

/// Bounding-box union is commutative.
pub proof fn lemma_union3_commutative(a: BoundingBox3, b: BoundingBox3)
    ensures
        a.spec_union(b) == b.spec_union(a),
{
}

/// Bounding-box union is associative.
pub proof fn lemma_union3_associative(a: BoundingBox3, b: BoundingBox3, c: BoundingBox3)
    ensures
        a.spec_union(b).spec_union(c) == a.spec_union(b.spec_union(c)),
{
}

/// Bounding-box intersection is commutative.
pub proof fn lemma_intersect3_commutative(a: BoundingBox3, b: BoundingBox3)
    ensures
        a.spec_intersect(b) == b.spec_intersect(a),
{
}

/// Bounding-box intersection is associative, with an empty result cutting the
/// chain short on either side.
pub proof fn lemma_intersect3_associative(a: BoundingBox3, b: BoundingBox3, c: BoundingBox3)
    requires
        a.wf(),
        b.wf(),
        c.wf(),
    ensures
        (match a.spec_intersect(b) {
            Some(ab) => ab.spec_intersect(c),
            None => None,
        }) == (match b.spec_intersect(c) {
            Some(bc) => a.spec_intersect(bc),
            None => None,
        }),
{
}

/// Intersecting a well-formed box with itself returns the box.
pub proof fn lemma_intersect3_self(a: BoundingBox3)
    requires
        a.wf(),
    ensures
        a.spec_intersect(a) == Some(a),
{
}

/// The overlap test is symmetric.
pub proof fn lemma_overlaps3_symmetric(a: BoundingBox3, b: BoundingBox3)
    ensures
        a.spec_overlaps(b) == b.spec_overlaps(a),
{
}

/// A spatial predicate: a value that advertises an optional bounding box and
/// answers boolean membership per point.
///
/// A `None` bounding box means the value puts no box constraint on an
/// infinite (or empty) domain, as with half-space geometries; membership may
/// hold outside the advertised box only for combinators that document it.
pub trait Geometry {
    /// The implementing type's own validity condition.
    spec fn inv(&self) -> bool;

    /// The advertised bounding box, as a mathematical value.
    spec fn spec_box(&self) -> Option<BoundingBox3>;

    /// Membership, as a mathematical predicate.
    spec fn spec_member(&self, pos: Point3) -> bool;

    /// An advertised box is always well formed.
    proof fn lemma_box_wf(&self)
        requires
            self.inv(),
        ensures
            match self.spec_box() {
                Some(b) => b.wf(),
                None => true,
            },
    ;

    fn bounding_box(&self) -> (r: Option<BoundingBox3>)
        requires
            self.inv(),
        ensures
            r == self.spec_box(),
    ;

    fn block_at(&self, pos: Point3) -> (r: bool)
        requires
            self.inv(),
        ensures
            r == self.spec_member(pos),
    ;
}

/// A [`Geometry`] that also yields a block value per contained point.
pub trait MaterialGeometry: Geometry {
    /// The material yielded at a point, as a mathematical value.
    spec fn spec_material(&self, pos: Point3) -> Option<crate::block::Block>;

    fn block_material_at(&self, pos: Point3) -> (r: Option<crate::block::Block>)
        requires
            self.inv(),
        ensures
            r == self.spec_material(pos),
    ;
}

impl Geometry for BoundingBox3 {
    open spec fn inv(&self) -> bool {
        self.wf()
    }

    open spec fn spec_box(&self) -> Option<BoundingBox3> {
        Some(*self)
    }

    open spec fn spec_member(&self, pos: Point3) -> bool {
        self.spec_contains(pos)
    }

    proof fn lemma_box_wf(&self) {
    }

    fn bounding_box(&self) -> (r: Option<BoundingBox3>) {
        Some(*self)
    }

    fn block_at(&self, pos: Point3) -> (r: bool) {
        self.contains(pos)
    }
}

/// A rectangle used as a geometry constrains only the horizontal plane: it
/// advertises no box (its vertical extent is unbounded) and contains every
/// point whose horizontal part it contains.
impl Geometry for BoundingBox2 {
    open spec fn inv(&self) -> bool {
        self.wf()
    }

    open spec fn spec_box(&self) -> Option<BoundingBox3> {
        None
    }

    open spec fn spec_member(&self, pos: Point3) -> bool {
        self.spec_contains(Point2 { x: pos.x, y: pos.y })
    }

    proof fn lemma_box_wf(&self) {
    }

    fn bounding_box(&self) -> (r: Option<BoundingBox3>) {
        None
    }

    fn block_at(&self, pos: Point3) -> (r: bool) {
        self.contains(pos.truncate())
    }
}

} // verus!
