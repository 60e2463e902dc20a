use vstd::prelude::*;
use crate::block::Block;
use crate::geometry::{BoundingBox3, Geometry, MaterialGeometry, Point2, Point3};

verus! {

/// Clips only the *advertised* bounding box of a geometry to a horizontal
/// rectangle.
///
/// Membership and material queries are deliberately not re-checked against
/// the rectangle: callers that iterate by `bounding_box()` get correct
/// cropping, while direct point queries outside the rectangle still defer to
/// the inner geometry.  This asymmetry bounds an otherwise-infinite
/// generator to the area actually worth generating.
pub struct LimitBounds<G> {
    pub geometry: G,
    pub bounds_min: Point2,
    pub bounds_max: Point2,
}

impl<G> LimitBounds<G> {
    pub fn new(geometry: G, min: Point2, max: Point2) -> (r: Self)
        ensures
            r.geometry == geometry,
            r.bounds_min == min,
            r.bounds_max == max,
    {
        LimitBounds { geometry, bounds_min: min, bounds_max: max }
    }
}

impl<G: Geometry> Geometry for LimitBounds<G> {
    open spec fn inv(&self) -> bool {
        self.geometry.inv()
    }

    /// The inner box with its horizontal edges clamped to the rectangle;
    /// missing when the clamp leaves nothing.
    open spec fn spec_box(&self) -> Option<BoundingBox3> {
        match self.geometry.spec_box() {
            Some(b) => {
                let clipped = BoundingBox3 {
                    min: Point3 {
                        x: vstd::math::max(b.min.x as int, self.bounds_min.x as int) as i32,
                        y: vstd::math::max(b.min.y as int, self.bounds_min.y as int) as i32,
                        z: b.min.z,
                    },
                    max: Point3 {
                        x: vstd::math::min(b.max.x as int, self.bounds_max.x as int) as i32,
                        y: vstd::math::min(b.max.y as int, self.bounds_max.y as int) as i32,
                        z: b.max.z,
                    },
                };
                if clipped.wf() {
                    Some(clipped)
                } else {
                    None
                }
            },
            None => None,
        }
    }

    /// Membership is the inner geometry's, untouched by the rectangle.
    open spec fn spec_member(&self, pos: Point3) -> bool {
        self.geometry.spec_member(pos)
    }

    proof fn lemma_box_wf(&self) {
        self.geometry.lemma_box_wf();
    }

    fn bounding_box(&self) -> (r: Option<BoundingBox3>) {
        proof {
            self.geometry.lemma_box_wf();
        }
        match self.geometry.bounding_box() {
            Some(b) => {
                let min_x = if b.min.x > self.bounds_min.x {
                    b.min.x
                } else {
                    self.bounds_min.x
                };
                let min_y = if b.min.y > self.bounds_min.y {
                    b.min.y
                } else {
                    self.bounds_min.y
                };
                let max_x = if b.max.x < self.bounds_max.x {
                    b.max.x
                } else {
                    self.bounds_max.x
                };
                let max_y = if b.max.y < self.bounds_max.y {
                    b.max.y
                } else {
                    self.bounds_max.y
                };
                if min_x <= max_x && min_y <= max_y {
                    Some(
                        BoundingBox3 {
                            min: Point3 { x: min_x, y: min_y, z: b.min.z },
                            max: Point3 { x: max_x, y: max_y, z: b.max.z },
                        },
                    )
                } else {
                    None
                }
            },
            None => None,
        }
    }

    fn block_at(&self, pos: Point3) -> (r: bool) {
        self.geometry.block_at(pos)
    }
}

impl<G: MaterialGeometry> MaterialGeometry for LimitBounds<G> {
    /// Material queries are the inner geometry's, untouched by the rectangle.
    open spec fn spec_material(&self, pos: Point3) -> Option<Block> {
        self.geometry.spec_material(pos)
    }

    fn block_material_at(&self, pos: Point3) -> (r: Option<Block>) {
        self.geometry.block_material_at(pos)
    }
}

} // verus!
