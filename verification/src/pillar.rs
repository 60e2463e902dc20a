use vstd::prelude::*;
use crate::block::Block;
use crate::geometry::{BoundingBox3, Geometry, MaterialGeometry, Point2, Point3};

verus! {

/// The lowest world layer coordinate.
pub const WORLD_Z_MIN: i32 = -64;

/// The highest world layer coordinate.
pub const WORLD_Z_MAX: i32 = -64 + 64 + 512;

/// A vertical support column: a disc of the given radius around its origin,
/// spanning a vertical range.
///
/// A cell belongs to the column when its centre lies within half a cell of
/// the radius: squared distance at most `radius * (radius + 1)`.
#[derive(Clone, Copy, PartialEq, Eq, Structural, Debug)]
pub struct Pillar {
    pub min_height: i32,
    pub max_height: i32,
    pub origin: Point2,
    pub radius: i32,
}

impl Pillar {
    pub open spec fn spec_wf(&self) -> bool {
        &&& self.min_height <= self.max_height
        &&& 0 <= self.radius <= 0x1000000
        &&& -0x1000000 <= self.origin.x <= 0x1000000
        &&& -0x1000000 <= self.origin.y <= 0x1000000
    }

    /// A pillar spanning the whole world height.
    pub fn new(origin: Point2, radius: i32) -> (r: Self)
        requires
            0 <= radius <= 0x1000000,
            -0x1000000 <= origin.x <= 0x1000000,
            -0x1000000 <= origin.y <= 0x1000000,
        ensures
            r == (Pillar { min_height: WORLD_Z_MIN, max_height: WORLD_Z_MAX, origin, radius }),
            r.spec_wf(),
    {
        Pillar { min_height: WORLD_Z_MIN, max_height: WORLD_Z_MAX, origin, radius }
    }

    /// A pillar with explicit vertical bounds; a missing bound falls back
    /// to the world limit on that side.
    pub fn new_bounded(origin: Point2, radius: i32, min: Option<i32>, max: Option<i32>) -> (r: Self)
        requires
            0 <= radius <= 0x1000000,
            -0x1000000 <= origin.x <= 0x1000000,
            -0x1000000 <= origin.y <= 0x1000000,
            (match min {
                Some(v) => v,
                None => WORLD_Z_MIN,
            }) <= (match max {
                Some(v) => v,
                None => WORLD_Z_MAX,
            }),
        ensures
            r.origin == origin,
            r.radius == radius,
            r.min_height == (match min {
                Some(v) => v,
                None => WORLD_Z_MIN,
            }),
            r.max_height == (match max {
                Some(v) => v,
                None => WORLD_Z_MAX,
            }),
            r.spec_wf(),
    {
        let min_height = match min {
            Some(v) => v,
            None => WORLD_Z_MIN,
        };
        let max_height = match max {
            Some(v) => v,
            None => WORLD_Z_MAX,
        };
        Pillar { min_height, max_height, origin, radius }
    }
}

impl Geometry for Pillar {
    open spec fn inv(&self) -> bool {
        self.spec_wf()
    }

    /// The advertised box pads the radius by one cell on each side.
    open spec fn spec_box(&self) -> Option<BoundingBox3> {
        Some(
            BoundingBox3 {
                min: Point3 {
                    x: (self.origin.x - self.radius - 1) as i32,
                    y: (self.origin.y - self.radius - 1) as i32,
                    z: self.min_height,
                },
                max: Point3 {
                    x: (self.origin.x + self.radius + 1) as i32,
                    y: (self.origin.y + self.radius + 1) as i32,
                    z: self.max_height,
                },
            },
        )
    }

    open spec fn spec_member(&self, pos: Point3) -> bool {
        &&& self.min_height <= pos.z <= self.max_height
        &&& (self.origin.x - pos.x) * (self.origin.x - pos.x) + (self.origin.y - pos.y) * (
        self.origin.y - pos.y) <= self.radius * (self.radius + 1)
    }

    proof fn lemma_box_wf(&self) {
    }

    fn bounding_box(&self) -> (r: Option<BoundingBox3>) {
        Some(
            BoundingBox3 {
                min: Point3 {
                    x: self.origin.x - self.radius - 1,
                    y: self.origin.y - self.radius - 1,
                    z: self.min_height,
                },
                max: Point3 {
                    x: self.origin.x + self.radius + 1,
                    y: self.origin.y + self.radius + 1,
                    z: self.max_height,
                },
            },
        )
    }

    fn block_at(&self, pos: Point3) -> (r: bool) {
        if pos.z < self.min_height || pos.z > self.max_height {
            return false;
        }
        let dx = self.origin.x as i128 - pos.x as i128;
        let dy = self.origin.y as i128 - pos.y as i128;
        let rr = self.radius as i128;
        proof {
            assert(dx * dx >= 0 && dy * dy >= 0 && dx * dx <= 0x200000000 * 0x200000000 && dy * dy
                <= 0x200000000 * 0x200000000 && rr * (rr + 1) <= 0x200000000 * 0x200000000)
                by (nonlinear_arith)
                requires
                    -0x200000000 <= dx <= 0x200000000,
                    -0x200000000 <= dy <= 0x200000000,
                    0 <= rr <= 0x1000000,
            ;
        }
        dx * dx + dy * dy <= rr * (rr + 1)
    }
}

impl MaterialGeometry for Pillar {
    /// A contained cell is grey concrete.
    open spec fn spec_material(&self, pos: Point3) -> Option<Block> {
        if self.spec_member(pos) {
            Some(Block { base_block: "minecraft:gray_concrete", extra_block: None })
        } else {
            None
        }
    }

    fn block_material_at(&self, pos: Point3) -> (r: Option<Block>) {
        if self.block_at(pos) {
            Some(Block { base_block: "minecraft:gray_concrete", extra_block: None })
        } else {
            None
        }
    }
}

} // verus!
