use vstd::prelude::*;
use crate::geometry::{BoundingBox3, Geometry, Point2, Point3};
use crate::landmass_shape::BuildingShape;

verus! {

/// A building: a hollow rectangular shell of lattice walls sitting on a
/// layer, spanning from its level up to its roof.
#[derive(Clone, Copy, PartialEq, Eq, Structural, Debug)]
pub struct Building {
    pub edge_min: Point2,
    pub edge_max: Point2,
    pub level: i32,
    pub height: u32,
}

impl Building {
    pub open spec fn spec_wf(&self) -> bool {
        &&& -0x2000000 <= self.edge_min.x <= self.edge_max.x <= 0x2000000
        &&& -0x2000000 <= self.edge_min.y <= self.edge_max.y <= 0x2000000
        &&& -0x2000000 <= self.level <= 0x2000000
        &&& self.height <= 0x2000000
    }

    /// The roof level.
    pub open spec fn spec_top(&self) -> int {
        self.level + self.height
    }

    pub fn new(edge1: Point2, edge2: Point2, level: i32, height: u32) -> (r: Self)
        requires
            -0x2000000 <= edge1.x <= 0x2000000,
            -0x2000000 <= edge1.y <= 0x2000000,
            -0x2000000 <= edge2.x <= 0x2000000,
            -0x2000000 <= edge2.y <= 0x2000000,
            -0x2000000 <= level <= 0x2000000,
            height <= 0x2000000,
        ensures
            r.spec_wf(),
            r.edge_min.x as int == vstd::math::min(edge1.x as int, edge2.x as int),
            r.edge_min.y as int == vstd::math::min(edge1.y as int, edge2.y as int),
            r.edge_max.x as int == vstd::math::max(edge1.x as int, edge2.x as int),
            r.edge_max.y as int == vstd::math::max(edge1.y as int, edge2.y as int),
            r.level == level,
            r.height == height,
    {
        let min_x = if edge1.x < edge2.x {
            edge1.x
        } else {
            edge2.x
        };
        let min_y = if edge1.y < edge2.y {
            edge1.y
        } else {
            edge2.y
        };
        let max_x = if edge1.x > edge2.x {
            edge1.x
        } else {
            edge2.x
        };
        let max_y = if edge1.y > edge2.y {
            edge1.y
        } else {
            edge2.y
        };
        Building {
            edge_min: Point2 { x: min_x, y: min_y },
            edge_max: Point2 { x: max_x, y: max_y },
            level,
            height,
        }
    }

    /// Lifts a coarse packed footprint to fine coordinates, doubling its
    /// extent and height.
    pub fn from_shape(building_shape: BuildingShape, level: i32, height: u32) -> (r: Self)
        requires
            -0x800000 <= building_shape.edge_min.x <= building_shape.edge_max.x <= 0x800000,
            -0x800000 <= building_shape.edge_min.y <= building_shape.edge_max.y <= 0x800000,
            -0x2000000 <= level <= 0x2000000,
            height <= 0x400000,
        ensures
            r.spec_wf(),
            r.edge_min.x as int == 2 * building_shape.edge_min.x,
            r.edge_min.y as int == 2 * building_shape.edge_min.y,
            r.edge_max.x as int == 2 * building_shape.edge_max.x,
            r.edge_max.y as int == 2 * building_shape.edge_max.y,
            r.level == level,
            r.height as int == 2 * height + 1,
    {
        Building {
            edge_min: Point2 { x: building_shape.edge_min.x * 2, y: building_shape.edge_min.y * 2 },
            edge_max: Point2 { x: building_shape.edge_max.x * 2, y: building_shape.edge_max.y * 2 },
            level,
            height: height * 2 + 1,
        }
    }

    /// The roof level.
    pub fn top(&self) -> (r: i32)
        requires
            self.spec_wf(),
        ensures
            r as int == self.spec_top(),
    {
        self.level + self.height as i32
    }
}

impl Geometry for Building {
    open spec fn inv(&self) -> bool {
        self.spec_wf()
    }

    open spec fn spec_box(&self) -> Option<BoundingBox3> {
        Some(
            BoundingBox3 {
                min: Point3 { x: self.edge_min.x, y: self.edge_min.y, z: self.level },
                max: Point3 { x: self.edge_max.x, y: self.edge_max.y, z: self.spec_top() as i32 },
            },
        )
    }

    /// Within the vertical span, a cell belongs to the shell when it sits
    /// on a corner column, or on a wall with its alternating lattice
    /// pattern: wall cells are solid except where both the along-wall
    /// coordinate and the height above the level are even.
    open spec fn spec_member(&self, pos: Point3) -> bool {
        &&& self.level <= pos.z <= self.spec_top()
        &&& {
            let matches_x = self.edge_min.x == pos.x || self.edge_max.x == pos.x;
            let matches_y = self.edge_min.y == pos.y || self.edge_max.y == pos.y;
            let within_x = self.edge_min.x <= pos.x <= self.edge_max.x;
            let within_y = self.edge_min.y <= pos.y <= self.edge_max.y;
            let open_y = pos.y as int % 2 == 0 && (pos.z - self.level) % 2 == 0;
            let open_x = pos.x as int % 2 == 0 && (pos.z - self.level) % 2 == 0;
            ||| (matches_x && matches_y)
            ||| (matches_x && within_y && !open_y)
            ||| (matches_y && within_x && !open_x)
        }
    }

    proof fn lemma_box_wf(&self) {
    }

    fn bounding_box(&self) -> (r: Option<BoundingBox3>) {
        Some(
            BoundingBox3 {
                min: Point3 { x: self.edge_min.x, y: self.edge_min.y, z: self.level },
                max: Point3 { x: self.edge_max.x, y: self.edge_max.y, z: self.top() },
            },
        )
    }

    fn block_at(&self, pos: Point3) -> (r: bool) {
        if pos.z < self.level || pos.z > self.top() {
            return false;
        }
        let matches_x = self.edge_min.x == pos.x || self.edge_max.x == pos.x;
        let matches_y = self.edge_min.y == pos.y || self.edge_max.y == pos.y;
        let within_x = self.edge_min.x <= pos.x && pos.x <= self.edge_max.x;
        let within_y = self.edge_min.y <= pos.y && pos.y <= self.edge_max.y;
        let z_even = (pos.z - self.level) % 2 == 0;
        let open_y = pos.y % 2 == 0 && z_even;
        let open_x = pos.x % 2 == 0 && z_even;
        (matches_x && matches_y) || (matches_x && within_y && !open_y) || (matches_y && within_x
            && !open_x)
    }
}

} // verus!
