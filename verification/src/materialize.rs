use vstd::prelude::*;
use crate::block::Block;
use crate::geometry::{BoundingBox3, Geometry, MaterialGeometry, Point3};

verus! {

/// Turns a boolean geometry into a material geometry by yielding one
/// constant material wherever the inner geometry contains a point.
pub struct Materialize<G> {
    pub material: Block,
    pub geometry: G,
}

impl<G> Materialize<G> {
    pub fn new(material: Block, geometry: G) -> (r: Self)
        ensures
            r.material == material,
            r.geometry == geometry,
    {
        Materialize { material, geometry }
    }
}

impl<G: Geometry> Geometry for Materialize<G> {
    open spec fn inv(&self) -> bool {
        self.geometry.inv()
    }

    open spec fn spec_box(&self) -> Option<BoundingBox3> {
        self.geometry.spec_box()
    }

    open spec fn spec_member(&self, pos: Point3) -> bool {
        self.geometry.spec_member(pos)
    }

    proof fn lemma_box_wf(&self) {
        self.geometry.lemma_box_wf();
    }

    fn bounding_box(&self) -> (r: Option<BoundingBox3>) {
        self.geometry.bounding_box()
    }

    fn block_at(&self, pos: Point3) -> (r: bool) {
        self.geometry.block_at(pos)
    }
}

impl<G: Geometry> MaterialGeometry for Materialize<G> {
    /// The constant material, exactly where the inner geometry contains the
    /// point.
    open spec fn spec_material(&self, pos: Point3) -> Option<Block> {
        if self.geometry.spec_member(pos) {
            Some(self.material)
        } else {
            None
        }
    }

    fn block_material_at(&self, pos: Point3) -> (r: Option<Block>) {
        if self.geometry.block_at(pos) {
            Some(self.material)
        } else {
            None
        }
    }
}

} // verus!
