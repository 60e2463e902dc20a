use vstd::prelude::*;
use crate::block::Block;
use crate::geometry::{BoundingBox3, Geometry, MaterialGeometry, Point3};

verus! {

/// A geometry that contains a point exactly when both children contain it.
///
/// Its advertised box is the *union* of the children's boxes: a deliberate
/// over-approximation, so that neither parent needs to know its exact
/// cropped shape.
pub struct Intersect<G1, G2> {
    pub geometry1: G1,
    pub geometry2: G2,
}

impl<G1, G2> Intersect<G1, G2> {
    pub fn new(geometry1: G1, geometry2: G2) -> (r: Self)
        ensures
            r.geometry1 == geometry1,
            r.geometry2 == geometry2,
    {
        Intersect { geometry1, geometry2 }
    }
}

impl<G1: Geometry, G2: Geometry> Geometry for Intersect<G1, G2> {
    open spec fn inv(&self) -> bool {
        self.geometry1.inv() && self.geometry2.inv()
    }

    open spec fn spec_box(&self) -> Option<BoundingBox3> {
        BoundingBox3::spec_try_union(self.geometry1.spec_box(), self.geometry2.spec_box())
    }

    /// An intersection contains a point exactly when both children do.
    open spec fn spec_member(&self, pos: Point3) -> bool {
        self.geometry1.spec_member(pos) && self.geometry2.spec_member(pos)
    }

    proof fn lemma_box_wf(&self) {
        self.geometry1.lemma_box_wf();
        self.geometry2.lemma_box_wf();
    }

    fn bounding_box(&self) -> (r: Option<BoundingBox3>) {
        BoundingBox3::try_union(self.geometry1.bounding_box(), self.geometry2.bounding_box())
    }

    fn block_at(&self, pos: Point3) -> (r: bool) {
        self.geometry1.block_at(pos) && self.geometry2.block_at(pos)
    }
}

impl<G1: MaterialGeometry, G2: Geometry> MaterialGeometry for Intersect<G1, G2> {
    /// The first child's material, yielded only where the second child also
    /// contains the point; the second child supplies no material of its own.
    open spec fn spec_material(&self, pos: Point3) -> Option<Block> {
        match self.geometry1.spec_material(pos) {
            Some(b) => if self.geometry2.spec_member(pos) {
                Some(b)
            } else {
                None
            },
            None => None,
        }
    }

    fn block_material_at(&self, pos: Point3) -> (r: Option<Block>) {
        match self.geometry1.block_material_at(pos) {
            Some(b) => if self.geometry2.block_at(pos) {
                Some(b)
            } else {
                None
            },
            None => None,
        }
    }
}

} // verus!
