use vstd::prelude::*;
use crate::block::Block;
use crate::geometry::{BoundingBox3, Geometry, MaterialGeometry, Point3};

verus! {

/// A geometry restricted by a second, boolean geometry: a point is contained
/// only where both the mask and the inner geometry contain it.
///
/// The advertised box is the intersection of both children's boxes; it is
/// missing when either child's box is missing or when the two do not
/// overlap.  Masking by a [`BoundingBox3`] therefore degenerates to a box
/// membership test with the advertised box cropped to the mask, while
/// producing the same membership results as any other mask.
pub struct Mask<G, M> {
    pub geometry: G,
    pub mask: M,
}

impl<G, M> Mask<G, M> {
    pub fn new(geometry: G, mask: M) -> (r: Self)
        ensures
            r.geometry == geometry,
            r.mask == mask,
    {
        Mask { geometry, mask }
    }
}

impl<G: Geometry, M: Geometry> Geometry for Mask<G, M> {
    open spec fn inv(&self) -> bool {
        self.geometry.inv() && self.mask.inv()
    }

    open spec fn spec_box(&self) -> Option<BoundingBox3> {
        match (self.mask.spec_box(), self.geometry.spec_box()) {
            (Some(m), Some(g)) => m.spec_intersect(g),
            _ => None,
        }
    }

    /// A masked geometry contains a point exactly when the mask and the
    /// inner geometry both do.
    open spec fn spec_member(&self, pos: Point3) -> bool {
        self.mask.spec_member(pos) && self.geometry.spec_member(pos)
    }

    proof fn lemma_box_wf(&self) {
        self.mask.lemma_box_wf();
        self.geometry.lemma_box_wf();
    }

    fn bounding_box(&self) -> (r: Option<BoundingBox3>) {
        proof {
            self.mask.lemma_box_wf();
            self.geometry.lemma_box_wf();
        }
        match (self.mask.bounding_box(), self.geometry.bounding_box()) {
            (Some(m), Some(g)) => m.intersect(g),
            _ => None,
        }
    }

    fn block_at(&self, pos: Point3) -> (r: bool) {
        self.mask.block_at(pos) && self.geometry.block_at(pos)
    }
}

impl<G: MaterialGeometry, M: Geometry> MaterialGeometry for Mask<G, M> {
    /// Materialization follows the inner geometry wherever the mask lets the
    /// point through; where the mask does not, there is no material.
    open spec fn spec_material(&self, pos: Point3) -> Option<Block> {
        if self.mask.spec_member(pos) {
            self.geometry.spec_material(pos)
        } else {
            None
        }
    }

    fn block_material_at(&self, pos: Point3) -> (r: Option<Block>) {
        if self.mask.block_at(pos) {
            self.geometry.block_material_at(pos)
        } else {
            None
        }
    }
}

} // verus!
