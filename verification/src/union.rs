use vstd::prelude::*;
use crate::block::Block;
use crate::geometry::{BoundingBox3, Geometry, MaterialGeometry, Point3};

verus! {

/// The union of the advertised boxes of a collection of geometries, folded
/// left to right; a missing child box is neutral, never a veto.
pub open spec fn spec_boxes_union<G: Geometry>(s: Seq<G>) -> Option<BoundingBox3>
    decreases s.len(),
{
    if s.len() == 0 {
        None
    } else {
        BoundingBox3::spec_try_union(spec_boxes_union(s.drop_last()), s.last().spec_box())
    }
}

/// The first material yielded by a collection of geometries at a point, in
/// declaration order.
pub open spec fn spec_first_material<G: MaterialGeometry>(s: Seq<G>, pos: Point3) -> Option<Block>
    decreases s.len(),
{
    if s.len() == 0 {
        None
    } else {
        match s.first().spec_material(pos) {
            Some(b) => Some(b),
            None => spec_first_material(s.drop_first(), pos),
        }
    }
}

/// A fold over a sequence of well-formed geometries produces a well-formed
/// box, if any.
pub proof fn lemma_boxes_union_wf<G: Geometry>(s: Seq<G>)
    requires
        forall|i: int| 0 <= i < s.len() ==> (#[trigger] s[i]).inv(),
    ensures
        match spec_boxes_union(s) {
            Some(b) => b.wf(),
            None => true,
        },
    decreases s.len(),
{
    if s.len() > 0 {
        lemma_boxes_union_wf(s.drop_last());
        s.last().lemma_box_wf();
    }
}

/// A non-empty collection whose children all advertise a box folds to an
/// advertised box.
pub proof fn lemma_boxes_union_some<G: Geometry>(s: Seq<G>)
    requires
        s.len() >= 1,
        forall|i: int| 0 <= i < s.len() ==> (#[trigger] s[i]).spec_box() is Some,
    ensures
        spec_boxes_union(s) is Some,
{
    assert(s.last().spec_box() is Some);
}

/// A geometry that contains a point wherever at least one of its children
/// does; its advertised box is the union of the children's boxes.
pub struct Union<G> {
    pub geometries: Vec<G>,
}

impl<G> Union<G> {
    pub fn new(geometries: Vec<G>) -> (r: Self)
        ensures
            r.geometries == geometries,
    {
        Union { geometries }
    }
}

impl<G: Geometry> Geometry for Union<G> {
    open spec fn inv(&self) -> bool {
        forall|i: int| 0 <= i < self.geometries@.len() ==> (#[trigger] self.geometries@[i]).inv()
    }

    open spec fn spec_box(&self) -> Option<BoundingBox3> {
        spec_boxes_union(self.geometries@)
    }

    /// A union contains a point exactly when at least one child contains it.
    open spec fn spec_member(&self, pos: Point3) -> bool {
        exists|i: int|
            0 <= i < self.geometries@.len() && (#[trigger] self.geometries@[i]).spec_member(pos)
    }

    proof fn lemma_box_wf(&self) {
        lemma_boxes_union_wf(self.geometries@);
    }

    fn bounding_box(&self) -> (r: Option<BoundingBox3>) {
        let n = self.geometries.len();
        let mut acc: Option<BoundingBox3> = None;
        let mut i: usize = 0;
        while i < n
            invariant
                n == self.geometries@.len(),
                i <= n,
                self.inv(),
                acc == spec_boxes_union(self.geometries@.take(i as int)),
            decreases n - i,
        {
            let b = self.geometries[i].bounding_box();
            acc = BoundingBox3::try_union(acc, b);
            i = i + 1;
            proof {
                let t = self.geometries@.take(i as int);
                assert(t.drop_last() == self.geometries@.take(i as int - 1));
                assert(t.last() == self.geometries@[i as int - 1]);
            }
        }
        proof {
            assert(self.geometries@.take(n as int) == self.geometries@);
        }
        acc
    }

    fn block_at(&self, pos: Point3) -> (r: bool) {
        let n = self.geometries.len();
        let mut i: usize = 0;
        while i < n
            invariant
                n == self.geometries@.len(),
                i <= n,
                self.inv(),
                forall|j: int| 0 <= j < i ==> !(#[trigger] self.geometries@[j]).spec_member(pos),
            decreases n - i,
        {
            if self.geometries[i].block_at(pos) {
                return true;
            }
            i = i + 1;
        }
        false
    }
}

impl<G: MaterialGeometry> MaterialGeometry for Union<G> {
    /// The first non-absent child material in declaration order; declaration
    /// order is a tie-break contract, not incidental.
    open spec fn spec_material(&self, pos: Point3) -> Option<Block> {
        spec_first_material(self.geometries@, pos)
    }

    fn block_material_at(&self, pos: Point3) -> (r: Option<Block>) {
        let n = self.geometries.len();
        let mut i: usize = 0;
        proof {
            assert(self.geometries@.skip(0) == self.geometries@);
        }
        while i < n
            invariant
                n == self.geometries@.len(),
                i <= n,
                self.inv(),
                spec_first_material(self.geometries@, pos) == spec_first_material(
                    self.geometries@.skip(i as int),
                    pos,
                ),
                forall|j: int| 0 <= j < i ==> (#[trigger] self.geometries@[j]).spec_material(pos) is None,
            decreases n - i,
        {
            let m = self.geometries[i].block_material_at(pos);
            proof {
                let rest = self.geometries@.skip(i as int);
                assert(rest.first() == self.geometries@[i as int]);
                assert(rest.drop_first() == self.geometries@.skip(i as int + 1));
            }
            if let Some(b) = m {
                return Some(b);
            }
            i = i + 1;
        }
        proof {
            assert(self.geometries@.skip(n as int).len() == 0);
        }
        None
    }
}

} // verus!
