use vstd::prelude::*;
use crate::block::Block;
use crate::geometry::{BoundingBox3, Geometry, MaterialGeometry, Point3};
use crate::union::{lemma_boxes_union_wf, spec_boxes_union, spec_first_material};

verus! {

/// A union over a large collection of geometries, built for bulk point
/// queries: the union of the children's boxes is computed once at
/// construction and memoized, and every query first rejects points outside
/// the memoized box before consulting the children.
///
/// Point queries are stateless and side-effect free, so the collection can
/// be fanned out across workers; the results here are specified (and
/// computed) in declaration order, which is exactly what a deterministic
/// parallel evaluation must also produce.
pub struct UnionThreaded<G> {
    geometries: Vec<G>,
    cached_box: Option<BoundingBox3>,
}

impl<G: Geometry> UnionThreaded<G> {
    /// The memoized box is exactly the union of the children's boxes.
    pub closed spec fn cache_ok(&self) -> bool {
        self.cached_box == spec_boxes_union(self.geometries@)
    }

    pub closed spec fn spec_geometries(&self) -> Seq<G> {
        self.geometries@
    }

    pub fn new(geometries: Vec<G>) -> (r: Self)
        requires
            forall|i: int| 0 <= i < geometries@.len() ==> (#[trigger] geometries@[i]).inv(),
        ensures
            r.spec_geometries() == geometries@,
            r.inv(),
    {
        let helper: crate::union::Union<&G> = crate::union::Union { geometries: to_refs(&geometries) };
        let cached_box = helper.bounding_box();
        proof {
            lemma_boxes_union_refs(geometries@, helper.geometries@);
        }
        UnionThreaded { geometries, cached_box }
    }

    /// Hands the children back out, consuming the wrapper.
    pub fn into_geometries(self) -> (r: Vec<G>)
        ensures
            r@ == self.spec_geometries(),
    {
        self.geometries
    }

    /// The number of children.
    pub fn len(&self) -> (r: usize)
        ensures
            r as int == self.spec_geometries().len(),
    {
        self.geometries.len()
    }
}

impl<'a, G: Geometry> Geometry for &'a G {
    open spec fn inv(&self) -> bool {
        (**self).inv()
    }

    open spec fn spec_box(&self) -> Option<BoundingBox3> {
        (**self).spec_box()
    }

    open spec fn spec_member(&self, pos: Point3) -> bool {
        (**self).spec_member(pos)
    }

    proof fn lemma_box_wf(&self) {
        (**self).lemma_box_wf();
    }

    fn bounding_box(&self) -> (r: Option<BoundingBox3>) {
        (**self).bounding_box()
    }

    fn block_at(&self, pos: Point3) -> (r: bool) {
        (**self).block_at(pos)
    }
}

fn to_refs<G>(v: &Vec<G>) -> (r: Vec<&G>)
    ensures
        r@.len() == v@.len(),
        forall|i: int| 0 <= i < v@.len() ==> r@[i] == &v@[i],
{
    let mut out: Vec<&G> = Vec::new();
    let n = v.len();
    let mut i: usize = 0;
    while i < n
        invariant
            n == v@.len(),
            i <= n,
            out@.len() == i as int,
            forall|j: int| 0 <= j < i ==> out@[j] == &v@[j],
        decreases n - i,
    {
        out.push(&v[i]);
        i = i + 1;
    }
    out
}

/// Folding the boxes of a sequence of references equals folding the boxes of
/// the referenced values.
proof fn lemma_boxes_union_refs<G: Geometry>(s: Seq<G>, r: Seq<&G>)
    requires
        r.len() == s.len(),
        forall|i: int| 0 <= i < s.len() ==> r[i] == &s[i],
    ensures
        spec_boxes_union(r) == spec_boxes_union(s),
    decreases s.len(),
{
    if s.len() > 0 {
        lemma_boxes_union_refs(s.drop_last(), r.drop_last());
    }
}

impl<G: Geometry> Geometry for UnionThreaded<G> {
    open spec fn inv(&self) -> bool {
        &&& forall|i: int|
            0 <= i < self.spec_geometries().len() ==> (#[trigger] self.spec_geometries()[i]).inv()
        &&& self.cache_ok()
    }

    open spec fn spec_box(&self) -> Option<BoundingBox3> {
        spec_boxes_union(self.spec_geometries())
    }

    /// Membership holds exactly where the memoized box admits the point and
    /// at least one child contains it.
    open spec fn spec_member(&self, pos: Point3) -> bool {
        match spec_boxes_union(self.spec_geometries()) {
            Some(bb) => bb.spec_contains(pos) && exists|i: int|
                0 <= i < self.spec_geometries().len() && (
                #[trigger] self.spec_geometries()[i]).spec_member(pos),
            None => false,
        }
    }

    proof fn lemma_box_wf(&self) {
        lemma_boxes_union_wf(self.spec_geometries());
    }

    fn bounding_box(&self) -> (r: Option<BoundingBox3>) {
        self.cached_box
    }

    fn block_at(&self, pos: Point3) -> (r: bool) {
        let inside = match self.cached_box {
            Some(bb) => bb.contains(pos),
            None => false,
        };
        if !inside {
            return false;
        }
        let n = self.geometries.len();
        let mut i: usize = 0;
        while i < n
            invariant
                n == self.geometries@.len(),
                i <= n,
                self.inv(),
                forall|j: int| 0 <= j < n ==> (#[trigger] self.geometries@[j]).inv(),
                match spec_boxes_union(self.geometries@) {
                    Some(bb) => bb.spec_contains(pos),
                    None => false,
                },
                forall|j: int| 0 <= j < i ==> !(#[trigger] self.geometries@[j]).spec_member(pos),
            decreases n - i,
        {
            if self.geometries[i].block_at(pos) {
                return true;
            }
            i = i + 1;
        }
        false
    }
}

impl<G: MaterialGeometry> MaterialGeometry for UnionThreaded<G> {
    /// The first child material in declaration order, for points the
    /// memoized box admits; ties between workers are broken by re-imposing
    /// declaration order, never by completion order.
    open spec fn spec_material(&self, pos: Point3) -> Option<Block> {
        match spec_boxes_union(self.spec_geometries()) {
            Some(bb) => if bb.spec_contains(pos) {
                spec_first_material(self.spec_geometries(), pos)
            } else {
                None
            },
            None => None,
        }
    }

    fn block_material_at(&self, pos: Point3) -> (r: Option<Block>) {
        let inside = match self.cached_box {
            Some(bb) => bb.contains(pos),
            None => false,
        };
        if !inside {
            return None;
        }
        let n = self.geometries.len();
        let mut i: usize = 0;
        proof {
            assert(self.geometries@.skip(0) == self.geometries@);
        }
        while i < n
            invariant
                n == self.geometries@.len(),
                i <= n,
                self.inv(),
                forall|j: int| 0 <= j < n ==> (#[trigger] self.geometries@[j]).inv(),
                match spec_boxes_union(self.geometries@) {
                    Some(bb) => bb.spec_contains(pos),
                    None => false,
                },
                spec_first_material(self.geometries@, pos) == spec_first_material(
                    self.geometries@.skip(i as int),
                    pos,
                ),
            decreases n - i,
        {
            let m = self.geometries[i].block_material_at(pos);
            proof {
                let rest = self.geometries@.skip(i as int);
                assert(rest.first() == self.geometries@[i as int]);
                assert(rest.drop_first() == self.geometries@.skip(i as int + 1));
            }
            if let Some(b) = m {
                return Some(b);
            }
            i = i + 1;
        }
        proof {
            assert(self.geometries@.skip(n as int).len() == 0);
        }
        None
    }
}

} // verus!
