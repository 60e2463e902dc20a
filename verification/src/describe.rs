use vstd::prelude::*;
use crate::block::Block;
use crate::geometry::{BoundingBox3, Geometry, MaterialGeometry, Point3};

verus! {

/// Vertical-major position order: by layer, then row, then column.
pub open spec fn lex3_lt(a: Point3, b: Point3) -> bool {
    a.z < b.z || (a.z == b.z && (a.x < b.x || (a.x == b.x && a.y < b.y)))
}

/// A type that can hold and store world data: an output sink fed one block
/// per call.  Implementors carry their own validity condition, preserved
/// by every delivery, and a view of the blocks delivered so far, grown by
/// exactly the delivered block.
pub trait GeometryReceiver {
    spec fn inv(&self) -> bool;

    /// The blocks this sink has been fed, in delivery order.
    spec fn deliveries(&self) -> Seq<(Point3, Block)>;

    fn receive_block(&mut self, pos: Point3, block: Block)
        requires
            old(self).inv(),
        ensures
            final(self).inv(),
            final(self).deliveries() == old(self).deliveries().push((pos, block)),
    ;
}

/// The block yielded at one point, as a sequence of zero or one entries.
pub open spec fn spec_cell_blocks<G: MaterialGeometry>(g: G, z: int, x: int, y: int) -> Seq<
    (Point3, Block),
> {
    match g.spec_material(Point3 { x: x as i32, y: y as i32, z: z as i32 }) {
        Some(b) => seq![(Point3 { x: x as i32, y: y as i32, z: z as i32 }, b)],
        None => Seq::empty(),
    }
}

/// The blocks of one row, columns `y0` up to `y1` exclusive.
pub open spec fn spec_row_blocks<G: MaterialGeometry>(
    g: G,
    z: int,
    x: int,
    y0: int,
    y1: int,
) -> Seq<(Point3, Block)>
    decreases y1 - y0,
{
    if y1 <= y0 {
        Seq::empty()
    } else {
        spec_row_blocks(g, z, x, y0, y1 - 1) + spec_cell_blocks(g, z, x, y1 - 1)
    }
}

/// The blocks of one horizontal plane, rows `x0` up to `x1` exclusive.
pub open spec fn spec_plane_blocks<G: MaterialGeometry>(
    g: G,
    z: int,
    x0: int,
    x1: int,
    y0: int,
    y1: int,
) -> Seq<(Point3, Block)>
    decreases x1 - x0,
{
    if x1 <= x0 {
        Seq::empty()
    } else {
        spec_plane_blocks(g, z, x0, x1 - 1, y0, y1) + spec_row_blocks(g, z, x1 - 1, y0, y1)
    }
}

/// The blocks of a stack of planes, layers `z0` up to `z1` exclusive.
pub open spec fn spec_space_blocks<G: MaterialGeometry>(
    g: G,
    z0: int,
    z1: int,
    x0: int,
    x1: int,
    y0: int,
    y1: int,
) -> Seq<(Point3, Block)>
    decreases z1 - z0,
{
    if z1 <= z0 {
        Seq::empty()
    } else {
        spec_space_blocks(g, z0, z1 - 1, x0, x1, y0, y1) + spec_plane_blocks(
            g,
            z1 - 1,
            x0,
            x1,
            y0,
            y1,
        )
    }
}

/// Every point of a geometry's advertised box that yields a material, with
/// its block, in vertical-major order; empty when no box is advertised.
pub open spec fn spec_materialized<G: MaterialGeometry>(g: G) -> Seq<(Point3, Block)> {
    match g.spec_box() {
        Some(bb) => spec_space_blocks(
            g,
            bb.min.z as int,
            bb.max.z as int + 1,
            bb.min.x as int,
            bb.max.x as int + 1,
            bb.min.y as int,
            bb.max.y as int + 1,
        ),
        None => Seq::empty(),
    }
}

/// A geometry whose contents are made known by sending blocks to a
/// [`GeometryReceiver`]: describing delivers exactly the blocks the
/// describer stands for, in order, appended to whatever the sink already
/// held.
pub trait GeometryDescriber {
    spec fn describer_inv(&self) -> bool;

    /// The blocks one description delivers, in delivery order.
    spec fn described_blocks(&self) -> Seq<(Point3, Block)>;

    fn describe<R: GeometryReceiver>(&self, receiver: &mut R)
        requires
            self.describer_inv(),
            old(receiver).inv(),
        ensures
            final(receiver).inv(),
            final(receiver).deliveries() == old(receiver).deliveries() + self.described_blocks(),
    ;
}

/// Wraps a material geometry to make it behave like a describer: the sink
/// is fed every point of the advertised bounding box that yields a
/// material, walked in vertical-major order.
pub struct GeometryMaterializer<G> {
    pub geometry: G,
}

impl<G> GeometryMaterializer<G> {
    pub fn new(geometry: G) -> (r: Self)
        ensures
            r.geometry == geometry,
    {
        GeometryMaterializer { geometry }
    }
}

impl<G: MaterialGeometry> GeometryDescriber for GeometryMaterializer<G> {
    open spec fn describer_inv(&self) -> bool {
        self.geometry.inv()
    }

    open spec fn described_blocks(&self) -> Seq<(Point3, Block)> {
        spec_materialized(self.geometry)
    }

    fn describe<R: GeometryReceiver>(&self, receiver: &mut R) {
        let list = materialize_blocks(&self.geometry);
        let n = list.len();
        let mut i: usize = 0;
        proof {
            assert(list@.take(0) =~= Seq::<(Point3, Block)>::empty());
            assert(receiver.deliveries() + list@.take(0) =~= receiver.deliveries());
        }
        while i < n
            invariant
                receiver.inv(),
                i <= n,
                n == list@.len(),
                list@ == spec_materialized(self.geometry),
                receiver.deliveries() == old(receiver).deliveries() + list@.take(i as int),
            decreases n - i,
        {
            let (pos, block) = list[i];
            receiver.receive_block(pos, block);
            proof {
                assert(list@.take(i as int + 1) =~= list@.take(i as int).push(list@[i as int]));
                assert(old(receiver).deliveries() + list@.take(i as int + 1) =~= (old(
                    receiver,
                ).deliveries() + list@.take(i as int)).push(list@[i as int]));
            }
            i = i + 1;
        }
        proof {
            assert(list@.take(n as int) =~= list@);
        }
    }
}

/// A receiver that forwards only the blocks whose position a mask lets
/// through; its own deliveries are the blocks offered to it, while the
/// wrapped sink receives exactly the offered blocks the mask admits.
pub struct GeometryReceiverMasked<R, M> {
    pub receiver: R,
    pub mask: M,
    pub offered: Ghost<Seq<(Point3, Block)>>,
    pub prior: Ghost<Seq<(Point3, Block)>>,
}

/// The subsequence of deliveries whose positions a mask admits.
pub open spec fn spec_mask_filter<M: Geometry>(s: Seq<(Point3, Block)>, mask: M) -> Seq<
    (Point3, Block),
>
    decreases s.len(),
{
    if s.len() == 0 {
        Seq::empty()
    } else {
        let rest = spec_mask_filter(s.drop_last(), mask);
        if mask.spec_member(s.last().0) {
            rest.push(s.last())
        } else {
            rest
        }
    }
}

impl<R: GeometryReceiver, M: Geometry> GeometryReceiverMasked<R, M> {
    pub fn new(receiver: R, mask: M) -> (r: Self)
        ensures
            r.receiver == receiver,
            r.mask == mask,
            r.deliveries() == Seq::<(Point3, Block)>::empty(),
            receiver.inv() && mask.inv() ==> r.inv(),
    {
        let ghost prior = receiver.deliveries();
        let r = GeometryReceiverMasked {
            receiver,
            mask,
            offered: Ghost(Seq::empty()),
            prior: Ghost(prior),
        };
        proof {
            assert(spec_mask_filter(Seq::<(Point3, Block)>::empty(), r.mask) =~= Seq::<
                (Point3, Block),
            >::empty());
            assert(r.prior@ + spec_mask_filter(r.offered@, r.mask) =~= r.prior@);
        }
        r
    }
}

impl<R: GeometryReceiver, M: Geometry> GeometryReceiver for GeometryReceiverMasked<R, M> {
    open spec fn inv(&self) -> bool {
        &&& self.receiver.inv()
        &&& self.mask.inv()
        &&& self.receiver.deliveries() == self.prior@ + spec_mask_filter(self.offered@, self.mask)
    }

    /// The blocks offered to this wrapper, admitted or not.
    open spec fn deliveries(&self) -> Seq<(Point3, Block)> {
        self.offered@
    }

    fn receive_block(&mut self, pos: Point3, block: Block) {
        let ghost offered0 = self.offered@;
        proof {
            self.offered@ = self.offered@.push((pos, block));
            assert(self.offered@.drop_last() =~= offered0);
            assert(self.offered@.last() == ((pos, block)));
        }
        if self.mask.block_at(pos) {
            self.receiver.receive_block(pos, block);
            proof {
                assert(self.receiver.deliveries() =~= self.prior@ + spec_mask_filter(
                    self.offered@,
                    self.mask,
                ));
            }
        } else {
            proof {
                assert(spec_mask_filter(self.offered@, self.mask) =~= spec_mask_filter(
                    offered0,
                    self.mask,
                ));
            }
        }
    }
}

/// A receiver that collects every delivered block with its position.
pub struct BlockCollector {
    pub blocks: Vec<(Point3, Block)>,
}

impl BlockCollector {
    pub fn new() -> (r: BlockCollector)
        ensures
            r.blocks@.len() == 0,
    {
        BlockCollector { blocks: Vec::new() }
    }
}

impl GeometryReceiver for BlockCollector {
    open spec fn inv(&self) -> bool {
        true
    }

    /// The collected blocks are exactly the deliveries.
    open spec fn deliveries(&self) -> Seq<(Point3, Block)> {
        self.blocks@
    }

    fn receive_block(&mut self, pos: Point3, block: Block) {
        self.blocks.push((pos, block));
    }
}

/// Lists every point of a geometry's advertised box that yields a
/// material, with its block: exactly the vertical-major materialized
/// sequence, so every entry is a true material, every box point with a
/// material appears, and the positions are strictly increasing — each
/// point at most once.
#[verifier::rlimit(100)]
pub fn materialize_blocks<G: MaterialGeometry>(geometry: &G) -> (r: Vec<(Point3, Block)>)
    requires
        geometry.inv(),
    ensures
        r@ == spec_materialized(*geometry),
        forall|i: int|
            0 <= i < r@.len() ==> geometry.spec_material((#[trigger] r@[i]).0) == Some(r@[i].1),
        forall|i: int|
            0 <= i < r@.len() ==> (geometry.spec_box() matches Some(bb) && bb.spec_contains(
                (#[trigger] r@[i]).0,
            )),
        forall|pos: Point3|
            (geometry.spec_box() matches Some(bb) && bb.spec_contains(pos)
                && #[trigger] geometry.spec_material(pos) is Some) ==> exists|i: int|
                0 <= i < r@.len() && (#[trigger] r@[i]).0 == pos,
        forall|i: int, j: int|
            0 <= i < j < r@.len() ==> lex3_lt((#[trigger] r@[i]).0, (#[trigger] r@[j]).0),
{
    let mut out: Vec<(Point3, Block)> = Vec::new();
    let bb = match geometry.bounding_box() {
        Some(bb) => bb,
        None => {
            return out;
        },
    };
    proof {
        geometry.lemma_box_wf();
    }
    let ghost x1 = bb.max.x as int + 1;
    let ghost y1 = bb.max.y as int + 1;
    let mut z = bb.min.z as i64;
    proof {
        assert(out@ =~= spec_space_blocks(
            *geometry,
            bb.min.z as int,
            bb.min.z as int,
            bb.min.x as int,
            x1,
            bb.min.y as int,
            y1,
        ));
    }
    while z <= bb.max.z as i64
        invariant
            geometry.inv(),
            geometry.spec_box() == Some(bb),
            bb.wf(),
            x1 == bb.max.x as int + 1,
            y1 == bb.max.y as int + 1,
            bb.min.z as int <= z <= bb.max.z as int + 1,
            out@ == spec_space_blocks(
                *geometry,
                bb.min.z as int,
                z as int,
                bb.min.x as int,
                x1,
                bb.min.y as int,
                y1,
            ),
            forall|i: int|
                0 <= i < out@.len() ==> geometry.spec_material((#[trigger] out@[i]).0) == Some(
                    out@[i].1,
                ),
            forall|i: int|
                0 <= i < out@.len() ==> bb.spec_contains((#[trigger] out@[i]).0),
            forall|pos: Point3|
                bb.spec_contains(pos) && #[trigger] geometry.spec_material(pos) is Some && pos.z
                    < z ==> exists|i: int| 0 <= i < out@.len() && (#[trigger] out@[i]).0 == pos,
            forall|i: int| 0 <= i < out@.len() ==> ((#[trigger] out@[i]).0.z as int) < z as int,
            forall|i: int, j: int|
                0 <= i < j < out@.len() ==> lex3_lt((#[trigger] out@[i]).0, (#[trigger] out@[j]).0),
        decreases bb.max.z as int + 1 - z,
    {
        let mut x = bb.min.x as i64;
        proof {
            assert(spec_plane_blocks(
                *geometry,
                z as int,
                bb.min.x as int,
                bb.min.x as int,
                bb.min.y as int,
                y1,
            ) =~= Seq::<(Point3, Block)>::empty());
            assert(out@ + spec_plane_blocks(
                *geometry,
                z as int,
                bb.min.x as int,
                bb.min.x as int,
                bb.min.y as int,
                y1,
            ) =~= out@);
        }
        let ghost plane_base = out@;
        while x <= bb.max.x as i64
            invariant
                geometry.inv(),
                geometry.spec_box() == Some(bb),
                bb.wf(),
                x1 == bb.max.x as int + 1,
                y1 == bb.max.y as int + 1,
                bb.min.z as int <= z <= bb.max.z as int,
                bb.min.x as int <= x <= bb.max.x as int + 1,
                plane_base == spec_space_blocks(
                    *geometry,
                    bb.min.z as int,
                    z as int,
                    bb.min.x as int,
                    x1,
                    bb.min.y as int,
                    y1,
                ),
                out@ == plane_base + spec_plane_blocks(
                    *geometry,
                    z as int,
                    bb.min.x as int,
                    x as int,
                    bb.min.y as int,
                    y1,
                ),
                forall|i: int|
                    0 <= i < out@.len() ==> geometry.spec_material((#[trigger] out@[i]).0) == Some(
                        out@[i].1,
                    ),
                forall|i: int|
                    0 <= i < out@.len() ==> bb.spec_contains((#[trigger] out@[i]).0),
                forall|pos: Point3|
                    bb.spec_contains(pos) && #[trigger] geometry.spec_material(pos) is Some && (
                    pos.z < z || (pos.z == z && pos.x < x)) ==> exists|i: int|
                        0 <= i < out@.len() && (#[trigger] out@[i]).0 == pos,
                forall|i: int|
                    0 <= i < out@.len() ==> ((#[trigger] out@[i]).0.z as int) < z as int || (
                    out@[i].0.z as int == z as int && (out@[i].0.x as int) < x as int),
                forall|i: int, j: int|
                    0 <= i < j < out@.len() ==> lex3_lt(
                        (#[trigger] out@[i]).0,
                        (#[trigger] out@[j]).0,
                    ),
            decreases bb.max.x as int + 1 - x,
        {
            let mut y = bb.min.y as i64;
            proof {
                assert(spec_row_blocks(
                    *geometry,
                    z as int,
                    x as int,
                    bb.min.y as int,
                    bb.min.y as int,
                ) =~= Seq::<(Point3, Block)>::empty());
                assert(out@ + spec_row_blocks(
                    *geometry,
                    z as int,
                    x as int,
                    bb.min.y as int,
                    bb.min.y as int,
                ) =~= out@);
            }
            let ghost row_base = out@;
            while y <= bb.max.y as i64
                invariant
                    geometry.inv(),
                    geometry.spec_box() == Some(bb),
                    bb.wf(),
                    x1 == bb.max.x as int + 1,
                    y1 == bb.max.y as int + 1,
                    bb.min.z as int <= z <= bb.max.z as int,
                    bb.min.x as int <= x <= bb.max.x as int,
                    bb.min.y as int <= y <= bb.max.y as int + 1,
                    row_base == plane_base + spec_plane_blocks(
                        *geometry,
                        z as int,
                        bb.min.x as int,
                        x as int,
                        bb.min.y as int,
                        y1,
                    ),
                    plane_base == spec_space_blocks(
                        *geometry,
                        bb.min.z as int,
                        z as int,
                        bb.min.x as int,
                        x1,
                        bb.min.y as int,
                        y1,
                    ),
                    out@ == row_base + spec_row_blocks(
                        *geometry,
                        z as int,
                        x as int,
                        bb.min.y as int,
                        y as int,
                    ),
                    forall|i: int|
                        0 <= i < out@.len() ==> geometry.spec_material((#[trigger] out@[i]).0)
                            == Some(out@[i].1),
                    forall|i: int|
                        0 <= i < out@.len() ==> bb.spec_contains((#[trigger] out@[i]).0),
                    forall|pos: Point3|
                        bb.spec_contains(pos) && #[trigger] geometry.spec_material(pos) is Some
                            && (pos.z < z || (pos.z == z && pos.x < x) || (pos.z == z && pos.x == x
                            && pos.y < y)) ==> exists|i: int|
                            0 <= i < out@.len() && (#[trigger] out@[i]).0 == pos,
                    forall|i: int|
                        0 <= i < out@.len() ==> ((#[trigger] out@[i]).0.z as int) < z as int || (
                        out@[i].0.z as int == z as int && ((out@[i].0.x as int) < x as int || (
                        out@[i].0.x as int == x as int && (out@[i].0.y as int) < y as int))),
                    forall|i: int, j: int|
                        0 <= i < j < out@.len() ==> lex3_lt(
                            (#[trigger] out@[i]).0,
                            (#[trigger] out@[j]).0,
                        ),
                decreases bb.max.y as int + 1 - y,
            {
                let ghost out0 = out@;
                let cur = Point3 { x: x as i32, y: y as i32, z: z as i32 };
                let here = geometry.block_material_at(cur);
                if let Some(block) = here {
                    out.push((cur, block));
                    proof {
                        assert(out@[out@.len() - 1].0 == cur);
                    }
                }
                proof {
                    let rnext = spec_row_blocks(
                        *geometry,
                        z as int,
                        x as int,
                        bb.min.y as int,
                        y as int + 1,
                    );
                    assert(rnext == spec_row_blocks(
                        *geometry,
                        z as int,
                        x as int,
                        bb.min.y as int,
                        y as int,
                    ) + spec_cell_blocks(*geometry, z as int, x as int, y as int));
                    assert(out@ =~= row_base + rnext);
                    assert forall|pos: Point3|
                        bb.spec_contains(pos) && #[trigger] geometry.spec_material(pos) is Some
                            && (pos.z < z || (pos.z == z && pos.x < x) || (pos.z == z && pos.x == x
                            && pos.y < y + 1)) implies exists|i: int|
                        0 <= i < out@.len() && (#[trigger] out@[i]).0 == pos by {
                        if pos.z == z && pos.x == x && pos.y == y {
                            assert(pos == cur);
                            assert(geometry.spec_material(cur) is Some);
                            assert(out@[out@.len() - 1].0 == pos);
                        } else {
                            let i = choose|i: int|
                                0 <= i < out0.len() && (#[trigger] out0[i]).0 == pos;
                            assert(out@[i] == out0[i]);
                        }
                    }
                }
                y = y + 1;
            }
            proof {
                let pnext = spec_plane_blocks(
                    *geometry,
                    z as int,
                    bb.min.x as int,
                    x as int + 1,
                    bb.min.y as int,
                    y1,
                );
                assert(pnext == spec_plane_blocks(
                    *geometry,
                    z as int,
                    bb.min.x as int,
                    x as int,
                    bb.min.y as int,
                    y1,
                ) + spec_row_blocks(*geometry, z as int, x as int, bb.min.y as int, y1));
                assert(out@ =~= plane_base + pnext);
            }
            x = x + 1;
        }
        proof {
            let snext = spec_space_blocks(
                *geometry,
                bb.min.z as int,
                z as int + 1,
                bb.min.x as int,
                x1,
                bb.min.y as int,
                y1,
            );
            assert(snext == spec_space_blocks(
                *geometry,
                bb.min.z as int,
                z as int,
                bb.min.x as int,
                x1,
                bb.min.y as int,
                y1,
            ) + spec_plane_blocks(*geometry, z as int, bb.min.x as int, x1, bb.min.y as int, y1));
            assert(out@ =~= snext);
        }
        z = z + 1;
    }
    out
}

} // verus!
