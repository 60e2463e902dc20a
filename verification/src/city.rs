use vstd::prelude::*;
use crate::block::Block;
use crate::geometry::{BoundingBox3, Geometry, MaterialGeometry, Point3};
use crate::layer::Layer;
use crate::pillar::WORLD_Z_MIN;
use crate::rng::RngSource;
use crate::union::Union;

verus! {

/// The bounding boxes of a layer's pillars, in pillar order.
pub open spec fn spec_pillar_boxes(l: Layer) -> Seq<BoundingBox3> {
    Seq::new(l.pillars.geometries@.len(), |b: int| l.pillars.geometries@[b].spec_box().unwrap())
}

/// A layer's structural shape within a city of the given height count.
pub open spec fn spec_layer_placed(l: Layer, k: int, layer_count: int) -> bool {
    &&& l.landmass.level as int == 48 * (k + 1)
    &&& l.landmass.shape.spec_size() as int == layer_count - k
    &&& (forall|b: int|
        0 <= b < l.pillars.geometries@.len() ==> {
            let p = #[trigger] l.pillars.geometries@[b];
            p.min_height as int == (if k == 0 {
                -64int
            } else {
                48 * k
            }) && p.max_height as int == 48 * (k + 1)
        })
}

/// The vertical spacing between city layers.
pub const LAYER_SPACING: i32 = 48;

/// A city: an ordered stack of elevated layers, bottom to top.
pub struct City {
    pub layers: Union<Layer>,
}

impl City {
    /// Generates a city of the given number of layers, each from its own
    /// generator forked off the source: layer `k` sits at top `48 * (k + 1)`
    /// with its pillars reaching down to the previous layer's top (the
    /// world floor for the first), and shrinks as it rises.  After
    /// generation, buildings of a lower layer that collide with the pillar
    /// boxes of the layer immediately above are removed.
    ///
    /// The bound on the layer count keeps every layer top within the
    /// coordinate budget of layer generation.
    #[verifier::rlimit(100)]
    pub fn generate_new(source_rng: &mut RngSource, layer_count: usize) -> (r: City)
        requires
            layer_count <= 21845,
        ensures
            r.inv(),
            r.layers.geometries@.len() == layer_count,
            forall|k: int|
                0 <= k < layer_count ==> spec_layer_placed(
                    #[trigger] r.layers.geometries@[k],
                    k,
                    layer_count as int,
                ),
            forall|k: int, a: int|
                0 <= k < layer_count as int - 1 && 0 <= a < r.layers.geometries@[
                    k
                ].buildings.spec_geometries().len() ==> !Layer::spec_collides(
                    #[trigger] r.layers.geometries@[k].buildings.spec_geometries()[a],
                    spec_pillar_boxes(r.layers.geometries@[k + 1]),
                ),
    {
        let mut rngs: Vec<RngSource> = Vec::new();
        let mut i: usize = 0;
        while i < layer_count
            invariant
                i <= layer_count,
                rngs@.len() == i as int,
            decreases layer_count - i,
        {
            let child = source_rng.fork();
            rngs.push(child);
            i = i + 1;
        }
        let mut layers: Vec<Layer> = Vec::new();
        let mut j: usize = 0;
        while j < layer_count
            invariant
                j <= layer_count,
                layer_count <= 21845,
                rngs@.len() == layer_count as int - j as int,
                layers@.len() == j as int,
                forall|k: int| 0 <= k < j ==> (#[trigger] layers@[k]).inv(),
                forall|k: int|
                    0 <= k < j ==> spec_layer_placed(
                        #[trigger] layers@[k],
                        k,
                        layer_count as int,
                    ),
            decreases layer_count - j,
        {
            let top = (j as i32 + 1) * LAYER_SPACING;
            let bottom = if j == 0 {
                WORLD_Z_MIN
            } else {
                j as i32 * LAYER_SPACING
            };
            let size = (layer_count - j) as u32;
            let mut rng = rngs.remove(0);
            let layer = Layer::generate_new(&mut rng, top, bottom, size);
            layers.push(layer);
            j = j + 1;
        }
        let mut boxes: Vec<Vec<BoundingBox3>> = Vec::new();
        let mut k: usize = 0;
        while k < layers.len()
            invariant
                k <= layers@.len(),
                boxes@.len() == k as int,
                layer_count == layers@.len(),
                forall|a: int| 0 <= a < layers@.len() ==> (#[trigger] layers@[a]).inv(),
                forall|a: int|
                    0 <= a < layers@.len() ==> spec_layer_placed(
                        #[trigger] layers@[a],
                        a,
                        layer_count as int,
                    ),
                forall|a: int, b: int|
                    #![trigger boxes@[a]@[b]]
                    0 <= a < boxes@.len() && 0 <= b < boxes@[a]@.len() ==> boxes@[a]@[b].wf(),
                forall|a: int|
                    0 <= a < boxes@.len() ==> (#[trigger] boxes@[a])@ == spec_pillar_boxes(
                        layers@[a],
                    ),
            decreases layers@.len() - k,
        {
            let pillar_boxes = collect_pillar_boxes(&layers[k]);
            boxes.push(pillar_boxes);
            k = k + 1;
        }
        let n = layers.len();
        let mut a: usize = 0;
        while n >= 1 && a < n - 1
            invariant
                n == layers@.len(),
                n == layer_count,
                boxes@.len() == n as int,
                a <= n,
                forall|x: int| 0 <= x < layers@.len() ==> (#[trigger] layers@[x]).inv(),
                forall|x: int|
                    0 <= x < layers@.len() ==> spec_layer_placed(
                        #[trigger] layers@[x],
                        x,
                        layer_count as int,
                    ),
                forall|x: int, b: int|
                    #![trigger boxes@[x]@[b]]
                    0 <= x < boxes@.len() && 0 <= b < boxes@[x]@.len() ==> boxes@[x]@[b].wf(),
                forall|x: int|
                    0 <= x < boxes@.len() ==> (#[trigger] boxes@[x])@ == spec_pillar_boxes(
                        layers@[x],
                    ),
                forall|x: int, b: int|
                    #![trigger layers@[x].buildings.spec_geometries()[b]]
                    0 <= x < a as int && 0 <= b < layers@[x].buildings.spec_geometries().len()
                        ==> !Layer::spec_collides(
                        layers@[x].buildings.spec_geometries()[b],
                        spec_pillar_boxes(layers@[x + 1]),
                    ),
            decreases n - a,
        {
            let ghost layers0 = layers@;
            let above = &boxes[a + 1];
            let mut below = layers.remove(a);
            below.remove_buildings_colliding_with(above);
            let ghost below_final = below;
            layers.insert(a, below);
            proof {
                assert(layers@ =~= layers0.update(a as int, below_final));
                assert forall|x: int|
                    0 <= x < layers@.len() implies spec_layer_placed(
                    #[trigger] layers@[x],
                    x,
                    layer_count as int,
                ) by {
                    if x == a as int {
                        assert(layers@[x].landmass == layers0[x].landmass);
                        assert(layers@[x].pillars == layers0[x].pillars);
                    } else {
                        assert(layers@[x] == layers0[x]);
                    }
                }
                assert forall|x: int|
                    0 <= x < boxes@.len() implies (#[trigger] boxes@[x])@ == spec_pillar_boxes(
                    layers@[x],
                ) by {
                    if x == a as int {
                        assert(layers@[x].pillars == layers0[x].pillars);
                        assert(spec_pillar_boxes(layers@[x]) =~= spec_pillar_boxes(layers0[x]));
                    } else {
                        assert(layers@[x] == layers0[x]);
                    }
                }
                assert forall|x: int, b: int|
                    #![trigger layers@[x].buildings.spec_geometries()[b]]
                    0 <= x < a as int + 1 && 0 <= b < layers@[x].buildings.spec_geometries().len()
                        implies !Layer::spec_collides(
                    layers@[x].buildings.spec_geometries()[b],
                    spec_pillar_boxes(layers@[x + 1]),
                ) by {
                    if x == a as int {
                        assert(layers@[x] == below_final);
                        assert(layers@[x + 1] == layers0[x + 1]);
                        assert(boxes@[x + 1]@ == spec_pillar_boxes(layers@[x + 1]));
                    } else if x + 1 == a as int {
                        assert(layers@[x] == layers0[x]);
                        assert(layers@[x + 1].pillars == layers0[x + 1].pillars);
                        assert(spec_pillar_boxes(layers@[x + 1]) =~= spec_pillar_boxes(
                            layers0[x + 1],
                        ));
                    } else {
                        assert(layers@[x] == layers0[x] && layers@[x + 1] == layers0[x + 1]);
                    }
                }
            }
            a = a + 1;
        }
        City { layers: Union::new(layers) }
    }
}

/// The bounding boxes of a layer's pillars, in pillar order.
fn collect_pillar_boxes(layer: &Layer) -> (r: Vec<BoundingBox3>)
    requires
        layer.inv(),
    ensures
        r@ == spec_pillar_boxes(*layer),
        forall|b: int| 0 <= b < r@.len() ==> (#[trigger] r@[b]).wf(),
{
    let mut out: Vec<BoundingBox3> = Vec::new();
    let n = layer.pillars.geometries.len();
    let mut i: usize = 0;
    while i < n
        invariant
            layer.inv(),
            i <= n,
            n == layer.pillars.geometries@.len(),
            out@.len() == i as int,
            forall|b: int|
                0 <= b < i ==> #[trigger] out@[b] == layer.pillars.geometries@[
                    b
                ].spec_box().unwrap(),
            forall|b: int| 0 <= b < out@.len() ==> (#[trigger] out@[b]).wf(),
        decreases n - i,
    {
        let p = &layer.pillars.geometries[i];
        let b = match p.bounding_box() {
            Some(b) => b,
            None => {
                proof {
                    assert(false);
                }
                BoundingBox3 {
                    min: Point3 { x: 0, y: 0, z: 0 },
                    max: Point3 { x: 0, y: 0, z: 0 },
                }
            },
        };
        proof {
            p.lemma_box_wf();
        }
        out.push(b);
        i = i + 1;
    }
    proof {
        assert(out@ =~= spec_pillar_boxes(*layer));
    }
    out
}

impl Geometry for City {
    open spec fn inv(&self) -> bool {
        self.layers.inv()
    }

    open spec fn spec_box(&self) -> Option<BoundingBox3> {
        self.layers.spec_box()
    }

    /// A cell belongs to the city when any layer contains it.
    open spec fn spec_member(&self, pos: Point3) -> bool {
        self.layers.spec_member(pos)
    }

    proof fn lemma_box_wf(&self) {
        self.layers.lemma_box_wf();
    }

    fn bounding_box(&self) -> (r: Option<BoundingBox3>) {
        self.layers.bounding_box()
    }

    fn block_at(&self, pos: Point3) -> (r: bool) {
        self.layers.block_at(pos)
    }
}

impl MaterialGeometry for City {
    /// The material of the first layer that yields one, in stack order.
    open spec fn spec_material(&self, pos: Point3) -> Option<Block> {
        self.layers.spec_material(pos)
    }

    fn block_material_at(&self, pos: Point3) -> (r: Option<Block>) {
        self.layers.block_material_at(pos)
    }
}

} // verus!
