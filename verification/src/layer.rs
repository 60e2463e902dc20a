use vstd::prelude::*;
use crate::block::Block;
use crate::building::Building;
use crate::geometry::{BoundingBox3, Geometry, MaterialGeometry, Point2, Point3};
use crate::landmass_shape::{
    in_rect,
    on_halo,
    rects_overlap,
    shape_wf,
    BuildingShape,
    LandmassShape,
    PILLAR_EDGE_DISTANCE,
};
use crate::pillar::Pillar;
use crate::rng::RngSource;
use crate::union::Union;
use crate::union_threaded::UnionThreaded;

verus! {

/// How many cells thick a landmass slab complex is.
pub const LANDMASS_THICKNESS: u32 = 5;

/// The radius of the support pillars under a layer.
pub const PILLAR_RADIUS: i32 = 3;

/// Whether a cell belongs to the sparse checker lattice that fills a
/// landmass between its slabs.
pub open spec fn spec_checkered(size: u32, pos: Point2) -> bool {
    let s = size as int + 1;
    let xp = pos.x as int % (2 * s);
    let yp = pos.y as int % (2 * s);
    (xp == 0 && yp == 0) || (xp == s && yp == s)
}

/// Euclidean remainder.
fn rem_euclid_i32(v: i32, m: i32) -> (r: i32)
    requires
        0 < m <= 0x10000,
    ensures
        r as int == (v as int) % (m as int),
{
    if v >= 0 {
        v % m
    } else {
        let neg = -(v as i64);
        let a = (neg % m as i64) as i32;
        proof {
            let q = (neg as int) / (m as int);
            vstd::arithmetic::div_mod::lemma_fundamental_div_mod(neg as int, m as int);
            assert(v as int == (-q) * (m as int) + (-(a as int)) + 0 * 0) by (nonlinear_arith)
                requires
                    neg as int == (m as int) * q + (a as int),
                    v as int == -(neg as int),
            ;
            assert(v as int == (-q - 1) * (m as int) + ((m as int) - (a as int)))
                by (nonlinear_arith)
                requires
                    neg as int == (m as int) * q + (a as int),
                    v as int == -(neg as int),
            ;
            if a == 0 {
                vstd::arithmetic::div_mod::lemma_fundamental_div_mod_converse(
                    v as int,
                    m as int,
                    -q,
                    0,
                );
            } else {
                vstd::arithmetic::div_mod::lemma_fundamental_div_mod_converse(
                    v as int,
                    m as int,
                    -q - 1,
                    m - a,
                );
            }
        }
        if a == 0 {
            0
        } else {
            m - a
        }
    }
}

/// Samples the sparse checker lattice used to fill a landmass.
pub fn sample_checkered(size: u32, pos: Point2) -> (r: bool)
    requires
        size <= 0x1000,
    ensures
        r == spec_checkered(size, pos),
{
    let s = (size + 1) as i32;
    let xp = rem_euclid_i32(pos.x, s * 2);
    let yp = rem_euclid_i32(pos.y, s * 2);
    (xp == 0 && yp == 0) || (xp - s == 0 && yp - s == 0)
}

/// A landmass: the discovered shape extruded into a slab complex, with a
/// solid floor and ceiling and a sparse checker lattice between, denser at
/// the rim.
pub struct Landmass {
    pub shape: LandmassShape,
    pub level: i32,
}

impl Landmass {
    pub open spec fn spec_wf(&self) -> bool {
        &&& self.shape.wf()
        &&& -0x1000000 <= self.level <= 0x1000000
        &&& -0x400000 <= self.shape.spec_min().0 <= self.shape.spec_max().0 <= 0x400000
        &&& -0x400000 <= self.shape.spec_min().1 <= self.shape.spec_max().1 <= 0x400000
    }

    /// The level of the upper slab.
    pub open spec fn spec_max_z(&self) -> int {
        self.level as int
    }

    /// The level of the lower slab.
    pub open spec fn spec_min_z(&self) -> int {
        self.level - LANDMASS_THICKNESS + 1
    }

    /// Derives a landmass from a fresh seed drawn from the source.
    pub fn generate_new(source_rng: &mut RngSource, level: i32, size: u32) -> (r: Landmass)
        requires
            1 <= size,
            (size as int + 2) * 128 <= 0x400000,
            -0x1000000 <= level <= 0x1000000,
        ensures
            r.spec_wf(),
            r.level == level,
            r.shape.spec_size() == size,
    {
        let seed = source_rng.next_u32();
        let shape = LandmassShape::new(seed, size);
        proof {
            shape.lemma_grid_bounds_ordered();
            shape.lemma_bounds_range();
        }
        Landmass { shape, level }
    }
}

impl Geometry for Landmass {
    open spec fn inv(&self) -> bool {
        self.spec_wf()
    }

    open spec fn spec_box(&self) -> Option<BoundingBox3> {
        Some(
            BoundingBox3 {
                min: Point3 {
                    x: self.shape.spec_min().0 as i32,
                    y: self.shape.spec_min().1 as i32,
                    z: self.spec_min_z() as i32,
                },
                max: Point3 {
                    x: self.shape.spec_max().0 as i32,
                    y: self.shape.spec_max().1 as i32,
                    z: self.spec_max_z() as i32,
                },
            },
        )
    }

    /// A cell belongs to the landmass when its column belongs to the shape
    /// and it is on a slab, or between the slabs on the checker lattice or
    /// over a rim column.
    open spec fn spec_member(&self, pos: Point3) -> bool {
        &&& self.shape.spec_cell(pos.x as int, pos.y as int) is Some
        &&& {
            ||| pos.z == self.spec_min_z()
            ||| pos.z == self.spec_max_z()
            ||| (self.spec_min_z() < pos.z < self.spec_max_z() && (spec_checkered(
                2,
                Point2 { x: pos.x, y: pos.y },
            ) || (self.shape.spec_cell(pos.x as int, pos.y as int) matches Some(c) && c.edge)))
        }
    }

    proof fn lemma_box_wf(&self) {
    }

    fn bounding_box(&self) -> (r: Option<BoundingBox3>) {
        let mn = self.shape.min();
        let mx = self.shape.max();
        Some(
            BoundingBox3 {
                min: Point3 { x: mn.x, y: mn.y, z: self.level - LANDMASS_THICKNESS as i32 + 1 },
                max: Point3 { x: mx.x, y: mx.y, z: self.level },
            },
        )
    }

    fn block_at(&self, pos: Point3) -> (r: bool) {
        let column = Point2 { x: pos.x, y: pos.y };
        let cell = self.shape.sample(column);
        if cell.is_none() {
            return false;
        }
        let min_z = self.level - LANDMASS_THICKNESS as i32 + 1;
        let max_z = self.level;
        if pos.z == min_z || pos.z == max_z {
            return true;
        }
        if min_z < pos.z && pos.z < max_z {
            if sample_checkered(2, column) {
                return true;
            }
            return self.is_edge(cell);
        }
        false
    }
}

impl Landmass {
    /// Whether a sampled cell is a rim cell.
    fn is_edge(&self, cell: Option<crate::landmass_shape::LandmassCell>) -> (r: bool)
        ensures
            r == (cell matches Some(c) && c.edge),
    {
        match cell {
            Some(c) => c.edge,
            None => false,
        }
    }
}

impl MaterialGeometry for Landmass {
    /// A contained cell is grey concrete.
    open spec fn spec_material(&self, pos: Point3) -> Option<Block> {
        if self.spec_member(pos) {
            Some(Block { base_block: "minecraft:gray_concrete", extra_block: None })
        } else {
            None
        }
    }

    fn block_material_at(&self, pos: Point3) -> (r: Option<Block>) {
        if self.block_at(pos) {
            Some(Block { base_block: "minecraft:gray_concrete", extra_block: None })
        } else {
            None
        }
    }
}

/// One elevated city layer: a landmass, its supporting pillars, and the
/// buildings packed onto it, with a precomputed bounding box.
pub struct Layer {
    pub landmass: Landmass,
    pub pillars: Union<Pillar>,
    pub buildings: UnionThreaded<Building>,
    pub bounding_box: BoundingBox3,
}

/// The coarse packed footprint a doubled building came from.
pub open spec fn spec_coarse_footprint(b: Building) -> BuildingShape {
    BuildingShape {
        edge_min: Point2 { x: (b.edge_min.x as int / 2) as i32, y: (b.edge_min.y as int / 2) as i32 },
        edge_max: Point2 { x: (b.edge_max.x as int / 2) as i32, y: (b.edge_max.y as int / 2) as i32 },
    }
}

/// A building's wall rectangle, at fine scale.
pub open spec fn spec_fine_footprint(b: Building) -> BuildingShape {
    BuildingShape { edge_min: b.edge_min, edge_max: b.edge_max }
}

/// Two buildings' open interiors share a column: some cell lies strictly
/// inside both wall rectangles.
pub open spec fn building_interiors_overlap(a: Building, b: Building) -> bool {
    crate::landmass_shape::interiors_overlap(spec_fine_footprint(a), spec_fine_footprint(b))
}

/// A fine cell strictly inside a doubled rectangle has its coarse cell
/// inside the coarse rectangle.
proof fn lemma_fine_interior_to_coarse(lo: int, hi: int, v: int)
    requires
        2 * lo < v < 2 * hi,
    ensures
        lo <= v / 2 <= hi,
{
    vstd::arithmetic::div_mod::lemma_fundamental_div_mod_converse(2 * lo + 1, 2, lo, 1);
    vstd::arithmetic::div_mod::lemma_div_is_ordered(2 * lo + 1, v, 2);
    vstd::arithmetic::div_mod::lemma_fundamental_div_mod_converse(2 * hi - 1, 2, hi - 1, 1);
    vstd::arithmetic::div_mod::lemma_div_is_ordered(v, 2 * hi - 1, 2);
}

/// A doubled building's coarse footprint is the footprint it came from.
proof fn lemma_halved_footprint(sa: BuildingShape, a: Building)
    requires
        a.edge_min.x as int == 2 * sa.edge_min.x,
        a.edge_min.y as int == 2 * sa.edge_min.y,
        a.edge_max.x as int == 2 * sa.edge_max.x,
        a.edge_max.y as int == 2 * sa.edge_max.y,
        -0x500000 <= sa.edge_min.x <= 0x500000,
        -0x500000 <= sa.edge_min.y <= 0x500000,
        -0x500000 <= sa.edge_max.x <= 0x500000,
        -0x500000 <= sa.edge_max.y <= 0x500000,
    ensures
        spec_coarse_footprint(a) == sa,
{
    vstd::arithmetic::div_mod::lemma_fundamental_div_mod_converse(
        2 * sa.edge_min.x,
        2,
        sa.edge_min.x as int,
        0,
    );
    vstd::arithmetic::div_mod::lemma_fundamental_div_mod_converse(
        2 * sa.edge_min.y,
        2,
        sa.edge_min.y as int,
        0,
    );
    vstd::arithmetic::div_mod::lemma_fundamental_div_mod_converse(
        2 * sa.edge_max.x,
        2,
        sa.edge_max.x as int,
        0,
    );
    vstd::arithmetic::div_mod::lemma_fundamental_div_mod_converse(
        2 * sa.edge_max.y,
        2,
        sa.edge_max.y as int,
        0,
    );
}

/// Buildings doubled from coarse footprints that share no cell have
/// disjoint open interiors.
proof fn lemma_doubled_interiors_disjoint(sa: BuildingShape, sb: BuildingShape, a: Building, b: Building)
    requires
        !rects_overlap(sa, sb),
        a.edge_min.x as int == 2 * sa.edge_min.x && a.edge_min.y as int == 2 * sa.edge_min.y,
        a.edge_max.x as int == 2 * sa.edge_max.x && a.edge_max.y as int == 2 * sa.edge_max.y,
        b.edge_min.x as int == 2 * sb.edge_min.x && b.edge_min.y as int == 2 * sb.edge_min.y,
        b.edge_max.x as int == 2 * sb.edge_max.x && b.edge_max.y as int == 2 * sb.edge_max.y,
    ensures
        !building_interiors_overlap(a, b),
{
    if building_interiors_overlap(a, b) {
        let (x, y) = choose|x: int, y: int|
            crate::landmass_shape::in_interior(spec_fine_footprint(a), x, y)
                && crate::landmass_shape::in_interior(spec_fine_footprint(b), x, y);
        lemma_fine_interior_to_coarse(sa.edge_min.x as int, sa.edge_max.x as int, x);
        lemma_fine_interior_to_coarse(sa.edge_min.y as int, sa.edge_max.y as int, y);
        lemma_fine_interior_to_coarse(sb.edge_min.x as int, sb.edge_max.x as int, x);
        lemma_fine_interior_to_coarse(sb.edge_min.y as int, sb.edge_max.y as int, y);
        assert(in_rect(sa, x / 2, y / 2) && in_rect(sb, x / 2, y / 2));
        assert(rects_overlap(sa, sb));
    }
}

impl Layer {
    /// Whether a building's box intersects any of the given boxes.
    pub open spec fn spec_collides(b: Building, boxes: Seq<BoundingBox3>) -> bool {
        exists|k: int|
            0 <= k < boxes.len() && (#[trigger] boxes[k]).spec_overlaps(b.spec_box().unwrap())
    }

    /// The buildings that survive a removal pass: exactly those of the
    /// input, in order, whose boxes intersect none of the given boxes.
    pub open spec fn spec_kept(s: Seq<Building>, boxes: Seq<BoundingBox3>) -> Seq<Building>
        decreases s.len(),
    {
        if s.len() == 0 {
            Seq::empty()
        } else {
            let rest = Self::spec_kept(s.drop_last(), boxes);
            if Self::spec_collides(s.last(), boxes) {
                rest
            } else {
                rest.push(s.last())
            }
        }
    }

    /// Generates a layer: a landmass at `top`, pillars from its mount
    /// points down to `bottom`, and buildings packed on its footprint:
    /// doubled coarse footprints whose interiors are pairwise disjoint and
    /// whose coarse cells and halos stay on the landmass.
    #[verifier::rlimit(100)]
    pub fn generate_new(source_rng: &mut RngSource, top: i32, bottom: i32, size: u32) -> (r: Layer)
        requires
            1 <= size,
            (size as int + 2) * 128 <= 0x400000,
            -0x100000 <= bottom <= top <= 0x100000,
        ensures
            r.inv(),
            r.landmass.level == top,
            r.landmass.shape.spec_size() == size,
            forall|k: int|
                0 <= k < r.pillars.geometries@.len() ==> {
                    let p = #[trigger] r.pillars.geometries@[k];
                    &&& p.radius == PILLAR_RADIUS
                    &&& p.min_height == bottom
                    &&& p.max_height == top
                    &&& (r.landmass.shape.spec_cell(p.origin.x as int, p.origin.y as int) matches
                        Some(c) && c.edge_distance == PILLAR_EDGE_DISTANCE)
                },
            forall|k: int|
                0 <= k < r.buildings.spec_geometries().len()
                    ==> (#[trigger] r.buildings.spec_geometries()[k]).level == top,
            forall|a: int, b: int|
                0 <= a < b < r.buildings.spec_geometries().len() ==> !building_interiors_overlap(
                    #[trigger] r.buildings.spec_geometries()[a],
                    #[trigger] r.buildings.spec_geometries()[b],
                ),
            forall|k: int, x: int, y: int|
                #![trigger on_halo(spec_coarse_footprint(r.buildings.spec_geometries()[k]), x, y)]
                on_halo(spec_coarse_footprint(r.buildings.spec_geometries()[k]), x, y) && 0 <= k
                    < r.buildings.spec_geometries().len() ==> r.landmass.shape.spec_coarse_cell(
                    x,
                    y,
                ),
            forall|k: int, x: int, y: int|
                #![trigger in_rect(spec_coarse_footprint(r.buildings.spec_geometries()[k]), x, y)]
                in_rect(spec_coarse_footprint(r.buildings.spec_geometries()[k]), x, y) && 0 <= k
                    < r.buildings.spec_geometries().len() ==> r.landmass.shape.spec_coarse_cell(
                    x,
                    y,
                ),
            r.bounding_box.min.x as int == r.landmass.shape.spec_min().0,
            r.bounding_box.min.y as int == r.landmass.shape.spec_min().1,
            r.bounding_box.min.z == bottom,
            r.bounding_box.max.x as int == r.landmass.shape.spec_max().0,
            r.bounding_box.max.y as int == r.landmass.shape.spec_max().1,
            r.bounding_box.max.z >= top,
            forall|k: int|
                0 <= k < r.buildings.spec_geometries().len()
                    ==> (#[trigger] r.buildings.spec_geometries()[k]).spec_top()
                    <= r.bounding_box.max.z as int,
    {
        let landmass = Landmass::generate_new(source_rng, top, size);
        let points = landmass.shape.generate_pillar_points();
        let mut pillars: Vec<Pillar> = Vec::new();
        let n = points.len();
        let mut i: usize = 0;
        while i < n
            invariant
                i <= n,
                n == points@.len(),
                landmass.spec_wf(),
                -0x100000 <= bottom <= top <= 0x100000,
                forall|k: int|
                    0 <= k < points@.len() ==> (landmass.shape.spec_cell(
                        (#[trigger] points@[k]).x as int,
                        points@[k].y as int,
                    ) matches Some(c) && c.edge_distance == PILLAR_EDGE_DISTANCE),
                forall|k: int| 0 <= k < i ==> (#[trigger] pillars@[k]).inv(),
                forall|k: int|
                    0 <= k < i ==> {
                        let p = #[trigger] pillars@[k];
                        &&& p.radius == PILLAR_RADIUS
                        &&& p.min_height == bottom
                        &&& p.max_height == top
                        &&& (landmass.shape.spec_cell(p.origin.x as int, p.origin.y as int) matches
                            Some(c) && c.edge_distance == PILLAR_EDGE_DISTANCE)
                    },
                pillars@.len() == i as int,
            decreases n - i,
        {
            let origin = points[i];
            proof {
                landmass.shape.lemma_cell_in_bounds(origin.x as int, origin.y as int);
            }
            let p = Pillar::new_bounded(origin, PILLAR_RADIUS, Some(bottom), Some(top));
            pillars.push(p);
            i = i + 1;
        }
        let mut rng = source_rng.fork();
        let shapes = landmass.shape.generate_building_shapes(&mut rng);
        let mut buildings: Vec<Building> = Vec::new();
        let m = shapes.len();
        let mut j: usize = 0;
        while j < m
            invariant
                j <= m,
                m == shapes@.len(),
                landmass.spec_wf(),
                -0x100000 <= bottom <= top <= 0x100000,
                forall|k: int|
                    0 <= k < shapes@.len() ==> {
                        let s = #[trigger] shapes@[k];
                        -0x500000 <= s.edge_min.x <= s.edge_max.x <= 0x500000 && -0x500000
                            <= s.edge_min.y <= s.edge_max.y <= 0x500000
                    },
                forall|k: int| 0 <= k < j ==> (#[trigger] buildings@[k]).inv(),
                forall|k: int|
                    0 <= k < j ==> {
                        let b = #[trigger] buildings@[k];
                        &&& b.level == top
                        &&& b.edge_min.x as int == 2 * shapes@[k].edge_min.x
                        &&& b.edge_min.y as int == 2 * shapes@[k].edge_min.y
                        &&& b.edge_max.x as int == 2 * shapes@[k].edge_max.x
                        &&& b.edge_max.y as int == 2 * shapes@[k].edge_max.y
                    },
                buildings@.len() == j as int,
            decreases m - j,
        {
            let bs = shapes[j];
            let height = rng.range_u32(1, 5);
            let b = Building::from_shape(bs, top, height);
            buildings.push(b);
            j = j + 1;
        }
        let mut buildings_max_y = top;
        let mut k: usize = 0;
        while k < buildings.len()
            invariant
                k <= buildings@.len(),
                forall|a: int| 0 <= a < buildings@.len() ==> (#[trigger] buildings@[a]).inv(),
                top <= buildings_max_y,
                buildings_max_y as int <= 0x4000000,
                -0x100000 <= top <= 0x100000,
                forall|a: int|
                    0 <= a < k ==> (#[trigger] buildings@[a]).spec_top()
                        <= buildings_max_y as int,
            decreases buildings@.len() - k,
        {
            let t = buildings[k].top();
            if t > buildings_max_y {
                buildings_max_y = t;
            }
            k = k + 1;
        }
        proof {
            landmass.shape.lemma_grid_bounds_ordered();
        }
        let mn = landmass.shape.min();
        let mx = landmass.shape.max();
        let bounding_box = BoundingBox3::new(
            Point3 { x: mn.x, y: mn.y, z: bottom },
            Point3 { x: mx.x, y: mx.y, z: buildings_max_y },
        );
        let ghost buildings_view = buildings@;
        let layer = Layer {
            landmass,
            pillars: Union::new(pillars),
            buildings: UnionThreaded::new(buildings),
            bounding_box,
        };
        proof {
            assert(layer.buildings.spec_geometries() == buildings_view);
            assert forall|a: int, b: int|
                0 <= a < b < layer.buildings.spec_geometries().len() implies !building_interiors_overlap(
                #[trigger] layer.buildings.spec_geometries()[a],
                #[trigger] layer.buildings.spec_geometries()[b],
            ) by {
                lemma_doubled_interiors_disjoint(
                    shapes@[a],
                    shapes@[b],
                    buildings_view[a],
                    buildings_view[b],
                );
            }
            assert forall|k: int, x: int, y: int|
                #![trigger on_halo(spec_coarse_footprint(layer.buildings.spec_geometries()[k]), x, y)]
                on_halo(spec_coarse_footprint(layer.buildings.spec_geometries()[k]), x, y) && 0
                    <= k < layer.buildings.spec_geometries().len() implies layer.landmass.shape.spec_coarse_cell(
                x,
                y,
            ) by {
                lemma_halved_footprint(shapes@[k], buildings_view[k]);
                assert(on_halo(shapes@[k], x, y));
            }
            assert forall|k: int, x: int, y: int|
                #![trigger in_rect(spec_coarse_footprint(layer.buildings.spec_geometries()[k]), x, y)]
                in_rect(spec_coarse_footprint(layer.buildings.spec_geometries()[k]), x, y) && 0
                    <= k < layer.buildings.spec_geometries().len() implies layer.landmass.shape.spec_coarse_cell(
                x,
                y,
            ) by {
                lemma_halved_footprint(shapes@[k], buildings_view[k]);
                assert(in_rect(shapes@[k], x, y));
            }
        }
        layer
    }

    /// Removes every building whose bounding box intersects one of the
    /// given boxes: the pillar boxes of the layer immediately above.  A
    /// one-time post-processing pass; the surviving buildings are exactly
    /// the non-colliding old ones, in order — only ever removed, never
    /// created or reordered.
    pub fn remove_buildings_colliding_with(&mut self, above: &Vec<BoundingBox3>)
        requires
            old(self).inv(),
            forall|k: int| 0 <= k < above@.len() ==> (#[trigger] above@[k]).wf(),
        ensures
            final(self).inv(),
            final(self).landmass == old(self).landmass,
            final(self).pillars == old(self).pillars,
            final(self).bounding_box == old(self).bounding_box,
            final(self).buildings.spec_geometries() == Self::spec_kept(
                old(self).buildings.spec_geometries(),
                above@,
            ),
            forall|a: int|
                0 <= a < final(self).buildings.spec_geometries().len() ==> !Self::spec_collides(
                    #[trigger] final(self).buildings.spec_geometries()[a],
                    above@,
                ),
            final(self).buildings.spec_geometries().len() <= old(
                self,
            ).buildings.spec_geometries().len(),
    {
        let mut taken: UnionThreaded<Building> = UnionThreaded::new(Vec::new());
        core::mem::swap(&mut taken, &mut self.buildings);
        let items = taken.into_geometries();

        let mut kept: Vec<Building> = Vec::new();
        let n = items.len();
        let mut i: usize = 0;
        while i < n
            invariant
                i <= n,
                n == items@.len(),
                forall|k: int| 0 <= k < items@.len() ==> (#[trigger] items@[k]).inv(),
                forall|k: int| 0 <= k < above@.len() ==> (#[trigger] above@[k]).wf(),
                forall|a: int| 0 <= a < kept@.len() ==> (#[trigger] kept@[a]).inv(),
                forall|a: int|
                    0 <= a < kept@.len() ==> !Self::spec_collides(#[trigger] kept@[a], above@),
                kept@.len() <= i as int,
                kept@ == Self::spec_kept(items@.take(i as int), above@),
            decreases n - i,
        {
            let b = items[i];
            let bbox = match b.bounding_box() {
                Some(v) => v,
                None => {
                    proof {
                        assert(false);
                    }
                    BoundingBox3 {
                        min: Point3 { x: 0, y: 0, z: 0 },
                        max: Point3 { x: 0, y: 0, z: 0 },
                    }
                },
            };
            let mut hit = false;
            let m = above.len();
            let mut k: usize = 0;
            while k < m
                invariant
                    k <= m,
                    m == above@.len(),
                    b.inv(),
                    bbox == b.spec_box().unwrap(),
                    bbox.wf(),
                    forall|k2: int| 0 <= k2 < above@.len() ==> (#[trigger] above@[k2]).wf(),
                    hit == exists|k2: int|
                        0 <= k2 < k && (#[trigger] above@[k2]).spec_overlaps(bbox),
                decreases m - k,
            {
                if above[k].intersects_with(bbox) {
                    proof {
                        assert(above@[k as int].spec_overlaps(bbox));
                    }
                    hit = true;
                }
                k = k + 1;
            }
            proof {
                let t = items@.take(i as int + 1);
                assert(t.drop_last() =~= items@.take(i as int));
                assert(t.last() == items@[i as int]);
                assert(hit == Self::spec_collides(items@[i as int], above@));
            }
            if !hit {
                kept.push(b);
            }
            i = i + 1;
        }
        proof {
            assert(items@.take(n as int) =~= items@);
        }
        self.buildings = UnionThreaded::new(kept);
    }
}

impl Geometry for Layer {
    open spec fn inv(&self) -> bool {
        &&& self.landmass.spec_wf()
        &&& self.pillars.inv()
        &&& self.buildings.inv()
        &&& self.bounding_box.wf()
    }

    open spec fn spec_box(&self) -> Option<BoundingBox3> {
        Some(self.bounding_box)
    }

    /// A cell belongs to the layer when its landmass, one of its pillars
    /// or one of its buildings contains it.
    open spec fn spec_member(&self, pos: Point3) -> bool {
        self.landmass.spec_member(pos) || self.pillars.spec_member(pos)
            || self.buildings.spec_member(pos)
    }

    proof fn lemma_box_wf(&self) {
    }

    fn bounding_box(&self) -> (r: Option<BoundingBox3>) {
        Some(self.bounding_box)
    }

    fn block_at(&self, pos: Point3) -> (r: bool) {
        self.landmass.block_at(pos) || self.pillars.block_at(pos) || self.buildings.block_at(pos)
    }
}

impl MaterialGeometry for Layer {
    /// Every contained cell of a layer is grey concrete.
    open spec fn spec_material(&self, pos: Point3) -> Option<Block> {
        if self.spec_member(pos) {
            Some(Block { base_block: "minecraft:gray_concrete", extra_block: None })
        } else {
            None
        }
    }

    fn block_material_at(&self, pos: Point3) -> (r: Option<Block>) {
        if self.block_at(pos) {
            Some(Block { base_block: "minecraft:gray_concrete", extra_block: None })
        } else {
            None
        }
    }
}

} // verus!
