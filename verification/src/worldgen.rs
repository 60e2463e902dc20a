use vstd::prelude::*;
use crate::block::Block;
use crate::city::City;
use crate::fields::{fbm_of, FbmSampler, NOISE_ONE};
use crate::geometry::{BoundingBox2, BoundingBox3, Geometry, MaterialGeometry, Point2, Point3};
use crate::rng::RngSource;

verus! {

/// Clamps a fixed-point noise sample into one unit either way.
pub open spec fn spec_unit_clamp(n: int) -> int {
    let q = NOISE_ONE as int;
    if n < -q {
        -q
    } else if n > q {
        q
    } else {
        n
    }
}

/// The bedrock floor height at a column: the clamped noise sample shifted
/// into `[0, 5]` and lowered by sixty-four; always in `[-64, -59]`.
pub open spec fn spec_bedrock_sample(seed: u32, x: int, y: int) -> int {
    let q = NOISE_ONE as int;
    -64 + (spec_unit_clamp(fbm_of(seed, 6, x, y)) + q) * 5 / (2 * q)
}

/// The upper sea-floor height at a column; always in `[-41, -23]`.
pub open spec fn spec_ocean_floor(seed: u32, x: int, y: int) -> int {
    let q = NOISE_ONE as int;
    (4 * fbm_of(seed, 5, x, y) + 16 * q) / q - 16 - 32
}

/// The lower sea-floor height at a column; always in `[-43, -25]`.
pub open spec fn spec_ocean_deep(seed: u32, x: int, y: int) -> int {
    let q = NOISE_ONE as int;
    (4 * fbm_of(seed, 3, x, y) + 16 * q) / q - 16 - 34
}

/// What seagrass the seagrass field places at a column.
#[derive(Clone, Copy, PartialEq, Eq, Structural, Debug)]
pub enum SeagrassPresence {
    Absent,
    Short,
    Tall,
}

/// The seagrass decile at a column: the clamped noise sample shifted into
/// `[0, 200]`, folded into ten classes.
pub open spec fn spec_seagrass_decile(seed: u32, x: int, y: int) -> int {
    let q = NOISE_ONE as int;
    ((spec_unit_clamp(fbm_of(seed, 6, x, y)) + q) * 100 / q) % 10
}

pub open spec fn spec_seagrass(seed: u32, x: int, y: int) -> SeagrassPresence {
    let d = spec_seagrass_decile(seed, x, y);
    if 6 <= d <= 8 {
        SeagrassPresence::Short
    } else if d == 9 {
        SeagrassPresence::Tall
    } else {
        SeagrassPresence::Absent
    }
}

/// Clamps a fixed-point noise sample into one unit either way.
fn unit_clamp(n: i64) -> (r: i64)
    requires
        -0x90000000 <= n <= 0x90000000,
    ensures
        r as int == spec_unit_clamp(n as int),
        -0x40000000 <= r <= 0x40000000,
{
    let q: i64 = NOISE_ONE;
    if n < -q {
        -q
    } else if n > q {
        q
    } else {
        n
    }
}

/// The generator of the world's lowest rock layer: a noise-shaped floor of
/// bedrock near the bottom of the world.
pub struct Bedrock {
    pub sampler: FbmSampler,
}

impl Bedrock {
    /// The floor's noise seed.
    pub open spec fn spec_seed(&self) -> u32 {
        self.sampler.spec_seed()
    }

    pub fn new(source_rng: &mut RngSource) -> (r: Bedrock)
        ensures
            r.inv(),
    {
        Bedrock { sampler: FbmSampler::new(source_rng.next_u32(), 6) }
    }

    /// The sampled floor height at a column.
    pub fn sample(&self, pos: Point2) -> (r: i32)
        requires
            self.sampler.spec_octaves() == 6,
        ensures
            r as int == spec_bedrock_sample(self.spec_seed(), pos.x as int, pos.y as int),
            -64 <= r <= -59,
    {
        let n = self.sampler.sample_fixed(pos.x, pos.y);
        let q: i64 = NOISE_ONE;
        let c = unit_clamp(n);
        (-64 + ((c + q) * 5 / (2 * q)) as i32)
    }
}

impl Geometry for Bedrock {
    open spec fn inv(&self) -> bool {
        self.sampler.spec_octaves() == 6
    }

    open spec fn spec_box(&self) -> Option<BoundingBox3> {
        Some(
            BoundingBox3 {
                min: Point3 { x: i32::MIN, y: i32::MIN, z: -64i32 },
                max: Point3 { x: i32::MAX, y: i32::MAX, z: -60i32 },
            },
        )
    }

    /// A cell is bedrock when it lies deep enough and at or below the
    /// sampled floor height of its column.
    open spec fn spec_member(&self, pos: Point3) -> bool {
        &&& pos.z < -50
        &&& pos.z as int <= vstd::math::max(
            spec_bedrock_sample(self.spec_seed(), pos.x as int, pos.y as int),
            -64,
        )
    }

    proof fn lemma_box_wf(&self) {
    }

    fn bounding_box(&self) -> (r: Option<BoundingBox3>) {
        Some(
            BoundingBox3 {
                min: Point3 { x: i32::MIN, y: i32::MIN, z: -64 },
                max: Point3 { x: i32::MAX, y: i32::MAX, z: -60 },
            },
        )
    }

    fn block_at(&self, pos: Point3) -> (r: bool) {
        if pos.z >= -50 {
            return false;
        }
        let s = self.sample(Point2 { x: pos.x, y: pos.y });
        let m = if s > -64 {
            s
        } else {
            -64
        };
        pos.z <= m
    }
}

impl MaterialGeometry for Bedrock {
    /// A contained cell is bedrock.
    open spec fn spec_material(&self, pos: Point3) -> Option<Block> {
        if self.spec_member(pos) {
            Some(Block { base_block: "minecraft:bedrock", extra_block: None })
        } else {
            None
        }
    }

    fn block_material_at(&self, pos: Point3) -> (r: Option<Block>) {
        if self.block_at(pos) {
            Some(Block { base_block: "minecraft:bedrock", extra_block: None })
        } else {
            None
        }
    }
}

/// The ocean generator: water from sea level down to a noise-shaped sea
/// floor, a band of gravel, deepslate below, and seagrass scattered on the
/// gravel floor.
pub struct Ocean {
    pub floor_sampler: FbmSampler,
    pub deep_sampler: FbmSampler,
    pub seagrass_sampler: FbmSampler,
}

impl Ocean {
    /// The sea floor's noise seed, shared by both floor generators.
    pub open spec fn spec_seed(&self) -> u32 {
        self.floor_sampler.spec_seed()
    }

    /// The seagrass field's own seed.
    pub open spec fn spec_seagrass_seed(&self) -> u32 {
        self.seagrass_sampler.spec_seed()
    }

    pub fn new(source_rng: &mut RngSource) -> (r: Ocean)
        ensures
            r.inv(),
    {
        let seed = source_rng.next_u32();
        let seagrass_seed = source_rng.next_u32();
        Ocean {
            floor_sampler: FbmSampler::new(seed, 5),
            deep_sampler: FbmSampler::new(seed, 3),
            seagrass_sampler: FbmSampler::new(seagrass_seed, 6),
        }
    }

    /// The upper sea-floor height at a column.
    pub fn sample_ocean_floor(&self, pos: Point2) -> (r: i32)
        requires
            self.floor_sampler.spec_octaves() == 5,
        ensures
            r as int == spec_ocean_floor(self.spec_seed(), pos.x as int, pos.y as int),
            -41 <= r <= -23,
    {
        let n = self.floor_sampler.sample_fixed(pos.x, pos.y);
        let q: i64 = NOISE_ONE;
        ((4 * n + 16 * q) / q) as i32 - 16 - 32
    }

    /// The lower sea-floor height at a column.
    pub fn sample_ocean_deep(&self, pos: Point2) -> (r: i32)
        requires
            self.deep_sampler.spec_octaves() == 3,
            self.deep_sampler.spec_seed() == self.floor_sampler.spec_seed(),
        ensures
            r as int == spec_ocean_deep(self.spec_seed(), pos.x as int, pos.y as int),
            -43 <= r <= -25,
    {
        let n = self.deep_sampler.sample_fixed(pos.x, pos.y);
        let q: i64 = NOISE_ONE;
        ((4 * n + 16 * q) / q) as i32 - 16 - 34
    }

    /// The seagrass presence at a column.
    pub fn sample_seagrass(&self, pos: Point2) -> (r: SeagrassPresence)
        requires
            self.seagrass_sampler.spec_octaves() == 6,
        ensures
            r == spec_seagrass(self.spec_seagrass_seed(), pos.x as int, pos.y as int),
    {
        let n = self.seagrass_sampler.sample_fixed(pos.x, pos.y);
        let q: i64 = NOISE_ONE;
        let c = unit_clamp(n);
        let d = ((c + q) * 100 / q) % 10;
        if 6 <= d && d <= 8 {
            SeagrassPresence::Short
        } else if d == 9 {
            SeagrassPresence::Tall
        } else {
            SeagrassPresence::Absent
        }
    }

    /// The material of the ocean column at a position: nothing above sea
    /// level; at or above the sea floor, water, with seagrass on the floor
    /// where the seagrass field places it; a band of gravel between the two
    /// floor heights; deepslate below.
    pub open spec fn spec_ocean_material(&self, pos: Point3) -> Option<Block> {
        let o1 = spec_ocean_floor(self.spec_seed(), pos.x as int, pos.y as int);
        let o2 = spec_ocean_deep(self.spec_seed(), pos.x as int, pos.y as int);
        let sg = spec_seagrass(self.spec_seagrass_seed(), pos.x as int, pos.y as int);
        if pos.z > 0 {
            None
        } else if pos.z as int >= o1 {
            if sg == SeagrassPresence::Short && pos.z as int == o1 {
                Some(Block { base_block: "minecraft:seagrass", extra_block: Some("minecraft:water") })
            } else if sg == SeagrassPresence::Tall && pos.z as int == o1 {
                Some(
                    Block {
                        base_block: "minecraft:tall_seagrass[half=lower]",
                        extra_block: Some("minecraft:water"),
                    },
                )
            } else if sg == SeagrassPresence::Tall && pos.z as int == o1 + 1 {
                Some(
                    Block {
                        base_block: "minecraft:tall_seagrass[half=upper]",
                        extra_block: Some("minecraft:water"),
                    },
                )
            } else {
                Some(Block { base_block: "minecraft:water", extra_block: None })
            }
        } else if (pos.z as int) < o1 && pos.z as int >= o2 {
            Some(Block { base_block: "minecraft:gravel", extra_block: None })
        } else {
            Some(Block { base_block: "minecraft:deepslate", extra_block: None })
        }
    }
}

impl Geometry for Ocean {
    open spec fn inv(&self) -> bool {
        &&& self.floor_sampler.spec_octaves() == 5
        &&& self.deep_sampler.spec_octaves() == 3
        &&& self.deep_sampler.spec_seed() == self.floor_sampler.spec_seed()
        &&& self.seagrass_sampler.spec_octaves() == 6
    }

    open spec fn spec_box(&self) -> Option<BoundingBox3> {
        Some(
            BoundingBox3 {
                min: Point3 { x: i32::MIN, y: i32::MIN, z: -64i32 },
                max: Point3 { x: i32::MAX, y: i32::MAX, z: 0i32 },
            },
        )
    }

    /// The ocean occupies everything at or below sea level.
    open spec fn spec_member(&self, pos: Point3) -> bool {
        pos.z <= 0
    }

    proof fn lemma_box_wf(&self) {
    }

    fn bounding_box(&self) -> (r: Option<BoundingBox3>) {
        Some(
            BoundingBox3 {
                min: Point3 { x: i32::MIN, y: i32::MIN, z: -64 },
                max: Point3 { x: i32::MAX, y: i32::MAX, z: 0 },
            },
        )
    }

    fn block_at(&self, pos: Point3) -> (r: bool) {
        pos.z <= 0
    }
}

impl MaterialGeometry for Ocean {
    open spec fn spec_material(&self, pos: Point3) -> Option<Block> {
        self.spec_ocean_material(pos)
    }

    fn block_material_at(&self, pos: Point3) -> (r: Option<Block>) {
        if pos.z > 0 {
            return None;
        }
        let column = Point2 { x: pos.x, y: pos.y };
        let o1 = self.sample_ocean_floor(column);
        let o2 = self.sample_ocean_deep(column);
        if pos.z >= o1 {
            let sg = self.sample_seagrass(column);
            if sg == SeagrassPresence::Short && pos.z == o1 {
                Some(Block { base_block: "minecraft:seagrass", extra_block: Some("minecraft:water") })
            } else if sg == SeagrassPresence::Tall && pos.z == o1 {
                Some(
                    Block {
                        base_block: "minecraft:tall_seagrass[half=lower]",
                        extra_block: Some("minecraft:water"),
                    },
                )
            } else if sg == SeagrassPresence::Tall && pos.z == o1 + 1 {
                Some(
                    Block {
                        base_block: "minecraft:tall_seagrass[half=upper]",
                        extra_block: Some("minecraft:water"),
                    },
                )
            } else {
                Some(Block { base_block: "minecraft:water", extra_block: None })
            }
        } else if pos.z < o1 && pos.z >= o2 {
            Some(Block { base_block: "minecraft:gravel", extra_block: None })
        } else {
            Some(Block { base_block: "minecraft:deepslate", extra_block: None })
        }
    }
}

/// The whole world generator: bedrock, the layered city and the ocean,
/// with a bounding box clipped horizontally to the city's surroundings.
pub struct Generator {
    pub bedrock: Bedrock,
    pub city: City,
    pub ocean: Ocean,
    pub bounding_box: BoundingBox3,
}

impl Generator {
    pub open spec fn spec_wf(&self) -> bool {
        &&& self.bedrock.inv()
        &&& self.city.inv()
        &&& self.ocean.inv()
        &&& self.bounding_box.wf()
    }

    /// Builds the world for a seed: a three-layer city, bedrock and ocean,
    /// bounded horizontally one hundred and twenty-eight cells beyond the
    /// city (saturating at the coordinate limits) and vertically from the
    /// world floor up to the city's top, at least sea level.
    pub fn new(seed: u64) -> (r: Generator)
        ensures
            r.spec_wf(),
            r.city.layers.geometries@.len() == 3,
            r.city.spec_box() matches Some(cb) && {
                &&& r.bounding_box.min.x as int == vstd::math::max(
                    cb.min.x as int - 128,
                    i32::MIN as int,
                )
                &&& r.bounding_box.min.y as int == vstd::math::max(
                    cb.min.y as int - 128,
                    i32::MIN as int,
                )
                &&& r.bounding_box.min.z == -64i32
                &&& r.bounding_box.max.x as int == vstd::math::min(
                    cb.max.x as int + 128,
                    i32::MAX as int,
                )
                &&& r.bounding_box.max.y as int == vstd::math::min(
                    cb.max.y as int + 128,
                    i32::MAX as int,
                )
                &&& r.bounding_box.max.z as int == vstd::math::max(cb.max.z as int, 0)
            },
    {
        let mut source_rng = RngSource::from_seed(seed);
        let city = City::generate_new(&mut source_rng, 3);
        proof {
            crate::union::lemma_boxes_union_some(city.layers.geometries@);
        }
        let city_box = match city.bounding_box() {
            Some(b) => b,
            None => {
                proof {
                    assert(false);
                }
                BoundingBox3 {
                    min: Point3 { x: 0, y: 0, z: 0 },
                    max: Point3 { x: 0, y: 0, z: 0 },
                }
            },
        };
        proof {
            city.lemma_box_wf();
        }
        let clipped = BoundingBox2 {
            min: Point2 {
                x: if city_box.min.x >= i32::MIN + 128 {
                    city_box.min.x - 128
                } else {
                    i32::MIN
                },
                y: if city_box.min.y >= i32::MIN + 128 {
                    city_box.min.y - 128
                } else {
                    i32::MIN
                },
            },
            max: Point2 {
                x: if city_box.max.x <= i32::MAX - 128 {
                    city_box.max.x + 128
                } else {
                    i32::MAX
                },
                y: if city_box.max.y <= i32::MAX - 128 {
                    city_box.max.y + 128
                } else {
                    i32::MAX
                },
            },
        };
        let mut source_rng = RngSource::from_seed(seed);
        let bedrock = Bedrock::new(&mut source_rng);
        let ocean = Ocean::new(&mut source_rng);
        let world_box = BoundingBox3 {
            min: Point3 { x: clipped.min.x, y: clipped.min.y, z: -64 },
            max: Point3 {
                x: clipped.max.x,
                y: clipped.max.y,
                z: if city_box.max.z > 0 {
                    city_box.max.z
                } else {
                    0
                },
            },
        };
        Generator { bedrock, city, ocean, bounding_box: world_box }
    }

    /// Whether the sixteen-wide tile at the given tile coordinate touches
    /// the world's bounding box.
    pub fn chunk_exists(&self, pos: Point2) -> (r: bool)
        requires
            self.spec_wf(),
        ensures
            r == {
                let (cx0, cx1, cy0, cy1) = BoundingBox3::spec_chunk_box(pos);
                self.bounding_box.min.x <= cx1 && cx0 <= self.bounding_box.max.x
                    && self.bounding_box.min.y <= cy1 && cy0 <= self.bounding_box.max.y
            },
    {
        self.bounding_box.in_chunk(pos)
    }

    /// The block generated at a position: the first of the bedrock's, the
    /// city's and the ocean's materials, in that order.
    pub fn block_at(&self, pos: Point3) -> (r: Option<Block>)
        requires
            self.spec_wf(),
        ensures
            r == (match self.bedrock.spec_material(pos) {
                Some(b) => Some(b),
                None => match self.city.spec_material(pos) {
                    Some(b) => Some(b),
                    None => self.ocean.spec_material(pos),
                },
            }),
    {
        if let Some(b) = self.bedrock.block_material_at(pos) {
            return Some(b);
        }
        if let Some(b) = self.city.block_material_at(pos) {
            return Some(b);
        }
        self.ocean.block_material_at(pos)
    }
}


/// The absolute value of a coordinate.
fn abs_i64(v: i64) -> (r: i64)
    requires
        v > i64::MIN,
    ensures
        r as int == vstd::math::abs(v as int),
{
    if v < 0 {
        -v
    } else {
        v
    }
}

/// Steps through rings of chunk coordinates expanding out from the origin
/// until a ring is reached where no chunk touches the generator's bounding
/// box, collecting every chunk that does.  Because the touched chunks form
/// one rectangle, the rings that touch it form one contiguous range of
/// radii.
#[verifier::rlimit(50)]
pub fn create_chunk_list(generator: &Generator) -> (r: Vec<Point2>)
    requires
        generator.spec_wf(),
    ensures
        forall|i: int|
            0 <= i < r@.len() ==> {
                let (cx0, cx1, cy0, cy1) = BoundingBox3::spec_chunk_box(#[trigger] r@[i]);
                generator.bounding_box.min.x <= cx1 && cx0 <= generator.bounding_box.max.x
                    && generator.bounding_box.min.y <= cy1 && cy0 <= generator.bounding_box.max.y
            },
{
    let bb = generator.bounding_box;
    let ax0 = abs_i64(bb.min.x as i64);
    let ax1 = abs_i64(bb.max.x as i64);
    let ay0 = abs_i64(bb.min.y as i64);
    let ay1 = abs_i64(bb.max.y as i64);
    let m1 = if ax0 > ax1 {
        ax0
    } else {
        ax1
    };
    let m2 = if ay0 > ay1 {
        ay0
    } else {
        ay1
    };
    let m = if m1 > m2 {
        m1
    } else {
        m2
    };
    let bound = (m / 16 + 2) as u32;
    proof {
        vstd::arithmetic::div_mod::lemma_fundamental_div_mod(m as int, 16);
        assert(16 * (bound as int) >= m + 17);
    }
    let mut list: Vec<Point2> = Vec::new();
    let mut radius: u32 = 0;
    let mut go = true;
    while go
        invariant
            generator.spec_wf(),
            bb == generator.bounding_box,
            16 * (bound as int) >= m + 17,
            m >= 0,
            m1 >= 0,
            m2 >= 0,
            vstd::math::abs(bb.min.x as int) <= m,
            vstd::math::abs(bb.max.x as int) <= m,
            vstd::math::abs(bb.min.y as int) <= m,
            vstd::math::abs(bb.max.y as int) <= m,
            bound <= 0x8000002,
            radius <= bound + 1,
            forall|i: int|
                0 <= i < list@.len() ==> {
                    let (cx0, cx1, cy0, cy1) = BoundingBox3::spec_chunk_box(#[trigger] list@[i]);
                    bb.min.x <= cx1 && cx0 <= bb.max.x && bb.min.y <= cy1 && cy0 <= bb.max.y
                },
        decreases bound + 1 - radius, (if go {
            1int
        } else {
            0int
        }),
    {
        let ring_positions = crate::util::ring(radius);
        let mut touched = false;
        let n = ring_positions.len();
        let mut i: usize = 0;
        while i < n
            invariant
                generator.spec_wf(),
                bb == generator.bounding_box,
                i <= n,
                n == ring_positions@.len(),
                forall|k: int|
                    0 <= k < ring_positions@.len() ==> crate::util::spec_chebyshev(
                        #[trigger] ring_positions@[k],
                    ) == radius as int,
                touched ==> exists|k: int|
                    0 <= k < ring_positions@.len() && {
                        let (cx0, cx1, cy0, cy1) = BoundingBox3::spec_chunk_box(
                            #[trigger] ring_positions@[k],
                        );
                        bb.min.x <= cx1 && cx0 <= bb.max.x && bb.min.y <= cy1 && cy0 <= bb.max.y
                    },
                forall|j: int|
                    0 <= j < list@.len() ==> {
                        let (cx0, cx1, cy0, cy1) = BoundingBox3::spec_chunk_box(
                            #[trigger] list@[j],
                        );
                        bb.min.x <= cx1 && cx0 <= bb.max.x && bb.min.y <= cy1 && cy0 <= bb.max.y
                    },
            decreases n - i,
        {
            let chunk_pos = ring_positions[i];
            if generator.chunk_exists(chunk_pos) {
                list.push(chunk_pos);
                touched = true;
            }
            i = i + 1;
        }
        if touched {
            proof {
                let k = choose|k: int|
                    0 <= k < ring_positions@.len() && {
                        let (cx0, cx1, cy0, cy1) = BoundingBox3::spec_chunk_box(
                            #[trigger] ring_positions@[k],
                        );
                        bb.min.x <= cx1 && cx0 <= bb.max.x && bb.min.y <= cy1 && cy0 <= bb.max.y
                    };
                let c = ring_positions@[k];
                assert(16 * (c.x as int) <= bb.max.x as int && bb.min.x as int <= 16 * (c.x as int)
                    + 15);
                assert(16 * (c.y as int) <= bb.max.y as int && bb.min.y as int <= 16 * (c.y as int)
                    + 15);
                assert(vstd::math::abs(c.x as int) as int * 16 <= m + 15);
                assert(vstd::math::abs(c.y as int) as int * 16 <= m + 15);
                assert(vstd::math::abs(c.x as int) as int <= bound as int) by (nonlinear_arith)
                    requires
                        vstd::math::abs(c.x as int) as int * 16 <= m + 15,
                        16 * (bound as int) >= m + 17,
                ;
                assert(vstd::math::abs(c.y as int) as int <= bound as int) by (nonlinear_arith)
                    requires
                        vstd::math::abs(c.y as int) as int * 16 <= m + 15,
                        16 * (bound as int) >= m + 17,
                ;
                assert(radius <= bound);
            }
            radius = radius + 1;
        } else {
            go = false;
        }
    }
    list
}

} // verus!
