use kettenkrad::block::{bedrock, deepslate, gravel, water};
use kettenkrad::geometry::{Geometry, MaterialGeometry, Point2, Point3};
use kettenkrad::layer::{sample_checkered, Landmass};
use kettenkrad::landmass_shape::LandmassShape;
use kettenkrad::rng::RngSource;
use kettenkrad::util::ring;
use kettenkrad::worldgen::{Bedrock, Ocean, SeagrassPresence};

#[test]
fn bedrock_sample_stays_in_band() {
    let mut rng = RngSource::from_seed(3);
    let br = Bedrock::new(&mut rng);
    for x in -20..20 {
        for y in -20..20 {
            let s = br.sample(Point2::new(x, y));
            assert!((-64..=-59).contains(&s));
        }
    }
}

#[test]
fn bedrock_membership_follows_its_sample() {
    let mut rng = RngSource::from_seed(3);
    let br = Bedrock::new(&mut rng);
    let s = br.sample(Point2::new(5, 5));
    assert!(br.block_at(Point3::new(5, 5, s)));
    assert!(br.block_at(Point3::new(5, 5, -64)));
    assert!(!br.block_at(Point3::new(5, 5, s + 1)));
    assert!(!br.block_at(Point3::new(5, 5, -50)));
    assert_eq!(
        br.block_material_at(Point3::new(5, 5, -64)),
        Some(bedrock())
    );
    assert_eq!(br.block_material_at(Point3::new(5, 5, 0)), None);
}

#[test]
fn ocean_materials_are_layered() {
    let mut rng = RngSource::from_seed(9);
    let ocean = Ocean::new(&mut rng);
    let column = Point2::new(7, -3);
    let o1 = ocean.sample_ocean_floor(column);
    let o2 = ocean.sample_ocean_deep(column);
    assert!((-41..=-23).contains(&o1));
    assert!((-43..=-25).contains(&o2));

    // above sea level: nothing
    assert_eq!(ocean.block_material_at(Point3::new(7, -3, 1)), None);
    // at sea level: water or a seagrass plant
    let sg = ocean.sample_seagrass(column);
    let at_floor = ocean.block_material_at(Point3::new(7, -3, o1)).unwrap();
    match sg {
        SeagrassPresence::Absent => assert_eq!(at_floor, water()),
        SeagrassPresence::Short => assert_eq!(at_floor.base_block, "minecraft:seagrass"),
        SeagrassPresence::Tall => {
            assert_eq!(at_floor.base_block, "minecraft:tall_seagrass[half=lower]")
        }
    }
    assert_eq!(ocean.block_material_at(Point3::new(7, -3, 0)).is_some(), true);
    if o2 < o1 {
        assert_eq!(
            ocean.block_material_at(Point3::new(7, -3, o1 - 1)),
            Some(gravel())
        );
    }
    assert_eq!(
        ocean.block_material_at(Point3::new(7, -3, o2 - 1)),
        Some(deepslate())
    );
    // membership is everything at or below sea level
    assert!(ocean.block_at(Point3::new(7, -3, 0)));
    assert!(!ocean.block_at(Point3::new(7, -3, 1)));
}

#[test]
fn checker_lattice_repeats_every_six_cells() {
    assert!(sample_checkered(2, Point2::new(0, 0)));
    assert!(sample_checkered(2, Point2::new(6, 0)));
    assert!(sample_checkered(2, Point2::new(-6, 6)));
    assert!(sample_checkered(2, Point2::new(3, 3)));
    assert!(sample_checkered(2, Point2::new(-3, 3)));
    assert!(!sample_checkered(2, Point2::new(1, 0)));
    assert!(!sample_checkered(2, Point2::new(3, 0)));
}

#[test]
fn landmass_slabs_and_lattice() {
    let shape = LandmassShape::new_with_resolution(21, 24, 1);
    let landmass = Landmass { shape, level: 48 };
    // find a covered column
    let mn = landmass.shape.min();
    let mx = landmass.shape.max();
    let mut found = None;
    'outer: for y in mn.y..=mx.y {
        for x in mn.x..=mx.x {
            if landmass.shape.sample(Point2::new(x, y)).is_some() {
                found = Some((x, y));
                break 'outer;
            }
        }
    }
    let (x, y) = found.expect("the shape covers at least one column");
    // both slabs are solid, above and below is air
    assert!(landmass.block_at(Point3::new(x, y, 48)));
    assert!(landmass.block_at(Point3::new(x, y, 44)));
    assert!(!landmass.block_at(Point3::new(x, y, 49)));
    assert!(!landmass.block_at(Point3::new(x, y, 43)));
    // between the slabs only lattice or rim cells are solid
    let c = landmass.shape.sample(Point2::new(x, y)).unwrap();
    let mid = landmass.block_at(Point3::new(x, y, 46));
    assert_eq!(mid, sample_checkered(2, Point2::new(x, y)) || c.edge);
}

#[test]
fn ring_walks_the_square_perimeter() {
    let r0 = ring(0);
    assert_eq!(r0.len(), 1);
    assert_eq!(r0[0], Point2::new(0, 0));
    let r1 = ring(1);
    assert_eq!(r1.len(), 8);
    for p in &r1 {
        assert_eq!(p.x.abs().max(p.y.abs()), 1);
    }
    let r3 = ring(3);
    assert_eq!(r3.len(), 24);
    for p in &r3 {
        assert_eq!(p.x.abs().max(p.y.abs()), 3);
    }
}

#[test]
fn block_constants_have_their_names() {
    assert_eq!(gravel().base_block, "minecraft:gravel");
    assert_eq!(deepslate().base_block, "minecraft:deepslate");
    assert_eq!(bedrock().base_block, "minecraft:bedrock");
    assert_eq!(water().base_block, "minecraft:water");
    let s = kettenkrad::block::seagrass_short();
    assert_eq!(s.base_block, "minecraft:seagrass");
    assert_eq!(s.extra_block, Some("minecraft:water"));
    assert_eq!(
        kettenkrad::block::seagrass_tall_upper().base_block,
        "minecraft:tall_seagrass[half=upper]"
    );
    assert_eq!(
        kettenkrad::block::seagrass_tall_lower().base_block,
        "minecraft:tall_seagrass[half=lower]"
    );
    assert_eq!(
        kettenkrad::block::gray_concrete().base_block,
        "minecraft:gray_concrete"
    );
}

#[test]
fn isqrt_is_exact() {
    assert_eq!(kettenkrad::angle::isqrt64(0), 0);
    assert_eq!(kettenkrad::angle::isqrt64(1), 1);
    assert_eq!(kettenkrad::angle::isqrt64(3), 1);
    assert_eq!(kettenkrad::angle::isqrt64(4), 2);
    assert_eq!(kettenkrad::angle::isqrt64(80), 8);
    assert_eq!(kettenkrad::angle::isqrt64(81), 9);
    assert_eq!(kettenkrad::angle::isqrt64(u64::MAX), 0xFFFFFFFF);
}

#[test]
fn ring_ordering_turns_monotonically() {
    // directions at increasing angles get increasing orderings
    let east = kettenkrad::angle::ring_ordering(100, 0);
    let north_east = kettenkrad::angle::ring_ordering(100, 100);
    let north = kettenkrad::angle::ring_ordering(0, 100);
    let west = kettenkrad::angle::ring_ordering(-100, 0);
    let south = kettenkrad::angle::ring_ordering(0, -100);
    assert!(east < north_east);
    assert!(north_east < north);
    assert!(north < west);
    assert!(west < south);
    assert!(south < 0x100000000u64);
}
