use kettenkrad::building::Building;
use kettenkrad::geometry::{Geometry, Point2, Point3};
use kettenkrad::landmass_shape::{BuildingShape, LandmassShape};
use kettenkrad::pillar::Pillar;
use kettenkrad::rng::RngSource;

#[test]
fn packed_buildings_have_disjoint_interiors() {
    let shape = LandmassShape::new_with_resolution(808, 32, 1);
    let mut rng = RngSource::from_seed(11);
    let shapes = shape.generate_building_shapes(&mut rng);
    assert!(!shapes.is_empty());
    for s in &shapes {
        assert!(s.edge_min.x + 2 <= s.edge_max.x);
        assert!(s.edge_min.y + 2 <= s.edge_max.y);
    }
    for i in 0..shapes.len() {
        for j in (i + 1)..shapes.len() {
            let a = shapes[i];
            let b = shapes[j];
            let x_overlap = a.edge_min.x + 1 <= b.edge_max.x - 1 && b.edge_min.x + 1 <= a.edge_max.x - 1;
            let y_overlap = a.edge_min.y + 1 <= b.edge_max.y - 1 && b.edge_min.y + 1 <= a.edge_max.y - 1;
            assert!(!(x_overlap && y_overlap), "interiors overlap: {:?} {:?}", a, b);
        }
    }
}

#[test]
fn packed_walls_stay_on_the_footprint() {
    let shape = LandmassShape::new_with_resolution(808, 32, 1);
    let mut rng = RngSource::from_seed(11);
    let shapes = shape.generate_building_shapes(&mut rng);
    let on_footprint = |cx: i32, cy: i32| {
        shape.sample(Point2::new(2 * cx, 2 * cy)).is_some()
            && shape.sample(Point2::new(2 * cx + 1, 2 * cy)).is_some()
            && shape.sample(Point2::new(2 * cx, 2 * cy + 1)).is_some()
            && shape.sample(Point2::new(2 * cx + 1, 2 * cy + 1)).is_some()
    };
    for s in &shapes {
        for x in s.edge_min.x..=s.edge_max.x {
            for y in s.edge_min.y..=s.edge_max.y {
                let on_wall =
                    x == s.edge_min.x || x == s.edge_max.x || y == s.edge_min.y || y == s.edge_max.y;
                if on_wall {
                    assert!(on_footprint(x, y), "wall cell off the footprint: {x} {y}");
                }
            }
        }
    }
}

#[test]
fn packing_is_deterministic() {
    let shape = LandmassShape::new_with_resolution(808, 32, 1);
    let mut rng1 = RngSource::from_seed(77);
    let mut rng2 = RngSource::from_seed(77);
    let a = shape.generate_building_shapes(&mut rng1);
    let b = shape.generate_building_shapes(&mut rng2);
    assert_eq!(a, b);
}

#[test]
fn pillar_membership_is_a_disc_over_a_span() {
    let p = Pillar::new_bounded(Point2::new(10, 10), 3, Some(-5), Some(20));
    assert!(p.block_at(Point3::new(10, 10, 0)));
    assert!(p.block_at(Point3::new(13, 10, 0)));
    assert!(p.block_at(Point3::new(12, 12, 0)));
    assert!(!p.block_at(Point3::new(14, 10, 0)));
    assert!(!p.block_at(Point3::new(13, 12, 0)));
    assert!(!p.block_at(Point3::new(10, 10, 21)));
    assert!(!p.block_at(Point3::new(10, 10, -6)));
    let bb = p.bounding_box().unwrap();
    assert_eq!(bb.min, Point3::new(6, 6, -5));
    assert_eq!(bb.max, Point3::new(14, 14, 20));
}

#[test]
fn building_shell_has_lattice_walls() {
    let b = Building::from_shape(
        BuildingShape { edge_min: Point2::new(0, 0), edge_max: Point2::new(2, 2) },
        10,
        2,
    );
    assert_eq!(b.edge_min, Point2::new(0, 0));
    assert_eq!(b.edge_max, Point2::new(4, 4));
    assert_eq!(b.top(), 15);
    // corner columns are always solid within the span
    assert!(b.block_at(Point3::new(0, 0, 10)));
    assert!(b.block_at(Point3::new(4, 4, 15)));
    // interior cells are empty
    assert!(!b.block_at(Point3::new(2, 2, 12)));
    // wall cells alternate: even along-wall coordinate and even height is open
    assert!(!b.block_at(Point3::new(0, 2, 10)));
    assert!(b.block_at(Point3::new(0, 1, 10)));
    assert!(b.block_at(Point3::new(0, 2, 11)));
    // outside the vertical span nothing is present
    assert!(!b.block_at(Point3::new(0, 0, 9)));
    assert!(!b.block_at(Point3::new(0, 0, 16)));
}
