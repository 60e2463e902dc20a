use kettenkrad::block::Block;
use kettenkrad::geometry::{BoundingBox2, BoundingBox3, Geometry, MaterialGeometry, Point2, Point3};
use kettenkrad::intersection::Intersect;
use kettenkrad::limit_bounds::LimitBounds;
use kettenkrad::mask::Mask;
use kettenkrad::materialize::Materialize;
use kettenkrad::union::Union;
use kettenkrad::describe::{materialize_blocks, BlockCollector, GeometryDescriber, GeometryMaterializer, GeometryReceiverMasked};
use kettenkrad::union_threaded::UnionThreaded;

fn b3(x0: i32, y0: i32, z0: i32, x1: i32, y1: i32, z1: i32) -> BoundingBox3 {
    BoundingBox3::new(Point3::new(x0, y0, z0), Point3::new(x1, y1, z1))
}

fn b2(x0: i32, y0: i32, x1: i32, y1: i32) -> BoundingBox2 {
    BoundingBox2::new(Point2::new(x0, y0), Point2::new(x1, y1))
}

#[test]
fn union_and_intersect_are_commutative_and_associative() {
    let a = b3(0, 0, 0, 4, 4, 4);
    let b = b3(2, -1, 1, 6, 3, 9);
    let c = b3(-5, 2, 2, 3, 8, 3);
    assert_eq!(a.union(b), b.union(a));
    assert_eq!(a.union(b).union(c), a.union(b.union(c)));
    assert_eq!(a.intersect(b), b.intersect(a));
    let left = a.intersect(b).and_then(|ab| ab.intersect(c));
    let right = b.intersect(c).and_then(|bc| a.intersect(bc));
    assert_eq!(left, right);

    let a2 = b2(0, 0, 4, 4);
    let bb2 = b2(2, -1, 6, 3);
    assert_eq!(a2.union(bb2), bb2.union(a2));
    assert_eq!(a2.intersect(bb2), bb2.intersect(a2));
}

#[test]
fn intersect_with_itself_returns_itself() {
    let a = b3(1, 2, 3, 7, 8, 9);
    assert_eq!(a.intersect(a), Some(a));
    let a2 = b2(1, 2, 7, 8);
    assert_eq!(a2.intersect(a2), Some(a2));
}

#[test]
fn overlap_test_is_symmetric() {
    let a = b3(0, 0, 0, 4, 4, 4);
    let b = b3(3, 3, 3, 9, 9, 9);
    let c = b3(10, 10, 10, 12, 12, 12);
    assert_eq!(a.intersects_with(b), b.intersects_with(a));
    assert_eq!(a.intersects_with(c), c.intersects_with(a));
    assert!(a.intersects_with(b));
    assert!(!a.intersects_with(c));
}

#[test]
fn try_union_treats_missing_as_neutral() {
    let a = b3(0, 0, 0, 1, 1, 1);
    assert_eq!(BoundingBox3::try_union(None, None), None);
    assert_eq!(BoundingBox3::try_union(Some(a), None), Some(a));
    assert_eq!(BoundingBox3::try_union(None, Some(a)), Some(a));
}

#[test]
fn new_sorts_corners() {
    let a = BoundingBox3::new(Point3::new(5, -2, 9), Point3::new(-1, 4, 3));
    assert_eq!(a.min, Point3::new(-1, -2, 3));
    assert_eq!(a.max, Point3::new(5, 4, 9));
}

#[test]
fn box_membership_is_inclusive() {
    let a = b3(0, 0, 0, 2, 2, 2);
    assert!(a.contains(Point3::new(0, 0, 0)));
    assert!(a.contains(Point3::new(2, 2, 2)));
    assert!(!a.contains(Point3::new(3, 2, 2)));
}

#[test]
fn union_contains_iff_some_child_contains() {
    let a = b3(0, 0, 0, 2, 2, 2);
    let b = b3(10, 10, 10, 12, 12, 12);
    let u = Union::new(vec![a, b]);
    let inside_a = Point3::new(1, 1, 1);
    let inside_b = Point3::new(11, 11, 11);
    let outside = Point3::new(5, 5, 5);
    assert_eq!(u.block_at(inside_a), a.block_at(inside_a) || b.block_at(inside_a));
    assert!(u.block_at(inside_a));
    assert!(u.block_at(inside_b));
    assert!(!u.block_at(outside));
    assert_eq!(u.bounding_box(), Some(a.union(b)));
}

#[test]
fn intersect_contains_iff_both_children_contain() {
    let a = b3(0, 0, 0, 4, 4, 4);
    let b = b3(2, 2, 2, 6, 6, 6);
    let i = Intersect::new(a, b);
    assert!(i.block_at(Point3::new(3, 3, 3)));
    assert!(!i.block_at(Point3::new(1, 1, 1)));
    assert!(!i.block_at(Point3::new(5, 5, 5)));
    // the advertised box is a deliberate over-approximation: the union
    assert_eq!(i.bounding_box(), Some(a.union(b)));
}

#[test]
fn intersect_material_needs_second_child() {
    let a = Materialize::new(Block::new("minecraft:gravel", None), b3(0, 0, 0, 4, 4, 4));
    let b = b3(2, 2, 2, 6, 6, 6);
    let i = Intersect::new(a, b);
    assert_eq!(
        i.block_material_at(Point3::new(3, 3, 3)),
        Some(Block::new("minecraft:gravel", None))
    );
    assert_eq!(i.block_material_at(Point3::new(1, 1, 1)), None);
}

#[test]
fn union_material_takes_first_child_in_declaration_order() {
    let first = Materialize::new(Block::new("minecraft:gravel", None), b3(0, 0, 0, 4, 4, 4));
    let second = Materialize::new(Block::new("minecraft:deepslate", None), b3(2, 2, 2, 6, 6, 6));
    let u = Union::new(vec![first, second]);
    assert_eq!(
        u.block_material_at(Point3::new(3, 3, 3)),
        Some(Block::new("minecraft:gravel", None))
    );
    assert_eq!(
        u.block_material_at(Point3::new(5, 5, 5)),
        Some(Block::new("minecraft:deepslate", None))
    );
    assert_eq!(u.block_material_at(Point3::new(9, 9, 9)), None);
}

#[test]
fn mask_restricts_membership_and_crops_box() {
    let inner = b3(0, 0, 0, 10, 10, 10);
    let mask = b3(5, 5, 5, 20, 20, 20);
    let m = Mask::new(inner, mask);
    assert!(m.block_at(Point3::new(7, 7, 7)));
    assert!(!m.block_at(Point3::new(2, 2, 2)));
    assert!(!m.block_at(Point3::new(15, 15, 15)));
    assert_eq!(m.bounding_box(), Some(b3(5, 5, 5, 10, 10, 10)));
}

#[test]
fn limit_bounds_clips_only_the_advertised_box() {
    let inner = b3(-100, -100, 0, 100, 100, 5);
    let limited = LimitBounds::new(inner, Point2::new(-10, -10), Point2::new(10, 10));
    // the advertised box is cropped horizontally
    assert_eq!(limited.bounding_box(), Some(b3(-10, -10, 0, 10, 10, 5)));
    // but point queries outside the rectangle still defer to the inner geometry
    assert!(limited.block_at(Point3::new(50, 50, 3)));
    assert!(!limited.block_at(Point3::new(50, 50, 9)));
}

#[test]
fn union_threaded_caches_box_and_keeps_declaration_order() {
    let first = Materialize::new(Block::new("minecraft:water", None), b3(0, 0, 0, 4, 4, 4));
    let second = Materialize::new(Block::new("minecraft:gravel", None), b3(2, 2, 2, 6, 6, 6));
    let u = UnionThreaded::new(vec![first, second]);
    assert_eq!(u.bounding_box(), Some(b3(0, 0, 0, 6, 6, 6)));
    assert_eq!(
        u.block_material_at(Point3::new(3, 3, 3)),
        Some(Block::new("minecraft:water", None))
    );
    assert!(u.block_at(Point3::new(1, 1, 1)));
    assert!(!u.block_at(Point3::new(9, 9, 9)));
    let empty: UnionThreaded<BoundingBox3> = UnionThreaded::new(Vec::new());
    assert_eq!(empty.bounding_box(), None);
    assert!(!empty.block_at(Point3::new(0, 0, 0)));
}

#[test]
fn chunk_membership() {
    let a = b3(0, 0, 0, 40, 40, 10);
    assert!(a.in_chunk(Point2::new(0, 0)));
    assert!(a.in_chunk(Point2::new(2, 2)));
    assert!(!a.in_chunk(Point2::new(3, 0)));
    assert!(!a.in_chunk(Point2::new(-1, 0)));
    let edge = b3(-1, -1, 0, 0, 0, 0);
    assert!(edge.in_chunk(Point2::new(-1, -1)));
    assert!(edge.in_chunk(Point2::new(0, 0)));
}

#[test]
fn crop_and_truncate_and_extend() {
    let a = b3(0, 0, 5, 10, 10, 9);
    assert_eq!(a.truncate(), b2(0, 0, 10, 10));
    assert_eq!(a.crop(b2(5, 5, 20, 20)), Some(b3(5, 5, 5, 10, 10, 9)));
    assert_eq!(a.crop(b2(50, 50, 60, 60)), None);
    assert_eq!(b2(1, 2, 3, 4).extend(9, -1), b3(1, 2, -1, 3, 4, 9));
}

#[test]
fn materializer_lists_exactly_the_material_points() {
    let g = Materialize::new(Block::new("minecraft:gravel", None), b3(0, 0, 0, 1, 1, 1));
    let blocks = materialize_blocks(&g);
    assert_eq!(blocks.len(), 8);
    for (pos, block) in &blocks {
        assert_eq!(*block, Block::new("minecraft:gravel", None));
        assert_eq!(g.block_material_at(*pos), Some(*block));
    }
    // vertical-major order: the whole lower level comes first
    assert!(blocks[..4].iter().all(|(p, _)| p.z == 0));
    assert!(blocks[4..].iter().all(|(p, _)| p.z == 1));
}

#[test]
fn masked_receiver_filters_deliveries() {
    let g = Materialize::new(Block::new("minecraft:water", None), b3(0, 0, 0, 3, 0, 0));
    let mask = b3(1, 0, 0, 2, 0, 0);
    let mut sink = GeometryReceiverMasked::new(BlockCollector::new(), mask);
    GeometryMaterializer::new(g).describe(&mut sink);
    let xs: Vec<i32> = sink.receiver.blocks.iter().map(|(p, _)| p.x).collect();
    assert_eq!(xs, vec![1, 2]);
}
