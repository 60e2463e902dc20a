use kettenkrad::geometry::Point2;
use kettenkrad::landmass_shape::{LandmassCell, LandmassShape};
use std::collections::{HashSet, VecDeque};

fn collect_cells(shape: &LandmassShape) -> Vec<(i32, i32, LandmassCell)> {
    let mn = shape.min();
    let mx = shape.max();
    let mut out = Vec::new();
    for y in mn.y..=mx.y {
        for x in mn.x..=mx.x {
            if let Some(c) = shape.sample(Point2::new(x, y)) {
                out.push((x, y, c));
            }
        }
    }
    out
}

#[test]
fn discovery_is_deterministic() {
    let a = LandmassShape::new_with_resolution(7, 16, 1);
    let b = LandmassShape::new_with_resolution(7, 16, 1);
    assert_eq!(a.min(), b.min());
    assert_eq!(a.max(), b.max());
    assert_eq!(collect_cells(&a), collect_cells(&b));
}

#[test]
fn end_to_end_shape_has_one_rim_and_interior() {
    let shape = LandmassShape::new_with_resolution(12345, 48, 1);
    let cells = collect_cells(&shape);
    let edges: Vec<(i32, i32)> = cells
        .iter()
        .filter(|(_, _, c)| c.edge)
        .map(|(x, y, _)| (*x, *y))
        .collect();
    let present_count = cells.iter().filter(|(_, _, c)| !c.edge).count();
    assert!(present_count > 0);
    assert!(!edges.is_empty());

    // the rim forms a single eight-connected component
    let edge_set: HashSet<(i32, i32)> = edges.iter().copied().collect();
    let mut seen: HashSet<(i32, i32)> = HashSet::new();
    let mut queue = VecDeque::new();
    queue.push_back(edges[0]);
    seen.insert(edges[0]);
    while let Some((x, y)) = queue.pop_front() {
        for dx in -1..=1 {
            for dy in -1..=1 {
                if dx == 0 && dy == 0 {
                    continue;
                }
                let n = (x + dx, y + dy);
                if edge_set.contains(&n) && !seen.contains(&n) {
                    seen.insert(n);
                    queue.push_back(n);
                }
            }
        }
    }
    assert_eq!(seen.len(), edge_set.len());
}

#[test]
fn end_to_end_rerun_is_bit_identical() {
    // the same seed and size yield an identical grid
    let first = LandmassShape::new_with_resolution(12345, 48, 1);
    let again = LandmassShape::new_with_resolution(12345, 48, 1);
    assert_eq!(first.min(), again.min());
    assert_eq!(first.max(), again.max());
    assert_eq!(collect_cells(&first), collect_cells(&again));
}

#[test]
fn rim_cells_have_zero_distance_and_live_neighbours() {
    let shape = LandmassShape::new_with_resolution(99, 32, 1);
    let cells = collect_cells(&shape);
    let mut saw_edge = false;
    for (x, y, c) in &cells {
        if c.edge {
            saw_edge = true;
            assert_eq!(c.edge_distance, 0);
            // every rim cell touches the shape: some eight-neighbour is covered
            let mut has_live_neighbour = false;
            for dx in -1..=1i32 {
                for dy in -1..=1i32 {
                    if dx == 0 && dy == 0 {
                        continue;
                    }
                    if shape.sample(Point2::new(x + dx, y + dy)).is_some() {
                        has_live_neighbour = true;
                    }
                }
            }
            assert!(has_live_neighbour);
        }
    }
    assert!(saw_edge);
}

#[test]
fn edge_distance_changes_by_at_most_one_between_neighbours() {
    let shape = LandmassShape::new_with_resolution(4242, 32, 1);
    let cells = collect_cells(&shape);
    for (x, y, c) in &cells {
        for (dx, dy) in [(1, 0), (0, 1)] {
            if let Some(n) = shape.sample(Point2::new(x + dx, y + dy)) {
                let a = c.edge_distance as i64;
                let b = n.edge_distance as i64;
                assert!((a - b).abs() <= 1);
            }
        }
    }
}

#[test]
fn interior_ordering_values_are_in_range() {
    let shape = LandmassShape::new_with_resolution(5, 24, 1);
    for (_, _, c) in collect_cells(&shape) {
        assert!((c.ordering as u64) < 0x100000000u64);
    }
}

#[test]
fn mount_points_sit_at_target_distance_and_are_sparse() {
    let shape = LandmassShape::new_with_resolution(31337, 32, 1);
    let target = 4;
    let spacing = 8;
    let points = shape.generate_mount_points(target, spacing);
    let cells = collect_cells(&shape);
    let candidates = cells.iter().filter(|(_, _, c)| c.edge_distance == target).count();
    assert!(points.len() <= candidates / spacing + 1);
    for p in &points {
        let c = shape.sample(*p).expect("mount point must be on the shape");
        assert_eq!(c.edge_distance, target);
    }
    assert!(!points.is_empty() || candidates == 0);
    // pairwise distinct, in non-decreasing perimeter ordering
    for i in 0..points.len() {
        for j in (i + 1)..points.len() {
            assert_ne!(points[i], points[j]);
        }
    }
    let orderings: Vec<usize> = points
        .iter()
        .map(|p| shape.sample(*p).unwrap().ordering)
        .collect();
    for w in orderings.windows(2) {
        assert!(w[0] <= w[1]);
    }
}
