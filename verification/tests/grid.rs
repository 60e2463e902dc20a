use kettenkrad::grid::Grid;

#[test]
fn grid_1() {
    let mut grid: Grid<i32> = Grid::new();
    grid.put_expand([-1, -1], 15);
    grid.put_expand([1, 2], -15);
    grid.put_expand([0, 1], 0);

    assert_eq!(grid.get([-1, -1]), Some(&15));
    assert_eq!(grid.get([1, 2]), Some(&-15));
    assert_eq!(grid.get([0, 1]), Some(&0));

    // The expected window: three columns and four rows starting at (-1, -1),
    // holding exactly the three written cells.
    assert_eq!(grid.size(), (3, 4));
    let expected: [([isize; 2], Option<i32>); 12] = [
        ([-1, -1], Some(15)),
        ([0, -1], None),
        ([1, -1], None),
        ([-1, 0], None),
        ([0, 0], None),
        ([1, 0], None),
        ([-1, 1], None),
        ([0, 1], Some(0)),
        ([1, 1], None),
        ([-1, 2], None),
        ([0, 2], None),
        ([1, 2], Some(-15)),
    ];
    for (pos, want) in expected {
        assert_eq!(grid.get(pos).copied(), want);
    }

    assert_eq!([-1, -1], grid.min());
    assert_eq!([1, 2], grid.max());
}

#[test]
fn put_then_get_returns_written_value() {
    let mut grid: Grid<u64> = Grid::new();
    grid.put_expand([100, -200], 7);
    assert_eq!(grid.get([100, -200]), Some(&7));
    grid.put_expand([-3000, 41], 9);
    assert_eq!(grid.get([-3000, 41]), Some(&9));
    assert_eq!(grid.get([100, -200]), Some(&7));
    grid.put_expand([100, -200], 8);
    assert_eq!(grid.get([100, -200]), Some(&8));
}

#[test]
fn bounds_expand_and_never_regress() {
    let mut grid: Grid<u8> = Grid::new();
    assert_eq!(grid.min(), [0, 0]);
    assert_eq!(grid.max(), [0, 0]);
    grid.put_expand([5, 6], 1);
    assert_eq!(grid.min(), [0, 0]);
    assert_eq!(grid.max(), [5, 6]);
    grid.put_expand([-2, -4], 2);
    assert_eq!(grid.min(), [-2, -4]);
    assert_eq!(grid.max(), [5, 6]);
    // writing inside the window changes no bound
    grid.put_expand([1, 1], 3);
    assert_eq!(grid.min(), [-2, -4]);
    assert_eq!(grid.max(), [5, 6]);
    grid.remove([5, 6]);
    assert_eq!(grid.min(), [-2, -4]);
    assert_eq!(grid.max(), [5, 6]);
}

#[test]
fn enumerate_is_row_major_and_complete() {
    let mut grid: Grid<i32> = Grid::new();
    grid.put_expand([2, 0], 20);
    grid.put_expand([0, 1], 1);
    grid.put_expand([1, 0], 10);
    let cells = grid.enumerate();
    assert_eq!(cells, vec![(1, 0, 10), (2, 0, 20), (0, 1, 1)]);
}

#[test]
fn out_of_window_reads_are_empty() {
    let mut grid: Grid<i32> = Grid::new();
    grid.put_expand([1, 1], 4);
    assert_eq!(grid.get([50, 50]), None);
    assert_eq!(grid.get([-50, 0]), None);
    assert!(!grid.contains([50, 50]));
    assert!(grid.contains([1, 1]));
    assert_eq!(grid.remove([1, 1]), Some(4));
    assert_eq!(grid.get([1, 1]), None);
}

#[test]
fn put_fails_outside_window() {
    let mut grid: Grid<i32> = Grid::new();
    assert!(!grid.put([3, 3], 1));
    assert_eq!(grid.get([3, 3]), None);
    grid.expand_to_include([3, 3]);
    assert!(grid.put([3, 3], 1));
    assert_eq!(grid.get([3, 3]), Some(&1));
}

#[test]
fn boolgrid_roundtrip() {
    let mut grid = kettenkrad::boolgrid::BoolGrid::new();
    assert!(!grid.get([4, 4]));
    grid.put([4, 4], true);
    assert!(grid.get([4, 4]));
    grid.put([4, 4], false);
    assert!(!grid.get([4, 4]));
    assert_eq!(grid.min(), [0, 0]);
    assert_eq!(grid.max(), [4, 4]);
    assert_eq!(grid.size(), (5, 5));
    assert_eq!(grid.width(), 5);
    assert_eq!(grid.height(), 5);
}

#[test]
fn list_cache_deduplicates() {
    let mut cache: kettenkrad::list_cache::ListCache<u32> = kettenkrad::list_cache::ListCache::new();
    let a = cache.get_or_insert(10);
    let b = cache.get_or_insert(20);
    let a2 = cache.get_or_insert(10);
    assert_eq!(a, a2);
    assert_ne!(a, b);
    assert_eq!(cache.get(a), Some(&10));
    assert_eq!(cache.get(b), Some(&20));
}
