use vstd::prelude::*;
use crate::angle::{spec_d2, spec_isqrt, spec_ring_dir, spec_ring_ordering, spec_weight, ORDERING_SCALE};
use crate::fields::{field_positive_at, spec_field_bound, spec_field_positive, FbmSampler, LANDMASS_OCTAVES};
use crate::geometry::Point2;
use crate::grid::Grid;
use crate::rng::RngSource;
use crate::lattice::{adj4, adj8, box_set, cardinal4, cardinal8, lemma_box_set_card};

verus! {

/// The role of a cell during landmass discovery.
#[derive(Clone, Copy, PartialEq, Eq, Structural, Debug)]
pub enum CellValue {
    /// Inside the landmass.
    Present,
    /// A negative sample adjacent to the interior; not yet classified as
    /// outer rim or hole edge.
    Boundary,
    /// On the outer rim, with its position in the perimeter walk.
    BoundaryFinal { index: usize },
}

/// The field sign, as a predicate on cells.
pub open spec fn positive_at(seed: u32, size: u32, resolution: u32, p: (int, int)) -> bool {
    spec_field_positive(seed, size, resolution, p.0, p.1)
}

/// The set of coordinates a grid holds a value at.
pub open spec fn grid_dom(g: Grid<CellValue>) -> Set<(int, int)> {
    Set::new(|p: (int, int)| g.spec_get(p.0, p.1) is Some)
}

/// The set of coordinates still waiting in the queue tail `q[head..]`.
pub open spec fn qset(q: Seq<Point2>, head: int) -> Set<(int, int)> {
    Set::new(
        |p: (int, int)|
            exists|i: int|
                head <= i < q.len() && (#[trigger] q[i]).x as int == p.0 && q[i].y as int == p.1,
    )
}

/// The cells a breadth-first pass has touched: stored cells plus queued
/// cells.
pub open spec fn seen_set(g: Grid<CellValue>, q: Seq<Point2>, head: int) -> Set<(int, int)> {
    grid_dom(g).union(qset(q, head))
}

/// Whether a cell coordinate lies in the closed square of radius `b`.
pub open spec fn in_square(p: (int, int), b: int) -> bool {
    -b <= p.0 <= b && -b <= p.1 <= b
}

/// Linear scan for a coordinate in the queue tail.
fn queue_contains(q: &Vec<Point2>, head: usize, cand: Point2) -> (r: bool)
    requires
        head <= q@.len(),
    ensures
        r == qset(q@, head as int).contains((cand.x as int, cand.y as int)),
{
    let n = q.len();
    let mut i: usize = head;
    while i < n
        invariant
            head <= i <= n,
            n == q@.len(),
            forall|j: int| head <= j < i ==> #[trigger] q@[j] != cand,
        decreases n - i,
    {
        if q[i].x == cand.x && q[i].y == cand.y {
            assert(qset(q@, head as int).contains((cand.x as int, cand.y as int)));
            return true;
        }
        i = i + 1;
    }
    assert(!qset(q@, head as int).contains((cand.x as int, cand.y as int))) by {
        if qset(q@, head as int).contains((cand.x as int, cand.y as int)) {
            let j = choose|j: int|
                head <= j < q@.len() && (#[trigger] q@[j]).x as int == cand.x as int
                    && q@[j].y as int == cand.y as int;
            assert(q@[j] == cand);
        }
    }
    false
}

/// Enqueues a candidate cell unless the grid already stores it or the queue
/// tail already holds it, and accounts for the set of touched cells.
///
/// The candidate must lie in the working square and be four-adjacent to a
/// stored `Present` cell; every property the breadth-first walks maintain
/// over the queue tail is preserved.
#[verifier::rlimit(50)]
fn enqueue_candidate(
    grid: &Grid<CellValue>,
    q: &mut Vec<Point2>,
    head: usize,
    cand: Point2,
    Ghost(bnd): Ghost<int>,
    Ghost(area): Ghost<int>,
)
    requires
        grid.wf(),
        head <= old(q)@.len(),
        3 <= bnd <= 0x1000000,
        area == (2 * bnd + 1) * (2 * bnd + 1),
        in_square((cand.x as int, cand.y as int), bnd),
        exists|x2: int, y2: int|
            adj4((cand.x as int, cand.y as int), (x2, y2)) && #[trigger] grid.spec_get(x2, y2)
                == Some(CellValue::Present),
        seen_set(*grid, old(q)@, head as int).finite(),
        seen_set(*grid, old(q)@, head as int).subset_of(box_set(-bnd, bnd + 1, -bnd, bnd + 1)),
        forall|i: int|
            0 <= i < old(q)@.len() ==> in_square(
                ((#[trigger] old(q)@[i]).x as int, old(q)@[i].y as int),
                bnd,
            ),
        forall|i: int, j: int|
            head <= i < j < old(q)@.len() ==> #[trigger] old(q)@[i] != #[trigger] old(q)@[j],
        forall|i: int|
            head <= i < old(q)@.len() ==> grid.spec_get(
                (#[trigger] old(q)@[i]).x as int,
                old(q)@[i].y as int,
            ) is None,
        forall|i: int|
            head <= i < old(q)@.len() ==> ((#[trigger] old(q)@[i]).x as int == 0
                && old(q)@[i].y as int == 0) || exists|x2: int, y2: int|
                adj4((old(q)@[i].x as int, old(q)@[i].y as int), (x2, y2))
                    && #[trigger] grid.spec_get(x2, y2) == Some(CellValue::Present),
    ensures
        head <= final(q)@.len(),
        old(q)@.len() <= final(q)@.len(),
        forall|i: int| 0 <= i < old(q)@.len() ==> final(q)@[i] == #[trigger] old(q)@[i],
        seen_set(*grid, final(q)@, head as int).finite(),
        seen_set(*grid, final(q)@, head as int).subset_of(box_set(-bnd, bnd + 1, -bnd, bnd + 1)),
        seen_set(*grid, final(q)@, head as int).len() <= area,
        seen_set(*grid, old(q)@, head as int).subset_of(seen_set(*grid, final(q)@, head as int)),
        final(q)@.len() + seen_set(*grid, old(q)@, head as int).len() == old(q)@.len() + seen_set(
            *grid,
            final(q)@,
            head as int,
        ).len(),
        grid.spec_get(cand.x as int, cand.y as int) is Some || qset(
            final(q)@,
            head as int,
        ).contains((cand.x as int, cand.y as int)),
        qset(old(q)@, head as int).subset_of(qset(final(q)@, head as int)),
        forall|p: (int, int)|
            qset(final(q)@, head as int).contains(p) ==> qset(old(q)@, head as int).contains(p) || p
                == (cand.x as int, cand.y as int),
        forall|i: int|
            0 <= i < final(q)@.len() ==> in_square(
                ((#[trigger] final(q)@[i]).x as int, final(q)@[i].y as int),
                bnd,
            ),
        forall|i: int, j: int|
            head <= i < j < final(q)@.len() ==> #[trigger] final(q)@[i] != #[trigger] final(q)@[j],
        forall|i: int|
            head <= i < final(q)@.len() ==> grid.spec_get(
                (#[trigger] final(q)@[i]).x as int,
                final(q)@[i].y as int,
            ) is None,
        forall|i: int|
            head <= i < final(q)@.len() ==> ((#[trigger] final(q)@[i]).x as int == 0
                && final(q)@[i].y as int == 0) || exists|x2: int, y2: int|
                adj4((final(q)@[i].x as int, final(q)@[i].y as int), (x2, y2))
                    && #[trigger] grid.spec_get(x2, y2) == Some(CellValue::Present),
{
    let ghost qb = q@;
    proof {
        lemma_box_set_card(-bnd, bnd + 1, -bnd, bnd + 1);
        vstd::set_lib::lemma_len_subset(
            seen_set(*grid, q@, head as int),
            box_set(-bnd, bnd + 1, -bnd, bnd + 1),
        );
        assert((2 * bnd + 1) * (2 * bnd + 1) == (bnd + 1 - (-bnd)) * (bnd + 1 - (-bnd)));
    }
    if grid.contains([cand.x as isize, cand.y as isize]) {
        return ;
    }
    if queue_contains(q, head, cand) {
        proof {
            let i = choose|i: int|
                head <= i < qb.len() && (#[trigger] qb[i]).x as int == cand.x as int
                    && qb[i].y as int == cand.y as int;
            assert(qset(q@, head as int).contains((cand.x as int, cand.y as int)));
        }
        return ;
    }
    q.push(cand);
    proof {
        lemma_qset_push(qb, head as int, cand);
        let cp = (cand.x as int, cand.y as int);
        assert(qset(q@, head as int) == qset(qb, head as int).insert(cp));
        assert(seen_set(*grid, q@, head as int) =~= seen_set(*grid, qb, head as int).insert(cp));
        assert(!seen_set(*grid, qb, head as int).contains(cp));
        assert(box_set(-bnd, bnd + 1, -bnd, bnd + 1).contains(cp));
        assert forall|p2: (int, int)|
            seen_set(*grid, q@, head as int).contains(p2) implies box_set(
            -bnd,
            bnd + 1,
            -bnd,
            bnd + 1,
        ).contains(p2) by {
            if p2 != cp {
                assert(seen_set(*grid, qb, head as int).contains(p2));
            }
        }
        lemma_box_set_card(-bnd, bnd + 1, -bnd, bnd + 1);
        vstd::set_lib::lemma_len_subset(
            seen_set(*grid, q@, head as int),
            box_set(-bnd, bnd + 1, -bnd, bnd + 1),
        );
        assert((2 * bnd + 1) * (2 * bnd + 1) == (bnd + 1 - (-bnd)) * (bnd + 1 - (-bnd)));
        assert forall|i: int|
            head <= i < q@.len() implies ((#[trigger] q@[i]).x as int == 0 && q@[i].y as int == 0)
                || exists|x2: int, y2: int|
                adj4((q@[i].x as int, q@[i].y as int), (x2, y2)) && #[trigger] grid.spec_get(
                    x2,
                    y2,
                ) == Some(CellValue::Present) by {
            if i < qb.len() {
                assert(q@[i] == qb[i]);
            } else {
                assert(q@[i] == cand);
            }
        }
    }
}

/// Pushing a cell onto the queue adds exactly that coordinate to the queue
/// tail's set.
proof fn lemma_qset_push(q: Seq<Point2>, head: int, c: Point2)
    requires
        0 <= head <= q.len(),
    ensures
        qset(q.push(c), head) == qset(q, head).insert((c.x as int, c.y as int)),
{
    let lhs = qset(q.push(c), head);
    let rhs = qset(q, head).insert((c.x as int, c.y as int));
    assert forall|p: (int, int)| lhs.contains(p) implies rhs.contains(p) by {
        let i = choose|i: int|
            head <= i < q.push(c).len() && (#[trigger] q.push(c)[i]).x as int == p.0 && q.push(
                c,
            )[i].y as int == p.1;
        if i < q.len() {
            assert(q[i] == q.push(c)[i]);
            assert(qset(q, head).contains(p));
        } else {
            assert(q.push(c)[i] == c);
        }
    }
    assert forall|p: (int, int)| rhs.contains(p) implies lhs.contains(p) by {
        if p == ((c.x as int, c.y as int)) {
            assert(q.push(c)[q.len() as int] == c);
            assert(qset(q.push(c), head).contains((c.x as int, c.y as int)));
        } else {
            let i = choose|i: int|
                head <= i < q.len() && (#[trigger] q[i]).x as int == p.0 && q[i].y as int == p.1;
            assert(q.push(c)[i] == q[i]);
        }
    }
    assert(lhs =~= rhs);
}

/// Popping the queue head moves its coordinate out of the queue tail's set,
/// provided the tail holds no duplicate of it.
proof fn lemma_qset_pop(q: Seq<Point2>, head: int)
    requires
        0 <= head < q.len(),
        forall|i: int, j: int| head <= i < j < q.len() ==> #[trigger] q[i] != #[trigger] q[j],
    ensures
        qset(q, head) == qset(q, head + 1).insert((q[head].x as int, q[head].y as int)),
        !qset(q, head + 1).contains((q[head].x as int, q[head].y as int)),
{
    let p0 = (q[head].x as int, q[head].y as int);
    assert forall|p: (int, int)| qset(q, head).contains(p) implies qset(q, head + 1).insert(
        p0,
    ).contains(p) by {
        let i = choose|i: int|
            head <= i < q.len() && (#[trigger] q[i]).x as int == p.0 && q[i].y as int == p.1;
        if i == head {
        } else {
            assert(qset(q, head + 1).contains(p));
        }
    }
    assert forall|p: (int, int)| qset(q, head + 1).insert(p0).contains(p) implies qset(
        q,
        head,
    ).contains(p) by {
        if p == p0 {
            assert(qset(q, head).contains((q[head].x as int, q[head].y as int)));
        } else {
            let i = choose|i: int|
                head + 1 <= i < q.len() && (#[trigger] q[i]).x as int == p.0 && q[i].y as int
                    == p.1;
            assert(qset(q, head).contains(p));
        }
    }
    assert(qset(q, head) =~= qset(q, head + 1).insert(p0));
    if qset(q, head + 1).contains(p0) {
        let i = choose|i: int|
            head + 1 <= i < q.len() && (#[trigger] q[i]).x as int == p0.0 && q[i].y as int == p0.1;
        assert(q[i] != q[head]);
        assert(false);
    }
}

/// The interior flood fill: breadth-first growth from the origin through
/// positive cells.  A popped positive cell is stored as `Present` and its
/// four-connected neighbours are enqueued; a popped negative cell is stored
/// as `Boundary` and not expanded.  Because growth only proceeds through
/// positive cells, the stored region is exactly the connected component of
/// positive cells reachable from the origin, rimmed by its negative
/// neighbours.
#[verifier::rlimit(100)]
fn discover_interior(seed: u32, size: u32, resolution: u32) -> (grid: Grid<CellValue>)
    requires
        1 <= size,
        1 <= resolution,
        (size as int + 2) * resolution as int <= 0x1000000,
    ensures
        grid.wf(),
        -spec_field_bound(size, resolution) <= grid.spec_min().0,
        -spec_field_bound(size, resolution) <= grid.spec_min().1,
        grid.spec_max().0 <= spec_field_bound(size, resolution),
        grid.spec_max().1 <= spec_field_bound(size, resolution),
        grid.spec_get(0, 0) is Some,
        forall|x: int, y: int|
            match #[trigger] grid.spec_get(x, y) {
                Some(v) => (v == CellValue::Present) == positive_at(seed, size, resolution, (x, y))
                    && !(v matches CellValue::BoundaryFinal { .. }),
                None => true,
            },
        forall|x: int, y: int|
            #[trigger] grid.spec_get(x, y) is Some ==> in_square(
                (x, y),
                spec_field_bound(size, resolution),
            ),
        forall|x: int, y: int, x2: int, y2: int|
            #![trigger grid.spec_get(x, y), grid.spec_get(x2, y2)]
            grid.spec_get(x, y) == Some(CellValue::Present) && adj4((x, y), (x2, y2))
                ==> grid.spec_get(x2, y2) is Some || !adj4((x, y), (x2, y2)),
        forall|x: int, y: int|
            #[trigger] grid.spec_get(x, y) == Some(CellValue::Boundary) && !(x == 0 && y == 0)
                ==> exists|x2: int, y2: int|
                adj4((x, y), (x2, y2)) && #[trigger] grid.spec_get(x2, y2) == Some(
                    CellValue::Present,
                ),
{
    let ghost bnd = spec_field_bound(size, resolution);
    let ghost area = (2 * bnd + 1) * (2 * bnd + 1);
    let sampler = FbmSampler::new(seed, LANDMASS_OCTAVES);
    let mut grid: Grid<CellValue> = Grid::new();
    let mut q: Vec<Point2> = Vec::new();
    q.push(Point2::new(0, 0));
    let mut head: usize = 0;
    proof {
        assert(3 <= bnd && bnd <= 0x1000000) by (nonlinear_arith)
            requires
                1 <= size,
                1 <= resolution,
                (size as int + 2) * resolution as int <= 0x1000000,
                bnd == (size as int + 2) * resolution as int,
        ;
        lemma_box_set_card(-bnd, bnd + 1, -bnd, bnd + 1);
        assert(q@[0] == (Point2 { x: 0, y: 0 }));
        assert(qset(q@, 0int).contains((0int, 0int)));
        assert(seen_set(grid, q@, 0int).contains((0int, 0int)));
        assert forall|p: (int, int)| seen_set(grid, q@, 0int).contains(p) implies box_set(
            -bnd,
            bnd + 1,
            -bnd,
            bnd + 1,
        ).contains(p) by {
            assert(!grid_dom(grid).contains(p));
            let i = choose|i: int|
                0 <= i < q@.len() && (#[trigger] q@[i]).x as int == p.0 && q@[i].y as int == p.1;
            assert(i == 0);
            assert(p == (0int, 0int));
        }
        vstd::set_lib::lemma_len_subset(
            seen_set(grid, q@, 0int),
            box_set(-bnd, bnd + 1, -bnd, bnd + 1),
        );
        assert((2 * bnd + 1) * (2 * bnd + 1) == (bnd + 1 - (-bnd)) * (bnd + 1 - (-bnd)));
    }
    while head < q.len()
        invariant
            1 <= size,
            1 <= resolution,
            (size as int + 2) * resolution as int <= 0x1000000,
            sampler.spec_seed() == seed,
            sampler.spec_octaves() == LANDMASS_OCTAVES,
            bnd == spec_field_bound(size, resolution),
            area == (2 * bnd + 1) * (2 * bnd + 1),
            3 <= bnd <= 0x1000000,
            grid.wf(),
            head <= q@.len(),
            -bnd <= grid.spec_min().0,
            -bnd <= grid.spec_min().1,
            grid.spec_max().0 <= bnd,
            grid.spec_max().1 <= bnd,
            forall|i: int|
                0 <= i < q@.len() ==> in_square(
                    ((#[trigger] q@[i]).x as int, q@[i].y as int),
                    bnd,
                ),
            forall|i: int, j: int| head <= i < j < q@.len() ==> #[trigger] q@[i] != #[trigger] q@[j],
            forall|i: int|
                head <= i < q@.len() ==> grid.spec_get(
                    (#[trigger] q@[i]).x as int,
                    q@[i].y as int,
                ) is None,
            forall|x: int, y: int|
                match #[trigger] grid.spec_get(x, y) {
                    Some(v) => (v == CellValue::Present) == positive_at(
                        seed,
                        size,
                        resolution,
                        (x, y),
                    ) && !(v matches CellValue::BoundaryFinal { .. }),
                    None => true,
                },
            forall|x: int, y: int|
                #[trigger] grid.spec_get(x, y) is Some ==> in_square((x, y), bnd),
            forall|x: int, y: int, x2: int, y2: int|
                #![trigger grid.spec_get(x, y), grid.spec_get(x2, y2)]
                grid.spec_get(x, y) == Some(CellValue::Present) && adj4((x, y), (x2, y2))
                    ==> grid.spec_get(x2, y2) is Some || qset(q@, head as int).contains((x2, y2))
                    || !adj4((x, y), (x2, y2)),
            forall|i: int|
                head <= i < q@.len() ==> ((#[trigger] q@[i]).x as int == 0 && q@[i].y as int == 0)
                    || exists|x2: int, y2: int|
                    adj4((q@[i].x as int, q@[i].y as int), (x2, y2)) && #[trigger] grid.spec_get(
                        x2,
                        y2,
                    ) == Some(CellValue::Present),
            forall|x: int, y: int|
                #[trigger] grid.spec_get(x, y) == Some(CellValue::Boundary) && !(x == 0 && y == 0)
                    ==> exists|x2: int, y2: int|
                    adj4((x, y), (x2, y2)) && #[trigger] grid.spec_get(x2, y2) == Some(
                        CellValue::Present,
                    ),
            seen_set(grid, q@, head as int).contains((0int, 0int)),
            seen_set(grid, q@, head as int).finite(),
            seen_set(grid, q@, head as int).len() <= area,
            seen_set(grid, q@, head as int).subset_of(box_set(-bnd, bnd + 1, -bnd, bnd + 1)),
        decreases area - seen_set(grid, q@, head as int).len(), q@.len() - head,
    {
        let ghost grid0 = grid;
        let ghost q0 = q@;
        let ghost head0 = head as int;
        let ghost seen0 = seen_set(grid, q@, head as int);
        let p = q[head];
        head = head + 1;
        proof {
            lemma_qset_pop(q0, head0);
        }
        let positive = field_positive_at(&sampler, size, resolution, p.x, p.y);
        let value = if positive {
            CellValue::Present
        } else {
            CellValue::Boundary
        };
        grid.put_expand([p.x as isize, p.y as isize], value);
        proof {
            assert(grid_dom(grid) =~= grid_dom(grid0).insert((p.x as int, p.y as int)));
            assert(seen_set(grid, q@, head as int) =~= seen_set(grid0, q0, head0));
            assert(seen_set(grid, q@, head as int).len() == seen0.len());
        }
        if positive {
            let ghost pp = (p.x as int, p.y as int);
            let ghost gridp = grid;
            let cands = cardinal4(p);
            proof {
                assert(grid.spec_get(pp.0, pp.1) == Some(CellValue::Present));
                assert(in_square(pp, bnd - 1));
            }
            let ghost qa = q@;
            enqueue_candidate(&grid, &mut q, head, cands[0], Ghost(bnd), Ghost(area));
            let ghost qb = q@;
            enqueue_candidate(&grid, &mut q, head, cands[1], Ghost(bnd), Ghost(area));
            let ghost qc = q@;
            enqueue_candidate(&grid, &mut q, head, cands[2], Ghost(bnd), Ghost(area));
            let ghost qd = q@;
            enqueue_candidate(&grid, &mut q, head, cands[3], Ghost(bnd), Ghost(area));
            proof {
                assert(grid.spec_get(cands[0].x as int, cands[0].y as int) is Some || qset(
                    q@,
                    head as int,
                ).contains((cands[0].x as int, cands[0].y as int)));
                assert(grid.spec_get(cands[1].x as int, cands[1].y as int) is Some || qset(
                    q@,
                    head as int,
                ).contains((cands[1].x as int, cands[1].y as int)));
                assert(grid.spec_get(cands[2].x as int, cands[2].y as int) is Some || qset(
                    q@,
                    head as int,
                ).contains((cands[2].x as int, cands[2].y as int)));
                assert forall|x: int, y: int, x2: int, y2: int|
                    #![trigger grid.spec_get(x, y), grid.spec_get(x2, y2)]
                    grid.spec_get(x, y) == Some(CellValue::Present) && adj4(
                        (x, y),
                        (x2, y2),
                    ) implies grid.spec_get(x2, y2) is Some || qset(q@, head as int).contains(
                    (x2, y2),
                ) || !adj4((x, y), (x2, y2)) by {
                    if adj4((x, y), (x2, y2)) && grid.spec_get(x, y) == Some(CellValue::Present)
                        && grid.spec_get(x2, y2) is None {
                        if x == pp.0 && y == pp.1 {
                            assert(cands[0].x as int == pp.0 + 1 && cands[0].y as int == pp.1);
                            assert(cands[1].x as int == pp.0 && cands[1].y as int == pp.1 + 1);
                            assert(cands[2].x as int == pp.0 - 1 && cands[2].y as int == pp.1);
                            assert(cands[3].x as int == pp.0 && cands[3].y as int == pp.1 - 1);
                            assert(qset(q@, head as int).contains((x2, y2)));
                        } else {
                            assert(qset(q0, head0).contains((x2, y2)) || (x2, y2) == pp);
                            if (x2, y2) == pp {
                                assert(false);
                            }
                            assert(qset(q0, head0 + 1).contains((x2, y2)) || (x2, y2) == (
                                p.x as int,
                                p.y as int,
                            ));
                            assert(qset(qa, head as int).contains((x2, y2)));
                            assert(qset(q@, head as int).contains((x2, y2)));
                        }
                    }
                }
            }
        } else {
            proof {
                assert((p.x as int, p.y as int) == (0int, 0int) || exists|x2: int, y2: int|
                    adj4((p.x as int, p.y as int), (x2, y2)) && #[trigger] grid.spec_get(x2, y2)
                        == Some(CellValue::Present)) by {
                    if !(p.x as int == 0 && p.y as int == 0) {
                        let (x2, y2) = choose|x2: int, y2: int|
                            adj4((p.x as int, p.y as int), (x2, y2)) && #[trigger] grid0.spec_get(
                                x2,
                                y2,
                            ) == Some(CellValue::Present);
                        assert(grid.spec_get(x2, y2) == Some(CellValue::Present));
                    }
                }
                assert forall|x: int, y: int, x2: int, y2: int|
                    #![trigger grid.spec_get(x, y), grid.spec_get(x2, y2)]
                    grid.spec_get(x, y) == Some(CellValue::Present) && adj4(
                        (x, y),
                        (x2, y2),
                    ) implies grid.spec_get(x2, y2) is Some || qset(q@, head as int).contains(
                    (x2, y2),
                ) || !adj4((x, y), (x2, y2)) by {
                    if adj4((x, y), (x2, y2)) && grid.spec_get(x, y) == Some(CellValue::Present)
                        && grid.spec_get(x2, y2) is None {
                        assert(!(x == p.x as int && y == p.y as int));
                        assert(qset(q0, head0).contains((x2, y2)));
                        assert(qset(q0, head0 + 1).contains((x2, y2)) || (x2, y2) == (
                            p.x as int,
                            p.y as int,
                        ));
                        assert(qset(q@, head as int).contains((x2, y2)));
                    }
                }
            }
        }
    }
    proof {
        assert forall|x: int, y: int, x2: int, y2: int|
            #![trigger grid.spec_get(x, y), grid.spec_get(x2, y2)]
            grid.spec_get(x, y) == Some(CellValue::Present) && adj4(
                (x, y),
                (x2, y2),
            ) implies grid.spec_get(x2, y2) is Some || !adj4((x, y), (x2, y2)) by {
            if adj4((x, y), (x2, y2)) && grid.spec_get(x, y) == Some(CellValue::Present) {
                if qset(q@, head as int).contains((x2, y2)) {
                    let i = choose|i: int|
                        head <= i < q@.len() && (#[trigger] q@[i]).x as int == x2 && q@[i].y as int
                            == y2;
                    assert(false);
                }
            }
        }
        assert(grid.spec_get(0, 0) is Some) by {
            assert(seen_set(grid, q@, head as int).contains((0int, 0int)));
            if qset(q@, head as int).contains((0int, 0int)) {
                let i = choose|i: int|
                    head <= i < q@.len() && (#[trigger] q@[i]).x as int == 0 && q@[i].y as int == 0;
                assert(false);
            }
        }
    }
    grid
}


/// The set of cells a grid currently classifies as `Boundary`.
pub open spec fn bset(g: Grid<CellValue>) -> Set<(int, int)> {
    Set::new(|p: (int, int)| g.spec_get(p.0, p.1) == Some(CellValue::Boundary))
}

/// Enqueues a candidate for the outer-rim walk if the grid currently
/// classifies it as `Boundary` and the queue tail does not yet hold it.
fn enqueue_walk_candidate(grid: &Grid<CellValue>, q: &mut Vec<Point2>, head: usize, cand: Point2)
    -> (grew: bool)
    requires
        grid.wf(),
        head <= old(q)@.len(),
        forall|i: int, j: int|
            head <= i < j < old(q)@.len() ==> #[trigger] old(q)@[i] != #[trigger] old(q)@[j],
        forall|i: int|
            head <= i < old(q)@.len() ==> grid.spec_get(
                (#[trigger] old(q)@[i]).x as int,
                old(q)@[i].y as int,
            ) == Some(CellValue::Boundary),
    ensures
        head <= final(q)@.len(),
        old(q)@.len() <= final(q)@.len(),
        forall|i: int| 0 <= i < old(q)@.len() ==> final(q)@[i] == #[trigger] old(q)@[i],
        !grew ==> final(q)@ == old(q)@,
        grew ==> final(q)@ == old(q)@.push(cand) && grid.spec_get(cand.x as int, cand.y as int)
            == Some(CellValue::Boundary),
        forall|i: int, j: int|
            head <= i < j < final(q)@.len() ==> #[trigger] final(q)@[i] != #[trigger] final(q)@[j],
        forall|i: int|
            head <= i < final(q)@.len() ==> grid.spec_get(
                (#[trigger] final(q)@[i]).x as int,
                final(q)@[i].y as int,
            ) == Some(CellValue::Boundary),
        grew == (grid.spec_get(cand.x as int, cand.y as int) == Some(CellValue::Boundary) && !qset(
            old(q)@,
            head as int,
        ).contains((cand.x as int, cand.y as int))),
{
    let here = grid.get([cand.x as isize, cand.y as isize]);
    let is_boundary = match here {
        Some(v) => *v == CellValue::Boundary,
        None => false,
    };
    if !is_boundary {
        return false;
    }
    if queue_contains(q, head, cand) {
        return false;
    }
    q.push(cand);
    proof {
        let qb = old(q)@;
        assert forall|i: int, j: int|
            head <= i < j < q@.len() implies #[trigger] q@[i] != #[trigger] q@[j] by {
            if j == qb.len() {
                assert(q@[j] == cand);
                if q@[i] == cand {
                    assert(qset(qb, head as int).contains((cand.x as int, cand.y as int)));
                }
            }
        }
    }
    true
}

/// The outer boundary walk: starting from a cell on the outer rim, an
/// eight-connected breadth-first pass over cells currently classified
/// `Boundary`, relabelling each visited cell `BoundaryFinal` with its
/// visitation index.  The walk stays on the rim: boundary cells of interior
/// holes are not eight-adjacent to it and keep their `Boundary` label.
///
/// On the very first cell the expansion stops after the first neighbour it
/// enqueues, so the walk leaves the root in a single direction.
#[verifier::rlimit(100)]
fn walk_outer(grid: &mut Grid<CellValue>, root: Point2, Ghost(bnd): Ghost<int>) -> (edges: Vec<
    Point2,
>)
    requires
        old(grid).wf(),
        3 <= bnd <= 0x400000,
        old(grid).spec_get(root.x as int, root.y as int) == Some(CellValue::Boundary),
        -bnd <= old(grid).spec_min().0,
        -bnd <= old(grid).spec_min().1,
        old(grid).spec_max().0 <= bnd,
        old(grid).spec_max().1 <= bnd,
        forall|x: int, y: int|
            !(#[trigger] old(grid).spec_get(x, y) matches Some(CellValue::BoundaryFinal { .. })),
    ensures
        final(grid).wf(),
        final(grid).spec_min() == old(grid).spec_min(),
        final(grid).spec_max() == old(grid).spec_max(),
        forall|x: int, y: int|
            (#[trigger] final(grid).spec_get(x, y) is Some) == (old(grid).spec_get(x, y) is Some),
        forall|x: int, y: int|
            (#[trigger] final(grid).spec_get(x, y) == Some(CellValue::Present)) == (old(
                grid,
            ).spec_get(x, y) == Some(CellValue::Present)),
        forall|x: int, y: int|
            #[trigger] final(grid).spec_get(x, y) == Some(CellValue::Boundary) ==> old(
                grid,
            ).spec_get(x, y) == Some(CellValue::Boundary),
        1 <= edges@.len() <= (2 * bnd + 1) * (2 * bnd + 1),
        edges@[0] == root,
        forall|j: int|
            0 <= j < edges@.len() ==> final(grid).spec_get(
                (#[trigger] edges@[j]).x as int,
                edges@[j].y as int,
            ) == Some(CellValue::BoundaryFinal { index: j as usize }) && old(grid).spec_get(
                edges@[j].x as int,
                edges@[j].y as int,
            ) == Some(CellValue::Boundary),
        forall|x: int, y: int|
            #[trigger] final(grid).spec_get(x, y) matches Some(CellValue::BoundaryFinal { index })
                ==> index < edges@.len() && edges@[index as int].x as int == x && edges@[
                index as int
            ].y as int == y,
        forall|i: int, j: int|
            0 <= i < j < edges@.len() ==> #[trigger] edges@[i] != #[trigger] edges@[j],
        forall|j: int|
            #![trigger edges@[j]]
            1 <= j < edges@.len() ==> exists|j2: int|
                0 <= j2 < j && adj8(pt(edges@[j]), pt(#[trigger] edges@[j2])),
{
    let ghost grid0 = *grid;
    let ghost area = (2 * bnd + 1) * (2 * bnd + 1);
    let mut edges: Vec<Point2> = Vec::new();
    let mut q: Vec<Point2> = Vec::new();
    q.push(root);
    let mut head: usize = 0;
    proof {
        lemma_box_set_card(-bnd, bnd + 1, -bnd, bnd + 1);
        assert forall|p: (int, int)| bset(*grid).contains(p) implies box_set(
            -bnd,
            bnd + 1,
            -bnd,
            bnd + 1,
        ).contains(p) by {
            assert(grid.spec_get(p.0, p.1) is Some);
            grid.lemma_get_in_bounds(p.0, p.1);
        }
        vstd::set_lib::lemma_len_subset(bset(*grid), box_set(-bnd, bnd + 1, -bnd, bnd + 1));
        assert((2 * bnd + 1) * (2 * bnd + 1) == (bnd + 1 - (-bnd)) * (bnd + 1 - (-bnd)));
        assert(q@[0] == root);
    }
    while head < q.len()
        invariant
            grid.wf(),
            3 <= bnd <= 0x400000,
            area == (2 * bnd + 1) * (2 * bnd + 1),
            head <= q@.len(),
            grid.spec_min() == grid0.spec_min(),
            grid.spec_max() == grid0.spec_max(),
            -bnd <= grid.spec_min().0,
            -bnd <= grid.spec_min().1,
            grid.spec_max().0 <= bnd,
            grid.spec_max().1 <= bnd,
            forall|x: int, y: int|
                (#[trigger] grid.spec_get(x, y) is Some) == (grid0.spec_get(x, y) is Some),
            forall|x: int, y: int|
                (#[trigger] grid.spec_get(x, y) == Some(CellValue::Present)) == (grid0.spec_get(
                    x,
                    y,
                ) == Some(CellValue::Present)),
            forall|x: int, y: int|
                #[trigger] grid.spec_get(x, y) == Some(CellValue::Boundary) ==> grid0.spec_get(
                    x,
                    y,
                ) == Some(CellValue::Boundary),
            forall|j: int|
                0 <= j < edges@.len() ==> grid.spec_get(
                    (#[trigger] edges@[j]).x as int,
                    edges@[j].y as int,
                ) == Some(CellValue::BoundaryFinal { index: j as usize }) && grid0.spec_get(
                    edges@[j].x as int,
                    edges@[j].y as int,
                ) == Some(CellValue::Boundary),
            forall|x: int, y: int|
                #[trigger] grid.spec_get(x, y) matches Some(CellValue::BoundaryFinal { index })
                    ==> index < edges@.len() && edges@[index as int].x as int == x && edges@[
                    index as int
                ].y as int == y,
            forall|i: int, j: int|
                0 <= i < j < edges@.len() ==> #[trigger] edges@[i] != #[trigger] edges@[j],
            forall|i: int, j: int| head <= i < j < q@.len() ==> #[trigger] q@[i] != #[trigger] q@[j],
            forall|i: int|
                head <= i < q@.len() ==> grid.spec_get(
                    (#[trigger] q@[i]).x as int,
                    q@[i].y as int,
                ) == Some(CellValue::Boundary),
            forall|j: int|
                #![trigger edges@[j]]
                1 <= j < edges@.len() ==> exists|j2: int|
                    0 <= j2 < j && adj8(pt(edges@[j]), pt(#[trigger] edges@[j2])),
            forall|i: int|
                head <= i < q@.len() ==> (#[trigger] q@[i]) == root || exists|j: int|
                    0 <= j < edges@.len() && adj8(pt(q@[i]), pt(#[trigger] edges@[j])),
            bset(*grid).finite(),
            bset(*grid).len() + edges@.len() <= area,
            head == 0 ==> q@.len() == 1 && q@[0] == root && edges@.len() == 0,
            head > 0 ==> edges@.len() >= 1 && edges@[0] == root,
        decreases bset(*grid).len(),
    {
        let ghost gridb = *grid;
        let p = q[head];
        head = head + 1;
        let idx = edges.len();
        proof {
            assert(bset(*grid).contains((p.x as int, p.y as int)));
            assert(idx < area);
            grid.lemma_get_in_bounds(p.x as int, p.y as int);
        }
        let ok = grid.put([p.x as isize, p.y as isize], CellValue::BoundaryFinal { index: idx });
        proof {
            assert(ok);
            assert(bset(*grid) =~= bset(gridb).remove((p.x as int, p.y as int)));
        }
        let ghost edges0 = edges@;
        edges.push(p);
        proof {
            assert forall|j: int|
                #![trigger edges@[j]]
                1 <= j < edges@.len() implies exists|j2: int|
                0 <= j2 < j && adj8(pt(edges@[j]), pt(#[trigger] edges@[j2])) by {
                if j < edges0.len() {
                    let j2 = choose|j2: int|
                        0 <= j2 < j && adj8(pt(edges0[j]), pt(#[trigger] edges0[j2]));
                    assert(edges@[j] == edges0[j] && edges@[j2] == edges0[j2]);
                } else {
                    assert(edges@[j] == p && j == idx);
                    assert(p != root) by {
                        assert(gridb.spec_get(p.x as int, p.y as int) == Some(CellValue::Boundary));
                        if p == root {
                            assert(head - 1 > 0) by {
                                if head - 1 == 0 {
                                    assert(edges0.len() == 0);
                                    assert(idx >= 1);
                                }
                            }
                            assert(gridb.spec_get(root.x as int, root.y as int) == Some(
                                CellValue::BoundaryFinal { index: 0 },
                            ));
                        }
                    }
                    let j2 = choose|j2: int|
                        0 <= j2 < edges0.len() && adj8(pt(p), pt(#[trigger] edges0[j2]));
                    assert(edges@[j2] == edges0[j2]);
                }
            }
            assert forall|i: int|
                head <= i < q@.len() implies (#[trigger] q@[i]) == root || exists|j: int|
                0 <= j < edges@.len() && adj8(pt(q@[i]), pt(#[trigger] edges@[j])) by {
                if q@[i] != root {
                    let j = choose|j: int|
                        0 <= j < edges0.len() && adj8(pt(q@[i]), pt(#[trigger] edges0[j]));
                    assert(edges@[j] == edges0[j]);
                }
            }
        }
        let cands = cardinal8(p);
        let mut ci: usize = 0;
        let mut pushed = false;
        while ci < 8 && !(pushed && idx == 0)
            invariant
                grid.wf(),
                head <= q@.len(),
                ci <= 8,
                idx < edges@.len(),
                edges@[idx as int] == p,
                forall|i: int|
                    0 <= i < 8 ==> adj8(
                        (p.x as int, p.y as int),
                        ((#[trigger] cands[i]).x as int, cands[i].y as int),
                    ),
                forall|i: int, j: int|
                    head <= i < j < q@.len() ==> #[trigger] q@[i] != #[trigger] q@[j],
                forall|i: int|
                    head <= i < q@.len() ==> grid.spec_get(
                        (#[trigger] q@[i]).x as int,
                        q@[i].y as int,
                    ) == Some(CellValue::Boundary),
                forall|i: int|
                    head <= i < q@.len() ==> (#[trigger] q@[i]) == root || exists|j: int|
                        0 <= j < edges@.len() && adj8(pt(q@[i]), pt(#[trigger] edges@[j])),
            decreases 8 - ci,
        {
            let ghost qb2 = q@;
            let grew = enqueue_walk_candidate(grid, &mut q, head, cands[ci]);
            proof {
                assert forall|i: int|
                    head <= i < q@.len() implies (#[trigger] q@[i]) == root || exists|j: int|
                    0 <= j < edges@.len() && adj8(pt(q@[i]), pt(#[trigger] edges@[j])) by {
                    if i < qb2.len() {
                        assert(q@[i] == qb2[i]);
                        if qb2[i] != root {
                            let j = choose|j: int|
                                0 <= j < edges@.len() && adj8(pt(qb2[i]), pt(#[trigger] edges@[j]));
                        }
                    } else {
                        assert(q@[i] == cands[ci as int]);
                        assert(adj8(
                            (p.x as int, p.y as int),
                            (cands[ci as int].x as int, cands[ci as int].y as int),
                        ));
                        assert(adj8(pt(q@[i]), pt(edges@[idx as int])));
                    }
                }
            }
            if grew {
                pushed = true;
            }
            ci = ci + 1;
        }
    }
    proof {
        assert(head > 0) by {
            assert(head >= q@.len());
        }
    }
    edges
}


/// Enqueues a candidate for the hole fill if it lies inside the working
/// window, is still unknown, and the queue tail does not yet hold it.
#[verifier::rlimit(50)]
fn enqueue_fill_candidate(
    grid: &Grid<CellValue>,
    q: &mut Vec<Point2>,
    head: usize,
    cand: Point2,
    Ghost(bnd): Ghost<int>,
    Ghost(area): Ghost<int>,
)
    requires
        grid.wf(),
        head <= old(q)@.len(),
        3 <= bnd <= 0x400000,
        area == (2 * bnd + 1) * (2 * bnd + 1),
        -bnd <= grid.spec_min().0,
        -bnd <= grid.spec_min().1,
        grid.spec_max().0 <= bnd,
        grid.spec_max().1 <= bnd,
        seen_set(*grid, old(q)@, head as int).finite(),
        seen_set(*grid, old(q)@, head as int).subset_of(box_set(-bnd, bnd + 1, -bnd, bnd + 1)),
        forall|i: int, j: int|
            head <= i < j < old(q)@.len() ==> #[trigger] old(q)@[i] != #[trigger] old(q)@[j],
        forall|i: int|
            head <= i < old(q)@.len() ==> grid.spec_in_bounds(
                (#[trigger] old(q)@[i]).x as int,
                old(q)@[i].y as int,
            ) && !(grid.spec_get(old(q)@[i].x as int, old(q)@[i].y as int) matches Some(
                CellValue::Present,
            )) && !(grid.spec_get(old(q)@[i].x as int, old(q)@[i].y as int) matches Some(
                CellValue::BoundaryFinal { .. },
            )),
    ensures
        head <= final(q)@.len(),
        old(q)@.len() <= final(q)@.len(),
        forall|i: int| 0 <= i < old(q)@.len() ==> final(q)@[i] == #[trigger] old(q)@[i],
        seen_set(*grid, final(q)@, head as int).finite(),
        seen_set(*grid, final(q)@, head as int).subset_of(box_set(-bnd, bnd + 1, -bnd, bnd + 1)),
        seen_set(*grid, final(q)@, head as int).len() <= area,
        seen_set(*grid, old(q)@, head as int).subset_of(seen_set(*grid, final(q)@, head as int)),
        final(q)@.len() + seen_set(*grid, old(q)@, head as int).len() == old(q)@.len() + seen_set(
            *grid,
            final(q)@,
            head as int,
        ).len(),
        forall|p: (int, int)|
            qset(final(q)@, head as int).contains(p) ==> qset(old(q)@, head as int).contains(p) || p
                == (cand.x as int, cand.y as int),
        forall|i: int, j: int|
            head <= i < j < final(q)@.len() ==> #[trigger] final(q)@[i] != #[trigger] final(q)@[j],
        forall|i: int|
            head <= i < final(q)@.len() ==> grid.spec_in_bounds(
                (#[trigger] final(q)@[i]).x as int,
                final(q)@[i].y as int,
            ) && !(grid.spec_get(final(q)@[i].x as int, final(q)@[i].y as int) matches Some(
                CellValue::Present,
            )) && !(grid.spec_get(final(q)@[i].x as int, final(q)@[i].y as int) matches Some(
                CellValue::BoundaryFinal { .. },
            )),
{
    let ghost qb = q@;
    proof {
        lemma_box_set_card(-bnd, bnd + 1, -bnd, bnd + 1);
        vstd::set_lib::lemma_len_subset(
            seen_set(*grid, q@, head as int),
            box_set(-bnd, bnd + 1, -bnd, bnd + 1),
        );
        assert((2 * bnd + 1) * (2 * bnd + 1) == (bnd + 1 - (-bnd)) * (bnd + 1 - (-bnd)));
    }
    let mn = grid.min();
    let mx = grid.max();
    let cx = cand.x as isize;
    let cy = cand.y as isize;
    if cx < mn[0] || cx > mx[0] || cy < mn[1] || cy > mx[1] {
        return ;
    }
    if grid.contains([cx, cy]) {
        return ;
    }
    if queue_contains(q, head, cand) {
        return ;
    }
    q.push(cand);
    proof {
        lemma_qset_push(qb, head as int, cand);
        let cp = (cand.x as int, cand.y as int);
        assert(qset(q@, head as int) == qset(qb, head as int).insert(cp));
        assert(seen_set(*grid, q@, head as int) =~= seen_set(*grid, qb, head as int).insert(cp));
        assert(!seen_set(*grid, qb, head as int).contains(cp));
        assert(box_set(-bnd, bnd + 1, -bnd, bnd + 1).contains(cp));
        assert forall|p2: (int, int)|
            seen_set(*grid, q@, head as int).contains(p2) implies box_set(
            -bnd,
            bnd + 1,
            -bnd,
            bnd + 1,
        ).contains(p2) by {
            if p2 != cp {
                assert(seen_set(*grid, qb, head as int).contains(p2));
            }
        }
        vstd::set_lib::lemma_len_subset(
            seen_set(*grid, q@, head as int),
            box_set(-bnd, bnd + 1, -bnd, bnd + 1),
        );
    }
}

/// The hole fill: every cell still classified `Boundary` after the outer
/// walk borders an interior hole; a breadth-first fill from all of them
/// through unknown cells inside the working window relabels everything
/// reached to `Present`, removing the holes the field would otherwise punch
/// into the shape.
#[verifier::rlimit(100)]
fn fill_holes(grid: &mut Grid<CellValue>, seeds: Vec<Point2>, Ghost(bnd): Ghost<int>)
    requires
        old(grid).wf(),
        3 <= bnd <= 0x400000,
        -bnd <= old(grid).spec_min().0,
        -bnd <= old(grid).spec_min().1,
        old(grid).spec_max().0 <= bnd,
        old(grid).spec_max().1 <= bnd,
        forall|i: int, j: int|
            0 <= i < j < seeds@.len() ==> #[trigger] seeds@[i] != #[trigger] seeds@[j],
        forall|i: int|
            0 <= i < seeds@.len() ==> old(grid).spec_get(
                (#[trigger] seeds@[i]).x as int,
                seeds@[i].y as int,
            ) == Some(CellValue::Boundary),
        forall|x: int, y: int|
            #[trigger] old(grid).spec_get(x, y) == Some(CellValue::Boundary) ==> qset(
                seeds@,
                0,
            ).contains((x, y)),
    ensures
        final(grid).wf(),
        final(grid).spec_min() == old(grid).spec_min(),
        final(grid).spec_max() == old(grid).spec_max(),
        forall|x: int, y: int|
            old(grid).spec_get(x, y) == Some(CellValue::Present)
                ==> #[trigger] final(grid).spec_get(x, y) == Some(CellValue::Present),
        forall|x: int, y: int|
            #[trigger] final(grid).spec_get(x, y) matches Some(CellValue::BoundaryFinal { .. })
                ==> final(grid).spec_get(x, y) == old(grid).spec_get(x, y),
        forall|x: int, y: int|
            #[trigger] old(grid).spec_get(x, y) matches Some(CellValue::BoundaryFinal { .. })
                ==> final(grid).spec_get(x, y) == old(grid).spec_get(x, y),
        forall|x: int, y: int|
            #[trigger] old(grid).spec_get(x, y) is Some ==> final(grid).spec_get(x, y) is Some,
        forall|x: int, y: int|
            !(#[trigger] final(grid).spec_get(x, y) matches Some(CellValue::Boundary)),
{
    let ghost grid0 = *grid;
    let ghost area = (2 * bnd + 1) * (2 * bnd + 1);
    let mut q = seeds;
    let mut head: usize = 0;
    proof {
        lemma_box_set_card(-bnd, bnd + 1, -bnd, bnd + 1);
        assert forall|p: (int, int)| seen_set(*grid, q@, 0int).contains(p) implies box_set(
            -bnd,
            bnd + 1,
            -bnd,
            bnd + 1,
        ).contains(p) by {
            if grid_dom(*grid).contains(p) {
                grid.lemma_get_in_bounds(p.0, p.1);
            } else {
                let i = choose|i: int|
                    0 <= i < q@.len() && (#[trigger] q@[i]).x as int == p.0 && q@[i].y as int
                        == p.1;
                grid.lemma_get_in_bounds(p.0, p.1);
            }
        }
        vstd::set_lib::lemma_len_subset(
            seen_set(*grid, q@, 0int),
            box_set(-bnd, bnd + 1, -bnd, bnd + 1),
        );
        assert((2 * bnd + 1) * (2 * bnd + 1) == (bnd + 1 - (-bnd)) * (bnd + 1 - (-bnd)));
        assert forall|i: int|
            0 <= i < q@.len() implies grid.spec_in_bounds(
            (#[trigger] q@[i]).x as int,
            q@[i].y as int,
        ) by {
            grid.lemma_get_in_bounds(q@[i].x as int, q@[i].y as int);
        }
    }
    while head < q.len()
        invariant
            grid.wf(),
            3 <= bnd <= 0x400000,
            area == (2 * bnd + 1) * (2 * bnd + 1),
            head <= q@.len(),
            grid.spec_min() == grid0.spec_min(),
            grid.spec_max() == grid0.spec_max(),
            -bnd <= grid.spec_min().0,
            -bnd <= grid.spec_min().1,
            grid.spec_max().0 <= bnd,
            grid.spec_max().1 <= bnd,
            forall|x: int, y: int|
                grid0.spec_get(x, y) == Some(CellValue::Present) ==> #[trigger] grid.spec_get(x, y)
                    == Some(CellValue::Present),
            forall|x: int, y: int|
                #[trigger] grid.spec_get(x, y) matches Some(CellValue::BoundaryFinal { .. })
                    ==> grid.spec_get(x, y) == grid0.spec_get(x, y),
            forall|x: int, y: int|
                #[trigger] grid0.spec_get(x, y) matches Some(CellValue::BoundaryFinal { .. })
                    ==> grid.spec_get(x, y) == grid0.spec_get(x, y),
            forall|x: int, y: int|
                #[trigger] grid0.spec_get(x, y) is Some ==> grid.spec_get(x, y) is Some,
            forall|x: int, y: int|
                #[trigger] grid.spec_get(x, y) == Some(CellValue::Boundary) ==> qset(
                    q@,
                    head as int,
                ).contains((x, y)),
            forall|i: int, j: int| head <= i < j < q@.len() ==> #[trigger] q@[i] != #[trigger] q@[j],
            forall|i: int|
                head <= i < q@.len() ==> grid.spec_in_bounds(
                    (#[trigger] q@[i]).x as int,
                    q@[i].y as int,
                ) && !(grid.spec_get(q@[i].x as int, q@[i].y as int) matches Some(
                    CellValue::Present,
                )) && !(grid.spec_get(q@[i].x as int, q@[i].y as int) matches Some(
                    CellValue::BoundaryFinal { .. },
                )),
            seen_set(*grid, q@, head as int).finite(),
            seen_set(*grid, q@, head as int).len() <= area,
            seen_set(*grid, q@, head as int).subset_of(box_set(-bnd, bnd + 1, -bnd, bnd + 1)),
        decreases area - seen_set(*grid, q@, head as int).len(), q@.len() - head,
    {
        let ghost gridb = *grid;
        let ghost q0 = q@;
        let ghost head0 = head as int;
        let ghost seen0 = seen_set(*grid, q@, head as int);
        let p = q[head];
        head = head + 1;
        proof {
            lemma_qset_pop(q0, head0);
        }
        let ok = grid.put([p.x as isize, p.y as isize], CellValue::Present);
        proof {
            assert(ok);
            assert(grid_dom(*grid) =~= grid_dom(gridb).insert((p.x as int, p.y as int)));
            assert(seen_set(*grid, q@, head as int) =~= seen_set(gridb, q0, head0));
            assert(seen_set(*grid, q@, head as int).len() == seen0.len());
            assert forall|x: int, y: int|
                #[trigger] grid.spec_get(x, y) == Some(CellValue::Boundary) implies qset(
                q@,
                head as int,
            ).contains((x, y)) by {
                if grid.spec_get(x, y) == Some(CellValue::Boundary) {
                    assert(!(x == p.x as int && y == p.y as int));
                    assert(gridb.spec_get(x, y) == Some(CellValue::Boundary));
                    assert(qset(q0, head0).contains((x, y)));
                }
            }
        }
        let cands = cardinal4(p);
        let ghost qa = q@;
        enqueue_fill_candidate(&grid, &mut q, head, cands[0], Ghost(bnd), Ghost(area));
        enqueue_fill_candidate(&grid, &mut q, head, cands[1], Ghost(bnd), Ghost(area));
        enqueue_fill_candidate(&grid, &mut q, head, cands[2], Ghost(bnd), Ghost(area));
        enqueue_fill_candidate(&grid, &mut q, head, cands[3], Ghost(bnd), Ghost(area));
        proof {
            assert forall|x: int, y: int|
                #[trigger] grid.spec_get(x, y) == Some(CellValue::Boundary) implies qset(
                q@,
                head as int,
            ).contains((x, y)) by {
                if grid.spec_get(x, y) == Some(CellValue::Boundary) {
                    assert(qset(qa, head as int).contains((x, y)));
                    assert(qset(qa, head as int).subset_of(qset(q@, head as int))) by {
                        assert(seen_set(*grid, qa, head as int).subset_of(
                            seen_set(*grid, q@, head as int),
                        ));
                        assert forall|p3: (int, int)|
                            qset(qa, head as int).contains(p3) implies qset(
                            q@,
                            head as int,
                        ).contains(p3) by {
                            let i = choose|i: int|
                                head <= i < qa.len() && (#[trigger] qa[i]).x as int == p3.0 && qa[
                                    i
                                ].y as int == p3.1;
                            assert(q@[i] == qa[i]);
                        }
                    }
                }
            }
        }
    }
    proof {
        assert forall|x: int, y: int|
            !(#[trigger] grid.spec_get(x, y) matches Some(CellValue::Boundary)) by {
            if grid.spec_get(x, y) == Some(CellValue::Boundary) {
                let i = choose|i: int|
                    head <= i < q@.len() && (#[trigger] q@[i]).x as int == x && q@[i].y as int == y;
                assert(false);
            }
        }
    }
}


/// A derived landmass cell: how far along the perimeter the cell sits, how
/// far inside the shape it lies, and whether it is on the outer rim.
#[derive(Clone, Copy, PartialEq, Eq, Structural, Debug)]
pub struct LandmassCell {
    /// An ordering value relating to the cell's position along the edge of
    /// the shape; nearby cells have similar values.
    pub ordering: usize,
    /// The floored Euclidean distance to the nearest outer-rim cell.
    pub edge_distance: usize,
    /// Whether the cell is itself on the outer rim.
    pub edge: bool,
}

impl LandmassCell {
    pub fn new(ordering: usize, edge_distance: usize, edge: bool) -> (r: Self)
        ensures
            r == (LandmassCell { ordering, edge_distance, edge }),
    {
        LandmassCell { ordering, edge_distance, edge }
    }
}

/// A cell coordinate as a pair of integers.
pub open spec fn pt(p: Point2) -> (int, int) {
    (p.x as int, p.y as int)
}

/// The smallest squared distance from `p` to any cell of `edges`.
pub open spec fn spec_min_d2(edges: Seq<Point2>, p: (int, int)) -> int
    decreases edges.len(),
{
    if edges.len() == 0 {
        0int
    } else if edges.len() == 1 {
        spec_d2(pt(edges[0]), p)
    } else {
        vstd::math::min(spec_min_d2(edges.drop_last(), p), spec_d2(pt(edges.last()), p))
    }
}

/// The inverse-distance-weighted sum of the rim cells' perimeter
/// directions, as seen from `p`: rim cell `j` contributes the direction
/// standing for perimeter fraction `j / count`, scaled by the weight of its
/// squared distance to `p`.
pub open spec fn spec_dir_sum(edges: Seq<Point2>, count: int, p: (int, int)) -> (int, int)
    decreases edges.len(),
{
    if edges.len() == 0 {
        (0int, 0int)
    } else {
        let rest = spec_dir_sum(edges.drop_last(), count, p);
        let j = edges.len() - 1;
        let dir = spec_ring_dir(j as int, count);
        let w = spec_weight(spec_d2(pt(edges.last()), p));
        (rest.0 + dir.0 * w, rest.1 + dir.1 * w)
    }
}

/// The ordering of an interior cell: the perimeter position of the negated
/// weighted direction sum, so that nearby rim cells dominate the answer.
pub open spec fn spec_present_ordering(edges: Seq<Point2>, p: (int, int)) -> int {
    let s = spec_dir_sum(edges, edges.len() as int, p);
    spec_ring_ordering(-s.0, -s.1)
}

/// The edge distance of an interior cell: the floored Euclidean distance to
/// the nearest rim cell.
pub open spec fn spec_edge_distance(edges: Seq<Point2>, p: (int, int)) -> int {
    spec_isqrt(spec_min_d2(edges, p))
}

/// The ordering of the rim cell with walk index `j`: its exact fraction of
/// the full walk, scaled to [`ORDERING_SCALE`].
pub open spec fn spec_rim_ordering(j: int, count: int) -> int {
    j * (ORDERING_SCALE as int) / count
}

/// The perimeter direction of every rim index, computed once: rim cell `j`
/// always contributes the direction for fraction `j / count`, whatever the
/// queried cell.
fn rim_directions(count: usize) -> (dirs: Vec<(i32, i32)>)
    requires
        1 <= count <= 0x1000000000000,
    ensures
        dirs@.len() == count as int,
        forall|j: int|
            0 <= j < count as int ==> ((#[trigger] dirs@[j]).0 as int, dirs@[j].1 as int)
                == spec_ring_dir(j, count as int) && -256 <= dirs@[j].0 <= 256 && -256
                <= dirs@[j].1 <= 256,
{
    let mut dirs: Vec<(i32, i32)> = Vec::new();
    let mut j: usize = 0;
    while j < count
        invariant
            1 <= count <= 0x1000000000000,
            j <= count,
            dirs@.len() == j as int,
            forall|k: int|
                0 <= k < j as int ==> ((#[trigger] dirs@[k]).0 as int, dirs@[k].1 as int)
                    == spec_ring_dir(k, count as int) && -256 <= dirs@[k].0 <= 256 && -256
                    <= dirs@[k].1 <= 256,
        decreases count - j,
    {
        let dir = crate::angle::ring_dir(j as u64, count as u64);
        dirs.push(dir);
        j = j + 1;
    }
    dirs
}

/// Computes `(ordering, edge distance)` for one interior cell from the
/// ordered rim and its precomputed perimeter directions.
#[verifier::rlimit(100)]
fn present_cell_values(edges: &Vec<Point2>, dirs: &Vec<(i32, i32)>, p: Point2) -> (r: (u64, u64))
    requires
        1 <= edges@.len() <= 0x1000000000000,
        forall|i: int| 0 <= i < edges@.len() ==> in_square(pt(#[trigger] edges@[i]), 0x800000),
        in_square(pt(p), 0x800000),
        dirs@.len() == edges@.len(),
        forall|j: int|
            0 <= j < edges@.len() ==> ((#[trigger] dirs@[j]).0 as int, dirs@[j].1 as int)
                == spec_ring_dir(j, edges@.len() as int) && -256 <= dirs@[j].0 <= 256 && -256
                <= dirs@[j].1 <= 256,
    ensures
        r.0 as int == spec_present_ordering(edges@, pt(p)),
        r.0 < ORDERING_SCALE,
        r.1 as int == spec_edge_distance(edges@, pt(p)),
        r.1 <= 0xFFFFFFFF,
{
    let n = edges.len();
    let mut sx: i128 = 0;
    let mut sy: i128 = 0;
    let mut min_d2: u64 = crate::angle::dist2(edges[0].x, edges[0].y, p.x, p.y);
    let mut j: usize = 0;
    proof {
        assert(edges@.take(1).drop_last() =~= edges@.take(0));
        assert(edges@.take(0) =~= Seq::<Point2>::empty());
    }
    while j < n
        invariant
            1 <= n <= 0x1000000000000,
            n == edges@.len(),
            j <= n,
            forall|i: int| 0 <= i < edges@.len() ==> in_square(pt(#[trigger] edges@[i]), 0x800000),
            in_square(pt(p), 0x800000),
            dirs@.len() == edges@.len(),
            forall|k: int|
                0 <= k < edges@.len() ==> ((#[trigger] dirs@[k]).0 as int, dirs@[k].1 as int)
                    == spec_ring_dir(k, edges@.len() as int) && -256 <= dirs@[k].0 <= 256 && -256
                    <= dirs@[k].1 <= 256,
            (sx as int, sy as int) == spec_dir_sum(edges@.take(j as int), n as int, pt(p)),
            sx as int >= -(j as int) * 0x100000000000000000,
            sx as int <= (j as int) * 0x100000000000000000,
            sy as int >= -(j as int) * 0x100000000000000000,
            sy as int <= (j as int) * 0x100000000000000000,
            j == 0 ==> min_d2 as int == spec_d2(pt(edges@[0]), pt(p)),
            j >= 1 ==> min_d2 as int == spec_min_d2(edges@.take(j as int), pt(p)),
        decreases n - j,
    {
        let e = edges[j];
        let d2 = crate::angle::dist2(e.x, e.y, p.x, p.y);
        let w = crate::angle::weight_of(d2);
        let dir = dirs[j];
        proof {
            assert(-0x100000000000000000 <= dir.0 as int * w as int <= 0x100000000000000000)
                by (nonlinear_arith)
                requires
                    -256 <= dir.0 as int <= 256,
                    0 <= w as int <= 0x1000000000000000,
            ;
            assert(-0x100000000000000000 <= dir.1 as int * w as int <= 0x100000000000000000)
                by (nonlinear_arith)
                requires
                    -256 <= dir.1 as int <= 256,
                    0 <= w as int <= 0x1000000000000000,
            ;
        }
        let tx: i128 = dir.0 as i128 * w as i128;
        let ty: i128 = dir.1 as i128 * w as i128;
        proof {
            assert((j as int + 1) * 0x100000000000000000 == (j as int) * 0x100000000000000000
                + 0x100000000000000000) by (nonlinear_arith);
            assert((j as int + 1) * 0x100000000000000000 <= 0x1000000000000
                * 0x100000000000000000) by (nonlinear_arith)
                requires
                    j as int + 1 <= 0x1000000000000,
            ;
            assert(0 <= (j as int) * 0x100000000000000000 <= 0x1000000000000
                * 0x100000000000000000) by (nonlinear_arith)
                requires
                    0 <= j as int <= 0x1000000000000,
            ;
        }
        let new_min = if j == 0 || d2 < min_d2 {
            d2
        } else {
            min_d2
        };
        proof {
            let t = edges@.take(j as int + 1);
            assert(t.drop_last() =~= edges@.take(j as int));
            assert(t.last() == edges@[j as int]);
            if j >= 1 {
                assert(new_min as int == spec_min_d2(t, pt(p)));
            } else {
                assert(t.len() == 1);
                assert(new_min as int == spec_min_d2(t, pt(p)));
            }
        }
        sx = sx + tx;
        sy = sy + ty;
        min_d2 = new_min;
        j = j + 1;
    }
    proof {
        assert(edges@.take(n as int) =~= edges@);
    }
    let ordering = crate::angle::ring_ordering(-sx, -sy);
    let dist = crate::angle::isqrt64(min_d2);
    (ordering, dist)
}


/// What the final pass stores for a discovered cell, per field.
pub open spec fn spec_derived_ok(
    v: CellValue,
    c: LandmassCell,
    x: int,
    y: int,
    edges: Seq<Point2>,
) -> bool {
    match v {
        CellValue::Present => {
            &&& c.edge == false
            &&& c.ordering as int == spec_present_ordering(edges, (x, y))
            &&& c.edge_distance as int == spec_edge_distance(edges, (x, y))
        },
        CellValue::Boundary => false,
        CellValue::BoundaryFinal { index } => {
            &&& c.edge == true
            &&& c.ordering as int == spec_rim_ordering(index as int, edges.len() as int)
            &&& c.edge_distance == 0
        },
    }
}

/// The final pass over the discovered grid: every interior cell gets its
/// perimeter ordering and edge distance, every rim cell its exact walk
/// fraction, a true edge flag and edge distance zero.
#[verifier::rlimit(100)]
fn derive_cells(grid2: &Grid<CellValue>, edges: &Vec<Point2>, Ghost(bnd): Ghost<int>) -> (out:
    Grid<LandmassCell>)
    requires
        grid2.wf(),
        3 <= bnd <= 0x400000,
        -bnd <= grid2.spec_min().0,
        -bnd <= grid2.spec_min().1,
        grid2.spec_max().0 <= bnd,
        grid2.spec_max().1 <= bnd,
        1 <= edges@.len() <= 0x1000000000000,
        forall|i: int| 0 <= i < edges@.len() ==> in_square(pt(#[trigger] edges@[i]), 0x800000),
        forall|x: int, y: int|
            !(#[trigger] grid2.spec_get(x, y) matches Some(CellValue::Boundary)),
        forall|x: int, y: int|
            #[trigger] grid2.spec_get(x, y) matches Some(CellValue::BoundaryFinal { index })
                ==> index < edges@.len(),
    ensures
        out.wf(),
        -bnd <= out.spec_min().0,
        -bnd <= out.spec_min().1,
        out.spec_max().0 <= bnd,
        out.spec_max().1 <= bnd,
        forall|x: int, y: int|
            match #[trigger] grid2.spec_get(x, y) {
                Some(v) => out.spec_get(x, y) matches Some(c) && spec_derived_ok(
                    v,
                    c,
                    x,
                    y,
                    edges@,
                ),
                None => out.spec_get(x, y) is None,
            },
{
    let entries = grid2.enumerate();
    let mut out: Grid<LandmassCell> = Grid::new();
    let n = entries.len();
    let mut i: usize = 0;
    let count = edges.len();
    let dirs = rim_directions(count);
    while i < n
        invariant
            grid2.wf(),
            out.wf(),
            3 <= bnd <= 0x400000,
            i <= n,
            n == entries@.len(),
            count == edges@.len(),
            1 <= edges@.len() <= 0x1000000000000,
            dirs@.len() == edges@.len(),
            forall|j: int|
                0 <= j < edges@.len() ==> ((#[trigger] dirs@[j]).0 as int, dirs@[j].1 as int)
                    == spec_ring_dir(j, edges@.len() as int) && -256 <= dirs@[j].0 <= 256 && -256
                    <= dirs@[j].1 <= 256,
            forall|k: int| 0 <= k < edges@.len() ==> in_square(pt(#[trigger] edges@[k]), 0x800000),
            -bnd <= grid2.spec_min().0,
            -bnd <= grid2.spec_min().1,
            grid2.spec_max().0 <= bnd,
            grid2.spec_max().1 <= bnd,
            -bnd <= out.spec_min().0,
            -bnd <= out.spec_min().1,
            out.spec_max().0 <= bnd,
            out.spec_max().1 <= bnd,
            forall|x: int, y: int|
                !(#[trigger] grid2.spec_get(x, y) matches Some(CellValue::Boundary)),
            forall|x: int, y: int|
                #[trigger] grid2.spec_get(x, y) matches Some(CellValue::BoundaryFinal { index })
                    ==> index < edges@.len(),
            forall|k: int|
                0 <= k < entries@.len() ==> grid2.spec_get(
                    (#[trigger] entries@[k]).0 as int,
                    entries@[k].1 as int,
                ) == Some(entries@[k].2),
            forall|x: int, y: int|
                #[trigger] grid2.spec_get(x, y) is Some ==> exists|k: int|
                    0 <= k < entries@.len() && (#[trigger] entries@[k]).0 as int == x
                        && entries@[k].1 as int == y,
            forall|k: int, l: int|
                #![trigger entries@[k], entries@[l]]
                0 <= k < l < entries@.len() ==> ((entries@[k].1 as int) < (entries@[l].1 as int)
                    || (entries@[k].1 as int == entries@[l].1 as int && (entries@[k].0 as int)
                    < (entries@[l].0 as int))),
            forall|k: int|
                0 <= k < i ==> (out.spec_get(
                    (#[trigger] entries@[k]).0 as int,
                    entries@[k].1 as int,
                ) matches Some(c) && spec_derived_ok(
                    entries@[k].2,
                    c,
                    entries@[k].0 as int,
                    entries@[k].1 as int,
                    edges@,
                )),
            forall|x: int, y: int|
                #[trigger] out.spec_get(x, y) is Some ==> exists|k: int|
                    0 <= k < i && (#[trigger] entries@[k]).0 as int == x && entries@[k].1 as int
                        == y,
        decreases n - i,
    {
        let (ex, ey, value) = entries[i];
        proof {
            grid2.lemma_get_in_bounds(ex as int, ey as int);
        }
        let px = ex as i32;
        let py = ey as i32;
        let cell = match value {
            CellValue::Present => {
                let (o, d) = present_cell_values(edges, &dirs, Point2 { x: px, y: py });
                LandmassCell { ordering: o as usize, edge_distance: d as usize, edge: false }
            },
            CellValue::BoundaryFinal { index } => {
                proof {
                    assert(grid2.spec_get(ex as int, ey as int) == Some(
                        CellValue::BoundaryFinal { index },
                    ));
                    assert((index as int) * 0x100000000 < (count as int) * 0x100000000)
                        by (nonlinear_arith)
                        requires
                            0 <= index < count,
                    ;
                    assert((index as int) * 0x100000000 / (count as int) < 0x100000000)
                        by (nonlinear_arith)
                        requires
                            0 < count,
                            0 <= (index as int) * 0x100000000,
                            (index as int) * 0x100000000 < (count as int) * 0x100000000,
                    ;
                }
                let o128 = index as u128 * 0x100000000u128 / count as u128;
                LandmassCell { ordering: o128 as usize, edge_distance: 0, edge: true }
            },
            CellValue::Boundary => {
                proof {
                    assert(false);
                }
                LandmassCell { ordering: 0, edge_distance: 0, edge: false }
            },
        };
        let ghost outb = out;
        out.put_expand([ex, ey], cell);
        proof {
            assert forall|k: int|
                0 <= k < i + 1 implies (out.spec_get(
                (#[trigger] entries@[k]).0 as int,
                entries@[k].1 as int,
            ) matches Some(c) && spec_derived_ok(
                entries@[k].2,
                c,
                entries@[k].0 as int,
                entries@[k].1 as int,
                edges@,
            )) by {
                if k < i {
                    assert(!(entries@[k].0 as int == ex as int && entries@[k].1 as int
                        == ey as int));
                }
            }
            assert forall|x: int, y: int| #[trigger] out.spec_get(x, y) is Some implies exists|
                k: int,
            |
                0 <= k < i + 1 && (#[trigger] entries@[k]).0 as int == x && entries@[k].1 as int
                    == y by {
                if x == ex as int && y == ey as int {
                    assert(0 <= i < i + 1 && entries@[i as int].0 as int == x
                        && entries@[i as int].1 as int == y);
                } else {
                    assert(outb.spec_get(x, y) is Some);
                }
            }
        }
        i = i + 1;
    }
    proof {
        assert forall|x: int, y: int|
            match #[trigger] grid2.spec_get(x, y) {
                Some(v) => out.spec_get(x, y) matches Some(c) && spec_derived_ok(
                    v,
                    c,
                    x,
                    y,
                    edges@,
                ),
                None => out.spec_get(x, y) is None,
            } by {
            match grid2.spec_get(x, y) {
                Some(v) => {
                    let k = choose|k: int|
                        0 <= k < entries@.len() && (#[trigger] entries@[k]).0 as int == x
                            && entries@[k].1 as int == y;
                    assert(entries@[k].2 == v);
                },
                None => {
                    if out.spec_get(x, y) is Some {
                        let k = choose|k: int|
                            0 <= k < i && (#[trigger] entries@[k]).0 as int == x
                                && entries@[k].1 as int == y;
                        assert(false);
                    }
                },
            }
        }
    }
    out
}

/// A path of positive cells, each step four-connected.
pub open spec fn is_positive_path(
    seed: u32,
    size: u32,
    resolution: u32,
    path: Seq<(int, int)>,
) -> bool {
    &&& path.len() >= 1
    &&& (forall|i: int|
        0 <= i < path.len() ==> positive_at(seed, size, resolution, #[trigger] path[i]))
    &&& (forall|i: int| 0 <= i < path.len() - 1 ==> adj4(#[trigger] path[i], path[i + 1]))
}

/// The properties the interior flood fill guarantees of its grid.
pub open spec fn interior_props(g: Grid<CellValue>, seed: u32, size: u32, resolution: u32) -> bool {
    &&& g.spec_get(0, 0) is Some
    &&& (forall|x: int, y: int|
        match #[trigger] g.spec_get(x, y) {
            Some(v) => (v == CellValue::Present) == positive_at(seed, size, resolution, (x, y)) && !(
            v matches CellValue::BoundaryFinal { .. }),
            None => true,
        })
    &&& (forall|x: int, y: int, x2: int, y2: int|
        #![trigger g.spec_get(x, y), g.spec_get(x2, y2)]
        g.spec_get(x, y) == Some(CellValue::Present) && adj4((x, y), (x2, y2)) ==> g.spec_get(
            x2,
            y2,
        ) is Some || !adj4((x, y), (x2, y2)))
}

/// Every cell reachable from the origin by positive four-connected steps is
/// stored `Present` by the interior flood fill.
pub proof fn lemma_flood_reaches(
    g: Grid<CellValue>,
    seed: u32,
    size: u32,
    resolution: u32,
    path: Seq<(int, int)>,
)
    requires
        interior_props(g, seed, size, resolution),
        is_positive_path(seed, size, resolution, path),
        path[0] == (0int, 0int),
    ensures
        g.spec_get(path.last().0, path.last().1) == Some(CellValue::Present),
    decreases path.len(),
{
    if path.len() == 1 {
        assert(positive_at(seed, size, resolution, path[0]));
    } else {
        let shorter = path.drop_last();
        assert(is_positive_path(seed, size, resolution, shorter)) by {
            assert(forall|i: int|
                0 <= i < shorter.len() ==> positive_at(
                    seed,
                    size,
                    resolution,
                    #[trigger] shorter[i],
                ));
            assert(forall|i: int|
                0 <= i < shorter.len() - 1 ==> adj4(#[trigger] shorter[i], shorter[i + 1]));
        }
        lemma_flood_reaches(g, seed, size, resolution, shorter);
        let prev = path[path.len() - 2];
        let last = path.last();
        assert(adj4(prev, last));
        assert(g.spec_get(prev.0, prev.1) == Some(CellValue::Present));
        assert(g.spec_get(last.0, last.1) is Some);
        assert(positive_at(seed, size, resolution, last));
    }
}


/// Lexicographic order on cell coordinates, rows first.
pub open spec fn lex_lt(a: (int, int), b: (int, int)) -> bool {
    a.1 < b.1 || (a.1 == b.1 && a.0 < b.0)
}

/// The discovered landmass: a sparse grid of derived cells together with
/// the length of its outer rim walk.
///
/// Created once from a seed and a size and immutable thereafter; consumed
/// by placement algorithms and point-membership queries.
pub struct LandmassShape {
    grid: Grid<LandmassCell>,
    outer_count: usize,
    seed: u32,
    size: u32,
    resolution: u32,
    rim: Ghost<Seq<Point2>>,
}

impl LandmassShape {
    pub closed spec fn spec_cell(&self, x: int, y: int) -> Option<LandmassCell> {
        self.grid.spec_get(x, y)
    }

    /// The outer rim, in walk order.
    pub closed spec fn spec_rim(&self) -> Seq<Point2> {
        self.rim@
    }

    pub closed spec fn spec_seed(&self) -> u32 {
        self.seed
    }

    pub closed spec fn spec_size(&self) -> u32 {
        self.size
    }

    pub closed spec fn spec_resolution(&self) -> u32 {
        self.resolution
    }

    pub closed spec fn spec_min(&self) -> (int, int) {
        self.grid.spec_min()
    }

    pub closed spec fn spec_max(&self) -> (int, int) {
        self.grid.spec_max()
    }

    /// The shape's invariant: the rim is a non-empty duplicate-free walk;
    /// rim cells carry their exact walk fraction as ordering, a set edge
    /// flag and edge distance zero; interior cells carry the weighted
    /// perimeter ordering and the floored distance to the nearest rim cell.
    pub closed spec fn wf(&self) -> bool {
        &&& self.grid.wf()
        &&& 1 <= self.size
        &&& 1 <= self.resolution
        &&& (self.size as int + 2) * self.resolution as int <= 0x400000
        &&& 1 <= self.rim@.len() <= 0x1000000000000
        &&& self.outer_count == self.rim@.len()
        &&& -spec_field_bound(self.size, self.resolution) <= self.grid.spec_min().0
        &&& -spec_field_bound(self.size, self.resolution) <= self.grid.spec_min().1
        &&& self.grid.spec_max().0 <= spec_field_bound(self.size, self.resolution)
        &&& self.grid.spec_max().1 <= spec_field_bound(self.size, self.resolution)
        &&& (forall|i: int|
            0 <= i < self.rim@.len() ==> in_square(pt(#[trigger] self.rim@[i]), 0x800000))
        &&& (forall|i: int, j: int|
            0 <= i < j < self.rim@.len() ==> #[trigger] self.rim@[i] != #[trigger] self.rim@[j])
        &&& (forall|j: int|
            #![trigger self.rim@[j]]
            1 <= j < self.rim@.len() ==> exists|j2: int|
                0 <= j2 < j && adj8(pt(self.rim@[j]), pt(#[trigger] self.rim@[j2])))
        &&& (forall|j: int|
            0 <= j < self.rim@.len() ==> (match self.grid.spec_get(
                (#[trigger] self.rim@[j]).x as int,
                self.rim@[j].y as int,
            ) {
                Some(c) => c.edge && c.ordering as int == spec_rim_ordering(
                    j,
                    self.rim@.len() as int,
                ) && c.edge_distance == 0,
                None => false,
            }))
        &&& (forall|x: int, y: int|
            match #[trigger] self.grid.spec_get(x, y) {
                Some(c) => if c.edge {
                    exists|j: int|
                        0 <= j < self.rim@.len() && pt(#[trigger] self.rim@[j]) == (x, y)
                } else {
                    c.ordering as int == spec_present_ordering(self.rim@, (x, y))
                        && c.edge_distance as int == spec_edge_distance(self.rim@, (x, y))
                },
                None => true,
            })
    }

    /// The window bounds are ordered.
    pub proof fn lemma_grid_bounds_ordered(&self)
        requires
            self.wf(),
        ensures
            self.spec_min().0 <= self.spec_max().0,
            self.spec_min().1 <= self.spec_max().1,
    {
        self.grid.lemma_bounds_ordered();
    }

    /// The window bounds lie within the field bound.
    pub proof fn lemma_bounds_range(&self)
        requires
            self.wf(),
        ensures
            -0x400000 <= self.spec_min().0,
            -0x400000 <= self.spec_min().1,
            self.spec_max().0 <= 0x400000,
            self.spec_max().1 <= 0x400000,
    {
    }

    /// A covered cell's coordinates lie within the field bound.
    pub proof fn lemma_cell_in_bounds(&self, x: int, y: int)
        requires
            self.wf(),
            self.spec_cell(x, y) is Some,
        ensures
            -0x400000 <= x <= 0x400000,
            -0x400000 <= y <= 0x400000,
    {
        self.grid.lemma_get_in_bounds(x, y);
    }

    /// Samples the derived cell at a position, if the landmass covers it.
    pub fn sample(&self, pos: Point2) -> (r: Option<LandmassCell>)
        requires
            self.wf(),
        ensures
            r == self.spec_cell(pos.x as int, pos.y as int),
    {
        match self.grid.get([pos.x as isize, pos.y as isize]) {
            Some(c) => Some(*c),
            None => None,
        }
    }

    /// Whether the cell at a position is on the outer rim.
    pub fn is_edge_at(&self, pos: Point2) -> (r: bool)
        requires
            self.wf(),
        ensures
            r == (self.spec_cell(pos.x as int, pos.y as int) matches Some(c) && c.edge),
    {
        match self.grid.get([pos.x as isize, pos.y as isize]) {
            Some(c) => c.edge,
            None => false,
        }
    }

    /// The smallest coordinate of the underlying window, per axis.
    pub fn min(&self) -> (r: Point2)
        requires
            self.wf(),
        ensures
            r.x as int == self.spec_min().0,
            r.y as int == self.spec_min().1,
    {
        proof {
            self.grid.lemma_bounds_ordered();
        }
        let m = self.grid.min();
        Point2 { x: m[0] as i32, y: m[1] as i32 }
    }

    /// The largest coordinate of the underlying window, per axis.
    pub fn max(&self) -> (r: Point2)
        requires
            self.wf(),
        ensures
            r.x as int == self.spec_max().0,
            r.y as int == self.spec_max().1,
    {
        proof {
            self.grid.lemma_bounds_ordered();
        }
        let m = self.grid.max();
        Point2 { x: m[0] as i32, y: m[1] as i32 }
    }

    /// Derives the landmass shape for a seed with the default sampling
    /// resolution.
    pub fn new(seed: u32, size: u32) -> (r: LandmassShape)
        requires
            1 <= size,
            (size as int + 2) * 128 <= 0x400000,
        ensures
            r.wf(),
            r.spec_seed() == seed,
            r.spec_size() == size,
            r.spec_resolution() == 128,
            forall|path: Seq<(int, int)>|
                is_positive_path(seed, size, 128, path) && path[0] == (0int, 0int) ==> (
                #[trigger] r.spec_cell(path.last().0, path.last().1) matches Some(c) && !c.edge),
            positive_at(seed, size, 128, (0int, 0int)) ==> forall|x: int, y: int|
                (#[trigger] r.spec_cell(x, y) matches Some(c) && c.edge) ==> exists|
                    x2: int,
                    y2: int,
                |
                    adj4((x, y), (x2, y2)) && (#[trigger] r.spec_cell(x2, y2) matches Some(c2)
                        && !c2.edge),
    {
        Self::new_with_resolution(seed, size, 128)
    }

    /// Derives the landmass shape for a seed, size and sampling resolution.
    ///
    /// Every cell of the connected positive region around the origin comes
    /// out `Present`; the region's outer rim is walked and indexed; holes
    /// are filled; and each cell's ordering and edge distance are derived
    /// from the rim.  A non-positive origin yields the degenerate shape of
    /// a single rim cell at the origin.
    #[verifier::rlimit(100)]
    pub fn new_with_resolution(seed: u32, size: u32, resolution: u32) -> (r: LandmassShape)
        requires
            1 <= size,
            1 <= resolution,
            (size as int + 2) * resolution as int <= 0x400000,
        ensures
            r.wf(),
            r.spec_seed() == seed,
            r.spec_size() == size,
            r.spec_resolution() == resolution,
            forall|path: Seq<(int, int)>|
                is_positive_path(seed, size, resolution, path) && path[0] == (0int, 0int) ==> (
                #[trigger] r.spec_cell(path.last().0, path.last().1) matches Some(c) && !c.edge),
            positive_at(seed, size, resolution, (0int, 0int)) ==> forall|x: int, y: int|
                (#[trigger] r.spec_cell(x, y) matches Some(c) && c.edge) ==> exists|
                    x2: int,
                    y2: int,
                |
                    adj4((x, y), (x2, y2)) && (#[trigger] r.spec_cell(x2, y2) matches Some(c2)
                        && !c2.edge),
    {
        let ghost bnd = spec_field_bound(size, resolution);
        proof {
            assert(3 <= bnd && bnd <= 0x400000) by (nonlinear_arith)
                requires
                    1 <= size,
                    1 <= resolution,
                    (size as int + 2) * resolution as int <= 0x400000,
                    bnd == (size as int + 2) * resolution as int,
            ;
        }
        let mut grid1 = discover_interior(seed, size, resolution);
        let ghost g1 = grid1;
        let entries = grid1.enumerate();
        let n = entries.len();
        let mut all_edges: Vec<Point2> = Vec::new();
        let mut root = Point2 { x: 0, y: 0 };
        let mut have_root = false;
        let mut best: i64 = -1;
        let mut i: usize = 0;
        while i < n
            invariant
                grid1.wf(),
                i <= n,
                n == entries@.len(),
                grid1 == g1,
                3 <= bnd <= 0x400000,
                -bnd <= grid1.spec_min().0,
                -bnd <= grid1.spec_min().1,
                grid1.spec_max().0 <= bnd,
                grid1.spec_max().1 <= bnd,
                !have_root ==> best == -1,
                best >= -1,
                forall|k: int|
                    0 <= k < entries@.len() ==> grid1.spec_get(
                        (#[trigger] entries@[k]).0 as int,
                        entries@[k].1 as int,
                    ) == Some(entries@[k].2),
                forall|x: int, y: int|
                    #[trigger] grid1.spec_get(x, y) is Some ==> exists|k: int|
                        0 <= k < entries@.len() && (#[trigger] entries@[k]).0 as int == x
                            && entries@[k].1 as int == y,
                forall|k: int, l: int|
                    #![trigger entries@[k], entries@[l]]
                    0 <= k < l < entries@.len() ==> lex_lt(
                        (entries@[k].0 as int, entries@[k].1 as int),
                        (entries@[l].0 as int, entries@[l].1 as int),
                    ),
                forall|a: int|
                    0 <= a < all_edges@.len() ==> grid1.spec_get(
                        (#[trigger] all_edges@[a]).x as int,
                        all_edges@[a].y as int,
                    ) == Some(CellValue::Boundary),
                forall|a: int|
                    0 <= a < all_edges@.len() ==> exists|k: int|
                        0 <= k < i && ((#[trigger] entries@[k]).0 as int, entries@[k].1 as int)
                            == pt(#[trigger] all_edges@[a]),
                forall|a: int, b: int|
                    0 <= a < b < all_edges@.len() ==> #[trigger] all_edges@[a]
                        != #[trigger] all_edges@[b],
                forall|k: int|
                    0 <= k < i && entries@[k].2 == CellValue::Boundary ==> qset(
                        all_edges@,
                        0,
                    ).contains(((#[trigger] entries@[k]).0 as int, entries@[k].1 as int)),
                have_root ==> grid1.spec_get(root.x as int, root.y as int) == Some(
                    CellValue::Boundary,
                ),
                !have_root ==> forall|k: int|
                    0 <= k < i ==> (#[trigger] entries@[k]).2 != CellValue::Boundary,
            decreases n - i,
        {
            let (ex, ey, value) = entries[i];
            let is_boundary = match value {
                CellValue::Boundary => true,
                _ => false,
            };
            if is_boundary {
                let p = Point2 { x: ex as i32, y: ey as i32 };
                proof {
                    grid1.lemma_get_in_bounds(ex as int, ey as int);
                    assert forall|a: int|
                        0 <= a < all_edges@.len() implies #[trigger] all_edges@[a] != p by {
                        let k = choose|k: int|
                            0 <= k < i && ((#[trigger] entries@[k]).0 as int, entries@[k].1 as int)
                                == pt(all_edges@[a as int]);
                        assert(lex_lt(
                            (entries@[k].0 as int, entries@[k].1 as int),
                            (entries@[i as int].0 as int, entries@[i as int].1 as int),
                        ));
                    }
                }
                let ghost ae0 = all_edges@;
                all_edges.push(p);
                proof {
                    lemma_qset_push(ae0, 0, p);
                }
                let ax = if p.x < 0 {
                    -(p.x as i64)
                } else {
                    p.x as i64
                };
                let ay = if p.y < 0 {
                    -(p.y as i64)
                } else {
                    p.y as i64
                };
                let cheb = if ax > ay {
                    ax
                } else {
                    ay
                };
                if cheb >= best {
                    best = cheb;
                    root = p;
                    have_root = true;
                }
            }
            i = i + 1;
        }
        if !have_root {
            proof {
                assert(entries@.len() >= 1) by {
                    assert(grid1.spec_get(0, 0) is Some);
                }
                let li = entries@.len() - 1;
                let last = entries@[li];
                assert(grid1.spec_get(last.0 as int, last.1 as int) == Some(last.2));
                assert(last.2 != CellValue::Boundary);
                assert(last.2 == CellValue::Present) by {
                    match last.2 {
                        CellValue::Present => {},
                        CellValue::Boundary => {
                            assert(false);
                        },
                        CellValue::BoundaryFinal { .. } => {
                            assert(false);
                        },
                    }
                }
                assert(adj4((last.0 as int, last.1 as int), (last.0 as int, last.1 as int + 1)));
                assert(grid1.spec_get(last.0 as int, last.1 as int + 1) is Some);
                let k = choose|k: int|
                    0 <= k < entries@.len() && (#[trigger] entries@[k]).0 as int == last.0 as int
                        && entries@[k].1 as int == last.1 as int + 1;
                assert(entries@[k].1 as int == last.1 as int + 1);
                if k < li {
                    assert(lex_lt(
                        (entries@[k].0 as int, entries@[k].1 as int),
                        (entries@[li].0 as int, entries@[li].1 as int),
                    ));
                    assert(false);
                } else {
                    assert(k == li);
                    assert(false);
                }
            }
        }
        let edges = walk_outer(&mut grid1, root, Ghost(bnd));
        let ghost g2 = grid1;
        let m = all_edges.len();
        let mut seeds: Vec<Point2> = Vec::new();
        let mut si: usize = 0;
        while si < m
            invariant
                grid1.wf(),
                si <= m,
                grid1 == g2,
                m == all_edges@.len(),
                forall|a: int, b: int|
                    0 <= a < b < all_edges@.len() ==> #[trigger] all_edges@[a]
                        != #[trigger] all_edges@[b],
                forall|a: int, b: int|
                    0 <= a < b < seeds@.len() ==> #[trigger] seeds@[a] != #[trigger] seeds@[b],
                forall|a: int|
                    0 <= a < seeds@.len() ==> grid1.spec_get(
                        (#[trigger] seeds@[a]).x as int,
                        seeds@[a].y as int,
                    ) == Some(CellValue::Boundary),
                forall|a: int|
                    0 <= a < si && grid1.spec_get(
                        (#[trigger] all_edges@[a]).x as int,
                        all_edges@[a].y as int,
                    ) == Some(CellValue::Boundary) ==> qset(seeds@, 0).contains(
                        pt(all_edges@[a]),
                    ),
                forall|a: int|
                    0 <= a < seeds@.len() ==> exists|b: int|
                        0 <= b < si && #[trigger] seeds@[a] == all_edges@[b],
            decreases m - si,
        {
            let p = all_edges[si];
            let still = match grid1.get([p.x as isize, p.y as isize]) {
                Some(v) => *v == CellValue::Boundary,
                None => false,
            };
            if still {
                let ghost s0 = seeds@;
                proof {
                    assert forall|a: int|
                        0 <= a < seeds@.len() implies #[trigger] seeds@[a] != p by {
                        let b = choose|b: int|
                            0 <= b < si && #[trigger] seeds@[a] == all_edges@[b];
                        assert(all_edges@[b] != all_edges@[si as int]);
                    }
                }
                seeds.push(p);
                proof {
                    lemma_qset_push(s0, 0, p);
                }
            }
            si = si + 1;
        }
        proof {
            assert forall|x: int, y: int|
                #[trigger] grid1.spec_get(x, y) == Some(CellValue::Boundary) implies qset(
                seeds@,
                0,
            ).contains((x, y)) by {
                assert(g1.spec_get(x, y) == Some(CellValue::Boundary));
                assert(qset(all_edges@, 0).contains((x, y))) by {
                    let k = choose|k: int|
                        0 <= k < entries@.len() && (#[trigger] entries@[k]).0 as int == x
                            && entries@[k].1 as int == y;
                    assert(entries@[k].2 == CellValue::Boundary);
                }
                let a = choose|a: int|
                    0 <= a < all_edges@.len() && (#[trigger] all_edges@[a]).x as int == x
                        && all_edges@[a].y as int == y;
                assert(grid1.spec_get(all_edges@[a].x as int, all_edges@[a].y as int) == Some(
                    CellValue::Boundary,
                ));
            }
        }
        fill_holes(&mut grid1, seeds, Ghost(bnd));
        let ghost g3 = grid1;
        proof {
            assert forall|j: int|
                0 <= j < edges@.len() implies in_square(pt(#[trigger] edges@[j]), 0x800000) by {
                assert(g2.spec_get(edges@[j].x as int, edges@[j].y as int) is Some);
                g2.lemma_get_in_bounds(edges@[j].x as int, edges@[j].y as int);
            }
            assert forall|x: int, y: int|
                #[trigger] grid1.spec_get(x, y) is Some implies (match grid1.spec_get(x, y) {
                Some(CellValue::BoundaryFinal { index }) => index < edges@.len(),
                _ => true,
            }) by {
                if grid1.spec_get(x, y) matches Some(CellValue::BoundaryFinal { .. }) {
                    assert(g2.spec_get(x, y) == grid1.spec_get(x, y));
                }
            }
            assert(forall|x: int, y: int|
                #[trigger] grid1.spec_get(x, y) matches Some(CellValue::BoundaryFinal { index })
                    ==> index < edges@.len());
        }
        proof {
            assert((2 * bnd + 1) * (2 * bnd + 1) <= 0x1000000000000) by (nonlinear_arith)
                requires
                    3 <= bnd <= 0x400000,
            ;
        }
        let out = derive_cells(&grid1, &edges, Ghost(bnd));
        let count = edges.len();
        let shape = LandmassShape {
            grid: out,
            outer_count: count,
            seed,
            size,
            resolution,
            rim: Ghost(edges@),
        };
        proof {
            assert forall|j: int|
                0 <= j < edges@.len() implies (match shape.grid.spec_get(
                (#[trigger] edges@[j]).x as int,
                edges@[j].y as int,
            ) {
                Some(c) => c.edge && c.ordering as int == spec_rim_ordering(
                    j,
                    edges@.len() as int,
                ) && c.edge_distance == 0,
                None => false,
            }) by {
                assert(g2.spec_get(edges@[j].x as int, edges@[j].y as int) == Some(
                    CellValue::BoundaryFinal { index: j as usize },
                ));
                assert(g3.spec_get(edges@[j].x as int, edges@[j].y as int) == Some(
                    CellValue::BoundaryFinal { index: j as usize },
                ));
            }
            assert forall|x: int, y: int|
                match #[trigger] shape.grid.spec_get(x, y) {
                    Some(c) => if c.edge {
                        exists|j: int| 0 <= j < edges@.len() && pt(#[trigger] edges@[j]) == (x, y)
                    } else {
                        c.ordering as int == spec_present_ordering(edges@, (x, y))
                            && c.edge_distance as int == spec_edge_distance(edges@, (x, y))
                    },
                    None => true,
                } by {
                if shape.grid.spec_get(x, y) is Some {
                    match g3.spec_get(x, y) {
                        Some(v) => {
                            match v {
                                CellValue::BoundaryFinal { index } => {
                                    assert(g2.spec_get(x, y) == Some(v));
                                    assert(edges@[index as int].x as int == x && edges@[
                                        index as int
                                    ].y as int == y);
                                },
                                _ => {},
                            }
                        },
                        None => {
                            assert(false);
                        },
                    }
                }
            }
            assert forall|j: int|
                #![trigger shape.rim@[j]]
                1 <= j < shape.rim@.len() implies exists|j2: int|
                0 <= j2 < j && adj8(pt(shape.rim@[j]), pt(#[trigger] shape.rim@[j2])) by {
                let j2 = choose|j2: int|
                    0 <= j2 < j && adj8(pt(edges@[j]), pt(#[trigger] edges@[j2]));
                assert(shape.rim@[j] == edges@[j] && shape.rim@[j2] == edges@[j2]);
            }
            assert(shape.wf());
            assert forall|path: Seq<(int, int)>|
                is_positive_path(seed, size, resolution, path) && path[0] == (
                0int,
                0int,
            ) implies (#[trigger] shape.spec_cell(path.last().0, path.last().1) matches Some(c)
                && !c.edge) by {
                lemma_flood_reaches(g1, seed, size, resolution, path);
                let last = path.last();
                assert(g1.spec_get(last.0, last.1) == Some(CellValue::Present));
                assert(g2.spec_get(last.0, last.1) == Some(CellValue::Present));
                assert(g3.spec_get(last.0, last.1) == Some(CellValue::Present));
            }
            if positive_at(seed, size, resolution, (0int, 0int)) {
                assert forall|x: int, y: int|
                    (#[trigger] shape.spec_cell(x, y) matches Some(c) && c.edge) implies exists|
                    x2: int,
                    y2: int,
                |
                    adj4((x, y), (x2, y2)) && (#[trigger] shape.spec_cell(x2, y2) matches Some(c2)
                        && !c2.edge) by {
                    let j = choose|j: int|
                        0 <= j < edges@.len() && pt(#[trigger] edges@[j]) == (x, y);
                    assert(g1.spec_get(x, y) == Some(CellValue::Boundary));
                    assert(g1.spec_get(0, 0) == Some(CellValue::Present));
                    assert(!(x == 0 && y == 0));
                    let (x2, y2) = choose|x2: int, y2: int|
                        adj4((x, y), (x2, y2)) && #[trigger] g1.spec_get(x2, y2) == Some(
                            CellValue::Present,
                        );
                    assert(g2.spec_get(x2, y2) == Some(CellValue::Present));
                    assert(g3.spec_get(x2, y2) == Some(CellValue::Present));
                    assert(shape.spec_cell(x2, y2) matches Some(c2) && !c2.edge);
                }
            }
        }
        shape
    }
}


/// How far from the rim pillar anchors are placed.
pub const PILLAR_EDGE_DISTANCE: usize = 12;

/// The target spacing between pillar anchors, in candidate cells.
pub const PILLAR_SPACING: usize = 32;

/// One step of the perimeter subsampling count: when an index is selected,
/// the running quotient strictly grows.
proof fn lemma_select_step(i: int, m: int, len: int)
    requires
        0 < len,
        1 <= m,
        1 <= i,
        (i * m) % len < m,
    ensures
        (i - 1) * m / len < (i * m) / len,
{
    let k = (i * m) / len;
    let r = (i * m) % len;
    vstd::arithmetic::div_mod::lemma_fundamental_div_mod(i * m, len);
    assert((i - 1) * m == len * k + r - m) by (nonlinear_arith)
        requires
            i * m == len * k + r,
    ;
    assert((i - 1) * m < len * k);
    vstd::arithmetic::div_mod::lemma_multiply_divide_lt((i - 1) * m, len, k);
}

impl LandmassShape {
    /// The set of cells whose derived edge distance equals `d`.
    pub open spec fn spec_distance_set(&self, d: int) -> Set<(int, int)> {
        Set::new(
            |p: (int, int)| self.spec_cell(p.0, p.1) matches Some(c) && c.edge_distance as int == d,
        )
    }

    /// Sorts candidate cells by their ordering value, ascending, keeping
    /// the length, the pairwise-distinct positions, and the candidates'
    /// defining property: each one's cell sits at the target edge distance
    /// and carries the recorded ordering.
    fn sort_candidates(&self, v: Vec<(Point2, usize)>, distance: usize) -> (out: Vec<
        (Point2, usize),
    >)
        requires
            self.wf(),
            forall|a: int|
                0 <= a < v@.len() ==> (self.spec_cell(
                    (#[trigger] v@[a]).0.x as int,
                    v@[a].0.y as int,
                ) matches Some(c) && c.edge_distance == distance && c.ordering == v@[a].1),
            forall|a: int, b: int|
                0 <= a < b < v@.len() ==> (#[trigger] v@[a]).0 != (#[trigger] v@[b]).0,
        ensures
            out@.len() == v@.len(),
            forall|a: int|
                0 <= a < out@.len() ==> (self.spec_cell(
                    (#[trigger] out@[a]).0.x as int,
                    out@[a].0.y as int,
                ) matches Some(c) && c.edge_distance == distance && c.ordering == out@[a].1),
            forall|a: int, b: int|
                0 <= a < b < out@.len() ==> (#[trigger] out@[a]).1 <= (#[trigger] out@[b]).1,
            forall|a: int, b: int|
                0 <= a < b < out@.len() ==> (#[trigger] out@[a]).0 != (#[trigger] out@[b]).0,
    {
        let ghost total = v@.len();
        let mut rest = v;
        let mut out: Vec<(Point2, usize)> = Vec::new();
        while rest.len() > 0
            invariant
                self.wf(),
                out@.len() + rest@.len() == total,
                forall|a: int|
                    0 <= a < rest@.len() ==> (self.spec_cell(
                        (#[trigger] rest@[a]).0.x as int,
                        rest@[a].0.y as int,
                    ) matches Some(c) && c.edge_distance == distance && c.ordering == rest@[a].1),
                forall|a: int|
                    0 <= a < out@.len() ==> (self.spec_cell(
                        (#[trigger] out@[a]).0.x as int,
                        out@[a].0.y as int,
                    ) matches Some(c) && c.edge_distance == distance && c.ordering == out@[a].1),
                forall|a: int, b: int|
                    0 <= a < b < out@.len() ==> (#[trigger] out@[a]).1 <= (#[trigger] out@[b]).1,
                forall|a: int, k: int|
                    0 <= a < out@.len() && 0 <= k < rest@.len() ==> (#[trigger] out@[a]).1
                        <= (#[trigger] rest@[k]).1,
                forall|a: int, b: int|
                    0 <= a < b < rest@.len() ==> (#[trigger] rest@[a]).0 != (#[trigger] rest@[b]).0,
                forall|a: int, b: int|
                    0 <= a < b < out@.len() ==> (#[trigger] out@[a]).0 != (#[trigger] out@[b]).0,
                forall|a: int, k: int|
                    0 <= a < out@.len() && 0 <= k < rest@.len() ==> (#[trigger] out@[a]).0
                        != (#[trigger] rest@[k]).0,
            decreases rest@.len(),
        {
            let n = rest.len();
            let mut best: usize = 0;
            let mut k: usize = 1;
            while k < n
                invariant
                    n == rest@.len(),
                    best < n,
                    k <= n,
                    forall|a: int| 0 <= a < k ==> (#[trigger] rest@[best as int]).1 <= rest@[a].1,
                decreases n - k,
            {
                if rest[k].1 < rest[best].1 {
                    best = k;
                }
                k = k + 1;
            }
            let ghost restb = rest@;
            let chosen = rest.remove(best);
            out.push(chosen);
            proof {
                assert forall|a: int|
                    0 <= a < rest@.len() implies (self.spec_cell(
                    (#[trigger] rest@[a]).0.x as int,
                    rest@[a].0.y as int,
                ) matches Some(c) && c.edge_distance == distance && c.ordering == rest@[a].1) by {
                    if a < best {
                        assert(rest@[a] == restb[a]);
                    } else {
                        assert(rest@[a] == restb[a + 1]);
                    }
                }
                assert forall|a: int, k2: int|
                    0 <= a < out@.len() && 0 <= k2 < rest@.len() implies (#[trigger] out@[a]).1
                        <= (#[trigger] rest@[k2]).1 by {
                    if k2 < best {
                        assert(rest@[k2] == restb[k2]);
                    } else {
                        assert(rest@[k2] == restb[k2 + 1]);
                    }
                    assert(chosen.1 <= rest@[k2].1);
                }
                assert forall|a: int, b: int|
                    0 <= a < b < rest@.len() implies (#[trigger] rest@[a]).0
                        != (#[trigger] rest@[b]).0 by {
                    let a2: int = if a < best {
                        a
                    } else {
                        a + 1
                    };
                    let b2: int = if b < best {
                        b
                    } else {
                        b + 1
                    };
                    assert(rest@[a] == restb[a2] && rest@[b] == restb[b2]);
                }
                assert forall|a: int, k2: int|
                    0 <= a < out@.len() && 0 <= k2 < rest@.len() implies (#[trigger] out@[a]).0
                        != (#[trigger] rest@[k2]).0 by {
                    let k3: int = if k2 < best {
                        k2
                    } else {
                        k2 + 1
                    };
                    assert(rest@[k2] == restb[k3]);
                    if a < out@.len() - 1 {
                    } else {
                        assert(out@[a] == restb[best as int]);
                    }
                }
            }
        }
        out
    }

    /// Selects the pillar mount points: cells at the pillar edge distance,
    /// subsampled evenly along the perimeter ordering; pairwise distinct,
    /// in non-decreasing ordering value, and non-empty whenever any cell
    /// sits at the pillar edge distance.
    pub fn generate_pillar_points(&self) -> (r: Vec<Point2>)
        requires
            self.wf(),
        ensures
            forall|i: int|
                0 <= i < r@.len() ==> (self.spec_cell(
                    (#[trigger] r@[i]).x as int,
                    r@[i].y as int,
                ) matches Some(c) && c.edge_distance == PILLAR_EDGE_DISTANCE),
            r@.len() as int <= self.spec_distance_set(PILLAR_EDGE_DISTANCE as int).len() as int
                / (PILLAR_SPACING as int) + 1,
            self.spec_distance_set(PILLAR_EDGE_DISTANCE as int).len() > 0 ==> r@.len() >= 1,
            forall|a: int, b: int|
                0 <= a < b < r@.len() ==> (#[trigger] r@[a]) != (#[trigger] r@[b]),
            forall|a: int, b: int|
                0 <= a < b < r@.len() ==> self.spec_cell(
                    (#[trigger] r@[a]).x as int,
                    r@[a].y as int,
                ).unwrap().ordering <= self.spec_cell(
                    (#[trigger] r@[b]).x as int,
                    r@[b].y as int,
                ).unwrap().ordering,
    {
        self.generate_mount_points(PILLAR_EDGE_DISTANCE, PILLAR_SPACING)
    }

    /// Filters the cells at the target edge distance, sorts them by their
    /// perimeter ordering, and keeps an evenly spread subsample: at most
    /// one point per `spacing` candidates, plus one, and at least one
    /// whenever any candidate exists.  The returned points are pairwise
    /// distinct and appear in non-decreasing perimeter-ordering value.
    #[verifier::rlimit(100)]
    pub fn generate_mount_points(&self, distance: usize, spacing: usize) -> (r: Vec<Point2>)
        requires
            self.wf(),
            1 <= spacing,
        ensures
            forall|i: int|
                0 <= i < r@.len() ==> (self.spec_cell(
                    (#[trigger] r@[i]).x as int,
                    r@[i].y as int,
                ) matches Some(c) && c.edge_distance == distance),
            r@.len() as int <= self.spec_distance_set(distance as int).len() as int / (
            spacing as int) + 1,
            self.spec_distance_set(distance as int).len() > 0 ==> r@.len() >= 1,
            forall|a: int, b: int|
                0 <= a < b < r@.len() ==> (#[trigger] r@[a]) != (#[trigger] r@[b]),
            forall|a: int, b: int|
                0 <= a < b < r@.len() ==> self.spec_cell(
                    (#[trigger] r@[a]).x as int,
                    r@[a].y as int,
                ).unwrap().ordering <= self.spec_cell(
                    (#[trigger] r@[b]).x as int,
                    r@[b].y as int,
                ).unwrap().ordering,
    {
        let entries = self.grid.enumerate();
        let n = entries.len();
        let mut cands: Vec<(Point2, usize)> = Vec::new();
        let ghost mut cs: Set<(int, int)> = Set::empty();
        let mut i: usize = 0;
        while i < n
            invariant
                self.wf(),
                i <= n,
                n == entries@.len(),
                forall|k: int|
                    0 <= k < entries@.len() ==> self.grid.spec_get(
                        (#[trigger] entries@[k]).0 as int,
                        entries@[k].1 as int,
                    ) == Some(entries@[k].2),
                forall|x: int, y: int|
                    #[trigger] self.grid.spec_get(x, y) is Some ==> exists|k: int|
                        0 <= k < entries@.len() && (#[trigger] entries@[k]).0 as int == x
                            && entries@[k].1 as int == y,
                forall|k: int, l: int|
                    #![trigger entries@[k], entries@[l]]
                    0 <= k < l < entries@.len() ==> lex_lt(
                        (entries@[k].0 as int, entries@[k].1 as int),
                        (entries@[l].0 as int, entries@[l].1 as int),
                    ),
                cs.finite(),
                cs.len() == cands@.len(),
                forall|a: int|
                    0 <= a < cands@.len() ==> (self.grid.spec_get(
                        (#[trigger] cands@[a]).0.x as int,
                        cands@[a].0.y as int,
                    ) matches Some(c) && c.edge_distance == distance && c.ordering
                        == cands@[a].1),
                forall|a: int|
                    0 <= a < cands@.len() ==> cs.contains(pt((#[trigger] cands@[a]).0)),
                forall|a: int, b: int|
                    0 <= a < b < cands@.len() ==> (#[trigger] cands@[a]).0
                        != (#[trigger] cands@[b]).0,
                forall|a: int|
                    0 <= a < cands@.len() ==> exists|k: int|
                        0 <= k < i && ((#[trigger] entries@[k]).0 as int, entries@[k].1 as int)
                            == pt(#[trigger] cands@[a].0),
                forall|p: (int, int)|
                    #[trigger] cs.contains(p) ==> self.spec_distance_set(
                        distance as int,
                    ).contains(p),
                forall|p: (int, int)|
                    #[trigger] cs.contains(p) ==> exists|k: int|
                        0 <= k < i && ((#[trigger] entries@[k]).0 as int, entries@[k].1 as int)
                            == p,
                forall|k: int|
                    0 <= k < i && (#[trigger] entries@[k]).2.edge_distance == distance
                        ==> cs.contains((entries@[k].0 as int, entries@[k].1 as int)),
            decreases n - i,
        {
            let (ex, ey, value) = entries[i];
            if value.edge_distance == distance {
                proof {
                    self.grid.lemma_get_in_bounds(ex as int, ey as int);
                    assert(!cs.contains((ex as int, ey as int))) by {
                        if cs.contains((ex as int, ey as int)) {
                            let k = choose|k: int|
                                0 <= k < i && ((#[trigger] entries@[k]).0 as int,
                                entries@[k].1 as int) == ((ex as int, ey as int));
                            assert(lex_lt(
                                (entries@[k].0 as int, entries@[k].1 as int),
                                (entries@[i as int].0 as int, entries@[i as int].1 as int),
                            ));
                        }
                    }
                }
                let bx = ex as i32;
                let by2 = ey as i32;
                proof {
                    assert forall|a: int|
                        0 <= a < cands@.len() implies (#[trigger] cands@[a]).0 != (Point2 {
                        x: bx,
                        y: by2,
                    }) by {
                        assert(cs.contains(pt(cands@[a].0)));
                    }
                }
                cands.push((Point2 { x: bx, y: by2 }, value.ordering));
                proof {
                    cs = cs.insert((ex as int, ey as int));
                }
            }
            i = i + 1;
        }
        proof {
            assert(cs =~= self.spec_distance_set(distance as int)) by {
                assert forall|p: (int, int)|
                    self.spec_distance_set(distance as int).contains(p) implies cs.contains(p) by {
                    assert(self.grid.spec_get(p.0, p.1) is Some);
                    let k = choose|k: int|
                        0 <= k < entries@.len() && (#[trigger] entries@[k]).0 as int == p.0
                            && entries@[k].1 as int == p.1;
                    assert(entries@[k].2.edge_distance == distance);
                }
            }
        }
        let sorted = self.sort_candidates(cands, distance);
        let len = sorted.len();
        let mut out: Vec<Point2> = Vec::new();
        if len == 0 {
            return out;
        }
        let m = len / spacing;
        proof {
            vstd::arithmetic::div_mod::lemma_div_is_ordered(
                0,
                len as int,
                spacing as int,
            );
        }
        if m == 0 {
            out.push(sorted[0].0);
            return out;
        }
        let mut j: usize = 0;
        let ghost mut picks: Seq<int> = Seq::empty();
        while j < len
            invariant
                self.wf(),
                1 <= m,
                m as int == len as int / spacing as int,
                1 <= spacing,
                len == sorted@.len(),
                j <= len,
                forall|a: int|
                    0 <= a < sorted@.len() ==> (self.spec_cell(
                        (#[trigger] sorted@[a]).0.x as int,
                        sorted@[a].0.y as int,
                    ) matches Some(c) && c.edge_distance == distance && c.ordering
                        == sorted@[a].1),
                forall|a: int, b: int|
                    0 <= a < b < sorted@.len() ==> (#[trigger] sorted@[a]).1
                        <= (#[trigger] sorted@[b]).1,
                forall|a: int, b: int|
                    0 <= a < b < sorted@.len() ==> (#[trigger] sorted@[a]).0
                        != (#[trigger] sorted@[b]).0,
                forall|a: int|
                    0 <= a < out@.len() ==> (self.spec_cell(
                        (#[trigger] out@[a]).x as int,
                        out@[a].y as int,
                    ) matches Some(c) && c.edge_distance == distance),
                picks.len() == out@.len(),
                forall|a: int| 0 <= a < picks.len() ==> 0 <= #[trigger] picks[a] < j as int,
                forall|a: int, b: int|
                    0 <= a < b < picks.len() ==> #[trigger] picks[a] < #[trigger] picks[b],
                forall|a: int|
                    0 <= a < picks.len() ==> #[trigger] out@[a] == sorted@[picks[a]].0,
                j == 0 ==> out@.len() == 0,
                j >= 1 ==> out@.len() >= 1,
                j >= 1 ==> out@.len() as int <= (j as int - 1) * m as int / len as int + 1,
            decreases len - j,
        {
            proof {
                assert((j as int) * (m as int) < 0x100000000000000000000000000000000)
                    by (nonlinear_arith)
                    requires
                        0 <= j as int <= 0xFFFFFFFFFFFFFFFF,
                        0 <= m as int <= 0xFFFFFFFFFFFFFFFF,
                ;
            }
            proof {
                if j == 0 {
                    assert(j as int * m as int == 0) by (nonlinear_arith)
                        requires
                            j as int == 0,
                    ;
                    vstd::arithmetic::div_mod::lemma_small_mod(0nat, len as nat);
                }
            }
            let sel = (j as u128 * m as u128) % (len as u128) < m as u128;
            if sel {
                proof {
                    if j >= 1 {
                        lemma_select_step(j as int, m as int, len as int);
                        assert((j as int - 1) * m as int >= 0) by (nonlinear_arith)
                            requires
                                j as int >= 1,
                                m as int >= 1,
                        ;
                        vstd::arithmetic::div_mod::lemma_div_is_ordered(
                            0,
                            (j as int - 1) * m as int,
                            len as int,
                        );
                    }
                }
                out.push(sorted[j].0);
                proof {
                    picks = picks.push(j as int);
                }
            } else {
                proof {
                    if j >= 1 {
                        assert((j as int - 1) * m as int <= j as int * m as int)
                            by (nonlinear_arith)
                            requires
                                m as int >= 0,
                        ;
                        vstd::arithmetic::div_mod::lemma_div_is_ordered(
                            (j as int - 1) * m as int,
                            j as int * m as int,
                            len as int,
                        );
                    }
                }
            }
            j = j + 1;
        }
        proof {
            assert(((len as int - 1) * (m as int)) < ((len as int) * (m as int))) by (nonlinear_arith)
                requires
                    m as int >= 1,
                    len as int >= 1,
            ;
            vstd::arithmetic::div_mod::lemma_multiply_divide_lt(
                (len as int - 1) * m as int,
                len as int,
                m as int,
            );
            assert(out@.len() as int <= m as int);
            assert forall|a: int, b: int|
                0 <= a < b < out@.len() implies (#[trigger] out@[a]) != (#[trigger] out@[b]) by {
                assert(out@[a] == sorted@[picks[a]].0 && out@[b] == sorted@[picks[b]].0);
                assert(picks[a] < picks[b]);
            }
            assert forall|a: int, b: int|
                0 <= a < b < out@.len() implies self.spec_cell(
                (#[trigger] out@[a]).x as int,
                out@[a].y as int,
            ).unwrap().ordering <= self.spec_cell(
                (#[trigger] out@[b]).x as int,
                out@[b].y as int,
            ).unwrap().ordering by {
                assert(out@[a] == sorted@[picks[a]].0 && out@[b] == sorted@[picks[b]].0);
                assert(sorted@[picks[a]].1 <= sorted@[picks[b]].1);
            }
        }
        out
    }
}



/// The smallest candidate side length, walls included.
pub const BUILDING_MIN_SIDE: u32 = 3;

/// One past the largest candidate side length, walls included.
pub const BUILDING_MAX_SIDE: u32 = 7;

/// The state of one cell of the coarse packing grid.
#[derive(Clone, Copy, PartialEq, Eq, Structural, Debug)]
pub enum Occupancy {
    /// Inside the landmass footprint and not yet claimed by a building.
    Vacant,
    /// Claimed by the interior of the building with the given identifier.
    Occupied { id: usize },
}

/// A building footprint on the coarse grid: the wall rectangle, corners
/// inclusive.
#[derive(Clone, Copy, PartialEq, Eq, Structural, Debug)]
pub struct BuildingShape {
    pub edge_min: Point2,
    pub edge_max: Point2,
}

/// A footprint has room for walls and a non-empty interior.
pub open spec fn shape_wf(s: BuildingShape) -> bool {
    s.edge_min.x + 2 <= s.edge_max.x && s.edge_min.y + 2 <= s.edge_max.y
}

/// Whether a cell lies strictly inside a footprint's walls.
pub open spec fn in_interior(s: BuildingShape, x: int, y: int) -> bool {
    s.edge_min.x < x < s.edge_max.x && s.edge_min.y < y < s.edge_max.y
}

/// Whether a cell belongs to a footprint, walls included.
pub open spec fn in_rect(s: BuildingShape, x: int, y: int) -> bool {
    s.edge_min.x <= x <= s.edge_max.x && s.edge_min.y <= y <= s.edge_max.y
}

/// Whether a cell lies on a footprint's one-cell halo: the ring just
/// outside its walls.
pub open spec fn on_halo(s: BuildingShape, x: int, y: int) -> bool {
    &&& s.edge_min.x - 1 <= x <= s.edge_max.x + 1
    &&& s.edge_min.y - 1 <= y <= s.edge_max.y + 1
    &&& (x == s.edge_min.x - 1 || x == s.edge_max.x + 1 || y == s.edge_min.y - 1 || y
        == s.edge_max.y + 1)
}

/// Two footprints' interiors share a cell.
pub open spec fn interiors_overlap(a: BuildingShape, b: BuildingShape) -> bool {
    exists|x: int, y: int| in_interior(a, x, y) && in_interior(b, x, y)
}

/// Two footprints share a cell, walls included.
pub open spec fn rects_overlap(a: BuildingShape, b: BuildingShape) -> bool {
    exists|x: int, y: int| in_rect(a, x, y) && in_rect(b, x, y)
}

/// The set of vacant cells of the coarse grid.
pub open spec fn vacant_set(occ: Grid<Occupancy>) -> Set<(int, int)> {
    Set::new(|p: (int, int)| occ.spec_get(p.0, p.1) == Some(Occupancy::Vacant))
}

/// Floored halving of a coordinate.
fn floor_div2(v: i32) -> (r: i32)
    requires
        -0x40000000 <= v <= 0x40000000,
    ensures
        r as int == (v as int) / 2,
        2 * (r as int) <= v as int <= 2 * (r as int) + 1,
{
    if v >= 0 {
        v / 2
    } else {
        -((-v + 1) / 2)
    }
}

/// Checks one candidate rectangle: valid when every cell of the rectangle
/// is vacant and every cell of the one-cell halo around it is known; the
/// score counts occupied halo cells, so candidates clustering against
/// existing buildings win.
#[verifier::rlimit(100)]
fn check_candidate(occ: &Grid<Occupancy>, smin: Point2, smax: Point2) -> (r: (bool, u32))
    requires
        occ.wf(),
        -0x500000 <= smin.x && smin.x as int + 2 <= smax.x as int <= 0x500000,
        -0x500000 <= smin.y && smin.y as int + 2 <= smax.y as int <= 0x500000,
    ensures
        r.0 ==> forall|x: int, y: int|
            in_rect(BuildingShape { edge_min: smin, edge_max: smax }, x, y)
                ==> #[trigger] occ.spec_get(x, y) == Some(Occupancy::Vacant),
        r.0 ==> forall|x: int, y: int|
            on_halo(BuildingShape { edge_min: smin, edge_max: smax }, x, y)
                ==> #[trigger] occ.spec_get(x, y) is Some,
{
    let ghost s = BuildingShape { edge_min: smin, edge_max: smax };
    let mut score: u32 = 0;
    let mut y = smin.y - 1;
    while y <= smax.y + 1
        invariant
            occ.wf(),
            s == (BuildingShape { edge_min: smin, edge_max: smax }),
            -0x500000 <= smin.x && smin.x as int + 2 <= smax.x as int <= 0x500000,
            -0x500000 <= smin.y && smin.y as int + 2 <= smax.y as int <= 0x500000,
            smin.y as int - 1 <= y as int,
            y as int <= smax.y as int + 2,
            forall|x2: int, y2: int|
                in_rect(s, x2, y2) && y2 < y as int ==> #[trigger] occ.spec_get(x2, y2) == Some(
                    Occupancy::Vacant,
                ),
            forall|x2: int, y2: int|
                on_halo(s, x2, y2) && y2 < y as int ==> #[trigger] occ.spec_get(x2, y2) is Some,
        decreases smax.y as int + 2 - y as int,
    {
        let mut x = smin.x - 1;
        while x <= smax.x + 1
            invariant
                occ.wf(),
                s == (BuildingShape { edge_min: smin, edge_max: smax }),
                -0x500000 <= smin.x && smin.x as int + 2 <= smax.x as int <= 0x500000,
                -0x500000 <= smin.y && smin.y as int + 2 <= smax.y as int <= 0x500000,
                smin.y as int - 1 <= y as int <= smax.y as int + 1,
                smin.x as int - 1 <= x as int,
                x as int <= smax.x as int + 2,
                forall|x2: int, y2: int|
                    in_rect(s, x2, y2) && (y2 < y as int || (y2 == y as int && x2 < x as int))
                        ==> #[trigger] occ.spec_get(x2, y2) == Some(Occupancy::Vacant),
                forall|x2: int, y2: int|
                    on_halo(s, x2, y2) && (y2 < y as int || (y2 == y as int && x2 < x as int))
                        ==> #[trigger] occ.spec_get(x2, y2) is Some,
            decreases smax.x as int + 2 - x as int,
        {
            let ring = x == smin.x - 1 || x == smax.x + 1 || y == smin.y - 1 || y == smax.y + 1;
            let here = occ.get([x as isize, y as isize]);
            if ring {
                match here {
                    Some(v) => {
                        if let Occupancy::Occupied { .. } = v {
                            if score < 0xFFFF {
                                score = score + 1;
                            }
                        }
                    },
                    None => {
                        return (false, 0);
                    },
                }
            } else {
                let vacant_here = match here {
                    Some(v) => *v == Occupancy::Vacant,
                    None => false,
                };
                if !vacant_here {
                    return (false, 0);
                }
            }
            x = x + 1;
        }
        y = y + 1;
    }
    (true, score)
}

impl LandmassShape {
    /// Whether the downsampled footprint covers a coarse cell: all four of
    /// its fine cells belong to the landmass.
    pub open spec fn spec_coarse_cell(&self, x: int, y: int) -> bool {
        &&& self.spec_cell(2 * x, 2 * y) is Some
        &&& self.spec_cell(2 * x + 1, 2 * y) is Some
        &&& self.spec_cell(2 * x, 2 * y + 1) is Some
        &&& self.spec_cell(2 * x + 1, 2 * y + 1) is Some
    }

    /// Greedy building packing over the coarse occupancy grid.
    ///
    /// Repeatedly, every vacant cell anchors a candidate rectangle of
    /// random size; a candidate is valid when every cell of the rectangle
    /// is vacant and the one-cell halo around it lies on known cells; the
    /// valid candidate with the most occupied halo cells is placed and its
    /// cells marked occupied; the packing stops when a round yields no
    /// valid candidate.
    ///
    /// No two placed footprints share a cell (walls included, so their
    /// interiors are disjoint a fortiori), and every footprint together
    /// with its one-cell halo stays on the downsampled footprint.
    #[verifier::rlimit(100)]
    pub fn generate_building_shapes(&self, rng: &mut RngSource) -> (r: Vec<BuildingShape>)
        requires
            self.wf(),
        ensures
            forall|i: int| 0 <= i < r@.len() ==> shape_wf(#[trigger] r@[i]),
            forall|i: int, j: int|
                0 <= i < j < r@.len() ==> !rects_overlap(#[trigger] r@[i], #[trigger] r@[j]),
            forall|i: int, j: int|
                0 <= i < j < r@.len() ==> !interiors_overlap(#[trigger] r@[i], #[trigger] r@[j]),
            forall|i: int, x: int, y: int|
                #![trigger on_halo(r@[i], x, y)]
                on_halo(r@[i], x, y) && 0 <= i < r@.len() ==> self.spec_coarse_cell(x, y),
            forall|i: int, x: int, y: int|
                #![trigger in_rect(r@[i], x, y)]
                in_rect(r@[i], x, y) && 0 <= i < r@.len() ==> self.spec_coarse_cell(x, y),
            forall|i: int|
                0 <= i < r@.len() ==> {
                    let s = #[trigger] r@[i];
                    -0x500000 <= s.edge_min.x <= s.edge_max.x <= 0x500000 && -0x500000
                        <= s.edge_min.y <= s.edge_max.y <= 0x500000
                },
    {
        proof {
            self.grid.lemma_bounds_ordered();
            assert(spec_field_bound(self.spec_size(), self.spec_resolution()) <= 0x400000);
        }
        let mn = self.min();
        let mx = self.max();
        let cx0 = floor_div2(mn.x);
        let cx1 = floor_div2(mx.x);
        let cy0 = floor_div2(mn.y);
        let cy1 = floor_div2(mx.y);
        let mut occ: Grid<Occupancy> = Grid::new();
        let mut cy = cy0;
        proof {
            assert(-0x200001 <= cx0 as int <= 0x200001);
            assert(-0x200001 <= cy0 as int <= 0x200001);
            assert(cx0 as int <= cx1 as int + 1);
            assert(cy0 as int <= cy1 as int + 1);
        }
        while cy <= cy1
            invariant
                self.wf(),
                occ.wf(),
                cy0 <= cy,
                cy as int <= cy1 as int + 1,
                -0x200001 <= cx0 as int,
                cx1 as int <= 0x200001,
                -0x200001 <= cy0 as int,
                cy1 as int <= 0x200001,
                cx0 as int <= cx1 as int + 1,
                -0x200002 <= occ.spec_min().0,
                -0x200002 <= occ.spec_min().1,
                occ.spec_max().0 <= 0x200002,
                occ.spec_max().1 <= 0x200002,
                forall|x: int, y: int|
                    #[trigger] occ.spec_get(x, y) is Some ==> self.spec_coarse_cell(x, y)
                        && occ.spec_get(x, y) == Some(Occupancy::Vacant),
            decreases cy1 as int + 1 - cy as int,
        {
            let mut cx = cx0;
            while cx <= cx1
                invariant
                    self.wf(),
                    occ.wf(),
                    cy0 <= cy <= cy1,
                    cx0 <= cx,
                    cx as int <= cx1 as int + 1,
                    -0x200001 <= cx0 as int,
                    cx1 as int <= 0x200001,
                    -0x200001 <= cy0 as int,
                    cy1 as int <= 0x200001,
                    -0x200002 <= occ.spec_min().0,
                    -0x200002 <= occ.spec_min().1,
                    occ.spec_max().0 <= 0x200002,
                    occ.spec_max().1 <= 0x200002,
                    forall|x: int, y: int|
                        #[trigger] occ.spec_get(x, y) is Some ==> self.spec_coarse_cell(x, y)
                            && occ.spec_get(x, y) == Some(Occupancy::Vacant),
                decreases cx1 as int + 1 - cx as int,
            {
                let covered = self.sample(Point2 { x: 2 * cx, y: 2 * cy }).is_some()
                    && self.sample(Point2 { x: 2 * cx + 1, y: 2 * cy }).is_some() && self.sample(
                    Point2 { x: 2 * cx, y: 2 * cy + 1 },
                ).is_some() && self.sample(Point2 { x: 2 * cx + 1, y: 2 * cy + 1 }).is_some();
                if covered {
                    occ.put_expand([cx as isize, cy as isize], Occupancy::Vacant);
                }
                cx = cx + 1;
            }
            cy = cy + 1;
        }
        let ghost area2 = (2 * 0x200002int + 1) * (2 * 0x200002int + 1);
        let mut placed: Vec<BuildingShape> = Vec::new();
        let mut next_id: usize = 0;
        let mut go = true;
        proof {
            lemma_box_set_card(-0x200002, 0x200003, -0x200002, 0x200003);
            assert forall|p: (int, int)| vacant_set(occ).contains(p) implies box_set(
                -0x200002,
                0x200003,
                -0x200002,
                0x200003,
            ).contains(p) by {
                occ.lemma_get_in_bounds(p.0, p.1);
            }
            vstd::set_lib::lemma_len_subset(
                vacant_set(occ),
                box_set(-0x200002, 0x200003, -0x200002, 0x200003),
            );
        }
        while go
            invariant
                self.wf(),
                occ.wf(),
                -0x200002 <= occ.spec_min().0,
                -0x200002 <= occ.spec_min().1,
                occ.spec_max().0 <= 0x200002,
                occ.spec_max().1 <= 0x200002,
                forall|x: int, y: int|
                    #[trigger] occ.spec_get(x, y) is Some ==> self.spec_coarse_cell(x, y),
                forall|i: int| 0 <= i < placed@.len() ==> shape_wf(#[trigger] placed@[i]),
                forall|i: int|
                    0 <= i < placed@.len() ==> {
                        let s = #[trigger] placed@[i];
                        -0x500000 <= s.edge_min.x <= s.edge_max.x <= 0x500000 && -0x500000
                            <= s.edge_min.y <= s.edge_max.y <= 0x500000
                    },
                forall|i: int, x: int, y: int|
                    #![trigger in_rect(placed@[i], x, y)]
                    in_rect(placed@[i], x, y) && 0 <= i < placed@.len() ==> occ.spec_get(
                        x,
                        y,
                    ) matches Some(Occupancy::Occupied { .. }),
                forall|i: int, x: int, y: int|
                    #![trigger on_halo(placed@[i], x, y)]
                    on_halo(placed@[i], x, y) && 0 <= i < placed@.len() ==> occ.spec_get(
                        x,
                        y,
                    ) is Some,
                forall|i: int, j: int|
                    0 <= i < j < placed@.len() ==> !rects_overlap(
                        #[trigger] placed@[i],
                        #[trigger] placed@[j],
                    ),
                vacant_set(occ).finite(),
                vacant_set(occ).len() <= area2,
            decreases vacant_set(occ).len(), (if go {
                1int
            } else {
                0int
            }),
        {
            let entries = occ.enumerate();
            let n = entries.len();
            let mut best: Option<(Point2, Point2, u32)> = None;
            let mut i: usize = 0;
            while i < n
                invariant
                    self.wf(),
                    occ.wf(),
                    i <= n,
                    n == entries@.len(),
                    -0x200002 <= occ.spec_min().0,
                    -0x200002 <= occ.spec_min().1,
                    occ.spec_max().0 <= 0x200002,
                    occ.spec_max().1 <= 0x200002,
                    forall|k: int|
                        0 <= k < entries@.len() ==> occ.spec_get(
                            (#[trigger] entries@[k]).0 as int,
                            entries@[k].1 as int,
                        ) == Some(entries@[k].2),
                    match best {
                        Some(b) => {
                            &&& -0x500000 <= b.0.x && b.0.x as int + 2 <= b.1.x as int <= 0x500000
                            &&& -0x500000 <= b.0.y && b.0.y as int + 2 <= b.1.y as int <= 0x500000
                            &&& (forall|x: int, y: int|
                                in_rect(
                                    BuildingShape { edge_min: b.0, edge_max: b.1 },
                                    x,
                                    y,
                                ) ==> #[trigger] occ.spec_get(x, y) == Some(Occupancy::Vacant))
                            &&& (forall|x: int, y: int|
                                on_halo(BuildingShape { edge_min: b.0, edge_max: b.1 }, x, y)
                                    ==> #[trigger] occ.spec_get(x, y) is Some)
                        },
                        None => true,
                    },
                decreases n - i,
            {
                let (ex, ey, value) = entries[i];
                let is_vacant = match value {
                    Occupancy::Vacant => true,
                    _ => false,
                };
                if is_vacant {
                    proof {
                        occ.lemma_get_in_bounds(ex as int, ey as int);
                    }
                    let w = rng.range_u32(BUILDING_MIN_SIDE, BUILDING_MAX_SIDE) as i32;
                    let h = rng.range_u32(BUILDING_MIN_SIDE, BUILDING_MAX_SIDE) as i32;
                    let smin = Point2 { x: ex as i32, y: ey as i32 };
                    let smax = Point2 { x: smin.x + w - 1, y: smin.y + h - 1 };
                    let (valid, score) = check_candidate(&occ, smin, smax);
                    if valid {
                        let better = match &best {
                            Some(b) => score > b.2,
                            None => true,
                        };
                        if better {
                            best = Some((smin, smax, score));
                        }
                    }
                }
                i = i + 1;
            }
            match best {
                None => {
                    go = false;
                },
                Some((smin, smax, _score)) => {
                    let ghost occb = occ;
                    let ghost shape = BuildingShape { edge_min: smin, edge_max: smax };
                    let mut iy = smin.y;
                    while iy <= smax.y
                        invariant
                            occ.wf(),
                            smin.y <= iy,
                            iy as int <= smax.y as int + 1,
                            -0x500000 <= smin.x && smin.x as int + 2 <= smax.x as int <= 0x500000,
                            -0x500000 <= smin.y && smin.y as int + 2 <= smax.y as int <= 0x500000,
                            shape == (BuildingShape { edge_min: smin, edge_max: smax }),
                            occ.spec_min() == occb.spec_min(),
                            occ.spec_max() == occb.spec_max(),
                            forall|x: int, y: int|
                                !in_rect(shape, x, y) ==> #[trigger] occ.spec_get(x, y)
                                    == occb.spec_get(x, y),
                            forall|x: int, y: int|
                                in_rect(shape, x, y) && y < iy as int ==> #[trigger] occ.spec_get(
                                    x,
                                    y,
                                ) == Some(Occupancy::Occupied { id: next_id }),
                            forall|x: int, y: int|
                                in_rect(shape, x, y) && y >= iy as int ==> #[trigger] occ.spec_get(
                                    x,
                                    y,
                                ) == occb.spec_get(x, y),
                            forall|x: int, y: int|
                                in_rect(shape, x, y) ==> #[trigger] occb.spec_get(x, y) == Some(
                                    Occupancy::Vacant,
                                ),
                        decreases smax.y as int + 1 - iy as int,
                    {
                        let mut ix = smin.x;
                        while ix <= smax.x
                            invariant
                                occ.wf(),
                                smin.y <= iy,
                                iy as int <= smax.y as int,
                                smin.x <= ix,
                                ix as int <= smax.x as int + 1,
                                -0x500000 <= smin.x && smin.x as int + 2 <= smax.x as int
                                    <= 0x500000,
                                -0x500000 <= smin.y && smin.y as int + 2 <= smax.y as int
                                    <= 0x500000,
                                shape == (BuildingShape { edge_min: smin, edge_max: smax }),
                                occ.spec_min() == occb.spec_min(),
                                occ.spec_max() == occb.spec_max(),
                                forall|x: int, y: int|
                                    !in_rect(shape, x, y) ==> #[trigger] occ.spec_get(x, y)
                                        == occb.spec_get(x, y),
                                forall|x: int, y: int|
                                    in_rect(shape, x, y) && (y < iy as int || (y == iy as int && x
                                        < ix as int)) ==> #[trigger] occ.spec_get(x, y) == Some(
                                        Occupancy::Occupied { id: next_id },
                                    ),
                                forall|x: int, y: int|
                                    in_rect(shape, x, y) && (y > iy as int || (y == iy as int && x
                                        >= ix as int)) ==> #[trigger] occ.spec_get(x, y)
                                        == occb.spec_get(x, y),
                                forall|x: int, y: int|
                                    in_rect(shape, x, y) ==> #[trigger] occb.spec_get(x, y)
                                        == Some(Occupancy::Vacant),
                            decreases smax.x as int + 1 - ix as int,
                        {
                            proof {
                                occ.lemma_get_in_bounds(ix as int, iy as int);
                            }
                            let ok = occ.put(
                                [ix as isize, iy as isize],
                                Occupancy::Occupied { id: next_id },
                            );
                            proof {
                                assert(ok);
                            }
                            ix = ix + 1;
                        }
                        iy = iy + 1;
                    }
                    proof {
                        let wx = smin.x as int;
                        let wy = smin.y as int;
                        assert(in_rect(shape, wx, wy));
                        assert(occ.spec_get(wx, wy) matches Some(Occupancy::Occupied { .. }));
                        assert(vacant_set(occ).subset_of(vacant_set(occb))) by {
                            assert forall|p: (int, int)|
                                vacant_set(occ).contains(p) implies vacant_set(occb).contains(
                                p,
                            ) by {
                                if in_rect(shape, p.0, p.1) {
                                    assert(false);
                                }
                            }
                        }
                        assert(vacant_set(occb).contains((wx, wy)));
                        assert(!vacant_set(occ).contains((wx, wy)));
                        assert(vacant_set(occ).subset_of(vacant_set(occb).remove((wx, wy))));
                        vstd::set_lib::lemma_len_subset(
                            vacant_set(occ),
                            vacant_set(occb).remove((wx, wy)),
                        );
                        assert(vacant_set(occ).len() < vacant_set(occb).len());
                        assert forall|i2: int, j2: int|
                            0 <= i2 < j2 < placed@.len() + 1 implies !rects_overlap(
                            #[trigger] placed@.push(shape)[i2],
                            #[trigger] placed@.push(shape)[j2],
                        ) by {
                            if j2 == placed@.len() {
                                let a = placed@[i2];
                                assert(placed@.push(shape)[i2] == a);
                                assert(placed@.push(shape)[j2] == shape);
                                if rects_overlap(a, shape) {
                                    let (cx2, cy2) = choose|cx2: int, cy2: int|
                                        in_rect(a, cx2, cy2) && in_rect(shape, cx2, cy2);
                                    assert(occb.spec_get(cx2, cy2) matches Some(
                                        Occupancy::Occupied { .. },
                                    ));
                                    assert(occb.spec_get(cx2, cy2) == Some(Occupancy::Vacant));
                                    assert(false);
                                }
                            } else {
                                assert(placed@.push(shape)[i2] == placed@[i2]);
                                assert(placed@.push(shape)[j2] == placed@[j2]);
                            }
                        }
                    }
                    placed.push(BuildingShape { edge_min: smin, edge_max: smax });
                    if next_id < usize::MAX - 1 {
                        next_id = next_id + 1;
                    }
                },
            }
        }
        proof {
            assert forall|i: int, x: int, y: int|
                #![trigger on_halo(placed@[i], x, y)]
                on_halo(placed@[i], x, y) && 0 <= i < placed@.len() implies self.spec_coarse_cell(
                x,
                y,
            ) by {
                assert(occ.spec_get(x, y) is Some);
            }
            assert forall|i: int, x: int, y: int|
                #![trigger in_rect(placed@[i], x, y)]
                in_rect(placed@[i], x, y) && 0 <= i < placed@.len() implies self.spec_coarse_cell(
                x,
                y,
            ) by {
                assert(occ.spec_get(x, y) is Some);
            }
            assert forall|i: int, j: int|
                0 <= i < j < placed@.len() implies !interiors_overlap(
                #[trigger] placed@[i],
                #[trigger] placed@[j],
            ) by {
                if interiors_overlap(placed@[i], placed@[j]) {
                    let (cx2, cy2) = choose|cx2: int, cy2: int|
                        in_interior(placed@[i], cx2, cy2) && in_interior(placed@[j], cx2, cy2);
                    assert(in_rect(placed@[i], cx2, cy2) && in_rect(placed@[j], cx2, cy2));
                    assert(rects_overlap(placed@[i], placed@[j]));
                }
            }
        }
        placed
    }
}



/// The minimum squared distance is a lower bound for every rim cell.
proof fn lemma_min_d2_lower(edges: Seq<Point2>, p: (int, int), j: int)
    requires
        0 <= j < edges.len(),
    ensures
        spec_min_d2(edges, p) <= spec_d2(pt(edges[j]), p),
    decreases edges.len(),
{
    if edges.len() > 1 {
        if j == edges.len() - 1 {
        } else {
            lemma_min_d2_lower(edges.drop_last(), p, j);
            assert(edges.drop_last()[j] == edges[j]);
        }
    }
}

/// The minimum squared distance is achieved by some rim cell.
proof fn lemma_min_d2_achieved(edges: Seq<Point2>, p: (int, int))
    requires
        edges.len() >= 1,
    ensures
        exists|j: int|
            0 <= j < edges.len() && spec_min_d2(edges, p) == spec_d2(pt(#[trigger] edges[j]), p),
    decreases edges.len(),
{
    if edges.len() == 1 {
        assert(spec_min_d2(edges, p) == spec_d2(pt(edges[0]), p));
    } else {
        lemma_min_d2_achieved(edges.drop_last(), p);
        let j0 = choose|j: int|
            0 <= j < edges.drop_last().len() && spec_min_d2(edges.drop_last(), p) == spec_d2(
                pt(#[trigger] edges.drop_last()[j]),
                p,
            );
        assert(edges.drop_last()[j0] == edges[j0]);
        if spec_min_d2(edges, p) == spec_min_d2(edges.drop_last(), p) {
            assert(spec_min_d2(edges, p) == spec_d2(pt(edges[j0]), p));
        } else {
            assert(spec_min_d2(edges, p) == spec_d2(pt(edges[edges.len() - 1]), p));
        }
    }
}

/// Squared distances are non-negative.
proof fn lemma_d2_nonneg(a: (int, int), b: (int, int))
    ensures
        spec_d2(a, b) >= 0,
{
    assert((a.0 - b.0) * (a.0 - b.0) >= 0 && (a.1 - b.1) * (a.1 - b.1) >= 0) by (nonlinear_arith);
}

/// The derived edge distance changes by at most one between four-adjacent
/// cells: the distance field has no jumps, so it is monotonically
/// non-decreasing along any shortest path leading away from the rim.
pub proof fn lemma_edge_distance_lipschitz(edges: Seq<Point2>, p: (int, int), q: (int, int))
    requires
        edges.len() >= 1,
        adj4(p, q),
    ensures
        spec_edge_distance(edges, p) <= spec_edge_distance(edges, q) + 1,
{
    lemma_min_d2_achieved(edges, q);
    let j = choose|j: int|
        0 <= j < edges.len() && spec_min_d2(edges, q) == spec_d2(pt(#[trigger] edges[j]), q);
    let e = pt(edges[j]);
    let d2q = spec_d2(e, q);
    let d2p = spec_d2(e, p);
    lemma_d2_nonneg(e, q);
    lemma_d2_nonneg(e, p);
    crate::angle::lemma_isqrt_properties(d2q);
    let s = spec_isqrt(d2q);
    let dx = e.0 - q.0;
    let dy = e.1 - q.1;
    assert(dx * dx <= d2q && dy * dy <= d2q) by (nonlinear_arith)
        requires
            d2q == dx * dx + dy * dy,
    ;
    assert(-s <= dx <= s && -s <= dy <= s) by (nonlinear_arith)
        requires
            dx * dx <= d2q,
            dy * dy <= d2q,
            s >= 0,
            (s + 1) * (s + 1) > d2q,
    ;
    assert(d2p <= d2q + 2 * s + 1) by {
        if p.0 == q.0 + 1 && p.1 == q.1 {
            assert(d2p == d2q - 2 * dx + 1) by (nonlinear_arith)
                requires
                    d2q == dx * dx + dy * dy,
                    d2p == (dx - 1) * (dx - 1) + dy * dy,
            ;
        } else if p.0 == q.0 - 1 && p.1 == q.1 {
            assert(d2p == d2q + 2 * dx + 1) by (nonlinear_arith)
                requires
                    d2q == dx * dx + dy * dy,
                    d2p == (dx + 1) * (dx + 1) + dy * dy,
            ;
        } else if p.0 == q.0 && p.1 == q.1 + 1 {
            assert(d2p == d2q - 2 * dy + 1) by (nonlinear_arith)
                requires
                    d2q == dx * dx + dy * dy,
                    d2p == dx * dx + (dy - 1) * (dy - 1),
            ;
        } else {
            assert(p.0 == q.0 && p.1 == q.1 - 1);
            assert(d2p == d2q + 2 * dy + 1) by (nonlinear_arith)
                requires
                    d2q == dx * dx + dy * dy,
                    d2p == dx * dx + (dy + 1) * (dy + 1),
            ;
        }
    }
    assert(d2p < (s + 2) * (s + 2)) by (nonlinear_arith)
        requires
            d2p <= d2q + 2 * s + 1,
            (s + 1) * (s + 1) > d2q,
            s >= 0,
    ;
    lemma_min_d2_lower(edges, p, j);
    assert(spec_min_d2(edges, p) >= 0) by {
        lemma_min_d2_achieved(edges, p);
        let j3 = choose|j3: int|
            0 <= j3 < edges.len() && spec_min_d2(edges, p) == spec_d2(pt(#[trigger] edges[j3]), p);
        lemma_d2_nonneg(pt(edges[j3]), p);
    }
    crate::angle::lemma_isqrt_monotone(spec_min_d2(edges, p), d2p);
    crate::angle::lemma_isqrt_properties(d2p);
    assert(spec_isqrt(d2p) <= s + 1) by (nonlinear_arith)
        requires
            spec_isqrt(d2p) >= 0,
            s >= 0,
            spec_isqrt(d2p) * spec_isqrt(d2p) <= d2p,
            d2p < (s + 2) * (s + 2),
    ;
}

/// A rim cell's own derived edge distance is zero.
proof fn lemma_min_d2_self(edges: Seq<Point2>, j: int)
    requires
        0 <= j < edges.len(),
    ensures
        spec_min_d2(edges, pt(edges[j])) == 0,
{
    lemma_min_d2_lower(edges, pt(edges[j]), j);
    lemma_min_d2_achieved(edges, pt(edges[j]));
    let j2 = choose|j2: int|
        0 <= j2 < edges.len() && spec_min_d2(edges, pt(edges[j])) == spec_d2(
            pt(#[trigger] edges[j2]),
            pt(edges[j]),
        );
    lemma_d2_nonneg(pt(edges[j2]), pt(edges[j]));
}

impl LandmassShape {
    /// An interior cell's stored fields are exact: its edge distance is
    /// the floored Euclidean distance to the nearest rim cell, and its
    /// ordering the weighted perimeter ordering seen from it.
    pub proof fn lemma_interior_cell_exact(&self, x: int, y: int)
        requires
            self.wf(),
            self.spec_cell(x, y) matches Some(c) && !c.edge,
        ensures
            self.spec_cell(x, y).unwrap().edge_distance as int == spec_edge_distance(
                self.spec_rim(),
                (x, y),
            ),
            self.spec_cell(x, y).unwrap().ordering as int == spec_present_ordering(
                self.spec_rim(),
                (x, y),
            ),
    {
    }

    /// A rim cell's stored fields are exact: edge distance zero and the
    /// exact walk fraction as ordering.
    pub proof fn lemma_rim_cell_exact(&self, j: int)
        requires
            self.wf(),
            0 <= j < self.spec_rim().len(),
        ensures
            self.spec_cell(
                self.spec_rim()[j].x as int,
                self.spec_rim()[j].y as int,
            ) matches Some(c) && c.edge && c.edge_distance == 0 && c.ordering as int
                == spec_rim_ordering(j, self.spec_rim().len() as int),
    {
    }

    /// Every rim cell after the first is eight-adjacent to an earlier rim
    /// cell: the rim is one eight-connected chain anchored at its root.
    pub proof fn lemma_rim_connected(&self, j: int)
        requires
            self.wf(),
            1 <= j < self.spec_rim().len(),
        ensures
            exists|j2: int|
                0 <= j2 < j && adj8(pt(self.spec_rim()[j]), pt(#[trigger] self.spec_rim()[j2])),
    {
        assert(self.rim@[j] == self.spec_rim()[j]);
        let j2 = choose|j2: int|
            0 <= j2 < j && adj8(pt(self.rim@[j]), pt(#[trigger] self.rim@[j2]));
        assert(self.spec_rim()[j2] == self.rim@[j2]);
    }

    /// Every edge cell lies on the rim walk.
    pub proof fn lemma_edge_cell_on_rim(&self, x: int, y: int)
        requires
            self.wf(),
            self.spec_cell(x, y) matches Some(c) && c.edge,
        ensures
            exists|j: int|
                0 <= j < self.spec_rim().len() && pt(#[trigger] self.spec_rim()[j]) == (x, y),
    {
        let j = choose|j: int| 0 <= j < self.rim@.len() && pt(#[trigger] self.rim@[j]) == (x, y);
        assert(self.spec_rim()[j] == self.rim@[j]);
    }

    /// Every rim cell's edge distance is zero.
    pub proof fn lemma_edge_cell_distance_zero(&self, x: int, y: int)
        requires
            self.wf(),
            self.spec_cell(x, y) matches Some(c) && c.edge,
        ensures
            self.spec_cell(x, y).unwrap().edge_distance == 0,
    {
        let j = choose|j: int| 0 <= j < self.spec_rim().len() && pt(#[trigger] self.spec_rim()[j]) == (x, y);
    }

    /// Between four-adjacent covered cells, the stored edge distance
    /// changes by at most one.
    pub proof fn lemma_edge_distance_step(&self, x: int, y: int, x2: int, y2: int)
        requires
            self.wf(),
            adj4((x, y), (x2, y2)),
            self.spec_cell(x, y) is Some,
            self.spec_cell(x2, y2) is Some,
        ensures
            self.spec_cell(x, y).unwrap().edge_distance <= self.spec_cell(
                x2,
                y2,
            ).unwrap().edge_distance + 1,
    {
        let rim = self.spec_rim();
        let c1 = self.spec_cell(x, y).unwrap();
        let c2 = self.spec_cell(x2, y2).unwrap();
        assert(c1.edge_distance as int == spec_edge_distance(rim, (x, y))) by {
            if c1.edge {
                let j = choose|j: int| 0 <= j < rim.len() && pt(#[trigger] rim[j]) == (x, y);
                lemma_min_d2_self(rim, j);
                self.lemma_edge_cell_distance_zero(x, y);
            }
        }
        assert(c2.edge_distance as int == spec_edge_distance(rim, (x2, y2))) by {
            if c2.edge {
                let j = choose|j: int| 0 <= j < rim.len() && pt(#[trigger] rim[j]) == (x2, y2);
                lemma_min_d2_self(rim, j);
                self.lemma_edge_cell_distance_zero(x2, y2);
            }
        }
        lemma_edge_distance_lipschitz(rim, (x, y), (x2, y2));
    }
}

} // verus!
