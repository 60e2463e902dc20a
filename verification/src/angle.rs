use vstd::prelude::*;

verus! {

/// The number of distinct ordering values: orderings live in
/// `[0, ORDERING_SCALE)`.
pub const ORDERING_SCALE: u64 = 0x100000000;

/// The half side length of the reference square ring that stands in for the
/// unit circle: directions derived from a perimeter fraction have components
/// in `[-RING_SCALE, RING_SCALE]`.
pub const RING_SCALE: i32 = 256;

/// The numerator of the inverse-distance weights.
pub const WEIGHT_SCALE: u64 = 0x1000000000000000;

/// Squared Euclidean distance between two cells.
pub open spec fn spec_d2(a: (int, int), b: (int, int)) -> int {
    (a.0 - b.0) * (a.0 - b.0) + (a.1 - b.1) * (a.1 - b.1)
}

/// The inverse-fourth-power distance weight, scaled by [`WEIGHT_SCALE`]: a
/// sharp weighting under which nearby cells dominate.  Distances whose
/// fourth power leaves sixty-four bits weigh nothing.
pub open spec fn spec_weight(d2: int) -> int {
    if d2 < 1 || d2 >= 0x100000000 {
        0int
    } else {
        WEIGHT_SCALE as int / (d2 * d2)
    }
}

/// The floor of the square root, as a mathematical function.
pub open spec fn spec_isqrt(n: int) -> int
    decreases n,
{
    if n < 1 {
        0int
    } else {
        let r = spec_isqrt(n - 1);
        if (r + 1) * (r + 1) <= n {
            r + 1
        } else {
            r
        }
    }
}

/// The defining properties of [`spec_isqrt`] on the naturals.
pub proof fn lemma_isqrt_properties(n: int)
    requires
        n >= 0,
    ensures
        spec_isqrt(n) >= 0,
        spec_isqrt(n) * spec_isqrt(n) <= n,
        (spec_isqrt(n) + 1) * (spec_isqrt(n) + 1) > n,
    decreases n,
{
    if n == 0 {
    } else {
        lemma_isqrt_properties(n - 1);
        let r = spec_isqrt(n - 1);
        if (r + 1) * (r + 1) <= n {
            assert((r + 2) * (r + 2) > n) by (nonlinear_arith)
                requires
                    r >= 0,
                    (r + 1) * (r + 1) > n - 1,
            ;
        }
    }
}

/// Any value bracketing `n` between consecutive squares is the square root
/// floor.
pub proof fn lemma_isqrt_unique(n: int, r: int)
    requires
        n >= 0,
        r >= 0,
        r * r <= n,
        (r + 1) * (r + 1) > n,
    ensures
        r == spec_isqrt(n),
{
    lemma_isqrt_properties(n);
    let s = spec_isqrt(n);
    assert(r == s) by (nonlinear_arith)
        requires
            r >= 0,
            s >= 0,
            r * r <= n,
            (r + 1) * (r + 1) > n,
            s * s <= n,
            (s + 1) * (s + 1) > n,
    ;
}

/// The square root floor is monotone.
pub proof fn lemma_isqrt_monotone(a: int, b: int)
    requires
        0 <= a <= b,
    ensures
        spec_isqrt(a) <= spec_isqrt(b),
{
    lemma_isqrt_properties(a);
    lemma_isqrt_properties(b);
    let sa = spec_isqrt(a);
    let sb = spec_isqrt(b);
    assert(sa <= sb) by (nonlinear_arith)
        requires
            sa >= 0,
            sb >= 0,
            sa * sa <= a,
            a <= b,
            (sb + 1) * (sb + 1) > b,
    ;
}

/// Integer square root: the exact floor of the square root.
pub fn isqrt64(n: u64) -> (r: u64)
    ensures
        r * r <= n,
        n < (r + 1) * (r + 1),
        r as int == spec_isqrt(n as int),
        r <= 0xFFFFFFFF,
{
    let mut lo: u64 = 0;
    let mut hi: u64 = 0x100000000;
    while hi - lo > 1
        invariant
            lo < hi <= 0x100000000,
            lo * lo <= n,
            n < hi * hi,
        decreases hi - lo,
    {
        let mid = lo + (hi - lo) / 2;
        assert(mid < 0x100000000);
        proof {
            assert(0 <= mid * mid < 0x100000000 * 0x100000000) by (nonlinear_arith)
                requires
                    0 <= mid < 0x100000000,
            ;
        }
        if mid * mid <= n {
            lo = mid;
        } else {
            hi = mid;
        }
    }
    proof {
        lemma_isqrt_unique(n as int, lo as int);
        assert(lo < 0x100000000);
    }
    lo
}

/// Executable squared distance, for coordinates small enough that the
/// squares stay comfortably inside sixty-four bits.
pub fn dist2(ax: i32, ay: i32, bx: i32, by: i32) -> (r: u64)
    requires
        -0x2000000 <= ax <= 0x2000000,
        -0x2000000 <= ay <= 0x2000000,
        -0x2000000 <= bx <= 0x2000000,
        -0x2000000 <= by <= 0x2000000,
    ensures
        r as int == spec_d2((ax as int, ay as int), (bx as int, by as int)),
        r <= 0x20000000000000,
{
    let dx = ax as i64 - bx as i64;
    let dy = ay as i64 - by as i64;
    proof {
        assert(dx * dx <= 0x4000000 * 0x4000000) by (nonlinear_arith)
            requires
                -0x4000000 <= dx <= 0x4000000,
        ;
        assert(dy * dy <= 0x4000000 * 0x4000000) by (nonlinear_arith)
            requires
                -0x4000000 <= dy <= 0x4000000,
        ;
        assert(dx * dx >= 0) by (nonlinear_arith);
        assert(dy * dy >= 0) by (nonlinear_arith);
    }
    (dx * dx + dy * dy) as u64
}

/// Executable inverse-distance weight.
pub fn weight_of(d2: u64) -> (r: u64)
    ensures
        r as int == spec_weight(d2 as int),
        r <= WEIGHT_SCALE,
{
    if d2 < 1 || d2 >= 0x100000000 {
        0
    } else {
        proof {
            assert(1 <= d2 * d2 < 0x100000000 * 0x100000000) by (nonlinear_arith)
                requires
                    1 <= d2 < 0x100000000,
            ;
        }
        WEIGHT_SCALE / (d2 * d2)
    }
}

/// Truncating halving, matching machine division of signed integers by two.
pub open spec fn spec_half(v: int) -> int {
    if v >= 0 {
        v / 2
    } else {
        -((-v) / 2)
    }
}

/// Shrinks a direction until both components fit well below the range where
/// the perimeter arithmetic could overflow; the direction is kept to within
/// one halving step.
pub open spec fn spec_norm(vx: int, vy: int) -> (int, int)
    decreases vstd::math::abs(vx) + vstd::math::abs(vy),
{
    if vstd::math::abs(vx) < 0x10000000000000000nat && vstd::math::abs(vy) < 0x10000000000000000nat {
        (vx, vy)
    } else {
        spec_norm(spec_half(vx), spec_half(vy))
    }
}

/// Where on the perimeter of the axis-aligned square ring through `v` the
/// direction `v` lies, as a fraction of the whole perimeter scaled to
/// [`ORDERING_SCALE`]; the zero direction maps to zero.
///
/// This is a deterministic, strictly monotone proxy for the angle of `v`
/// measured counterclockwise from the positive `x` axis.
pub open spec fn spec_ring_ordering(vx0: int, vy0: int) -> int {
    let (vx, vy) = spec_norm(vx0, vy0);
    let m = vstd::math::max(vstd::math::abs(vx) as int, vstd::math::abs(vy) as int);
    if m == 0 {
        0int
    } else {
        let p = if vx >= vstd::math::abs(vy) as int {
            vy
        } else if vy >= vstd::math::abs(vx) as int {
            2 * m - vx
        } else if -vx >= vstd::math::abs(vy) as int {
            4 * m - vy
        } else {
            6 * m + vx
        };
        let pr = if p < 0 {
            p + 8 * m
        } else {
            p
        };
        pr * (ORDERING_SCALE as int) / (8 * m)
    }
}

/// Executable perimeter position of a direction.
pub fn ring_ordering(vx0: i128, vy0: i128) -> (r: u64)
    ensures
        r as int == spec_ring_ordering(vx0 as int, vy0 as int),
        r < ORDERING_SCALE,
{
    let mut vx = vx0;
    let mut vy = vy0;
    while !(-0x10000000000000000i128 < vx && vx < 0x10000000000000000i128
        && -0x10000000000000000i128 < vy && vy < 0x10000000000000000i128)
        invariant
            spec_norm(vx0 as int, vy0 as int) == spec_norm(vx as int, vy as int),
        decreases vstd::math::abs(vx as int) + vstd::math::abs(vy as int),
    {
        vx = vx / 2;
        vy = vy / 2;
    }
    let ax = if vx < 0 {
        -vx
    } else {
        vx
    };
    let ay = if vy < 0 {
        -vy
    } else {
        vy
    };
    let m = if ax > ay {
        ax
    } else {
        ay
    };
    if m == 0 {
        return 0;
    }
    let p: i128 = if vx >= ay {
        vy
    } else if vy >= ax {
        2 * m - vx
    } else if -vx >= ay {
        4 * m - vy
    } else {
        6 * m + vx
    };
    let pr: i128 = if p < 0 {
        p + 8 * m
    } else {
        p
    };
    assert(0 <= pr < 8 * m);
    let scaled: i128 = pr * ORDERING_SCALE as i128;
    let q = scaled / (8 * m);
    proof {
        assert(pr * (ORDERING_SCALE as int) < 8 * m * (ORDERING_SCALE as int)) by (nonlinear_arith)
            requires
                0 <= pr < 8 * m,
        ;
        assert(pr * (ORDERING_SCALE as int) / (8 * m) < ORDERING_SCALE as int) by (nonlinear_arith)
            requires
                0 <= pr,
                0 < 8 * m,
                pr * (ORDERING_SCALE as int) < 8 * m * (ORDERING_SCALE as int),
        ;
    }
    q as u64
}

/// The direction that stands for the perimeter fraction `index / count`: the
/// point of the square ring of radius [`RING_SCALE`] whose perimeter
/// position is that fraction of the whole perimeter.  It plays the role of
/// the unit vector at angle `index / count` of a full turn.
pub open spec fn spec_ring_dir(index: int, count: int) -> (int, int) {
    let s = RING_SCALE as int;
    let p = 8 * s * index / count;
    if p < s {
        (s, p)
    } else if p < 3 * s {
        (2 * s - p, s)
    } else if p < 5 * s {
        (-s, 4 * s - p)
    } else if p < 7 * s {
        (p - 6 * s, -s)
    } else {
        (s, p - 8 * s)
    }
}

/// Executable direction for a perimeter fraction.
pub fn ring_dir(index: u64, count: u64) -> (r: (i32, i32))
    requires
        0 < count,
        index < count,
        count <= 0x1000000000000,
    ensures
        r.0 as int == spec_ring_dir(index as int, count as int).0,
        r.1 as int == spec_ring_dir(index as int, count as int).1,
        -RING_SCALE <= r.0 <= RING_SCALE,
        -RING_SCALE <= r.1 <= RING_SCALE,
{
    let s = RING_SCALE as u64;
    proof {
        assert(0 <= 8 * (RING_SCALE as int) * index <= 8 * (RING_SCALE as int) * 0x1000000000000)
            by (nonlinear_arith)
            requires
                0 <= index <= 0x1000000000000,
        ;
    }
    let p128 = 8u128 * s as u128 * index as u128 / count as u128;
    proof {
        assert(8 * (RING_SCALE as int) * index < 8 * (RING_SCALE as int) * count) by (nonlinear_arith)
            requires
                0 <= index < count,
        ;
        assert(8 * (RING_SCALE as int) * index / (count as int) < 8 * (RING_SCALE as int))
            by (nonlinear_arith)
            requires
                0 < count,
                0 <= 8 * (RING_SCALE as int) * index,
                8 * (RING_SCALE as int) * index < 8 * (RING_SCALE as int) * count,
        ;
    }
    let p = p128 as u64;
    let pi = p as i32;
    let si = RING_SCALE;
    if p < s {
        (si, pi)
    } else if p < 3 * s {
        (2 * si - pi, si)
    } else if p < 5 * s {
        (-si, 4 * si - pi)
    } else if p < 7 * s {
        (pi - 6 * si, -si)
    } else {
        (si, pi - 8 * si)
    }
}

} // verus!
