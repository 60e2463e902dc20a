use vstd::prelude::*;
use noise::MultiFractal;
use noise::NoiseFn;
use crate::angle::spec_isqrt;

verus! {

/// One unit in the fixed-point encoding of noise samples: samples are
/// scaled by this factor and floored.
pub const NOISE_ONE: i64 = 0x40000000;

/// The fixed-point value of the fractal noise sample for `seed`, with the
/// given octave count, at the integer point `(x, y)`.
///
/// A pure function of its four arguments: the same seed, octave count and
/// point give the same sample in every process and on every machine.
pub uninterp spec fn fbm_of(seed: u32, octaves: u32, x: int, y: int) -> int;

#[verifier::external_type_specification]
#[verifier::external_body]
#[verifier::reject_recursive_types(T)]
pub struct ExFbm<T>(noise::Fbm<T>);

#[verifier::external_type_specification]
#[verifier::external_body]
pub struct ExPerlin(noise::Perlin);

/// A fractal noise sampler: fractal Brownian motion over Perlin gradient
/// noise, built once from a seed and an octave count.
///
/// The generator is built from `seed` and `octaves` alone, and only by
/// [`FbmSampler::new`]; the sampling wrapper below relies on that pairing.
pub struct FbmSampler {
    seed: u32,
    octaves: u32,
    fbm: noise::Fbm<noise::Perlin>,
}

impl FbmSampler {
    /// The seed the generator was built from.
    pub closed spec fn spec_seed(&self) -> u32 {
        self.seed
    }

    /// The octave count the generator was built with.
    pub closed spec fn spec_octaves(&self) -> u32 {
        self.octaves
    }

    /// Relies on noise's `Fbm::<Perlin>::new` and
    /// `MultiFractal::set_octaves`: builds the generator deterministically
    /// from the seed and octave count it carries.
    ///
    /// The library's `build_sources` derives each octave's seed by adding
    /// the octave index (at most thirty-one, after the octave clamp) to the
    /// base seed with unchecked arithmetic, which overflows and panics in a
    /// checked build for the topmost seeds; those seeds are therefore
    /// shifted down before construction.  The shift is a fixed function of
    /// the seed, so the generator stays a pure function of the seed and
    /// octave count the sampler carries.
    #[verifier::external_body]
    pub fn new(seed: u32, octaves: u32) -> (r: FbmSampler)
        ensures
            r.spec_seed() == seed,
            r.spec_octaves() == octaves,
    {
        let safe_seed = if seed >= u32::MAX - 32 {
            seed - 32
        } else {
            seed
        };
        let fbm = noise::Fbm::<noise::Perlin>::new(safe_seed).set_octaves(octaves as usize);
        FbmSampler { seed, octaves, fbm }
    }

    /// Relies on noise's `NoiseFn::get` for `Fbm::<Perlin>`: a pure
    /// function of the seed, the octave count and the sample point,
    /// deterministic across runs and machines; the result is converted to
    /// fixed point at the bit level.
    ///
    /// The bound rests on the library's sources: each Perlin octave is
    /// clamped into `[-1, 1]` (`core/perlin.rs`), and `Fbm` divides the
    /// persistence-weighted octave sum by `1 - persistence^octaves`, so
    /// with the default persistence of one half the output stays within
    /// `[-2, 2]`; the stated slack of a quarter unit covers rounding of
    /// the scaled value.
    #[verifier::external_body]
    pub fn sample_fixed(&self, x: i32, y: i32) -> (r: i64)
        ensures
            r as int == fbm_of(self.spec_seed(), self.spec_octaves(), x as int, y as int),
            -0x90000000 <= r <= 0x90000000,
    {
        let v = self.fbm.get([x.into(), y.into()]);
        let bits = v.to_bits();
        let exp = ((bits >> 52) & 0x7FF) as i64;
        let mant = (bits & 0xFFFFFFFFFFFFF) | 0x10000000000000;
        let shift = 1045 - exp;
        let mag = if exp == 0 || shift >= 64 {
            0
        } else if shift < 0 {
            0x90000000
        } else {
            (mant >> shift) as i64
        };
        if bits >> 63 == 1 { -mag } else { mag }
    }
}

/// The number of octaves in the landmass field's fractal part.
pub const LANDMASS_OCTAVES: u32 = 8;

/// The radial falloff of the landmass field, in fixed point: one unit at
/// the origin, sloping down by one unit per `resolution` cells around the
/// radius `size * resolution`, and saturating at minus two units far out.
pub open spec fn spec_landmass_falloff(size: u32, resolution: u32, x: int, y: int) -> int {
    let q = NOISE_ONE as int;
    let d = spec_isqrt(x * x + y * y);
    let s = size as int * resolution as int;
    if d <= s {
        vstd::math::min((s - d) * q / resolution as int, q)
    } else {
        -vstd::math::min((d - s) * q / resolution as int, 2 * q)
    }
}

/// Whether the landmass scalar field derived from `seed` is strictly
/// positive at the cell `(x, y)`: the fractal sample plus twice the radial
/// falloff, so that the field is positive near the origin and negative
/// beyond roughly `size * resolution` cells, with a noise-shaped coastline
/// in between.
pub open spec fn spec_field_positive(seed: u32, size: u32, resolution: u32, x: int, y: int) -> bool {
    fbm_of(seed, LANDMASS_OCTAVES, x, y) + 2 * spec_landmass_falloff(size, resolution, x, y) > 0
}

/// Every cell where the field is positive lies strictly within this many
/// cells of the origin, per axis.
pub open spec fn spec_field_bound(size: u32, resolution: u32) -> int {
    (size as int + 2) * resolution as int
}

/// Samples the landmass field's sign at a cell, through a sampler built
/// for the landmass octave count.
pub fn field_positive_at(sampler: &FbmSampler, size: u32, resolution: u32, x: i32, y: i32) -> (r:
    bool)
    requires
        sampler.spec_octaves() == LANDMASS_OCTAVES,
        1 <= size,
        1 <= resolution,
        (size as int + 2) * resolution as int <= 0x1000000,
        -0x2000000 <= x <= 0x2000000,
        -0x2000000 <= y <= 0x2000000,
    ensures
        r == spec_field_positive(sampler.spec_seed(), size, resolution, x as int, y as int),
        r ==> -spec_field_bound(size, resolution) < x as int && (x as int)
            < spec_field_bound(size, resolution),
        r ==> -spec_field_bound(size, resolution) < y as int && (y as int)
            < spec_field_bound(size, resolution),
{
    let n = sampler.sample_fixed(x, y);
    let q: i64 = NOISE_ONE;
    let d2 = crate::angle::dist2(x, y, 0, 0);
    let d = crate::angle::isqrt64(d2) as i64;
    proof {
        assert(d <= 0x6000000) by (nonlinear_arith)
            requires
                0 <= d,
                (d as int) * (d as int) <= 0x20000000000000,
        ;
        assert(1 <= size as int * resolution as int <= 0x1000000) by (nonlinear_arith)
            requires
                1 <= size,
                1 <= resolution,
                (size as int + 2) * resolution as int <= 0x1000000,
        ;
    }
    let s = size as i64 * resolution as i64;
    let falloff: i64 = if d <= s {
        let slope = (s - d) * q / resolution as i64;
        if slope < q {
            slope
        } else {
            q
        }
    } else {
        let slope = (d - s) * q / resolution as i64;
        let sat = if slope < 2 * q {
            slope
        } else {
            2 * q
        };
        -sat
    };
    proof {
        lemma_falloff_matches(size, resolution, x as int, y as int, d as int, falloff as int);
        if n + 2 * falloff > 0 {
            lemma_positive_is_bounded(size, resolution, x as int, y as int, d as int, n as int);
        }
    }
    n + 2 * falloff > 0
}

/// The executable falloff equals the specification falloff.
proof fn lemma_falloff_matches(size: u32, resolution: u32, x: int, y: int, d: int, f: int)
    requires
        1 <= resolution,
        d == spec_isqrt(x * x + y * y),
        ({
            let q = NOISE_ONE as int;
            let s = size as int * resolution as int;
            if d <= s {
                f == vstd::math::min((s - d) * q / resolution as int, q)
            } else {
                f == -vstd::math::min((d - s) * q / resolution as int, 2 * q)
            }
        }),
    ensures
        f == spec_landmass_falloff(size, resolution, x, y),
{
}

/// A positive field value can only occur within the field bound: far from
/// the origin the falloff saturates at minus two units while the fractal
/// part never exceeds two and a quarter units in magnitude.
proof fn lemma_positive_is_bounded(size: u32, resolution: u32, x: int, y: int, d: int, n: int)
    requires
        1 <= size,
        1 <= resolution,
        d == spec_isqrt(x * x + y * y),
        -0x90000000 <= n <= 0x90000000,
        n + 2 * spec_landmass_falloff(size, resolution, x, y) > 0,
    ensures
        -spec_field_bound(size, resolution) < x < spec_field_bound(size, resolution),
        -spec_field_bound(size, resolution) < y < spec_field_bound(size, resolution),
{
    let q = NOISE_ONE as int;
    let s = size as int * resolution as int;
    let b = spec_field_bound(size, resolution);
    let d2 = x * x + y * y;
    assert(d2 >= 0 && b > 0 && s >= 0) by (nonlinear_arith)
        requires
            1 <= size,
            1 <= resolution,
            d2 == x * x + y * y,
            b == (size as int + 2) * resolution as int,
            s == size as int * resolution as int,
    ;
    crate::angle::lemma_isqrt_properties(d2);
    if x >= b || x <= -b || y >= b || y <= -b {
        assert(x * x + y * y >= b * b) by (nonlinear_arith)
            requires
                b >= 0,
                x >= b || x <= -b || y >= b || y <= -b,
            ;
        assert(d >= b) by (nonlinear_arith)
            requires
                d == spec_isqrt(d2),
                d2 >= b * b,
                d >= 0,
                (d + 1) * (d + 1) > d2,
                b >= 0,
            ;
        assert(b - s == 2 * resolution) by (nonlinear_arith)
            requires
                b == (size as int + 2) * resolution as int,
                s == size as int * resolution as int,
        ;
        assert((d - s) >= 2 * resolution);
        assert((d - s) * q / resolution as int >= 2 * q) by (nonlinear_arith)
            requires
                (d - s) >= 2 * resolution,
                resolution >= 1,
                q > 0,
            ;
        assert(spec_landmass_falloff(size, resolution, x, y) == -2 * q);
        assert(n + 2 * spec_landmass_falloff(size, resolution, x, y) <= 0x90000000 - 4 * q);
        assert(false);
    }
}

} // verus!
