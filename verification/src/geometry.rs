//! Fixed-point geometry kernel.
//!
//! All functions here are pure, deterministic, and integer-only. Coordinates
//! are microdegrees (see [`crate::models`]); distances are millimeters.
//!
//! Distance between two coordinates is an equirectangular approximation of
//! the great-circle distance on the mean-radius sphere: the longitude
//! difference is scaled by a rational approximation of the cosine of the mean
//! latitude, the two components are combined by an integer square root, and
//! the result is converted from microdegrees of arc to millimeters. The
//! approximation is exact in the sense that every step is a defined integer
//! operation, so identical inputs always give identical outputs.

use vstd::prelude::*;
use vstd::arithmetic::mul::*;
use crate::models::{GeographicCoordinates, coord_in_range, MAX_LNG_UDEG};

verus! {

/// Millimeters in one degree of arc on the mean-radius sphere
/// (pi * 6_371_000 m / 180).
pub const MM_PER_DEGREE: u64 = 111_194_927;

/// An upper bound on any distance this kernel can return for coordinates in
/// the WGS84 range.
pub const MAX_DISTANCE_MM: u64 = 28_355_000_000;

/// The largest of the absolute values of an integer.
pub open spec fn abs_i(x: int) -> int {
    if x >= 0 {
        x
    } else {
        -x
    }
}

/// The floor of the square root of a natural number.
pub open spec fn sqrt_floor(n: nat) -> nat
    decreases n,
{
    if n == 0 {
        0
    } else {
        let p = sqrt_floor((n - 1) as nat);
        if (p + 1) * (p + 1) <= n {
            p + 1
        } else {
            p
        }
    }
}

/// `sqrt_floor(n)` is the unique `r` with `r * r <= n < (r + 1) * (r + 1)`.
pub proof fn lemma_sqrt_floor_bounds(n: nat)
    ensures
        sqrt_floor(n) * sqrt_floor(n) <= n,
        n < (sqrt_floor(n) + 1) * (sqrt_floor(n) + 1),
    decreases n,
{
    if n == 0 {
        assert(sqrt_floor(n) == 0);
        let s = sqrt_floor(n);
        assert(0 < (s + 1) * (s + 1)) by (nonlinear_arith);
        assert(n < (sqrt_floor(n) + 1) * (sqrt_floor(n) + 1));
    } else {
        lemma_sqrt_floor_bounds((n - 1) as nat);
        let p = sqrt_floor((n - 1) as nat);
        assert(sqrt_floor(n) == if (p + 1) * (p + 1) <= n {
            p + 1
        } else {
            p
        });
        if (p + 1) * (p + 1) <= n {
            assert(n == (p + 1) * (p + 1));
            assert((p + 2) * (p + 2) > (p + 1) * (p + 1)) by (nonlinear_arith);
            assert(sqrt_floor(n) == p + 1);
            assert(sqrt_floor(n) + 1 == p + 2);
            assert((sqrt_floor(n) + 1) * (sqrt_floor(n) + 1) == (p + 2) * (p + 2));
            assert(n < (sqrt_floor(n) + 1) * (sqrt_floor(n) + 1));
        } else {
            assert(sqrt_floor(n) == p);
            assert((sqrt_floor(n) + 1) * (sqrt_floor(n) + 1) == (p + 1) * (p + 1));
            assert(n < (sqrt_floor(n) + 1) * (sqrt_floor(n) + 1));
        }
    }
}

/// Any `r` with `r * r <= n < (r + 1) * (r + 1)` equals `sqrt_floor(n)`.
pub proof fn lemma_sqrt_floor_unique(n: nat, r: nat)
    requires
        r * r <= n,
        n < (r + 1) * (r + 1),
    ensures
        r == sqrt_floor(n),
{
    lemma_sqrt_floor_bounds(n);
    let s = sqrt_floor(n);
    if r < s {
        assert((r + 1) * (r + 1) <= s * s) by (nonlinear_arith)
            requires
                r + 1 <= s,
        ;
        assert(false);
    } else if s < r {
        assert((s + 1) * (s + 1) <= r * r) by (nonlinear_arith)
            requires
                s + 1 <= r,
        ;
        assert(false);
    }
}

/// The square root never exceeds its bound: if `n <= b * b` then
/// `sqrt_floor(n) <= b`.
pub proof fn lemma_sqrt_floor_le(n: nat, b: nat)
    requires
        n <= b * b,
    ensures
        sqrt_floor(n) <= b,
{
    lemma_sqrt_floor_bounds(n);
    let s = sqrt_floor(n);
    if s > b {
        assert(s * s >= (b + 1) * (b + 1)) by (nonlinear_arith)
            requires
                s >= b + 1,
        ;
        assert((b + 1) * (b + 1) > b * b) by (nonlinear_arith);
        assert(false);
    }
}

/// Integer square root: the floor of the square root of `n`.
pub fn isqrt(n: u64) -> (r: u64)
    ensures
        r == sqrt_floor(n as nat),
        r * r <= n,
{
    let mut lo: u64 = 0;
    let mut hi: u64 = 4_294_967_296;
    proof {
        assert((4_294_967_296 as int) * (4_294_967_296 as int) > u64::MAX as int);
    }
    while lo + 1 < hi
        invariant
            lo < hi <= 4_294_967_296,
            (lo as int) * (lo as int) <= n as int,
            (n as int) < (hi as int) * (hi as int),
        decreases hi - lo,
    {
        let mid: u64 = lo + (hi - lo) / 2;
        proof {
            assert((mid as int) * (mid as int) <= (4_294_967_296 as int) * (4_294_967_296 as int))
                by (nonlinear_arith)
                requires
                    0 <= mid as int <= 4_294_967_296,
            ;
        }
        let sq: u128 = (mid as u128) * (mid as u128);
        if sq <= n as u128 {
            lo = mid;
        } else {
            hi = mid;
        }
    }
    proof {
        lemma_sqrt_floor_unique(n as nat, lo as nat);
        assert((lo as nat) * (lo as nat) <= n as nat);
    }
    lo
}

/// The absolute latitude difference of two coordinates, in microdegrees.
pub open spec fn spec_dlat(a: GeographicCoordinates, b: GeographicCoordinates) -> int {
    abs_i(a.lat - b.lat)
}

/// The absolute longitude difference of two coordinates, wrapped across the
/// antimeridian so that it never exceeds 180 degrees.
pub open spec fn spec_dlng(a: GeographicCoordinates, b: GeographicCoordinates) -> int {
    let d = abs_i(a.lng - b.lng);
    if d > MAX_LNG_UDEG {
        360_000_000 - d
    } else {
        d
    }
}

/// The absolute value of the mean latitude of two coordinates, rounded down,
/// in microdegrees.
pub open spec fn spec_mean_abs_lat(a: GeographicCoordinates, b: GeographicCoordinates) -> int {
    abs_i(a.lat + b.lat) / 2
}

/// Numerator of the rational cosine approximation at latitude `m`
/// microdegrees (Bhaskara I: cos x deg = 4 * (8100 - x^2) / (32400 + x^2),
/// scaled so that `m` stays in microdegrees).
pub open spec fn spec_cos_num(m: int) -> int {
    4 * (8_100_000_000_000_000 - m * m)
}

/// Denominator of the rational cosine approximation at latitude `m`
/// microdegrees.
pub open spec fn spec_cos_den(m: int) -> int {
    32_400_000_000_000_000 + m * m
}

/// The longitude difference of `a` and `b` scaled by the cosine of their
/// mean latitude, in microdegrees.
pub open spec fn spec_dlng_scaled(a: GeographicCoordinates, b: GeographicCoordinates) -> int {
    let m = spec_mean_abs_lat(a, b);
    (spec_dlng(a, b) * spec_cos_num(m)) / spec_cos_den(m)
}

/// The distance between two coordinates in millimeters: the equirectangular
/// combination of the latitude difference and the scaled longitude
/// difference, converted from microdegrees of arc to millimeters.
pub open spec fn spec_distance_mm(a: GeographicCoordinates, b: GeographicCoordinates) -> int {
    let q = (spec_dlat(a, b) * spec_dlat(a, b) + spec_dlng_scaled(a, b) * spec_dlng_scaled(a, b))
        as nat;
    (MM_PER_DEGREE * sqrt_floor(q)) / 1_000_000
}

/// For coordinates in the WGS84 range, the distance is at most
/// `MAX_DISTANCE_MM`.
pub proof fn lemma_distance_bound(a: GeographicCoordinates, b: GeographicCoordinates)
    requires
        coord_in_range(a),
        coord_in_range(b),
    ensures
        0 <= spec_distance_mm(a, b) <= MAX_DISTANCE_MM,
{
    let m = spec_mean_abs_lat(a, b);
    let dlat = spec_dlat(a, b);
    let dlng = spec_dlng(a, b);
    assert(0 <= m <= 90_000_000);
    assert(0 <= dlat <= 180_000_000);
    assert(0 <= dlng <= 180_000_000);
    lemma_cos_fraction_bounds(m);
    let adj = spec_dlng_scaled(a, b);
    assert(0 <= adj <= dlng) by {
        lemma_scale_down_bounds(dlng, spec_cos_num(m), spec_cos_den(m));
    }
    let q = (dlat * dlat + adj * adj) as nat;
    assert(dlat * dlat <= 180_000_000 * 180_000_000) by (nonlinear_arith)
        requires
            0 <= dlat <= 180_000_000,
    ;
    assert(adj * adj <= 180_000_000 * 180_000_000) by (nonlinear_arith)
        requires
            0 <= adj <= 180_000_000,
    ;
    assert(q <= 254_558_442 * 254_558_442);
    lemma_sqrt_floor_le(q, 254_558_442);
    let r = sqrt_floor(q);
    assert(MM_PER_DEGREE * r <= MM_PER_DEGREE * 254_558_442) by {
        lemma_mul_inequality(r as int, 254_558_442, MM_PER_DEGREE as int);
    }
    assert((MM_PER_DEGREE as int) * 254_558_442 / 1_000_000 <= MAX_DISTANCE_MM);
    assert(spec_distance_mm(a, b) <= MAX_DISTANCE_MM) by {
        vstd::arithmetic::div_mod::lemma_div_is_ordered(
            (MM_PER_DEGREE * r) as int,
            (MM_PER_DEGREE as int) * 254_558_442,
            1_000_000,
        );
    }
    vstd::arithmetic::div_mod::lemma_div_pos_is_pos((MM_PER_DEGREE * r) as int, 1_000_000);
}

/// The cosine fraction is a proper fraction: nonnegative numerator never
/// above the positive denominator, for latitudes up to 90 degrees.
proof fn lemma_cos_fraction_bounds(m: int)
    requires
        0 <= m <= 90_000_000,
    ensures
        0 <= spec_cos_num(m) <= spec_cos_den(m),
{
    assert(m * m <= 8_100_000_000_000_000) by (nonlinear_arith)
        requires
            0 <= m <= 90_000_000,
    ;
    assert(m * m >= 0) by (nonlinear_arith);
}

/// Scaling a nonnegative quantity by a proper fraction does not increase it.
proof fn lemma_scale_down_bounds(x: int, num: int, den: int)
    requires
        0 <= x,
        0 <= num <= den,
        0 < den,
    ensures
        0 <= (x * num) / den <= x,
{
    lemma_mul_nonnegative(x, num);
    vstd::arithmetic::div_mod::lemma_div_pos_is_pos(x * num, den);
    assert(x * num <= x * den) by {
        lemma_mul_inequality(num, den, x);
        lemma_mul_is_commutative(x, num);
        lemma_mul_is_commutative(x, den);
    }
    vstd::arithmetic::div_mod::lemma_div_is_ordered(x * num, x * den, den);
    vstd::arithmetic::div_mod::lemma_div_by_multiple(x, den);
}

/// Distance between two coordinates, in millimeters.
///
/// Returns exactly [`spec_distance_mm`]; in particular it is zero for equal
/// coordinates and never exceeds [`MAX_DISTANCE_MM`].
pub fn distance_mm(a: GeographicCoordinates, b: GeographicCoordinates) -> (r: u64)
    requires
        coord_in_range(a),
        coord_in_range(b),
    ensures
        r == spec_distance_mm(a, b),
        r <= MAX_DISTANCE_MM,
        a == b ==> r == 0,
{
    proof {
        lemma_distance_bound(a, b);
    }
    let dlat_raw: i64 = a.lat - b.lat;
    let dlat: u64 = if dlat_raw >= 0 {
        dlat_raw as u64
    } else {
        (-dlat_raw) as u64
    };
    let dlng_abs_raw: i64 = a.lng - b.lng;
    let dlng_abs: u64 = if dlng_abs_raw >= 0 {
        dlng_abs_raw as u64
    } else {
        (-dlng_abs_raw) as u64
    };
    let dlng: u64 = if dlng_abs > 180_000_000 {
        360_000_000 - dlng_abs
    } else {
        dlng_abs
    };
    let msum: i64 = a.lat + b.lat;
    let mabs: u64 = if msum >= 0 {
        msum as u64
    } else {
        (-msum) as u64
    };
    let m: u64 = mabs / 2;
    proof {
        assert(m == spec_mean_abs_lat(a, b));
        assert((m as int) * (m as int) <= 8_100_000_000_000_000 && (m as int) * (m as int) >= 0)
            by (nonlinear_arith)
            requires
                0 <= m as int <= 90_000_000,
        ;
    }
    let msq: u64 = m * m;
    let num: u64 = 4 * (8_100_000_000_000_000 - msq);
    let den: u64 = 32_400_000_000_000_000 + msq;
    proof {
        lemma_cos_fraction_bounds(m as int);
        lemma_scale_down_bounds(dlng as int, num as int, den as int);
    }
    proof {
        assert((dlng as int) * (num as int) <= (360_000_000 as int) * (32_400_000_000_000_000
            as int)) by (nonlinear_arith)
            requires
                0 <= dlng as int <= 360_000_000,
                0 <= num as int <= 32_400_000_000_000_000,
        ;
    }
    let adj: u64 = (((dlng as u128) * (num as u128)) / (den as u128)) as u64;
    proof {
        assert(adj == spec_dlng_scaled(a, b));
        assert((dlat as int) * (dlat as int) + (adj as int) * (adj as int) <= 180_000_000
            * 180_000_000 + 180_000_000 * 180_000_000) by (nonlinear_arith)
            requires
                0 <= dlat as int <= 180_000_000,
                0 <= adj as int <= 180_000_000,
        ;
    }
    let q: u64 = dlat * dlat + adj * adj;
    let root: u64 = isqrt(q);
    proof {
        lemma_sqrt_floor_le(q as nat, 254_558_442);
        assert((254_558_442 as nat) * (254_558_442 as nat) >= q as nat);
        lemma_mul_inequality(root as int, 254_558_442, MM_PER_DEGREE as int);
    }
    let scaled: u128 = (MM_PER_DEGREE as u128) * (root as u128);
    let r: u64 = (scaled / 1_000_000) as u64;
    proof {
        vstd::arithmetic::div_mod::lemma_div_is_ordered(
            scaled as int,
            (MM_PER_DEGREE as int) * 254_558_442,
            1_000_000,
        );
        assert((MM_PER_DEGREE as int) * 254_558_442 / 1_000_000 <= MAX_DISTANCE_MM);
        vstd::arithmetic::div_mod::lemma_div_pos_is_pos(scaled as int, 1_000_000);
        if a == b {
            assert(dlat == 0 && dlng == 0);
            vstd::arithmetic::div_mod::lemma_div_basics_1(den as int);
            assert(adj == 0);
            lemma_mul_by_zero_is_zero(dlat as int);
            lemma_mul_by_zero_is_zero(adj as int);
            assert(q == 0);
            assert(root == 0);
            assert(scaled == 0);
            assert(r == 0);
        }
    }
    r
}

/// Approximation of the arctangent, in millidegrees, of a ratio `t` given
/// in thousandths (0 for 0, 1000 for 1): `45 * t` plus a quadratic
/// correction. Within about a sixth of a degree of the true arctangent on
/// its whole range.
pub open spec fn spec_atan_mdeg(t: int) -> int {
    45 * t + (15_640 * t * (1000 - t)) / 1_000_000
}

/// The arctangent approximation stays within one octant: between 0 and 45
/// degrees for ratios between 0 and 1.
pub proof fn lemma_atan_bounds(t: int)
    requires
        0 <= t <= 1000,
    ensures
        0 <= spec_atan_mdeg(t) <= 45_000,
{
    let corr = 15_640 * t * (1000 - t);
    assert(15_640 * t * (1000 - t) >= 0) by (nonlinear_arith)
        requires
            0 <= t <= 1000,
    ;
    vstd::arithmetic::div_mod::lemma_div_pos_is_pos(corr, 1_000_000);
    assert(15_640 * t * (1000 - t) <= 1_000_000 * (45_000 - 45 * t)) by (nonlinear_arith)
        requires
            0 <= t <= 1000,
    ;
    vstd::arithmetic::div_mod::lemma_div_is_ordered(
        corr,
        1_000_000 * (45_000 - 45 * t),
        1_000_000,
    );
    vstd::arithmetic::div_mod::lemma_div_multiples_vanish(45_000 - 45 * t, 1_000_000);
}

/// The angle, clockwise from north in millidegrees and within one quadrant,
/// of a direction with east magnitude `ax` and north magnitude `ay` (both
/// nonnegative, not both zero).
pub open spec fn spec_quadrant_angle_mdeg(ax: int, ay: int) -> int {
    if ax <= ay {
        spec_atan_mdeg((1000 * ax) / ay)
    } else {
        90_000 - spec_atan_mdeg((1000 * ay) / ax)
    }
}

/// The initial bearing from `a` to `b`, clockwise from true north, in
/// millidegrees within `[0, 360_000)`: the quadrant angle of the
/// equirectangular direction vector (east component scaled by the cosine of
/// the mean latitude), reflected into the right quadrant; 0 for identical
/// coordinates.
pub open spec fn spec_bearing_mdeg(a: GeographicCoordinates, b: GeographicCoordinates) -> int {
    let dy = b.lat - a.lat;
    let m = spec_mean_abs_lat(a, b);
    let ax = (abs_i(b.lng - a.lng) * spec_cos_num(m)) / spec_cos_den(m);
    let ay = abs_i(dy);
    if ax == 0 && ay == 0 {
        0
    } else {
        let base = spec_quadrant_angle_mdeg(ax, ay);
        let east = b.lng - a.lng >= 0;
        let north = dy >= 0;
        let r = if east && north {
            base
        } else if east && !north {
            180_000 - base
        } else if !east && !north {
            180_000 + base
        } else {
            360_000 - base
        };
        if r >= 360_000 {
            r - 360_000
        } else {
            r
        }
    }
}

/// The quadrant angle lies between 0 and 90 degrees.
pub proof fn lemma_quadrant_angle_bounds(ax: int, ay: int)
    requires
        0 <= ax,
        0 <= ay,
        ax > 0 || ay > 0,
    ensures
        0 <= spec_quadrant_angle_mdeg(ax, ay) <= 90_000,
{
    if ax <= ay {
        let t = (1000 * ax) / ay;
        vstd::arithmetic::div_mod::lemma_div_pos_is_pos(1000 * ax, ay);
        assert(1000 * ax <= 1000 * ay) by (nonlinear_arith)
            requires
                ax <= ay,
        ;
        vstd::arithmetic::div_mod::lemma_div_is_ordered(1000 * ax, 1000 * ay, ay);
        assert((ay * 1000) / ay == 1000) by {
            vstd::arithmetic::div_mod::lemma_div_multiples_vanish(1000, ay);
        }
        lemma_mul_is_commutative(ay, 1000);
        lemma_atan_bounds(t);
    } else {
        let t = (1000 * ay) / ax;
        vstd::arithmetic::div_mod::lemma_div_pos_is_pos(1000 * ay, ax);
        assert(1000 * ay <= 1000 * ax) by (nonlinear_arith)
            requires
                ay <= ax,
        ;
        vstd::arithmetic::div_mod::lemma_div_is_ordered(1000 * ay, 1000 * ax, ax);
        assert((ax * 1000) / ax == 1000) by {
            vstd::arithmetic::div_mod::lemma_div_multiples_vanish(1000, ax);
        }
        lemma_mul_is_commutative(ax, 1000);
        lemma_atan_bounds(t);
    }
}

/// The arctangent approximation of a ratio within one, given in
/// thousandths, in millidegrees.
fn atan_mdeg(t: u64) -> (r: u64)
    requires
        t <= 1000,
    ensures
        r == spec_atan_mdeg(t as int),
        r <= 45_000,
{
    proof {
        lemma_atan_bounds(t as int);
        assert(15_640 * (t as int) * (1000 - t as int) <= 15_640 * 1000 * 1000)
            by (nonlinear_arith)
            requires
                0 <= t as int <= 1000,
        ;
        assert(15_640 * (t as int) * (1000 - t as int) >= 0) by (nonlinear_arith)
            requires
                0 <= t as int <= 1000,
        ;
    }
    let corr: u64 = (15_640 * t * (1000 - t)) / 1_000_000;
    45 * t + corr
}

/// The initial bearing from `a` to `b` in millidegrees, clockwise from true
/// north, always below 360 degrees; 0 when the coordinates coincide.
pub fn bearing_mdeg(a: GeographicCoordinates, b: GeographicCoordinates) -> (r: u64)
    requires
        coord_in_range(a),
        coord_in_range(b),
    ensures
        r == spec_bearing_mdeg(a, b),
        r < 360_000,
{
    let dy: i64 = b.lat - a.lat;
    let dx: i64 = b.lng - a.lng;
    let msum: i64 = a.lat + b.lat;
    let mabs: u64 = if msum >= 0 {
        msum as u64
    } else {
        (-msum) as u64
    };
    let m: u64 = mabs / 2;
    proof {
        assert((m as int) * (m as int) <= 8_100_000_000_000_000 && (m as int) * (m as int) >= 0)
            by (nonlinear_arith)
            requires
                0 <= m as int <= 90_000_000,
        ;
        lemma_cos_fraction_bounds(m as int);
    }
    let msq: u64 = m * m;
    let num: u64 = 4 * (8_100_000_000_000_000 - msq);
    let den: u64 = 32_400_000_000_000_000 + msq;
    let adx: u64 = if dx >= 0 {
        dx as u64
    } else {
        (-dx) as u64
    };
    proof {
        lemma_scale_down_bounds(adx as int, num as int, den as int);
        assert((adx as int) * (num as int) <= (360_000_000 as int) * (32_400_000_000_000_000
            as int)) by (nonlinear_arith)
            requires
                0 <= adx as int <= 360_000_000,
                0 <= num as int <= 32_400_000_000_000_000,
        ;
    }
    let ax: u64 = (((adx as u128) * (num as u128)) / (den as u128)) as u64;
    let ay: u64 = if dy >= 0 {
        dy as u64
    } else {
        (-dy) as u64
    };
    if ax == 0 && ay == 0 {
        return 0;
    }
    proof {
        lemma_quadrant_angle_bounds(ax as int, ay as int);
    }
    let base: u64;
    if ax <= ay {
        proof {
            assert((1000 as int) * (ax as int) <= 1000 * 360_000_000) by (nonlinear_arith)
                requires
                    0 <= ax as int <= 360_000_000,
            ;
            vstd::arithmetic::div_mod::lemma_div_pos_is_pos(1000 * (ax as int), ay as int);
            assert(1000 * (ax as int) <= 1000 * (ay as int)) by (nonlinear_arith)
                requires
                    ax as int <= ay as int,
            ;
            vstd::arithmetic::div_mod::lemma_div_is_ordered(
                1000 * (ax as int),
                1000 * (ay as int),
                ay as int,
            );
            vstd::arithmetic::div_mod::lemma_div_multiples_vanish(1000, ay as int);
            lemma_mul_is_commutative(ay as int, 1000);
        }
        let t: u64 = (1000 * ax) / ay;
        base = atan_mdeg(t);
    } else {
        proof {
            assert((1000 as int) * (ay as int) <= 1000 * 360_000_000) by (nonlinear_arith)
                requires
                    0 <= ay as int <= 360_000_000,
            ;
            vstd::arithmetic::div_mod::lemma_div_pos_is_pos(1000 * (ay as int), ax as int);
            assert(1000 * (ay as int) <= 1000 * (ax as int)) by (nonlinear_arith)
                requires
                    ay as int <= ax as int,
            ;
            vstd::arithmetic::div_mod::lemma_div_is_ordered(
                1000 * (ay as int),
                1000 * (ax as int),
                ax as int,
            );
            vstd::arithmetic::div_mod::lemma_div_multiples_vanish(1000, ax as int);
            lemma_mul_is_commutative(ax as int, 1000);
        }
        let t: u64 = (1000 * ay) / ax;
        base = 90_000 - atan_mdeg(t);
    }
    let east = dx >= 0;
    let north = dy >= 0;
    let r: u64 = if east && north {
        base
    } else if east && !north {
        180_000 - base
    } else if !east && !north {
        180_000 + base
    } else {
        360_000 - base
    };
    if r >= 360_000 {
        r - 360_000
    } else {
        r
    }
}

/// Dot product of `p - a` with `b - a` in the microdegree plane.
pub open spec fn spec_seg_dot(p: GeographicCoordinates, a: GeographicCoordinates, b: GeographicCoordinates) -> int {
    (p.lng - a.lng) * (b.lng - a.lng) + (p.lat - a.lat) * (b.lat - a.lat)
}

/// Squared length of the segment from `a` to `b` in the microdegree plane.
pub open spec fn spec_seg_len2(a: GeographicCoordinates, b: GeographicCoordinates) -> int {
    (b.lng - a.lng) * (b.lng - a.lng) + (b.lat - a.lat) * (b.lat - a.lat)
}

/// How far along the segment from `a` to `b` the projection of `p` falls,
/// clamped to the segment, in parts per million (0 at `a`, 1_000_000 at
/// `b`); 0 for a degenerate segment.
pub open spec fn spec_fraction_ppm(p: GeographicCoordinates, a: GeographicCoordinates, b: GeographicCoordinates) -> int {
    let d = spec_seg_dot(p, a, b);
    let l = spec_seg_len2(a, b);
    if l == 0 || d <= 0 {
        0
    } else if d >= l {
        1_000_000
    } else {
        (d * 1_000_000) / l
    }
}

/// The interpolation offset `d * delta / l` with the magnitude rounded
/// down (toward the segment start), keeping the sign of `delta`.
pub open spec fn spec_interp_offset(d: int, delta: int, l: int) -> int {
    if delta >= 0 {
        (d * delta) / l
    } else {
        -((d * (-delta)) / l)
    }
}

/// The point of the segment from `a` to `b` closest to `p` in the
/// microdegree plane, clamped to the segment and rounded toward `a`.
pub open spec fn spec_closest_point(p: GeographicCoordinates, a: GeographicCoordinates, b: GeographicCoordinates) -> GeographicCoordinates {
    let d = spec_seg_dot(p, a, b);
    let l = spec_seg_len2(a, b);
    if l == 0 || d <= 0 {
        a
    } else if d >= l {
        b
    } else {
        GeographicCoordinates {
            lng: (a.lng + spec_interp_offset(d, b.lng - a.lng, l)) as i64,
            lat: (a.lat + spec_interp_offset(d, b.lat - a.lat, l)) as i64,
        }
    }
}

/// Each coordinate of the closest point lies between the corresponding
/// coordinates of the segment's endpoints; in particular the closest point
/// of a segment with endpoints in the WGS84 range is in range itself.
pub proof fn lemma_closest_point_in_range(p: GeographicCoordinates, a: GeographicCoordinates, b: GeographicCoordinates)
    requires
        coord_in_range(a),
        coord_in_range(b),
    ensures
        coord_in_range(spec_closest_point(p, a, b)),
{
    let d = spec_seg_dot(p, a, b);
    let l = spec_seg_len2(a, b);
    if l == 0 || d <= 0 {
    } else if d >= l {
    } else {
        lemma_interp_offset_bounds(d, b.lng - a.lng, l);
        lemma_interp_offset_bounds(d, b.lat - a.lat, l);
    }
}

/// The interpolation offset has magnitude at most that of `delta` and the
/// same sign, for a projection strictly inside the segment.
pub proof fn lemma_interp_offset_bounds(d: int, delta: int, l: int)
    requires
        0 < d < l,
    ensures
        delta >= 0 ==> 0 <= spec_interp_offset(d, delta, l) <= delta,
        delta < 0 ==> delta <= spec_interp_offset(d, delta, l) <= 0,
{
    if delta >= 0 {
        lemma_scale_down_bounds(delta, d, l);
        lemma_mul_is_commutative(d, delta);
    } else {
        lemma_scale_down_bounds(-delta, d, l);
        lemma_mul_is_commutative(d, -delta);
    }
}

/// The projection of a point onto one segment: the closest point of the
/// segment, the distance from the queried point to it, and how far along
/// the segment it falls.
pub struct SegmentProjection {
    pub point: GeographicCoordinates,
    pub distance_mm: u64,
    pub fraction_ppm: u32,
}

/// Projects `p` onto the segment from `a` to `b`, clamped to the segment
/// (not the infinite line). Pure and deterministic.
pub fn project_onto_segment(p: GeographicCoordinates, a: GeographicCoordinates, b: GeographicCoordinates) -> (r: SegmentProjection)
    requires
        coord_in_range(p),
        coord_in_range(a),
        coord_in_range(b),
    ensures
        r.point == spec_closest_point(p, a, b),
        coord_in_range(r.point),
        r.fraction_ppm == spec_fraction_ppm(p, a, b),
        r.fraction_ppm <= 1_000_000,
        r.distance_mm == spec_distance_mm(p, spec_closest_point(p, a, b)),
        r.distance_mm <= MAX_DISTANCE_MM,
{
    let vx: i64 = b.lng - a.lng;
    let vy: i64 = b.lat - a.lat;
    let wx: i64 = p.lng - a.lng;
    let wy: i64 = p.lat - a.lat;
    proof {
        lemma_plane_products_bounded(wx as int, vx as int);
        lemma_plane_products_bounded(wy as int, vy as int);
        lemma_plane_products_bounded(vx as int, vx as int);
        lemma_plane_products_bounded(vy as int, vy as int);
    }
    let d: i128 = (wx as i128) * (vx as i128) + (wy as i128) * (vy as i128);
    let l: i128 = (vx as i128) * (vx as i128) + (vy as i128) * (vy as i128);
    proof {
        assert((vx as int) * (vx as int) >= 0 && (vy as int) * (vy as int) >= 0)
            by (nonlinear_arith);
        lemma_closest_point_in_range(p, a, b);
    }
    let point: GeographicCoordinates;
    let fraction_ppm: u32;
    if l == 0 || d <= 0 {
        point = a;
        fraction_ppm = 0;
    } else if d >= l {
        point = b;
        fraction_ppm = 1_000_000;
    } else {
        proof {
            assert((d as int) * 1_000_000 <= (260_000_000_000_000_000 as int) * 1_000_000)
                by (nonlinear_arith)
                requires
                    0 <= d as int <= 260_000_000_000_000_000,
            ;
            vstd::arithmetic::div_mod::lemma_multiply_divide_lt(
                (d as int) * 1_000_000,
                l as int,
                1_000_000,
            );
            assert((l as int) * 1_000_000 == 1_000_000 * (l as int)) by {
                lemma_mul_is_commutative(l as int, 1_000_000);
            }
            lemma_mul_strict_inequality(d as int, l as int, 1_000_000);
            vstd::arithmetic::div_mod::lemma_div_pos_is_pos((d as int) * 1_000_000, l as int);
            lemma_interp_offset_bounds(d as int, (b.lng - a.lng) as int, l as int);
            lemma_interp_offset_bounds(d as int, (b.lat - a.lat) as int, l as int);
        }
        fraction_ppm = (((d as u128) * 1_000_000) / (l as u128)) as u32;
        let offx: i64 = interp_offset(d, vx, l);
        let offy: i64 = interp_offset(d, vy, l);
        point = GeographicCoordinates { lng: a.lng + offx, lat: a.lat + offy };
    }
    let distance_mm = distance_mm(p, point);
    SegmentProjection { point, distance_mm, fraction_ppm }
}

/// Products of coordinate differences in the WGS84 range stay far inside
/// the `i128` range.
proof fn lemma_plane_products_bounded(x: int, y: int)
    requires
        -360_000_000 <= x <= 360_000_000,
        -360_000_000 <= y <= 360_000_000,
    ensures
        -130_000_000_000_000_000 <= x * y <= 130_000_000_000_000_000,
{
    assert(-130_000_000_000_000_000 <= x * y <= 130_000_000_000_000_000) by (nonlinear_arith)
        requires
            -360_000_000 <= x <= 360_000_000,
            -360_000_000 <= y <= 360_000_000,
    ;
}

/// The interpolation offset of one coordinate of the closest point, for a
/// projection strictly inside the segment.
fn interp_offset(d: i128, delta: i64, l: i128) -> (r: i64)
    requires
        0 < d < l,
        l <= 260_000_000_000_000_000,
        -360_000_000 <= delta <= 360_000_000,
    ensures
        r == spec_interp_offset(d as int, delta as int, l as int),
        delta >= 0 ==> 0 <= r <= delta,
        delta < 0 ==> delta <= r <= 0,
{
    proof {
        lemma_interp_offset_bounds(d as int, delta as int, l as int);
        assert((d as int) * 360_000_000 <= (260_000_000_000_000_000 as int) * 360_000_000)
            by (nonlinear_arith)
            requires
                0 <= d as int <= 260_000_000_000_000_000,
        ;
        lemma_mul_inequality(d as int, 260_000_000_000_000_000, 360_000_000);
    }
    if delta >= 0 {
        proof {
            lemma_mul_inequality(delta as int, 360_000_000, d as int);
            lemma_mul_is_commutative(d as int, delta as int);
        }
        let q: u128 = ((d as u128) * (delta as u128)) / (l as u128);
        q as i64
    } else {
        proof {
            lemma_mul_inequality(-(delta as int), 360_000_000, d as int);
            lemma_mul_is_commutative(d as int, -(delta as int));
        }
        let nd: u128 = (-delta) as u128;
        let q: u128 = ((d as u128) * nd) / (l as u128);
        -(q as i64)
    }
}

/// The most geometry points a path handled by this kernel may have; keeps
/// every cumulative distance within `u64`.
pub const MAX_GEOMETRY_POINTS: usize = 200_000_000;

/// Every coordinate of the sequence is in the WGS84 range.
pub open spec fn coords_in_range(s: Seq<GeographicCoordinates>) -> bool {
    forall|i: int| 0 <= i < s.len() ==> coord_in_range(#[trigger] s[i])
}

/// Length in millimeters of the part of `path` from point `s` to point `e`:
/// the sum of the distances of consecutive points.
pub open spec fn spec_range_length_mm(path: Seq<GeographicCoordinates>, s: int, e: int) -> int
    decreases e - s,
{
    if s >= e {
        0
    } else {
        spec_range_length_mm(path, s, e - 1) + spec_distance_mm(path[e - 1], path[e])
    }
}

/// A range length is nonnegative and at most one maximal distance per
/// segment.
pub proof fn lemma_range_length_bounds(path: Seq<GeographicCoordinates>, s: int, e: int)
    requires
        coords_in_range(path),
        0 <= s <= e < path.len(),
    ensures
        0 <= spec_range_length_mm(path, s, e) <= (e - s) * MAX_DISTANCE_MM,
    decreases e - s,
{
    if s >= e {
    } else {
        lemma_range_length_bounds(path, s, e - 1);
        lemma_distance_bound(path[e - 1], path[e]);
        assert((e - s) * MAX_DISTANCE_MM == (e - 1 - s) * MAX_DISTANCE_MM + MAX_DISTANCE_MM)
            by (nonlinear_arith);
    }
}

/// Length in millimeters of the part of `path` between two of its points.
pub fn path_range_length_mm(path: &Vec<GeographicCoordinates>, s: usize, e: usize) -> (r: u64)
    requires
        coords_in_range(path@),
        s <= e < path@.len(),
        path@.len() <= MAX_GEOMETRY_POINTS,
    ensures
        r == spec_range_length_mm(path@, s as int, e as int),
{
    let mut acc: u64 = 0;
    let mut i: usize = s;
    while i < e
        invariant
            s <= i <= e < path@.len(),
            path@.len() <= MAX_GEOMETRY_POINTS,
            coords_in_range(path@),
            acc == spec_range_length_mm(path@, s as int, i as int),
            acc <= (i - s) * MAX_DISTANCE_MM,
        decreases e - i,
    {
        let d = distance_mm(path[i], path[i + 1]);
        acc = acc + d;
        i = i + 1;
    }
    proof {
        lemma_range_length_bounds(path@, s as int, e as int);
    }
    acc
}

/// Range lengths add up across a middle point.
pub proof fn lemma_range_length_additive(
    path: Seq<GeographicCoordinates>,
    s: int,
    m: int,
    e: int,
)
    requires
        s <= m <= e,
    ensures
        spec_range_length_mm(path, s, e) == spec_range_length_mm(path, s, m)
            + spec_range_length_mm(path, m, e),
    decreases e - m,
{
    if m == e {
    } else {
        lemma_range_length_additive(path, s, m, e - 1);
    }
}

/// Total length of a path in millimeters; zero for a path of fewer than two
/// points.
pub open spec fn spec_path_length_mm(path: Seq<GeographicCoordinates>) -> int {
    if path.len() == 0 {
        0
    } else {
        spec_range_length_mm(path, 0, path.len() - 1)
    }
}

/// What is left of a path after `from_cumulative_mm` millimeters of it:
/// its total length minus the given cumulative distance, never negative.
pub open spec fn spec_remaining_mm(total: int, cumulative: int) -> int {
    if cumulative >= total {
        0
    } else {
        total - cumulative
    }
}

/// Total path length minus the given cumulative distance along it, floored
/// at zero.
pub fn remaining_distance_mm(path: &Vec<GeographicCoordinates>, from_cumulative_mm: u64) -> (r:
    u64)
    requires
        coords_in_range(path@),
        path@.len() <= MAX_GEOMETRY_POINTS,
    ensures
        r == spec_remaining_mm(spec_path_length_mm(path@), from_cumulative_mm as int),
{
    if path.len() == 0 {
        return 0;
    }
    let total = path_range_length_mm(path, 0, path.len() - 1);
    if from_cumulative_mm >= total {
        0
    } else {
        total - from_cumulative_mm
    }
}

/// The closest point of segment `i` of `path` to `p` (segment `i` joins
/// points `i` and `i + 1`).
pub open spec fn spec_seg_closest(path: Seq<GeographicCoordinates>, p: GeographicCoordinates, i: int) -> GeographicCoordinates {
    spec_closest_point(p, path[i], path[i + 1])
}

/// The distance from `p` to its projection on segment `i` of `path`.
pub open spec fn spec_seg_dist(path: Seq<GeographicCoordinates>, p: GeographicCoordinates, i: int) -> int {
    spec_distance_mm(p, spec_seg_closest(path, p, i))
}

/// The segment of `path` among `s..e` (point indices; segments `s` to
/// `e - 1`) whose clamped projection of `p` lies closest; the earliest such
/// segment when several are equally close.
pub open spec fn spec_best_segment(path: Seq<GeographicCoordinates>, p: GeographicCoordinates, s: int, e: int) -> int
    decreases e - s,
{
    if s + 1 >= e {
        s
    } else {
        let rest = spec_best_segment(path, p, s + 1, e);
        if spec_seg_dist(path, p, s) <= spec_seg_dist(path, p, rest) {
            s
        } else {
            rest
        }
    }
}

/// The best segment is one of the considered segments, is at least as close
/// as every considered segment, and is the earliest of the closest ones.
pub proof fn lemma_best_segment_min(path: Seq<GeographicCoordinates>, p: GeographicCoordinates, s: int, e: int)
    requires
        s < e,
    ensures
        s <= spec_best_segment(path, p, s, e) < e,
        forall|j: int|
            s <= j < e ==> spec_seg_dist(path, p, spec_best_segment(path, p, s, e))
                <= #[trigger] spec_seg_dist(path, p, j),
        forall|j: int|
            s <= j < spec_best_segment(path, p, s, e) ==> spec_seg_dist(
                path,
                p,
                spec_best_segment(path, p, s, e),
            ) < #[trigger] spec_seg_dist(path, p, j),
    decreases e - s,
{
    if s + 1 >= e {
    } else {
        lemma_best_segment_min(path, p, s + 1, e);
    }
}

/// The projection of a point onto a path: the closest point over all the
/// path's segments, the distance to it, the distance along the path from
/// its start to the projected point, and the index of the chosen segment.
pub struct PathProjection {
    pub point: GeographicCoordinates,
    pub distance_mm: u64,
    pub cumulative_mm: u64,
    pub segment_index: usize,
}

/// The point a path projection snaps to.
pub open spec fn spec_path_proj_point(path: Seq<GeographicCoordinates>, p: GeographicCoordinates, s: int, e: int) -> GeographicCoordinates {
    spec_seg_closest(path, p, spec_best_segment(path, p, s, e))
}

/// The distance from the queried point to a path projection's point.
pub open spec fn spec_path_proj_dist(path: Seq<GeographicCoordinates>, p: GeographicCoordinates, s: int, e: int) -> int {
    spec_seg_dist(path, p, spec_best_segment(path, p, s, e))
}

/// The distance along the path from point `s` to a path projection's point.
pub open spec fn spec_path_proj_cum(path: Seq<GeographicCoordinates>, p: GeographicCoordinates, s: int, e: int) -> int {
    let b = spec_best_segment(path, p, s, e);
    spec_range_length_mm(path, s, b) + spec_distance_mm(path[b], spec_seg_closest(path, p, b))
}

/// Projects `p` onto the part of `path` between points `s` and `e`,
/// returning the globally closest clamped segment projection; ties are
/// broken in favor of the earliest segment.
pub fn project_onto_path_range(p: GeographicCoordinates, path: &Vec<GeographicCoordinates>, s: usize, e: usize) -> (r: PathProjection)
    requires
        coord_in_range(p),
        coords_in_range(path@),
        s < e < path@.len(),
        path@.len() <= MAX_GEOMETRY_POINTS,
    ensures
        r.segment_index == spec_best_segment(path@, p, s as int, e as int),
        s <= r.segment_index < e,
        r.point == spec_path_proj_point(path@, p, s as int, e as int),
        coord_in_range(r.point),
        r.distance_mm == spec_path_proj_dist(path@, p, s as int, e as int),
        r.distance_mm <= MAX_DISTANCE_MM,
        r.cumulative_mm == spec_path_proj_cum(path@, p, s as int, e as int),
{
    let mut i: usize = e - 1;
    let first = project_onto_segment(p, path[i], path[i + 1]);
    let mut best: usize = i;
    let mut best_dist: u64 = first.distance_mm;
    while i > s
        invariant
            s <= i <= e - 1,
            e < path@.len(),
            path@.len() <= MAX_GEOMETRY_POINTS,
            coord_in_range(p),
            coords_in_range(path@),
            best == spec_best_segment(path@, p, i as int, e as int),
            i <= best < e,
            best_dist == spec_seg_dist(path@, p, best as int),
        decreases i,
    {
        i = i - 1;
        let pr = project_onto_segment(p, path[i], path[i + 1]);
        if pr.distance_mm <= best_dist {
            best = i;
            best_dist = pr.distance_mm;
        }
    }
    let pr = project_onto_segment(p, path[best], path[best + 1]);
    let prefix = path_range_length_mm(path, s, best);
    let to_point = distance_mm(path[best], pr.point);
    proof {
        lemma_range_length_bounds(path@, s as int, best as int);
    }
    PathProjection {
        point: pr.point,
        distance_mm: pr.distance_mm,
        cumulative_mm: prefix + to_point,
        segment_index: best,
    }
}

/// The distance from any coordinate to itself is zero.
pub proof fn lemma_distance_self(p: GeographicCoordinates)
    ensures
        spec_distance_mm(p, p) == 0,
{
    let m = spec_mean_abs_lat(p, p);
    assert(m * m >= 0) by (nonlinear_arith);
    assert(spec_dlat(p, p) == 0);
    assert(spec_dlng(p, p) == 0);
    lemma_mul_by_zero_is_zero(spec_cos_num(m));
    vstd::arithmetic::div_mod::lemma_div_basics_1(spec_cos_den(m));
    assert(spec_dlng_scaled(p, p) == 0);
    lemma_mul_by_zero_is_zero(0int);
    assert(sqrt_floor(0nat) == 0);
    lemma_mul_by_zero_is_zero(MM_PER_DEGREE as int);
    assert(spec_distance_mm(p, p) == (0int) / 1_000_000);
}

/// Law: projecting a point that lies exactly at the fraction `t` (in parts
/// per million, by exact integer interpolation) of a non-degenerate segment
/// yields that fraction, the point itself as the closest point, and a
/// distance of zero.
pub proof fn lemma_projection_at_interpolation(
    a: GeographicCoordinates,
    b: GeographicCoordinates,
    p: GeographicCoordinates,
    t: int,
)
    requires
        coord_in_range(a),
        coord_in_range(b),
        0 <= t <= 1_000_000,
        spec_seg_len2(a, b) != 0,
        (t * (b.lng - a.lng)) % 1_000_000 == 0,
        (t * (b.lat - a.lat)) % 1_000_000 == 0,
        p.lng == a.lng + (t * (b.lng - a.lng)) / 1_000_000,
        p.lat == a.lat + (t * (b.lat - a.lat)) / 1_000_000,
    ensures
        spec_fraction_ppm(p, a, b) == t,
        spec_closest_point(p, a, b) == p,
        spec_distance_mm(p, spec_closest_point(p, a, b)) == 0,
{
    let dx = b.lng - a.lng;
    let dy = b.lat - a.lat;
    let l = spec_seg_len2(a, b);
    let wx = p.lng - a.lng;
    let wy = p.lat - a.lat;
    let d = spec_seg_dot(p, a, b);
    assert(dx * dx >= 0 && dy * dy >= 0) by (nonlinear_arith);
    assert(l > 0);
    vstd::arithmetic::div_mod::lemma_fundamental_div_mod(t * dx, 1_000_000);
    vstd::arithmetic::div_mod::lemma_fundamental_div_mod(t * dy, 1_000_000);
    assert(1_000_000 * wx == t * dx);
    assert(1_000_000 * wy == t * dy);
    assert(1_000_000 * d == t * l) by (nonlinear_arith)
        requires
            1_000_000 * wx == t * dx,
            1_000_000 * wy == t * dy,
            d == wx * dx + wy * dy,
            l == dx * dx + dy * dy,
    ;
    if t == 0 {
        assert(d == 0);
        assert(wx == 0 && wy == 0);
        assert(p == a);
        lemma_distance_self(p);
    } else if t == 1_000_000 {
        assert(1_000_000 * d == 1_000_000 * l);
        assert(d == l);
        assert(1_000_000 * wx == 1_000_000 * dx && 1_000_000 * wy == 1_000_000 * dy);
        assert(wx == dx && wy == dy);
        assert(p == b);
        lemma_distance_self(p);
    } else {
        assert(0 < t * l && t * l < 1_000_000 * l) by (nonlinear_arith)
            requires
                0 < t < 1_000_000,
                l > 0,
        ;
        assert(0 < d < l);
        assert(d * 1_000_000 == 1_000_000 * d) by (nonlinear_arith);
        assert((l * t) / l == t) by {
            lemma_mul_is_commutative(l, t);
            vstd::arithmetic::div_mod::lemma_div_multiples_vanish(t, l);
        }
        assert(d * 1_000_000 == l * t) by (nonlinear_arith)
            requires
                1_000_000 * d == t * l,
        ;
        assert(spec_fraction_ppm(p, a, b) == t);
        assert(d * dx == wx * l) by (nonlinear_arith)
            requires
                1_000_000 * wx == t * dx,
                1_000_000 * d == t * l,
        ;
        assert(d * dy == wy * l) by (nonlinear_arith)
            requires
                1_000_000 * wy == t * dy,
                1_000_000 * d == t * l,
        ;
        if dx >= 0 {
            assert(wx >= 0) by (nonlinear_arith)
                requires
                    1_000_000 * wx == t * dx,
                    t > 0,
                    dx >= 0,
            ;
            assert((d * dx) / l == wx) by {
                assert(d * dx == l * wx) by (nonlinear_arith)
                    requires
                        d * dx == wx * l,
                ;
                vstd::arithmetic::div_mod::lemma_div_multiples_vanish(wx, l);
            }
            assert(spec_interp_offset(d, dx, l) == wx);
        } else {
            assert(wx <= 0) by (nonlinear_arith)
                requires
                    1_000_000 * wx == t * dx,
                    t > 0,
                    dx < 0,
            ;
            assert((d * (-dx)) / l == -wx) by {
                assert(d * (-dx) == l * (-wx)) by (nonlinear_arith)
                    requires
                        d * dx == wx * l,
                ;
                vstd::arithmetic::div_mod::lemma_div_multiples_vanish(-wx, l);
            }
            assert(spec_interp_offset(d, dx, l) == wx);
        }
        if dy >= 0 {
            assert(wy >= 0) by (nonlinear_arith)
                requires
                    1_000_000 * wy == t * dy,
                    t > 0,
                    dy >= 0,
            ;
            assert((d * dy) / l == wy) by {
                assert(d * dy == l * wy) by (nonlinear_arith)
                    requires
                        d * dy == wy * l,
                ;
                vstd::arithmetic::div_mod::lemma_div_multiples_vanish(wy, l);
            }
            assert(spec_interp_offset(d, dy, l) == wy);
        } else {
            assert(wy <= 0) by (nonlinear_arith)
                requires
                    1_000_000 * wy == t * dy,
                    t > 0,
                    dy < 0,
            ;
            assert((d * (-dy)) / l == -wy) by {
                assert(d * (-dy) == l * (-wy)) by (nonlinear_arith)
                    requires
                        d * dy == wy * l,
                ;
                vstd::arithmetic::div_mod::lemma_div_multiples_vanish(-wy, l);
            }
            assert(spec_interp_offset(d, dy, l) == wy);
        }
        assert(spec_closest_point(p, a, b) == p);
        lemma_distance_self(p);
    }
}

/// Projects `p` onto the whole of `path`. Yields a result exactly when the
/// path has at least two points.
pub fn project_onto_path(p: GeographicCoordinates, path: &Vec<GeographicCoordinates>) -> (r:
    Option<PathProjection>)
    requires
        coord_in_range(p),
        coords_in_range(path@),
        path@.len() <= MAX_GEOMETRY_POINTS,
    ensures
        r is Some <==> path@.len() >= 2,
        path@.len() >= 2 ==> {
            let pp = r->Some_0;
            &&& pp.segment_index == spec_best_segment(path@, p, 0, path@.len() - 1)
            &&& pp.point == spec_path_proj_point(path@, p, 0, path@.len() - 1)
            &&& pp.distance_mm == spec_path_proj_dist(path@, p, 0, path@.len() - 1)
            &&& pp.cumulative_mm == spec_path_proj_cum(path@, p, 0, path@.len() - 1)
        },
{
    if path.len() < 2 {
        None
    } else {
        Some(project_onto_path_range(p, path, 0, path.len() - 1))
    }
}

} // verus!
