//! Fixed-point arithmetic kernels shared by the oscillator and the flex
//! policies: scaling multiplication, the exponential-decay smoothing factor,
//! and the waveform shapes (sine and triangle) over one cycle of phase.

use vstd::prelude::*;

verus! {

use vstd::arithmetic::div_mod::{
    lemma_div_is_ordered,
    lemma_div_pos_is_pos,
    lemma_div_by_multiple,
    lemma_fundamental_div_mod,
    lemma_fundamental_div_mod_converse,
    lemma_mod_bound,
    lemma_small_mod,
};

/// One unit (1.0) in fixed-point millionths. A value `v` stands for the real
/// number `v / SCALE`: phase in cycles, frequency in hertz, time in seconds,
/// angles in radians.
pub const SCALE: i64 = 1_000_000;

/// Truncating (round toward zero) division of a product by `SCALE`, the
/// fixed-point meaning of multiplying two scaled values.
pub open spec fn div_scale_trunc(p: int) -> int {
    if p >= 0 {
        p / (SCALE as int)
    } else {
        -((-p) / (SCALE as int))
    }
}

/// The fixed-point product of two scaled values.
pub open spec fn mul_scale_spec(a: int, b: int) -> int {
    div_scale_trunc(a * b)
}

/// Multiply two fixed-point values, keeping the result in scale.
pub fn scale_mul(a: i64, b: i64) -> (r: i64)
    requires
        -0x7fff_ffff_ffff_ffff <= mul_scale_spec(a as int, b as int) <= 0x7fff_ffff_ffff_ffff,
    ensures
        r == mul_scale_spec(a as int, b as int),
{
    let p: i128 = (a as i128) * (b as i128);
    if p >= 0 {
        let q: u128 = (p as u128) / (SCALE as u128);
        assert(q == (a as int * b as int) / (SCALE as int));
        q as i64
    } else {
        let m: u128 = ((-p) as u128) / (SCALE as u128);
        assert(m == (-(a as int * b as int)) / (SCALE as int));
        let r: i64 = -(m as i64);
        r
    }
}

/// The triangle waveform over one cycle, in scale units: zero at phase 0,
/// rising to `SCALE` at a quarter cycle, falling through zero at a half cycle
/// to `-SCALE` at three quarters, and back to zero. The quarter-cycle shift
/// makes the wave rise from the start of the cycle instead of peaking there.
pub open spec fn spec_triangle(p: int) -> int {
    let q: int = (p + SCALE / 4) % (SCALE as int);
    let d: int = if q >= SCALE / 2 {
        q - SCALE / 2
    } else {
        SCALE / 2 - q
    };
    SCALE - 4 * d
}

/// Sample the triangle waveform at a phase inside one cycle.
pub fn triangle_at(p: i64) -> (r: i64)
    requires
        0 <= p < SCALE,
    ensures
        r == spec_triangle(p as int),
        -SCALE <= r <= SCALE,
{
    let q: u64 = ((p as u64) + 250_000) % (SCALE as u64);
    let d: u64 = if q >= 500_000 {
        q - 500_000
    } else {
        500_000 - q
    };
    SCALE - 4 * (d as i64)
}

/// One half wave of the sine shape: a rational approximation of
/// `sin(pi * x / SCALE) * SCALE` for `x` in `[0, SCALE]`, exact at both ends
/// (zero) and at the crest (`SCALE` at `x == SCALE / 2`).
pub open spec fn spec_half_sine(x: int) -> int {
    let v: int = x * (SCALE - x);
    16 * v * (SCALE as int) / (5 * (SCALE as int) * (SCALE as int) - 4 * v)
}

/// The sine waveform over one cycle, in scale units: the rising half wave on
/// the first half cycle and its mirror image, negated, on the second.
pub open spec fn spec_sine(p: int) -> int {
    if 2 * p <= SCALE {
        spec_half_sine(2 * p)
    } else {
        -spec_half_sine(2 * p - SCALE)
    }
}

/// The half-wave numerator and denominator stay in range and the quotient
/// stays within one scale unit.
proof fn lemma_half_sine_bounds(x: int)
    requires
        0 <= x <= SCALE,
    ensures
        0 <= spec_half_sine(x) <= SCALE,
        x == 0 ==> spec_half_sine(x) == 0,
        x == SCALE ==> spec_half_sine(x) == 0,
        x == SCALE / 2 ==> spec_half_sine(x) == SCALE,
{
    let s: int = SCALE as int;
    let v: int = x * (s - x);
    let num: int = 16 * v * s;
    let den: int = 5 * s * s - 4 * v;
    assert(0 <= v <= s * s / 4 && 4 * v <= s * s) by (nonlinear_arith)
        requires
            0 <= x <= s,
            v == x * (s - x),
            s == 1_000_000,
    ;
    assert(den >= 4 * s * s);
    assert(num >= 0) by (nonlinear_arith)
        requires
            v >= 0,
            s > 0,
            num == 16 * v * s,
    ;
    lemma_div_pos_is_pos(num, den);
    // num <= den * s, so num / den <= s.
    assert(num <= den * s) by (nonlinear_arith)
        requires
            s == 1_000_000,
            0 <= v,
            4 * v <= s * s,
            num == 16 * v * s,
            den == 5 * s * s - 4 * v,
    ;
    lemma_div_is_ordered(num, den * s, den);
    lemma_div_by_multiple(s, den);
    if x == SCALE / 2 {
        assert(v == 250_000_000_000) by (nonlinear_arith)
            requires
                x == 500_000,
                v == x * (s - x),
                s == 1_000_000,
        ;
        assert(num == den * s) by (nonlinear_arith)
            requires
                s == 1_000_000,
                v == 250_000_000_000,
                num == 16 * v * s,
                den == 5 * s * s - 4 * v,
        ;
    }
    if x == SCALE {
        assert(v == 0) by (nonlinear_arith)
            requires
                x == s,
                v == x * (s - x),
        ;
    }
}

/// Away from its two zero crossings the half wave is strictly positive.
proof fn lemma_half_sine_positive(x: int)
    requires
        0 < x < SCALE,
    ensures
        spec_half_sine(x) >= 1,
{
    let s: int = SCALE as int;
    let v: int = x * (s - x);
    let num: int = 16 * v * s;
    let den: int = 5 * s * s - 4 * v;
    assert(v >= s - 1 && 4 * v <= s * s) by (nonlinear_arith)
        requires
            1 <= x <= s - 1,
            v == x * (s - x),
            s == 1_000_000,
    ;
    assert(num >= den) by (nonlinear_arith)
        requires
            s == 1_000_000,
            v >= s - 1,
            num == 16 * v * s,
            den == 5 * s * s - 4 * v,
    ;
    assert(den > 0);
    lemma_div_is_ordered(den, num, den);
    lemma_div_by_multiple(1, den);
    assert(den * 1 == den) by (nonlinear_arith);
}

/// Sample the sine waveform at a phase inside one cycle.
pub fn sine_at(p: i64) -> (r: i64)
    requires
        0 <= p < SCALE,
    ensures
        r == spec_sine(p as int),
        -SCALE <= r <= SCALE,
        r >= 0 <==> p <= SCALE / 2,
{
    let x: u64 = if 2 * p <= SCALE {
        (2 * p) as u64
    } else {
        (2 * p - SCALE) as u64
    };
    proof {
        lemma_half_sine_bounds(x as int);
        if 0 < x < SCALE {
            lemma_half_sine_positive(x as int);
        }
    }
    assert(x * (1_000_000 - x) <= 250_000_000_000) by (nonlinear_arith)
        requires
            0 <= x <= 1_000_000,
    ;
    let v: u64 = x * ((SCALE as u64) - x);
    let num: u64 = 16 * v * (SCALE as u64);
    let den: u64 = 5 * (SCALE as u64) * (SCALE as u64) - 4 * v;
    let h: u64 = num / den;
    assert(h == spec_half_sine(x as int));
    if 2 * p <= SCALE {
        h as i64
    } else {
        -(h as i64)
    }
}

/// The triangle wave is continuous: two adjacent phase positions, the wrap
/// from the end of the cycle to its start included, differ by at most four
/// millionths of a unit, the slope of the wave.
pub proof fn lemma_triangle_continuous(p: int)
    requires
        0 <= p < SCALE,
    ensures
        -4 <= spec_triangle((p + 1) % (SCALE as int)) - spec_triangle(p) <= 4,
{
    let s: int = SCALE as int;
    let a: int = p + s / 4;
    let b: int = ((p + 1) % s) + s / 4;
    if a < s {
        lemma_small_mod(a as nat, s as nat);
    } else {
        lemma_fundamental_div_mod_converse(a, s, 1, a - s);
    }
    if p + 1 < s {
        lemma_small_mod((p + 1) as nat, s as nat);
    } else {
        lemma_fundamental_div_mod_converse(p + 1, s, 1, 0);
    }
    if b < s {
        lemma_small_mod(b as nat, s as nat);
    } else {
        lemma_fundamental_div_mod_converse(b, s, 1, b - s);
    }
}

/// One step along the half wave moves its value by at most six millionths
/// of a unit: the quotient moves by the slope of the rational shape, at most
/// five, plus the slack of rounding down.
proof fn lemma_half_sine_step(x: int)
    requires
        0 <= x <= SCALE - 1,
    ensures
        -6 <= spec_half_sine(x + 1) - spec_half_sine(x) <= 6,
{
    let s: int = SCALE as int;
    let v1: int = x * (s - x);
    let v2: int = (x + 1) * (s - (x + 1));
    let d: int = v2 - v1;
    let num1: int = 16 * v1 * s;
    let num2: int = 16 * v2 * s;
    let den1: int = 5 * s * s - 4 * v1;
    let den2: int = 5 * s * s - 4 * v2;
    assert(d == s - 2 * x - 1 && -s <= d <= s) by (nonlinear_arith)
        requires
            0 <= x <= s - 1,
            v1 == x * (s - x),
            v2 == (x + 1) * (s - (x + 1)),
            d == v2 - v1,
    ;
    assert(0 <= v1 && 4 * v1 <= s * s && 0 <= v2 && 4 * v2 <= s * s) by (nonlinear_arith)
        requires
            0 <= x <= s - 1,
            s == 1_000_000,
            v1 == x * (s - x),
            v2 == (x + 1) * (s - (x + 1)),
    ;
    let h1: int = num1 / den1;
    let h2: int = num2 / den2;
    let r1: int = num1 % den1;
    let r2: int = num2 % den2;
    lemma_fundamental_div_mod(num1, den1);
    lemma_fundamental_div_mod(num2, den2);
    lemma_mod_bound(num1, den1);
    lemma_mod_bound(num2, den2);
    // The cross difference of the two exact fractions collapses to the
    // slope term 80 * s^3 * d.
    assert(den1 * num2 - den2 * num1 == 80 * (s * s * s) * d) by (nonlinear_arith)
        requires
            num1 == 16 * v1 * s,
            num2 == 16 * v2 * s,
            den1 == 5 * s * s - 4 * v1,
            den2 == 5 * s * s - 4 * v2,
            d == v2 - v1,
    ;
    let prod: int = den1 * den2;
    assert(prod >= 16 * (s * s * s * s) && prod > 0) by (nonlinear_arith)
        requires
            4 * s * s <= den1,
            4 * s * s <= den2,
            den1 <= 5 * s * s,
            den2 <= 5 * s * s,
            s == 1_000_000,
            prod == den1 * den2,
    ;
    assert(prod * (h2 - h1) == (den1 * num2 - den2 * num1) + (den2 * r1 - den1 * r2)) by (
    nonlinear_arith)
        requires
            num1 == den1 * h1 + r1,
            num2 == den2 * h2 + r2,
            prod == den1 * den2,
    ;
    assert(-(80 * (s * s * s * s)) <= 80 * (s * s * s) * d <= 80 * (s * s * s * s)) by (
    nonlinear_arith)
        requires
            -s <= d <= s,
            s == 1_000_000,
    ;
    assert(-prod < den2 * r1 - den1 * r2 < prod) by (nonlinear_arith)
        requires
            0 <= r1 < den1,
            0 <= r2 < den2,
            den1 > 0,
            den2 > 0,
            prod == den1 * den2,
    ;
    assert(80 * (s * s * s * s) <= 5 * prod) by (nonlinear_arith)
        requires
            prod >= 16 * (s * s * s * s),
            s == 1_000_000,
    ;
    assert(-6 <= h2 - h1 <= 6) by (nonlinear_arith)
        requires
            prod > 0,
            -(5 * prod) - prod <= prod * (h2 - h1) <= 5 * prod + prod,
    ;
}

/// The sine wave is continuous: two adjacent phase positions, the wrap from
/// the end of the cycle to its start included, differ by at most twelve
/// millionths of a unit.
pub proof fn lemma_sine_continuous(p: int)
    requires
        0 <= p < SCALE,
    ensures
        -12 <= spec_sine((p + 1) % (SCALE as int)) - spec_sine(p) <= 12,
{
    let s: int = SCALE as int;
    if p + 1 < s {
        lemma_small_mod((p + 1) as nat, s as nat);
        if 2 * (p + 1) <= s {
            lemma_half_sine_step(2 * p);
            lemma_half_sine_step(2 * p + 1);
        } else if 2 * p <= s {
            // The half-cycle boundary: both ends sit within a step of zero.
            lemma_half_sine_bounds(s);
            lemma_half_sine_bounds(0);
            lemma_half_sine_step(2 * p - s);
            lemma_half_sine_step(2 * p + 1 - s);
        } else {
            lemma_half_sine_step(2 * p - s);
            lemma_half_sine_step(2 * p + 1 - s);
        }
    } else {
        // The wrap: the last position of the cycle sits within a step of
        // the zero the cycle starts from.
        lemma_fundamental_div_mod_converse(p + 1, s, 1, 0);
        lemma_half_sine_bounds(0);
        lemma_half_sine_bounds(s);
        lemma_half_sine_step(s - 2);
        lemma_half_sine_step(s - 1);
    }
}

/// The sine wave is antisymmetric over half a cycle: half a cycle after any
/// position of the first half wave it takes exactly the opposite value.
pub proof fn lemma_sine_antisymmetric(p: int)
    requires
        0 <= p < SCALE / 2,
    ensures
        spec_sine(p + SCALE / 2) == -spec_sine(p),
{
    if p == 0 {
        lemma_half_sine_bounds(0);
        lemma_half_sine_bounds(SCALE as int);
    }
}

/// The sign of the sine wave: non-negative exactly on the first half of the
/// cycle, so a square wave derived from it breaks only at the start and the
/// middle of the cycle.
pub proof fn lemma_sine_sign(p: int)
    requires
        0 <= p < SCALE,
    ensures
        spec_sine(p) >= 0 <==> p <= SCALE / 2,
        -SCALE <= spec_sine(p) <= SCALE,
{
    if 2 * p <= SCALE {
        lemma_half_sine_bounds(2 * p);
    } else {
        lemma_half_sine_bounds(2 * p - SCALE);
        lemma_half_sine_positive(2 * p - SCALE);
    }
}

/// One unit of the finer internal scale used while computing the exponential
/// decay factor, chosen as a power of two so that twelve squarings lose almost
/// no precision.
pub const EXP_ONE: i64 = 1_073_741_824;

/// One squaring step of a decay factor held in `EXP_ONE` scale.
pub open spec fn sq_once(y: int) -> int {
    y * y / (EXP_ONE as int)
}

/// `n` squaring steps applied to `y`.
pub open spec fn sq_many(y: int, n: nat) -> int
    decreases n,
{
    if n == 0 {
        y
    } else {
        sq_once(sq_many(y, (n - 1) as nat))
    }
}

/// The second-order seed `1 - t + t^2 / 2` of the decay factor, where `t` is
/// the ratio argument divided into 4096 halving steps.
pub open spec fn decay_seed(x: int) -> int {
    let t: int = x / 4096;
    (EXP_ONE - t) + t * t / (2 * (EXP_ONE as int))
}

/// The decay factor `exp(-x / EXP_ONE)` in `EXP_ONE` scale, computed from the
/// seed by twelve squarings.
pub open spec fn spec_decay(x: int) -> int {
    sq_many(decay_seed(x), 12)
}

/// The smoothing step factor `1 - exp(-dt / tau)` in `SCALE` units; ratios of
/// sixteen or more saturate to a full step, where the true factor is within
/// one millionth of one anyway.
pub open spec fn spec_alpha(dt: int, tau: int) -> int {
    let x: int = dt * (EXP_ONE as int) / tau;
    if x >= 16 * (EXP_ONE as int) {
        SCALE as int
    } else {
        (EXP_ONE - spec_decay(x)) * (SCALE as int) / (EXP_ONE as int)
    }
}

/// A squaring step keeps a decay factor inside `[0, EXP_ONE]`.
proof fn lemma_sq_once_in_range(y: int)
    requires
        0 <= y <= EXP_ONE,
    ensures
        0 <= sq_once(y) <= EXP_ONE,
{
    let e: int = EXP_ONE as int;
    assert(0 <= y * y <= e * e) by (nonlinear_arith)
        requires
            0 <= y <= e,
    ;
    lemma_div_pos_is_pos(y * y, e);
    lemma_div_is_ordered(y * y, e * e, e);
    lemma_div_by_multiple(e, e);
}

/// Every suffix of the squaring chain stays inside `[0, EXP_ONE]`.
proof fn lemma_sq_many_in_range(y: int, n: nat)
    requires
        0 <= y <= EXP_ONE,
    ensures
        0 <= sq_many(y, n) <= EXP_ONE,
    decreases n,
{
    if n > 0 {
        lemma_sq_many_in_range(y, (n - 1) as nat);
        lemma_sq_once_in_range(sq_many(y, (n - 1) as nat));
    }
}

/// The seed of the decay factor lies inside `[0, EXP_ONE]` for every ratio
/// argument below the saturation threshold.
proof fn lemma_decay_seed_in_range(x: int)
    requires
        0 <= x < 16 * EXP_ONE,
    ensures
        0 <= decay_seed(x) <= EXP_ONE,
{
    let e: int = EXP_ONE as int;
    let t: int = x / 4096;
    lemma_div_pos_is_pos(x, 4096);
    lemma_div_is_ordered(x, 16 * e - 1, 4096);
    assert(t <= (16 * e - 1) / 4096);
    assert(t * t <= t * (2 * e)) by (nonlinear_arith)
        requires
            0 <= t <= 4_194_304,
            e == 1_073_741_824,
    ;
    lemma_div_pos_is_pos(t * t, 2 * e);
    lemma_div_is_ordered(t * t, t * (2 * e), 2 * e);
    lemma_div_by_multiple(t, 2 * e);
}

/// The smoothing step factor is a genuine fraction: it never runs below
/// zero nor above one whole unit.
pub proof fn lemma_alpha_range(dt: int, tau: int)
    requires
        dt > 0,
        tau > 0,
    ensures
        0 <= spec_alpha(dt, tau) <= SCALE,
{
    let e: int = EXP_ONE as int;
    let s: int = SCALE as int;
    let x: int = dt * e / tau;
    assert(dt * e > 0) by (nonlinear_arith)
        requires
            dt > 0,
            e > 0,
    ;
    lemma_div_pos_is_pos(dt * e, tau);
    if x < 16 * e {
        lemma_decay_seed_in_range(x);
        lemma_sq_many_in_range(decay_seed(x), 12);
        let g: int = e - spec_decay(x);
        assert(0 <= g * s <= e * s) by (nonlinear_arith)
            requires
                0 <= g <= e,
                s > 0,
        ;
        lemma_div_pos_is_pos(g * s, e);
        lemma_div_is_ordered(g * s, e * s, e);
        lemma_div_by_multiple(s, e);
    }
}

/// Compute the smoothing step factor `1 - exp(-dt / tau)` in `SCALE` units.
pub(crate) fn smoothing_alpha(dt: i64, tau: i64) -> (a: i64)
    requires
        dt > 0,
        tau > 0,
    ensures
        a == spec_alpha(dt as int, tau as int),
        0 <= a <= SCALE,
{
    let xw: u128 = ((dt as u128) * (EXP_ONE as u128)) / (tau as u128);
    if xw >= 16 * (EXP_ONE as u128) {
        return SCALE;
    }
    let x: u64 = xw as u64;
    let t: u64 = x / 4096;
    proof {
        lemma_decay_seed_in_range(x as int);
    }
    let seed: u64 = ((EXP_ONE as u64) - t) + (t * t) / (2 * (EXP_ONE as u64));
    let mut y: u64 = seed;
    let mut i: u64 = 0;
    while i < 12
        invariant
            0 <= seed <= EXP_ONE,
            y == sq_many(seed as int, i as nat),
            0 <= y <= EXP_ONE,
            i <= 12,
        decreases 12 - i,
    {
        proof {
            lemma_sq_once_in_range(y as int);
        }
        y = (y * y) / (EXP_ONE as u64);
        i = i + 1;
    }
    assert(y == spec_decay(x as int));
    proof {
        let e: int = EXP_ONE as int;
        let s: int = SCALE as int;
        let g: int = e - y;
        assert(g * s <= e * s) by (nonlinear_arith)
            requires
                0 <= g <= e,
                s > 0,
        ;
        lemma_div_pos_is_pos(g * s, e);
        lemma_div_is_ordered(g * s, e * s, e);
        lemma_div_by_multiple(s, e);
    }
    let a: u64 = (((EXP_ONE as u64) - y) * (SCALE as u64)) / (EXP_ONE as u64);
    a as i64
}

} // verus!
