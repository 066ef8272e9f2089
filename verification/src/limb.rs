//! Limbs and their segment chains. Each segment type carries a flex policy:
//! a multiplier, never below one and non-decreasing along the chain, applied
//! to the limb's sampled angle so that segments further from the body swing
//! through a larger arc.

use vstd::prelude::*;

verus! {

use crate::fixed::{SCALE, mul_scale_spec};
use crate::fixed::scale_mul;
use crate::oscillator::{AMP_LIMIT, Oscillator, spec_sample};
use vstd::arithmetic::div_mod::{
    lemma_div_is_ordered,
    lemma_div_pos_is_pos,
    lemma_div_by_multiple,
};
use vstd::arithmetic::mul::lemma_mul_upper_bound;

/// Chain positions past this index keep the flex of the cap, so the taper
/// plateaus instead of outgrowing the arithmetic that computes it.
pub const FLEX_INDEX_CAP: u64 = 128;

/// One unit of the internal scale of the tenth root used by the rectangle
/// flex policy, a power of two.
pub const ROOT_ONE: u64 = 2048;

/// The tag that selects a segment's visual style and its flex policy.
#[derive(Clone, Copy, Debug, PartialEq, Eq, Hash, Structural)]
pub enum LimbSegmentTypeId {
    Rectangle,
    Disk,
}

/// One segment of a limb's chain: its fixed position along the chain and
/// the tag of its type.
#[derive(Clone, Copy, Debug, PartialEq, Eq, Structural)]
pub struct LimbSegment {
    pub segment_index: usize,
    pub type_id: LimbSegmentTypeId,
}

/// The tenth power, written so that its shape matches the four
/// multiplications that compute it.
pub open spec fn pow10(r: int) -> int {
    let r2: int = r * r;
    let r4: int = r2 * r2;
    let r8: int = r4 * r4;
    r8 * r2
}

/// The largest root not above `hi` whose tenth power is at most `tgt`.
pub open spec fn root10_rec(tgt: int, hi: nat) -> int
    decreases hi,
{
    if hi == 0 {
        0
    } else if pow10(hi as int) <= tgt {
        hi as int
    } else {
        root10_rec(tgt, (hi - 1) as nat)
    }
}

/// The tenth root of `i`, scaled by `ROOT_ONE` and rounded down.
pub open spec fn spec_root10(i: int) -> int {
    root10_rec(i * pow10(ROOT_ONE as int), 4096)
}

/// The tenth power is monotone over the non-negative integers.
proof fn lemma_pow10_monotone(a: int, b: int)
    requires
        0 <= a <= b,
    ensures
        pow10(a) <= pow10(b),
{
    let a2: int = a * a;
    let b2: int = b * b;
    lemma_mul_upper_bound(a, b, a, b);
    let a4: int = a2 * a2;
    let b4: int = b2 * b2;
    assert(a2 >= 0 && b2 >= 0) by (nonlinear_arith)
        requires
            0 <= a <= b,
            a2 == a * a,
            b2 == b * b,
    ;
    lemma_mul_upper_bound(a2, b2, a2, b2);
    assert(a4 >= 0 && b4 >= 0) by (nonlinear_arith)
        requires
            0 <= a2 <= b2,
            a4 == a2 * a2,
            b4 == b2 * b2,
    ;
    let a8: int = a4 * a4;
    let b8: int = b4 * b4;
    lemma_mul_upper_bound(a4, b4, a4, b4);
    assert(a8 >= 0) by (nonlinear_arith)
        requires
            0 <= a4,
            a8 == a4 * a4,
    ;
    lemma_mul_upper_bound(a8, b8, a2, b2);
}

/// The tenth power of the root column: compute `r^10` exactly.
fn pow10_exec(r: u64) -> (p: u128)
    requires
        r <= 4096,
    ensures
        p == pow10(r as int),
{
    proof {
        assert((r as int) * (r as int) <= 16_777_216) by (nonlinear_arith)
            requires
                0 <= r <= 4096,
        ;
    }
    let r2: u128 = (r as u128) * (r as u128);
    proof {
        assert(r2 * r2 <= 16_777_216 * 16_777_216) by (nonlinear_arith)
            requires
                0 <= r2 <= 16_777_216,
        ;
    }
    let r4: u128 = r2 * r2;
    proof {
        assert(r4 * r4 <= 281_474_976_710_656 * 281_474_976_710_656) by (nonlinear_arith)
            requires
                0 <= r4 <= 281_474_976_710_656,
        ;
        assert(r4 * r4 * r2 <= 79_228_162_514_264_337_593_543_950_336 * 16_777_216) by (
        nonlinear_arith)
            requires
                0 <= r4 * r4 <= 79_228_162_514_264_337_593_543_950_336,
                0 <= r2 <= 16_777_216,
        ;
    }
    let r8: u128 = r4 * r4;
    r8 * r2
}

/// A maximal root below the search ceiling is the one the recursive
/// definition names.
proof fn lemma_root10_rec_char(tgt: int, hi: nat, r: int)
    requires
        0 <= r <= hi,
        pow10(r) <= tgt,
        r < hi ==> pow10(r + 1) > tgt,
    ensures
        root10_rec(tgt, hi) == r,
    decreases hi,
{
    if hi > 0 {
        if pow10(hi as int) <= tgt {
            if r < hi {
                lemma_pow10_monotone(r + 1, hi as int);
                assert(false);
            }
        } else {
            assert(r < hi);
            lemma_root10_rec_char(tgt, (hi - 1) as nat, r);
        }
    }
}

/// A larger target never shrinks the recursive root.
proof fn lemma_root10_rec_monotone(t1: int, t2: int, hi: nat)
    requires
        t1 <= t2,
    ensures
        root10_rec(t1, hi) <= root10_rec(t2, hi),
    decreases hi,
{
    if hi > 0 {
        lemma_root10_rec_monotone(t1, t2, (hi - 1) as nat);
        lemma_root10_rec_bounds(t1, (hi - 1) as nat);
        lemma_root10_rec_bounds(t2, (hi - 1) as nat);
    }
}

/// The recursive root stays inside the search range.
proof fn lemma_root10_rec_bounds(tgt: int, hi: nat)
    ensures
        0 <= root10_rec(tgt, hi) <= hi,
    decreases hi,
{
    if hi > 0 {
        lemma_root10_rec_bounds(tgt, (hi - 1) as nat);
    }
}

/// The scaled tenth root of a chain position, found by binary search over
/// the root column.
fn tenth_root(i: u64) -> (r: u64)
    requires
        i <= FLEX_INDEX_CAP,
    ensures
        r == spec_root10(i as int),
        r <= 4096,
{
    let unit_pow: u128 = pow10_exec(ROOT_ONE);
    proof {
        assert(pow10(2048) == 1_298_074_214_633_706_907_132_624_082_305_024) by (
        nonlinear_arith);
        assert((i as int) * pow10(2048) <= 128 * 1_298_074_214_633_706_907_132_624_082_305_024)
            by (nonlinear_arith)
            requires
                0 <= i <= 128,
                pow10(2048) == 1_298_074_214_633_706_907_132_624_082_305_024,
        ;
        assert(pow10(4096) == 1_329_227_995_784_915_872_903_807_060_280_344_576) by (
        nonlinear_arith);
    }
    let tgt: u128 = (i as u128) * unit_pow;
    let mut lo: u64 = 0;
    let mut hi: u64 = 4096;
    while hi - lo > 1
        invariant
            0 <= lo < hi <= 4096,
            pow10(lo as int) <= tgt,
            pow10(hi as int) > tgt,
            tgt <= 128 * 1_298_074_214_633_706_907_132_624_082_305_024,
        decreases hi - lo,
    {
        let mid: u64 = lo + (hi - lo) / 2;
        let p: u128 = pow10_exec(mid);
        if p <= tgt {
            lo = mid;
        } else {
            hi = mid;
        }
    }
    proof {
        if lo < 4096 {
            if (lo + 1) < hi {
                assert(false);
            }
            assert(pow10(lo as int + 1) > tgt);
        }
        lemma_root10_rec_char(tgt as int, 4096, lo as int);
    }
    lo
}

/// A limb plan: the oscillator that will drive the limb and the type of
/// each segment of its chain, in chain order.
#[derive(Debug, Clone)]
pub struct LimbPlan {
    pub oscillator: Oscillator,
    pub segments: Vec<LimbSegmentTypeId>,
}

/// A chain position with the plateau applied.
pub open spec fn spec_capped_index(i: int) -> int {
    if i > FLEX_INDEX_CAP {
        FLEX_INDEX_CAP as int
    } else {
        i
    }
}

/// The rectangle flex policy, `1 + 0.1 * i^1.1` in scale units: the
/// superlinear power `i^1.1` is the capped index times its scaled tenth
/// root.
pub open spec fn spec_flex_rect(i: int) -> int {
    let j: int = spec_capped_index(i);
    SCALE + 100_000 * (j * spec_root10(j)) / (ROOT_ONE as int)
}

/// The disk flex policy, `1 + 0.05 * i` in scale units, on the capped index.
pub open spec fn spec_flex_disk(i: int) -> int {
    SCALE + 50_000 * spec_capped_index(i)
}

/// The flex multiplier a segment type gives a chain position.
pub open spec fn spec_flex(ty: LimbSegmentTypeId, i: int) -> int {
    match ty {
        LimbSegmentTypeId::Rectangle => spec_flex_rect(i),
        LimbSegmentTypeId::Disk => spec_flex_disk(i),
    }
}

/// The band every flex multiplier stays in: at least one unit, and small
/// enough that an amplitude-bounded angle scaled by it keeps its word.
pub proof fn lemma_flex_bounds(ty: LimbSegmentTypeId, i: int)
    requires
        i >= 0,
    ensures
        SCALE <= spec_flex(ty, i) <= 27_000_000,
{
    let j: int = spec_capped_index(i);
    lemma_root10_rec_bounds(j * pow10(ROOT_ONE as int), 4096);
    let w: int = j * spec_root10(j);
    assert(0 <= w <= 128 * 4096) by (nonlinear_arith)
        requires
            0 <= j <= 128,
            0 <= spec_root10(j) <= 4096,
            w == j * spec_root10(j),
    ;
    lemma_div_pos_is_pos(100_000 * w, ROOT_ONE as int);
    lemma_div_is_ordered(100_000 * w, 100_000int * (128 * 4096), ROOT_ONE as int);
}

/// The flex policies are monotone: a segment further along its chain never
/// flexes less than one closer to the body.
pub proof fn lemma_flex_monotone(ty: LimbSegmentTypeId, i: int, k: int)
    requires
        0 <= i <= k,
    ensures
        spec_flex(ty, i) <= spec_flex(ty, k),
{
    let ji: int = spec_capped_index(i);
    let jk: int = spec_capped_index(k);
    assert(0 <= ji <= jk <= 128);
    match ty {
        LimbSegmentTypeId::Rectangle => {
            let u: int = pow10(ROOT_ONE as int);
            assert(u >= 0) by (nonlinear_arith)
                requires
                    u == pow10(2048),
            ;
            assert(ji * u <= jk * u) by (nonlinear_arith)
                requires
                    0 <= ji <= jk,
                    u >= 0,
            ;
            lemma_root10_rec_monotone(ji * u, jk * u, 4096);
            lemma_root10_rec_bounds(ji * u, 4096);
            lemma_root10_rec_bounds(jk * u, 4096);
            let ri: int = spec_root10(ji);
            let rk: int = spec_root10(jk);
            lemma_mul_upper_bound(ji, jk, ri, rk);
            assert(100_000 * (ji * ri) <= 100_000 * (jk * rk));
            lemma_div_is_ordered(100_000 * (ji * ri), 100_000 * (jk * rk), ROOT_ONE as int);
        },
        LimbSegmentTypeId::Disk => {
        },
    }
}

/// Both flex policies give the base of the chain exactly one unit.
pub proof fn lemma_flex_at_zero(ty: LimbSegmentTypeId)
    ensures
        spec_flex(ty, 0) == SCALE,
{
    assert(root10_rec(0 * pow10(ROOT_ONE as int), 4096) == 0) by {
        assert(0 * pow10(ROOT_ONE as int) == 0) by (nonlinear_arith);
        assert(pow10(1) == 1) by (nonlinear_arith);
        lemma_root10_rec_char(0, 4096, 0);
    };
    assert(0 * spec_root10(0) == 0) by (nonlinear_arith);
    assert(100_000 * 0int == 0) by (nonlinear_arith);
    assert(0int / (ROOT_ONE as int) == 0);
}

/// The rectangle segment type.
pub struct RectType;

impl RectType {
    /// The rectangle flex policy: `1 + 0.1 * i^1.1` in scale units, with
    /// the plateau past the index cap.
    pub fn flex_for_segment(segment_index: usize) -> (f: i64)
        ensures
            f == spec_flex_rect(segment_index as int),
            SCALE <= f <= 27_000_000,
    {
        let j: u64 = if segment_index as u64 > FLEX_INDEX_CAP {
            FLEX_INDEX_CAP
        } else {
            segment_index as u64
        };
        let r: u64 = tenth_root(j);
        proof {
            lemma_flex_bounds(LimbSegmentTypeId::Rectangle, segment_index as int);
            assert(j * r <= 128 * 4096) by (nonlinear_arith)
                requires
                    0 <= j <= 128,
                    0 <= r <= 4096,
            ;
        }
        let f: u64 = (SCALE as u64) + (100_000 * (j * r)) / ROOT_ONE;
        f as i64
    }
}

/// The disk segment type.
pub struct DiskType;

impl DiskType {
    /// The disk flex policy: `1 + 0.05 * i` in scale units, with the
    /// plateau past the index cap.
    pub fn flex_for_segment(segment_index: usize) -> (f: i64)
        ensures
            f == spec_flex_disk(segment_index as int),
            SCALE <= f <= 27_000_000,
    {
        let j: u64 = if segment_index as u64 > FLEX_INDEX_CAP {
            FLEX_INDEX_CAP
        } else {
            segment_index as u64
        };
        (SCALE as u64 + 50_000 * j) as i64
    }
}

impl LimbSegmentTypeId {
    /// The flex multiplier this segment type gives a chain position.
    pub fn flex_for_segment(&self, segment_index: usize) -> (f: i64)
        ensures
            f == spec_flex(*self, segment_index as int),
            SCALE <= f <= 27_000_000,
    {
        match self {
            LimbSegmentTypeId::Rectangle => RectType::flex_for_segment(segment_index),
            LimbSegmentTypeId::Disk => DiskType::flex_for_segment(segment_index),
        }
    }
}

/// The rotation a segment receives: the limb's sampled angle scaled by the
/// segment's flex multiplier.
pub open spec fn spec_rotation(angle: int, seg: LimbSegment) -> int {
    mul_scale_spec(angle, spec_flex(seg.type_id, seg.segment_index as int))
}

/// The scaled product of an amplitude-bounded angle and a flex multiplier
/// stays well inside its word.
proof fn lemma_rotation_bounds(angle: int, flex: int)
    requires
        -AMP_LIMIT <= angle <= AMP_LIMIT,
        SCALE <= flex <= 27_000_000,
    ensures
        -27_000_000_000_000 <= mul_scale_spec(angle, flex) <= 27_000_000_000_000,
{
    let s: int = SCALE as int;
    let m: int = if angle >= 0 {
        angle
    } else {
        -angle
    };
    let q: int = angle * flex;
    let mq: int = if q >= 0 {
        q
    } else {
        -q
    };
    assert(mq == m * flex && m * flex <= 1_000_000_000_000 * 27_000_000) by (nonlinear_arith)
        requires
            -1_000_000_000_000 <= angle <= 1_000_000_000_000,
            0 < flex <= 27_000_000,
            m == (if angle >= 0 { angle } else { -angle }),
            q == angle * flex,
            mq == (if q >= 0 { q } else { -q }),
    ;
    lemma_div_pos_is_pos(mq, s);
    lemma_div_is_ordered(mq, 1_000_000_000_000int * 27_000_000, s);
}

/// Animate one limb's chain: sample the oscillator once and give every
/// segment the sampled angle scaled by its own flex multiplier. A chain of
/// any length is welcome, the empty one included.
pub fn animate_limb_segments(osc: &Oscillator, segments: &Vec<LimbSegment>) -> (rotations: Vec<
    i64,
>)
    requires
        osc.wf(),
    ensures
        rotations@.len() == segments@.len(),
        forall|k: int|
            0 <= k < segments@.len() ==> #[trigger] rotations@[k] == spec_rotation(
                spec_sample(*osc),
                segments@[k],
            ),
{
    let angle: i64 = osc.sample();
    let n: usize = segments.len();
    let mut rotations: Vec<i64> = Vec::new();
    let mut k: usize = 0;
    while k < n
        invariant
            k <= n,
            n == segments@.len(),
            rotations@.len() == k,
            angle == spec_sample(*osc),
            -AMP_LIMIT <= angle <= AMP_LIMIT,
            forall|j: int|
                0 <= j < k ==> #[trigger] rotations@[j] == spec_rotation(
                    spec_sample(*osc),
                    segments@[j],
                ),
        decreases n - k,
    {
        let seg: LimbSegment = segments[k];
        let flex: i64 = seg.type_id.flex_for_segment(seg.segment_index);
        proof {
            lemma_rotation_bounds(angle as int, flex as int);
        }
        let rot: i64 = scale_mul(angle, flex);
        rotations.push(rot);
        k = k + 1;
    }
    rotations
}

} // verus!
