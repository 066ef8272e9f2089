//! The oscillator that drives one limb: a frequency smoother that glides
//! exponentially from its current towards its target frequency, a phase
//! accumulator wrapped into one cycle, and a sampler for the four waveforms.

use vstd::prelude::*;

verus! {

use crate::fixed::{SCALE, mul_scale_spec, spec_alpha, spec_sine, spec_triangle};
use crate::fixed::{scale_mul, sine_at, smoothing_alpha, triangle_at};
use vstd::arithmetic::div_mod::{
    lemma_div_is_ordered,
    lemma_div_pos_is_pos,
    lemma_div_by_multiple,
    lemma_mod_add_multiples_vanish,
    lemma_mod_bound,
    lemma_small_mod,
};

/// How much one frequency-adjustment event moves the target, in scale
/// millionths of a hertz.
pub const FREQ_STEP: i64 = 50_000;

/// The lowest frequency an adjustment event may leave as the target.
pub const MIN_FREQ: i64 = 0;

/// The highest frequency an adjustment event may leave as the target.
pub const MAX_FREQ: i64 = 2_000_000;

/// The largest step of time one tick of the whole population will advance by,
/// in scale millionths of a second.
pub const DT_CAP: i64 = 50_000;

/// The widest amplitude an oscillator accepts, one million full units, so
/// that a sampled angle scaled by any flex multiplier still fits its word.
pub const AMP_LIMIT: i64 = 1_000_000_000_000;

/// The shape an oscillator samples: silence, a sine wave, its sign, or a
/// triangle wave.
#[derive(Clone, Copy, Debug, PartialEq, Eq, Structural)]
pub enum Wave {
    Flat,
    Sine,
    Square,
    Triangle,
}

impl Default for Wave {
    /// The default wave is flat: an oscillator that moves nothing.
    fn default() -> (w: Wave)
        ensures
            w == Wave::Flat,
    {
        Wave::Flat
    }
}

/// A frequency smoother: the instantaneous frequency glides exponentially
/// from `current` towards `target`, covering about 63% of the remaining gap
/// every `tau` of elapsed time. Frequencies are in scale millionths of a
/// hertz, `tau` in scale millionths of a second.
#[derive(Clone, Copy, Debug, PartialEq, Eq, Structural)]
pub struct Frequency {
    pub current: i64,
    pub target: i64,
    pub tau: i64,
}

impl Frequency {
    /// Both frequencies are non-negative, as is the time constant.
    pub open spec fn wf(self) -> bool {
        self.current >= 0 && self.target >= 0 && self.tau >= 0
    }
}

/// The current frequency after one smoothing step of `dt`: unchanged for a
/// non-positive step, snapped to the target when no time constant is set, and
/// otherwise moved towards the target by the fraction `spec_alpha(dt, tau)`.
pub open spec fn spec_smoothed(f: Frequency, dt: int) -> int {
    if dt <= 0 {
        f.current as int
    } else if f.tau <= 0 {
        f.target as int
    } else {
        let a: int = spec_alpha(dt, f.tau as int);
        if f.target >= f.current {
            f.current + (f.target - f.current) * a / (SCALE as int)
        } else {
            f.current - (f.current - f.target) * a / (SCALE as int)
        }
    }
}

/// The whole smoother after one step of `dt`: only `current` moves.
pub open spec fn spec_updated(f: Frequency, dt: int) -> Frequency {
    (Frequency { current: spec_smoothed(f, dt) as i64, ..f })
}

/// A fraction `a` out of `SCALE` of a non-negative gap never exceeds the gap.
proof fn lemma_partial_step_bounds(gap: int, a: int)
    requires
        gap >= 0,
        0 <= a <= SCALE,
    ensures
        0 <= gap * a / (SCALE as int) <= gap,
{
    let s: int = SCALE as int;
    assert(0 <= gap * a <= gap * s) by (nonlinear_arith)
        requires
            gap >= 0,
            0 <= a <= s,
    ;
    lemma_div_pos_is_pos(gap * a, s);
    lemma_div_is_ordered(gap * a, gap * s, s);
    lemma_div_by_multiple(gap, s);
}

impl Frequency {
    /// A smoother that starts at `hz` with no glide pending. A negative
    /// frequency is floored to zero.
    pub fn new(hz: i64) -> (f: Frequency)
        ensures
            f.wf(),
            f.current == (if hz >= 0 { hz as int } else { 0 }),
            f.target == f.current,
            f.tau == 30_000,
    {
        let v: i64 = if hz >= 0 {
            hz
        } else {
            0
        };
        Frequency { current: v, target: v, tau: 30_000 }
    }

    /// Ask the smoother to glide towards `hz`, floored to zero; `current`
    /// does not move until the next update.
    pub fn set_target(&mut self, hz: i64)
        ensures
            final(self).target == (if hz >= 0 { hz as int } else { 0 }),
            final(self).current == old(self).current,
            final(self).tau == old(self).tau,
    {
        self.target = if hz >= 0 {
            hz
        } else {
            0
        };
    }

    /// Set the smoothing time constant, in scale millionths of a second,
    /// floored to zero.
    pub fn set_tau(&mut self, tau: i64)
        ensures
            final(self).tau == (if tau >= 0 { tau as int } else { 0 }),
            final(self).current == old(self).current,
            final(self).target == old(self).target,
    {
        self.tau = if tau >= 0 {
            tau
        } else {
            0
        };
    }

    /// The frequency the smoother is gliding towards.
    pub fn target(&self) -> (t: i64)
        ensures
            t == self.target,
    {
        self.target
    }

    /// The instantaneous frequency.
    pub fn current(&self) -> (c: i64)
        ensures
            c == self.current,
    {
        self.current
    }

    /// Advance the glide by `dt`. The step is frame-rate independent
    /// exponential smoothing: a non-positive `dt` changes nothing, a zero
    /// time constant snaps to the target, and otherwise `current` moves
    /// towards the target by the fraction `1 - exp(-dt / tau)` and never
    /// overshoots it.
    pub fn update(&mut self, dt: i64) -> (cur: i64)
        requires
            old(self).wf(),
        ensures
            final(self).wf(),
            cur == final(self).current,
            final(self).current == spec_smoothed(*old(self), dt as int),
            *final(self) == spec_updated(*old(self), dt as int),
            final(self).target == old(self).target,
            final(self).tau == old(self).tau,
            old(self).current <= old(self).target ==> old(self).current <= final(self).current
                <= old(self).target,
            old(self).target <= old(self).current ==> old(self).target <= final(self).current
                <= old(self).current,
            old(self).current == old(self).target ==> final(self).current == old(self).current,
            dt <= 0 ==> final(self).current == old(self).current,
    {
        if dt <= 0 {
            return self.current;
        }
        if self.tau <= 0 {
            self.current = self.target;
            return self.current;
        }
        let a: i64 = smoothing_alpha(dt, self.tau);
        if self.target >= self.current {
            let gap: i64 = self.target - self.current;
            proof {
                lemma_partial_step_bounds(gap as int, a as int);
            }
            let step: u128 = ((gap as u128) * (a as u128)) / (SCALE as u128);
            self.current = self.current + (step as i64);
        } else {
            let gap: i64 = self.current - self.target;
            proof {
                lemma_partial_step_bounds(gap as int, a as int);
            }
            let step: u128 = ((gap as u128) * (a as u128)) / (SCALE as u128);
            self.current = self.current - (step as i64);
        }
        self.current
    }
}

impl Default for Frequency {
    /// A smoother at rest at zero hertz with a 30 millisecond time constant.
    fn default() -> (f: Frequency)
        ensures
            f.wf(),
            f.current == 0,
            f.target == 0,
            f.tau == 30_000,
    {
        Frequency { current: 0, target: 0, tau: 30_000 }
    }
}

/// One limb's source of motion: a waveform tag, an amplitude in scale
/// millionths of a radian, a frequency smoother, and the phase of the current
/// cycle, always wrapped into `[0, SCALE)`.
#[derive(Clone, Copy, Debug, PartialEq, Eq, Structural)]
pub struct Oscillator {
    pub wave: Wave,
    pub amplitude: i64,
    pub frequency: Frequency,
    pub phase: i64,
}

impl Oscillator {
    /// The smoother is well formed, the phase lies inside one cycle, and the
    /// amplitude lies inside the band that keeps every scaled sample in
    /// range.
    pub open spec fn wf(self) -> bool {
        &&& self.frequency.wf()
        &&& 0 <= self.phase < SCALE
        &&& -AMP_LIMIT <= self.amplitude <= AMP_LIMIT
    }
}

/// The phase advance of one tick, in scale millionths of a cycle: the average
/// of the frequencies at the start and the end of the step, times the step.
/// The average-rate rule is exact for a linear frequency ramp, so the motion
/// stays continuous while the frequency glides.
pub open spec fn spec_phase_inc(f0: int, f1: int, dt: int) -> int {
    ((f0 + f1) / 2) * dt / (SCALE as int)
}

/// The oscillator after one tick of `dt`: nothing moves for a non-positive
/// step; otherwise the smoother advances and the phase accumulates the
/// average rate, wrapped into one cycle.
pub open spec fn spec_ticked(o: Oscillator, dt: int) -> Oscillator {
    if dt <= 0 {
        o
    } else {
        let f1: int = spec_smoothed(o.frequency, dt);
        let p: int = (o.phase + spec_phase_inc(o.frequency.current as int, f1, dt)) % (
        SCALE as int);
        (Oscillator {
            phase: p as i64,
            frequency: spec_updated(o.frequency, dt),
            ..o
        })
    }
}

/// The waveform shape at a phase, in scale units: flat is silent, sine is the
/// smooth wave, square is the sign of the sine at full deflection, and
/// triangle is the piecewise-linear wave.
pub open spec fn spec_wave_raw(w: Wave, p: int) -> int {
    match w {
        Wave::Flat => 0,
        Wave::Sine => spec_sine(p),
        Wave::Square => if spec_sine(p) >= 0 {
            SCALE as int
        } else {
            -(SCALE as int)
        },
        Wave::Triangle => spec_triangle(p),
    }
}

/// What `sample` returns: the waveform shape at the stored phase, scaled by
/// the amplitude.
pub open spec fn spec_sample(o: Oscillator) -> int {
    mul_scale_spec(o.amplitude as int, spec_wave_raw(o.wave, o.phase as int))
}

/// Scaling a full-deflection shape value by the amplitude returns the
/// amplitude itself, and any shape value inside one unit keeps the scaled
/// sample inside the amplitude.
proof fn lemma_amp_scale(amp: int, raw: int)
    requires
        -AMP_LIMIT <= amp <= AMP_LIMIT,
        -SCALE <= raw <= SCALE,
    ensures
        mul_scale_spec(amp, SCALE as int) == amp,
        mul_scale_spec(amp, -(SCALE as int)) == -amp,
        amp >= 0 ==> -amp <= mul_scale_spec(amp, raw) <= amp,
        amp < 0 ==> amp <= mul_scale_spec(amp, raw) <= -amp,
{
    let s: int = SCALE as int;
    let m: int = if amp >= 0 {
        amp
    } else {
        -amp
    };
    lemma_div_by_multiple(m, s);
    assert(amp * s == (if amp >= 0 {
        m * s
    } else {
        -(m * s)
    }) && amp * (-s) == (if amp >= 0 {
        -(m * s)
    } else {
        m * s
    }) && m * s >= 0) by (nonlinear_arith)
        requires
            s > 0,
            m == (if amp >= 0 { amp } else { -amp }),
    ;
    let q: int = amp * raw;
    let mq: int = if q >= 0 {
        q
    } else {
        -q
    };
    assert(mq <= m * s) by (nonlinear_arith)
        requires
            -s <= raw <= s,
            m == (if amp >= 0 { amp } else { -amp }),
            mq == (if amp * raw >= 0 { amp * raw } else { -(amp * raw) }),
    ;
    lemma_div_pos_is_pos(mq, s);
    lemma_div_is_ordered(mq, m * s, s);
}

impl Oscillator {
    /// An oscillator that starts at phase zero. The amplitude is clamped
    /// into the supported band and a negative frequency is floored to zero.
    pub fn new(wave: Wave, amplitude: i64, frequency: i64) -> (o: Oscillator)
        ensures
            o.wf(),
            o.wave == wave,
            o.amplitude == (if amplitude > AMP_LIMIT {
                AMP_LIMIT as int
            } else if amplitude < -AMP_LIMIT {
                -AMP_LIMIT as int
            } else {
                amplitude as int
            }),
            o.frequency == (Frequency {
                current: if frequency >= 0 { frequency } else { 0 },
                target: if frequency >= 0 { frequency } else { 0 },
                tau: 30_000,
            }),
            o.phase == 0,
    {
        let amp: i64 = if amplitude > AMP_LIMIT {
            AMP_LIMIT
        } else if amplitude < -AMP_LIMIT {
            -AMP_LIMIT
        } else {
            amplitude
        };
        Oscillator { wave, amplitude: amp, frequency: Frequency::new(frequency), phase: 0 }
    }

    /// Set the glide time constant, in scale millionths of a second.
    pub fn set_transition_time(&mut self, tau: i64)
        ensures
            final(self).frequency.tau == (if tau >= 0 { tau as int } else { 0 }),
            final(self).frequency.current == old(self).frequency.current,
            final(self).frequency.target == old(self).frequency.target,
            final(self).wave == old(self).wave,
            final(self).amplitude == old(self).amplitude,
            final(self).phase == old(self).phase,
    {
        self.frequency.set_tau(tau);
    }

    /// Set the target frequency; the glide towards it runs over the
    /// configured time constant.
    pub fn set_frequency(&mut self, hz: i64)
        ensures
            final(self).frequency.target == (if hz >= 0 { hz as int } else { 0 }),
            final(self).frequency.current == old(self).frequency.current,
            final(self).frequency.tau == old(self).frequency.tau,
            final(self).wave == old(self).wave,
            final(self).amplitude == old(self).amplitude,
            final(self).phase == old(self).phase,
    {
        self.frequency.set_target(hz);
    }

    /// The frequency the smoother is gliding towards.
    pub fn target_frequency(&self) -> (t: i64)
        ensures
            t == self.frequency.target,
    {
        self.frequency.target()
    }

    /// The instantaneous frequency.
    pub fn current_frequency(&self) -> (c: i64)
        ensures
            c == self.frequency.current,
    {
        self.frequency.current()
    }

    /// Advance the oscillator by `dt`, in scale millionths of a second: the
    /// frequency glides one step and the phase accumulates the average of
    /// the old and the new frequency, wrapped into `[0, SCALE)`. A
    /// non-positive `dt` changes nothing, and a frequency at rest at zero
    /// holds the phase still.
    pub fn tick(&mut self, dt: i64)
        requires
            old(self).wf(),
        ensures
            final(self).wf(),
            *final(self) == spec_ticked(*old(self), dt as int),
            final(self).wave == old(self).wave,
            final(self).amplitude == old(self).amplitude,
            dt <= 0 ==> *final(self) == *old(self),
            dt > 0 ==> final(self).frequency == spec_updated(old(self).frequency, dt as int),
            old(self).frequency.current == 0 && old(self).frequency.target == 0
                ==> final(self).phase == old(self).phase,
    {
        if dt <= 0 {
            return ;
        }
        let f0: i64 = self.frequency.current;
        let f1: i64 = self.frequency.update(dt);
        let favg: u128 = ((f0 as u128) + (f1 as u128)) / 2;
        proof {
            assert(favg * (dt as int) <= 9_223_372_036_854_775_808
                * 9_223_372_036_854_775_807) by (nonlinear_arith)
                requires
                    0 <= favg <= 9_223_372_036_854_775_808,
                    0 <= dt <= 9_223_372_036_854_775_807,
            ;
        }
        let inc: u128 = (favg * (dt as u128)) / (SCALE as u128);
        let total: u128 = (self.phase as u128) + inc;
        proof {
            lemma_mod_bound(total as int, SCALE as int);
            if f0 == 0 && self.frequency.target == 0 {
                assert(favg == 0);
                assert(favg * (dt as int) == 0) by (nonlinear_arith)
                    requires
                        favg == 0,
                ;
                assert(inc == 0);
                lemma_small_mod(old(self).phase as nat, SCALE as nat);
            }
        }
        self.phase = (total % (SCALE as u128)) as i64;
    }

    /// Sample the waveform at the stored phase: a pure reading of the state
    /// that is zero for a flat wave, the sine or triangle shape scaled by
    /// the amplitude, or the amplitude at full strength with the sign of
    /// the sine for a square wave. The sample never leaves the band set by
    /// the amplitude.
    pub fn sample(&self) -> (r: i64)
        requires
            self.wf(),
        ensures
            r == spec_sample(*self),
            self.amplitude >= 0 ==> -self.amplitude <= r <= self.amplitude,
            self.amplitude < 0 ==> self.amplitude <= r <= -self.amplitude,
            -AMP_LIMIT <= r <= AMP_LIMIT,
    {
        match self.wave {
            Wave::Flat => {
                assert(mul_scale_spec(self.amplitude as int, 0) == 0) by {
                    lemma_div_by_multiple(0, SCALE as int);
                };
                0
            },
            Wave::Sine => {
                let raw: i64 = sine_at(self.phase);
                proof {
                    lemma_amp_scale(self.amplitude as int, raw as int);
                }
                scale_mul(self.amplitude, raw)
            },
            Wave::Square => {
                let raw: i64 = sine_at(self.phase);
                proof {
                    lemma_amp_scale(self.amplitude as int, raw as int);
                }
                if raw >= 0 {
                    self.amplitude
                } else {
                    -self.amplitude
                }
            },
            Wave::Triangle => {
                let raw: i64 = triangle_at(self.phase);
                proof {
                    lemma_amp_scale(self.amplitude as int, raw as int);
                }
                scale_mul(self.amplitude, raw)
            },
        }
    }
}

impl Default for Oscillator {
    /// A sine oscillator of one unit of amplitude, at rest at zero hertz,
    /// at phase zero.
    fn default() -> (o: Oscillator)
        ensures
            o.wf(),
            o.wave == Wave::Sine,
            o.amplitude == SCALE,
            o.frequency == (Frequency { current: 0, target: 0, tau: 30_000 }),
            o.phase == 0,
    {
        Oscillator {
            wave: Wave::Sine,
            amplitude: SCALE,
            frequency: Frequency { current: 0, target: 0, tau: 30_000 },
            phase: 0,
        }
    }
}

/// The waveform shape read at any whole-line phase, wrapped into one cycle.
pub open spec fn spec_wave_at(w: Wave, p: int) -> int {
    spec_wave_raw(w, p % (SCALE as int))
}

/// Every waveform is periodic with a period of one cycle.
pub proof fn lemma_wave_periodic(w: Wave, p: int)
    ensures
        spec_wave_at(w, p + SCALE) == spec_wave_at(w, p),
{
    lemma_mod_add_multiples_vanish(p, SCALE as int);
}

/// The square wave sits at full positive deflection on the first half of
/// the cycle, the two zero crossings of the sine included, and at full
/// negative deflection on the second half: its only breaks are at the start
/// and the middle of the cycle.
pub proof fn lemma_square_shape(p: int)
    requires
        0 <= p < SCALE,
    ensures
        spec_wave_raw(Wave::Square, p) == (if p <= SCALE / 2 {
            SCALE as int
        } else {
            -(SCALE as int)
        }),
{
    crate::fixed::lemma_sine_sign(p);
}

/// A smoother already resting at its target does not move, under a step of
/// any length.
pub proof fn lemma_settled_update_is_still(f: Frequency, dt: int)
    requires
        f.wf(),
        f.current == f.target,
    ensures
        spec_updated(f, dt).current == f.current,
        spec_updated(f, dt) == f,
{
    if dt > 0 && f.tau > 0 {
        let a: int = spec_alpha(dt, f.tau as int);
        assert((f.target - f.current) * a == 0) by (nonlinear_arith)
            requires
                f.target == f.current,
        ;
        assert(0int / (SCALE as int) == 0);
    }
}

/// One glide step of any length approaches the target and never overshoots
/// it: the current frequency stays between where it stood and the target.
pub proof fn lemma_update_approaches_target(f: Frequency, dt: int)
    requires
        f.wf(),
    ensures
        f.current <= f.target ==> f.current <= spec_updated(f, dt).current <= f.target,
        f.target <= f.current ==> f.target <= spec_updated(f, dt).current <= f.current,
        spec_updated(f, dt).target == f.target,
        spec_updated(f, dt).tau == f.tau,
        spec_updated(f, dt).wf(),
{
    if dt > 0 && f.tau > 0 {
        crate::fixed::lemma_alpha_range(dt, f.tau as int);
        let a: int = spec_alpha(dt, f.tau as int);
        if f.target >= f.current {
            lemma_partial_step_bounds(f.target - f.current, a);
        } else {
            lemma_partial_step_bounds(f.current - f.target, a);
        }
    }
}

/// However an elapsed stretch of time is split into glide steps, the
/// current frequency after two steps, like after one, stays between where
/// it started and the unchanged target.
pub proof fn lemma_split_glide_stays_between(f: Frequency, dt1: int, dt2: int)
    requires
        f.wf(),
    ensures
        f.current <= f.target ==> f.current <= spec_updated(spec_updated(f, dt1), dt2).current
            <= f.target,
        f.current <= f.target ==> f.current <= spec_updated(f, dt1 + dt2).current <= f.target,
        f.target <= f.current ==> f.target <= spec_updated(spec_updated(f, dt1), dt2).current
            <= f.current,
        f.target <= f.current ==> f.target <= spec_updated(f, dt1 + dt2).current <= f.current,
{
    lemma_update_approaches_target(f, dt1);
    lemma_update_approaches_target(spec_updated(f, dt1), dt2);
    lemma_update_approaches_target(f, dt1 + dt2);
}

/// With no time constant the glide snaps, so two successive steps land
/// exactly where the one combined step lands.
pub proof fn lemma_snap_update_composes(f: Frequency, dt1: int, dt2: int)
    requires
        f.wf(),
        f.tau <= 0,
        dt1 > 0,
        dt2 > 0,
    ensures
        spec_updated(spec_updated(f, dt1), dt2) == spec_updated(f, dt1 + dt2),
{
}

/// Ticking keeps the phase inside one cycle, whatever the step.
pub proof fn lemma_tick_phase_in_cycle(o: Oscillator, dt: int)
    requires
        o.wf(),
    ensures
        0 <= spec_ticked(o, dt).phase < SCALE,
{
    if dt > 0 {
        let f1: int = spec_smoothed(o.frequency, dt);
        lemma_mod_bound(o.phase + spec_phase_inc(o.frequency.current as int, f1, dt), SCALE as int);
    }
}

/// An oscillator whose frequency rests at zero is silent motion: a tick of
/// any length leaves the phase, and with it every future sample, where it
/// was, while the amplitude stays untouched.
pub proof fn lemma_rest_oscillator_holds_phase(o: Oscillator, dt: int)
    requires
        o.wf(),
        o.frequency.current == 0,
        o.frequency.target == 0,
    ensures
        spec_ticked(o, dt).phase == o.phase,
        spec_ticked(o, dt).amplitude == o.amplitude,
        spec_ticked(o, dt).wave == o.wave,
{
    if dt > 0 {
        lemma_settled_update_is_still(o.frequency, dt);
        let f1: int = spec_smoothed(o.frequency, dt);
        assert(f1 == 0);
        assert((0int + 0) / 2 == 0);
        assert(0int * dt == 0) by (nonlinear_arith);
        assert(0int / (SCALE as int) == 0);
        assert(spec_phase_inc(0, 0, dt) == 0);
        lemma_small_mod(o.phase as nat, SCALE as nat);
    }
}

/// Where one frequency-adjustment event leaves a target frequency: the
/// delta is applied and the result clamped into `[MIN_FREQ, MAX_FREQ]`.
pub open spec fn spec_adjusted_target(t: int, delta: int) -> int {
    let raw: int = t + delta;
    if raw < MIN_FREQ {
        MIN_FREQ as int
    } else if raw > MAX_FREQ {
        MAX_FREQ as int
    } else {
        raw
    }
}

/// Advance every oscillator of the population by one step of time, capped at
/// `DT_CAP` so that a long stall cannot produce a single huge phase jump.
pub fn oscillator_tick(oscs: &mut Vec<Oscillator>, dt: i64)
    requires
        forall|k: int| 0 <= k < old(oscs)@.len() ==> old(oscs)@[k].wf(),
    ensures
        final(oscs)@.len() == old(oscs)@.len(),
        forall|k: int|
            0 <= k < old(oscs)@.len() ==> #[trigger] final(oscs)@[k] == spec_ticked(
                old(oscs)@[k],
                if dt > DT_CAP {
                    DT_CAP as int
                } else {
                    dt as int
                },
            ),
        forall|k: int| 0 <= k < old(oscs)@.len() ==> #[trigger] final(oscs)@[k].wf(),
{
    let capped: i64 = if dt > DT_CAP {
        DT_CAP
    } else {
        dt
    };
    let n: usize = oscs.len();
    let mut k: usize = 0;
    while k < n
        invariant
            k <= n,
            n == old(oscs)@.len(),
            oscs@.len() == n,
            forall|j: int| 0 <= j < k ==> #[trigger] oscs@[j] == spec_ticked(
                old(oscs)@[j],
                capped as int,
            ),
            forall|j: int| 0 <= j < k ==> #[trigger] oscs@[j].wf(),
            forall|j: int| k <= j < n ==> #[trigger] oscs@[j] == old(oscs)@[j],
            capped == (if dt > DT_CAP { DT_CAP as int } else { dt as int }),
            forall|j: int| 0 <= j < n ==> old(oscs)@[j].wf(),
        decreases n - k,
    {
        let mut o: Oscillator = oscs[k];
        o.tick(capped);
        oscs[k] = o;
        k = k + 1;
    }
}

/// Apply one round of user input to every oscillator of the population: a
/// raise and a lower event each move the target frequency by one step, the
/// result clamped into `[MIN_FREQ, MAX_FREQ]`; nothing moves when the two
/// events cancel or neither arrived.
pub fn oscillator_user_update(oscs: &mut Vec<Oscillator>, raise: bool, lower: bool)
    ensures
        final(oscs)@.len() == old(oscs)@.len(),
        raise == lower ==> final(oscs)@ == old(oscs)@,
        raise != lower ==> forall|k: int|
            0 <= k < old(oscs)@.len() ==> #[trigger] final(oscs)@[k] == (Oscillator {
                frequency: (Frequency {
                    target: spec_adjusted_target(
                        old(oscs)@[k].frequency.target as int,
                        if raise {
                            FREQ_STEP as int
                        } else {
                            -FREQ_STEP as int
                        },
                    ) as i64,
                    ..old(oscs)@[k].frequency
                }),
                ..old(oscs)@[k]
            }),
        forall|k: int|
            0 <= k < old(oscs)@.len() ==> MIN_FREQ <= #[trigger] final(oscs)@[k].frequency.target
                <= MAX_FREQ || final(oscs)@[k].frequency.target == old(
                oscs,
            )@[k].frequency.target,
{
    let mut delta: i64 = 0;
    if raise {
        delta = delta + FREQ_STEP;
    }
    if lower {
        delta = delta - FREQ_STEP;
    }
    if delta == 0 {
        return ;
    }
    let n: usize = oscs.len();
    let mut k: usize = 0;
    while k < n
        invariant
            k <= n,
            n == old(oscs)@.len(),
            oscs@.len() == n,
            delta == (if raise { FREQ_STEP as int } else { -FREQ_STEP as int }),
            raise != lower,
            forall|j: int| 0 <= j < k ==> #[trigger] oscs@[j] == (Oscillator {
                frequency: (Frequency {
                    target: spec_adjusted_target(
                        old(oscs)@[j].frequency.target as int,
                        delta as int,
                    ) as i64,
                    ..old(oscs)@[j].frequency
                }),
                ..old(oscs)@[j]
            }),
            forall|j: int| k <= j < n ==> #[trigger] oscs@[j] == old(oscs)@[j],
        decreases n - k,
    {
        let t: i64 = oscs[k].target_frequency();
        let raw: i128 = (t as i128) + (delta as i128);
        let nt: i64 = if raw < (MIN_FREQ as i128) {
            MIN_FREQ
        } else if raw > (MAX_FREQ as i128) {
            MAX_FREQ
        } else {
            raw as i64
        };
        let mut o: Oscillator = oscs[k];
        o.set_frequency(nt);
        oscs[k] = o;
        k = k + 1;
    }
}

} // verus!
