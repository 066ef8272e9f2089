use limb_motion::fixed::SCALE;
use limb_motion::oscillator::{
    Frequency, Oscillator, Wave, oscillator_tick, oscillator_user_update, MAX_FREQ,
};

/// One combined step and two split steps of the exponential glide agree to
/// well under a tenth of a percent of the target.
#[test]
fn smoothing_composition_split_steps() {
    let mut once = Frequency::new(0);
    once.set_target(1_000_000);
    once.set_tau(30_000);
    once.update(30_000);

    let mut twice = Frequency::new(0);
    twice.set_target(1_000_000);
    twice.set_tau(30_000);
    twice.update(10_000);
    twice.update(20_000);

    let gap = (once.current() - twice.current()).abs();
    assert!(gap <= 1_000, "split glide diverged by {gap}");
}

/// With no time constant the glide snaps, so any split of the step lands in
/// exactly the same place.
#[test]
fn smoothing_composition_snap() {
    let mut once = Frequency::new(0);
    once.set_target(700_000);
    once.set_tau(0);
    once.update(5_000);

    let mut twice = Frequency::new(0);
    twice.set_target(700_000);
    twice.set_tau(0);
    twice.update(2_000);
    twice.update(3_000);

    assert_eq!(once.current(), 700_000);
    assert_eq!(once.current(), twice.current());
}

/// After one time constant the glide covers about 63.2% of the gap,
/// within one percent.
#[test]
fn glide_covers_63_percent_after_tau() {
    let mut osc = Oscillator::new(Wave::Sine, 200_000, 0);
    osc.set_frequency(1_000_000);
    osc.tick(30_000);
    let current = osc.current_frequency();
    assert!(
        625_799 <= current && current <= 638_441,
        "current frequency {current} outside 632120 +/- 1%"
    );
}

/// Thousands of ticks near the highest frequency never push the phase out
/// of its cycle.
#[test]
fn phase_stays_inside_cycle() {
    let mut osc = Oscillator::new(Wave::Sine, 200_000, 1_990_000);
    osc.set_frequency(2_000_000);
    for _ in 0..5_000 {
        osc.tick(16_000);
        assert!(0 <= osc.phase && osc.phase < SCALE);
    }
}

/// Sampling without an intervening tick always returns the same value.
#[test]
fn sample_is_idempotent() {
    let mut osc = Oscillator::new(Wave::Triangle, 300_000, 500_000);
    osc.tick(40_000);
    let first = osc.sample();
    let second = osc.sample();
    let third = osc.sample();
    assert_eq!(first, second);
    assert_eq!(second, third);
}

/// A sine oscillator at 0.4 hertz, ticked 1.25 seconds with an instant
/// glide, lands exactly on half a cycle, where the sine sample is zero.
#[test]
fn scenario_sine_half_cycle() {
    let mut osc = Oscillator::new(Wave::Sine, 200_000, 400_000);
    osc.set_transition_time(0);
    osc.tick(1_250_000);
    assert_eq!(osc.phase, 500_000);
    assert_eq!(osc.sample(), 0);
}

/// A frequency at rest at zero freezes the phase but leaves the amplitude,
/// and with it the waveform, untouched.
#[test]
fn zero_frequency_freezes_phase() {
    let mut osc = Oscillator::new(Wave::Sine, 200_000, 400_000);
    osc.set_transition_time(0);
    osc.tick(625_000);
    osc.set_frequency(0);
    osc.tick(50_000);
    assert_eq!(osc.current_frequency(), 0);
    let frozen_phase = osc.phase;
    osc.tick(1_000_000);
    for _ in 0..100 {
        osc.tick(50_000);
    }
    assert_eq!(osc.phase, frozen_phase);
    assert_eq!(osc.amplitude, 200_000);
}

/// Repeated same-direction adjustment events saturate the target at the
/// clamp and never push it past it.
#[test]
fn adjustment_clamp_prevents_runaway() {
    let mut oscs = vec![Oscillator::new(Wave::Sine, 200_000, 400_000)];
    for _ in 0..100 {
        oscillator_user_update(&mut oscs, true, false);
        assert!(oscs[0].target_frequency() <= MAX_FREQ);
    }
    assert_eq!(oscs[0].target_frequency(), MAX_FREQ);
    for _ in 0..100 {
        oscillator_user_update(&mut oscs, false, true);
        assert!(oscs[0].target_frequency() >= 0);
    }
    assert_eq!(oscs[0].target_frequency(), 0);
}

/// Cancelling or absent input events move nothing.
#[test]
fn adjustment_needs_one_direction() {
    let mut oscs = vec![Oscillator::new(Wave::Sine, 200_000, 400_000)];
    oscillator_user_update(&mut oscs, true, true);
    assert_eq!(oscs[0].target_frequency(), 400_000);
    oscillator_user_update(&mut oscs, false, false);
    assert_eq!(oscs[0].target_frequency(), 400_000);
    oscillator_user_update(&mut oscs, true, false);
    assert_eq!(oscs[0].target_frequency(), 450_000);
}

/// The population tick caps a huge stalled-frame delta at 50 milliseconds.
#[test]
fn population_tick_caps_delta() {
    let mut capped = vec![Oscillator::new(Wave::Sine, 200_000, 400_000)];
    capped[0].set_transition_time(0);
    let mut small = vec![Oscillator::new(Wave::Sine, 200_000, 400_000)];
    small[0].set_transition_time(0);
    oscillator_tick(&mut capped, 10_000_000);
    oscillator_tick(&mut small, 50_000);
    assert_eq!(capped[0].phase, small[0].phase);
}

/// The square wave sits at plus or minus the amplitude, breaking only at
/// the start and the middle of the cycle.
#[test]
fn square_wave_values() {
    let amp = 200_000;
    for p in [0, 1, 125_000, 499_999, 500_000, 500_001, 750_000, 999_999] {
        let osc = Oscillator {
            wave: Wave::Square,
            amplitude: amp,
            frequency: Frequency::new(0),
            phase: p,
        };
        let s = osc.sample();
        if p <= SCALE / 2 {
            assert_eq!(s, amp, "square at phase {p}");
        } else {
            assert_eq!(s, -amp, "square at phase {p}");
        }
    }
}

/// Sine and triangle samples change by a vanishing amount between adjacent
/// phase positions, the wrap of the cycle included.
#[test]
fn sine_and_triangle_are_continuous() {
    for wave in [Wave::Sine, Wave::Triangle] {
        let bound = match wave {
            Wave::Triangle => 4,
            _ => 12,
        };
        let mut prev = None;
        for p in (0..SCALE).step_by(1).take(2_000).chain(
            (498_000..502_000).chain(998_000..1_000_000),
        ) {
            let osc = Oscillator {
                wave,
                amplitude: SCALE,
                frequency: Frequency::new(0),
                phase: p,
            };
            let s = osc.sample();
            if let Some((q, t)) = prev {
                if q + 1 == p {
                    let jump: i64 = s - t;
                    assert!(jump.abs() <= bound, "jump {jump} at phase {p}");
                }
            }
            prev = Some((p, s));
        }
        let start = Oscillator { wave, amplitude: SCALE, frequency: Frequency::new(0), phase: 0 };
        let last = Oscillator {
            wave,
            amplitude: SCALE,
            frequency: Frequency::new(0),
            phase: SCALE - 1,
        };
        let jump: i64 = start.sample() - last.sample();
        assert!(jump.abs() <= bound, "jump {jump} across the wrap");
    }
}

/// Advancing by exactly one cycle returns the sample to its old value.
#[test]
fn full_cycle_is_periodic() {
    let mut osc = Oscillator::new(Wave::Sine, 200_000, 1_000_000);
    osc.set_transition_time(0);
    osc.tick(40_000);
    let before = osc.sample();
    let phase_before = osc.phase;
    for _ in 0..40 {
        osc.tick(25_000);
    }
    assert_eq!(osc.phase, phase_before);
    assert_eq!(osc.sample(), before);
}

/// Non-positive deltas are ignored.
#[test]
fn nonpositive_delta_is_ignored() {
    let mut osc = Oscillator::new(Wave::Sine, 200_000, 400_000);
    osc.tick(50_000);
    let snapshot = osc;
    osc.tick(0);
    assert_eq!(osc, snapshot);
    osc.tick(-30_000);
    assert_eq!(osc, snapshot);
}

/// Negative frequencies are floored to zero at every entrance.
#[test]
fn negative_frequencies_are_floored() {
    let osc = Oscillator::new(Wave::Sine, 200_000, -400_000);
    assert_eq!(osc.current_frequency(), 0);
    assert_eq!(osc.target_frequency(), 0);
    let mut osc2 = Oscillator::new(Wave::Sine, 200_000, 400_000);
    osc2.set_frequency(-1);
    assert_eq!(osc2.target_frequency(), 0);
}

/// The flat wave is silent at every phase.
#[test]
fn flat_wave_is_silent() {
    let mut osc = Oscillator::new(Wave::Flat, 900_000, 700_000);
    for _ in 0..10 {
        osc.tick(37_000);
        assert_eq!(osc.sample(), 0);
    }
}

/// The triangle wave is exact at the quarter points of the cycle.
#[test]
fn triangle_quarter_points() {
    let amp = 640_000;
    for (p, expected) in [(0, 0), (250_000, amp), (500_000, 0), (750_000, -amp)] {
        let osc = Oscillator {
            wave: Wave::Triangle,
            amplitude: amp,
            frequency: Frequency::new(0),
            phase: p,
        };
        assert_eq!(osc.sample(), expected, "triangle at phase {p}");
    }
}

/// A negative time constant is floored to zero, which makes the glide snap.
#[test]
fn negative_tau_snaps() {
    let mut f = Frequency::new(0);
    f.set_tau(-7);
    assert_eq!(f.tau, 0);
    f.set_target(900_000);
    f.update(1);
    assert_eq!(f.current(), 900_000);
}

/// An amplitude outside the supported band is clamped at construction.
#[test]
fn amplitude_is_clamped() {
    let osc = Oscillator::new(Wave::Sine, i64::MAX, 0);
    assert_eq!(osc.amplitude, 1_000_000_000_000);
    let osc2 = Oscillator::new(Wave::Sine, i64::MIN, 0);
    assert_eq!(osc2.amplitude, -1_000_000_000_000);
}

/// The defaults: a flat wave tag, a resting smoother with a 30 millisecond
/// time constant, and a unit-amplitude sine oscillator at rest.
#[test]
fn default_values() {
    assert!(matches!(Wave::default(), Wave::Flat));
    let f = Frequency::default();
    assert_eq!(f.current, 0);
    assert_eq!(f.target, 0);
    assert_eq!(f.tau, 30_000);
    let o = Oscillator::default();
    assert!(matches!(o.wave, Wave::Sine));
    assert_eq!(o.amplitude, SCALE);
    assert_eq!(o.phase, 0);
}
