use limb_motion::fixed::SCALE;
use limb_motion::limb::{
    animate_limb_segments, DiskType, LimbSegment, LimbSegmentTypeId, RectType,
};
use limb_motion::oscillator::{Frequency, Oscillator, Wave};

/// Both flex policies start at exactly one unit and never decrease along
/// the chain.
#[test]
fn flex_is_monotone_from_one() {
    for ty in [LimbSegmentTypeId::Rectangle, LimbSegmentTypeId::Disk] {
        assert_eq!(ty.flex_for_segment(0), SCALE);
        let mut prev = SCALE;
        for i in 0..200 {
            let f = ty.flex_for_segment(i);
            assert!(f >= prev, "flex fell from {prev} to {f} at index {i}");
            assert!(f >= SCALE);
            prev = f;
        }
    }
}

/// Past the index cap the taper plateaus instead of growing on.
#[test]
fn flex_plateaus_past_cap() {
    for ty in [LimbSegmentTypeId::Rectangle, LimbSegmentTypeId::Disk] {
        let cap = ty.flex_for_segment(128);
        assert_eq!(ty.flex_for_segment(129), cap);
        assert_eq!(ty.flex_for_segment(10_000), cap);
    }
}

/// The rectangle policy `1 + 0.1 * i^1.1`: exact at the first two chain
/// positions, and within a thousandth of a unit at the third.
#[test]
fn rect_flex_values() {
    assert_eq!(RectType::flex_for_segment(0), 1_000_000);
    assert_eq!(RectType::flex_for_segment(1), 1_100_000);
    let f2 = RectType::flex_for_segment(2);
    assert!(
        (f2 - 1_214_355).abs() <= 1_000,
        "flex at index 2 is {f2}, expected about 1214355"
    );
}

/// The disk policy `1 + 0.05 * i` is exact everywhere below the cap.
#[test]
fn disk_flex_values() {
    assert_eq!(DiskType::flex_for_segment(0), 1_000_000);
    assert_eq!(DiskType::flex_for_segment(1), 1_050_000);
    assert_eq!(DiskType::flex_for_segment(2), 1_100_000);
    assert_eq!(DiskType::flex_for_segment(20), 2_000_000);
}

/// A three-segment chain under the rectangle policy at an angle of 0.2
/// radians: the base keeps the angle, the next segments swing wider.
#[test]
fn scenario_three_segment_chain() {
    let osc = Oscillator {
        wave: Wave::Square,
        amplitude: 200_000,
        frequency: Frequency::new(400_000),
        phase: 0,
    };
    assert_eq!(osc.sample(), 200_000);
    let segments = vec![
        LimbSegment { segment_index: 0, type_id: LimbSegmentTypeId::Rectangle },
        LimbSegment { segment_index: 1, type_id: LimbSegmentTypeId::Rectangle },
        LimbSegment { segment_index: 2, type_id: LimbSegmentTypeId::Rectangle },
    ];
    let rotations = animate_limb_segments(&osc, &segments);
    assert_eq!(rotations.len(), 3);
    assert_eq!(rotations[0], 200_000);
    assert_eq!(rotations[1], 220_000);
    assert!(
        (rotations[2] - 242_871).abs() <= 1_000,
        "third rotation is {}, expected about 242871",
        rotations[2]
    );
}

/// A limb with no segments animates to an empty set of rotations.
#[test]
fn empty_chain_is_tolerated() {
    let osc = Oscillator::new(Wave::Sine, 200_000, 400_000);
    let rotations = animate_limb_segments(&osc, &Vec::new());
    assert!(rotations.is_empty());
}

/// A flat oscillator moves no segment of a mixed chain.
#[test]
fn flat_wave_moves_nothing() {
    let osc = Oscillator::new(Wave::Flat, 900_000, 400_000);
    let segments = vec![
        LimbSegment { segment_index: 0, type_id: LimbSegmentTypeId::Rectangle },
        LimbSegment { segment_index: 1, type_id: LimbSegmentTypeId::Disk },
        LimbSegment { segment_index: 2, type_id: LimbSegmentTypeId::Rectangle },
    ];
    let rotations = animate_limb_segments(&osc, &segments);
    assert_eq!(rotations, vec![0, 0, 0]);
}

/// A negative sample swings every segment the other way, still scaled by
/// each segment's own flex.
#[test]
fn negative_angle_swings_back() {
    let osc = Oscillator {
        wave: Wave::Square,
        amplitude: 200_000,
        frequency: Frequency::new(400_000),
        phase: 750_000,
    };
    assert_eq!(osc.sample(), -200_000);
    let segments = vec![
        LimbSegment { segment_index: 0, type_id: LimbSegmentTypeId::Disk },
        LimbSegment { segment_index: 1, type_id: LimbSegmentTypeId::Disk },
    ];
    let rotations = animate_limb_segments(&osc, &segments);
    assert_eq!(rotations, vec![-200_000, -210_000]);
}
