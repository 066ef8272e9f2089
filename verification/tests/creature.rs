use limb_motion::creature::example_creatures_plan;
use limb_motion::limb::LimbSegmentTypeId;
use limb_motion::oscillator::Wave;

/// The example plan: six creatures of eight limbs, each limb sixteen
/// segments of alternating types, all driven by the same sine oscillator.
#[test]
fn example_plan_structure() {
    let plan = example_creatures_plan();
    assert_eq!(plan.creatures.len(), 6);
    for creature in &plan.creatures {
        assert_eq!(creature.limbs.len(), 8);
        for limb in &creature.limbs {
            let osc = &limb.oscillator;
            assert!(matches!(osc.wave, Wave::Sine));
            assert_eq!(osc.amplitude, 200_000);
            assert_eq!(osc.frequency.current, 400_000);
            assert_eq!(osc.frequency.target, 400_000);
            assert_eq!(osc.phase, 0);
            assert_eq!(limb.segments.len(), 16);
            for (i, ty) in limb.segments.iter().enumerate() {
                if i % 2 == 0 {
                    assert!(matches!(ty, LimbSegmentTypeId::Rectangle));
                } else {
                    assert!(matches!(ty, LimbSegmentTypeId::Disk));
                }
            }
        }
    }
}
