//! Creatures as plans: a creature is a list of limbs, each limb a plan of
//! its oscillator and its segment chain. The plans are plain data; spawning
//! them into a scene is the host's business.

use vstd::prelude::*;

verus! {

use crate::limb::{LimbPlan, LimbSegmentTypeId};
use crate::oscillator::{Frequency, Oscillator, Wave};

/// A creature plan is a list of limbs.
#[derive(Debug, Clone)]
pub struct CreaturePlan {
    pub limbs: Vec<LimbPlan>,
}

/// A collection of creatures to spawn together.
#[derive(Debug, Clone)]
pub struct CreaturesPlan {
    pub creatures: Vec<CreaturePlan>,
}

/// The oscillator every limb of the example plan runs: a sine wave of
/// amplitude 0.2 radians at 0.4 hertz.
pub open spec fn spec_example_oscillator() -> Oscillator {
    (Oscillator {
        wave: Wave::Sine,
        amplitude: 200_000,
        frequency: (Frequency { current: 400_000, target: 400_000, tau: 30_000 }),
        phase: 0,
    })
}

/// The segment type at one chain position of the example plan: rectangles
/// and disks alternate along the limb.
pub open spec fn spec_example_segment(s: int) -> LimbSegmentTypeId {
    if s % 2 == 0 {
        LimbSegmentTypeId::Rectangle
    } else {
        LimbSegmentTypeId::Disk
    }
}

/// A limb of the example plan: the shared sine oscillator and sixteen
/// segments of alternating types.
pub open spec fn spec_example_limb(lp: LimbPlan) -> bool {
    &&& lp.oscillator == spec_example_oscillator()
    &&& lp.segments@.len() == 16
    &&& forall|s: int| 0 <= s < 16 ==> #[trigger] lp.segments@[s] == spec_example_segment(s)
}

/// A creature of the example plan: eight limbs, each an example limb.
pub open spec fn spec_example_creature(cp: CreaturePlan) -> bool {
    &&& cp.limbs@.len() == 8
    &&& forall|l: int| 0 <= l < 8 ==> spec_example_limb(#[trigger] cp.limbs@[l])
}

/// Build the example plan: six creatures, each with eight limbs, each limb
/// sixteen segments of alternating rectangle and disk types, all limbs
/// running the same sine oscillator of amplitude 0.2 at 0.4 hertz.
pub fn example_creatures_plan() -> (plan: CreaturesPlan)
    ensures
        plan.creatures@.len() == 6,
        forall|c: int| 0 <= c < 6 ==> spec_example_creature(#[trigger] plan.creatures@[c]),
{
    let mut creatures: Vec<CreaturePlan> = Vec::new();
    let mut c: usize = 0;
    while c < 6
        invariant
            c <= 6,
            creatures@.len() == c,
            forall|ci: int| 0 <= ci < c ==> spec_example_creature(#[trigger] creatures@[ci]),
        decreases 6 - c,
    {
        let mut limbs: Vec<LimbPlan> = Vec::new();
        let mut l: usize = 0;
        while l < 8
            invariant
                l <= 8,
                limbs@.len() == l,
                forall|li: int| 0 <= li < l ==> spec_example_limb(#[trigger] limbs@[li]),
            decreases 8 - l,
        {
            let mut segments: Vec<LimbSegmentTypeId> = Vec::new();
            let mut s: usize = 0;
            while s < 16
                invariant
                    s <= 16,
                    segments@.len() == s,
                    forall|si: int|
                        0 <= si < s ==> #[trigger] segments@[si] == spec_example_segment(si),
                decreases 16 - s,
            {
                if s % 2 == 0 {
                    segments.push(LimbSegmentTypeId::Rectangle);
                } else {
                    segments.push(LimbSegmentTypeId::Disk);
                }
                s = s + 1;
            }
            let oscillator: Oscillator = Oscillator::new(Wave::Sine, 200_000, 400_000);
            let limb_plan: LimbPlan = LimbPlan { oscillator, segments };
            proof {
                assert(spec_example_limb(limb_plan));
            }
            limbs.push(limb_plan);
            l = l + 1;
        }
        let creature_plan: CreaturePlan = CreaturePlan { limbs };
        proof {
            assert(spec_example_creature(creature_plan));
        }
        creatures.push(creature_plan);
        c = c + 1;
    }
    CreaturesPlan { creatures }
}

} // verus!
