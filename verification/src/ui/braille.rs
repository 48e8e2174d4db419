//! The axis ladder braille charts scale to.
//!
//! A sparse ladder (128 → 192) leaves the top braille row unused, costing
//! a quarter of a four-row graph. With rungs at most 25% apart a peak
//! always lands in the top fifth of the axis — in the worst case exactly
//! 1/1.25 = 80% of the way up.

use vstd::prelude::*;

verus! {

/// Mantissas of the axis ladder, in hundredths: 1, 1.25, 1.5, 1.8, 2,
/// 2.5, 3, 3.5, 4, 5, 6, 7, 8 — repeated at every decade.
pub const MANTISSA_HUNDREDTHS: [u32; 13] = [100, 125, 150, 180, 200, 250, 300, 350, 400, 500, 600, 700, 800];

/// Each rung is at most 25% above the one below it, and the step from the
/// top rung to the next decade's first is no wider: the ladder's
/// tightness, which keeps every peak in the top fifth of its axis.
pub proof fn law_ladder_rungs_are_at_most_25_percent_apart()
    ensures
        forall|i: int| 0 < i < 13 ==> 100 * MANTISSA_HUNDREDTHS@[i] <= 125 * #[trigger] MANTISSA_HUNDREDTHS@[i - 1],
        forall|i: int| 0 < i < 13 ==> MANTISSA_HUNDREDTHS@[i - 1] < #[trigger] MANTISSA_HUNDREDTHS@[i],
        100 * 1000 <= 125 * MANTISSA_HUNDREDTHS@[12],
{
    assert forall|i: int| 0 < i < 13 implies 100 * MANTISSA_HUNDREDTHS@[i] <= 125 * #[trigger] MANTISSA_HUNDREDTHS@[i - 1]
        && MANTISSA_HUNDREDTHS@[i - 1] < MANTISSA_HUNDREDTHS@[i] by {
        if i == 1 {} else if i == 2 {} else if i == 3 {} else if i == 4 {} else if i == 5 {}
        else if i == 6 {} else if i == 7 {} else if i == 8 {} else if i == 9 {} else if i == 10 {}
        else if i == 11 {} else {}
    }
}

/// The ladder's mantissas, in hundredths, lowest first.
pub fn mantissa_hundredths() -> (v: Vec<u32>)
    ensures
        v@ == MANTISSA_HUNDREDTHS@,
{
    let mut v: Vec<u32> = Vec::new();
    let mut i: usize = 0;
    while i < 13
        invariant
            0 <= i <= 13,
            v@ == MANTISSA_HUNDREDTHS@.take(i as int),
        decreases 13 - i,
    {
        proof {
            assert(MANTISSA_HUNDREDTHS@.take(i + 1) =~= MANTISSA_HUNDREDTHS@.take(i as int).push(MANTISSA_HUNDREDTHS@[i as int]));
        }
        v.push(MANTISSA_HUNDREDTHS[i]);
        i += 1;
    }
    proof {
        assert(MANTISSA_HUNDREDTHS@.take(13) =~= MANTISSA_HUNDREDTHS@);
    }
    v
}

} // verus!

verus! {

/// The colour ramps magnitudes are drawn along.
#[derive(Debug, Clone, Copy, PartialEq, Eq, Structural)]
pub enum Ramp {
    /// Read / inbound: green.
    Read,
    /// Write / outbound: cyan.
    Write,
    /// Bounded-bad: green through amber to red.
    Load,
}

/// The five RGB stops of each ramp, darkest or best first.
pub open spec fn ramp_stops(r: Ramp) -> Seq<(u8, u8, u8)> {
    match r {
        Ramp::Read => seq![(0x13u8, 0x4fu8, 0x42u8), (0x1fu8, 0x7du8, 0x58u8), (0x3bu8, 0xb6u8, 0x73u8), (0x5cu8, 0xd9u8, 0x89u8), (0xa6u8, 0xf2u8, 0xc0u8)],
        Ramp::Write => seq![(0x10u8, 0x3fu8, 0x52u8), (0x1cu8, 0x6fu8, 0x8cu8), (0x3au8, 0xa9u8, 0xc9u8), (0x5fu8, 0xdcu8, 0xffu8), (0xb6u8, 0xedu8, 0xffu8)],
        Ramp::Load => seq![(0x5cu8, 0xd9u8, 0x89u8), (0x9fu8, 0xd0u8, 0x7au8), (0xf0u8, 0xc0u8, 0x60u8), (0xf3u8, 0x9au8, 0x6au8), (0xffu8, 0x78u8, 0x78u8)],
    }
}

impl Ramp {
    /// The ramp's stops; a colour at a fraction along it interpolates
    /// between the two around it.
    pub fn stops(self) -> (v: Vec<(u8, u8, u8)>)
        ensures
            v@ == ramp_stops(self),
    {
        let v = match self {
            Ramp::Read => vec![(0x13u8, 0x4fu8, 0x42u8), (0x1fu8, 0x7du8, 0x58u8), (0x3bu8, 0xb6u8, 0x73u8), (0x5cu8, 0xd9u8, 0x89u8), (0xa6u8, 0xf2u8, 0xc0u8)],
            Ramp::Write => vec![(0x10u8, 0x3fu8, 0x52u8), (0x1cu8, 0x6fu8, 0x8cu8), (0x3au8, 0xa9u8, 0xc9u8), (0x5fu8, 0xdcu8, 0xffu8), (0xb6u8, 0xedu8, 0xffu8)],
            Ramp::Load => vec![(0x5cu8, 0xd9u8, 0x89u8), (0x9fu8, 0xd0u8, 0x7au8), (0xf0u8, 0xc0u8, 0x60u8), (0xf3u8, 0x9au8, 0x6au8), (0xffu8, 0x78u8, 0x78u8)],
        };
        proof {
            assert(v@ =~= ramp_stops(self));
        }
        v
    }
}

} // verus!
