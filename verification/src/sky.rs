//! Which of the four skies a scene gets, drawn from the generator.
use vstd::prelude::*;
use crate::rng::{Rng, xorshift32};

verus! {

/// The four skies a scene can have.
#[derive(Clone, Copy, Debug, PartialEq, Eq, Structural)]
pub enum SkyKind {
    Dawn,
    ClearDay,
    Dusk,
    StarryNight,
}

/// The sky chosen by a generator output: the output modulo 4 picks, in order,
/// dawn, clear day, dusk and starry night.
pub open spec fn sky_for(x: u32) -> SkyKind {
    let k = x % 4;
    if k == 0 {
        SkyKind::Dawn
    } else if k == 1 {
        SkyKind::ClearDay
    } else if k == 2 {
        SkyKind::Dusk
    } else {
        SkyKind::StarryNight
    }
}

impl SkyKind {
    /// Only the starry-night sky gets stars and a moon.
    pub fn is_night(&self) -> (b: bool)
        ensures
            b == (*self == SkyKind::StarryNight),
    {
        match self {
            SkyKind::StarryNight => true,
            _ => false,
        }
    }

    /// Dawn and dusk put a low, warm sun near the horizon.
    pub fn is_warm(&self) -> (b: bool)
        ensures
            b == (*self == SkyKind::Dawn || *self == SkyKind::Dusk),
    {
        match self {
            SkyKind::Dawn | SkyKind::Dusk => true,
            _ => false,
        }
    }
}

/// Draws one output from the generator and picks the sky it selects.
pub fn pick_sky(rng: &mut Rng) -> (s: SkyKind)
    ensures
        final(rng).state() == xorshift32(old(rng).state()),
        s == sky_for(xorshift32(old(rng).state())),
        xorshift32(old(rng).state()) % 4 == 0 <==> s == SkyKind::Dawn,
        xorshift32(old(rng).state()) % 4 == 1 <==> s == SkyKind::ClearDay,
        xorshift32(old(rng).state()) % 4 == 2 <==> s == SkyKind::Dusk,
        xorshift32(old(rng).state()) % 4 == 3 <==> s == SkyKind::StarryNight,
{
    let x = rng.next_u32();
    let k = x % 4;
    if k == 0 {
        SkyKind::Dawn
    } else if k == 1 {
        SkyKind::ClearDay
    } else if k == 2 {
        SkyKind::Dusk
    } else {
        SkyKind::StarryNight
    }
}

/// A night sky is never warm, and every sky is night, warm, or the clear day.
pub proof fn lemma_sky_kinds_partition(x: u32)
    ensures
        !(sky_for(x) == SkyKind::StarryNight && (sky_for(x) == SkyKind::Dawn || sky_for(x) == SkyKind::Dusk)),
        sky_for(x) == SkyKind::StarryNight <==> x % 4 == 3,
        (sky_for(x) == SkyKind::Dawn || sky_for(x) == SkyKind::Dusk) <==> x % 2 == 0,
{
}

} // verus!
