use vstd::prelude::*;

verus! {

/// Converts granule deltas to wall-clock milliseconds: the emission clock
/// that paces the stream at real-time playback rate.
pub struct Pacer {
    pub sample_rate: u32,
}

/// The milliseconds to wait after emitting a page at `granule`, the page
/// before it having ended at `prev`: the granule delta over the sample rate.
/// A page with the Vorbis "no packet completed" sentinel, or one that does
/// not advance the position (a splice reset the granule), waits nothing;
/// a wait beyond the 64-bit millisecond range saturates.
pub open spec fn spec_duration_ms(granule: u64, prev: u64, rate: u32) -> u64
    recommends
        rate > 0,
{
    if granule == u64::MAX || granule <= prev {
        0u64
    } else {
        let d = ((granule - prev) * 1000) / (rate as int);
        if d > u64::MAX {
            u64::MAX
        } else {
            d as u64
        }
    }
}

impl Pacer {
    /// A clock for the given audio sample rate.
    pub fn new(sample_rate: u32) -> (r: Pacer)
        requires
            sample_rate > 0,
        ensures
            r.sample_rate == sample_rate,
    {
        Pacer { sample_rate }
    }

    /// The engine's configured sample rate.
    pub fn sample_rate(&self) -> (r: u32)
        ensures
            r == self.sample_rate,
    {
        self.sample_rate
    }

    /// How long the driver sleeps between this page and the next.
    pub fn duration_until_next(&self, granule: u64, prev_granule: u64) -> (r: u64)
        requires
            self.sample_rate > 0,
        ensures
            r == spec_duration_ms(granule, prev_granule, self.sample_rate),
    {
        if granule == u64::MAX || granule <= prev_granule {
            return 0;
        }
        let delta = granule - prev_granule;
        let scaled: u128 = (delta as u128) * 1000 / (self.sample_rate as u128);
        if scaled > (u64::MAX as u128) {
            u64::MAX
        } else {
            scaled as u64
        }
    }
}

} // verus!
