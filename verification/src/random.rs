//! SplitMix64: a stream of 64-bit values that a seed reproduces exactly.
use vstd::prelude::*;

verus! {

/// What the state grows by.
pub const GOLDEN: u64 = 0x9E37_79B9_7F4A_7C15;

/// The value a state gives.
pub open spec fn mixed(state: u64) -> u64 {
    let a = (state ^ (state >> 30)).wrapping_mul(0xBF58_476D_1CE4_E5B9);
    let b = (a ^ (a >> 27)).wrapping_mul(0x94D0_49BB_1331_11EB);
    b ^ (b >> 31)
}

/// A stream of values.
#[derive(Debug, Clone, Copy, PartialEq, Eq, Structural)]
pub struct SplitMix64 {
    pub state: u64,
}

impl SplitMix64 {
    /// The stream of a seed; zero is as good as any.
    pub fn seeded(seed: u64) -> (stream: Self)
        ensures
            stream.state == seed.wrapping_add(GOLDEN),
    {
        SplitMix64 { state: seed.wrapping_add(GOLDEN) }
    }

    /// The next value.
    pub fn draw(&mut self) -> (value: u64)
        ensures
            final(self).state == old(self).state.wrapping_add(GOLDEN),
            value == mixed(final(self).state),
    {
        self.state = self.state.wrapping_add(GOLDEN);
        let z: u64 = self.state;
        let a: u64 = (z ^ (z >> 30)).wrapping_mul(0xBF58_476D_1CE4_E5B9);
        let b: u64 = (a ^ (a >> 27)).wrapping_mul(0x94D0_49BB_1331_11EB);
        b ^ (b >> 31)
    }

    /// The next value as 24 bits, all that an f32 in `[0, 1)` resolves: divided by 2^24
    /// it is uniform there.
    pub fn draw_24(&mut self) -> (value: u32)
        ensures
            final(self).state == old(self).state.wrapping_add(GOLDEN),
            value == mixed(final(self).state) >> 40,
            value < 0x100_0000,
    {
        let z: u64 = self.draw();
        proof {
            assert(z >> 40 < 0x100_0000) by (bit_vector);
        }
        (z >> 40) as u32
    }

    /// The next value as 53 bits, all that an f64 in `[0, 1)` resolves.
    pub fn draw_53(&mut self) -> (value: u64)
        ensures
            final(self).state == old(self).state.wrapping_add(GOLDEN),
            value == mixed(final(self).state) >> 11,
            value < 0x20_0000_0000_0000,
    {
        let z: u64 = self.draw();
        proof {
            assert(z >> 11 < 0x20_0000_0000_0000) by (bit_vector);
        }
        z >> 11
    }
}

} // verus!
