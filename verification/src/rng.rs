use vstd::prelude::*;
use vstd::wrapping::u64_specs;

verus! {

/// Increment added to the generator state before each draw.
pub const SPLITMIX_GAMMA: u64 = 0x9E37_79B9_7F4A_7C15;

/// The SplitMix64 output finalizer applied to an advanced state.
pub open spec fn splitmix_finalize(state: u64) -> u64 {
    let z1 = u64_specs::wrapping_mul(state ^ (state >> 30u64), 0xBF58_476D_1CE4_E5B9u64);
    let z2 = u64_specs::wrapping_mul(z1 ^ (z1 >> 27u64), 0x94D0_49BB_1331_11EBu64);
    z2 ^ (z2 >> 31u64)
}

/// State after one draw.
pub open spec fn advance_state(state: u64) -> u64 {
    u64_specs::wrapping_add(state, SPLITMIX_GAMMA)
}

/// State after `count` draws.
pub open spec fn advance_state_by(state: u64, count: nat) -> u64
    decreases count,
{
    if count == 0 {
        state
    } else {
        advance_state(advance_state_by(state, (count - 1) as nat))
    }
}

/// Value returned by the draw that moves the state from `state`.
pub open spec fn draw_output(state: u64) -> u64 {
    splitmix_finalize(advance_state(state))
}

/// Deterministic SplitMix64 generator. Its whole state is one `u64`, so a
/// saved state resumes the exact same stream.
#[derive(Clone, Debug)]
pub struct HeirloomRng {
    state: u64,
}

impl HeirloomRng {
    pub closed spec fn state_spec(&self) -> u64 {
        self.state
    }

    /// A generator whose state is the seed itself.
    pub fn new(seed: u64) -> (rng: Self)
        ensures
            rng.state_spec() == seed,
    {
        HeirloomRng { state: seed }
    }

    /// A generator resumed from a previously reported state.
    pub fn from_state(state: u64) -> (rng: Self)
        ensures
            rng.state_spec() == state,
    {
        HeirloomRng { state }
    }

    pub fn state(&self) -> (s: u64)
        ensures
            s == self.state_spec(),
    {
        self.state
    }

    /// Advances the state by the SplitMix64 increment and returns the
    /// finalized value of the new state.
    pub fn next_u64(&mut self) -> (value: u64)
        ensures
            final(self).state_spec() == advance_state(old(self).state_spec()),
            value == draw_output(old(self).state_spec()),
    {
        self.state = self.state.wrapping_add(SPLITMIX_GAMMA);
        splitmix_mix(self.state)
    }
}

/// The SplitMix64 finalizer as an executable function.
pub fn splitmix_mix(state: u64) -> (z: u64)
    ensures
        z == splitmix_finalize(state),
{
    let mut z = state;
    z = (z ^ (z >> 30u64)).wrapping_mul(0xBF58_476D_1CE4_E5B9u64);
    z = (z ^ (z >> 27u64)).wrapping_mul(0x94D0_49BB_1331_11EBu64);
    z ^ (z >> 31u64)
}

/// One SplitMix64 step applied to a value: used to hash sample positions
/// into window starts without carrying generator state.
pub fn mix_u64(value: u64) -> (r: u64)
    ensures
        r == draw_output(value),
{
    splitmix_mix(value.wrapping_add(SPLITMIX_GAMMA))
}

} // verus!
