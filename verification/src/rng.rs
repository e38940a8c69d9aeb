use vstd::prelude::*;

verus! {

/// Seed of every freshly created generator.
pub const DEFAULT_SEED: u64 = 0x4d59_5df4_d0f3_3173u64;

/// Multiplier that scrambles the xorshift state into an output word.
pub const OUTPUT_MULTIPLIER: u64 = 0x2545_f491_4f6c_dd1du64;

/// One xorshift64 step (shifts 12, 25, 27).
pub open spec fn xorshift_step(x: u64) -> u64 {
    let a: u64 = x ^ (x >> 12u64);
    let b: u64 = a ^ (a << 25u64);
    b ^ (b >> 27u64)
}

/// The 32-bit word drawn from a state: the high half of the state times the multiplier,
/// taken modulo 2^64.
pub open spec fn scrambled_output(x: u64) -> u32 {
    (x.wrapping_mul(OUTPUT_MULTIPLIER) >> 32u64) as u32
}

/// Each xorshift stage `x ^ (x >> k)` or `x ^ (x << k)` is invertible, so a nonzero
/// state never steps to zero.
pub proof fn lemma_step_keeps_state_nonzero(x: u64)
    requires
        x != 0,
    ensures
        xorshift_step(x) != 0,
{
    let a: u64 = x ^ (x >> 12u64);
    let b: u64 = a ^ (a << 25u64);
    assert(a != 0) by (bit_vector)
        requires
            x != 0,
            a == x ^ (x >> 12u64),
    ;
    assert(b != 0) by (bit_vector)
        requires
            a != 0,
            b == a ^ (a << 25u64),
    ;
    assert(b ^ (b >> 27u64) != 0) by (bit_vector)
        requires
            b != 0,
    ;
}

/// Marker of the entity that shows the current tool next to the pointer.
pub struct ToolCursor;

/// The xorshift* generator that picks object colours.
pub struct RngComponent {
    pub state: u64,
}

impl RngComponent {
    /// A generator at the fixed default seed.
    pub fn new() -> (r: Self)
        ensures
            r.state == DEFAULT_SEED,
    {
        RngComponent { state: DEFAULT_SEED }
    }

    /// Advances the state by one xorshift step and returns the scrambled high word.
    pub fn next_u32(&mut self) -> (r: u32)
        ensures
            final(self).state == xorshift_step(old(self).state),
            r == scrambled_output(final(self).state),
            old(self).state != 0 ==> final(self).state != 0,
    {
        proof {
            if self.state != 0 {
                lemma_step_keeps_state_nonzero(self.state);
            }
        }
        let mut x: u64 = self.state;
        x = x ^ (x >> 12u64);
        x = x ^ (x << 25u64);
        x = x ^ (x >> 27u64);
        self.state = x;
        let m: u64 = x.wrapping_mul(OUTPUT_MULTIPLIER) >> 32u64;
        assert(m >> 32u64 == 0u64) by (bit_vector)
            requires
                m == x.wrapping_mul(OUTPUT_MULTIPLIER) >> 32u64,
        ;
        assert(m < 0x1_0000_0000u64) by (bit_vector)
            requires
                m >> 32u64 == 0u64,
        ;
        m as u32
    }
}

impl Default for RngComponent {
    fn default() -> (r: Self)
        ensures
            r.state == DEFAULT_SEED,
    {
        RngComponent::new()
    }
}

} // verus!
