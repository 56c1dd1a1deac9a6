use vstd::prelude::*;

verus! {

/// One step of the 8-bit xorshift generator: the shifts by 13 and 17
/// wrap modulo the width, so they act as shifts by 5 and 1.
pub open spec fn xorshift_step(s: u8) -> u8 {
    let a = s ^ ((s << 5u8) as u8);
    let b = a ^ (a >> 1u8);
    b ^ ((b << 5u8) as u8)
}

/// An 8-bit xorshift pseudo-random generator.
pub struct RNG(pub u8);

impl RNG {
    /// Advances the generator by one step.
    pub fn clock(&mut self)
        ensures
            final(self).0 == xorshift_step(old(self).0),
    {
        self.0 = self.0 ^ self.0.wrapping_shl(13);
        self.0 = self.0 ^ self.0.wrapping_shr(17);
        self.0 = self.0 ^ self.0.wrapping_shl(5);
    }
}

} // verus!
