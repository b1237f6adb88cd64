//! Limits that keep the flow quantities in the range the method is good for.

use vstd::prelude::*;
use crate::single::Single;

verus! {

/// The smallest square of the compressibility factor: 0.05.
pub const BETA_SQ_MIN_BITS: u32 = 0x3d4c_cccd;

/// One.
pub const ONE_BITS: u32 = 0x3f80_0000;

/// The lowest pressure coefficient given out: -3.
pub const CP_MIN_BITS: u32 = 0xc040_0000;

/// The highest pressure coefficient given out: 2.
pub const CP_MAX_BITS: u32 = 0x4000_0000;

/// The square of the Prandtl-Glauert factor, from one minus the square of
/// the Mach number: held between 0.05 and 1, so that the factor never
/// vanishes as Mach 1 is neared.
pub fn clamp_beta_sq(one_minus_mach_sq: Single) -> (r: Single)
    ensures
        r == one_minus_mach_sq.clamp_spec(
            Single { bits: BETA_SQ_MIN_BITS },
            Single { bits: ONE_BITS },
        ),
        one_minus_mach_sq == (Single { bits: ONE_BITS }) ==> r == one_minus_mach_sq,
{
    one_minus_mach_sq.clamp(Single { bits: BETA_SQ_MIN_BITS }, Single { bits: ONE_BITS })
}

/// A pressure coefficient held between -3 and 2.
pub fn clamp_cp(cp: Single) -> (r: Single)
    ensures
        r == cp.clamp_spec(Single { bits: CP_MIN_BITS }, Single { bits: CP_MAX_BITS }),
{
    cp.clamp(Single { bits: CP_MIN_BITS }, Single { bits: CP_MAX_BITS })
}

} // verus!
