//! The per-pixel colour transform.

use vstd::prelude::*;

verus! {

/// The gray level of one pixel: the mean of its three channels, rounded down.
pub open spec fn gray_level(r: u8, g: u8, b: u8) -> u8 {
    ((r as int + g as int + b as int) / 3) as u8
}

/// Maps one RGB triplet to the gray triplet of the same mean brightness.
///
/// The sum is formed in 32 bits, so it cannot overflow, and the division
/// truncates.
pub fn grayscale(r: u8, g: u8, b: u8) -> (out: (u8, u8, u8))
    ensures
        out.0 as int == (r as int + g as int + b as int) / 3,
        out.0 == gray_level(r, g, b),
        out.1 == out.0,
        out.2 == out.0,
{
    let sum: u32 = r as u32 + g as u32 + b as u32;
    let level: u8 = (sum / 3) as u8;
    (level, level, level)
}

} // verus!
