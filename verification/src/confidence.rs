//! Confidence levels.
//!
//! A confidence is a double-precision number. The library compares
//! confidences and computes nothing else with them, so it holds each one as
//! its rank: an integer that orders as the numbers do.
use vstd::prelude::*;

verus! {

/// The rank of 0.3: the confidence of a skill that was just created.
pub const CONF_CANDIDATE: i64 = 0x3fd3_3333_3333_3333;

/// The rank of 0.7: from here on a skill is applied by itself.
pub const CONF_ACTIVE: i64 = 0x3fe6_6666_6666_6666;

/// The rank of 0.9: the confidence of a well-validated skill.
pub const CONF_TRUSTED: i64 = 0x3fec_cccc_cccc_cccd;

/// The rank of the number with the given bits: sign bit, exponent, mantissa.
/// Both zeros have the rank 0.
pub open spec fn rank(bits: u64) -> int {
    if bits < 0x8000_0000_0000_0000 {
        bits as int
    } else {
        0x8000_0000_0000_0000 - bits
    }
}

/// The rank of the number with the given bits.
pub fn rank_of_bits(bits: u64) -> (r: i64)
    ensures
        r == rank(bits),
{
    if bits < 0x8000_0000_0000_0000 {
        bits as i64
    } else {
        0 - ((bits - 0x8000_0000_0000_0000) as i64)
    }
}

/// Ranks order as the numbers do: among numbers without a sign by their bits,
/// among those with one against them, and those with one come first.
pub proof fn law_ranks_order_numbers(a: u64, b: u64)
    ensures
        a < 0x8000_0000_0000_0000 && b < 0x8000_0000_0000_0000 ==> (a < b <==> rank(a) < rank(b)),
        a >= 0x8000_0000_0000_0000 && b >= 0x8000_0000_0000_0000 ==> (a < b <==> rank(b) < rank(a)),
        a > 0x8000_0000_0000_0000 && b < 0x8000_0000_0000_0000 ==> rank(a) < rank(b),
        rank(0x8000_0000_0000_0000) == rank(0),
{
}

} // verus!
