//! Ordering of temperatures held as IEEE-754 double bit patterns.
use vstd::prelude::*;

verus! {

/// Bits of the exponent and mantissa (everything but the sign).
pub const MAGNITUDE_MASK: u64 = 0x7fff_ffff_ffff_ffff;

/// Bit pattern of positive infinity.
pub const INFINITY_BITS: u64 = 0x7ff0_0000_0000_0000;

/// The bit pattern encodes a NaN: all exponent bits set and a non-zero
/// mantissa, that is, a magnitude above infinity's.
pub open spec fn is_nan(b: u64) -> bool {
    (b & MAGNITUDE_MASK) > INFINITY_BITS
}

/// The position of a non-NaN double on the number line: for IEEE-754
/// doubles, sign and magnitude order exactly like the values, and the two
/// zeros share position 0.
pub open spec fn order_key(b: u64) -> int {
    if (b >> 63u64) == 1 {
        -((b & MAGNITUDE_MASK) as int)
    } else {
        (b & MAGNITUDE_MASK) as int
    }
}

/// `a < b` for the doubles with these bit patterns (false when either is NaN).
pub open spec fn spec_below(a: u64, b: u64) -> bool {
    !is_nan(a) && !is_nan(b) && order_key(a) < order_key(b)
}

/// `a < b` on the doubles whose bit patterns are `a` and `b`.
pub fn temp_below(a: u64, b: u64) -> (r: bool)
    ensures
        r == spec_below(a, b),
{
    let ma = a & MAGNITUDE_MASK;
    let mb = b & MAGNITUDE_MASK;
    if ma > INFINITY_BITS || mb > INFINITY_BITS {
        return false;
    }
    let negative_a = (a >> 63u64) == 1;
    let negative_b = (b >> 63u64) == 1;
    if negative_a {
        if negative_b {
            mb < ma
        } else {
            !(ma == 0 && mb == 0)
        }
    } else {
        if negative_b {
            false
        } else {
            ma < mb
        }
    }
}

/// `<` on temperatures is a strict order on the non-NaN values.
pub proof fn lemma_below_strict_order(a: u64, b: u64, c: u64)
    ensures
        !spec_below(a, a),
        spec_below(a, b) ==> !spec_below(b, a),
        spec_below(a, b) && spec_below(b, c) ==> spec_below(a, c),
{
}

} // verus!
