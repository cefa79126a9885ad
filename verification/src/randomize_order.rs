//! Equality and order of re-seedings: by frame, then by seed, where seeds
//! compare as the 64-bit floats whose bit patterns they carry (both zeros are
//! equal, a NaN equals nothing and is not ordered, negative seeds come first).
use vstd::prelude::*;
use vstd::std_specs::cmp::{PartialEqSpecImpl, PartialOrdSpecImpl};
use core::cmp::Ordering;
use crate::ctas::Randomize;

verus! {

/// The sign bit of a 64-bit float cleared: the bits of its magnitude.
pub open spec fn magnitude_bits(bits: u64) -> u64 {
    bits & 0x7fff_ffff_ffff_ffffu64
}

/// Whether `bits` is the pattern of a NaN: all exponent bits set and a
/// nonzero fraction.
pub open spec fn is_nan_bits(bits: u64) -> bool {
    magnitude_bits(bits) > 0x7ff0_0000_0000_0000u64
}

/// Where the float with pattern `bits` (not a NaN) stands among floats: its
/// magnitude bits, negated when the sign bit is set. Both zeros stand at 0,
/// and larger floats stand further right.
pub open spec fn float_rank(bits: u64) -> int {
    if bits >> 63u64 == 1 {
        -(magnitude_bits(bits) as int)
    } else {
        magnitude_bits(bits) as int
    }
}

/// Whether two seeds are equal as floats.
pub open spec fn seeds_equal(a: u64, b: u64) -> bool {
    !is_nan_bits(a) && !is_nan_bits(b) && float_rank(a) == float_rank(b)
}

/// The order of two seeds as floats, `None` where either is a NaN.
pub open spec fn seed_order(a: u64, b: u64) -> Option<Ordering> {
    if is_nan_bits(a) || is_nan_bits(b) {
        None
    } else if float_rank(a) < float_rank(b) {
        Some(Ordering::Less)
    } else if float_rank(a) > float_rank(b) {
        Some(Ordering::Greater)
    } else {
        Some(Ordering::Equal)
    }
}

fn nan_bits(bits: u64) -> (r: bool)
    ensures
        r == is_nan_bits(bits),
{
    bits & 0x7fff_ffff_ffff_ffffu64 > 0x7ff0_0000_0000_0000u64
}

fn rank(bits: u64) -> (r: i128)
    ensures
        r == float_rank(bits),
{
    let mag = (bits & 0x7fff_ffff_ffff_ffffu64) as i128;
    if bits >> 63u64 == 1 {
        -mag
    } else {
        mag
    }
}

impl PartialEq for Randomize {
    fn eq(&self, other: &Self) -> (r: bool) {
        self.frame == other.frame && !nan_bits(self.seed_bits) && !nan_bits(other.seed_bits)
            && rank(self.seed_bits) == rank(other.seed_bits)
    }
}

impl PartialEqSpecImpl for Randomize {
    open spec fn obeys_eq_spec() -> bool {
        true
    }

    open spec fn eq_spec(&self, other: &Self) -> bool {
        self.frame == other.frame && seeds_equal(self.seed_bits, other.seed_bits)
    }
}

impl PartialOrd for Randomize {
    fn partial_cmp(&self, other: &Self) -> (r: Option<Ordering>) {
        if self.frame < other.frame {
            Some(Ordering::Less)
        } else if self.frame > other.frame {
            Some(Ordering::Greater)
        } else if nan_bits(self.seed_bits) || nan_bits(other.seed_bits) {
            None
        } else {
            let a = rank(self.seed_bits);
            let b = rank(other.seed_bits);
            if a < b {
                Some(Ordering::Less)
            } else if a > b {
                Some(Ordering::Greater)
            } else {
                Some(Ordering::Equal)
            }
        }
    }
}

impl PartialOrdSpecImpl for Randomize {
    open spec fn obeys_partial_cmp_spec() -> bool {
        true
    }

    open spec fn partial_cmp_spec(&self, other: &Self) -> Option<Ordering> {
        if self.frame < other.frame {
            Some(Ordering::Less)
        } else if self.frame > other.frame {
            Some(Ordering::Greater)
        } else {
            seed_order(self.seed_bits, other.seed_bits)
        }
    }
}

} // verus!
