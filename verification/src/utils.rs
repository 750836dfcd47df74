//! Decimal digit extraction, used by the `FX33` instruction.

use vstd::prelude::*;
use crate::model::spec_digits;

verus! {

/// The decimal digits of `num`, most significant first, without leading
/// zeroes. Zero yields no digits at all, so the stored sequence never pads.
pub fn extract_digits_u8(num: u8) -> (digits: Vec<u8>)
    ensures
        digits@ == spec_digits(num),
{
    let mut digits: Vec<u8> = Vec::new();
    if num >= 100 {
        digits.push(num / 100);
        digits.push((num / 10) % 10);
        digits.push(num % 10);
    } else if num >= 10 {
        digits.push(num / 10);
        digits.push(num % 10);
    } else if num > 0 {
        digits.push(num);
    }
    proof {
        assert(digits@ =~= spec_digits(num));
    }
    digits
}

} // verus!
