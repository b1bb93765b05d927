//! Helpers for the flag-register (VF) side effects of the arithmetic
//! instructions: carry, not-borrow, and the bits shifted out by the
//! shift instructions.

use vstd::prelude::*;

verus! {

/// Returns 1 when adding `x` and `y` would carry out of 8 bits, else 0.
pub fn check_carry(x: &u8, y: &u8) -> (r: u8)
    ensures
        r == (if *x + *y > 255 { 1u8 } else { 0u8 }),
{
    match x.checked_add(*y) {
        Some(_) => 0,
        None => 1,
    }
}

/// Returns 1 when subtracting `y` from `x` does not borrow (`x >= y`), else 0.
pub fn check_borrow(x: &u8, y: &u8) -> (r: u8)
    ensures
        r == (if *x >= *y { 1u8 } else { 0u8 }),
{
    if x >= y {
        return 1;
    }
    0
}

/// Returns the least-significant bit of `n`.
pub fn get_lsb(n: &u8) -> (r: u8)
    ensures
        r == *n % 2,
{
    proof {
        assert(((*n & (1u8 << 0u8)) != 0) == (*n % 2 == 1)) by (bit_vector);
    }
    match *n & (1u8 << 0u8) != 0 {
        true => 1,
        false => 0,
    }
}

/// Returns the most-significant bit of `n`.
pub fn get_msb(n: &u8) -> (r: u8)
    ensures
        r == *n / 128,
{
    proof {
        assert(((*n & (1u8 << 7u8)) != 0) == (*n / 128 == 1)) by (bit_vector);
        assert(*n / 128 == 0 || *n / 128 == 1) by (bit_vector);
    }
    match *n & (1u8 << 7u8) != 0 {
        true => 1,
        false => 0,
    }
}

} // verus!
