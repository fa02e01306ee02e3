//! Integer arithmetic as the token accounts use it.

use vstd::prelude::*;

verus! {

/// A sum capped at the largest `u64`.
pub open spec fn capped_sum(a: u64, b: u64) -> u64 {
    if a + b <= u64::MAX {
        (a + b) as u64
    } else {
        u64::MAX
    }
}

/// A product capped at the largest `u64`.
pub open spec fn capped_product(a: u64, b: u64) -> u64 {
    if a * b <= u64::MAX {
        (a * b) as u64
    } else {
        u64::MAX
    }
}

/// The value of the 64 bits of `n` read as a signed integer.
pub open spec fn as_signed(n: u64) -> int {
    if n <= i64::MAX {
        n as int
    } else {
        n - 0x1_0000_0000_0000_0000
    }
}

/// The 64 bits of `n` read as a signed integer.
pub fn signed(n: u64) -> (r: i64)
    ensures
        r == as_signed(n),
{
    proof {
        assert(n <= 0x7fff_ffff_ffff_ffff ==> n as i64 == n as int) by (bit_vector);
        assert(n > 0x7fff_ffff_ffff_ffff ==> n as i64 == n as int - 0x1_0000_0000_0000_0000) by (
        bit_vector);
    }
    n as i64
}

/// The product of two counts, capped at the largest `u64`.
pub fn product_capped(a: u64, b: u64) -> (r: u64)
    ensures
        r == capped_product(a, b),
{
    match a.checked_mul(b) {
        Some(product) => product,
        None => u64::MAX,
    }
}

/// A capped sum is the sum while that fits, and otherwise the largest number there is; so is a
/// capped product.
pub proof fn caps_only_cut_what_does_not_fit(a: u64, b: u64)
    ensures
        a + b <= 0xffff_ffff_ffff_ffff ==> capped_sum(a, b) == a + b,
        a + b > 0xffff_ffff_ffff_ffff ==> capped_sum(a, b) == 0xffff_ffff_ffff_ffff,
        a * b <= 0xffff_ffff_ffff_ffff ==> capped_product(a, b) == a * b,
        a * b > 0xffff_ffff_ffff_ffff ==> capped_product(a, b) == 0xffff_ffff_ffff_ffff,
{
}

/// Reading 64 bits as a signed integer keeps the number modulo two to the 64th, and gives a number
/// that a signed 64-bit integer holds.
pub proof fn a_signed_reading_keeps_the_bits(n: u64)
    ensures
        -0x8000_0000_0000_0000 <= as_signed(n) <= 0x7fff_ffff_ffff_ffff,
        as_signed(n) == n || as_signed(n) + 0x1_0000_0000_0000_0000 == n,
{
}

} // verus!
