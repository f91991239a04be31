//! Big-endian conversions that index their input directly.

use vstd::prelude::*;
use crate::utils::{be_bytes_u32, be_u32_value};

verus! {

/// Reads the first four bytes of `array` as a big-endian `u32`; the slice
/// must hold at least four bytes.
pub fn as_u32_be(array: &[u8]) -> (r: u32)
    requires
        array@.len() >= 4,
    ensures
        r == be_u32_value(array@),
{
    match crate::utils::as_u32_be(vstd::slice::slice_subrange(array, 0, 4)) {
        Ok(v) => v,
        Err(_) => {
            assert(false);
            0
        },
    }
}

/// Splits `x` into its four bytes, most significant first.
pub fn u32_to_be(x: u32) -> (r: [u8; 4])
    ensures
        r@ == be_bytes_u32(x),
{
    crate::utils::u32_to_be(x)
}

} // verus!
