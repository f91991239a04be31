//! Big-endian conversions between integers and byte arrays.

use vstd::prelude::*;
use crate::error::NatError;
use rand::Rng;

verus! {

/// The number that four bytes stand for, read most significant first.
pub open spec fn be_u32_value(b: Seq<u8>) -> int {
    b[0] * 0x100_0000 + b[1] * 0x1_0000 + b[2] * 0x100 + b[3]
}

/// The number that two bytes stand for, read most significant first.
pub open spec fn be_u16_value(b: Seq<u8>) -> int {
    b[0] * 0x100 + b[1]
}

/// The four bytes of `x`, most significant first.
pub open spec fn be_bytes_u32(x: u32) -> Seq<u8> {
    seq![
        (x / 0x100_0000) as u8,
        ((x / 0x1_0000) % 0x100) as u8,
        ((x / 0x100) % 0x100) as u8,
        (x % 0x100) as u8,
    ]
}

/// The two bytes of `x`, most significant first.
pub open spec fn be_bytes_u16(x: u16) -> Seq<u8> {
    seq![(x / 0x100) as u8, (x % 0x100) as u8]
}

/// Reads a big-endian `u32`; the slice must hold exactly four bytes.
pub fn as_u32_be(array: &[u8]) -> (r: Result<u32, NatError>)
    ensures
        array@.len() == 4 ==> r == Ok::<u32, NatError>(be_u32_value(array@) as u32),
        array@.len() != 4 ==> r == Err::<u32, NatError>(NatError::NotFourBytes(array@.len() as usize)),
        r is Ok ==> r->Ok_0 == be_u32_value(array@),
{
    if array.len() != 4 {
        return Err(NatError::NotFourBytes(array.len()));
    }
    let a0 = array[0] as u32;
    let a1 = array[1] as u32;
    let a2 = array[2] as u32;
    let a3 = array[3] as u32;
    assert(a0 * 0x100_0000 + a1 * 0x1_0000 + a2 * 0x100 + a3 <= 0xffff_ffff) by (nonlinear_arith)
        requires a0 < 256, a1 < 256, a2 < 256, a3 < 256;
    assert((a0 << 24) == a0 * 0x100_0000) by (bit_vector) requires a0 < 256;
    assert((a1 << 16) == a1 * 0x1_0000) by (bit_vector) requires a1 < 256;
    assert((a2 << 8) == a2 * 0x100) by (bit_vector) requires a2 < 256;
    assert((a3 << 0) == a3) by (bit_vector);
    Ok((a0 << 24) + (a1 << 16) + (a2 << 8) + (a3 << 0))
}

/// Reads a big-endian `u16`; the slice must hold exactly two bytes.
pub fn as_u16_be(array: &[u8]) -> (r: Result<u16, NatError>)
    ensures
        array@.len() == 2 ==> r == Ok::<u16, NatError>(be_u16_value(array@) as u16),
        array@.len() != 2 ==> r == Err::<u16, NatError>(NatError::NotTwoBytes(array@.len() as usize)),
        r is Ok ==> r->Ok_0 == be_u16_value(array@),
{
    if array.len() != 2 {
        return Err(NatError::NotTwoBytes(array.len()));
    }
    let a0 = array[0] as u16;
    let a1 = array[1] as u16;
    assert((a0 << 8) == a0 * 0x100) by (bit_vector) requires a0 < 256;
    assert((a1 << 0) == a1) by (bit_vector);
    Ok((a0 << 8) + (a1 << 0))
}

/// Splits `x` into its two bytes, most significant first.
pub fn u16_to_be(x: u16) -> (r: [u8; 2])
    ensures
        r@ == be_bytes_u16(x),
{
    let b1: u8 = ((x >> 8) & 0xff) as u8;
    let b2: u8 = (x & 0xff) as u8;
    assert(((x >> 8) & 0xff) as u8 == (x / 0x100) as u8) by (bit_vector);
    assert((x & 0xff) as u8 == (x % 0x100) as u8) by (bit_vector);
    [b1, b2]
}

/// Splits `x` into its four bytes, most significant first.
pub fn u32_to_be(x: u32) -> (r: [u8; 4])
    ensures
        r@ == be_bytes_u32(x),
{
    let b1: u8 = ((x >> 24) & 0xff) as u8;
    let b2: u8 = ((x >> 16) & 0xff) as u8;
    let b3: u8 = ((x >> 8) & 0xff) as u8;
    let b4: u8 = (x & 0xff) as u8;
    assert(((x >> 24) & 0xff) as u8 == (x / 0x100_0000) as u8) by (bit_vector);
    assert(((x >> 16) & 0xff) as u8 == ((x / 0x1_0000) % 0x100) as u8) by (bit_vector);
    assert(((x >> 8) & 0xff) as u8 == ((x / 0x100) % 0x100) as u8) by (bit_vector);
    assert((x & 0xff) as u8 == (x % 0x100) as u8) by (bit_vector);
    [b1, b2, b3, b4]
}

/// Writing a `u32` big-endian and reading it back gives the number again.
pub proof fn lemma_u32_be_roundtrip(x: u32)
    ensures
        be_bytes_u32(x).len() == 4,
        be_u32_value(be_bytes_u32(x)) == x,
{
    let b = be_bytes_u32(x);
    assert(b[0] == x / 0x100_0000);
    assert(x / 0x100_0000 * 0x100_0000 + (x / 0x1_0000) % 0x100 * 0x1_0000 + (x / 0x100) % 0x100 * 0x100
        + x % 0x100 == x) by (nonlinear_arith);
}

/// Reading four bytes big-endian and writing the number back gives the bytes again.
pub proof fn lemma_be_u32_bytes_roundtrip(b: Seq<u8>)
    requires
        b.len() == 4,
    ensures
        0 <= be_u32_value(b) <= u32::MAX,
        be_bytes_u32(be_u32_value(b) as u32) =~= b,
{
    let (a0, a1, a2, a3) = (b[0] as int, b[1] as int, b[2] as int, b[3] as int);
    let v = be_u32_value(b);
    assert(v == a0 * 0x100_0000 + a1 * 0x1_0000 + a2 * 0x100 + a3);
    assert(0 <= v <= 0xffff_ffff && v / 0x100_0000 == a0 && (v / 0x1_0000) % 0x100 == a1
        && (v / 0x100) % 0x100 == a2 && v % 0x100 == a3) by (nonlinear_arith)
        requires
            v == a0 * 0x100_0000 + a1 * 0x1_0000 + a2 * 0x100 + a3,
            0 <= a0 < 256, 0 <= a1 < 256, 0 <= a2 < 256, 0 <= a3 < 256;
}

/// Writing a `u16` big-endian and reading it back gives the number again.
pub proof fn lemma_u16_be_roundtrip(x: u16)
    ensures
        be_bytes_u16(x).len() == 2,
        be_u16_value(be_bytes_u16(x)) == x,
{
    assert(x / 0x100 * 0x100 + x % 0x100 == x) by (nonlinear_arith);
}

} // verus!

verus! {

/// Trusted: wraps `Rng::gen::<u32>` on `rand::thread_rng()`, a number from
/// the thread-local generator. Nothing is stated of it.
#[verifier::external_body]
fn random_u32() -> u32 {
    rand::thread_rng().gen::<u32>()
}

/// Four random bytes: the big-endian bytes of a random `u32`.
pub fn random_bytes() -> (r: [u8; 4])
    ensures
        exists|x: u32| r@ == #[trigger] be_bytes_u32(x),
{
    let x = random_u32();
    let r = u32_to_be(x);
    assert(r@ == be_bytes_u32(x));
    r
}

} // verus!
