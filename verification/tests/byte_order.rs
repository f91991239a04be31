use nat_traversal::error::NatError;
use nat_traversal::utils::{as_u16_be, as_u32_be, random_bytes, u16_to_be, u32_to_be};

#[test]
fn u32_needs_exactly_four_bytes() {
    assert_eq!(as_u32_be(&[1, 2, 3]), Err(NatError::NotFourBytes(3)));
    assert_eq!(as_u32_be(&[1, 2, 3, 4, 5]), Err(NatError::NotFourBytes(5)));
    assert_eq!(as_u32_be(&[]), Err(NatError::NotFourBytes(0)));
    assert_eq!(as_u32_be(&[0xff, 0xff, 0xff, 0xff]), Ok(u32::MAX));
    assert_eq!(as_u32_be(&[0x12, 0x34, 0x56, 0x78]), Ok(0x1234_5678));
}

#[test]
fn u16_needs_exactly_two_bytes() {
    assert_eq!(as_u16_be(&[7]), Err(NatError::NotTwoBytes(1)));
    assert_eq!(as_u16_be(&[1, 2, 3]), Err(NatError::NotTwoBytes(3)));
    assert_eq!(as_u16_be(&[0x01, 0x02]), Ok(0x0102));
    assert_eq!(u16_to_be(0xabcd), [0xab, 0xcd]);
    assert_eq!(as_u16_be(&u16_to_be(513)), Ok(513));
}

#[test]
fn u32_roundtrips_both_ways() {
    for n in [0u32, 1, 255, 256, 65_535, 0x0102_0304, u32::MAX] {
        assert_eq!(as_u32_be(&u32_to_be(n)), Ok(n));
    }
    assert_eq!(u32_to_be(0x0a0b_0c0d), [0x0a, 0x0b, 0x0c, 0x0d]);
}

#[test]
fn random_challenges_are_four_bytes() {
    let a = random_bytes();
    assert_eq!(a.len(), 4);
    assert_eq!(u32_to_be(as_u32_be(&a).unwrap()), a);
}
