use dhcp_server::util::{parse_dec, slice_to_u16, slice_to_u32, u16_to_slice, u32_to_slice};

#[test]
fn u16_from_bytes() {
    assert_eq!(slice_to_u16(&[0x12, 0x34]), 0x1234);
    assert_eq!(slice_to_u16(&[0x00, 0x01]), 1);
    assert_eq!(slice_to_u16(&[0xFF, 0xFF]), 0xFFFF);
}

#[test]
fn u32_from_bytes() {
    assert_eq!(slice_to_u32(&[0xDE, 0xAD, 0xBE, 0xEF]), 0xDEADBEEF);
    assert_eq!(slice_to_u32(&[0, 0, 0, 1]), 1);
    assert_eq!(slice_to_u32(&[0xFF, 0xFF, 0xFF, 0xFF]), 0xFFFFFFFF);
}

#[test]
fn u16_to_bytes() {
    assert_eq!(u16_to_slice(0x1234), [0x12, 0x34]);
    assert_eq!(u16_to_slice(0), [0, 0]);
}

#[test]
fn u32_to_bytes() {
    assert_eq!(u32_to_slice(0xDEADBEEF), [0xDE, 0xAD, 0xBE, 0xEF]);
    assert_eq!(u32_to_slice(172800), [0x00, 0x02, 0xA3, 0x00]);
}

#[test]
fn u16_round_trip() {
    for v in [0u16, 1, 255, 256, 0x1234, 0xFFFF] {
        assert_eq!(slice_to_u16(&u16_to_slice(v)), v);
    }
}

#[test]
fn u32_round_trip() {
    for v in [0u32, 1, 255, 65536, 0xDEADBEEF, 0xFFFFFFFF] {
        assert_eq!(slice_to_u32(&u32_to_slice(v)), v);
    }
}

#[test]
fn parse_dec_plain() {
    assert_eq!(parse_dec("0", 255), Some(0));
    assert_eq!(parse_dec("255", 255), Some(255));
    assert_eq!(parse_dec("172800", u32::MAX as u64), Some(172800));
}

#[test]
fn parse_dec_plus_and_zeros() {
    assert_eq!(parse_dec("+42", 255), Some(42));
    assert_eq!(parse_dec("00000255", 255), Some(255));
}

#[test]
fn parse_dec_rejects() {
    assert_eq!(parse_dec("", 255), None);
    assert_eq!(parse_dec("+", 255), None);
    assert_eq!(parse_dec("256", 255), None);
    assert_eq!(parse_dec("12a", 255), None);
    assert_eq!(parse_dec("-1", 255), None);
    assert_eq!(parse_dec(" 1", 255), None);
}
