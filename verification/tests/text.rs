use stir4200::bytes::{from_le16, from_le32, push_bytes, push_le32};
use stir4200::text::{
    decimal_text, hex_list_text, hex_text, one_place_text, pad_end, pad_start, two_places_text,
    zero_decimal_text, zero_hex_text, zero_signed_text,
};

#[test]
fn numbers_in_base_ten() {
    for n in [0, 7, 10, 255, 1_000_000, u64::MAX] {
        assert_eq!(decimal_text(n), format!("{n}"));
        assert_eq!(zero_decimal_text(n, 3), format!("{n:03}"));
    }
}

#[test]
fn numbers_in_base_sixteen() {
    for n in [0, 9, 10, 15, 16, 0xcafe, u64::MAX] {
        assert_eq!(hex_text(n), format!("{n:x}"));
        assert_eq!(zero_hex_text(n, 4), format!("{n:04x}"));
    }
}

#[test]
fn signed_numbers_count_their_sign() {
    for n in [0, 5, -5, 2023, -44, -12345, i64::MIN, i64::MAX] {
        assert_eq!(zero_signed_text(n, 4), format!("{n:04}"));
    }
}

#[test]
fn padding_fills_to_a_width() {
    assert_eq!(pad_start("ab", 4, '.'), "..ab");
    assert_eq!(pad_start("abcde", 4, '.'), "abcde");
    assert_eq!(pad_end("ab", 4), "ab  ");
    assert_eq!(pad_end("ünï", 4), "ünï ");
}

#[test]
fn decimal_places() {
    assert_eq!(one_place_text(0), "0.0");
    assert_eq!(one_place_text(-4), "-0.4");
    assert_eq!(one_place_text(123), "12.3");
    assert_eq!(one_place_text(i64::MIN), "-922337203685477580.8");
    assert_eq!(two_places_text(5), "0.05");
    assert_eq!(two_places_text(1234), "12.34");
}

#[test]
fn byte_lists() {
    for list in [&[][..], &[1][..], &[0x0a, 0xff, 0][..]] {
        assert_eq!(hex_list_text(list), format!("{list:02x?}"));
    }
}

#[test]
fn little_endian_numbers() {
    assert_eq!(from_le16(0x34, 0x12), 0x1234);
    assert_eq!(from_le32(0x78, 0x56, 0x34, 0x12), 0x12345678);
    let mut v = vec![9];
    push_le32(&mut v, 0xdeadbeef);
    push_bytes(&mut v, &[1, 2]);
    assert_eq!(v, vec![9, 0xef, 0xbe, 0xad, 0xde, 1, 2]);
    assert_eq!(from_le32(v[1], v[2], v[3], v[4]), 0xdeadbeef);
}
