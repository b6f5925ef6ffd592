use iran_route::decimal::{blank_padded_text, decimal_text, parse_u8_chars, zero_padded_text};
use iran_route::ipv4::{format_ipv4, parse_ipv4_chars, Ipv4};
use iran_route::text::to_chars;

fn ip(a: u8, b: u8, c: u8, d: u8) -> Ipv4 {
    Ipv4 { a, b, c, d }
}

fn parsed(s: &str) -> Option<Ipv4> {
    parse_ipv4_chars(&to_chars(s))
}

#[test]
fn writes_decimals() {
    assert_eq!(decimal_text(0), "0");
    assert_eq!(decimal_text(1740), "1740");
    assert_eq!(decimal_text(u128::MAX), "340282366920938463463374607431768211455");
}

#[test]
fn pads_numbers_and_texts() {
    assert_eq!(zero_padded_text(7, 2), "07");
    assert_eq!(zero_padded_text(123, 2), "123");
    assert_eq!(zero_padded_text(2026, 4), "2026");
    assert_eq!(blank_padded_text("ab", 4), "ab  ");
    assert_eq!(blank_padded_text("abcde", 4), "abcde");
    assert_eq!(blank_padded_text("é", 3), "é  ");
}

#[test]
fn reads_bytes_as_the_standard_library_does() {
    for s in [
        "0", "24", "+24", "024", "00000000255", "255", "256", "0256", "", "+", "-1", "-0", "++1",
        "2 4", " 24", "1e2", "99999999999999999999", "٣",
    ] {
        assert_eq!(parse_u8_chars(&to_chars(s)), s.parse::<u8>().ok(), "{:?}", s);
    }
}

#[test]
fn every_byte_is_read_back() {
    for n in 0..=255u8 {
        assert_eq!(parse_u8_chars(&to_chars(&decimal_text(n as u128))), Some(n));
    }
}

#[test]
fn reads_four_decimal_octets() {
    assert_eq!(parsed("2.57.3.0"), Some(ip(2, 57, 3, 0)));
    assert_eq!(parsed("0.0.0.0"), Some(ip(0, 0, 0, 0)));
    assert_eq!(parsed("255.255.255.255"), Some(ip(255, 255, 255, 255)));
    assert_eq!(parsed("192.168.0.1"), Some(ip(192, 168, 0, 1)));
}

#[test]
fn rejects_other_texts_as_addresses() {
    for s in [
        "1.2.3", "1.2.3.4.5", "1.2.3.256", "01.2.3.4", "1.2.3.04", "1..2.3", ".1.2.3", "1.2.3.", "",
        "a.b.c.d", "1.2.3.4 ", " 1.2.3.4", "+1.2.3.4", "1.2.3.1000", "00.0.0.0", "1.2.3.4,5",
    ] {
        assert_eq!(parsed(s), None, "{:?}", s);
    }
}

#[test]
fn addresses_are_read_back() {
    for x in [ip(0, 0, 0, 0), ip(2, 57, 3, 0), ip(10, 99, 100, 255), ip(255, 9, 0, 1)] {
        assert_eq!(parsed(&format_ipv4(x)), Some(x));
    }
    assert_eq!(format_ipv4(ip(185, 167, 72, 0)), "185.167.72.0");
}
