use iran_route::text::to_text;
use iran_route::utf16::{
    bytes_to_units, dword_to_bytes, encode_multi_sz, from_utf16_lossy, null_terminated, to_wide,
    units_to_bytes,
};

#[test]
fn wide_texts_match_the_standard_library() {
    for s in ["", "ab", "é\u{ffff}", "x\u{10000}y\u{10ffff}", "\u{d7ff}\u{e000}"] {
        let mut want: Vec<u16> = s.encode_utf16().collect();
        assert_eq!(to_text(&from_utf16_lossy(&want)), s);
        want.push(0);
        assert_eq!(to_wide(s), want);
    }
}

#[test]
fn unpaired_surrogates_are_replaced() {
    let cases: Vec<Vec<u16>> = vec![
        vec![0xd800],
        vec![0xdc00, 65],
        vec![65, 0xd800, 66],
        vec![0xd800, 0xd800, 0xdc00],
        vec![0xdbff, 0xdfff],
        vec![0xdc00, 0xd800],
        vec![0xffff, 0, 0xe000],
    ];
    for u in cases {
        assert_eq!(to_text(&from_utf16_lossy(&u)), String::from_utf16_lossy(&u));
    }
}

#[test]
fn lists_end_with_two_nulls() {
    let list = vec![".ir".to_string(), "gap.im".to_string()];
    let want: Vec<u16> = ".ir\0gap.im\0\0".encode_utf16().collect();
    assert_eq!(encode_multi_sz(&list), want);
    assert_eq!(encode_multi_sz(&[]), vec![0u16]);
}

#[test]
fn units_and_bytes_match() {
    let u = vec![0x1234u16, 0x00ff, 0xff00];
    assert_eq!(units_to_bytes(&u), vec![0x34, 0x12, 0xff, 0x00, 0x00, 0xff]);
    assert_eq!(bytes_to_units(&units_to_bytes(&u)), u);
    assert_eq!(bytes_to_units(&[1, 2, 3]), vec![0x0201]);
    assert_eq!(dword_to_bytes(0x01020304), vec![4, 3, 2, 1]);
    assert_eq!(dword_to_bytes(8), vec![8, 0, 0, 0]);
    assert_eq!(null_terminated(&[7, 8]), vec![7, 8, 0]);
}
