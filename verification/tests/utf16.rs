use memex::utf16::{offset_from_utf16, offset_to_utf16};

#[test]
fn byte_offsets_become_utf16_offsets() {
    assert_eq!(offset_to_utf16("a\u{1F600}b", 5), 3);
    assert_eq!(offset_to_utf16("a\u{1F600}b", 1), 1);
    assert_eq!(offset_to_utf16("h\u{e9}llo", 100), 5);
    assert_eq!(offset_to_utf16("", 0), 0);
}

#[test]
fn utf16_offsets_become_byte_offsets() {
    assert_eq!(offset_from_utf16("a\u{1F600}b", 3), 5);
    assert_eq!(offset_from_utf16("a\u{1F600}b", 2), 5);
    assert_eq!(offset_from_utf16("abc", 10), 3);
    assert_eq!(offset_from_utf16("h\u{e9}llo", 2), 3);
    assert_eq!(offset_from_utf16("abc", 0), 0);
}

#[test]
fn conversions_round_trip_on_boundaries() {
    let text = "x\u{e9}\u{1F600}y";
    for off in [0usize, 1, 3, 7, 8] {
        assert_eq!(offset_from_utf16(text, offset_to_utf16(text, off)), off);
    }
}
