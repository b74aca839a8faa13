use ncd_cli::utf8::looks_like_utf8;
use ncd_cli::utf8::utf8_valid;

#[test]
fn test_looks_like_utf8() {
    assert_eq!(looks_like_utf8(b""), true);
    assert_eq!(looks_like_utf8(b"ab"), true);
    assert_eq!(looks_like_utf8(b"abc"), true);
    assert_eq!(looks_like_utf8(b"abcd"), true);
    assert_eq!(looks_like_utf8(&[0x21, 0x21, 0xC2]), true);
    assert_eq!(looks_like_utf8(&[0x21, 0x21, 0xF3, 0x90, 0x90, 0x90]), true);
    assert_eq!(looks_like_utf8(&[0x21, 0x21, 0xF3, 0x90, 0x90]), true);
    assert_eq!(looks_like_utf8(&[0x21, 0x21, 0xF3, 0x90]), true);
    assert_eq!(looks_like_utf8(&[0x21, 0x21, 0xF3]), true);
    assert_eq!(looks_like_utf8(&[0x21, 0x21, 0xF3, 0xF1]), false);
    assert_eq!(looks_like_utf8(&[0xF3, 0x90]), false);
    assert_eq!(looks_like_utf8(&[0xC2]), false);
    assert_eq!(looks_like_utf8(&[0xC2, 0xA0]), true);
    assert_eq!(looks_like_utf8(&[0x21, 0x21, 0xF3, 0x90, 0x90, 0x90, 0x90]), false);
    assert_eq!(looks_like_utf8(&[0x21, 0xC0, 0x21, 0xF3, 0x90, 0x90, 0x90]), false);
}

#[test]
fn test_utf8_valid_exact() {
    assert_eq!(utf8_valid(b""), true);
    assert_eq!(utf8_valid(b"plain ascii"), true);
    // Two-byte, three-byte and four-byte characters.
    assert_eq!(utf8_valid(&[0xC3, 0xA9]), true);
    assert_eq!(utf8_valid(&[0xE2, 0x82, 0xAC]), true);
    assert_eq!(utf8_valid(&[0xF0, 0x9F, 0x92, 0xBE]), true);
    // Overlong forms and stray continuations are refused.
    assert_eq!(utf8_valid(&[0xC0, 0x80]), false);
    assert_eq!(utf8_valid(&[0x80]), false);
    assert_eq!(utf8_valid(&[0xE0, 0x9F, 0x80]), false);
    // Surrogate range is refused.
    assert_eq!(utf8_valid(&[0xED, 0xA0, 0x80]), false);
    // Beyond U+10FFFF is refused.
    assert_eq!(utf8_valid(&[0xF4, 0x90, 0x80, 0x80]), false);
    // Truncated characters alone are not valid, only tolerated by the sniffer.
    assert_eq!(utf8_valid(&[0xE2, 0x82]), false);
}

#[test]
fn test_utf8_valid_matches_std() {
    // Every one- and two-byte buffer, checked against the standard
    // library's own UTF-8 validation.
    for b0 in 0..=255u8 {
        let one = [b0];
        assert_eq!(utf8_valid(&one), std::str::from_utf8(&one).is_ok());
        for b1 in 0..=255u8 {
            let two = [b0, b1];
            assert_eq!(utf8_valid(&two), std::str::from_utf8(&two).is_ok());
        }
    }
    // Three- and four-byte buffers over the boundary bytes of every range.
    let edges: [u8; 19] = [
        0x00, 0x7F, 0x80, 0x8F, 0x90, 0x9F, 0xA0, 0xBF, 0xC0, 0xC1, 0xC2, 0xDF, 0xE0, 0xED, 0xEF,
        0xF0, 0xF4, 0xF5, 0xFF,
    ];
    for &b0 in &edges {
        for &b1 in &edges {
            for &b2 in &edges {
                let three = [b0, b1, b2];
                assert_eq!(utf8_valid(&three), std::str::from_utf8(&three).is_ok());
                for &b3 in &[0x7Fu8, 0x80, 0xBF, 0xC0] {
                    let four = [b0, b1, b2, b3];
                    assert_eq!(utf8_valid(&four), std::str::from_utf8(&four).is_ok());
                }
            }
        }
    }
}

#[test]
fn test_truncated_tails_accepted() {
    // A valid text cut one, two or three bytes before its end still passes.
    let full = [0x61, 0x62, 0xF0, 0x9F, 0x92, 0xBE];
    for cut in 1..=3 {
        let head = &full[..full.len() - cut];
        assert_eq!(looks_like_utf8(head), true);
    }
    // Cut so deep that only a fragment of one character is left: refused.
    assert_eq!(looks_like_utf8(&full[2..4]), false);
}
