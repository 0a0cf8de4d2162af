use maat_graphics::bytes::{bytes_equal, copy_range, split_bytes, split_lines};
use maat_graphics::number::{is_float_literal_bytes, parse_unsigned_bytes, push_decimal};

#[test]
fn split_on_spaces() {
    let parts = split_bytes(b"a  b c", b' ');
    assert_eq!(parts, vec![b"a".to_vec(), b"".to_vec(), b"b".to_vec(), b"c".to_vec()]);
    assert_eq!(split_bytes(b"", b' '), vec![Vec::<u8>::new()]);
}

#[test]
fn lines_like_bufread() {
    let lines = split_lines(b"one\r\ntwo\n\nthree");
    assert_eq!(lines, vec![b"one".to_vec(), b"two".to_vec(), b"".to_vec(), b"three".to_vec()]);
    assert_eq!(split_lines(b"end\n"), vec![b"end".to_vec()]);
    assert!(split_lines(b"").is_empty());
}

#[test]
fn copy_and_compare() {
    assert_eq!(copy_range(b"abcdef", 1, 4), b"bcd".to_vec());
    assert!(bytes_equal(b"abc", b"abc"));
    assert!(!bytes_equal(b"abc", b"abd"));
    assert!(!bytes_equal(b"abc", b"ab"));
}

#[test]
fn unsigned_parsing_as_std() {
    assert_eq!(parse_unsigned_bytes(b"1280", u32::MAX as u64), Some(1280));
    assert_eq!(parse_unsigned_bytes(b"+7", u32::MAX as u64), Some(7));
    assert_eq!(parse_unsigned_bytes(b"4294967295", u32::MAX as u64), Some(4294967295));
    assert_eq!(parse_unsigned_bytes(b"4294967296", u32::MAX as u64), None);
    assert_eq!(parse_unsigned_bytes(b"", u32::MAX as u64), None);
    assert_eq!(parse_unsigned_bytes(b"+", u32::MAX as u64), None);
    assert_eq!(parse_unsigned_bytes(b"-1", u32::MAX as u64), None);
    assert_eq!(parse_unsigned_bytes(b"12a", u32::MAX as u64), None);
    for s in ["0", "42", "007", "65535"] {
        assert_eq!(parse_unsigned_bytes(s.as_bytes(), u32::MAX as u64), s.parse::<u32>().ok().map(|v| v as u64));
    }
}

#[test]
fn decimal_text() {
    let mut out = b"x=".to_vec();
    push_decimal(0, &mut out);
    push_decimal(1920, &mut out);
    assert_eq!(out, b"x=01920".to_vec());
}

#[test]
fn float_literals_as_std() {
    let cases = [
        "1", "1.0", ".5", "5.", "-2.5e3", "+1E-7", "inf", "-Infinity", "NaN", "nan", "1e", "e5",
        "", ".", "1.2.3", "abc", "0x10", " 1", "1_000", "infinity", "+.e1",
    ];
    for c in cases {
        assert_eq!(is_float_literal_bytes(c.as_bytes()), c.parse::<f32>().is_ok(), "case {:?}", c);
    }
}
