use simple_redis::resp::append::{push_bytes, push_range};
use simple_redis::resp::decimal::{
    parse_i64, parse_u64, parse_usize, push_nat, push_compact, push_signed,
};
use simple_redis::resp::double::RespDouble;
use simple_redis::resp::text::{bytes_before, is_lower_equal, is_plain_line, key_before, read_text};

fn numeral(n: u64) -> Vec<u8> {
    let mut out = Vec::new();
    push_nat(&mut out, n);
    out
}

fn signed(i: i64) -> Vec<u8> {
    let mut out = Vec::new();
    push_signed(&mut out, i);
    out
}

fn plain(i: i64) -> Vec<u8> {
    let mut out = Vec::new();
    push_compact(&mut out, i);
    out
}

fn text_of(double: &RespDouble) -> Vec<u8> {
    let mut out = Vec::new();
    double.push_text(&mut out);
    out
}

#[test]
fn test_push_nat() {
    assert_eq!(numeral(0), b"0");
    assert_eq!(numeral(7), b"7");
    assert_eq!(numeral(10), b"10");
    assert_eq!(numeral(1234567890), b"1234567890");
    assert_eq!(numeral(u64::MAX), b"18446744073709551615");
    let mut out = b"ab".to_vec();
    push_nat(&mut out, 42);
    assert_eq!(out, b"ab42");
}

#[test]
fn test_push_signed_and_plain() {
    assert_eq!(signed(0), b"+0");
    assert_eq!(signed(15), b"+15");
    assert_eq!(signed(-15), b"-15");
    assert_eq!(signed(i64::MIN), b"-9223372036854775808");
    assert_eq!(signed(i64::MAX), b"+9223372036854775807");
    assert_eq!(plain(0), b"0");
    assert_eq!(plain(15), b"15");
    assert_eq!(plain(-15), b"-15");
    assert_eq!(plain(i64::MIN), b"-9223372036854775808");
}

#[test]
fn test_parse_u64() {
    assert_eq!(parse_u64(b"0"), Some(0));
    assert_eq!(parse_u64(b"007"), Some(7));
    assert_eq!(parse_u64(b"18446744073709551615"), Some(u64::MAX));
    assert_eq!(parse_u64(b"18446744073709551616"), None);
    assert_eq!(parse_u64(b"99999999999999999999999999"), None);
    assert_eq!(parse_u64(b""), None);
    assert_eq!(parse_u64(b"+1"), None);
    assert_eq!(parse_u64(b"-1"), None);
    assert_eq!(parse_u64(b"1 "), None);
    assert_eq!(parse_u64(b"12x4"), None);
    assert_eq!(parse_u64(b"18446744073709551616x"), None);
}

#[test]
fn test_parse_usize() {
    assert_eq!(parse_usize(b"0"), Some(0));
    assert_eq!(parse_usize(b"4096"), Some(4096));
    assert_eq!(
        parse_usize(usize::MAX.to_string().as_bytes()),
        Some(usize::MAX)
    );
    assert_eq!(parse_usize(b"99999999999999999999999999"), None);
    assert_eq!(parse_usize(b"-1"), None);
}

#[test]
fn test_parse_i64() {
    assert_eq!(parse_i64(b"0"), Some(0));
    assert_eq!(parse_i64(b"+0"), Some(0));
    assert_eq!(parse_i64(b"-0"), Some(0));
    assert_eq!(parse_i64(b"12"), Some(12));
    assert_eq!(parse_i64(b"+12"), Some(12));
    assert_eq!(parse_i64(b"-12"), Some(-12));
    assert_eq!(parse_i64(b"9223372036854775807"), Some(i64::MAX));
    assert_eq!(parse_i64(b"9223372036854775808"), None);
    assert_eq!(parse_i64(b"-9223372036854775808"), Some(i64::MIN));
    assert_eq!(parse_i64(b"-9223372036854775809"), None);
    assert_eq!(parse_i64(b""), None);
    assert_eq!(parse_i64(b"+"), None);
    assert_eq!(parse_i64(b"-"), None);
    assert_eq!(parse_i64(b"--1"), None);
    assert_eq!(parse_i64(b"+-1"), None);
    assert_eq!(parse_i64(b"1.0"), None);
}

#[test]
fn test_numerals_are_read_back() {
    for n in [0u64, 1, 9, 10, 99, 100, 12345, u64::MAX] {
        assert_eq!(parse_u64(&numeral(n)), Some(n));
    }
    for i in [0i64, 1, -1, 42, -42, i64::MAX, i64::MIN] {
        assert_eq!(parse_i64(&signed(i)), Some(i));
        assert_eq!(parse_i64(&plain(i)), Some(i));
    }
}

#[test]
fn test_push_range_and_bytes() {
    let mut out = b"x".to_vec();
    push_range(&mut out, b"hello", 1, 4);
    assert_eq!(out, b"xell");
    push_range(&mut out, b"hello", 2, 2);
    assert_eq!(out, b"xell");
    push_bytes(&mut out, b"!!");
    assert_eq!(out, b"xell!!");
}

#[test]
fn test_double_parse_gives_canonical_form() {
    let d = RespDouble::parse(b"123.456").unwrap();
    assert!(!d.is_negative());
    assert_eq!(d.digits(), b"123456");
    assert_eq!(d.exponent(), 2);

    let d = RespDouble::parse(b"-0.00120").unwrap();
    assert!(d.is_negative());
    assert_eq!(d.digits(), b"12");
    assert_eq!(d.exponent(), -3);

    let d = RespDouble::parse(b"+1200e-2").unwrap();
    assert!(!d.is_negative());
    assert_eq!(d.digits(), b"12");
    assert_eq!(d.exponent(), 1);

    let d = RespDouble::parse(b"000.000").unwrap();
    assert_eq!(d.digits(), b"0");
    assert_eq!(d.exponent(), 0);

    let d = RespDouble::parse(b"-0e55").unwrap();
    assert!(d.is_negative());
    assert_eq!(d.digits(), b"0");
    assert_eq!(d.exponent(), 0);

    let d = RespDouble::parse(b"5.").unwrap();
    assert_eq!(d.digits(), b"5");
    assert_eq!(d.exponent(), 0);

    let d = RespDouble::parse(b"1e9223372036854775807").unwrap();
    assert_eq!(d.exponent(), i64::MAX);
    assert!(RespDouble::parse(b"10e9223372036854775807").is_none());
    let d = RespDouble::parse(b"0.1e-9223372036854775807").unwrap();
    assert_eq!(d.exponent(), i64::MIN);
    assert!(RespDouble::parse(b"0.01e-9223372036854775807").is_none());
}

#[test]
fn test_double_parse_rejects() {
    for text in [
        &b""[..],
        b"+",
        b"-",
        b".",
        b"e5",
        b"1e",
        b"1e+",
        b"1e5x",
        b"1x",
        b"1..2",
        b"1.2.3",
        b"--1",
        b" 1",
        b"1 ",
        b"inf",
        b"nan",
        b"0x10",
        b"1e1.5",
    ] {
        assert_eq!(RespDouble::parse(text), None);
    }
}

#[test]
fn test_double_new() {
    let d = RespDouble::new(true, b"125".to_vec(), 1).unwrap();
    assert_eq!(Some(d), RespDouble::parse(b"-12.5"));
    assert!(RespDouble::new(false, b"0".to_vec(), 0).is_some());
    assert!(RespDouble::new(false, b"0".to_vec(), 1).is_none());
    assert!(RespDouble::new(false, Vec::new(), 0).is_none());
    assert!(RespDouble::new(false, b"012".to_vec(), 0).is_none());
    assert!(RespDouble::new(false, b"120".to_vec(), 0).is_none());
    assert!(RespDouble::new(false, b"1a2".to_vec(), 0).is_none());
    assert!(RespDouble::new(false, b"00".to_vec(), 0).is_none());
}

#[test]
fn test_double_text() {
    let cases: [(&[u8], &[u8]); 12] = [
        (b"123.456", b"+123.456"),
        (b"-123.456", b"-123.456"),
        (b"123456000", b"+1.23456e8"),
        (b"-0.00000000123456", b"-1.23456e-9"),
        (b"0", b"+0e0"),
        (b"1", b"+1"),
        (b"10", b"+10"),
        (b"99999999", b"+99999999"),
        (b"100000000", b"+1e8"),
        (b"0.00000001", b"+0.00000001"),
        (b"0.000000009", b"+9e-9"),
        (b"1e-300", b"+1e-300"),
    ];
    for (input, expected) in cases {
        let d = RespDouble::parse(input).unwrap();
        assert_eq!(text_of(&d), expected);
        assert_eq!(RespDouble::parse(&text_of(&d)), Some(d));
    }
}

#[test]
fn test_double_clone() {
    let d = RespDouble::parse(b"-9.75e20").unwrap();
    assert_eq!(d.clone(), d);
}

#[test]
fn test_read_text() {
    assert_eq!(read_text(b"hello"), "hello");
    assert_eq!(read_text("h\u{e9}".as_bytes()), "h\u{e9}");
    assert_eq!(read_text(b""), "");
    assert_eq!(read_text(b"a\xffb"), "a\u{fffd}b");
    assert_ne!(read_text(b"\xc3\xa9").as_bytes(), b"\xc3\xa9\x00");
    assert_eq!(read_text(b"\xc3\xa9").chars().count(), 1);
}

#[test]
fn test_is_plain_line() {
    assert!(is_plain_line(b""));
    assert!(is_plain_line(b"hello world"));
    assert!(!is_plain_line(b"a\rb"));
    assert!(!is_plain_line(b"a\nb"));
    assert!(!is_plain_line(b"\r\n"));
    assert!(!is_plain_line(b"end\n"));
}

#[test]
fn test_key_order() {
    assert!(bytes_before(b"a", b"b"));
    assert!(!bytes_before(b"b", b"a"));
    assert!(!bytes_before(b"a", b"a"));
    assert!(bytes_before(b"", b"a"));
    assert!(!bytes_before(b"", b""));
    assert!(bytes_before(b"a", b"ab"));
    assert!(!bytes_before(b"ab", b"a"));
    assert!(bytes_before(b"ab", b"b"));
    assert!(bytes_before(b"Z", b"a"));
    assert!(key_before("foo", "hello"));
    assert!(!key_before("hello", "foo"));
    assert!(key_before("z", "\u{e9}"));
    for (a, b) in [("a", "b"), ("", "x"), ("ab", "abc"), ("\u{e9}", "\u{4e16}")] {
        assert_eq!(key_before(a, b), a < b);
        assert_eq!(key_before(b, a), b < a);
    }
}

#[test]
fn test_is_lower_equal() {
    assert!(is_lower_equal(b"get", b"get"));
    assert!(is_lower_equal(b"GET", b"get"));
    assert!(is_lower_equal(b"GeT", b"get"));
    assert!(!is_lower_equal(b"get", b"GET"));
    assert!(!is_lower_equal(b"gets", b"get"));
    assert!(!is_lower_equal(b"ge", b"get"));
    assert!(!is_lower_equal(b"set", b"get"));
    assert!(is_lower_equal(b"", b""));
    assert!(is_lower_equal(b"H-1[", b"h-1["));
    assert!(!is_lower_equal(b"@", b"`"));
}
