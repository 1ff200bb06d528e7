use http1::ascii::{ascii_lower, ascii_upper, eq_ignore_ascii_case, is_digit, is_whitespace};
use http1::combinators::{
    ensure_n, find_and_skip_2bytes, find_and_skip_byte, tag, tagb, take_till, take_until,
    validate_until,
};
use http1::parser::{parse_http_version, trim_ows, ParseError};

#[test]
fn tags() {
    assert_eq!(tag(b"HTTP/1.1", b"HTTP/"), Ok((&b"1.1"[..], &b"HTTP/"[..])));
    assert_eq!(tag(b"HTTP/", b"HTTP/"), Ok((&b""[..], &b"HTTP/"[..])));
    assert_eq!(tag(b"abc", b""), Ok((&b"abc"[..], &b""[..])));
    assert_eq!(tag(b"HTT", b"HTTP/"), Err(ParseError::Incomplete));
    assert_eq!(tag(b"XTT", b"HTTP/"), Err(ParseError::Incomplete));
    assert_eq!(tag(b"HTTPS/1", b"HTTP/"), Err(ParseError::BadRequest));

    assert_eq!(tagb(b" x", b' '), Ok((&b"x"[..], b' ')));
    assert_eq!(tagb(b"", b' '), Err(ParseError::Incomplete));
    assert_eq!(tagb(b"x ", b' '), Err(ParseError::BadRequest));
}

#[test]
fn counted_and_scanned_runs() {
    assert_eq!(ensure_n(b"200 OK", 3, is_digit), Ok((&b" OK"[..], &b"200"[..])));
    assert_eq!(ensure_n(b"20", 3, is_digit), Err(ParseError::Incomplete));
    assert_eq!(ensure_n(b"2x0 OK", 3, is_digit), Err(ParseError::BadRequest));
    assert_eq!(ensure_n(b"x", 0, is_digit), Ok((&b"x"[..], &b""[..])));

    let name = |b: u8| b.is_ascii_alphabetic();
    assert_eq!(validate_until(b"Host: x", b':', name), Ok((&b" x"[..], &b"Host"[..])));
    assert_eq!(validate_until(b":x", b':', name), Ok((&b"x"[..], &b""[..])));
    assert_eq!(validate_until(b"Host", b':', name), Err(ParseError::Incomplete));
    assert_eq!(validate_until(b"Ho st: x", b':', name), Err(ParseError::BadHeaderName));

    assert_eq!(take_until(b"GET /", is_whitespace), Ok((&b" /"[..], &b"GET"[..])));
    assert_eq!(take_until(b" /", is_whitespace), Ok((&b" /"[..], &b""[..])));
    assert_eq!(take_until(b"GET", is_whitespace), Err(ParseError::Incomplete));

    assert_eq!(take_till(b"123ab", is_digit), Ok((&b"ab"[..], &b"123"[..])));
    assert_eq!(take_till(b"ab", is_digit), Ok((&b"ab"[..], &b""[..])));
    assert_eq!(take_till(b"123", is_digit), Ok((&b"3"[..], &b"12"[..])));
    assert_eq!(take_till(b"", is_digit), Ok((&b""[..], &b""[..])));
}

#[test]
fn searches() {
    assert_eq!(find_and_skip_byte(b"a b c", b' '), Ok((&b"b c"[..], &b"a"[..])));
    assert_eq!(find_and_skip_byte(b" b", b' '), Ok((&b"b"[..], &b""[..])));
    assert_eq!(find_and_skip_byte(b"ab", b' '), Err(ParseError::Incomplete));
    assert_eq!(find_and_skip_byte(b"ab ", b' '), Err(ParseError::Incomplete));
    assert_eq!(find_and_skip_byte(b"", b' '), Err(ParseError::Incomplete));

    assert_eq!(
        find_and_skip_2bytes(b"a\rb\r\nc\r\n", [b'\r', b'\n']),
        Ok((&b"c\r\n"[..], &b"a\rb"[..]))
    );
    assert_eq!(find_and_skip_2bytes(b"\r\n", [b'\r', b'\n']), Ok((&b""[..], &b""[..])));
    assert_eq!(find_and_skip_2bytes(b"ab\r", [b'\r', b'\n']), Err(ParseError::Incomplete));
    assert_eq!(find_and_skip_2bytes(b"a\rb\n", [b'\r', b'\n']), Err(ParseError::Incomplete));
    assert_eq!(find_and_skip_2bytes(b"aab", [b'a', b'b']), Ok((&b""[..], &b"a"[..])));
}

#[test]
fn byte_classes() {
    assert!(is_whitespace(b' ') && is_whitespace(b'\t'));
    assert!(!is_whitespace(b'\r') && !is_whitespace(b'\n') && !is_whitespace(0x0b));
    assert!(is_digit(b'0') && is_digit(b'9') && !is_digit(b'/') && !is_digit(b':'));
    for b in 0..=255u8 {
        assert_eq!(ascii_upper(b), b.to_ascii_uppercase());
        assert_eq!(ascii_lower(b), b.to_ascii_lowercase());
    }
    assert!(eq_ignore_ascii_case(b"Content-Length", b"content-length"));
    assert!(eq_ignore_ascii_case(b"", b""));
    assert!(!eq_ignore_ascii_case(b"Content-Length", b"content_length"));
    assert!(!eq_ignore_ascii_case(b"ab", b"abc"));
    assert!(!eq_ignore_ascii_case(b"@", b"`"));
}

#[test]
fn versions_and_trimming() {
    assert_eq!(parse_http_version(b"HTTP/1.1"), Ok(&b"1.1"[..]));
    assert_eq!(parse_http_version(b"HTTP/1.0"), Ok(&b"1.0"[..]));
    assert_eq!(parse_http_version(b"HTTP/9.9"), Ok(&b"9.9"[..]));
    for bad in [&b"HTTP/1."[..], b"HTTP/1.1 ", b"HTTP/1,1", b"HTTP/x.1", b"HTTP/1.x", b"HTTQ/1.1", b""] {
        assert_eq!(parse_http_version(bad), Err(ParseError::BadRequest));
    }
    let buf = b"x \t a b \t ";
    assert_eq!(trim_ows(buf, 1, buf.len()), (4, 7));
    assert_eq!(trim_ows(buf, 1, 3), (3, 3));
    assert_eq!(trim_ows(buf, 0, 1), (0, 1));
    assert_eq!(trim_ows(buf, 5, 5), (5, 5));
    assert_eq!(trim_ows(buf, 4, 7), (4, 7));
}
