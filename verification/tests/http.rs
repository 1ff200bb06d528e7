use bstr::{BStr, BString};
use http1::body::{Body, BodyRead};
use http1::error::{Cause, Error, ErrorKind, IoFailure};
use http1::framing::{Framing, FramingScan};
use http1::http::{
    header_values_contains_token, parse_content_length, title_case, ContentLength, Header,
    HeaderMap, Method, Request, RequestInfo, Response, Version,
};
use http1::parser::{parse_request, ParseError, RawRequest};

#[test]
fn test_title_case() {
    assert_eq!("Host", BString::from(title_case(BStr::new("host"))));
    assert_eq!("Host", BString::from(title_case(BStr::new("Host"))));
    assert_eq!("X-Forwarded-For", BString::from(title_case(BStr::new("x-forwarded-for"))));
    assert_eq!("X-Forwarded-For", BString::from(title_case(BStr::new("X-Forwarded-For"))));
    assert_eq!("Via", BString::from(title_case(BStr::new("via"))));
}

#[test]
fn title_case_touches_only_word_starts() {
    assert_eq!(title_case(b""), b"");
    assert_eq!(title_case(b"-"), b"-");
    assert_eq!(title_case(b"a"), b"A");
    assert_eq!(title_case(b"cONTENT-lENGTH"), b"CONTENT-LENGTH");
    assert_eq!(title_case(b"--a-b--c"), b"--A-B--C");
    assert_eq!(title_case(b"x_y z"), b"X_y z");
    assert_eq!(title_case(&[0xe9, b'-', 0xe9]), &[0xe9, b'-', 0xe9]);
    assert_eq!(title_case(b"{-z-`"), b"{-Z-`");
}

#[test]
fn title_case_twice_is_title_case_once() {
    for name in [
        &b"host"[..],
        b"x-forwarded-for",
        b"-a--b-",
        b"ALREADY-Title",
        b"",
        &[b'a', b'-', 0xff, b'-', b'z'],
    ] {
        let once = title_case(name);
        assert_eq!(title_case(&once), once);
    }
    for a in 0..=255u8 {
        for b in [b'-', b'a', b'Z'] {
            let once = title_case(&[b, a, b'-', a]);
            assert_eq!(title_case(&once), once);
        }
    }
}

fn values(map: &HeaderMap, name: &[u8]) -> Vec<(Vec<u8>, Vec<u8>)> {
    match map.get(name) {
        Some(hs) => hs.iter().map(|h| (h.name.clone(), h.value.clone())).collect(),
        None => Vec::new(),
    }
}

fn keys(map: &HeaderMap) -> Vec<Vec<u8>> {
    (0..map.len()).map(|i| map.entry(i).0.to_vec()).collect()
}

#[test]
fn header_map_operations() {
    let mut map = HeaderMap::new();
    assert_eq!(map.len(), 0);
    assert!(map.get(b"Host").is_none());

    map.append(b"host", b"a");
    map.append(b"Host", b"b");
    map.append(b"accept", b"*/*");
    assert_eq!(
        values(&map, b"Host"),
        vec![(b"host".to_vec(), b"a".to_vec()), (b"Host".to_vec(), b"b".to_vec())]
    );
    assert_eq!(map.len(), 2);
    assert!(map.get(b"HOST").is_none());

    map.set(b"Host", b"c");
    assert_eq!(values(&map, b"host"), vec![(b"Host".to_vec(), b"c".to_vec())]);
    map.set(b"via", b"1.1 x");
    assert_eq!(values(&map, b"Via"), vec![(b"via".to_vec(), b"1.1 x".to_vec())]);
    map.set(b"x-a", b"1");
    map.append(b"X-a", b"2");
    map.append(b"X-A", b"3");
    assert_eq!(values(&map, b"x-a").len(), 3);
    assert_eq!(
        keys(&map),
        vec![b"Accept".to_vec(), b"Host".to_vec(), b"Via".to_vec(), b"X-A".to_vec()]
    );

    map.remove(b"HOST");
    assert_eq!(values(&map, b"host").len(), 1);
    map.remove(b"host");
    assert!(map.get(b"Host").is_none());
    map.remove(b"host");
    assert_eq!(keys(&map), vec![b"Accept".to_vec(), b"Via".to_vec(), b"X-A".to_vec()]);
}

#[test]
fn keys_ascend_in_byte_order() {
    let mut map = HeaderMap::new();
    for name in [&b"b"[..], b"a-b", b"a", b"ab", b"B", b"a-", b"Zz", b"", b"a\xff"] {
        map.append(name, b"v");
    }
    let got = keys(&map);
    let mut sorted = got.clone();
    sorted.sort();
    sorted.dedup();
    assert_eq!(got, sorted);
    assert_eq!(got.len(), 8);
    assert_eq!(values(&map, b"b").len(), 2);
    let (key, hs) = map.entry(0);
    assert_eq!(key, b"");
    assert_eq!(hs.len(), 1);
}

#[test]
fn lookup_goes_by_title_case() {
    let mut map = HeaderMap::new();
    map.append(b"x-forwarded-for", b"1");
    map.append(b"X-FORWARDED-FOR", b"2");
    map.append(b"X-Forwarded-For", b"3");
    for s in [
        &b"x-forwarded-for"[..],
        b"X-forwarded-for",
        b"x-Forwarded-for",
        b"X-forwarded-FOR",
        b"X-FORWARDED-FOR",
        b"host",
        b"",
    ] {
        assert_eq!(values(&map, s), values(&map, &title_case(s)));
    }
    assert_eq!(values(&map, b"x-forwarded-for").len(), 2);
    assert_eq!(values(&map, b"x-forwarded-For"), values(&map, b"X-Forwarded-For"));
    assert_eq!(values(&map, b"x-FORWARDED-FOR").len(), 1);
    assert!(values(&map, b"X-forwarded-FOR").is_empty());
}

#[test]
fn header_keeps_what_it_is_given() {
    let h = Header::new(b"naMe", b" v ");
    assert_eq!(h.name, b"naMe");
    assert_eq!(h.value, b" v ");
}

#[test]
fn tokens_of_a_header_value() {
    assert!(header_values_contains_token(b"chunked", b"chunked"));
    assert!(header_values_contains_token(b"gzip, chunked", b"chunked"));
    assert!(header_values_contains_token(b"gzip,\tChUnKeD ,x", b"chunked"));
    assert!(header_values_contains_token(b" close", b"close"));
    assert!(!header_values_contains_token(b"gzip chunked", b"chunked"));
    assert!(!header_values_contains_token(b"chunked;q=1", b"chunked"));
    assert!(!header_values_contains_token(b"", b"chunked"));
    assert!(!header_values_contains_token(b"a,b", b"a,b"));
    assert!(header_values_contains_token(b"a,,b", b""));
    assert!(header_values_contains_token(b"", b""));
    assert!(header_values_contains_token(b"a, ", b""));
    assert!(!header_values_contains_token(b"a,b", b""));
    assert!(!header_values_contains_token(b"\x0bclose", b"close"));
}

#[test]
fn content_length_values() {
    assert_eq!(parse_content_length(b"0"), Some(0));
    assert_eq!(parse_content_length(b"11"), Some(11));
    assert_eq!(parse_content_length(b"007"), Some(7));
    assert_eq!(parse_content_length(b"18446744073709551615"), Some(u64::MAX));
    assert_eq!(parse_content_length(b"18446744073709551616"), None);
    assert_eq!(parse_content_length(b"99999999999999999999"), None);
    assert_eq!(parse_content_length(b""), None);
    assert_eq!(parse_content_length(b"+5"), None);
    assert_eq!(parse_content_length(b"5 "), None);
    assert_eq!(parse_content_length(b"0x10"), None);
}

fn build(buf: &[u8]) -> (Result<Request, Error>, RequestInfo) {
    let mut raw = RawRequest::new();
    assert_eq!(parse_request(buf, &mut raw), Ok(buf.len()));
    let mut info = RequestInfo::new();
    let ret = Request::from_raw_request(raw, &mut info);
    (ret, info)
}

fn bad_request() -> Error {
    Error::new(ErrorKind::Protocol, Cause::Parse(ParseError::BadRequest))
}

#[test]
fn request_from_a_parsed_head() {
    let (ret, info) = build(b"GET /a?b HTTP/1.0\r\nHost: x\r\nhost: y\r\nAccept: */*\r\n\r\n");
    let req = ret.unwrap();
    assert!(matches!(req.method, Method::GET));
    assert_eq!(req.uri.raw, b"/a?b");
    assert!(matches!(req.version, Version::V1_0));
    assert_eq!(keys(&req.header_map), vec![b"Accept".to_vec(), b"Host".to_vec()]);
    assert_eq!(
        values(&req.header_map, b"host"),
        vec![(b"Host".to_vec(), b"x".to_vec()), (b"host".to_vec(), b"y".to_vec())]
    );
    assert_eq!(info.content_length, ContentLength::NoBody);
    assert!(!info.should_close);
    let mut body = req.body;
    assert!(matches!(body.data(), BodyRead::End));
}

#[test]
fn methods_and_versions() {
    for (name, want) in [
        ("GET", "GET"),
        ("HEAD", "HEAD"),
        ("POST", "POST"),
        ("PUT", "PUT"),
        ("DELETE", "DELETE"),
        ("CONNECT", "CONNECT"),
        ("OPTIONS", "OPTIONS"),
        ("TRACE", "TRACE"),
    ] {
        assert_eq!(format!("{:?}", Method::from_bytes(name.as_bytes())), want);
    }
    match Method::from_bytes(b"get") {
        Method::Unknown(m) => assert_eq!(m, b"get"),
        other => panic!("{:?}", other),
    }
    match Method::from_bytes(b"PATCH") {
        Method::Unknown(m) => assert_eq!(m, b"PATCH"),
        other => panic!("{:?}", other),
    }
    assert!(matches!(Version::from_bytes(b"1.0"), Version::V1_0));
    assert!(matches!(Version::from_bytes(b"1.1"), Version::V1_1));
    match Version::from_bytes(b"2.0") {
        Version::Other(v) => assert_eq!(v, b"2.0"),
        other => panic!("{:?}", other),
    }
    let (ret, _) = build(b"GET / HTTP/2.0\r\n\r\n");
    match ret.unwrap().version {
        Version::Other(v) => assert_eq!(v, vec![b'2', b'.', b'0']),
        other => panic!("{:?}", other),
    }
}

#[test]
fn smuggling_is_a_bad_request() {
    let (ret, info) = build(
        b"POST / HTTP/1.1\r\nContent-Length: 5\r\nTransfer-Encoding: chunked\r\n\r\n",
    );
    assert_eq!(ret.unwrap_err(), bad_request());
    assert_eq!(info.content_length, ContentLength::NoBody);
}

#[test]
fn both_framing_headers_are_rejected_in_any_order() {
    for head in [
        &b"POST / HTTP/1.1\r\nTransfer-Encoding: chunked\r\nContent-Length: 5\r\n\r\n"[..],
        b"POST / HTTP/1.1\r\nContent-Length: 5\r\nTransfer-Encoding: chunked\r\n\r\n",
        b"POST / HTTP/1.1\r\nContent-Length: 5\r\nTransfer-Encoding: gzip\r\n\r\n",
        b"POST / HTTP/1.1\r\ntransfer-encoding: gzip\r\nA: b\r\nCONTENT-LENGTH: 5\r\n\r\n",
        b"POST / HTTP/1.1\r\nContent-Length: 5\r\nConnection: close\r\nTransfer-Encoding: x\r\n\r\n",
    ] {
        let (ret, _) = build(head);
        let err = ret.unwrap_err();
        assert_eq!(err.kind, ErrorKind::Protocol);
        assert_eq!(err, bad_request());
    }
}

#[test]
fn framing_of_requests() {
    let framing = |head: &[u8]| {
        let (ret, info) = build(head);
        ret.map(|_| (info.content_length, info.should_close))
    };
    assert_eq!(
        framing(b"POST / HTTP/1.1\r\nContent-Length: 11\r\n\r\n"),
        Ok((ContentLength::Sized(11), false))
    );
    assert_eq!(
        framing(b"POST / HTTP/1.1\r\nContent-Length: 1\r\ncontent-length: 22\r\n\r\n"),
        Ok((ContentLength::Sized(22), false))
    );
    assert_eq!(
        framing(b"POST / HTTP/1.1\r\nTransfer-Encoding: gzip, Chunked\r\n\r\n"),
        Ok((ContentLength::Chunked, false))
    );
    assert_eq!(
        framing(b"POST / HTTP/1.1\r\nTransfer-Encoding: gzip\r\n\r\n"),
        Ok((ContentLength::NoBody, false))
    );
    assert_eq!(
        framing(b"POST / HTTP/1.1\r\nTransfer-Encoding: gzip\r\nConnection: close\r\n\r\n"),
        Ok((ContentLength::UntilClose, true))
    );
    assert_eq!(
        framing(b"GET / HTTP/1.1\r\nConnection: keep-alive, Close\r\n\r\n"),
        Ok((ContentLength::UntilClose, true))
    );
    assert_eq!(
        framing(b"GET / HTTP/1.1\r\nConnection: close\r\nContent-Length: 0\r\n\r\n"),
        Ok((ContentLength::Sized(0), true))
    );
    assert_eq!(
        framing(b"GET / HTTP/1.1\r\nContent-Length: 3\r\nConnection: close\r\n\r\n"),
        Ok((ContentLength::Sized(3), true))
    );
    assert_eq!(
        framing(b"GET / HTTP/1.1\r\nConnection: keep-alive\r\n\r\n"),
        Ok((ContentLength::NoBody, false))
    );
    for bad in [
        &b"POST / HTTP/1.1\r\nContent-Length: \r\n\r\n"[..],
        b"POST / HTTP/1.1\r\nContent-Length: 1x\r\n\r\n",
        b"POST / HTTP/1.1\r\nContent-Length: -1\r\n\r\n",
        b"POST / HTTP/1.1\r\nContent-Length: 18446744073709551616\r\n\r\n",
        b"POST / HTTP/1.1\r\nContent-Length: 1\r\nContent-Length: 1, 1\r\n\r\n",
    ] {
        assert_eq!(framing(bad), Err(bad_request()));
    }
}

#[test]
fn response_head_on_the_wire() {
    let mut resp = Response::new();
    assert_eq!(&resp.header_buf()[..], b"HTTP/1.1 200 OK\r\n\r\n");

    resp.header_map.append(b"content-length", b"0");
    resp.header_map.append(b"Connection", b"keep-alive");
    resp.header_map.append(b"X-b", b"2");
    resp.header_map.append(b"x-B", b"1");
    assert_eq!(
        &resp.header_buf()[..],
        &b"HTTP/1.1 200 OK\r\nConnection: keep-alive\r\ncontent-length: 0\r\nX-b: 2\r\nx-B: 1\r\n\r\n"[..]
    );

    for (code, line) in [
        (400u16, &b"HTTP/1.1 400 Bad Request\r\n\r\n"[..]),
        (404, b"HTTP/1.1 404 Not Found\r\n\r\n"),
        (500, b"HTTP/1.1 500 Internal Server Error\r\n\r\n"),
        (204, b"HTTP/1.1 204 \r\n\r\n"),
        (0, b"HTTP/1.1 0 \r\n\r\n"),
        (7, b"HTTP/1.1 7 \r\n\r\n"),
        (10, b"HTTP/1.1 10 \r\n\r\n"),
        (65535, b"HTTP/1.1 65535 \r\n\r\n"),
    ] {
        let mut resp = Response::new();
        resp.status_code = code;
        assert_eq!(&resp.header_buf()[..], line);
    }

    let mut resp = Response::new();
    resp.status_code = 418;
    resp.reason = b"I'm a teapot".to_vec();
    assert_eq!(&resp.header_buf()[..], &b"HTTP/1.1 418 I'm a teapot\r\n\r\n"[..]);
    resp.status_code = 200;
    assert_eq!(&resp.header_buf()[..], b"HTTP/1.1 200 OK\r\n\r\n");
}

#[test]
fn framing_of_responses() {
    let framing = |headers: &[(&[u8], &[u8])]| {
        let mut resp = Response::new();
        for (n, v) in headers {
            resp.header_map.append(n, v);
        }
        resp.framing()
    };
    assert_eq!(framing(&[]), Ok(ContentLength::UntilClose));
    assert_eq!(framing(&[(b"content-length", b"12")]), Ok(ContentLength::Sized(12)));
    assert_eq!(
        framing(&[(b"content-length", b"1"), (b"Content-Length", b"2")]),
        Ok(ContentLength::Sized(2))
    );
    assert_eq!(framing(&[(b"Transfer-Encoding", b"chunked")]), Ok(ContentLength::Chunked));
    assert_eq!(framing(&[(b"Transfer-Encoding", b"gzip")]), Ok(ContentLength::UntilClose));
    assert_eq!(
        framing(&[(b"Transfer-Encoding", b"gzip"), (b"Content-Length", b"3")]),
        Ok(ContentLength::Sized(3))
    );
    assert_eq!(
        framing(&[(b"Transfer-Encoding", b"chunked"), (b"Content-Length", b"3")]),
        Err(ParseError::FramingConflict)
    );
    assert_eq!(
        framing(&[
            (b"CONTENT-LENGTH", b"3"),
            (b"transfer-encoding", b"x"),
            (b"TRANSFER-encoding", b"Chunked"),
        ]),
        Err(ParseError::FramingConflict)
    );
    assert_eq!(
        framing(&[(b"Content-Length", b"3"), (b"CONTENT-LENGTH", b"4")]),
        Ok(ContentLength::Sized(3))
    );
    assert_eq!(framing(&[(b"Content-Length", b"three")]), Err(ParseError::BadResponse));
}

#[test]
fn when_the_connection_ends() {
    let closes = |head: &[u8], response: &[(&[u8], &[u8])]| {
        let (ret, info) = build(head);
        ret.unwrap();
        let mut resp = Response::new();
        for (n, v) in response {
            resp.header_map.append(n, v);
        }
        (info.keep_alive, resp.must_close(info.keep_alive))
    };
    let sized: &[(&[u8], &[u8])] = &[(b"Content-Length", b"0")];
    assert_eq!(closes(b"GET / HTTP/1.1\r\n\r\n", sized), (true, false));
    assert_eq!(closes(b"GET / HTTP/2.0\r\n\r\n", sized), (true, false));
    assert_eq!(
        closes(b"GET / HTTP/1.1\r\n\r\n", &[(b"Transfer-Encoding", b"chunked")]),
        (true, false)
    );
    assert_eq!(closes(b"GET / HTTP/1.1\r\n\r\n", &[]), (true, true));
    assert_eq!(closes(b"GET / HTTP/1.1\r\n\r\n", &[(b"Content-Length", b"x")]), (true, true));
    assert_eq!(
        closes(b"GET / HTTP/1.1\r\nconnection: Close\r\nContent-Length: 0\r\n\r\n", sized),
        (false, true)
    );
    assert_eq!(
        closes(
            b"GET / HTTP/1.1\r\n\r\n",
            &[(b"Content-Length", b"0"), (b"CONNECTION", b"a"), (b"connection", b"b, CLOSE")]
        ),
        (true, true)
    );
    assert_eq!(closes(b"GET / HTTP/1.0\r\n\r\n", sized), (false, true));
    assert_eq!(
        closes(b"GET / HTTP/1.0\r\nConnection: Keep-Alive\r\n\r\n", sized),
        (true, false)
    );
    assert_eq!(
        closes(b"GET / HTTP/1.0\r\nConnection: keep-alive, close\r\nContent-Length: 0\r\n\r\n", sized),
        (false, true)
    );
    assert_eq!(
        closes(
            b"GET / HTTP/1.0\r\nConnection: keep-alive\r\n\r\n",
            &[(b"Content-Length", b"0"), (b"Transfer-Encoding", b"chunked")]
        ),
        (true, true)
    );
    let info = RequestInfo::new();
    assert!(info.keep_alive && !info.should_close);
}

#[test]
fn what_headers_say() {
    let mut scan = FramingScan::new();
    assert!(!scan.transfer_encoding && !scan.content_length && !scan.close);
    assert_eq!(
        scan.request_framing(),
        Ok(Framing { content_length: ContentLength::NoBody, should_close: false })
    );
    assert_eq!(scan.response_framing(), Ok(ContentLength::UntilClose));
    scan.take(b"connection", b"Keep-Alive");
    assert!(scan.keep_alive && !scan.close);
    scan.take(b"CONNECTION", b"x, close");
    assert!(scan.keep_alive && scan.close);
    assert_eq!(
        scan.request_framing(),
        Ok(Framing { content_length: ContentLength::UntilClose, should_close: true })
    );
    scan.take(b"Content-length", b"42");
    assert_eq!(scan.length, 42);
    assert_eq!(
        scan.request_framing(),
        Ok(Framing { content_length: ContentLength::Sized(42), should_close: true })
    );
    scan.take(b"Content-Lengthy", b"x");
    assert!(!scan.bad_content_length);
    scan.take(b"Content-Length", b"x");
    assert!(scan.bad_content_length);
    assert_eq!(scan.length, 0);
    assert_eq!(scan.request_framing(), Err(ParseError::BadRequest));
    assert_eq!(scan.response_framing(), Err(ParseError::BadResponse));

    let mut map = HeaderMap::new();
    map.append(b"transfer-ENCODING", b"gzip");
    map.append(b"Transfer-Encoding", b"chunked");
    let scan = map.scan();
    assert!(scan.transfer_encoding && scan.chunked && !scan.content_length);
    assert_eq!(
        scan.request_framing(),
        Ok(Framing { content_length: ContentLength::Chunked, should_close: false })
    );
}

#[test]
fn bodies() {
    let mut body = Body::empty();
    assert!(matches!(body.data(), BodyRead::End));
    assert!(matches!(body.data(), BodyRead::End));

    let mut body = Body::with_bytes(bytes::Bytes::from_static(b"hello world"));
    match body.data() {
        BodyRead::Data(d) => assert_eq!(&d[..], b"hello world"),
        other => panic!("{:?}", other),
    }
    assert!(matches!(body.data(), BodyRead::End));

    let mut body = Body::channel();
    assert!(matches!(body.data(), BodyRead::Wait));
    assert!(matches!(body.data(), BodyRead::Wait));

    let piece = bytes::Bytes::from_static(b"abc");
    assert_eq!(Body::received(Some(Ok(piece.clone()))), Ok(Some(piece)));
    assert_eq!(Body::received(None), Ok(None));
    let err = Error::from(IoFailure::ConnectionReset);
    assert_eq!(Body::received(Some(Err(err))), Err(err));
}

#[test]
fn errors() {
    assert_eq!(
        Error::from(ParseError::TooLarge),
        Error::new(ErrorKind::Protocol, Cause::Parse(ParseError::TooLarge))
    );
    assert_eq!(
        Error::from(IoFailure::BrokenPipe),
        Error::new(ErrorKind::Io, Cause::Io(IoFailure::BrokenPipe))
    );
    let e = Error::new(ErrorKind::Io, Cause::Io(IoFailure::Other));
    assert_eq!(e.kind, ErrorKind::Io);
    assert_eq!(e.cause, Cause::Io(IoFailure::Other));
    assert_ne!(e, Error::from(IoFailure::ConnectionReset));
}
