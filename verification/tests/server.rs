use bytes::BytesMut;
use http1::body::{Body, BodyRead};
use http1::chunked::{hex_value, ChunkState, ChunkStep, ChunkedDecoder, TrailerState};
use http1::error::{Cause, Error, ErrorKind, IoFailure};
use http1::http::{ContentLength, Method, Request, RequestInfo, Response};
use http1::parser::ParseError;
use http1::pipeline::{Pipeline, StreamWriter, Turn, WriterAction, WriterEvent, WriterState};
use http1::server::{BodyProgress, BodyStep, HeaderStep, StreamReader, MAX_HEADER_SIZE};

fn reader_with(bytes: &[u8]) -> StreamReader {
    let mut reader = StreamReader::new();
    assert!(reader.buffer.is_empty());
    reader.buffer.extend_from_slice(bytes);
    reader
}

fn protocol(e: ParseError) -> Error {
    Error::new(ErrorKind::Protocol, Cause::Parse(e))
}

fn take_request(reader: &mut StreamReader) -> (Request, RequestInfo) {
    let mut info = RequestInfo::new();
    match reader.read_request_header(&mut info) {
        HeaderStep::Request(req) => (req, info),
        other => panic!("{:?}", other),
    }
}

/// Reads the body as the handler would: what the body yields by itself,
/// then what the reader feeds it.
fn drain(reader: &mut StreamReader, body: &mut Body, progress: &mut BodyProgress) -> Vec<Vec<u8>> {
    let mut pieces = Vec::new();
    loop {
        match body.data() {
            BodyRead::Data(d) => pieces.push(d.to_vec()),
            BodyRead::End => return pieces,
            BodyRead::Wait => match reader.read_request_body(progress) {
                BodyStep::Data(d) => pieces.push(d.to_vec()),
                BodyStep::End => return pieces,
                other => panic!("{:?}", other),
            },
        }
    }
}

#[test]
fn sized_body_reaches_the_handler() {
    let mut reader = reader_with(b"POST /p HTTP/1.1\r\nContent-Length: 11\r\n\r\nhello worldGET");
    let (req, info) = take_request(&mut reader);
    assert!(matches!(req.method, Method::POST));
    assert_eq!(info.content_length, ContentLength::Sized(11));
    let (mut body, mut progress) = reader.build_request_body(&info);
    assert!(matches!(progress, BodyProgress::Done));
    match body.data() {
        BodyRead::Data(d) => assert_eq!(&d[..], b"hello world"),
        other => panic!("{:?}", other),
    }
    assert!(matches!(body.data(), BodyRead::End));
    assert!(matches!(reader.read_request_body(&mut progress), BodyStep::End));
    assert_eq!(&reader.buffer[..], b"GET");
}

#[test]
fn sized_body_that_comes_in_pieces() {
    let mut reader = reader_with(b"POST /p HTTP/1.1\r\nContent-Length: 11\r\n\r\nhel");
    let (_, info) = take_request(&mut reader);
    let (mut body, mut progress) = reader.build_request_body(&info);
    assert!(matches!(progress, BodyProgress::Sized(11)));
    assert!(matches!(body.data(), BodyRead::Wait));
    match reader.read_request_body(&mut progress) {
        BodyStep::Data(d) => assert_eq!(&d[..], b"hel"),
        other => panic!("{:?}", other),
    }
    assert!(matches!(progress, BodyProgress::Sized(8)));
    assert!(matches!(reader.read_request_body(&mut progress), BodyStep::NeedMore));
    assert_eq!(
        progress.end_of_stream(),
        Err(Error::new(ErrorKind::Io, Cause::Io(IoFailure::ConnectionReset)))
    );
    reader.buffer.extend_from_slice(b"lo worldGET / HTTP/1.1\r\n\r\n");
    match reader.read_request_body(&mut progress) {
        BodyStep::Data(d) => assert_eq!(&d[..], b"lo world"),
        other => panic!("{:?}", other),
    }
    assert!(matches!(progress, BodyProgress::Sized(0)));
    assert!(matches!(reader.read_request_body(&mut progress), BodyStep::End));
    assert!(matches!(progress, BodyProgress::Done));
    assert_eq!(progress.end_of_stream(), Ok(()));
    let (req, info) = take_request(&mut reader);
    assert!(matches!(req.method, Method::GET));
    assert_eq!(info.content_length, ContentLength::NoBody);
    assert!(reader.buffer.is_empty());
}

#[test]
fn chunked_body_reaches_the_handler() {
    let mut reader = reader_with(
        b"POST / HTTP/1.1\r\nTransfer-Encoding: chunked\r\n\r\n3\r\nabc\r\n5\r\nhello\r\n0\r\n\r\nNEXT",
    );
    let (_, info) = take_request(&mut reader);
    assert_eq!(info.content_length, ContentLength::Chunked);
    let (mut body, mut progress) = reader.build_request_body(&info);
    let pieces = drain(&mut reader, &mut body, &mut progress);
    assert_eq!(pieces, vec![b"abc".to_vec(), b"hello".to_vec()]);
    assert_eq!(pieces.concat(), b"abchello");
    assert_eq!(progress.end_of_stream(), Ok(()));
    assert_eq!(&reader.buffer[..], b"NEXT");
}

fn decode_all(input: &[u8]) -> (Vec<Vec<u8>>, ChunkStep, ChunkState, Vec<u8>) {
    let mut buf = BytesMut::from(input);
    let mut decoder = ChunkedDecoder::new();
    let mut pieces = Vec::new();
    loop {
        match decoder.decode(&mut buf) {
            ChunkStep::Data(d) => pieces.push(d.to_vec()),
            last => return (pieces, last, decoder.state, buf.to_vec()),
        }
    }
}

#[test]
fn chunked_framing() {
    let (pieces, last, state, rest) = decode_all(b"3\r\nabc\r\n5\r\nhello\r\n0\r\n\r\n");
    assert_eq!(pieces, vec![b"abc".to_vec(), b"hello".to_vec()]);
    assert!(matches!(last, ChunkStep::End));
    assert_eq!(state, ChunkState::End);
    assert!(rest.is_empty());

    let (pieces, last, _, rest) =
        decode_all(b"A;name=value\r\n0123456789\r\n0;x\r\nTrailer: a b\r\nX:\r\n\r\nrest");
    assert_eq!(pieces, vec![b"0123456789".to_vec()]);
    assert!(matches!(last, ChunkStep::End));
    assert_eq!(rest, b"rest");

    let (pieces, last, state, rest) = decode_all(b"1f\r\nabc");
    assert_eq!(pieces, vec![b"abc".to_vec()]);
    assert!(matches!(last, ChunkStep::NeedMore));
    assert_eq!(state, ChunkState::Data { left: 28 });
    assert!(rest.is_empty());

    let (_, last, state, _) = decode_all(b"80000000\r");
    assert!(matches!(last, ChunkStep::NeedMore));
    assert_eq!(state, ChunkState::SizeLf { size: 0x8000_0000 });

    let (_, last, state, _) = decode_all(b"0\r\nA: b\r");
    assert!(matches!(last, ChunkStep::NeedMore));
    assert_eq!(state, ChunkState::Trailer(TrailerState::ValueLf));

    for (bad, left) in [
        (&b"\r\n"[..], &b"\r\n"[..]),
        (b"g\r\n", b"g\r\n"),
        (b";x\r\n", b";x\r\n"),
        (b"3 \r\nabc", b" \r\nabc"),
        (b"3\rabc", b"abc"),
        (b"3\r\nabcd\r\n", b"d\r\n"),
        (b"3\r\nabc\rx", b"x"),
        (b"80000001\r\n", b"1\r\n"),
        (b"ffffffffffffffffff\r\n", b"fffffffffff\r\n"),
        (b"0\r\n x: y\r\n\r\n", b" x: y\r\n\r\n"),
        (b"0\r\nx y: z\r\n\r\n", b" y: z\r\n\r\n"),
        (b"0\r\nx: a\nb\r\n\r\n", b"\nb\r\n\r\n"),
        (b"0\r\nx: a\rb\r\n\r\n", b"b\r\n\r\n"),
        (b"0\r\n\rx", b"x"),
    ] {
        let (_, last, _, rest) = decode_all(bad);
        match last {
            ChunkStep::Failed(e) => assert_eq!(e, ParseError::BadChunk),
            other => panic!("{:?}: {:?}", String::from_utf8_lossy(bad), other),
        }
        assert_eq!(rest, left, "{:?}", String::from_utf8_lossy(bad));
    }

    let mut reader = reader_with(b"zz\r\n");
    let mut progress = BodyProgress::Chunked(ChunkedDecoder::new());
    match reader.read_request_body(&mut progress) {
        BodyStep::Failed(e) => assert_eq!(e, protocol(ParseError::BadChunk)),
        other => panic!("{:?}", other),
    }
}

#[test]
fn chunked_body_fed_byte_by_byte() {
    let input = b"3;ext\r\nabc\r\n10\r\n0123456789abcdef\r\n0\r\nT: v\r\n\r\n";
    let mut buf = BytesMut::new();
    let mut decoder = ChunkedDecoder::new();
    let mut out = Vec::new();
    let mut ended = false;
    for b in input.iter() {
        buf.extend_from_slice(&[*b]);
        loop {
            match decoder.decode(&mut buf) {
                ChunkStep::Data(d) => out.extend_from_slice(&d),
                ChunkStep::NeedMore => break,
                ChunkStep::End => {
                    ended = true;
                    break;
                }
                ChunkStep::Failed(e) => panic!("{:?}", e),
            }
        }
        assert!(buf.is_empty());
    }
    assert!(ended);
    assert_eq!(out, b"abc0123456789abcdef");
    assert_eq!(hex_value(b'a'), Some(10));
    assert_eq!(hex_value(b'F'), Some(15));
    assert_eq!(hex_value(b'9'), Some(9));
    assert_eq!(hex_value(b'g'), None);
    assert_eq!(ChunkedDecoder::step(ChunkState::DataCr, b'\r'), Ok(ChunkState::DataLf));
    assert_eq!(
        ChunkedDecoder::step(ChunkState::Data { left: 1 }, b'x'),
        Err(ParseError::BadChunk)
    );
    assert_eq!(ChunkedDecoder::step(ChunkState::End, b'x'), Err(ParseError::BadChunk));
}

#[test]
fn body_until_the_stream_ends() {
    let mut reader = reader_with(b"POST / HTTP/1.0\r\nConnection: close\r\n\r\nabc");
    let (_, info) = take_request(&mut reader);
    assert_eq!(info.content_length, ContentLength::UntilClose);
    assert!(info.should_close);
    let (mut body, mut progress) = reader.build_request_body(&info);
    assert!(matches!(body.data(), BodyRead::Wait));
    match reader.read_request_body(&mut progress) {
        BodyStep::Data(d) => assert_eq!(&d[..], b"abc"),
        other => panic!("{:?}", other),
    }
    assert!(matches!(reader.read_request_body(&mut progress), BodyStep::NeedMore));
    assert_eq!(progress.end_of_stream(), Ok(()));
}

#[test]
fn bodies_for_each_framing() {
    let mut reader = reader_with(b"abc");
    let mut info = RequestInfo::new();
    let (mut body, progress) = reader.build_request_body(&info);
    assert!(matches!(body.data(), BodyRead::End));
    assert!(matches!(progress, BodyProgress::Done));

    info.content_length = ContentLength::Sized(0);
    let (mut body, progress) = reader.build_request_body(&info);
    assert!(matches!(body.data(), BodyRead::End));
    assert!(matches!(progress, BodyProgress::Done));

    info.content_length = ContentLength::Sized(4);
    let (mut body, progress) = reader.build_request_body(&info);
    assert!(matches!(body.data(), BodyRead::Wait));
    assert!(matches!(progress, BodyProgress::Sized(4)));
    assert_eq!(&reader.buffer[..], b"abc");

    info.content_length = ContentLength::Sized(3);
    let (mut body, progress) = reader.build_request_body(&info);
    match body.data() {
        BodyRead::Data(d) => assert_eq!(&d[..], b"abc"),
        other => panic!("{:?}", other),
    }
    assert!(matches!(progress, BodyProgress::Done));
    assert!(reader.buffer.is_empty());

    info.content_length = ContentLength::Chunked;
    let (mut body, progress) = reader.build_request_body(&info);
    assert!(matches!(body.data(), BodyRead::Wait));
    match progress {
        BodyProgress::Chunked(d) => {
            assert_eq!(d.state, ChunkState::Size { size: 0, digits: false })
        }
        other => panic!("{:?}", other),
    }
}

#[test]
fn heads_that_are_not_taken() {
    let mut info = RequestInfo::new();

    let mut reader = reader_with(b"GET / HTTP/1.1\r\nHost: x\r\n");
    assert!(matches!(reader.read_request_header(&mut info), HeaderStep::NeedMore));
    assert_eq!(reader.buffer.len(), 25);
    assert_eq!(
        reader.end_of_stream(),
        Err(Error::new(ErrorKind::Io, Cause::Io(IoFailure::ConnectionReset)))
    );

    let mut reader = reader_with(b"");
    assert!(matches!(reader.read_request_header(&mut info), HeaderStep::NeedMore));
    assert_eq!(reader.end_of_stream(), Ok(()));

    let mut long = b"GET / HTTP/1.1\r\nX: ".to_vec();
    long.resize(MAX_HEADER_SIZE, b'a');
    let mut reader = reader_with(&long);
    assert!(matches!(reader.read_request_header(&mut info), HeaderStep::NeedMore));
    reader.buffer.extend_from_slice(b"a");
    match reader.read_request_header(&mut info) {
        HeaderStep::Failed(e) => assert_eq!(e, protocol(ParseError::TooLarge)),
        other => panic!("{:?}", other),
    }
    reader.buffer.extend_from_slice(b"\r\n\r\n");
    assert!(matches!(reader.read_request_header(&mut info), HeaderStep::Request(_)));

    let mut reader = reader_with(b"GET / HTTP/1.1\r\nHost : x\r\n\r\n");
    match reader.read_request_header(&mut info) {
        HeaderStep::Failed(e) => assert_eq!(e, protocol(ParseError::BadHeaderName)),
        other => panic!("{:?}", other),
    }
    assert_eq!(reader.buffer.len(), 28);

    let mut reader = reader_with(
        b"GET / HTTP/1.1\r\nContent-Length: 5\r\nTransfer-Encoding: chunked\r\n\r\nrest",
    );
    match reader.read_request_header(&mut info) {
        HeaderStep::Failed(e) => assert_eq!(e, protocol(ParseError::BadRequest)),
        other => panic!("{:?}", other),
    }
    assert_eq!(&reader.buffer[..], b"rest");
    assert_eq!(info.content_length, ContentLength::NoBody);
}

#[test]
fn responses_follow_the_order_of_requests() {
    let mut reader = reader_with(b"GET /missing HTTP/1.1\r\n\r\nGET / HTTP/1.1\r\n\r\n");
    let mut pipeline = Pipeline::new();
    let mut writer = StreamWriter::new();
    let mut wire = Vec::new();
    let mut numbers = Vec::new();

    loop {
        assert_eq!(pipeline.turn(), Turn::Receive);
        let mut info = RequestInfo::new();
        let req = match reader.read_request_header(&mut info) {
            HeaderStep::Request(req) => req,
            HeaderStep::NeedMore => {
                assert_eq!(reader.end_of_stream(), Ok(()));
                assert_eq!(pipeline.next(false), None);
                break;
            }
            other => panic!("{:?}", other),
        };
        let taken = pipeline.next(true).unwrap();
        assert_eq!(pipeline.response(), Some(taken));
        assert_eq!(pipeline.turn(), Turn::Write);
        assert_eq!(pipeline.next(true), None);

        let mut resp = Response::new();
        resp.status_code = if req.uri.raw == b"/" { 200 } else { 404 };
        resp.header_map.append(b"Content-Length", b"0");

        assert_eq!(writer.run(WriterEvent::Response), WriterAction::Write);
        wire.extend_from_slice(&resp.header_buf());
        assert_eq!(writer.run(WriterEvent::Written { ok: true }), WriterAction::Acknowledge);
        let close = resp.must_close(info.keep_alive);
        assert!(!close);
        assert!(pipeline.written(true, close));
        numbers.push(taken);
    }

    assert_eq!(numbers, vec![0, 1]);
    assert_eq!(pipeline.turn(), Turn::Closed);
    assert_eq!(
        wire,
        &b"HTTP/1.1 404 Not Found\r\nContent-Length: 0\r\n\r\nHTTP/1.1 200 OK\r\nContent-Length: 0\r\n\r\n"[..]
    );
    assert_eq!(writer.run(WriterEvent::DriverGone), WriterAction::Stop);
    assert_eq!(writer.state, WriterState::Stopped);
}

#[test]
fn driver_turns() {
    let mut p = Pipeline::new();
    assert_eq!(p.response(), None);
    assert!(!p.written(true, false));
    assert_eq!(p.turn(), Turn::Receive);
    assert_eq!(p.next(true), Some(0));
    assert_eq!(p.turn(), Turn::Handle);
    assert_eq!(p.next(true), None);
    assert!(!p.written(true, false));
    assert_eq!(p.response(), Some(0));
    assert_eq!(p.response(), None);
    assert!(p.written(true, false));
    assert_eq!(p.next(true), Some(1));
    assert_eq!(p.response(), Some(1));
    assert!(!p.written(true, true));
    assert_eq!(p.turn(), Turn::Closed);
    assert_eq!(p.next(true), None);

    let mut p = Pipeline::new();
    assert_eq!(p.next(true), Some(0));
    assert_eq!(p.response(), Some(0));
    assert!(!p.written(false, false));
    assert_eq!(p.turn(), Turn::Closed);

    let mut p = Pipeline::new();
    assert_eq!(p.next(false), None);
    assert_eq!(p.turn(), Turn::Closed);
}

#[test]
fn writer_turns() {
    let mut w = StreamWriter::new();
    assert_eq!(w.state, WriterState::Waiting);
    assert_eq!(w.run(WriterEvent::Written { ok: true }), WriterAction::Ignore);
    assert_eq!(w.run(WriterEvent::Response), WriterAction::Write);
    assert_eq!(w.state, WriterState::Writing);
    assert_eq!(w.run(WriterEvent::Shutdown), WriterAction::Ignore);
    assert_eq!(w.run(WriterEvent::Response), WriterAction::Ignore);
    assert_eq!(w.run(WriterEvent::Written { ok: false }), WriterAction::AcknowledgeAndStop);
    assert_eq!(w.state, WriterState::Stopped);
    assert_eq!(w.run(WriterEvent::Response), WriterAction::Ignore);

    let mut w = StreamWriter::new();
    assert_eq!(w.run(WriterEvent::Shutdown), WriterAction::Stop);
    assert_eq!(w.state, WriterState::Stopped);
}
