use http1::ascii::bytes_eq;
use http1::stateparser::gen_nfa::{State, NFA};
use http1::stateparser::{
    req_nfa_states, ByteClass, CaptureAction, HeaderType, ParseError, ParseStatus,
    Parser, RawRequest, StateResult, StaticNFA, StaticState,
};

const HEADER_NAME_BYTES: &[u8] =
    b"0123456789abcdefghijklmnopqrstuvwxyzABCDEFGHIJKLMNOPQRSTUVWXYZ-";
const WHITE_SPACE_BYTES: &[u8] = &[b' ', b'\t', 0x0B, 0x0C];
const CR_BYTES: &[u8] = &[b'\r'];
const LF_BYTES: &[u8] = &[b'\n'];
const COLON_BYTES: &[u8] = &[b':'];

const KITTY: &[u8] = b"\
GET /wp-content/uploads/2010/03/hello-kitty-darth-vader-pink.jpg HTTP/1.1\r\n\
Host: www.kittyhell.com\r\n\
User-Agent: Mozilla/5.0 (Macintosh; U; Intel Mac OS X 10.6; ja-JP-mac; rv:1.9.2.3) Gecko/20100401 Firefox/3.6.3 Pathtraq/0.9\r\n\
Accept: text/html,application/xhtml+xml,application/xml;q=0.9,*/*;q=0.8\r\n\
Accept-Language: ja,en-us;q=0.7,en;q=0.3\r\n\
Accept-Encoding: gzip,deflate\r\n\
Accept-Charset: Shift_JIS,utf-8;q=0.7,*;q=0.7\r\n\
Keep-Alive: 115\r\n\
Connection: keep-alive\r\n\
Cookie: wp_ozh_wsa_visits=2; wp_ozh_wsa_visit_lasttime=xxxxxxxxxx; __utma=xxxxxxxxx.xxxxxxxxxx.xxxxxxxxxx.xxxxxxxxxx.xxxxxxxxxx.x; __utmz=xxxxxxxxx.xxxxxxxxxx.x.x.utmccn=(referral)|utmcsr=reader.livedoor.com|utmcct=/reader/|utmcmd=referral|padding=under256\r\n\r\n";

#[test]
fn test_parser() {
    let buf = KITTY;

    let mut parser = Parser::new();
    let mut req = RawRequest::new();

    let ret = parser.parse(buf, &mut req);

    println!("=> {:?} {:?}", ret, req);

    assert_eq!(ret, Ok(ParseStatus::Completed(buf.len())));
    assert_eq!(req.method, b"GET");
    assert_eq!(
        req.uri,
        &b"/wp-content/uploads/2010/03/hello-kitty-darth-vader-pink.jpg"[..]
    );
    assert_eq!(req.version, b"1.1");
    assert_eq!(req.headers().len(), 9);
    assert_eq!(&req.headers()[0].name[..], b"Host");
    assert_eq!(&req.headers()[0].value[..], b"www.kittyhell.com");
    assert_eq!(&req.headers()[8].name[..], b"Cookie");
    assert!(req.headers()[8].value.ends_with(b"padding=under256"));
}

fn build_request_nfa() -> NFA {
    let mut nfa = NFA::new();

    let method = nfa.put(0, ByteClass::Invalid(WHITE_SPACE_BYTES));
    nfa.start_capture(method, CaptureAction::StartMethod);
    nfa.put_state(method, method);
    nfa.end_capture(method, CaptureAction::EndMethod);

    // eat sp
    let sp = nfa.put(method, ByteClass::Valid(WHITE_SPACE_BYTES));
    nfa.put_state(sp, sp);

    let uri = nfa.put(sp, ByteClass::Invalid(WHITE_SPACE_BYTES));
    nfa.start_capture(uri, CaptureAction::StartRequestTaget);
    nfa.put_state(uri, uri);
    nfa.end_capture(uri, CaptureAction::EndRequestTaget);

    let sp = nfa.put(uri, ByteClass::Valid(WHITE_SPACE_BYTES));
    nfa.put_state(sp, sp);

    // HTTP/
    let h = nfa.put(sp, ByteClass::Valid(&[b'H']));
    let h = nfa.put(h, ByteClass::Valid(&[b'T']));
    let h = nfa.put(h, ByteClass::Valid(&[b'T']));
    let h = nfa.put(h, ByteClass::Valid(&[b'P']));
    let h = nfa.put(h, ByteClass::Valid(&[b'/']));

    let version = nfa.put(h, ByteClass::Invalid(CR_BYTES));
    nfa.start_capture(version, CaptureAction::StartHttpVersion);
    nfa.put_state(version, version);
    nfa.end_capture(version, CaptureAction::EndHttpVersion);

    let cr = nfa.put(version, ByteClass::Valid(CR_BYTES));
    let lf = nfa.put(cr, ByteClass::Valid(LF_BYTES));

    let header_name = nfa.put(lf, ByteClass::Valid(HEADER_NAME_BYTES));
    nfa.start_capture(header_name, CaptureAction::StartHeaderName);
    nfa.put_state(header_name, header_name);
    nfa.end_capture(header_name, CaptureAction::EndHeaderName);

    let err = nfa.put(header_name, ByteClass::Valid(WHITE_SPACE_BYTES));
    nfa.state_result(err, StateResult::Fail(ParseError::BadRequest));

    let colon = nfa.put(header_name, ByteClass::Valid(COLON_BYTES));

    let sp = nfa.put(colon, ByteClass::Valid(WHITE_SPACE_BYTES));
    nfa.put_state(sp, sp);

    let header_value = nfa.put(colon, ByteClass::Invalid(CR_BYTES));
    nfa.put_state(sp, header_value);

    nfa.start_capture(header_value, CaptureAction::StartHeaderValue);
    nfa.put_state(header_value, header_value);
    nfa.end_capture(header_value, CaptureAction::EndHeaderValue);

    let sp = nfa.put(header_value, ByteClass::Valid(WHITE_SPACE_BYTES));
    nfa.put_state(sp, sp);

    let cr = nfa.put(sp, ByteClass::Valid(CR_BYTES));

    nfa.put_state(header_value, cr);

    let lf = nfa.put(cr, ByteClass::Valid(LF_BYTES));

    nfa.put_state(lf, header_name);

    let cr = nfa.put(lf, ByteClass::Valid(CR_BYTES));
    let lf = nfa.put(cr, ByteClass::Valid(LF_BYTES));
    nfa.state_result(lf, StateResult::Done);

    nfa
}

#[test]
fn test_nfa() {
    let mut nfa = build_request_nfa();

    let buf = b"POST \t/index.html HTTP/1.1\r\nHost: www.baidu.com\r\nContent-Length: 0\r\nConnection: Close\r\n\r\n";

    let mut events = Vec::new();
    let ret = nfa.process(&buf[..], 0, &mut events);
    for (capture, pos) in &events {
        println!("--- {capture:?} - {pos}");
    }

    println!("ret:====> {:?}", ret);

    match ret {
        Ok(ParseStatus::Completed(off)) => {
            println!(
                "Completed =======> {}",
                String::from_utf8_lossy(&buf[off..])
            );
        }
        err => {
            println!("=======> {:?}", err);
        }
    }

    for s in &nfa.states {
        println!("StaticState{{ index: {}, bytes: ByteClass::{:?}, next_states: &{:?}, start_capture: CaptureAction::{:?}, end_capture: CaptureAction::{:?}, result: StateResult::{:?} }},", s.index, s.bytes, s.next_states, s.start_capture, s.end_capture, s.result);
    }

    assert_eq!(ret, Ok(ParseStatus::Completed(buf.len())));
    assert_eq!(nfa.states.len(), 23);
    assert_eq!(
        &events[..4],
        &[
            (CaptureAction::StartMethod, 0),
            (CaptureAction::EndMethod, 4),
            (CaptureAction::StartRequestTaget, 6),
            (CaptureAction::EndRequestTaget, 17),
        ]
    );
    assert_eq!(events.len(), 6 + 3 * 4);
}

#[test]
fn built_automaton_has_the_transitions_of_the_fixed_one() {
    let built = build_request_nfa();
    let fixed = req_nfa_states();
    assert_eq!(built.states.len(), fixed.len());
    for (b, f) in built.states.iter().zip(fixed.iter()) {
        assert_eq!(b.index, f.index);
        assert_eq!(&b.next_states[..], f.next_states, "state {}", b.index);
        assert_eq!(b.start_capture, f.start_capture);
        assert_eq!(b.end_capture, f.end_capture);
        assert_eq!(b.result, f.result);
        for byte in 0..=255u8 {
            assert_eq!(b.matches(&byte), f.matches(&byte), "state {} byte {}", b.index, byte);
        }
    }
}

#[test]
fn table_parser_reads_a_short_get() {
    let buf = b"GET / HTTP/1.0\r\nHost: example.com\r\nCookie: session=60; user_id=1\r\n\r\n";
    let mut parser = Parser::new();
    let mut req = RawRequest::new();
    assert_eq!(parser.parse(buf, &mut req), Ok(ParseStatus::Completed(buf.len())));
    assert_eq!(req.method, b"GET");
    assert_eq!(req.uri, b"/");
    assert_eq!(req.version, b"1.0");
    assert_eq!(req.headers().len(), 2);
    assert_eq!(&req.headers()[0].name[..], b"Host");
    assert_eq!(&req.headers()[0].value[..], b"example.com");
    assert_eq!(&req.headers()[1].name[..], b"Cookie");
    assert_eq!(&req.headers()[1].value[..], b"session=60; user_id=1");
    assert_eq!(req.headers()[0].ty, HeaderType::Keep);
}

#[test]
fn table_parser_outcomes() {
    let mut parser = Parser::new();
    let mut req = RawRequest::new();
    assert_eq!(parser.parse(b"GET / HT", &mut req), Ok(ParseStatus::Incompleted));
    assert_eq!(req.method, b"GET");
    let mut req = RawRequest::new();
    assert_eq!(
        parser.parse(b"GET / HTTP/1.1\r\nHost : x\r\n\r\n", &mut req),
        Err(ParseError::BadRequest)
    );
    let mut req = RawRequest::new();
    assert_eq!(parser.parse(b"GET / XTTP/1.1\r\n", &mut req), Err(ParseError::BadRequest));
    let mut req = RawRequest::new();
    assert_eq!(parser.parse(b"GET / HTTP/1.1\r\n\r\n", &mut req), Err(ParseError::BadRequest));
}

#[test]
fn a_parse_starts_from_the_first_state() {
    let mut parser = Parser::new();
    let mut req = RawRequest::new();
    assert_eq!(parser.parse(b"GET /a HTTP/1.1\r\nA: ", &mut req), Ok(ParseStatus::Incompleted));
    let mut req = RawRequest::new();
    let buf = b"GET /a HTTP/1.1\r\nA: b\r\n\r\n";
    assert_eq!(parser.parse(buf, &mut req), Ok(ParseStatus::Completed(buf.len())));
    assert_eq!(req.headers().len(), 1);
    assert_eq!(&req.headers()[0].value[..], b"b");
}

#[test]
fn capture_without_its_start_is_an_error() {
    let mut parser = Parser::new();
    let mut req = RawRequest::new();
    let buf = b"GET /";
    assert_eq!(
        parser.capture(buf, &mut req, CaptureAction::EndMethod, 3),
        Err(ParseError::ErrState)
    );
    assert!(req.method.is_empty());
    assert_eq!(
        parser.capture(buf, &mut req, CaptureAction::StartMethod, 0),
        Ok(ParseStatus::Incompleted)
    );
    assert_eq!(parser.state, (CaptureAction::StartMethod, 0));
    assert_eq!(
        parser.capture(buf, &mut req, CaptureAction::EndMethod, 3),
        Ok(ParseStatus::Incompleted)
    );
    assert_eq!(req.method, b"GET");
    assert_eq!(
        parser.capture(buf, &mut req, CaptureAction::EndMethod, 9),
        Err(ParseError::ErrState)
    );
    assert_eq!(
        parser.capture(buf, &mut req, CaptureAction::StartHeaderValue, 4),
        Ok(ParseStatus::Incompleted)
    );
    assert_eq!(
        parser.capture(buf, &mut req, CaptureAction::EndHeaderValue, 5),
        Err(ParseError::ErrState)
    );
}

#[test]
fn static_states_and_steps() {
    let states = req_nfa_states();
    let s: &StaticState = &states[13];
    assert!(s.matches(&b'a') && s.matches(&b'Z') && s.matches(&b'0') && s.matches(&b'-'));
    assert!(!s.matches(&b'_') && !s.matches(&b':') && !s.matches(&b' '));
    assert!(states[0].matches(&0) && states[0].matches(&255));
    assert!(states[1].matches(&b'G') && !states[1].matches(&b'\t'));
    assert!(states[2].matches(&0x0b) && !states[2].matches(&b'G'));

    let mut nfa = StaticNFA { states, current_state: 0 };
    assert_eq!(nfa.get(22).result, StateResult::Done);
    assert_eq!(nfa.process_byte(0, &b'x'), Some(1));
    assert_eq!(nfa.process_byte(1, &b'x'), Some(1));
    assert_eq!(nfa.process_byte(1, &b' '), Some(2));
    assert_eq!(nfa.process_byte(13, &b' '), Some(14));
    assert_eq!(nfa.process_byte(13, &b':'), Some(15));
    assert_eq!(nfa.process_byte(13, &b'_'), None);
    assert_eq!(nfa.process_byte(17, &b' '), Some(17));
    assert_eq!(nfa.process_byte(22, &b'x'), None);

    let mut events = Vec::new();
    assert_eq!(nfa.process(b"PUT /x", 0, &mut events), Ok(ParseStatus::Incompleted));
    assert_eq!(nfa.current_state, 3);
    assert_eq!(
        events,
        vec![
            (CaptureAction::StartMethod, 0),
            (CaptureAction::EndMethod, 3),
            (CaptureAction::StartRequestTaget, 4),
        ]
    );
    assert_eq!(nfa.process(b" HTTP/1.1\r\n\r", 0, &mut events), Err(ParseError::BadRequest));
    assert_eq!(nfa.current_state, 12);
}

#[test]
fn builder_steps() {
    let s = State::new(7, ByteClass::ValidRange(&[(b'a', b'c'), (b'x', b'x')]));
    assert_eq!(s.index, 7);
    assert!(s.next_states.is_empty());
    assert_eq!(s.result, StateResult::Go);
    assert!(s.matches(&b'b') && s.matches(&b'x') && !s.matches(&b'd'));

    let mut nfa = NFA::new();
    assert_eq!(nfa.states.len(), 1);
    assert_eq!(nfa.new_state(ByteClass::Valid(b"ab")), 1);
    assert_eq!(nfa.get(1).index, 1);
    nfa.put_state(0, 1);
    nfa.put_state(0, 1);
    assert_eq!(nfa.get(0).next_states, vec![1]);
    assert_eq!(nfa.put(0, ByteClass::Valid(b"ab")), 1);
    assert_eq!(nfa.put(0, ByteClass::Invalid(b"ab")), 2);
    assert_eq!(nfa.put(0, ByteClass::Valid(b"ba")), 3);
    assert_eq!(nfa.get(0).next_states, vec![1, 2, 3]);
    nfa.get_mut(2).result = StateResult::Done;
    assert_eq!(nfa.process_byte(0, &b'a'), Some(1));
    assert_eq!(nfa.process_byte(0, &b'z'), Some(2));
    assert_eq!(nfa.process_byte(1, &b'a'), None);
    let mut events = Vec::new();
    assert_eq!(nfa.process(b"az", 0, &mut events), Err(ParseError::BadRequest));
    assert_eq!(nfa.current_state, 1);
    nfa.current_state = 0;
    assert_eq!(nfa.process(b"xz", 1, &mut events), Ok(ParseStatus::Completed(2)));
    assert!(events.is_empty());
    assert!(ByteClass::Any.same(&ByteClass::Any));
    assert!(!ByteClass::Valid(b"a").same(&ByteClass::Invalid(b"a")));
    assert!(ByteClass::ValidRange(&[(1, 2)]).same(&ByteClass::ValidRange(&[(1, 2)])));
    assert!(!ByteClass::ValidRange(&[(1, 2)]).same(&ByteClass::ValidRange(&[(1, 3)])));
}

#[test]
fn edited_headers() {
    let mut req = RawRequest::new();
    req.add_header_name(b"Host");
    req.add_header_value(b"a");
    req.add_header_name(b"Via");
    req.add_header_value(b"b");
    req.add_header("Host", b"c".to_vec());
    let values = req.get_header("Host");
    assert_eq!(values.len(), 2);
    assert_eq!(&values[0][..], b"a");
    assert_eq!(&values[1][..], b"c");
    assert!(req.get_header("host").is_empty());

    req.set_header("Host", b"d".to_vec());
    let types: Vec<HeaderType> = req.headers().iter().map(|h| h.ty).collect();
    assert_eq!(
        types,
        vec![HeaderType::Del, HeaderType::Keep, HeaderType::Del, HeaderType::Add]
    );
    let values = req.get_header("Host");
    assert_eq!(values.len(), 1);
    assert_eq!(&values[0][..], b"d");

    req.remove_header("Via");
    assert!(req.get_header("Via").is_empty());
    assert_eq!(req.headers().len(), 4);
    assert!(bytes_eq(b"ab", b"ab") && !bytes_eq(b"ab", b"ac") && !bytes_eq(b"ab", b"a"));
}

#[test]
fn space_before_the_colon_stops_the_automaton() {
    let mut nfa = StaticNFA { states: req_nfa_states(), current_state: 0 };
    let mut events = Vec::new();
    let ret = nfa.process(b"GET / HTTP/1.1\r\nHost : x\r\n\r\n", 0, &mut events);
    assert_eq!(ret, Err(ParseError::BadRequest));
    assert_eq!(nfa.current_state, 13);
    assert!(events.contains(&(CaptureAction::EndMethod, 3)));
    assert!(events.contains(&(CaptureAction::EndRequestTaget, 5)));
    assert!(events.iter().all(|(c, _)| *c != CaptureAction::EndHeaderName));
    assert_eq!(events.last(), Some(&(CaptureAction::StartHeaderName, 16)));

    let mut nfa = StaticNFA { states: req_nfa_states(), current_state: 0 };
    assert_eq!(nfa.process(b" GET", 0, &mut events), Err(ParseError::BadRequest));
    assert_eq!(nfa.process_byte(17, &b'\r'), Some(19));
    assert_eq!(nfa.process_byte(18, &b' '), Some(18));
    assert_eq!(nfa.process_byte(20, &b'\r'), Some(21));
    assert_eq!(nfa.process_byte(21, &b'\n'), Some(22));
    assert_eq!(nfa.process_byte(14, &b' '), None);
}
