//! The header model and the typed messages built from parsed heads.

use bstr::ByteSlice;
use bytes::Bytes;
use vstd::prelude::*;
use vstd::slice::{slice_subrange, slice_to_vec};
use crate::ascii::{
    ascii_upper, bytes_eq, eq_ignore_ascii_case, is_digit, spec_eq_ignore_ascii_case,
    spec_is_digit, BYTE_SP,
};
use crate::body::{Body, BodyView};
use crate::buffer::bytes_contents;
use crate::error::{Cause, Error, ErrorKind};
use crate::framing::{
    all_headers, content_length_value, decimal_value, has_content_length, has_transfer_encoding,
    lemma_decimal_prefix, lemma_scan_push, scan_of, spec_contains_token, spec_keep_alive,
    spec_must_close, spec_request_framing, spec_response_framing, spec_split, spec_trimmed,
    FramingScan, BYTE_COMMA,
};
use crate::header_model::{
    has_key, lemma_append_wf, lemma_lex_irreflexive, lemma_remove_wf, lemma_set_wf, lex_lt,
    lex_lt_from, lower_bound, map_wf, spec_append, spec_get, spec_remove, spec_set,
    spec_title_case, with_entry, EntryView, HeaderView, BYTE_DASH,
};
use crate::parser::{trim_ows, ParseError, RawRequest};
use crate::wire::{
    spec_decimal, spec_head, spec_header_line, spec_header_lines, spec_status_line, CRLF,
    NAME_VALUE_SEP, REASON_BAD_REQUEST, REASON_INTERNAL_SERVER_ERROR, REASON_NOT_FOUND, REASON_OK,
    STATUS_PREFIX,
};

pub mod headers;
pub mod methods;

verus! {

pub enum Scheme {
    HTTP,
    HTTPS,
}

/// Where the body of a message ends.
#[derive(Debug, Clone, Copy, PartialEq, Eq, Structural)]
pub enum ContentLength {
    /// After this many bytes.
    Sized(u64),
    /// With the last chunk of a chunked body.
    Chunked,
    /// At once: there is no body.
    NoBody,
    /// Where the connection closes.
    UntilClose,
}

/// A header as the map keeps it: the name as the caller wrote it, and the
/// value.
#[derive(Debug, Clone)]
pub struct Header {
    pub name: Vec<u8>,
    pub value: Vec<u8>,
}

impl View for Header {
    type V = HeaderView;

    open spec fn view(&self) -> HeaderView {
        HeaderView { name: self.name@, value: self.value@ }
    }
}

impl Header {
    pub fn new(name: &[u8], value: &[u8]) -> (h: Self)
        ensures
            h@ == (HeaderView { name: name@, value: value@ }),
    {
        Header { name: slice_to_vec(name), value: slice_to_vec(value) }
    }
}

/// The bytes that each header of `hs` holds.
pub open spec fn headers_view(hs: Seq<Header>) -> Seq<HeaderView> {
    Seq::new(hs.len(), |i: int| hs[i]@)
}

/// The Title-Case form of a name: the key under which it is filed.
pub fn title_case(s: &[u8]) -> (r: Vec<u8>)
    ensures
        r@ == spec_title_case(s@),
{
    let mut ret: Vec<u8> = Vec::with_capacity(s.len());
    let mut upper = true;
    let mut i: usize = 0;
    while i < s.len()
        invariant
            i <= s@.len(),
            ret@.len() == i,
            upper == (i == 0 || s@[i - 1] == BYTE_DASH),
            forall|j: int| 0 <= j < i ==> ret@[j] == spec_title_case(s@)[j],
        decreases s@.len() - i,
    {
        let c = s[i];
        if upper {
            ret.push(ascii_upper(c));
        } else {
            ret.push(c);
        }
        upper = c == BYTE_DASH;
        i += 1;
    }
    ret
}

/// How one key stands to another in byte order.
enum KeyOrder {
    Before,
    Same,
    After,
}

/// Compares two keys byte by byte.
fn key_order(a: &[u8], b: &[u8]) -> (r: KeyOrder)
    ensures
        match r {
            KeyOrder::Before => lex_lt(a@, b@) && a@ != b@,
            KeyOrder::Same => a@ == b@ && !lex_lt(a@, b@),
            KeyOrder::After => !lex_lt(a@, b@) && a@ != b@,
        },
{
    let mut i: usize = 0;
    while i < a.len() && i < b.len()
        invariant
            i <= a@.len(),
            i <= b@.len(),
            forall|j: int| 0 <= j < i ==> a@[j] == b@[j],
            lex_lt(a@, b@) == lex_lt_from(a@, b@, i as int),
        decreases a@.len() - i,
    {
        if a[i] < b[i] {
            return KeyOrder::Before;
        }
        if a[i] > b[i] {
            return KeyOrder::After;
        }
        i += 1;
    }
    if a.len() < b.len() {
        KeyOrder::Before
    } else if a.len() > b.len() {
        KeyOrder::After
    } else {
        KeyOrder::Same
    }
}

/// A key of the map with the headers filed under it.
#[derive(Debug)]
struct Entry {
    key: Vec<u8>,
    values: Vec<Header>,
}

/// A case-insensitive header map with several values to a name.
///
/// A header is filed under the Title-Case form of its name and keeps the
/// name as the caller wrote it. The headers of one key stay in the order in
/// which they came; the keys ascend in byte order.
#[derive(Debug)]
pub struct HeaderMap {
    entries: Vec<Entry>,
}

impl View for HeaderMap {
    type V = Seq<EntryView>;

    closed spec fn view(&self) -> Seq<EntryView> {
        Seq::new(
            self.entries@.len(),
            |i: int|
                EntryView {
                    key: self.entries@[i].key@,
                    values: headers_view(self.entries@[i].values@),
                },
        )
    }
}

impl HeaderMap {
    /// An empty map.
    pub fn new() -> (m: Self)
        ensures
            m@ == Seq::<EntryView>::empty(),
            map_wf(m@),
    {
        let m = HeaderMap { entries: Vec::new() };
        m
    }

    /// The number of keys.
    pub fn len(&self) -> (n: usize)
        ensures
            n == self@.len(),
    {
        self.entries.len()
    }

    /// The key at position `i` in ascending order, and its headers.
    pub fn entry(&self, i: usize) -> (r: (&[u8], &[Header]))
        requires
            i < self@.len(),
        ensures
            r.0@ == self@[i as int].key,
            headers_view(r.1@) == self@[i as int].values,
    {
        let e = &self.entries[i];
        (e.key.as_slice(), e.values.as_slice())
    }

    /// Where `key` is, or where it belongs, and whether it is there.
    fn find(&self, key: &[u8]) -> (r: (usize, bool))
        ensures
            r.0 == lower_bound(self@, key@, 0),
            r.0 <= self@.len(),
            r.1 == has_key(self@, key@),
    {
        let n = self.entries.len();
        let mut i: usize = 0;
        while i < n
            invariant
                i <= n,
                n == self@.len(),
                n == self.entries@.len(),
                lower_bound(self@, key@, 0) == lower_bound(self@, key@, i as int),
            decreases n - i,
        {
            match key_order(self.entries[i].key.as_slice(), key) {
                KeyOrder::Before => {},
                KeyOrder::Same => {
                    return (i, true);
                },
                KeyOrder::After => {
                    return (i, false);
                },
            }
            i += 1;
        }
        (n, false)
    }

    /// The headers filed under `name`, whatever its case.
    pub fn get(&self, name: &[u8]) -> (r: Option<&[Header]>)
        ensures
            match spec_get(self@, name@) {
                Some(values) => r matches Some(hs) && headers_view(hs@) == values,
                None => r is None,
            },
    {
        let key = title_case(name);
        let (at, found) = self.find(key.as_slice());
        if found {
            Some(self.entries[at].values.as_slice())
        } else {
            None
        }
    }

    /// Files `values` under `key`, in place of what is there.
    fn put(&mut self, key: Vec<u8>, values: Vec<Header>)
        ensures
            final(self)@ == with_entry(old(self)@, key@, headers_view(values@)),
    {
        let (at, found) = self.find(key.as_slice());
        if found {
            self.entries[at].values = values;
        } else {
            self.entries.insert(at, Entry { key, values });
        }
    }

    /// Sets the header `name`: it replaces every header of that name.
    pub fn set(&mut self, name: &[u8], value: &[u8])
        ensures
            final(self)@ == spec_set(old(self)@, name@, value@),
            map_wf(old(self)@) ==> map_wf(final(self)@),
    {
        let key = title_case(name);
        let header = Header::new(name, value);
        let mut values: Vec<Header> = Vec::new();
        values.push(header);
        assert(headers_view(values@) =~= seq![HeaderView { name: name@, value: value@ }]);
        self.put(key, values);
        proof {
            if map_wf(old(self)@) {
                lemma_set_wf(old(self)@, name@, value@);
            }
        }
    }

    /// Adds the header `name` behind the headers of that name.
    pub fn append(&mut self, name: &[u8], value: &[u8])
        ensures
            final(self)@ == spec_append(old(self)@, name@, value@),
            map_wf(old(self)@) ==> map_wf(final(self)@),
    {
        let key = title_case(name);
        let header = Header::new(name, value);
        let (at, found) = self.find(key.as_slice());
        if found {
            let ghost before = self.entries@[at as int].values@;
            self.entries[at].values.push(header);
            assert(headers_view(self.entries@[at as int].values@) =~= headers_view(before).push(
                HeaderView { name: name@, value: value@ },
            ));
        } else {
            let mut values: Vec<Header> = Vec::new();
            values.push(header);
            assert(headers_view(values@) =~= Seq::<HeaderView>::empty().push(
                HeaderView { name: name@, value: value@ },
            ));
            self.entries.insert(at, Entry { key, values });
        }
        proof {
            if map_wf(old(self)@) {
                lemma_append_wf(old(self)@, name@, value@);
            }
        }
    }

    /// Takes every header of the name `name` away.
    pub fn remove(&mut self, name: &[u8])
        ensures
            final(self)@ == spec_remove(old(self)@, name@),
            map_wf(old(self)@) ==> map_wf(final(self)@),
    {
        let key = title_case(name);
        let (at, found) = self.find(key.as_slice());
        if found {
            self.entries.remove(at);
        }
        proof {
            if map_wf(old(self)@) {
                lemma_remove_wf(old(self)@, name@);
            }
        }
    }
}

/// The bytes that each part of `parts` holds.
pub open spec fn parts_view(parts: Seq<&[u8]>) -> Seq<Seq<u8>> {
    Seq::new(parts.len(), |i: int| parts[i]@)
}

/// `bstr::ByteSlice::split_str` with the splitter `,`: the parts of `values`
/// between the commas, in order, empty ones included; the whole of `values`
/// when it holds no comma.
#[verifier::external_body]
fn split_commas<'a>(values: &'a [u8]) -> (parts: Vec<&'a [u8]>)
    ensures
        parts_view(parts@) == spec_split(values@, BYTE_COMMA),
{
    values.split_str(",").collect()
}

/// Whether the comma-separated list `values` holds `token`: a part that is
/// `token` once the optional whitespace round it is dropped, whatever the
/// case of its letters.
pub fn header_values_contains_token(values: &[u8], token: &[u8]) -> (r: bool)
    ensures
        r == spec_contains_token(values@, token@),
{
    let parts = split_commas(values);
    let ghost all = parts_view(parts@);
    let mut i: usize = 0;
    while i < parts.len()
        invariant
            i <= parts@.len(),
            all == parts_view(parts@),
            all == spec_split(values@, BYTE_COMMA),
            forall|j: int|
                0 <= j < i ==> !spec_eq_ignore_ascii_case(spec_trimmed(#[trigger] all[j]), token@),
        decreases parts@.len() - i,
    {
        let part = parts[i];
        let (from, to) = trim_ows(part, 0, part.len());
        if eq_ignore_ascii_case(slice_subrange(part, from, to), token) {
            assert(spec_eq_ignore_ascii_case(spec_trimmed(all[i as int]), token@));
            return true;
        }
        i += 1;
    }
    false
}

/// The length that a `Content-Length` value announces, if it is one or more
/// digits that write a number of 64 bits.
pub fn parse_content_length(value: &[u8]) -> (r: Option<u64>)
    ensures
        r == content_length_value(value@),
{
    if value.len() == 0 {
        return None;
    }
    let mut i: usize = 0;
    while i < value.len()
        invariant
            i <= value@.len(),
            forall|j: int| 0 <= j < i ==> spec_is_digit(#[trigger] value@[j]),
        decreases value@.len() - i,
    {
        if !is_digit(value[i]) {
            return None;
        }
        i += 1;
    }
    let mut n: u64 = 0;
    let mut k: usize = 0;
    while k < value.len()
        invariant
            k <= value@.len(),
            forall|j: int| 0 <= j < value@.len() ==> spec_is_digit(#[trigger] value@[j]),
            n == decimal_value(value@.take(k as int)),
        decreases value@.len() - k,
    {
        let d = (value[k] - 0x30) as u64;
        proof {
            assert(value@.take(k + 1).drop_last() =~= value@.take(k as int));
            lemma_decimal_prefix(value@, k + 1);
        }
        n = match n.checked_mul(10) {
            Some(m) => match m.checked_add(d) {
                Some(s) => s,
                None => { return None; },
            },
            None => { return None; },
        };
        k += 1;
    }
    assert(value@.take(value@.len() as int) =~= value@);
    Some(n)
}

#[derive(Debug)]
pub enum Method {
    GET,
    HEAD,
    POST,
    PUT,
    DELETE,
    CONNECT,
    OPTIONS,
    TRACE,
    Unknown(Vec<u8>),
}

pub enum MethodView {
    GET,
    HEAD,
    POST,
    PUT,
    DELETE,
    CONNECT,
    OPTIONS,
    TRACE,
    Unknown(Seq<u8>),
}

impl View for Method {
    type V = MethodView;

    open spec fn view(&self) -> MethodView {
        match self {
            Method::GET => MethodView::GET,
            Method::HEAD => MethodView::HEAD,
            Method::POST => MethodView::POST,
            Method::PUT => MethodView::PUT,
            Method::DELETE => MethodView::DELETE,
            Method::CONNECT => MethodView::CONNECT,
            Method::OPTIONS => MethodView::OPTIONS,
            Method::TRACE => MethodView::TRACE,
            Method::Unknown(m) => MethodView::Unknown(m@),
        }
    }
}

/// The method that the bytes `m` name: one of the eight known ones when
/// they are written exactly so, else an unknown one that keeps the bytes.
pub open spec fn spec_method(m: Seq<u8>) -> MethodView {
    if m == methods::GET@ {
        MethodView::GET
    } else if m == methods::HEAD@ {
        MethodView::HEAD
    } else if m == methods::POST@ {
        MethodView::POST
    } else if m == methods::PUT@ {
        MethodView::PUT
    } else if m == methods::DELETE@ {
        MethodView::DELETE
    } else if m == methods::CONNECT@ {
        MethodView::CONNECT
    } else if m == methods::OPTIONS@ {
        MethodView::OPTIONS
    } else if m == methods::TRACE@ {
        MethodView::TRACE
    } else {
        MethodView::Unknown(m)
    }
}

impl Method {
    /// The method that the bytes `m` name.
    pub fn from_bytes(m: &[u8]) -> (r: Method)
        ensures
            r@ == spec_method(m@),
    {
        if bytes_eq(m, &methods::GET) {
            Method::GET
        } else if bytes_eq(m, &methods::HEAD) {
            Method::HEAD
        } else if bytes_eq(m, &methods::POST) {
            Method::POST
        } else if bytes_eq(m, &methods::PUT) {
            Method::PUT
        } else if bytes_eq(m, &methods::DELETE) {
            Method::DELETE
        } else if bytes_eq(m, &methods::CONNECT) {
            Method::CONNECT
        } else if bytes_eq(m, &methods::OPTIONS) {
            Method::OPTIONS
        } else if bytes_eq(m, &methods::TRACE) {
            Method::TRACE
        } else {
            Method::Unknown(slice_to_vec(m))
        }
    }
}

/// The request target, as it stood on the request line.
#[derive(Debug)]
pub struct Uri {
    pub raw: Vec<u8>,
}

impl View for Uri {
    type V = Seq<u8>;

    open spec fn view(&self) -> Seq<u8> {
        self.raw@
    }
}

/// The protocol version of a message. A version that is neither 1.0 nor 1.1
/// keeps its bytes; such a message is handled as 1.1.
#[derive(Debug)]
pub enum Version {
    V1_0,
    V1_1,
    Other(Vec<u8>),
}

pub enum VersionView {
    V1_0,
    V1_1,
    Other(Seq<u8>),
}

impl View for Version {
    type V = VersionView;

    open spec fn view(&self) -> VersionView {
        match self {
            Version::V1_0 => VersionView::V1_0,
            Version::V1_1 => VersionView::V1_1,
            Version::Other(v) => VersionView::Other(v@),
        }
    }
}

/// The version that the bytes `v` of a head name.
pub open spec fn spec_version(v: Seq<u8>) -> VersionView {
    if v == methods::VERSION_1_0@ {
        VersionView::V1_0
    } else if v == methods::VERSION_1_1@ {
        VersionView::V1_1
    } else {
        VersionView::Other(v)
    }
}

impl Version {
    /// The version that the bytes `v` of a head name.
    pub fn from_bytes(v: &[u8]) -> (r: Version)
        ensures
            r@ == spec_version(v@),
    {
        if bytes_eq(v, &methods::VERSION_1_0) {
            Version::V1_0
        } else if bytes_eq(v, &methods::VERSION_1_1) {
            Version::V1_1
        } else {
            Version::Other(slice_to_vec(v))
        }
    }
}

/// What the headers of a request said of its body and of the connection.
#[derive(Debug)]
pub struct RequestInfo {
    /// Where the body ends.
    pub content_length: ContentLength,
    /// Whether a `Connection` header names `close`.
    pub should_close: bool,
    /// Whether the request lets the connection go on behind its response.
    pub keep_alive: bool,
}

impl RequestInfo {
    /// What is known before a head was seen: no body, and no wish to close.
    pub fn new() -> (info: Self)
        ensures
            info.content_length == ContentLength::NoBody,
            !info.should_close,
            info.keep_alive,
    {
        RequestInfo { content_length: ContentLength::NoBody, should_close: false, keep_alive: true }
    }
}

/// The map that holds the headers `hs`, appended one after the other.
pub open spec fn spec_collect(hs: Seq<HeaderView>) -> Seq<EntryView>
    decreases hs.len(),
{
    if hs.len() == 0 {
        Seq::empty()
    } else {
        spec_append(spec_collect(hs.drop_last()), hs.last().name, hs.last().value)
    }
}

#[derive(Debug)]
pub struct Request {
    pub method: Method,
    pub uri: Uri,
    pub version: Version,
    pub header_map: HeaderMap,
    pub body: Body,
}

impl Request {
    /// Builds a request from a parsed head and works out its framing.
    ///
    /// The headers are copied into the map in their order. When the framing
    /// is accepted, `info` says where the body ends and whether the peer
    /// asked to close; the body itself is empty until the reader gives the
    /// request one. When it is rejected, the error is `BadRequest` and
    /// `info` is as it was.
    pub fn from_raw_request(req: RawRequest<'_>, info: &mut RequestInfo) -> (r: Result<
        Self,
        Error,
    >)
        ensures
            match spec_request_framing(req@.headers) {
                Ok(f) => r matches Ok(request) && request.method@ == spec_method(req@.method)
                    && request.uri@ == req@.uri && request.version@ == spec_version(req@.version)
                    && request.header_map@ == spec_collect(req@.headers) && map_wf(
                    request.header_map@,
                ) && request.body@ == BodyView::Empty && final(info).content_length
                    == f.content_length && final(info).should_close == f.should_close
                    && final(info).keep_alive == spec_keep_alive(
                    spec_version(req@.version),
                    req@.headers,
                ),
                Err(e) => r matches Err(err) && err == (Error {
                    kind: ErrorKind::Protocol,
                    cause: Cause::Parse(e),
                }) && *final(info) == *old(info),
            },
            has_content_length(req@.headers) && has_transfer_encoding(req@.headers) ==> r is Err,
    {
        let method = Method::from_bytes(req.method);
        let uri = Uri { raw: slice_to_vec(req.uri) };
        let version = Version::from_bytes(req.version);

        let mut header_map = HeaderMap::new();
        let mut scan = FramingScan::new();

        let ghost hs = req@.headers;
        let n = req.headers.len();
        let mut i: usize = 0;
        while i < n
            invariant
                i <= n,
                n == req.headers@.len(),
                hs == req@.headers,
                header_map@ == spec_collect(hs.take(i as int)),
                map_wf(header_map@),
                scan@ == scan_of(hs.take(i as int)),
                *info == *old(info),
            decreases n - i,
        {
            let h = &req.headers[i];
            proof {
                assert(hs.take(i + 1).drop_last() =~= hs.take(i as int));
            }
            header_map.append(h.name, h.value);
            scan.take(h.name, h.value);
            i += 1;
        }
        assert(hs.take(n as int) =~= hs);

        match scan.request_framing() {
            Ok(framing) => {
                let old_version = match version {
                    Version::V1_0 => true,
                    _ => false,
                };
                info.content_length = framing.content_length;
                info.should_close = framing.should_close;
                info.keep_alive = !scan.close && (!old_version || scan.keep_alive);
            },
            Err(e) => {
                return Err(Error::new(ErrorKind::Protocol, Cause::Parse(e)));
            },
        }

        Ok(Request { method, uri, version, header_map, body: Body::empty() })
    }
}

/// Puts the bytes of `src` behind those of `buf`.
fn put_slice(buf: &mut Vec<u8>, src: &[u8])
    ensures
        final(buf)@ == old(buf)@ + src@,
{
    let mut i: usize = 0;
    while i < src.len()
        invariant
            i <= src@.len(),
            buf@ == old(buf)@ + src@.take(i as int),
        decreases src@.len() - i,
    {
        buf.push(src[i]);
        i += 1;
    }
}

/// Puts the decimal digits of `n` behind the bytes of `buf`.
fn put_decimal(buf: &mut Vec<u8>, n: u16)
    ensures
        final(buf)@ == old(buf)@ + spec_decimal(n as nat),
    decreases n,
{
    if n >= 10 {
        put_decimal(buf, n / 10);
    }
    buf.push(0x30 + (n % 10) as u8);
}

#[derive(Debug)]
pub struct Response {
    pub status_code: u16,
    pub header_map: HeaderMap,
    /// The reason phrase for a status code that has no standard phrase here.
    pub reason: Vec<u8>,
    pub body: Body,
}

impl Response {
    /// A response `200 OK` without headers and without a body.
    pub fn new() -> (r: Self)
        ensures
            r.status_code == 200,
            r.header_map@ == Seq::<EntryView>::empty(),
            r.reason@ == Seq::<u8>::empty(),
            r.body@ == BodyView::Empty,
    {
        Response {
            status_code: 200,
            header_map: HeaderMap::new(),
            reason: Vec::new(),
            body: Body::empty(),
        }
    }

    /// The head of the response as it goes out: the status line, a line for
    /// every header, key after key in ascending order, and an empty line.
    pub fn header_buf(&self) -> (r: Bytes)
        ensures
            bytes_contents(r) == spec_head(self.status_code, self.reason@, self.header_map@),
    {
        let mut buf: Vec<u8> = Vec::with_capacity(1024);
        self.put_status_line(&mut buf);
        let ghost line = buf@;
        let ghost m = self.header_map@;
        let n = self.header_map.len();
        let mut i: usize = 0;
        while i < n
            invariant
                i <= n,
                n == m.len(),
                m == self.header_map@,
                buf@ == line + spec_header_lines(all_headers(m.take(i as int))),
            decreases n - i,
        {
            let (_, values) = self.header_map.entry(i);
            let ghost hs = m[i as int].values;
            let ghost before = all_headers(m.take(i as int));
            let mut k: usize = 0;
            while k < values.len()
                invariant
                    k <= values@.len(),
                    hs == headers_view(values@),
                    buf@ == line + spec_header_lines(before + hs.take(k as int)),
                decreases values@.len() - k,
            {
                let v = &values[k];
                put_slice(&mut buf, v.name.as_slice());
                put_slice(&mut buf, &NAME_VALUE_SEP);
                put_slice(&mut buf, v.value.as_slice());
                put_slice(&mut buf, &CRLF);
                proof {
                    assert((before + hs.take(k + 1)).drop_last() =~= before + hs.take(k as int));
                }
                k += 1;
            }
            proof {
                assert(hs.take(hs.len() as int) =~= hs);
                assert(m.take(i + 1).drop_last() =~= m.take(i as int));
            }
            i += 1;
        }
        put_slice(&mut buf, &CRLF);
        proof {
            assert(m.take(n as int) =~= m);
        }
        Bytes::from(buf)
    }

    /// Puts the status line behind the bytes of `buf`.
    fn put_status_line(&self, buf: &mut Vec<u8>)
        ensures
            final(buf)@ == old(buf)@ + spec_status_line(self.status_code, self.reason@),
    {
        put_slice(buf, &STATUS_PREFIX);
        put_decimal(buf, self.status_code);
        buf.push(BYTE_SP);
        if self.status_code == 200 {
            put_slice(buf, &REASON_OK);
        } else if self.status_code == 400 {
            put_slice(buf, &REASON_BAD_REQUEST);
        } else if self.status_code == 404 {
            put_slice(buf, &REASON_NOT_FOUND);
        } else if self.status_code == 500 {
            put_slice(buf, &REASON_INTERNAL_SERVER_ERROR);
        } else {
            put_slice(buf, self.reason.as_slice());
        }
        put_slice(buf, &CRLF);
    }

    /// Where the body of this response ends, as its headers say.
    pub fn framing(&self) -> (r: Result<ContentLength, ParseError>)
        ensures
            r == spec_response_framing(all_headers(self.header_map@)),
    {
        self.header_map.scan().response_framing()
    }

    /// Whether the connection ends with this response, to a request that
    /// lets the connection go on or does not.
    pub fn must_close(&self, keep_alive: bool) -> (r: bool)
        ensures
            r == spec_must_close(keep_alive, all_headers(self.header_map@)),
    {
        if !keep_alive {
            return true;
        }
        let scan = self.header_map.scan();
        if scan.close {
            return true;
        }
        match scan.response_framing() {
            Ok(ContentLength::Sized(_)) => false,
            Ok(ContentLength::Chunked) => false,
            _ => true,
        }
    }
}

impl HeaderMap {
    /// What the headers of the map say of framing and of the connection,
    /// each matched by its name whatever the case of its letters.
    pub fn scan(&self) -> (r: FramingScan)
        ensures
            r@ == scan_of(all_headers(self@)),
    {
        let mut scan = FramingScan::new();
        let ghost m = self@;
        let n = self.len();
        let mut i: usize = 0;
        while i < n
            invariant
                i <= n,
                n == m.len(),
                m == self@,
                scan@ == scan_of(all_headers(m.take(i as int))),
            decreases n - i,
        {
            let (_, values) = self.entry(i);
            let ghost hs = m[i as int].values;
            let ghost before = all_headers(m.take(i as int));
            let mut k: usize = 0;
            while k < values.len()
                invariant
                    k <= values@.len(),
                    hs == headers_view(values@),
                    scan@ == scan_of(before + hs.take(k as int)),
                decreases values@.len() - k,
            {
                let v = &values[k];
                proof {
                    assert(before + hs.take(k + 1) =~= (before + hs.take(k as int)).push(v@));
                    lemma_scan_push(before + hs.take(k as int), v@);
                }
                scan.take(v.name.as_slice(), v.value.as_slice());
                k += 1;
            }
            proof {
                assert(hs.take(hs.len() as int) =~= hs);
                assert(m.take(i + 1).drop_last() =~= m.take(i as int));
            }
            i += 1;
        }
        assert(m.take(n as int) =~= m);
        scan
    }
}

} // verus!
