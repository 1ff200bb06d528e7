//! A table-driven request-head parser: a finite automaton walks the bytes
//! and reports where the parts of the head begin and end.

use std::borrow::Cow;
use vstd::prelude::*;
use vstd::slice::{slice_subrange, slice_to_vec};
use vstd::string::StringSliceAdditionalSpecFns;
use crate::ascii::bytes_eq;

pub mod gen_nfa;

verus! {

/// Whether a header came with the message, was added, or was taken away.
#[derive(Debug, Clone, Copy, PartialEq, Eq, PartialOrd, Ord, Structural)]
pub enum HeaderType {
    Keep,
    Add,
    Del,
}

/// A header field: borrowed from the buffer when parsed, owned when added.
#[derive(Debug)]
pub struct Header<'a> {
    pub ty: HeaderType,
    pub name: Cow<'a, [u8]>,
    pub value: Cow<'a, [u8]>,
}

pub struct HeaderView {
    pub ty: HeaderType,
    pub name: Seq<u8>,
    pub value: Seq<u8>,
}

impl<'a> View for Header<'a> {
    type V = HeaderView;

    open spec fn view(&self) -> HeaderView {
        HeaderView { ty: self.ty, name: self.name@, value: self.value@ }
    }
}

pub open spec fn headers_view(hs: Seq<Header<'_>>) -> Seq<HeaderView> {
    Seq::new(hs.len(), |i: int| hs[i]@)
}

#[derive(Debug)]
pub struct RawRequest<'a> {
    pub method: &'a [u8],
    pub uri: &'a [u8],
    pub version: &'a [u8],
    pub headers: Vec<Header<'a>>,
}

pub struct RawRequestView {
    pub method: Seq<u8>,
    pub uri: Seq<u8>,
    pub version: Seq<u8>,
    pub headers: Seq<HeaderView>,
}

impl<'a> View for RawRequest<'a> {
    type V = RawRequestView;

    open spec fn view(&self) -> RawRequestView {
        RawRequestView {
            method: self.method@,
            uri: self.uri@,
            version: self.version@,
            headers: headers_view(self.headers@),
        }
    }
}

/// The list with every live header named `key` marked as taken away.
pub open spec fn spec_remove_header(hs: Seq<HeaderView>, key: Seq<u8>) -> Seq<HeaderView> {
    Seq::new(
        hs.len(),
        |i: int|
            if hs[i].ty != HeaderType::Del && hs[i].name == key {
                HeaderView { ty: HeaderType::Del, name: hs[i].name, value: hs[i].value }
            } else {
                hs[i]
            },
    )
}

/// The values of the live headers named `key`, in their order.
pub open spec fn spec_get_header(hs: Seq<HeaderView>, key: Seq<u8>) -> Seq<Seq<u8>>
    decreases hs.len(),
{
    if hs.len() == 0 {
        Seq::empty()
    } else {
        let before = spec_get_header(hs.drop_last(), key);
        if hs.last().ty != HeaderType::Del && hs.last().name == key {
            before.push(hs.last().value)
        } else {
            before
        }
    }
}

/// The bytes that each item of `vs` holds.
pub open spec fn values_view(vs: Seq<Cow<'_, [u8]>>) -> Seq<Seq<u8>> {
    Seq::new(vs.len(), |i: int| vs[i]@)
}

/// The bytes behind a borrowed-or-owned byte string.
fn cow_bytes<'b>(c: &'b Cow<'_, [u8]>) -> (r: &'b [u8])
    ensures
        r@ == c@,
{
    match c {
        Cow::Borrowed(b) => b,
        Cow::Owned(v) => v.as_slice(),
    }
}

impl<'a> RawRequest<'a> {
    pub fn new() -> (r: Self)
        ensures
            r@ == (RawRequestView {
                method: Seq::empty(),
                uri: Seq::empty(),
                version: Seq::empty(),
                headers: Seq::empty(),
            }),
    {
        let r = RawRequest { method: &[], uri: &[], version: &[], headers: Vec::new() };
        assert(r@.headers =~= Seq::empty());
        assert(r@.method =~= Seq::empty());
        r
    }

    /// Opens a new header with this name and no value yet.
    pub fn add_header_name(&mut self, name: &'a [u8])
        ensures
            final(self)@ == (RawRequestView {
                headers: old(self)@.headers.push(
                    HeaderView { ty: HeaderType::Keep, name: name@, value: Seq::empty() },
                ),
                ..old(self)@
            }),
    {
        let empty: &'a [u8] = &[];
        self.headers.push(
            Header { ty: HeaderType::Keep, name: Cow::Borrowed(name), value: Cow::Borrowed(empty) },
        );
        assert(empty@ =~= Seq::empty());
        assert(final(self)@.headers =~= old(self)@.headers.push(
            HeaderView { ty: HeaderType::Keep, name: name@, value: Seq::empty() },
        ));
    }

    /// Gives the header that was opened last its value.
    pub fn add_header_value(&mut self, value: &'a [u8])
        requires
            old(self).headers@.len() > 0,
        ensures
            final(self)@ == (RawRequestView {
                headers: old(self)@.headers.update(
                    old(self)@.headers.len() - 1,
                    HeaderView { value: value@, ..old(self)@.headers.last() },
                ),
                ..old(self)@
            }),
    {
        let n = self.headers.len();
        self.headers[n - 1].value = Cow::Borrowed(value);
        assert(final(self)@.headers =~= old(self)@.headers.update(
            old(self)@.headers.len() - 1,
            HeaderView { value: value@, ..old(self)@.headers.last() },
        ));
    }

    /// Replaces the live headers named `key` by one added header.
    pub fn set_header(&mut self, key: &str, value: Vec<u8>)
        ensures
            final(self)@ == (RawRequestView {
                headers: spec_remove_header(old(self)@.headers, key.spec_bytes()).push(
                    HeaderView { ty: HeaderType::Add, name: key.spec_bytes(), value: value@ },
                ),
                ..old(self)@
            }),
    {
        self.remove_header(key);
        self.add_header(key, value);
    }

    /// Adds a header behind those that are there.
    pub fn add_header(&mut self, key: &str, value: Vec<u8>)
        ensures
            final(self)@ == (RawRequestView {
                headers: old(self)@.headers.push(
                    HeaderView { ty: HeaderType::Add, name: key.spec_bytes(), value: value@ },
                ),
                ..old(self)@
            }),
    {
        let name = slice_to_vec(key.as_bytes());
        self.headers.push(
            Header { ty: HeaderType::Add, name: Cow::Owned(name), value: Cow::Owned(value) },
        );
        assert(final(self)@.headers =~= old(self)@.headers.push(
            HeaderView { ty: HeaderType::Add, name: key.spec_bytes(), value: value@ },
        ));
    }

    /// Marks every live header named `key` as taken away.
    pub fn remove_header(&mut self, key: &str)
        ensures
            final(self)@ == (RawRequestView {
                headers: spec_remove_header(old(self)@.headers, key.spec_bytes()),
                ..old(self)@
            }),
    {
        let n = self.headers.len();
        let ghost before = self@.headers;
        let mut i: usize = 0;
        while i < n
            invariant
                i <= n,
                n == before.len(),
                self.headers@.len() == n,
                self.method == old(self).method,
                self.uri == old(self).uri,
                self.version == old(self).version,
                before == old(self)@.headers,
                forall|j: int|
                    0 <= j < i ==> (#[trigger] self.headers@[j])@ == spec_remove_header(
                        before,
                        key.spec_bytes(),
                    )[j],
                forall|j: int| i <= j < n ==> (#[trigger] self.headers@[j])@ == before[j],
            decreases n - i,
        {
            let same = bytes_eq(cow_bytes(&self.headers[i].name), key.as_bytes());
            if self.headers[i].ty != HeaderType::Del && same {
                self.headers[i].ty = HeaderType::Del;
            }
            i += 1;
        }
        assert(final(self)@.headers =~= spec_remove_header(before, key.spec_bytes()));
    }

    /// The values of the live headers named `key`, in their order.
    pub fn get_header(&self, key: &str) -> (values: Vec<Cow<'a, [u8]>>)
        ensures
            values_view(values@) == spec_get_header(self@.headers, key.spec_bytes()),
    {
        let mut values: Vec<Cow<'a, [u8]>> = Vec::new();
        let n = self.headers.len();
        let ghost all = self@.headers;
        let mut i: usize = 0;
        while i < n
            invariant
                i <= n,
                n == self.headers@.len(),
                all == self@.headers,
                values_view(values@) == spec_get_header(all.take(i as int), key.spec_bytes()),
            decreases n - i,
        {
            let h = &self.headers[i];
            assert(all.take(i + 1).drop_last() =~= all.take(i as int));
            if h.ty != HeaderType::Del && bytes_eq(cow_bytes(&h.name), key.as_bytes()) {
                let v: Cow<'a, [u8]> = match &h.value {
                    Cow::Borrowed(b) => Cow::Borrowed(*b),
                    Cow::Owned(v) => Cow::Owned(slice_to_vec(v.as_slice())),
                };
                values.push(v);
            }
            i += 1;
        }
        assert(all.take(n as int) =~= all);
        values
    }

    pub fn headers(&self) -> (hs: &[Header<'a>])
        ensures
            hs@ == self.headers@,
    {
        self.headers.as_slice()
    }
}

/// How far a run of the automaton came.
#[derive(Debug, Clone, Copy, PartialEq, Eq, Structural)]
pub enum ParseStatus {
    /// The head ends here: this many bytes were taken.
    Completed(usize),
    /// The bytes ran out before the head did.
    Incompleted,
}

#[derive(Debug, Clone, Copy, PartialEq, Eq, Structural)]
pub enum ParseError {
    /// No transition takes the byte, or one leads to a rejecting state.
    BadRequest,
    UnsupportMethod,
    /// The end of a part was reported, but not its start.
    ErrState,
}

/// The bytes that a state takes.
#[derive(Debug, Clone, Copy, PartialEq, Eq, PartialOrd, Ord)]
pub enum ByteClass {
    /// One of these bytes.
    Valid(&'static [u8]),
    /// A byte in one of these ranges, ends included.
    ValidRange(&'static [(u8, u8)]),
    /// Any byte but these.
    Invalid(&'static [u8]),
    Any,
}

/// What a transition reports: that a part of the head starts or ends.
#[derive(Debug, Clone, Copy, PartialEq, Eq, PartialOrd, Ord, Structural)]
pub enum CaptureAction {
    Nothing,
    StartMethod,
    EndMethod,
    StartRequestTaget,
    EndRequestTaget,
    StartHttpVersion,
    EndHttpVersion,
    StartHeaderName,
    EndHeaderName,
    StartHeaderValue,
    EndHeaderValue,
}

/// What reaching a state means for the run.
#[derive(Debug, Clone, Copy, PartialEq, Eq, Structural)]
pub enum StateResult {
    /// Go on with the next byte.
    Go,
    /// The head is complete.
    Done,
    /// The input is rejected.
    Fail(ParseError),
}

/// One state as the automaton's rules see it.
pub struct StateView {
    pub bytes: ByteClass,
    pub next_states: Seq<usize>,
    pub start_capture: CaptureAction,
    pub end_capture: CaptureAction,
    pub result: StateResult,
}

/// Whether `b` lies in one of the ranges from `i` on.
pub open spec fn in_ranges(ranges: Seq<(u8, u8)>, b: u8) -> bool {
    exists|i: int| 0 <= i < ranges.len() && (#[trigger] ranges[i]).0 <= b <= ranges[i].1
}

/// Whether a state of this class takes the byte `b`.
pub open spec fn class_matches(c: ByteClass, b: u8) -> bool {
    match c {
        ByteClass::Valid(bs) => bs@.contains(b),
        ByteClass::ValidRange(ranges) => in_ranges(ranges@, b),
        ByteClass::Invalid(bs) => !bs@.contains(b),
        ByteClass::Any => true,
    }
}

/// Whether two classes are written alike: the same kind over the same bytes.
pub open spec fn class_same(a: ByteClass, b: ByteClass) -> bool {
    match (a, b) {
        (ByteClass::Valid(x), ByteClass::Valid(y)) => x@ == y@,
        (ByteClass::ValidRange(x), ByteClass::ValidRange(y)) => x@ == y@,
        (ByteClass::Invalid(x), ByteClass::Invalid(y)) => x@ == y@,
        (ByteClass::Any, ByteClass::Any) => true,
        _ => false,
    }
}

/// Every transition of the table leads to a state of the table.
pub open spec fn table_wf(t: Seq<StateView>) -> bool {
    forall|i: int, j: int|
        0 <= i < t.len() && 0 <= j < t[i].next_states.len() ==> (#[trigger] t[i].next_states[j])
            < t.len()
}

/// The first of `nexts`, from position `j` on, whose state takes `b`.
pub open spec fn first_match(t: Seq<StateView>, nexts: Seq<usize>, b: u8, j: int) -> Option<usize>
    decreases nexts.len() - j,
{
    if j < 0 || j >= nexts.len() {
        None
    } else if class_matches(t[nexts[j] as int].bytes, b) {
        Some(nexts[j])
    } else {
        first_match(t, nexts, b, j + 1)
    }
}

/// The state that follows `state` on the byte `b`: the first of its
/// successors that takes `b`.
pub open spec fn transition(t: Seq<StateView>, state: usize, b: u8) -> Option<usize> {
    first_match(t, t[state as int].next_states, b, 0)
}

/// What the step from `cur` to `next` at position `pos` reports: the end of
/// what `cur` captured, then the start of what `next` captures; nothing when
/// the state stays.
pub open spec fn captures(t: Seq<StateView>, cur: usize, next: usize, pos: usize) -> Seq<
    (CaptureAction, usize),
> {
    if cur == next {
        Seq::empty()
    } else {
        let ends = if t[cur as int].end_capture != CaptureAction::Nothing {
            seq![(t[cur as int].end_capture, pos)]
        } else {
            Seq::empty()
        };
        let starts = if t[next as int].start_capture != CaptureAction::Nothing {
            seq![(t[next as int].start_capture, pos)]
        } else {
            Seq::empty()
        };
        ends + starts
    }
}

/// How a run ended: its outcome, the state it stands in, and what it reported.
pub struct Run {
    pub outcome: Result<ParseStatus, ParseError>,
    pub state: usize,
    pub events: Seq<(CaptureAction, usize)>,
}

/// The run from state `cur` over the bytes of `buf` from position `i` on,
/// after the reports in `events`.
pub open spec fn run(
    t: Seq<StateView>,
    cur: usize,
    buf: Seq<u8>,
    i: int,
    events: Seq<(CaptureAction, usize)>,
) -> Run
    decreases buf.len() - i,
{
    if i < 0 || i >= buf.len() {
        Run { outcome: Ok(ParseStatus::Incompleted), state: cur, events }
    } else {
        match transition(t, cur, buf[i]) {
            None => Run { outcome: Err(ParseError::BadRequest), state: cur, events },
            Some(next) => match t[next as int].result {
                StateResult::Done => Run {
                    outcome: Ok(ParseStatus::Completed((i + 1) as usize)),
                    state: cur,
                    events,
                },
                StateResult::Fail(e) => Run { outcome: Err(e), state: cur, events },
                StateResult::Go => run(
                    t,
                    next,
                    buf,
                    i + 1,
                    events + captures(t, cur, next, i as usize),
                ),
            },
        }
    }
}

/// Whether `b` is one of `bs`.
fn contains_byte(bs: &[u8], b: u8) -> (r: bool)
    ensures
        r == bs@.contains(b),
{
    let mut i: usize = 0;
    while i < bs.len()
        invariant
            i <= bs@.len(),
            forall|j: int| 0 <= j < i ==> bs@[j] != b,
        decreases bs@.len() - i,
    {
        if bs[i] == b {
            return true;
        }
        i += 1;
    }
    false
}

/// Whether `b` lies in one of `ranges`.
fn range_takes(ranges: &[(u8, u8)], b: u8) -> (r: bool)
    ensures
        r == in_ranges(ranges@, b),
{
    let mut i: usize = 0;
    while i < ranges.len()
        invariant
            i <= ranges@.len(),
            forall|j: int| 0 <= j < i ==> !((#[trigger] ranges@[j]).0 <= b <= ranges@[j].1),
        decreases ranges@.len() - i,
    {
        if b >= ranges[i].0 && b <= ranges[i].1 {
            return true;
        }
        i += 1;
    }
    false
}

/// Whether two lists of ranges are the same.
fn ranges_eq(x: &[(u8, u8)], y: &[(u8, u8)]) -> (r: bool)
    ensures
        r == (x@ == y@),
{
    if x.len() != y.len() {
        return false;
    }
    let mut i: usize = 0;
    while i < x.len()
        invariant
            x@.len() == y@.len(),
            i <= x@.len(),
            forall|j: int| 0 <= j < i ==> x@[j] == y@[j],
        decreases x@.len() - i,
    {
        if x[i].0 != y[i].0 || x[i].1 != y[i].1 {
            return false;
        }
        i += 1;
    }
    assert(x@ =~= y@);
    true
}

impl ByteClass {
    /// Whether a state of this class takes the byte `b`.
    pub fn takes(&self, b: u8) -> (r: bool)
        ensures
            r == class_matches(*self, b),
    {
        match self {
            ByteClass::Valid(bs) => contains_byte(bs, b),
            ByteClass::ValidRange(ranges) => range_takes(ranges, b),
            ByteClass::Invalid(bs) => !contains_byte(bs, b),
            ByteClass::Any => true,
        }
    }

    /// Whether the two classes are written alike.
    pub fn same(&self, other: &ByteClass) -> (r: bool)
        ensures
            r == class_same(*self, *other),
    {
        match (self, other) {
            (ByteClass::Valid(x), ByteClass::Valid(y)) => bytes_eq(x, y),
            (ByteClass::Invalid(x), ByteClass::Invalid(y)) => bytes_eq(x, y),
            (ByteClass::Any, ByteClass::Any) => true,
            (ByteClass::ValidRange(x), ByteClass::ValidRange(y)) => ranges_eq(x, y),
            _ => false,
        }
    }
}

/// A state of the fixed request automaton.
#[derive(Debug, Clone)]
pub struct StaticState {
    pub index: usize,
    pub bytes: ByteClass,
    pub next_states: &'static [usize],
    pub start_capture: CaptureAction,
    pub end_capture: CaptureAction,
    pub result: StateResult,
}

impl View for StaticState {
    type V = StateView;

    open spec fn view(&self) -> StateView {
        StateView {
            bytes: self.bytes,
            next_states: self.next_states@,
            start_capture: self.start_capture,
            end_capture: self.end_capture,
            result: self.result,
        }
    }
}

impl StaticState {
    /// Whether this state takes the byte `b`.
    pub fn matches(&self, b: &u8) -> (r: bool)
        ensures
            r == class_matches(self.bytes, *b),
    {
        self.bytes.takes(*b)
    }
}

/// The states of a table as the automaton's rules see them.
pub open spec fn states_view(ss: Seq<StaticState>) -> Seq<StateView> {
    Seq::new(ss.len(), |i: int| ss[i]@)
}

/// The number of states of the request automaton.
pub const REQ_NFA_LEN: usize = 23;

/// The whitespace of the request automaton: space, tab, vertical tab and
/// form feed.
pub open spec fn is_line_space(b: u8) -> bool {
    b == 0x20 || b == 0x09 || b == 0x0b || b == 0x0c
}

/// A byte of a header name for the request automaton: a digit, a letter or
/// `-`.
pub open spec fn is_name_byte(b: u8) -> bool {
    0x30 <= b <= 0x39 || 0x61 <= b <= 0x7a || 0x41 <= b <= 0x5a || b == 0x2d
}

/// Whether state `i` of the request automaton takes the byte `b`.
///
/// State 0 is the start. States 1 to 4 read the method and the target, each
/// a run of bytes that are no whitespace, with whitespace behind it. States
/// 5 to 9 read `HTTP/`, state 10 the version up to a CR, and states 11 and
/// 12 the end of the line. State 13 reads a header name; whitespace behind
/// it leads to the rejecting state 14, a colon to state 15. State 16 passes
/// over whitespace before the value, state 17 reads the value up to a CR,
/// and states 19 and 20 the end of the line. States 21 and 22 read the
/// empty line that ends the head.
pub open spec fn req_takes(i: int, b: u8) -> bool {
    if i == 0 {
        true
    } else if i == 1 || i == 3 {
        !is_line_space(b)
    } else if i == 2 || i == 4 || i == 14 || i == 16 || i == 18 {
        is_line_space(b)
    } else if i == 5 {
        b == 0x48
    } else if i == 6 || i == 7 {
        b == 0x54
    } else if i == 8 {
        b == 0x50
    } else if i == 9 {
        b == 0x2f
    } else if i == 10 || i == 17 {
        b != 0x0d
    } else if i == 11 || i == 19 || i == 21 {
        b == 0x0d
    } else if i == 12 || i == 20 || i == 22 {
        b == 0x0a
    } else if i == 13 {
        is_name_byte(b)
    } else if i == 15 {
        b == 0x3a
    } else {
        false
    }
}

/// The successors of state `i` of the request automaton, in the order in
/// which they are tried.
pub open spec fn req_next(i: int) -> Seq<usize> {
    if i == 0 {
        seq![1usize]
    } else if i == 1 {
        seq![1usize, 2usize]
    } else if i == 2 {
        seq![2usize, 3usize]
    } else if i == 3 {
        seq![3usize, 4usize]
    } else if i == 4 {
        seq![4usize, 5usize]
    } else if 5 <= i <= 9 {
        seq![(i + 1) as usize]
    } else if i == 10 {
        seq![10usize, 11usize]
    } else if i == 11 {
        seq![12usize]
    } else if i == 12 {
        seq![13usize]
    } else if i == 13 {
        seq![13usize, 14usize, 15usize]
    } else if i == 15 || i == 16 {
        seq![16usize, 17usize]
    } else if i == 17 {
        seq![17usize, 18usize, 19usize]
    } else if i == 18 {
        seq![18usize, 19usize]
    } else if i == 19 {
        seq![20usize]
    } else if i == 20 {
        seq![13usize, 21usize]
    } else if i == 21 {
        seq![22usize]
    } else {
        Seq::empty()
    }
}

/// What leaving state `i` of the request automaton reports.
pub open spec fn req_end(i: int) -> CaptureAction {
    if i == 1 {
        CaptureAction::EndMethod
    } else if i == 3 {
        CaptureAction::EndRequestTaget
    } else if i == 10 {
        CaptureAction::EndHttpVersion
    } else if i == 13 {
        CaptureAction::EndHeaderName
    } else if i == 17 {
        CaptureAction::EndHeaderValue
    } else {
        CaptureAction::Nothing
    }
}

/// What reaching state `i` of the request automaton means: state 14
/// rejects, state 22 completes the head, every other state goes on.
pub open spec fn req_result(i: int) -> StateResult {
    if i == 14 {
        StateResult::Fail(ParseError::BadRequest)
    } else if i == 22 {
        StateResult::Done
    } else {
        StateResult::Go
    }
}

/// The table is the request automaton: its 23 states have the successors,
/// reports and results above, entering a state reports the start of what
/// leaving it ends, and each state takes the bytes that `req_takes` says.
pub open spec fn is_request_automaton(t: Seq<StateView>) -> bool {
    &&& t.len() == REQ_NFA_LEN
    &&& forall|i: int|
        0 <= i < t.len() ==> {
            &&& (#[trigger] t[i]).next_states =~= req_next(i)
            &&& t[i].end_capture == req_end(i)
            &&& t[i].start_capture == start_of(req_end(i))
            &&& t[i].result == req_result(i)
        }
    &&& forall|i: int, b: u8|
        0 <= i < t.len() ==> #[trigger] class_matches(t[i].bytes, b) == req_takes(i, b)
}

/// The state that follows state `i` of the request automaton on the byte
/// `b`: the first successor that takes it. No state has two successors that
/// both lead on, but for a value, where whitespace is taken as part of it.
pub open spec fn req_transition(i: int, b: u8) -> Option<usize> {
    if i == 0 {
        if is_line_space(b) {
            None
        } else {
            Some(1usize)
        }
    } else if i == 1 {
        Some(if is_line_space(b) { 2usize } else { 1usize })
    } else if i == 2 {
        Some(if is_line_space(b) { 2usize } else { 3usize })
    } else if i == 3 {
        Some(if is_line_space(b) { 4usize } else { 3usize })
    } else if i == 4 {
        if is_line_space(b) {
            Some(4usize)
        } else if b == 0x48 {
            Some(5usize)
        } else {
            None
        }
    } else if 5 <= i <= 8 {
        if req_takes(i + 1, b) {
            Some((i + 1) as usize)
        } else {
            None
        }
    } else if i == 9 {
        if b != 0x0d {
            Some(10usize)
        } else {
            None
        }
    } else if i == 10 {
        Some(if b != 0x0d { 10usize } else { 11usize })
    } else if i == 11 || i == 19 || i == 21 {
        if b == 0x0a {
            Some((i + 1) as usize)
        } else {
            None
        }
    } else if i == 12 {
        if is_name_byte(b) {
            Some(13usize)
        } else {
            None
        }
    } else if i == 13 {
        if is_name_byte(b) {
            Some(13usize)
        } else if is_line_space(b) {
            Some(14usize)
        } else if b == 0x3a {
            Some(15usize)
        } else {
            None
        }
    } else if i == 15 || i == 16 {
        if is_line_space(b) {
            Some(16usize)
        } else if b != 0x0d {
            Some(17usize)
        } else {
            None
        }
    } else if i == 17 {
        Some(if b != 0x0d { 17usize } else { 19usize })
    } else if i == 18 {
        if is_line_space(b) {
            Some(18usize)
        } else if b == 0x0d {
            Some(19usize)
        } else {
            None
        }
    } else if i == 20 {
        if is_name_byte(b) {
            Some(13usize)
        } else if b == 0x0d {
            Some(21usize)
        } else {
            None
        }
    } else {
        None
    }
}

/// In the request automaton the transitions are those of `req_transition`.
pub proof fn lemma_request_transition(t: Seq<StateView>, i: usize, b: u8)
    requires
        is_request_automaton(t),
        i < REQ_NFA_LEN,
    ensures
        transition(t, i, b) == req_transition(i as int, b),
{
    let nexts = t[i as int].next_states;
    assert(nexts == req_next(i as int));
    assert(nexts.len() <= 3);
    assert forall|j: int| 0 <= j < nexts.len() implies nexts[j] < REQ_NFA_LEN
        && #[trigger] class_matches(t[nexts[j] as int].bytes, b) == req_takes(
        nexts[j] as int,
        b,
    ) by {}
    assert(first_match(t, nexts, b, 3) is None);
    assert(first_match(t, nexts, b, 2) == if 2 < nexts.len() && req_takes(nexts[2] as int, b) {
        Some(nexts[2])
    } else {
        None
    });
    assert(first_match(t, nexts, b, 1) == if 1 < nexts.len() && req_takes(nexts[1] as int, b) {
        Some(nexts[1])
    } else {
        first_match(t, nexts, b, 2)
    });
    assert(first_match(t, nexts, b, 0) == if 0 < nexts.len() && req_takes(nexts[0] as int, b) {
        Some(nexts[0])
    } else {
        first_match(t, nexts, b, 1)
    });
}

/// One step of a run of the request automaton: without a transition the
/// run fails; a transition into state 14 fails it, one into state 22
/// completes the head behind this byte, and any other is taken, with its
/// reports, and the run goes on behind the byte.
pub proof fn lemma_request_run_step(
    t: Seq<StateView>,
    cur: usize,
    buf: Seq<u8>,
    i: int,
    events: Seq<(CaptureAction, usize)>,
)
    requires
        is_request_automaton(t),
        cur < REQ_NFA_LEN,
        0 <= i < buf.len(),
    ensures
        run(t, cur, buf, i, events) == match req_transition(cur as int, buf[i]) {
            None => Run { outcome: Err(ParseError::BadRequest), state: cur, events },
            Some(next) => if next == 14 {
                Run { outcome: Err(ParseError::BadRequest), state: cur, events }
            } else if next == 22 {
                Run { outcome: Ok(ParseStatus::Completed((i + 1) as usize)), state: cur, events }
            } else {
                run(t, next, buf, i + 1, events + captures(t, cur, next, i as usize))
            },
        },
        req_transition(cur as int, buf[i]) matches Some(next) ==> next < REQ_NFA_LEN && captures(
            t,
            cur,
            next,
            i as usize,
        ) == if cur == next {
            Seq::<(CaptureAction, usize)>::empty()
        } else {
            (if req_end(cur as int) != CaptureAction::Nothing {
                seq![(req_end(cur as int), i as usize)]
            } else {
                Seq::empty()
            }) + (if req_end(next as int) != CaptureAction::Nothing {
                seq![(start_of(req_end(next as int)), i as usize)]
            } else {
                Seq::empty()
            })
        },
{
    lemma_request_transition(t, cur, buf[i]);
}

/// A list of one byte holds that byte and no other.
proof fn lemma_contains_one(s: Seq<u8>, x: u8)
    requires
        s == seq![x],
    ensures
        forall|b: u8| #[trigger] s.contains(b) == (b == x),
{
    assert forall|b: u8| #[trigger] s.contains(b) == (b == x) by {
        if b == x {
            assert(s[0] == b);
        }
    }
}

/// The whitespace list holds the four whitespace bytes and no other.
proof fn lemma_contains_line_space(s: Seq<u8>)
    requires
        s == seq![0x20u8, 0x09u8, 0x0bu8, 0x0cu8],
    ensures
        forall|b: u8| #[trigger] s.contains(b) == is_line_space(b),
{
    assert forall|b: u8| #[trigger] s.contains(b) == is_line_space(b) by {
        if is_line_space(b) {
            assert(s[0] == 0x20 && s[1] == 0x09 && s[2] == 0x0b && s[3] == 0x0c);
        }
    }
}

/// The ranges of header names hold the name bytes and no other.
proof fn lemma_ranges_name(r: Seq<(u8, u8)>)
    requires
        r == seq![(0x30u8, 0x39u8), (0x61u8, 0x7au8), (0x41u8, 0x5au8), (0x2du8, 0x2du8)],
    ensures
        forall|b: u8| #[trigger] in_ranges(r, b) == is_name_byte(b),
{
    assert forall|b: u8| #[trigger] in_ranges(r, b) == is_name_byte(b) by {
        if is_name_byte(b) {
            assert(r[0] == (0x30u8, 0x39u8) && r[1] == (0x61u8, 0x7au8) && r[2] == (
                0x41u8,
                0x5au8,
            ) && r[3] == (0x2du8, 0x2du8));
        }
    }
}

/// The request automaton: method, target and version on the first line,
/// then header lines up to an empty one.
pub fn req_nfa_states() -> (t: Vec<StaticState>)
    ensures
        is_request_automaton(states_view(t@)),
        table_wf(states_view(t@)),
        forall|i: int| 0 <= i < t@.len() ==> (#[trigger] t@[i]).index == i,
        captures_paired(states_view(t@)),
{
    proof {
        lemma_contains_line_space(seq![0x20u8, 0x09u8, 0x0bu8, 0x0cu8]);
        lemma_contains_one(seq![0x48u8], 0x48);
        lemma_contains_one(seq![0x54u8], 0x54);
        lemma_contains_one(seq![0x50u8], 0x50);
        lemma_contains_one(seq![0x2fu8], 0x2f);
        lemma_contains_one(seq![0x0du8], 0x0d);
        lemma_contains_one(seq![0x0au8], 0x0a);
        lemma_contains_one(seq![0x3au8], 0x3a);
        lemma_ranges_name(
            seq![(0x30u8, 0x39u8), (0x61u8, 0x7au8), (0x41u8, 0x5au8), (0x2du8, 0x2du8)],
        );
    }
    let mut t: Vec<StaticState> = Vec::with_capacity(REQ_NFA_LEN);
    t.push(
        StaticState {
            index: 0,
            bytes: ByteClass::Any,
            next_states: &[1],
            start_capture: CaptureAction::Nothing,
            end_capture: CaptureAction::Nothing,
            result: StateResult::Go,
        },
    );
    t.push(
        StaticState {
            index: 1,
            bytes: ByteClass::Invalid(&[32, 9, 11, 12]),
            next_states: &[1, 2],
            start_capture: CaptureAction::StartMethod,
            end_capture: CaptureAction::EndMethod,
            result: StateResult::Go,
        },
    );
    t.push(
        StaticState {
            index: 2,
            bytes: ByteClass::Valid(&[32, 9, 11, 12]),
            next_states: &[2, 3],
            start_capture: CaptureAction::Nothing,
            end_capture: CaptureAction::Nothing,
            result: StateResult::Go,
        },
    );
    t.push(
        StaticState {
            index: 3,
            bytes: ByteClass::Invalid(&[32, 9, 11, 12]),
            next_states: &[3, 4],
            start_capture: CaptureAction::StartRequestTaget,
            end_capture: CaptureAction::EndRequestTaget,
            result: StateResult::Go,
        },
    );
    t.push(
        StaticState {
            index: 4,
            bytes: ByteClass::Valid(&[32, 9, 11, 12]),
            next_states: &[4, 5],
            start_capture: CaptureAction::Nothing,
            end_capture: CaptureAction::Nothing,
            result: StateResult::Go,
        },
    );
    t.push(
        StaticState {
            index: 5,
            bytes: ByteClass::Valid(&[72]),
            next_states: &[6],
            start_capture: CaptureAction::Nothing,
            end_capture: CaptureAction::Nothing,
            result: StateResult::Go,
        },
    );
    t.push(
        StaticState {
            index: 6,
            bytes: ByteClass::Valid(&[84]),
            next_states: &[7],
            start_capture: CaptureAction::Nothing,
            end_capture: CaptureAction::Nothing,
            result: StateResult::Go,
        },
    );
    t.push(
        StaticState {
            index: 7,
            bytes: ByteClass::Valid(&[84]),
            next_states: &[8],
            start_capture: CaptureAction::Nothing,
            end_capture: CaptureAction::Nothing,
            result: StateResult::Go,
        },
    );
    t.push(
        StaticState {
            index: 8,
            bytes: ByteClass::Valid(&[80]),
            next_states: &[9],
            start_capture: CaptureAction::Nothing,
            end_capture: CaptureAction::Nothing,
            result: StateResult::Go,
        },
    );
    t.push(
        StaticState {
            index: 9,
            bytes: ByteClass::Valid(&[47]),
            next_states: &[10],
            start_capture: CaptureAction::Nothing,
            end_capture: CaptureAction::Nothing,
            result: StateResult::Go,
        },
    );
    t.push(
        StaticState {
            index: 10,
            bytes: ByteClass::Invalid(&[13]),
            next_states: &[10, 11],
            start_capture: CaptureAction::StartHttpVersion,
            end_capture: CaptureAction::EndHttpVersion,
            result: StateResult::Go,
        },
    );
    t.push(
        StaticState {
            index: 11,
            bytes: ByteClass::Valid(&[13]),
            next_states: &[12],
            start_capture: CaptureAction::Nothing,
            end_capture: CaptureAction::Nothing,
            result: StateResult::Go,
        },
    );
    t.push(
        StaticState {
            index: 12,
            bytes: ByteClass::Valid(&[10]),
            next_states: &[13],
            start_capture: CaptureAction::Nothing,
            end_capture: CaptureAction::Nothing,
            result: StateResult::Go,
        },
    );
    t.push(
        StaticState {
            index: 13,
            bytes: ByteClass::ValidRange(&[(48, 57), (97, 122), (65, 90), (45, 45)]),
            next_states: &[13, 14, 15],
            start_capture: CaptureAction::StartHeaderName,
            end_capture: CaptureAction::EndHeaderName,
            result: StateResult::Go,
        },
    );
    t.push(
        StaticState {
            index: 14,
            bytes: ByteClass::Valid(&[32, 9, 11, 12]),
            next_states: &[],
            start_capture: CaptureAction::Nothing,
            end_capture: CaptureAction::Nothing,
            result: StateResult::Fail(ParseError::BadRequest),
        },
    );
    t.push(
        StaticState {
            index: 15,
            bytes: ByteClass::Valid(&[58]),
            next_states: &[16, 17],
            start_capture: CaptureAction::Nothing,
            end_capture: CaptureAction::Nothing,
            result: StateResult::Go,
        },
    );
    t.push(
        StaticState {
            index: 16,
            bytes: ByteClass::Valid(&[32, 9, 11, 12]),
            next_states: &[16, 17],
            start_capture: CaptureAction::Nothing,
            end_capture: CaptureAction::Nothing,
            result: StateResult::Go,
        },
    );
    t.push(
        StaticState {
            index: 17,
            bytes: ByteClass::Invalid(&[13]),
            next_states: &[17, 18, 19],
            start_capture: CaptureAction::StartHeaderValue,
            end_capture: CaptureAction::EndHeaderValue,
            result: StateResult::Go,
        },
    );
    t.push(
        StaticState {
            index: 18,
            bytes: ByteClass::Valid(&[32, 9, 11, 12]),
            next_states: &[18, 19],
            start_capture: CaptureAction::Nothing,
            end_capture: CaptureAction::Nothing,
            result: StateResult::Go,
        },
    );
    t.push(
        StaticState {
            index: 19,
            bytes: ByteClass::Valid(&[13]),
            next_states: &[20],
            start_capture: CaptureAction::Nothing,
            end_capture: CaptureAction::Nothing,
            result: StateResult::Go,
        },
    );
    t.push(
        StaticState {
            index: 20,
            bytes: ByteClass::Valid(&[10]),
            next_states: &[13, 21],
            start_capture: CaptureAction::Nothing,
            end_capture: CaptureAction::Nothing,
            result: StateResult::Go,
        },
    );
    t.push(
        StaticState {
            index: 21,
            bytes: ByteClass::Valid(&[13]),
            next_states: &[22],
            start_capture: CaptureAction::Nothing,
            end_capture: CaptureAction::Nothing,
            result: StateResult::Go,
        },
    );
    t.push(
        StaticState {
            index: 22,
            bytes: ByteClass::Valid(&[10]),
            next_states: &[],
            start_capture: CaptureAction::Nothing,
            end_capture: CaptureAction::Nothing,
            result: StateResult::Done,
        },
    );
    t
}

/// The capture that opens what `end` closes.
pub open spec fn start_of(end: CaptureAction) -> CaptureAction {
    match end {
        CaptureAction::EndMethod => CaptureAction::StartMethod,
        CaptureAction::EndRequestTaget => CaptureAction::StartRequestTaget,
        CaptureAction::EndHttpVersion => CaptureAction::StartHttpVersion,
        CaptureAction::EndHeaderName => CaptureAction::StartHeaderName,
        CaptureAction::EndHeaderValue => CaptureAction::StartHeaderValue,
        _ => CaptureAction::Nothing,
    }
}

/// Every state that closes a part is the state that opened it.
pub open spec fn captures_paired(t: Seq<StateView>) -> bool {
    forall|i: int|
        0 <= i < t.len() ==> (#[trigger] t[i]).start_capture == start_of(t[i].end_capture)
}

/// The request automaton and the state that a run stands in.
#[derive(Debug)]
pub struct StaticNFA {
    pub states: Vec<StaticState>,
    pub current_state: usize,
}

impl StaticNFA {
    /// The table as the automaton's rules see it.
    pub open spec fn table(&self) -> Seq<StateView> {
        states_view(self.states@)
    }

    /// The transitions stay inside the table, and so does the current state.
    pub open spec fn wf(&self) -> bool {
        table_wf(self.table()) && self.current_state < self.states@.len()
    }

    pub fn get(&self, index: usize) -> (s: &StaticState)
        requires
            index < self.states@.len(),
        ensures
            *s == self.states@[index as int],
    {
        &self.states[index]
    }

    /// Runs the automaton from its current state over `buf` from `pos` on,
    /// and adds to `events` what the transitions report.
    pub fn process(
        &mut self,
        buf: &[u8],
        pos: usize,
        events: &mut Vec<(CaptureAction, usize)>,
    ) -> (r: Result<ParseStatus, ParseError>)
        requires
            old(self).wf(),
            pos <= buf@.len(),
        ensures
            final(self).states == old(self).states,
            r == run(old(self).table(), old(self).current_state, buf@, pos as int, old(events)@).outcome,
            final(self).current_state == run(
                old(self).table(),
                old(self).current_state,
                buf@,
                pos as int,
                old(events)@,
            ).state,
            final(events)@ == run(
                old(self).table(),
                old(self).current_state,
                buf@,
                pos as int,
                old(events)@,
            ).events,
            final(self).wf(),
    {
        let ghost t = self.table();
        let ghost goal = run(t, self.current_state, buf@, pos as int, events@);
        let mut i = pos;
        while i < buf.len()
            invariant
                pos <= i <= buf@.len(),
                self.states == old(self).states,
                t == self.table(),
                self.wf(),
                goal == run(
                    old(self).table(),
                    old(self).current_state,
                    buf@,
                    pos as int,
                    old(events)@,
                ),
                goal == run(t, self.current_state, buf@, i as int, events@),
            decreases buf@.len() - i,
        {
            let cur = self.current_state;
            match self.process_byte(cur, &buf[i]) {
                None => {
                    return Err(ParseError::BadRequest);
                },
                Some(next) => {
                    match self.states[next].result {
                        StateResult::Go => {},
                        StateResult::Done => {
                            return Ok(ParseStatus::Completed(i + 1));
                        },
                        StateResult::Fail(e) => {
                            return Err(e);
                        },
                    }
                    let ghost before = events@;
                    if cur != next {
                        let end = self.states[cur].end_capture;
                        if end != CaptureAction::Nothing {
                            events.push((end, i));
                        }
                        let start = self.states[next].start_capture;
                        if start != CaptureAction::Nothing {
                            events.push((start, i));
                        }
                    }
                    assert(events@ =~= before + captures(t, cur, next, i));
                    self.current_state = next;
                },
            }
            i += 1;
        }
        Ok(ParseStatus::Incompleted)
    }

    /// The state that follows `state` on the byte `b`, if a transition
    /// takes it.
    pub fn process_byte(&self, state: usize, b: &u8) -> (r: Option<usize>)
        requires
            table_wf(self.table()),
            state < self.states@.len(),
        ensures
            r == transition(self.table(), state, *b),
            r matches Some(n) ==> n < self.states@.len(),
    {
        let nexts = self.states[state].next_states;
        let ghost t = self.table();
        let mut j: usize = 0;
        while j < nexts.len()
            invariant
                j <= nexts@.len(),
                t == self.table(),
                table_wf(t),
                state < self.states@.len(),
                nexts@ == t[state as int].next_states,
                transition(t, state, *b) == first_match(t, nexts@, *b, j as int),
            decreases nexts@.len() - j,
        {
            let s = nexts[j];
            if self.states[s].matches(b) {
                return Some(s);
            }
            j += 1;
        }
        None
    }
}

/// The request that is being filled, and the start that was reported last.
pub struct CaptureState {
    pub marker: (CaptureAction, usize),
    pub req: RawRequestView,
}

/// What one report does. The start of a part is noted. The end of a part
/// whose start was noted last, at or before it, stores the bytes between the
/// two in the request; any other end is an error and changes nothing.
pub open spec fn apply_capture(st: CaptureState, buf: Seq<u8>, c: CaptureAction, pos: usize) -> Result<
    CaptureState,
    ParseError,
> {
    if start_of(c) == CaptureAction::Nothing {
        Ok(CaptureState { marker: (c, pos), req: st.req })
    } else if st.marker.0 != start_of(c) || st.marker.1 > pos || pos > buf.len() || (c
        == CaptureAction::EndHeaderValue && st.req.headers.len() == 0) {
        Err(ParseError::ErrState)
    } else {
        let part = buf.subrange(st.marker.1 as int, pos as int);
        let req = match c {
            CaptureAction::EndMethod => RawRequestView { method: part, ..st.req },
            CaptureAction::EndRequestTaget => RawRequestView { uri: part, ..st.req },
            CaptureAction::EndHttpVersion => RawRequestView { version: part, ..st.req },
            CaptureAction::EndHeaderName => RawRequestView {
                headers: st.req.headers.push(
                    HeaderView { ty: HeaderType::Keep, name: part, value: Seq::empty() },
                ),
                ..st.req
            },
            _ => RawRequestView {
                headers: st.req.headers.update(
                    st.req.headers.len() - 1,
                    HeaderView { value: part, ..st.req.headers.last() },
                ),
                ..st.req
            },
        };
        Ok(CaptureState { marker: st.marker, req })
    }
}

/// What the reports from position `i` on do, one after the other, up to the
/// first that is an error: the state then, and whether all were applied.
pub open spec fn apply_captures(
    st: CaptureState,
    buf: Seq<u8>,
    events: Seq<(CaptureAction, usize)>,
    i: int,
) -> (CaptureState, bool)
    decreases events.len() - i,
{
    if i < 0 || i >= events.len() {
        (st, true)
    } else {
        match apply_capture(st, buf, events[i].0, events[i].1) {
            Err(_) => (st, false),
            Ok(next) => apply_captures(next, buf, events, i + 1),
        }
    }
}

/// The table-driven parser: the automaton, and the start reported last.
#[derive(Debug)]
pub struct Parser {
    pub nfa: StaticNFA,
    pub state: (CaptureAction, usize),
}

impl Parser {
    /// A parser over the request automaton, at its first state.
    pub fn new() -> (p: Self)
        ensures
            p.nfa.wf(),
            is_request_automaton(p.nfa.table()),
            captures_paired(p.nfa.table()),
            p.nfa.current_state == 0,
            p.state == (CaptureAction::Nothing, 0usize),
    {
        Parser {
            nfa: StaticNFA { states: req_nfa_states(), current_state: 0 },
            state: (CaptureAction::Nothing, 0),
        }
    }

    /// Takes one report of the automaton into the request.
    pub fn capture<'a>(
        &mut self,
        buf: &'a [u8],
        req: &mut RawRequest<'a>,
        c: CaptureAction,
        pos: usize,
    ) -> (r: Result<ParseStatus, ParseError>)
        ensures
            final(self).nfa == old(self).nfa,
            match apply_capture(CaptureState { marker: old(self).state, req: old(req)@ }, buf@, c, pos) {
                Ok(st) => r == Ok::<ParseStatus, ParseError>(ParseStatus::Incompleted)
                    && final(self).state == st.marker && final(req)@ == st.req,
                Err(e) => r == Err::<ParseStatus, ParseError>(e) && final(self).state == old(
                    self,
                ).state && final(req)@ == old(req)@,
            },
    {
        let (opened, from) = self.state;
        match c {
            CaptureAction::EndMethod => {
                if opened != CaptureAction::StartMethod || from > pos || pos > buf.len() {
                    return Err(ParseError::ErrState);
                }
                req.method = slice_subrange(buf, from, pos);
            },
            CaptureAction::EndRequestTaget => {
                if opened != CaptureAction::StartRequestTaget || from > pos || pos > buf.len() {
                    return Err(ParseError::ErrState);
                }
                req.uri = slice_subrange(buf, from, pos);
            },
            CaptureAction::EndHttpVersion => {
                if opened != CaptureAction::StartHttpVersion || from > pos || pos > buf.len() {
                    return Err(ParseError::ErrState);
                }
                req.version = slice_subrange(buf, from, pos);
            },
            CaptureAction::EndHeaderName => {
                if opened != CaptureAction::StartHeaderName || from > pos || pos > buf.len() {
                    return Err(ParseError::ErrState);
                }
                req.add_header_name(slice_subrange(buf, from, pos));
            },
            CaptureAction::EndHeaderValue => {
                if opened != CaptureAction::StartHeaderValue || from > pos || pos > buf.len()
                    || req.headers.len() == 0 {
                    return Err(ParseError::ErrState);
                }
                req.add_header_value(slice_subrange(buf, from, pos));
            },
            _ => {
                self.state = (c, pos);
            },
        }
        Ok(ParseStatus::Incompleted)
    }

    /// Parses a request head from the start of `buf`: runs the automaton from
    /// its first state and fills `req` from what it reports.
    ///
    /// The result is that of the run, unless a report could not be applied:
    /// then it is `ErrState`, and `req` holds what was applied before.
    pub fn parse<'a>(&mut self, buf: &'a [u8], req: &mut RawRequest<'a>) -> (r: Result<
        ParseStatus,
        ParseError,
    >)
        requires
            old(self).nfa.wf(),
        ensures
            final(self).nfa.wf(),
            final(self).nfa.states == old(self).nfa.states,
            ({
                let walk = run(old(self).nfa.table(), 0, buf@, 0, Seq::empty());
                let fill = apply_captures(
                    CaptureState { marker: (CaptureAction::Nothing, 0), req: old(req)@ },
                    buf@,
                    walk.events,
                    0,
                );
                &&& final(self).nfa.current_state == walk.state
                &&& final(self).state == fill.0.marker
                &&& final(req)@ == fill.0.req
                &&& r == if fill.1 {
                    walk.outcome
                } else {
                    Err(ParseError::ErrState)
                }
            }),
    {
        self.nfa.current_state = 0;
        self.state = (CaptureAction::Nothing, 0);
        let ghost walk = run(self.nfa.table(), 0, buf@, 0, Seq::empty());
        let ghost first = CaptureState { marker: (CaptureAction::Nothing, 0), req: req@ };
        let mut events: Vec<(CaptureAction, usize)> = Vec::new();
        let outcome = self.nfa.process(buf, 0, &mut events);
        let mut i: usize = 0;
        while i < events.len()
            invariant
                i <= events@.len(),
                self.nfa.wf(),
                self.nfa.states == old(self).nfa.states,
                self.nfa.current_state == walk.state,
                events@ == walk.events,
                outcome == walk.outcome,
                walk == run(old(self).nfa.table(), 0, buf@, 0, Seq::empty()),
                first == (CaptureState { marker: (CaptureAction::Nothing, 0), req: old(req)@ }),
                apply_captures(first, buf@, events@, 0) == apply_captures(
                    CaptureState { marker: self.state, req: req@ },
                    buf@,
                    events@,
                    i as int,
                ),
            decreases events@.len() - i,
        {
            let (c, pos) = events[i];
            if self.capture(buf, req, c, pos).is_err() {
                return Err(ParseError::ErrState);
            }
            i += 1;
        }
        outcome
    }
}

} // verus!
