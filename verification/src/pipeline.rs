//! The order of requests and responses on a connection.
//!
//! One request is handled at a time: the driver takes a request, calls the
//! handler, hands the response to the writer, and waits until it is written
//! before it takes the next request. Requests are numbered as they are
//! taken, and a response carries the number of the request it answers.

use vstd::prelude::*;

verus! {

/// What the driver of the handler does next.
#[derive(Debug, Clone, Copy, PartialEq, Eq, Structural)]
pub enum Turn {
    /// It waits for a request.
    Receive,
    /// The handler works on a request.
    Handle,
    /// The writer writes the response.
    Write,
    /// The connection has ended.
    Closed,
}

/// What happens to the driver.
#[derive(Debug, Clone, Copy, PartialEq, Eq, Structural)]
pub enum PipelineEvent {
    /// The reader delivered a request.
    Request,
    /// The reader is gone: no request will come.
    ReaderGone,
    /// The handler returned a response.
    Handled,
    /// The writer reports on the response: whether it was written, and
    /// whether the connection ends with it.
    Written { ok: bool, close: bool },
}

/// The driver as the rules see it: its turn, and how many requests were
/// taken and how many responses handed on.
pub struct PipelineView {
    pub turn: Turn,
    pub received: nat,
    pub answered: nat,
}

/// The driver at the start of a connection.
pub open spec fn pipeline_start() -> PipelineView {
    PipelineView { turn: Turn::Receive, received: 0, answered: 0 }
}

/// The driver after the event `e`; `None` when `e` cannot happen in this
/// turn.
pub open spec fn pipeline_step(s: PipelineView, e: PipelineEvent) -> Option<PipelineView> {
    match (s.turn, e) {
        (Turn::Receive, PipelineEvent::Request) => Some(
            PipelineView { turn: Turn::Handle, received: s.received + 1, ..s },
        ),
        (Turn::Receive, PipelineEvent::ReaderGone) => Some(PipelineView { turn: Turn::Closed, ..s }),
        (Turn::Handle, PipelineEvent::Handled) => Some(
            PipelineView { turn: Turn::Write, answered: s.answered + 1, ..s },
        ),
        (Turn::Write, PipelineEvent::Written { ok, close }) => Some(
            PipelineView {
                turn: if ok && !close {
                    Turn::Receive
                } else {
                    Turn::Closed
                },
                ..s
            },
        ),
        _ => None,
    }
}

/// The driver after the events `es`, one after the other.
pub open spec fn pipeline_run(s: PipelineView, es: Seq<PipelineEvent>) -> Option<PipelineView>
    decreases es.len(),
{
    if es.len() == 0 {
        Some(s)
    } else {
        match pipeline_run(s, es.drop_last()) {
            Some(before) => pipeline_step(before, es.last()),
            None => None,
        }
    }
}

/// The numbers of the requests that were taken during `es`, in the order in
/// which they were taken.
pub open spec fn requests_taken(s: PipelineView, es: Seq<PipelineEvent>) -> Seq<nat>
    decreases es.len(),
{
    if es.len() == 0 {
        Seq::empty()
    } else {
        let so_far = requests_taken(s, es.drop_last());
        match pipeline_run(s, es.drop_last()) {
            Some(before) => if before.turn == Turn::Receive && es.last() == PipelineEvent::Request {
                so_far.push(before.received)
            } else {
                so_far
            },
            None => so_far,
        }
    }
}

/// The numbers that the responses handed to the writer during `es` carry,
/// in the order in which they were handed on: each carries the number of
/// the request that the handler worked on.
pub open spec fn responses_sent(s: PipelineView, es: Seq<PipelineEvent>) -> Seq<nat>
    decreases es.len(),
{
    if es.len() == 0 {
        Seq::empty()
    } else {
        let so_far = responses_sent(s, es.drop_last());
        match pipeline_run(s, es.drop_last()) {
            Some(before) => if before.turn == Turn::Handle && es.last() == PipelineEvent::Handled {
                so_far.push((before.received - 1) as nat)
            } else {
                so_far
            },
            None => so_far,
        }
    }
}

/// The numbers `0, 1, ..` up to `n`, not included.
pub open spec fn count_up(n: nat) -> Seq<nat> {
    Seq::new(n, |i: int| i as nat)
}

/// Responses go out in the order in which their requests came in.
///
/// Whatever happens on a connection, the requests taken are numbered
/// `0, 1, 2, ..`, the responses handed to the writer carry the same numbers
/// in the same order, and at most one request is without its response: a
/// request is taken only when every earlier one was answered.
pub proof fn lemma_responses_in_request_order(es: Seq<PipelineEvent>)
    requires
        pipeline_run(pipeline_start(), es) is Some,
    ensures
        ({
            let s = pipeline_run(pipeline_start(), es)->Some_0;
            &&& requests_taken(pipeline_start(), es) == count_up(s.received)
            &&& responses_sent(pipeline_start(), es) == count_up(s.answered)
            &&& s.answered <= s.received <= s.answered + 1
            &&& (s.turn == Turn::Receive ==> s.received == s.answered)
            &&& (s.turn == Turn::Handle ==> s.received == s.answered + 1)
            &&& (s.turn == Turn::Write ==> s.received == s.answered)
        }),
    decreases es.len(),
{
    if es.len() > 0 {
        lemma_responses_in_request_order(es.drop_last());
    }
}

/// The driver of the handler on one connection.
#[derive(Debug)]
pub struct Pipeline {
    turn: Turn,
    received: u64,
    answered: u64,
}

impl View for Pipeline {
    type V = PipelineView;

    closed spec fn view(&self) -> PipelineView {
        PipelineView {
            turn: self.turn,
            received: self.received as nat,
            answered: self.answered as nat,
        }
    }
}

impl Pipeline {
    /// A driver that waits for the first request.
    pub fn new() -> (p: Self)
        ensures
            p@ == pipeline_start(),
    {
        Pipeline { turn: Turn::Receive, received: 0, answered: 0 }
    }

    /// What the driver does next.
    pub fn turn(&self) -> (t: Turn)
        ensures
            t == self@.turn,
    {
        self.turn
    }

    /// Takes what the request channel gave: a request, which gets the next
    /// number, or the news that the reader is gone.
    ///
    /// The result is the number of the request. There is none when the
    /// reader is gone, when it is not the turn to receive, or when the
    /// numbers have run out; then no request is taken, and in the last case
    /// the connection is closed.
    pub fn next(&mut self, arrived: bool) -> (r: Option<u64>)
        ensures
            match pipeline_step(
                old(self)@,
                if arrived {
                    PipelineEvent::Request
                } else {
                    PipelineEvent::ReaderGone
                },
            ) {
                Some(after) => if after.received <= u64::MAX {
                    final(self)@ == after && r == if arrived {
                        Some(old(self)@.received as u64)
                    } else {
                        None
                    }
                } else {
                    final(self)@ == (PipelineView { turn: Turn::Closed, ..old(self)@ }) && r
                        is None
                },
                None => final(self)@ == old(self)@ && r is None,
            },
    {
        match self.turn {
            Turn::Receive => {
                if !arrived {
                    self.turn = Turn::Closed;
                    None
                } else if self.received == u64::MAX {
                    self.turn = Turn::Closed;
                    None
                } else {
                    let number = self.received;
                    self.received = number + 1;
                    self.turn = Turn::Handle;
                    Some(number)
                }
            },
            _ => None,
        }
    }

    /// Takes the response of the handler and gives the number that it
    /// carries to the writer: that of the request that was taken last.
    ///
    /// There is none when the handler was not at work.
    pub fn response(&mut self) -> (r: Option<u64>)
        ensures
            match pipeline_step(old(self)@, PipelineEvent::Handled) {
                Some(after) => if after.answered <= u64::MAX && old(self)@.received > 0 {
                    final(self)@ == after && r == Some((old(self)@.received - 1) as u64)
                } else {
                    final(self)@ == (PipelineView { turn: Turn::Closed, ..old(self)@ }) && r
                        is None
                },
                None => final(self)@ == old(self)@ && r is None,
            },
    {
        match self.turn {
            Turn::Handle => {
                if self.answered == u64::MAX || self.received == 0 {
                    self.turn = Turn::Closed;
                    None
                } else {
                    self.answered = self.answered + 1;
                    self.turn = Turn::Write;
                    Some(self.received - 1)
                }
            },
            _ => None,
        }
    }

    /// Takes the report of the writer. The driver goes on to the next
    /// request when the response was written and the connection stays open;
    /// otherwise the connection has ended.
    ///
    /// The result says whether the driver goes on.
    pub fn written(&mut self, ok: bool, close: bool) -> (r: bool)
        ensures
            match pipeline_step(old(self)@, PipelineEvent::Written { ok, close }) {
                Some(after) => final(self)@ == after && r == (after.turn == Turn::Receive),
                None => final(self)@ == old(self)@ && !r,
            },
    {
        match self.turn {
            Turn::Write => {
                if ok && !close {
                    self.turn = Turn::Receive;
                    true
                } else {
                    self.turn = Turn::Closed;
                    false
                }
            },
            _ => false,
        }
    }
}

/// What happens to the writer.
#[derive(Debug, Clone, Copy, PartialEq, Eq, Structural)]
pub enum WriterEvent {
    /// The reader signalled that the connection is to end.
    Shutdown,
    /// A response arrived to be written.
    Response,
    /// The driver is gone: no response will come.
    DriverGone,
    /// The response at hand went out, or failed to.
    Written { ok: bool },
}

/// What the writer does about it.
#[derive(Debug, Clone, Copy, PartialEq, Eq, Structural)]
pub enum WriterAction {
    /// Write the head and the body of the response, and flush.
    Write,
    /// Tell the driver that the response went out, and wait for the next.
    Acknowledge,
    /// Tell the driver that the write failed, and stop.
    AcknowledgeAndStop,
    /// Stop.
    Stop,
    /// Nothing: the event does not belong here.
    Ignore,
}

/// Where the writer stands.
#[derive(Debug, Clone, Copy, PartialEq, Eq, Structural)]
pub enum WriterState {
    /// It waits for a response or for the shutdown signal.
    Waiting,
    /// It writes a response.
    Writing,
    /// It has stopped.
    Stopped,
}

/// The writer after the event `e`, and what it does.
///
/// While it waits, the shutdown signal and the loss of the driver stop it
/// and a response sets it to write. While it writes, only the outcome of
/// the write counts: after a failed write it stops.
pub open spec fn writer_step(s: WriterState, e: WriterEvent) -> (WriterState, WriterAction) {
    match (s, e) {
        (WriterState::Waiting, WriterEvent::Shutdown) => (WriterState::Stopped, WriterAction::Stop),
        (WriterState::Waiting, WriterEvent::DriverGone) => (WriterState::Stopped, WriterAction::Stop),
        (WriterState::Waiting, WriterEvent::Response) => (WriterState::Writing, WriterAction::Write),
        (WriterState::Writing, WriterEvent::Written { ok }) => if ok {
            (WriterState::Waiting, WriterAction::Acknowledge)
        } else {
            (WriterState::Stopped, WriterAction::AcknowledgeAndStop)
        },
        _ => (s, WriterAction::Ignore),
    }
}

/// The writing side of a connection.
#[derive(Debug)]
pub struct StreamWriter {
    pub state: WriterState,
}

impl StreamWriter {
    /// A writer that waits for the first response.
    pub fn new() -> (w: Self)
        ensures
            w.state == WriterState::Waiting,
    {
        StreamWriter { state: WriterState::Waiting }
    }

    /// Takes an event and says what to do.
    pub fn run(&mut self, event: WriterEvent) -> (action: WriterAction)
        ensures
            (final(self).state, action) == writer_step(old(self).state, event),
    {
        let (state, action) = match (self.state, event) {
            (WriterState::Waiting, WriterEvent::Shutdown) => (
                WriterState::Stopped,
                WriterAction::Stop,
            ),
            (WriterState::Waiting, WriterEvent::DriverGone) => (
                WriterState::Stopped,
                WriterAction::Stop,
            ),
            (WriterState::Waiting, WriterEvent::Response) => (
                WriterState::Writing,
                WriterAction::Write,
            ),
            (WriterState::Writing, WriterEvent::Written { ok }) => {
                if ok {
                    (WriterState::Waiting, WriterAction::Acknowledge)
                } else {
                    (WriterState::Stopped, WriterAction::AcknowledgeAndStop)
                }
            },
            (s, _) => (s, WriterAction::Ignore),
        };
        self.state = state;
        action
    }
}

} // verus!
