//! The decisions of a connection: what the reader does with the bytes it
//! has, in which order requests are handled and answered, and when the
//! writer stops.
//!
//! Nothing here waits or touches a stream. Whoever runs the connection reads
//! into the reader's buffer, carries requests and responses between the
//! tasks, and asks these functions what to do next.

use bytes::{Buf, Bytes, BytesMut};
use vstd::prelude::*;
use crate::body::{Body, BodyView};
use crate::buffer::{buffer_contents, buffer_slice, bytes_contents};
use crate::chunked::{spec_decode, ChunkEvent, ChunkState, ChunkStep, ChunkedDecoder};
use crate::error::{Cause, Error, ErrorKind, IoFailure};
use crate::framing::{spec_keep_alive, spec_request_framing};
use crate::grammar::spec_parse_request;
use crate::header_model::map_wf;
use crate::http::{
    spec_collect, spec_method, spec_version, ContentLength, Request, RequestInfo,
};
use crate::parser::{headers_of, parse_request, ParseError, RawRequest};

verus! {

/// The room that the read buffer starts with.
pub const BUF_INIT_CAPACITY: usize = 4 * 1024 + 64;

/// The most bytes that may gather in the buffer before a head is complete.
pub const MAX_HEADER_SIZE: usize = 4 * 1024;

/// How many parsed requests may wait for the handler.
pub const REQUEST_CHANNEL_CAPACITY: usize = 1;

/// How many responses may wait for the writer.
pub const RESPONSE_CHANNEL_CAPACITY: usize = 1;

/// What the reader found at the front of its buffer.
#[derive(Debug)]
pub enum HeaderStep {
    /// A request head; its bytes are out of the buffer.
    Request(Request),
    /// The head is not complete: read more into the buffer and ask again.
    NeedMore,
    /// The connection cannot go on.
    Failed(Error),
}

/// What is left to take in of the body of the request at hand.
#[derive(Debug)]
pub enum BodyProgress {
    /// Nothing.
    Done,
    /// This many bytes.
    Sized(u64),
    /// A chunked body, decoded as far as the decoder says.
    Chunked(ChunkedDecoder),
    /// All that comes until the stream ends.
    UntilClose,
}

/// One step of taking in a body.
#[derive(Debug)]
pub enum BodyStep {
    /// The next piece, to be handed to the body; then ask again.
    Data(Bytes),
    /// The buffer is used up: read more into it and ask again.
    NeedMore,
    /// The body is complete.
    End,
    /// The connection cannot go on; the body is owed the error.
    Failed(Error),
}

/// What the bytes `input` hold of a body of which `need` bytes are to come:
/// its next `need` bytes, or all of them when they are fewer.
pub open spec fn spec_sized_body(need: u64, input: Seq<u8>) -> Seq<u8> {
    if need <= input.len() {
        input.take(need as int)
    } else {
        input
    }
}

/// A body of known length does not depend on how the stream was cut into
/// reads: what `a` with `b` behind it holds of the body is what `a` holds
/// of it and then what `b` holds of the rest; when `a` holds all of it, what
/// comes behind changes nothing.
pub proof fn lemma_sized_body_of_reads(need: u64, a: Seq<u8>, b: Seq<u8>)
    ensures
        spec_sized_body(need, a + b) == if need <= a.len() {
            spec_sized_body(need, a)
        } else {
            a + spec_sized_body((need - a.len()) as u64, b)
        },
{
    if need <= a.len() {
        assert((a + b).take(need as int) =~= a.take(need as int));
    } else if need <= a.len() + b.len() {
        assert((a + b).take(need as int) =~= a + b.take(need - a.len()));
    }
}

/// The error of a head or a body that breaks the protocol.
pub open spec fn protocol_error(e: ParseError) -> Error {
    Error { kind: ErrorKind::Protocol, cause: Cause::Parse(e) }
}

/// The reading side of a connection: the bytes that were read and not yet
/// used.
#[derive(Debug)]
pub struct StreamReader {
    pub buffer: BytesMut,
}

impl StreamReader {
    /// A reader with an empty buffer.
    pub fn new() -> (r: Self)
        ensures
            buffer_contents(r.buffer) == Seq::<u8>::empty(),
    {
        StreamReader { buffer: BytesMut::with_capacity(BUF_INIT_CAPACITY) }
    }

    /// Tries to take a request head off the front of the buffer.
    ///
    /// A complete head leaves the buffer, whether or not its framing is
    /// accepted; `info` then says how the body is framed. A head that is not
    /// complete stays, and is too large once the buffer holds more than
    /// `MAX_HEADER_SIZE` bytes.
    pub fn read_request_header(&mut self, info: &mut RequestInfo) -> (r: HeaderStep)
        ensures
            match spec_parse_request(buffer_contents(old(self).buffer)) {
                Ok(l) => {
                    let s = buffer_contents(old(self).buffer);
                    let hs = headers_of(s, l.headers);
                    &&& buffer_contents(final(self).buffer) == s.skip(l.len)
                    &&& match spec_request_framing(hs) {
                        Ok(f) => r matches HeaderStep::Request(req) && req.method@ == spec_method(
                            l.method.of(s),
                        ) && req.uri@ == l.uri.of(s) && req.version@ == spec_version(
                            l.version.of(s),
                        ) && req.header_map@ == spec_collect(hs) && map_wf(req.header_map@)
                            && req.body@ == BodyView::Empty && final(info).content_length
                            == f.content_length && final(info).should_close == f.should_close
                            && final(info).keep_alive == spec_keep_alive(
                            spec_version(l.version.of(s)),
                            hs,
                        ),
                        Err(e) => r matches HeaderStep::Failed(err) && err == protocol_error(e)
                            && *final(info) == *old(info),
                    }
                },
                Err(e) => {
                    &&& buffer_contents(final(self).buffer) == buffer_contents(old(self).buffer)
                    &&& *final(info) == *old(info)
                    &&& if e != ParseError::Incomplete {
                        r matches HeaderStep::Failed(err) && err == protocol_error(e)
                    } else if buffer_contents(old(self).buffer).len() > MAX_HEADER_SIZE {
                        r matches HeaderStep::Failed(err) && err == protocol_error(
                            ParseError::TooLarge,
                        )
                    } else {
                        r is NeedMore
                    }
                },
            },
    {
        let mut req = RawRequest::new();
        let parsed = parse_request(buffer_slice(&self.buffer), &mut req);
        match parsed {
            Ok(n) => {
                let ret = Request::from_raw_request(req, info);
                self.buffer.advance(n);
                match ret {
                    Ok(request) => HeaderStep::Request(request),
                    Err(err) => HeaderStep::Failed(err),
                }
            },
            Err(ParseError::Incomplete) => {
                if self.buffer.len() > MAX_HEADER_SIZE {
                    HeaderStep::Failed(
                        Error::new(ErrorKind::Protocol, Cause::Parse(ParseError::TooLarge)),
                    )
                } else {
                    HeaderStep::NeedMore
                }
            },
            Err(err) => HeaderStep::Failed(Error::new(ErrorKind::Protocol, Cause::Parse(err))),
        }
    }

    /// The body that goes with a request of this framing, and what is left
    /// to take in of it.
    ///
    /// A request without a body gets an empty one. A body of a known length
    /// that the buffer holds whole is cut out of the buffer and handed over
    /// as one piece. Every other body is fed through a channel.
    pub fn build_request_body(&mut self, info: &RequestInfo) -> (r: (Body, BodyProgress))
        ensures
            ({
                let s = buffer_contents(old(self).buffer);
                match info.content_length {
                    ContentLength::NoBody => r.0@ == BodyView::Empty && r.1 is Done
                        && buffer_contents(final(self).buffer) == s,
                    ContentLength::Sized(len) => if len == 0 {
                        r.0@ == BodyView::Empty && r.1 is Done && buffer_contents(
                            final(self).buffer,
                        ) == s
                    } else if len <= s.len() {
                        r.0@ == BodyView::Once(s.take(len as int)) && r.1 is Done
                            && buffer_contents(final(self).buffer) == s.skip(len as int)
                    } else {
                        r.0@ == BodyView::Channel && r.1 == BodyProgress::Sized(len)
                            && buffer_contents(final(self).buffer) == s
                    },
                    ContentLength::Chunked => r.1 matches BodyProgress::Chunked(d) && d.state == (
                    ChunkState::Size { size: 0, digits: false }) && r.0@ == BodyView::Channel
                        && buffer_contents(final(self).buffer) == s,
                    ContentLength::UntilClose => r.0@ == BodyView::Channel && r.1 is UntilClose
                        && buffer_contents(final(self).buffer) == s,
                }
            }),
    {
        match info.content_length {
            ContentLength::NoBody => (Body::empty(), BodyProgress::Done),
            ContentLength::UntilClose => (Body::channel(), BodyProgress::UntilClose),
            ContentLength::Sized(len) => {
                if len == 0 {
                    (Body::empty(), BodyProgress::Done)
                } else if self.buffer.len() as u64 >= len {
                    let data = self.buffer.split_to(len as usize).freeze();
                    (Body::with_bytes(data), BodyProgress::Done)
                } else {
                    (Body::channel(), BodyProgress::Sized(len))
                }
            },
            ContentLength::Chunked => (
                Body::channel(),
                BodyProgress::Chunked(ChunkedDecoder::new()),
            ),
        }
    }

    /// Takes the next piece of the body out of the buffer.
    ///
    /// Of a body of known length it hands out what the buffer holds, up to
    /// what is left, and counts it off. A chunked body is decoded. A body
    /// that runs until the stream ends gets all that the buffer holds.
    pub fn read_request_body(&mut self, progress: &mut BodyProgress) -> (r: BodyStep)
        ensures
            ({
                let s = buffer_contents(old(self).buffer);
                let rest = buffer_contents(final(self).buffer);
                match *old(progress) {
                    BodyProgress::Done => r is End && rest == s && *final(progress) is Done,
                    BodyProgress::Sized(need) => if need == 0 {
                        r is End && rest == s && *final(progress) is Done
                    } else if s.len() == 0 {
                        r is NeedMore && rest == s && *final(progress) == *old(progress)
                    } else {
                        let piece = spec_sized_body(need, s);
                        r matches BodyStep::Data(d) && bytes_contents(d) == piece && rest
                            == s.skip(piece.len() as int) && *final(progress)
                            == BodyProgress::Sized((need - piece.len()) as u64)
                    },
                    BodyProgress::Chunked(decoder) => {
                        let run = spec_decode(decoder.state, s, 0);
                        &&& rest == s.skip(run.consumed)
                        &&& *final(progress) matches BodyProgress::Chunked(after) && after.state
                            == run.state
                        &&& match run.event {
                            ChunkEvent::Data(bytes) => r matches BodyStep::Data(d)
                                && bytes_contents(d) == bytes,
                            ChunkEvent::NeedMore => r is NeedMore,
                            ChunkEvent::End => r is End,
                            ChunkEvent::Failed(e) => r matches BodyStep::Failed(err) && err
                                == protocol_error(e),
                        }
                    },
                    BodyProgress::UntilClose => *final(progress) is UntilClose && if s.len() == 0 {
                        r is NeedMore && rest == s
                    } else {
                        r matches BodyStep::Data(d) && bytes_contents(d) == s && rest
                            == Seq::<u8>::empty()
                    },
                }
            }),
    {
        match progress {
            BodyProgress::Done => BodyStep::End,
            BodyProgress::Sized(need) => {
                let left = *need;
                let held = self.buffer.len();
                if left == 0 {
                    *progress = BodyProgress::Done;
                    BodyStep::End
                } else if held == 0 {
                    BodyStep::NeedMore
                } else if left <= held as u64 {
                    let data = self.buffer.split_to(left as usize).freeze();
                    *need = 0;
                    BodyStep::Data(data)
                } else {
                    let data = self.buffer.split().freeze();
                    *need = left - held as u64;
                    BodyStep::Data(data)
                }
            },
            BodyProgress::Chunked(decoder) => match decoder.decode(&mut self.buffer) {
                ChunkStep::Data(d) => BodyStep::Data(d),
                ChunkStep::NeedMore => BodyStep::NeedMore,
                ChunkStep::End => BodyStep::End,
                ChunkStep::Failed(e) => BodyStep::Failed(
                    Error::new(ErrorKind::Protocol, Cause::Parse(e)),
                ),
            },
            BodyProgress::UntilClose => {
                if self.buffer.len() == 0 {
                    BodyStep::NeedMore
                } else {
                    BodyStep::Data(self.buffer.split().freeze())
                }
            },
        }
    }

    /// What the end of the stream means while a head is awaited: between
    /// requests, with nothing in the buffer, the connection ends in order;
    /// in the middle of a head the peer has broken off.
    pub fn end_of_stream(&self) -> (r: Result<(), Error>)
        ensures
            r == if buffer_contents(self.buffer).len() == 0 {
                Ok::<(), Error>(())
            } else {
                Err(Error { kind: ErrorKind::Io, cause: Cause::Io(IoFailure::ConnectionReset) })
            },
    {
        if self.buffer.len() == 0 {
            Ok(())
        } else {
            Err(Error::new(ErrorKind::Io, Cause::Io(IoFailure::ConnectionReset)))
        }
    }
}

impl BodyProgress {
    /// What the end of the stream means for the body at hand: a body that
    /// runs until then, or of which nothing is left, is complete; any other
    /// is cut short, and the one who reads it is owed the error.
    pub fn end_of_stream(&self) -> (r: Result<(), Error>)
        ensures
            r == if self.complete_at_end() {
                Ok::<(), Error>(())
            } else {
                Err(Error { kind: ErrorKind::Io, cause: Cause::Io(IoFailure::ConnectionReset) })
            },
    {
        let complete = match self {
            BodyProgress::Done => true,
            BodyProgress::UntilClose => true,
            BodyProgress::Sized(need) => *need == 0,
            BodyProgress::Chunked(decoder) => match decoder.state {
                ChunkState::End => true,
                _ => false,
            },
        };
        if complete {
            Ok(())
        } else {
            Err(Error::new(ErrorKind::Io, Cause::Io(IoFailure::ConnectionReset)))
        }
    }

    /// Whether nothing of the body is missing when the stream ends here.
    pub open spec fn complete_at_end(&self) -> bool {
        match self {
            BodyProgress::Done => true,
            BodyProgress::UntilClose => true,
            BodyProgress::Sized(need) => *need == 0,
            BodyProgress::Chunked(decoder) => decoder.state is End,
        }
    }
}

} // verus!
