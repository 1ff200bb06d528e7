//! The body of a message: a source of bytes that is read piece by piece.
//!
//! A body is empty, or holds one buffer, or is fed through a channel by the
//! reader of the connection. The channel itself belongs to whoever runs the
//! connection; the body knows only that it has one.

use bytes::Bytes;
use vstd::prelude::*;
use crate::buffer::bytes_contents;
use crate::error::Error;

verus! {

/// How many pieces of a body may wait unread in its channel: the reader
/// cannot hand over the next piece before the one before it was taken.
pub const BODY_CHANNEL_CAPACITY: usize = 1;

#[derive(Debug)]
enum Kind {
    Empty,
    Once(Bytes),
    Channel,
}

/// What a body still holds.
pub enum BodyView {
    /// Nothing: a read reports the end.
    Empty,
    /// One buffer: the next read yields it, the one after reports the end.
    Once(Seq<u8>),
    /// What the reader sends through the channel.
    Channel,
}

#[derive(Debug)]
pub struct Body {
    kind: Kind,
}

impl View for Body {
    type V = BodyView;

    closed spec fn view(&self) -> BodyView {
        match self.kind {
            Kind::Empty => BodyView::Empty,
            Kind::Once(b) => BodyView::Once(bytes_contents(b)),
            Kind::Channel => BodyView::Channel,
        }
    }
}

/// What a read of a body comes to before anything is waited for.
#[derive(Debug)]
pub enum BodyRead {
    /// The next piece.
    Data(Bytes),
    /// The body has ended.
    End,
    /// The next message of the channel decides: see `Body::received`.
    Wait,
}

impl Body {
    fn new(kind: Kind) -> (b: Self)
        ensures
            b.kind == kind,
    {
        Body { kind }
    }

    /// A body without bytes.
    pub fn empty() -> (b: Self)
        ensures
            b@ == BodyView::Empty,
    {
        Body::new(Kind::Empty)
    }

    /// A body of one buffer.
    pub fn with_bytes(b: Bytes) -> (body: Self)
        ensures
            body@ == BodyView::Once(bytes_contents(b)),
    {
        Body::new(Kind::Once(b))
    }

    /// A body that is fed through a channel of `BODY_CHANNEL_CAPACITY`.
    pub fn channel() -> (body: Self)
        ensures
            body@ == BodyView::Channel,
    {
        Body::new(Kind::Channel)
    }

    /// Reads the next piece, as far as that needs no waiting.
    ///
    /// An empty body has ended. A body of one buffer yields the buffer and is
    /// empty from then on. A body with a channel stays as it is, and the
    /// next message of the channel is the outcome of the read.
    pub fn data(&mut self) -> (r: BodyRead)
        ensures
            match old(self)@ {
                BodyView::Empty => r is End && final(self)@ == BodyView::Empty,
                BodyView::Once(bytes) => r matches BodyRead::Data(d) && bytes_contents(d) == bytes
                    && final(self)@ == BodyView::Empty,
                BodyView::Channel => r is Wait && final(self)@ == BodyView::Channel,
            },
    {
        match &self.kind {
            Kind::Empty => BodyRead::End,
            Kind::Once(d) => {
                let data = d.clone();
                self.kind = Kind::Empty;
                BodyRead::Data(data)
            },
            Kind::Channel => BodyRead::Wait,
        }
    }

    /// What a message of the channel means to the one who reads the body:
    /// a piece, an error of the sender, or, when the channel is closed, the
    /// end.
    pub fn received(msg: Option<Result<Bytes, Error>>) -> (r: Result<Option<Bytes>, Error>)
        ensures
            r == match msg {
                Some(Ok(d)) => Ok::<Option<Bytes>, Error>(Some(d)),
                Some(Err(e)) => Err(e),
                None => Ok(None),
            },
    {
        match msg {
            Some(Ok(d)) => Ok(Some(d)),
            Some(Err(err)) => Err(err),
            None => Ok(None),
        }
    }
}

} // verus!
