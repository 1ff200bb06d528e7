//! The decoder of a chunked body: a state machine over the bytes of the
//! stream that hands out the data of the chunks and checks what stands
//! between them.

use bytes::{Buf, Bytes, BytesMut};
use vstd::prelude::*;
use crate::ascii::{is_tchar, spec_is_tchar, BYTE_COLON, BYTE_CR, BYTE_LF, BYTE_NUL};
use crate::buffer::{buffer_contents, buffer_slice, bytes_contents};
use crate::parser::ParseError;

verus! {

/// The largest size that a chunk may announce.
pub const MAX_CHUNK_SIZE: u64 = 0x8000_0000;

/// The byte `;`, which starts the extensions of a chunk size.
pub const BYTE_SEMICOLON: u8 = 0x3b;

/// Where the decoder stands in a trailer line.
#[derive(Debug, Clone, Copy, PartialEq, Eq, Structural)]
pub enum TrailerState {
    /// At the start of a line: a name starts, or the empty line that ends
    /// the body.
    LineStart,
    /// In a field name.
    Name,
    /// In a field value.
    Value,
    /// Behind the CR that ends a field.
    ValueLf,
    /// Behind the CR of the empty line.
    EndLf,
}

/// Where the decoder stands in the body.
#[derive(Debug, Clone, Copy, PartialEq, Eq, Structural)]
pub enum ChunkState {
    /// In the hex digits of a chunk size: the size so far, and whether it
    /// has a digit yet.
    Size { size: u64, digits: bool },
    /// In the extensions behind a chunk size, which are passed over.
    SizeExt { size: u64 },
    /// Behind the CR of the size line.
    SizeLf { size: u64 },
    /// In the data of a chunk, with this many bytes of it to come.
    Data { left: u64 },
    /// Behind the data of a chunk: a CR is due.
    DataCr,
    /// Behind that CR: an LF is due.
    DataLf,
    /// In the trailer behind the last chunk.
    Trailer(TrailerState),
    /// Behind the body.
    End,
}

/// The value of a hex digit, if `b` is one.
pub open spec fn spec_hex_value(b: u8) -> Option<u64> {
    if 0x30 <= b <= 0x39 {
        Some((b - 0x30) as u64)
    } else if 0x41 <= b <= 0x46 {
        Some((b - 0x41 + 10) as u64)
    } else if 0x61 <= b <= 0x66 {
        Some((b - 0x61 + 10) as u64)
    } else {
        None
    }
}

/// The state behind the byte `b` in a trailer.
pub open spec fn trailer_step(t: TrailerState, b: u8) -> Result<ChunkState, ParseError> {
    match t {
        TrailerState::LineStart => if b == BYTE_CR {
            Ok(ChunkState::Trailer(TrailerState::EndLf))
        } else if spec_is_tchar(b) {
            Ok(ChunkState::Trailer(TrailerState::Name))
        } else {
            Err(ParseError::BadChunk)
        },
        TrailerState::Name => if b == BYTE_COLON {
            Ok(ChunkState::Trailer(TrailerState::Value))
        } else if spec_is_tchar(b) {
            Ok(ChunkState::Trailer(TrailerState::Name))
        } else {
            Err(ParseError::BadChunk)
        },
        TrailerState::Value => if b == BYTE_CR {
            Ok(ChunkState::Trailer(TrailerState::ValueLf))
        } else if b == BYTE_LF || b == BYTE_NUL {
            Err(ParseError::BadChunk)
        } else {
            Ok(ChunkState::Trailer(TrailerState::Value))
        },
        TrailerState::ValueLf => if b == BYTE_LF {
            Ok(ChunkState::Trailer(TrailerState::LineStart))
        } else {
            Err(ParseError::BadChunk)
        },
        TrailerState::EndLf => if b == BYTE_LF {
            Ok(ChunkState::End)
        } else {
            Err(ParseError::BadChunk)
        },
    }
}

/// The state behind the byte `b`, for a state that is not in the data of a
/// chunk; every byte that the framing does not allow is a `BadChunk`.
pub open spec fn chunk_step(s: ChunkState, b: u8) -> Result<ChunkState, ParseError> {
    match s {
        ChunkState::Size { size, digits } => match spec_hex_value(b) {
            Some(d) => if size * 16 + d > MAX_CHUNK_SIZE {
                Err(ParseError::BadChunk)
            } else {
                Ok(ChunkState::Size { size: (size * 16 + d) as u64, digits: true })
            },
            None => if !digits {
                Err(ParseError::BadChunk)
            } else if b == BYTE_SEMICOLON {
                Ok(ChunkState::SizeExt { size })
            } else if b == BYTE_CR {
                Ok(ChunkState::SizeLf { size })
            } else {
                Err(ParseError::BadChunk)
            },
        },
        ChunkState::SizeExt { size } => if b == BYTE_CR {
            Ok(ChunkState::SizeLf { size })
        } else {
            Ok(ChunkState::SizeExt { size })
        },
        ChunkState::SizeLf { size } => if b != BYTE_LF {
            Err(ParseError::BadChunk)
        } else if size == 0 {
            Ok(ChunkState::Trailer(TrailerState::LineStart))
        } else {
            Ok(ChunkState::Data { left: size })
        },
        ChunkState::Data { left } => Err(ParseError::BadChunk),
        ChunkState::DataCr => if b == BYTE_CR {
            Ok(ChunkState::DataLf)
        } else {
            Err(ParseError::BadChunk)
        },
        ChunkState::DataLf => if b == BYTE_LF {
            Ok(ChunkState::Size { size: 0, digits: false })
        } else {
            Err(ParseError::BadChunk)
        },
        ChunkState::Trailer(t) => trailer_step(t, b),
        ChunkState::End => Err(ParseError::BadChunk),
    }
}

/// What a run of the decoder comes to.
pub enum ChunkEvent {
    /// These bytes of a chunk are handed out.
    Data(Seq<u8>),
    /// The bytes ran out.
    NeedMore,
    /// The body has ended.
    End,
    /// The framing is broken.
    Failed(ParseError),
}

/// How a run of the decoder ended: the state it stands in, how many bytes
/// of the input it took, and what it came to.
pub struct Decoded {
    pub state: ChunkState,
    pub consumed: int,
    pub event: ChunkEvent,
}

/// The run of the decoder from state `s` over `input`, from position `i`
/// on. It passes over framing bytes until it reaches data, the end of the
/// body, the end of the input or a byte that breaks the framing. Of data it
/// hands out as much of the chunk as the input holds.
pub open spec fn spec_decode(s: ChunkState, input: Seq<u8>, i: int) -> Decoded
    decreases input.len() - i,
{
    if s is End {
        Decoded { state: s, consumed: i, event: ChunkEvent::End }
    } else if i < 0 || i >= input.len() {
        Decoded { state: s, consumed: i, event: ChunkEvent::NeedMore }
    } else if let ChunkState::Data { left } = s {
        let k = if left <= input.len() - i {
            left as int
        } else {
            input.len() - i
        };
        Decoded {
            state: if k == left {
                ChunkState::DataCr
            } else {
                ChunkState::Data { left: (left - k) as u64 }
            },
            consumed: i + k,
            event: ChunkEvent::Data(input.subrange(i, i + k)),
        }
    } else {
        match chunk_step(s, input[i]) {
            Err(e) => Decoded { state: s, consumed: i, event: ChunkEvent::Failed(e) },
            Ok(next) => spec_decode(next, input, i + 1),
        }
    }
}

/// The value of the hex digit `b`, if it is one.
pub fn hex_value(b: u8) -> (r: Option<u64>)
    ensures
        r == spec_hex_value(b),
{
    if 0x30 <= b && b <= 0x39 {
        Some((b - 0x30) as u64)
    } else if 0x41 <= b && b <= 0x46 {
        Some((b - 0x41 + 10) as u64)
    } else if 0x61 <= b && b <= 0x66 {
        Some((b - 0x61 + 10) as u64)
    } else {
        None
    }
}

/// One step of a decoder run.
#[derive(Debug)]
pub enum ChunkStep {
    /// The next piece of the body.
    Data(Bytes),
    /// The buffer is used up: read more and decode again.
    NeedMore,
    /// The body has ended.
    End,
    /// The framing is broken: the connection cannot go on.
    Failed(ParseError),
}

/// Whether the step says what the event says.
pub open spec fn step_is(step: ChunkStep, event: ChunkEvent) -> bool {
    match event {
        ChunkEvent::Data(bytes) => step matches ChunkStep::Data(d) && bytes_contents(d) == bytes,
        ChunkEvent::NeedMore => step is NeedMore,
        ChunkEvent::End => step is End,
        ChunkEvent::Failed(e) => step matches ChunkStep::Failed(f) && f == e,
    }
}

/// The decoder of one chunked body.
#[derive(Debug)]
pub struct ChunkedDecoder {
    pub state: ChunkState,
}

impl ChunkedDecoder {
    /// A decoder at the start of a body.
    pub fn new() -> (d: Self)
        ensures
            d.state == (ChunkState::Size { size: 0, digits: false }),
    {
        ChunkedDecoder { state: ChunkState::Size { size: 0, digits: false } }
    }

    /// The state behind the byte `b`.
    pub fn step(state: ChunkState, b: u8) -> (r: Result<ChunkState, ParseError>)
        ensures
            r == chunk_step(state, b),
    {
        match state {
            ChunkState::Size { size, digits } => match hex_value(b) {
                Some(d) => {
                    if size > MAX_CHUNK_SIZE || size * 16 + d > MAX_CHUNK_SIZE {
                        Err(ParseError::BadChunk)
                    } else {
                        Ok(ChunkState::Size { size: size * 16 + d, digits: true })
                    }
                },
                None => {
                    if !digits {
                        Err(ParseError::BadChunk)
                    } else if b == BYTE_SEMICOLON {
                        Ok(ChunkState::SizeExt { size })
                    } else if b == BYTE_CR {
                        Ok(ChunkState::SizeLf { size })
                    } else {
                        Err(ParseError::BadChunk)
                    }
                },
            },
            ChunkState::SizeExt { size } => {
                if b == BYTE_CR {
                    Ok(ChunkState::SizeLf { size })
                } else {
                    Ok(ChunkState::SizeExt { size })
                }
            },
            ChunkState::SizeLf { size } => {
                if b != BYTE_LF {
                    Err(ParseError::BadChunk)
                } else if size == 0 {
                    Ok(ChunkState::Trailer(TrailerState::LineStart))
                } else {
                    Ok(ChunkState::Data { left: size })
                }
            },
            ChunkState::Data { left } => Err(ParseError::BadChunk),
            ChunkState::DataCr => {
                if b == BYTE_CR {
                    Ok(ChunkState::DataLf)
                } else {
                    Err(ParseError::BadChunk)
                }
            },
            ChunkState::DataLf => {
                if b == BYTE_LF {
                    Ok(ChunkState::Size { size: 0, digits: false })
                } else {
                    Err(ParseError::BadChunk)
                }
            },
            ChunkState::Trailer(t) => match t {
                TrailerState::LineStart => {
                    if b == BYTE_CR {
                        Ok(ChunkState::Trailer(TrailerState::EndLf))
                    } else if is_tchar(b) {
                        Ok(ChunkState::Trailer(TrailerState::Name))
                    } else {
                        Err(ParseError::BadChunk)
                    }
                },
                TrailerState::Name => {
                    if b == BYTE_COLON {
                        Ok(ChunkState::Trailer(TrailerState::Value))
                    } else if is_tchar(b) {
                        Ok(ChunkState::Trailer(TrailerState::Name))
                    } else {
                        Err(ParseError::BadChunk)
                    }
                },
                TrailerState::Value => {
                    if b == BYTE_CR {
                        Ok(ChunkState::Trailer(TrailerState::ValueLf))
                    } else if b == BYTE_LF || b == BYTE_NUL {
                        Err(ParseError::BadChunk)
                    } else {
                        Ok(ChunkState::Trailer(TrailerState::Value))
                    }
                },
                TrailerState::ValueLf => {
                    if b == BYTE_LF {
                        Ok(ChunkState::Trailer(TrailerState::LineStart))
                    } else {
                        Err(ParseError::BadChunk)
                    }
                },
                TrailerState::EndLf => {
                    if b == BYTE_LF {
                        Ok(ChunkState::End)
                    } else {
                        Err(ParseError::BadChunk)
                    }
                },
            },
            ChunkState::End => Err(ParseError::BadChunk),
        }
    }

    /// Decodes from the front of `buffer` up to the next piece of data, the
    /// end of the body, the end of the buffer or a broken framing, and takes
    /// what it decoded out of the buffer.
    pub fn decode(&mut self, buffer: &mut BytesMut) -> (r: ChunkStep)
        ensures
            final(self).state == spec_decode(
                old(self).state,
                buffer_contents(*old(buffer)),
                0,
            ).state,
            buffer_contents(*final(buffer)) == buffer_contents(*old(buffer)).skip(
                spec_decode(old(self).state, buffer_contents(*old(buffer)), 0).consumed,
            ),
            step_is(r, spec_decode(old(self).state, buffer_contents(*old(buffer)), 0).event),
    {
        let ghost input = buffer_contents(*buffer);
        let ghost goal = spec_decode(self.state, input, 0);
        let len = buffer.len();
        let mut i: usize = 0;
        let mut state = self.state;
        loop
            invariant
                i <= len,
                len == input.len(),
                input == buffer_contents(*buffer),
                input == buffer_contents(*old(buffer)),
                goal == spec_decode(old(self).state, input, 0),
                goal == spec_decode(state, input, i as int),
            decreases len - i,
        {
            if let ChunkState::End = state {
                buffer.advance(i);
                self.state = state;
                return ChunkStep::End;
            }
            if i >= len {
                buffer.advance(i);
                self.state = state;
                return ChunkStep::NeedMore;
            }
            if let ChunkState::Data { left } = state {
                let avail = len - i;
                let k: usize = if left <= avail as u64 {
                    left as usize
                } else {
                    avail
                };
                buffer.advance(i);
                let data = buffer.split_to(k).freeze();
                self.state = if k as u64 == left {
                    ChunkState::DataCr
                } else {
                    ChunkState::Data { left: left - k as u64 }
                };
                proof {
                    assert(input.skip(i as int).take(k as int) =~= input.subrange(
                        i as int,
                        i + k,
                    ));
                }
                return ChunkStep::Data(data);
            }
            let b = buffer_slice(buffer)[i];
            match ChunkedDecoder::step(state, b) {
                Err(e) => {
                    buffer.advance(i);
                    self.state = state;
                    return ChunkStep::Failed(e);
                },
                Ok(next) => {
                    state = next;
                },
            }
            i += 1;
        }
    }
}

/// How the decoding of a stream ended.
pub enum DecodeEnd {
    /// The bytes ran out before the body did.
    NeedMore,
    /// The body has ended.
    End,
    /// The framing is broken.
    Failed(ParseError),
}

/// What a stream of bytes decodes to: the data of its chunks, the state
/// behind the bytes that were taken, how many were taken, and how it ended.
pub struct Decoding {
    pub data: Seq<u8>,
    pub state: ChunkState,
    pub consumed: int,
    pub end: DecodeEnd,
}

/// What the byte `b` is in state `s`: a byte of data of the chunk at hand,
/// when the chunk has data to come, or a byte of the framing that leads to
/// the next state.
pub open spec fn byte_step(s: ChunkState, b: u8) -> Result<(ChunkState, Option<u8>), ParseError> {
    if s is Data && s->left > 0 {
        Ok(
            (
                if s->left == 1 {
                    ChunkState::DataCr
                } else {
                    ChunkState::Data { left: (s->left - 1) as u64 }
                },
                Some(b),
            ),
        )
    } else {
        match chunk_step(s, b) {
            Ok(next) => Ok((next, None)),
            Err(e) => Err(e),
        }
    }
}

/// The body that the bytes of `input` from position `i` on hold, read byte
/// by byte from state `s`: the bytes of data in their order, up to the end
/// of the body, the end of the input or the first byte that breaks the
/// framing. A chunk with no data to come stands behind its data.
pub open spec fn spec_body(s: ChunkState, input: Seq<u8>, i: int) -> Decoding
    decreases input.len() - i, (if s == (ChunkState::Data { left: 0 }) { 1int } else { 0int }),
{
    if s is End {
        Decoding { data: Seq::empty(), state: s, consumed: i, end: DecodeEnd::End }
    } else if i < 0 || i >= input.len() {
        Decoding { data: Seq::empty(), state: s, consumed: i, end: DecodeEnd::NeedMore }
    } else if s == (ChunkState::Data { left: 0 }) {
        spec_body(ChunkState::DataCr, input, i)
    } else {
        match byte_step(s, input[i]) {
            Err(e) => Decoding {
                data: Seq::empty(),
                state: s,
                consumed: i,
                end: DecodeEnd::Failed(e),
            },
            Ok((next, byte)) => {
                let rest = spec_body(next, input, i + 1);
                Decoding {
                    data: match byte {
                        Some(b) => seq![b] + rest.data,
                        None => rest.data,
                    },
                    ..rest
                }
            },
        }
    }
}

/// The body with `data` before it.
pub open spec fn with_data_before(data: Seq<u8>, rest: Decoding) -> Decoding {
    Decoding { data: data + rest.data, ..rest }
}

/// In the data of a chunk the body is as much of the chunk as the input
/// holds, and then what the rest of the input holds.
proof fn lemma_body_in_data(left: u64, input: Seq<u8>, i: int)
    requires
        left > 0,
        0 <= i < input.len(),
    ensures
        ({
            let k = if left <= input.len() - i {
                left as int
            } else {
                input.len() - i
            };
            let after = if k == left {
                ChunkState::DataCr
            } else {
                ChunkState::Data { left: (left - k) as u64 }
            };
            spec_body(ChunkState::Data { left }, input, i) == with_data_before(
                input.subrange(i, i + k),
                spec_body(after, input, i + k),
            )
        }),
    decreases input.len() - i,
{
    let k = if left <= input.len() - i {
        left as int
    } else {
        input.len() - i
    };
    let after = if k == left {
        ChunkState::DataCr
    } else {
        ChunkState::Data { left: (left - k) as u64 }
    };
    let rest = spec_body(after, input, i + k);
    if k == 1 {
        assert(input.subrange(i, i + 1) =~= seq![input[i]]);
    } else {
        lemma_body_in_data((left - 1) as u64, input, i + 1);
        assert(seq![input[i]] + input.subrange(i + 1, i + k) =~= input.subrange(i, i + k));
        assert(seq![input[i]] + (input.subrange(i + 1, i + k) + rest.data) =~= input.subrange(
            i,
            i + k,
        ) + rest.data);
    }
}

/// What a step of the decoder says of the body: the data that it hands out
/// is the start of the body, and the body goes on behind it from the state
/// and the position that the step left; a step that hands out no data ends
/// where the body ends, and as it ends.
pub proof fn lemma_decode_is_body(s: ChunkState, input: Seq<u8>, i: int)
    requires
        0 <= i <= input.len(),
    ensures
        ({
            let d = spec_decode(s, input, i);
            let body = spec_body(s, input, i);
            match d.event {
                ChunkEvent::Data(x) => i <= d.consumed <= input.len() && body == with_data_before(
                    x,
                    spec_body(d.state, input, d.consumed),
                ),
                ChunkEvent::NeedMore => body == (Decoding {
                    data: Seq::empty(),
                    state: d.state,
                    consumed: d.consumed,
                    end: DecodeEnd::NeedMore,
                }),
                ChunkEvent::End => body == (Decoding {
                    data: Seq::empty(),
                    state: d.state,
                    consumed: d.consumed,
                    end: DecodeEnd::End,
                }),
                ChunkEvent::Failed(e) => body == (Decoding {
                    data: Seq::empty(),
                    state: d.state,
                    consumed: d.consumed,
                    end: DecodeEnd::Failed(e),
                }),
            }
        }),
    decreases input.len() - i,
{
    if s is End || i >= input.len() {
    } else if let ChunkState::Data { left } = s {
        if left == 0 {
            let rest = spec_body(ChunkState::DataCr, input, i);
            assert(input.subrange(i, i) + rest.data =~= rest.data);
        } else {
            lemma_body_in_data(left, input, i);
        }
    } else {
        match chunk_step(s, input[i]) {
            Err(e) => {},
            Ok(next) => {
                lemma_decode_is_body(next, input, i + 1);
            },
        }
    }
}

/// The body that stands behind the first `n` bytes of an input is the body
/// of what is behind them, counted from there.
proof fn lemma_body_behind(s: ChunkState, a: Seq<u8>, b: Seq<u8>, j: int)
    requires
        0 <= j <= b.len(),
    ensures
        spec_body(s, a + b, a.len() + j) == (Decoding {
            consumed: a.len() + spec_body(s, b, j).consumed,
            ..spec_body(s, b, j)
        }),
    decreases b.len() - j, (if s == (ChunkState::Data { left: 0 }) { 1int } else { 0int }),
{
    let whole = a + b;
    if s is End || j >= b.len() {
    } else if s == (ChunkState::Data { left: 0 }) {
        lemma_body_behind(ChunkState::DataCr, a, b, j);
    } else {
        assert(whole[a.len() + j] == b[j]);
        match byte_step(s, b[j]) {
            Err(e) => {},
            Ok((next, byte)) => {
                lemma_body_behind(next, a, b, j + 1);
            },
        }
    }
}

/// The body does not depend on how the stream was cut into reads.
///
/// When the bytes `a` run out before the body does, the body of `a` with
/// `b` behind it is the body of `a` and then the body of `b`, read from the
/// state in which `a` ended. When the body ends or breaks within `a`, what
/// comes behind changes nothing, and is not taken.
pub proof fn lemma_body_of_reads(s: ChunkState, a: Seq<u8>, b: Seq<u8>, i: int)
    requires
        0 <= i <= a.len(),
    ensures
        ({
            let first = spec_body(s, a, i);
            let second = spec_body(first.state, b, 0);
            spec_body(s, a + b, i) == if first.end is NeedMore {
                Decoding {
                    data: first.data + second.data,
                    state: second.state,
                    consumed: a.len() + second.consumed,
                    end: second.end,
                }
            } else {
                first
            }
        }),
    decreases a.len() - i, (if s == (ChunkState::Data { left: 0 }) { 1int } else { 0int }),
{
    let whole = a + b;
    let first = spec_body(s, a, i);
    let second = spec_body(first.state, b, 0);
    if s is End {
    } else if i >= a.len() {
        lemma_body_behind(s, a, b, 0);
        assert(first.data + second.data =~= second.data);
    } else if s == (ChunkState::Data { left: 0 }) {
        lemma_body_of_reads(ChunkState::DataCr, a, b, i);
    } else {
        assert(whole[i] == a[i]);
        match byte_step(s, a[i]) {
            Err(e) => {},
            Ok((next, byte)) => {
                lemma_body_of_reads(next, a, b, i + 1);
                let rest = spec_body(next, a, i + 1);
                if rest.end is NeedMore {
                    match byte {
                        Some(x) => {
                            assert(seq![x] + (rest.data + second.data) =~= (seq![x] + rest.data)
                                + second.data);
                        },
                        None => {},
                    }
                }
            },
        }
    }
}

} // verus!
