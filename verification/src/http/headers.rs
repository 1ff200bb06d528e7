//! Names of the headers that decide framing, and the tokens looked for in
//! their values.

use vstd::prelude::*;

verus! {

/// `Content-Length`
pub const CONTENT_LENGTH: [u8; 14] = [
    0x43, 0x6f, 0x6e, 0x74, 0x65, 0x6e, 0x74, 0x2d, 0x4c, 0x65, 0x6e, 0x67, 0x74, 0x68,
];

/// `Transfer-Encoding`
pub const TRANSFER_ENCODING: [u8; 17] = [
    0x54, 0x72, 0x61, 0x6e, 0x73, 0x66, 0x65, 0x72, 0x2d, 0x45, 0x6e, 0x63, 0x6f, 0x64, 0x69, 0x6e,
    0x67,
];

/// `Connection`
pub const CONNECTION: [u8; 10] = [0x43, 0x6f, 0x6e, 0x6e, 0x65, 0x63, 0x74, 0x69, 0x6f, 0x6e];

/// `chunked`
pub const CHUNKED: [u8; 7] = [0x63, 0x68, 0x75, 0x6e, 0x6b, 0x65, 0x64];

/// `close`
pub const CLOSE: [u8; 5] = [0x63, 0x6c, 0x6f, 0x73, 0x65];

/// `keep-alive`
pub const KEEP_ALIVE: [u8; 10] = [0x6b, 0x65, 0x65, 0x70, 0x2d, 0x61, 0x6c, 0x69, 0x76, 0x65];

} // verus!
