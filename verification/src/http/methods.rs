//! The method names and version numbers that a request head is matched
//! against.

use vstd::prelude::*;

verus! {

/// `GET`
pub const GET: [u8; 3] = [0x47, 0x45, 0x54];

/// `HEAD`
pub const HEAD: [u8; 4] = [0x48, 0x45, 0x41, 0x44];

/// `POST`
pub const POST: [u8; 4] = [0x50, 0x4f, 0x53, 0x54];

/// `PUT`
pub const PUT: [u8; 3] = [0x50, 0x55, 0x54];

/// `DELETE`
pub const DELETE: [u8; 6] = [0x44, 0x45, 0x4c, 0x45, 0x54, 0x45];

/// `CONNECT`
pub const CONNECT: [u8; 7] = [0x43, 0x4f, 0x4e, 0x4e, 0x45, 0x43, 0x54];

/// `OPTIONS`
pub const OPTIONS: [u8; 7] = [0x4f, 0x50, 0x54, 0x49, 0x4f, 0x4e, 0x53];

/// `TRACE`
pub const TRACE: [u8; 5] = [0x54, 0x52, 0x41, 0x43, 0x45];

/// `1.0`
pub const VERSION_1_0: [u8; 3] = [0x31, 0x2e, 0x30];

/// `1.1`
pub const VERSION_1_1: [u8; 3] = [0x31, 0x2e, 0x31];

} // verus!
