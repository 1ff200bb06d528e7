//! Core of an HTTP/1.x server connection engine: a byte-precise wire parser,
//! the header model, body framing and the decisions of the connection
//! pipeline, each with a machine-checked contract.
//!
//! - `grammar` states the message-head grammar on byte sequences, and proves
//!   that parsing does not depend on how the input arrived; `parser` parses
//!   heads into views of the buffer.
//! - `header_model` and `http` hold the header map and the typed messages;
//!   `framing` decides where a body ends; `wire` states the bytes of a
//!   response head.
//! - `body`, `chunked`, `server` and `pipeline` hold what a connection
//!   decides: how a body is read and fed, and in which order requests are
//!   answered. They never wait: the tasks and channels of a connection belong
//!   to whoever runs it.
//! - `stateparser` is a table-driven parser for request heads, with the
//!   builder of its automaton.
//! - `buffer` states what is relied on of the `bytes` crate.

pub mod ascii;
pub mod body;
pub mod buffer;
pub mod chunked;
pub mod combinators;
pub mod error;
pub mod framing;
pub mod grammar;
pub mod header_model;
pub mod http;
pub mod parser;
pub mod pipeline;
pub mod server;
pub mod stateparser;
pub mod wire;
