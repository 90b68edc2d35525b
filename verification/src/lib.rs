//! A persistent compiler worker for the Bazel worker protocol.
//!
//! A worker is a long-lived process. It reads framed requests from its
//! standard input, runs the compiler once for each, and writes the framed
//! responses to its standard output; the compiler keeps its incremental
//! state in a cache directory that is the same from one run to the next.
//!
//! This crate holds the decisions of such a worker as functions on plain
//! values, each with a contract that is proved:
//!
//! - `varint`: unsigned LEB128 integers.
//! - `wire`: one field of a message on the wire.
//! - `message`, `codec`: the three messages and their wire layout.
//! - `frame`: cutting a byte stream that arrives in pieces into messages,
//!   and framing a message.
//! - `cache`: the name of the cache directory.
//! - `worker`, `dispatch`: the command line of a request, and the response
//!   that the compiler's outcome becomes.
//! - `session`: the worker loop as a state machine.
//! - `driver`: what a program that drives the loop writes, as a
//!   specification, and the proof that it depends on the stream alone.
//! - `response_file`: the arguments that a response file holds.
//! - `text`: UTF-8 and decimal numbers.
//!
//! Reading the stream, running the compiler and writing the answer are left
//! to the program that drives the loop.

pub mod cache;
pub mod codec;
pub mod dispatch;
pub mod driver;
pub mod frame;
pub mod message;
pub mod response_file;
pub mod session;
pub mod text;
pub mod varint;
pub mod wire;
pub mod worker;

pub use crate::message::{Input, WorkRequest, WorkResponse};
pub use crate::worker::Worker;
