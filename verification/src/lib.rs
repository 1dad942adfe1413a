//! Ingestion core of a SQL server daemon.
//!
//! A client connection delivers raw bytes. The core cuts one command out of
//! them at the first statement delimiter, decodes it as text, parses the text
//! into statements and hands each statement on, in order. Everything here is
//! free of I/O: sockets, threads, queues and signals belong to the program
//! that drives these functions.
//!
//! - [`framing`]: where a command ends in a stream of bytes.
//! - [`text`]: lossy decoding of a command.
//! - [`connection`]: the handler of one connection, driven read by read.
//! - [`parser`]: from raw commands to the statements that are handed on.
//! - [`pipeline`]: a connection end to end, and what clients can rely on.
//! - [`shutdown`]: the shutdown flag and what a waiter does.
//! - [`lifecycle`]: the stages of the process from startup to exit.
//! - [`errors`]: what is done about each kind of failure.

pub mod connection;
pub mod errors;
pub mod framing;
pub mod lifecycle;
pub mod parser;
pub mod pipeline;
pub mod shutdown;
pub mod text;
