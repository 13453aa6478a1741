//! Callback-driven, non-blocking I/O and a small HTTP/1.1 server built on it.
//!
//! The crate holds every decision of the reactors and of the HTTP connections as
//! verified state machines over plain values. It performs no system calls: a driver
//! makes them and hands their results back.

pub mod collections;
pub mod epoll;
pub mod http;
pub mod io;
pub mod logging;
pub mod operation;
pub mod queue;
pub mod schedule;
pub mod sys;
pub mod text;
