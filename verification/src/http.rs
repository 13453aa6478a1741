//! HTTP server parts.

pub mod connection;
pub mod event_loop;
pub mod message;
pub mod muncher;
pub mod parse;
pub mod reactor;
pub mod reader;
pub mod refusal;
pub mod server;
