//! A wire-protocol engine for a Redis-style key/value server: frames, their
//! byte grammar, an incremental decoder, an encoder, a command parser and an
//! executor over an in-memory store. Every function is verified against a
//! mathematical model of the bytes on the wire.

pub mod backend;
pub mod cmd;
pub mod network;
pub mod resp;
