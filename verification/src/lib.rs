//! Core of a client library for the Loco wire protocol: length-prefixed,
//! framed commands secured by a handshake-established AES-CFB128 session key.
//!
//! The library is IO-free: sinks and streams operate on caller-supplied byte
//! queues, so the same core can be driven by any transport.

pub mod command;
pub mod io;
pub mod secure;
pub mod vec_buf;
pub mod wire;
