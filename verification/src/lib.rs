//! A verified core for a minimal line-oriented chat client.
//!
//! The crate holds the protocol logic alone: building CRLF-terminated wire
//! commands, framing an inbound byte stream into lines, and dispatching
//! local user input to outbound commands. Socket and console I/O live with
//! the callers.

pub mod dispatch;
pub mod framer;
pub mod wire;
