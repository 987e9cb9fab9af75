//! A small key-value cache spoken to over a line-delimited protocol.
//!
//! The crate holds the two halves that carry the design: a decoder that turns
//! the bytes of one read into a command, and a store whose entries may expire.
//! A session ties them together: bytes in, reply bytes out.

pub mod bytes;
pub mod clock;
pub mod command;
pub mod model;
pub mod reply;
pub mod session;
pub mod store;
