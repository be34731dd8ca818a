//! Decision logic of a forward HTTP proxy that sources its outbound
//! connections from addresses drawn out of one IPv6 subnet.
//!
//! Everything here works on plain values: bytes in, decisions out. Sockets,
//! timers and task scheduling belong to the program built on top of it.

pub mod address;
pub mod request;
pub mod headers;
pub mod head;
pub mod engine;
pub mod relay;
