//! Binary codec and handshake state machine for the `version` / `verack`
//! exchange of a peer-to-peer wire protocol.
//!
//! The functions of this crate are verified by Verus against contracts stated
//! over byte sequences and natural numbers. Three of them are not: they wrap
//! the SHA-256 hash, the UTF-8 check of the standard library and the clock,
//! and Verus takes their contracts on trust.
//!
//! The crate never touches a stream. `handshake::Handshake` says what to
//! write and read next, and the caller reports how that went.

pub mod endian;
pub mod errors;
pub mod handshake;
pub mod ipv4;
pub mod messages;
pub mod types;
