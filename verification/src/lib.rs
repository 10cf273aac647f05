//! A signaling hub for peers that want to set up direct connections with
//! each other.
//!
//! Peers are grouped into named rooms. The hub keeps each room's roster,
//! announces it when somebody joins or leaves, and relays session
//! descriptions from one member to another or to the whole room. No peer is
//! handed what it sent itself.
//!
//! The hub is plain state: whoever shares it between tasks puts it behind a
//! lock, joins and leaves under the write lock, and waits on the channels
//! that `join` hands out.

pub mod broadcast;
pub mod channel;
pub mod clients;
pub mod handshake;
pub mod identity;
pub mod payload;
pub mod router;
pub mod transmit;
