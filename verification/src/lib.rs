//! A verified core for a small TCP message relay.
//!
//! Clients connect, send raw byte messages, and the relay fans each message
//! out to every other connected client. A message whose first byte is a
//! reserved sentinel asks the relay to drop the sending connection instead.
//!
//! This crate holds the relay's decisions: which identifier a new connection
//! gets, which peers a message goes to, and which entry a disconnect removes.
//! The sockets themselves, and the event loop that reads from and writes to
//! them, live outside the crate; they keep their writable halves in the same
//! order as the registry here and follow the indices these functions return.

pub mod dispatch;
pub mod reader;
pub mod registry;
