//! Core of a cooperatively scheduled, message-passing network driver.
//!
//! The crate has three parts:
//!
//! * [`native`] — the event contract between a native driver and the
//!   scheduler that polls it: the event types a driver emits, the write-back
//!   capability used to correlate replies, and a tracker that enforces the
//!   correlation discipline.
//! * [`engine`] — a per-interface protocol engine: it owns the sockets and
//!   the outbound link-layer buffer of one interface and turns link activity
//!   into a queue of lifecycle events.
//! * [`manager`] — the network manager: a registry of interfaces, each
//!   pairing one engine with caller-supplied user data, multiplexed into a
//!   single event stream with round-robin fairness, plus durable socket
//!   identifiers that survive across calls.
//!
//! [`addr`] holds the addressing model the routing decisions work on, and
//! [`search`] the first-match scan that the registry, the router and the
//! multiplexer all reduce to.

pub mod addr;
pub mod engine;
pub mod manager;
pub mod native;
pub mod search;
