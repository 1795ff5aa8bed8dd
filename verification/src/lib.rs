//! Verified core of a dice-rolling chat relay.
//!
//! Clients connect over a persistent duplex channel, join named rooms and
//! exchange chat lines; a line starting with `!` asks for a randomized dice
//! roll whose results travel with the broadcast message.  This crate holds
//! the verified logic of the system: the dice-notation evaluator, the
//! per-connection session state machine, the per-room membership and roster
//! gather, and the process-wide directory of sessions and rooms.  The
//! transport (websockets, timers, JSON framing) lives outside and drives
//! these types through the actions they return.

pub mod dice;
pub mod greet;
pub mod messages;
pub mod room;
pub mod server;
pub mod session;
