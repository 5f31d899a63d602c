//! The core of a STOMP 1.x client session, without I/O.
//!
//! A session frames the inbound byte stream into heartbeats and frames,
//! dispatches frames to the handlers of subscriptions and receipts, keeps
//! the two heartbeat timers, and, when the transport dies, comes back on a
//! new connection with its subscriptions in place. It never touches a
//! socket or a clock: bytes that came in are handed to it, bytes that are
//! to go out collect in its outbox, and every call that depends on the time
//! is told the time. The caller owns the socket and runs the loop.
//!
//! Every function carries a contract over a mathematical model of its
//! data, and Verus checks the code against it:
//!
//! * [`bytes`]: searching and copying byte strings, decimal numbers.
//! * [`header`], [`frame`]: headers and frames, and the wire form of a
//!   frame.
//! * [`codec`]: the grammar of the inbound stream, with the laws that tie
//!   reading to writing.
//! * [`frame_buffer`]: the accumulator that hands out transmissions.
//! * [`registry`]: the table behind subscriptions and pending receipts.
//! * [`timer`]: the timer table.
//! * [`subscription`], [`session`]: subscriptions, handlers, and the session
//!   itself.
//! * [`model`]: the session's mathematical value, and what each of its
//!   operations makes of that value.
//! * [`message_builder`], [`subscription_builder`], [`transaction`]: the
//!   fluent ways to send, to subscribe, and to group messages.
//! * [`connection`]: the opening handshake, as far as the session depends
//!   on it.

pub mod bytes;
pub mod header;
pub mod subscription;
pub mod frame;
pub mod codec;
pub mod frame_buffer;
pub mod registry;
pub mod timer;
pub mod model;
pub mod session;
pub mod message_builder;
pub mod subscription_builder;
pub mod transaction;
pub mod connection;
