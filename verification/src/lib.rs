//! The core of a TCP relay, without the sockets.
//!
//! A relay accepts connections on one address and, for each, connects to a
//! fixed destination and copies bytes both ways until either side closes.
//! This crate holds everything such a relay decides: how many bytes may be
//! read from a socket, which bytes a socket is handed next, which sockets
//! are polled for writing, when a connection is torn down, and which handles
//! name its two sockets. The caller owns the sockets and the event loop: it
//! reports what each socket operation yielded and performs the actions it
//! is handed in return.
//!
//! - [`buffer`]: the bounded byte buffer of one direction of a connection.
//! - [`transport`]: a connection pair, its two half-relays and its teardown.
//! - [`table`]: the connection table that gives out and takes back handles.
//! - [`server`]: the dispatcher that routes every notification.
//! - [`event`]: the plain values that cross the boundary to the caller.
//! - [`ring`], [`slots`]: what is assumed of the `bytes` and `slab` crates.
pub mod buffer;
pub mod event;
pub mod ring;
pub mod server;
pub mod slots;
pub mod table;
pub mod transport;
