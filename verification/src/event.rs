//! The plain values that pass between the relay and the code that owns the
//! sockets: what a socket operation yielded, and what is to be done next.
use vstd::prelude::*;

verus! {

/// A socket address as plain numbers: the address of the host as one
/// number, its first octet the most significant, and the port.
#[derive(Clone, Copy, Debug, PartialEq, Eq, Structural)]
#[allow(inconsistent_fields)]
pub enum Address {
    V4 { ip: u32, port: u16 },
    V6 { ip: u128, port: u16, flowinfo: u32, scope_id: u32 },
}

/// The two ends of a relayed connection.
#[derive(Clone, Copy, Debug, PartialEq, Eq, Structural)]
pub enum Side {
    /// The socket that was accepted from the listener.
    Client,
    /// The socket that was connected to the destination.
    Server,
}

impl Side {
    /// The other end of the connection.
    pub open spec fn peer(self) -> Side {
        match self {
            Side::Client => Side::Server,
            Side::Server => Side::Client,
        }
    }
}

/// The readiness kinds a socket is polled for.
#[derive(Clone, Copy, Debug, PartialEq, Eq, Structural)]
pub enum Interest {
    /// Readable and hangup: the interest of a socket with nothing to send.
    Readable,
    /// Readable, writable and hangup: the interest of a socket whose
    /// outgoing buffer holds bytes.
    All,
}

/// One thing the owner of the sockets is asked to do. Sockets are named by
/// the handle they are registered under.
#[derive(Clone, Copy, Debug, PartialEq, Eq, Structural)]
pub enum Action {
    /// Keep the socket of a new connection under `token` and register it
    /// with the event loop, level-triggered.
    Register { token: usize, side: Side, interest: Interest },
    /// Change the interest of a registered socket.
    Reregister { token: usize, interest: Interest },
    /// Shut the socket down in both directions.
    Shutdown { token: usize },
    /// Remove the socket from the event loop and let go of it.
    Deregister { token: usize },
    /// Close the sockets of the connection attempt that is being handled;
    /// none of them was registered.
    Discard,
}

/// What the owner of the sockets is to do when a socket is readable,
/// before it reports back.
#[derive(Clone, Copy, Debug, PartialEq, Eq, Structural)]
pub enum ReadPlan {
    /// The handle is the listener's: accept one pending connection and
    /// connect to `destination`.
    Accept { destination: Address },
    /// The handle is active, one of a connection's: read at most `budget`
    /// bytes from its socket. With a budget of zero the buffer is full,
    /// and the read yields no bytes.
    Read { budget: usize },
    /// The handle is closed or was never given out: the notification is
    /// stale.
    Ignore,
}

/// What a non-blocking read from a socket yielded.
#[derive(Debug, PartialEq, Eq)]
pub enum ReadOutcome {
    /// The read returned these bytes. No bytes, although room was offered,
    /// means that the peer has closed its end.
    Data(Vec<u8>),
    /// Nothing is available right now.
    WouldBlock,
    /// The read failed.
    Failed,
}

/// What a non-blocking write to a socket yielded.
#[derive(Clone, Copy, Debug, PartialEq, Eq, Structural)]
pub enum WriteOutcome {
    /// The socket took this many of the bytes it was handed.
    Written(usize),
    /// The socket takes nothing right now.
    WouldBlock,
    /// The write failed.
    Failed,
}

/// A socket operation failed for good, not merely because the socket was
/// not ready.
#[derive(Clone, Copy, Debug, PartialEq, Eq, Structural)]
pub struct IoError;

/// What accepting a pending connection and connecting to the destination
/// yielded.
#[derive(Clone, Copy, Debug, PartialEq, Eq, Structural)]
pub enum AcceptOutcome {
    /// Both sockets exist.
    Connected,
    /// A client was accepted, but the destination could not be reached.
    ConnectFailed,
    /// No client could be accepted.
    AcceptFailed,
}

/// One notification from the event loop, together with what the socket
/// operation it called for yielded.
#[derive(Debug, PartialEq, Eq)]
pub enum Event {
    /// The listener was readable; a connection was accepted and the
    /// destination was dialled.
    Accepted(AcceptOutcome),
    /// The socket under the handle was readable and was read; the flag
    /// tells whether it reported a hangup.
    Readable(usize, ReadOutcome, bool),
    /// The socket under the handle was writable and was handed its pending
    /// bytes.
    Writable(usize, WriteOutcome),
}

} // verus!
