//! Socket kinds and states tracked beside the protocol stack's sockets.
use vstd::prelude::*;

verus! {

/// The protocol of a socket.
#[derive(Clone, Copy, PartialEq, Eq, Structural)]
pub enum SocketType {
    Tcp,
    Udp,
    Icmp,
}

/// Where a socket is in its life.
#[derive(Clone, Copy, PartialEq, Eq, Structural)]
pub enum SocketState {
    Created,
    Bound,
    Listening,
    Connecting,
    Connected,
    Closed,
}

} // verus!
