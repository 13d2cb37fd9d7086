//! Connection descriptors: the transport-tagged handle under which a live
//! session's outbound queue is registered.

use vstd::prelude::*;

verus! {

/// A connection to the server, either directly over TCP (e.g., telnet or
/// a MUD client) or statelessly via an HTTP session.
///
/// Each such connection has its own message queue in the world store. The
/// transport address is carried as plain text so the store itself stays
/// independent of any socket type.
pub enum Connection {
    /// TCP sessions merely need to track the peer address.
    TCP { addr: String },
    /// HTTP sessions track the session ID.
    HTTP { session: String },
}

impl Clone for Connection {
    fn clone(&self) -> (res: Self)
        ensures
            res == *self,
    {
        match self {
            Connection::TCP { addr } => Connection::TCP { addr: addr.clone() },
            Connection::HTTP { session } => Connection::HTTP { session: session.clone() },
        }
    }
}

} // verus!
