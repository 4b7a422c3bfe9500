//! Broker-side session bookkeeping: which client owns which
//! subscriptions.  Listening for connections and reading from sockets is
//! transport work and lives outside this crate; the structures here only
//! hold the state the transport layer maintains.

use vstd::prelude::*;

verus! {

/// One connected client and the topics it subscribed to.
#[allow(dead_code)]
struct Connection {
    client_id: String,
    subscriptions: Vec<String>,
}

/// A broker's view of its connected clients.
pub struct Server {
    connections: Vec<Connection>,
}

impl Server {
    /// The number of tracked connections.
    pub closed spec fn spec_connection_count(&self) -> nat {
        self.connections@.len()
    }

    /// A broker that has not yet accepted any connection.
    pub fn new() -> (r: Self)
        ensures
            r.spec_connection_count() == 0,
    {
        Server { connections: Vec::new() }
    }

    /// Stop serving.  Closing sockets and joining listener threads is the
    /// transport layer's task; the codec-facing state needs no teardown.
    pub fn shutdown(&self) {
    }
}

} // verus!
