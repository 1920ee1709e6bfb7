//! The server's address and the states of its accept loop.
use vstd::prelude::*;

verus! {

/// A server that will listen on a `host:port` address.
#[derive(Debug)]
pub struct Server {
    addr: String,
}

impl View for Server {
    type V = Seq<char>;

    closed spec fn view(&self) -> Seq<char> {
        self.addr@
    }
}

impl Server {
    /// A server for address `addr`; nothing is bound yet.
    pub fn new(addr: String) -> (r: Server)
        ensures
            r@ == addr@,
    {
        Server { addr }
    }

    /// The address to bind.
    pub fn addr(&self) -> (r: &str)
        ensures
            r@ == self@,
    {
        self.addr.as_str()
    }
}

/// The accept loop's state.
#[derive(Clone, Copy, Debug, PartialEq, Eq, Structural)]
pub enum ServerState {
    /// Bound, and accepting connections.
    Listening,
    /// The listening socket failed; the loop has ended.
    Terminated,
}

/// What an accept call gave.
#[derive(Clone, Copy, Debug, PartialEq, Eq, Structural)]
pub enum AcceptEvent {
    /// A connection, handed to its own thread of execution.
    Accepted,
    /// A connection that failed before it was established.
    TransientError,
    /// The listening socket itself failed.
    ListenerFailed,
}

/// The accept loop's next state.
pub open spec fn next_state(s: ServerState, e: AcceptEvent) -> ServerState {
    match (s, e) {
        (ServerState::Listening, AcceptEvent::ListenerFailed) => ServerState::Terminated,
        (ServerState::Listening, _) => ServerState::Listening,
        (ServerState::Terminated, _) => ServerState::Terminated,
    }
}

impl ServerState {
    /// The state entered once the bind has succeeded. A failed bind enters
    /// no state: it is reported to the caller before the loop begins.
    pub fn bound() -> (r: ServerState)
        ensures
            r == ServerState::Listening,
    {
        ServerState::Listening
    }

    /// The state after an accept call. A transient failure keeps the loop
    /// listening; only a failure of the listening socket ends it.
    pub fn on_accept(self, event: AcceptEvent) -> (r: ServerState)
        ensures
            r == next_state(self, event),
    {
        match (self, event) {
            (ServerState::Listening, AcceptEvent::ListenerFailed) => ServerState::Terminated,
            (ServerState::Listening, _) => ServerState::Listening,
            (ServerState::Terminated, _) => ServerState::Terminated,
        }
    }

    /// Whether the loop goes on accepting.
    pub fn is_listening(&self) -> (r: bool)
        ensures
            r == (*self == ServerState::Listening),
    {
        match self {
            ServerState::Listening => true,
            ServerState::Terminated => false,
        }
    }
}

} // verus!
