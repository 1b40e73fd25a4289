//! The connection table of the SCTP control server: which token each control
//! connection is known by, how readiness events are dispatched to the
//! connections, and when a connection is dropped.
//!
//! Listening and accepting happen on sockets, outside this module:
//! [`SctpControlServer::schedule`] says when to accept, and an accepted
//! connection is handed over with [`SctpControlServer::add_connection`].
use std::collections::HashMap;
use vstd::prelude::*;

verus! {

broadcast use {
    vstd::std_specs::hash::group_hash_axioms,
};

/// Identifies a registered I/O source.
pub type Token = u64;

/// The readiness bits of an I/O event.
pub type Available = u64;

/// Nothing is ready.
pub const NONE: Available = 0x0;

/// Ready for reading.
pub const READ: Available = 0x1;

/// Ready for writing.
pub const WRITE: Available = 0x2;

/// The peer hung up.
pub const HUP: Available = 0x4;

/// A control connection, implemented by the users of the server.
///
/// Each implementation says, with `handled`, how its handlers may change the
/// connection and what they may answer; a handler call is bound to it.
pub trait SctpControlAgent: Sized {
    /// Whether calling `handler` on the connection `before` may leave it as
    /// `after` and answer `keep` (whether to keep the connection).
    spec fn handled(before: Self, handler: Handler, after: Self, keep: bool) -> bool;

    /// Data can be read; returns whether to keep the connection.
    fn handle_read_ready(&mut self) -> (keep: bool)
        ensures
            Self::handled(*old(self), Handler::Read, *final(self), keep),
    ;

    /// Data can be written; returns whether to keep the connection.
    fn handle_write_ready(&mut self) -> (keep: bool)
        ensures
            Self::handled(*old(self), Handler::Write, *final(self), keep),
    ;

    /// The peer hung up; returns whether to keep the connection.
    fn handle_hup(&mut self) -> (keep: bool)
        ensures
            Self::handled(*old(self), Handler::Hup, *final(self), keep),
    ;
}

/// What the server has to do after an I/O event.
#[derive(Clone, Copy, Debug, PartialEq, Eq)]
pub enum ScheduleAction {
    /// The listening socket is ready: accept a connection (when the event has
    /// [`READ`]; see [`accept_ready`]), then listen again.
    Accept { available: Available },
    /// The event was dispatched to the connection it names.
    Dispatched { token: Token },
    /// There was no event.
    Idle,
}

/// The handler that an event is dispatched to.
#[derive(Clone, Copy, Debug, PartialEq, Eq)]
pub enum Handler {
    Read,
    Write,
    Hup,
    /// None of the bits is set: the connection is kept as it is.
    Keep,
}

/// The handler for the readiness bits: reading first, then writing, then hang-up.
pub open spec fn spec_handler_for(available: Available) -> Handler {
    if available & READ != 0 {
        Handler::Read
    } else if available & WRITE != 0 {
        Handler::Write
    } else if available & HUP != 0 {
        Handler::Hup
    } else {
        Handler::Keep
    }
}

/// Which handler the readiness bits select: reading wins whatever else is
/// set, writing wins over hang-up, hang-up is handled only when neither
/// reading nor writing is ready, and the connection is left alone only when
/// none of the three bits is set.
pub proof fn lemma_handler_priority(available: Available)
    ensures
        spec_handler_for(available | READ) == Handler::Read,
        available & READ != 0 ==> spec_handler_for(available) == Handler::Read,
        spec_handler_for(available) == Handler::Write <==> (available & READ == 0 && available & WRITE != 0),
        spec_handler_for(available) == Handler::Hup <==> (available & (READ | WRITE) == 0 && available & HUP != 0),
        spec_handler_for(available) == Handler::Keep <==> available & (READ | WRITE | HUP) == 0,
{
    let a = available;
    assert(1u64 | 2u64 == 3u64 && 1u64 | 2u64 | 4u64 == 7u64) by (bit_vector);
    assert((a | 1u64) & 1u64 != 0) by (bit_vector);
    assert(a & 3u64 == 0 <==> (a & 1u64 == 0 && a & 2u64 == 0)) by (bit_vector);
    assert(a & 7u64 == 0 <==> (a & 1u64 == 0 && a & 2u64 == 0 && a & 4u64 == 0)) by (bit_vector);
}

/// The handler that an event with these readiness bits goes to.
pub fn handler_for(available: Available) -> (h: Handler)
    ensures
        h == spec_handler_for(available),
        available & READ != 0 ==> h == Handler::Read,
        h == Handler::Write <==> (available & READ == 0 && available & WRITE != 0),
        h == Handler::Hup <==> (available & (READ | WRITE) == 0 && available & HUP != 0),
        h == Handler::Keep <==> available & (READ | WRITE | HUP) == 0,
{
    proof {
        lemma_handler_priority(available);
    }
    if available & READ != 0 {
        Handler::Read
    } else if available & WRITE != 0 {
        Handler::Write
    } else if available & HUP != 0 {
        Handler::Hup
    } else {
        Handler::Keep
    }
}

/// Whether an event on the listening socket means a connection can be accepted.
pub fn accept_ready(available: Available) -> (res: bool)
    ensures
        res == (available & READ != 0),
{
    available & READ != 0
}

/// How dispatching an event for `token` changes the connections `before`
/// into `after`: when that connection exists and the event has a bit to
/// handle, its handler runs on it, and the connection as the handler left it
/// stays when the handler answers to keep it, and goes otherwise; in every
/// other case nothing changes. The other connections stay as they are.
pub open spec fn dispatched<T: SctpControlAgent>(before: Map<Token, T>, after: Map<Token, T>, token: Token, available: Available) -> bool {
    &&& forall|t: Token| t != token ==> (#[trigger] after.contains_key(t) <==> before.contains_key(t))
    &&& forall|t: Token| t != token && #[trigger] before.contains_key(t) ==> after[t] == before[t]
    &&& after.contains_key(token) ==> before.contains_key(token)
    &&& (!before.contains_key(token) || spec_handler_for(available) == Handler::Keep) ==> after == before
    &&& (before.contains_key(token) && spec_handler_for(available) != Handler::Keep) ==> exists|
        a: T,
        keep: bool,
    |
        {
            &&& #[trigger] T::handled(before[token], spec_handler_for(available), a, keep)
            &&& after == if keep {
                before.insert(token, a)
            } else {
                before.remove(token)
            }
        }
}

/// The control server's connection table.
pub struct SctpControlServer<T: SctpControlAgent> {
    next_token: Token,
    listener_token: Token,
    connections: HashMap<Token, T>,
}

impl<T: SctpControlAgent> SctpControlServer<T> {
    /// The token of the listening socket.
    pub closed spec fn spec_listener_token(&self) -> Token {
        self.listener_token
    }

    /// The token the next accepted connection gets.
    pub closed spec fn spec_next_token(&self) -> Token {
        self.next_token
    }

    /// The connections, by token.
    pub closed spec fn spec_connections(&self) -> Map<Token, T> {
        self.connections@
    }

    /// The table is well formed: the listener's token comes before every
    /// connection's, and every connection's comes before the next token.
    pub open spec fn wf(&self) -> bool {
        &&& self.spec_listener_token() < self.spec_next_token()
        &&& forall|t: Token| #[trigger]
            self.spec_connections().contains_key(t) ==> self.spec_listener_token() < t
                < self.spec_next_token()
    }

    /// A server whose listening socket has token 0, with no connection yet.
    pub fn new() -> (s: Self)
        ensures
            s.wf(),
            s.spec_listener_token() == 0,
            s.spec_next_token() == 1,
            s.spec_connections() == Map::<Token, T>::empty(),
    {
        let listener_token: Token = 0;
        SctpControlServer {
            next_token: listener_token + 1,
            listener_token,
            connections: HashMap::with_capacity(32),
        }
    }

    /// The token of the listening socket.
    pub fn listener_token(&self) -> (t: Token)
        ensures
            t == self.spec_listener_token(),
    {
        self.listener_token
    }

    /// The token the next accepted connection gets.
    pub fn next_token(&self) -> (t: Token)
        ensures
            t == self.spec_next_token(),
    {
        self.next_token
    }

    /// Whether a connection has this token.
    pub fn has_connection(&self, token: Token) -> (res: bool)
        ensures
            res == self.spec_connections().contains_key(token),
    {
        self.connections.contains_key(&token)
    }

    /// The number of connections.
    pub fn num_connections(&self) -> (n: usize)
        ensures
            n == self.spec_connections().len(),
    {
        self.connections.len()
    }

    /// Registers an accepted connection under the next token, which it
    /// returns; the next token moves on by one.
    pub fn add_connection(&mut self, connection: T) -> (token: Token)
        requires
            old(self).wf(),
            old(self).spec_next_token() < u64::MAX,
        ensures
            final(self).wf(),
            token == old(self).spec_next_token(),
            !old(self).spec_connections().contains_key(token),
            token != old(self).spec_listener_token(),
            final(self).spec_next_token() == old(self).spec_next_token() + 1,
            final(self).spec_listener_token() == old(self).spec_listener_token(),
            final(self).spec_connections() == old(self).spec_connections().insert(token, connection),
    {
        let token: Token = self.next_token;
        self.next_token = self.next_token + 1;
        self.connections.insert(token, connection);
        assert forall|t: Token| #[trigger] self.spec_connections().contains_key(t) implies self.spec_listener_token() < t < self.spec_next_token() by {
            if t != token {
                assert(old(self).spec_connections().contains_key(t));
            }
        }
        token
    }

    /// Dispatches an event to the connection with this token: to its read
    /// handler when the event has [`READ`], else to its write handler for
    /// [`WRITE`], else to its hang-up handler for [`HUP`]. The connection is
    /// dropped when the handler says not to keep it. An event for an unknown
    /// token, or one with none of these bits, changes nothing.
    pub fn handle_data(&mut self, token: Token, available: Available)
        requires
            old(self).wf(),
        ensures
            final(self).wf(),
            final(self).spec_next_token() == old(self).spec_next_token(),
            final(self).spec_listener_token() == old(self).spec_listener_token(),
            dispatched(old(self).spec_connections(), final(self).spec_connections(), token, available),
    {
        let handler = handler_for(available);
        if let Handler::Keep = handler {
            return;
        }
        let ghost before = self.connections@;
        match self.connections.remove(&token) {
            Some(mut connection) => {
                let preserve = match handler {
                    Handler::Read => connection.handle_read_ready(),
                    Handler::Write => connection.handle_write_ready(),
                    Handler::Hup => connection.handle_hup(),
                    Handler::Keep => true,
                };
                let ghost after_handler = connection;
                if preserve {
                    self.connections.insert(token, connection);
                    assert(self.connections@ =~= before.insert(token, after_handler));
                } else {
                    assert(self.connections@ =~= before.remove(token));
                }
                assert(T::handled(before[token], spec_handler_for(available), after_handler, preserve));
                assert(forall|t: Token| t != token && #[trigger] before.contains_key(t) ==> self.connections@[t] == before[t]);
            },
            None => {
                assert(self.connections@ =~= before);
            },
        }
        assert forall|t: Token| #[trigger] self.spec_connections().contains_key(t) implies self.spec_listener_token() < t < self.spec_next_token() by {
            assert(old(self).spec_connections().contains_key(t));
        }
    }

    /// Takes one I/O event (or none): an event on the listening socket asks
    /// the caller to accept; any other is dispatched to its connection.
    pub fn schedule(&mut self, event: Option<(Token, Available)>) -> (action: ScheduleAction)
        requires
            old(self).wf(),
        ensures
            final(self).wf(),
            final(self).spec_next_token() == old(self).spec_next_token(),
            final(self).spec_listener_token() == old(self).spec_listener_token(),
            match event {
                Some((token, available)) => if token == old(self).spec_listener_token() {
                    action == (ScheduleAction::Accept { available })
                        && final(self).spec_connections() == old(self).spec_connections()
                } else {
                    action == (ScheduleAction::Dispatched { token }) && dispatched(
                        old(self).spec_connections(),
                        final(self).spec_connections(),
                        token,
                        available,
                    )
                },
                None => action == ScheduleAction::Idle && final(self).spec_connections()
                    == old(self).spec_connections(),
            },
    {
        match event {
            Some((token, available)) => {
                if token == self.listener_token {
                    ScheduleAction::Accept { available }
                } else {
                    self.handle_data(token, available);
                    ScheduleAction::Dispatched { token }
                }
            },
            None => ScheduleAction::Idle,
        }
    }
}

} // verus!
