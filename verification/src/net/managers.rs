use vstd::prelude::*;

verus! {

/// Identifies the host that initiated a disconnect.
#[derive(Debug, Clone, Copy, PartialEq, Eq, Structural)]
pub enum TargetHost {
    /// The local host.
    LocalHost,
    /// The remote host.
    RemoteHost,
}

/// At any given moment, any connection can be only in these states.
/// These states are only managed through `ConnectionManager`, and define behaviour for sending and receiving packets.
/// Only these state transition is allowed:
/// | Old          | New          |
/// | ----------   | ----------   |
/// | Connecting   | Connected    |
/// | Connecting   | Disconnected |
/// | Connected    | Disconnected |
/// If these rules are not satisfied, the change is refused.
/// Each state specifies what can and cannot be done:
/// * Connecting - This is initial state when socket is created, at this moment no packets can be sent or received from user,
/// in this state only `ConnectionManager` is able to receive and sent packets to properly initiate connection.
/// * Connected - Only in this state all packets will be sent or received between peers.
/// * Disconnected - in this state `ConnectionManager` is not able to send or receive any packets. Connection will be destroyed immediatelly.
#[derive(Debug, PartialEq, Clone)]
pub enum ConnectionState {
    Connecting,
    Connected(Vec<u8>),
    Disconnected(TargetHost),
}

/// Whether a connection may move from state `old` to state `new`.
pub open spec fn is_allowed_transition(old: ConnectionState, new: ConnectionState) -> bool {
    ||| old is Connecting && new is Connected
    ||| old is Connecting && new is Disconnected
    ||| old is Connected && new is Disconnected
}

/// The abstract value of a state: its variant, with the data of a connected state as a sequence.
pub open spec fn state_view(s: ConnectionState) -> (u8, Seq<u8>, Option<TargetHost>) {
    match s {
        ConnectionState::Connecting => (0, Seq::empty(), None),
        ConnectionState::Connected(data) => (1, data@, None),
        ConnectionState::Disconnected(host) => (2, Seq::empty(), Some(host)),
    }
}

impl ConnectionState {
    /// A copy of this state.
    fn duplicate(&self) -> (copy: ConnectionState)
        ensures
            state_view(copy) == state_view(*self),
    {
        match self {
            ConnectionState::Connecting => ConnectionState::Connecting,
            ConnectionState::Connected(data) => {
                let mut copy: Vec<u8> = Vec::new();
                let mut i: usize = 0;
                while i < data.len()
                    invariant
                        i <= data.len(),
                        copy@ == data@.take(i as int),
                    decreases data.len() - i,
                {
                    copy.push(data[i]);
                    proof {
                        assert(data@.take(i + 1) =~= data@.take(i as int).push(data[i as int]));
                    }
                    i = i + 1;
                }
                proof {
                    assert(data@.take(data.len() as int) =~= data@);
                }
                ConnectionState::Connected(copy)
            },
            ConnectionState::Disconnected(host) => ConnectionState::Disconnected(*host),
        }
    }

    /// Tries to change current state and returns old state if successfully changed.
    pub fn try_change(&mut self, new: &Self) -> (previous: Option<Self>)
        ensures
            is_allowed_transition(*old(self), *new) ==> (previous matches Some(p) && state_view(p)
                == state_view(*old(self)) && state_view(*final(self)) == state_view(*new)),
            !is_allowed_transition(*old(self), *new) ==> (previous is None && *final(self)
                == *old(self)),
    {
        let allowed = match (&*self, new) {
            (ConnectionState::Connecting, ConnectionState::Connected(_)) => true,
            (ConnectionState::Connecting, ConnectionState::Disconnected(_)) => true,
            (ConnectionState::Connected(_), ConnectionState::Disconnected(_)) => true,
            _ => false,
        };
        if allowed {
            let previous = self.duplicate();
            *self = new.duplicate();
            Some(previous)
        } else {
            None
        }
    }
}

impl Default for ConnectionState {
    fn default() -> (state: ConnectionState)
        ensures
            state is Connecting,
    {
        ConnectionState::Connecting
    }
}

/// Generic error type, that is used by ConnectionManager implementation.
#[derive(Debug, PartialEq, Clone)]
pub enum ConnectionManagerError {
    /// Something really bad has happened, this is not a recoverable error, and the connection should be destroyed.
    Fatal(String),
    /// Something unexpected has happened, but the connection is still in a valid state.
    /// `SocketManager` can decide when to destroy the connection if two many warnings are propagated from the same connection in a short amount of time.
    Warning(String),
}

/// A disconnected connection stays disconnected: no change of state is accepted from it.
pub proof fn lemma_disconnected_is_final(old: ConnectionState, new: ConnectionState)
    requires
        old is Disconnected,
    ensures
        !is_allowed_transition(old, new),
{
}

/// No connection ever goes back to connecting, and none stays in the state it is in.
pub proof fn lemma_transitions_move_forward(old: ConnectionState, new: ConnectionState)
    requires
        is_allowed_transition(old, new),
    ensures
        !(new is Connecting),
        !(old is Disconnected),
        state_view(old).0 < state_view(new).0,
{
}

/// A connection's states, each reached from the one before by an accepted change, only move
/// forward: from connecting to connected to disconnected, so there are at most three.
pub proof fn lemma_transition_sequences_move_forward(states: Seq<ConnectionState>)
    requires
        forall|i: int| 0 <= i < states.len() - 1 ==> is_allowed_transition(#[trigger] states[i], states[i + 1]),
    ensures
        forall|i: int, j: int|
            0 <= i < j < states.len() ==> state_view(#[trigger] states[i]).0 < state_view(#[trigger] states[j]).0,
        states.len() <= 3,
    decreases states.len(),
{
    if states.len() > 1 {
        let rest = states.drop_last();
        assert forall|i: int| 0 <= i < rest.len() - 1 implies is_allowed_transition(#[trigger] rest[i], rest[i + 1]) by {
            assert(rest[i] == states[i] && rest[i + 1] == states[i + 1]);
        }
        lemma_transition_sequences_move_forward(rest);
        let n = states.len() - 1;
        assert(is_allowed_transition(states[n - 1], states[n]));
        lemma_transitions_move_forward(states[n - 1], states[n]);
        assert forall|i: int, j: int| 0 <= i < j < states.len() implies state_view(#[trigger] states[i]).0
            < state_view(#[trigger] states[j]).0 by {
            assert(rest[i] == states[i]);
            if j < n {
                assert(rest[j] == states[j]);
            } else if i < n - 1 {
                assert(rest[n - 1] == states[n - 1]);
            }
        }
        assert(state_view(states[0]).0 >= 0);
        assert(state_view(states[n]).0 <= 2);
        assert(state_view(states[0]).0 + n <= state_view(states[n]).0) by {
            assert forall|k: int| 0 <= k <= n implies state_view(states[0]).0 + k <= state_view(#[trigger] states[k]).0 by {
                lemma_rank_grows(states, k);
            }
        }
    }
}

proof fn lemma_rank_grows(states: Seq<ConnectionState>, k: int)
    requires
        0 <= k < states.len(),
        forall|i: int| 0 <= i < states.len() - 1 ==> is_allowed_transition(#[trigger] states[i], states[i + 1]),
    ensures
        state_view(states[0]).0 + k <= state_view(states[k]).0,
    decreases k,
{
    if k > 0 {
        lemma_rank_grows(states, k - 1);
        assert(is_allowed_transition(states[k - 1], states[k]));
        lemma_transitions_move_forward(states[k - 1], states[k]);
    }
}

} // verus!
