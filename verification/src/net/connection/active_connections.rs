use vstd::prelude::*;

use crate::config::Config;
use crate::error::ErrorKind;
use crate::net::events::{SocketEvent, SocketEventView};
use crate::net::reliability_system::{
    bytes_view, elapsed, fragmentation_defined, outgoing_contents, reaches_reassembly,
};
use crate::net::virtual_connection::{
    VirtualConnection, connection_updated, drop_due, drop_events, event_processed, events_outcome,
    events_view, packet_processed, sends_view,
};
use crate::packet::{Packet, PacketType, SocketAddress};

verus! {

/// The remote addresses of a list of connections, in order.
pub open spec fn addresses_of(connections: Seq<VirtualConnection>) -> Seq<SocketAddress> {
    connections.map_values(|c: VirtualConnection| c.spec_remote_address())
}

/// Whether `connection` is what a connection to `address` created at `time` under `config`
/// starts as: nothing sent or received, and a fresh reliability state.
pub open spec fn fresh_connection(connection: VirtualConnection, address: SocketAddress, config: Config, time: u64) -> bool {
    &&& connection.spec_remote_address() == address
    &&& connection.state().is_fresh(config, time)
    &&& !connection.has_sent()
    &&& !connection.has_received()
}

/// The addresses of the connections that have been silent for at least `max_idle` at
/// `time`, in order.
pub open spec fn idle_addresses(connections: Seq<VirtualConnection>, max_idle: u64, time: u64) -> Seq<SocketAddress>
    decreases connections.len(),
{
    if connections.len() == 0 {
        Seq::empty()
    } else {
        let rest = idle_addresses(connections.drop_last(), max_idle, time);
        if elapsed(connections.last().state().spec_last_heard(), time) >= max_idle {
            rest.push(connections.last().spec_remote_address())
        } else {
            rest
        }
    }
}

/// The connections, in order, that are not to be dropped at `time` under `config`.
pub open spec fn survivors(connections: Seq<VirtualConnection>, config: Config, time: u64) -> Seq<VirtualConnection>
    decreases connections.len(),
{
    if connections.len() == 0 {
        Seq::empty()
    } else {
        let rest = survivors(connections.drop_last(), config, time);
        if drop_due(connections.last(), config, time) {
            rest
        } else {
            rest.push(connections.last())
        }
    }
}

/// The events for the user of dropping, in order, the connections that are to be dropped at
/// `time` under `config`.
pub open spec fn dropped_events(connections: Seq<VirtualConnection>, config: Config, time: u64) -> Seq<SocketEventView>
    decreases connections.len(),
{
    if connections.len() == 0 {
        Seq::empty()
    } else {
        dropped_events(connections.drop_last(), config, time) + if drop_due(connections.last(), config, time) {
            drop_events(connections.last())
        } else {
            Seq::empty()
        }
    }
}

/// What the user learns of a connection being removed.
#[derive(Debug, Clone, Copy, PartialEq, Eq, Structural)]
pub enum RemovalEvent {
    /// The established connection to this address is disconnected.
    Disconnected(SocketAddress),
    /// The connection to this address no longer exists.
    Destroyed(SocketAddress),
}

/// The events of removing `connection`: a disconnect when it was established, then its
/// destruction.
pub open spec fn removal_events(connection: VirtualConnection) -> Seq<RemovalEvent> {
    let address = connection.spec_remote_address();
    if connection.spec_is_established() {
        seq![RemovalEvent::Disconnected(address), RemovalEvent::Destroyed(address)]
    } else {
        seq![RemovalEvent::Destroyed(address)]
    }
}

/// In a list without repeated addresses, the one index holding `s[i]` is `i`.
pub(crate) proof fn lemma_index_of_unique(s: Seq<SocketAddress>, i: int)
    requires
        s.no_duplicates(),
        0 <= i < s.len(),
    ensures
        s.contains(s[i]),
        s.index_of(s[i]) == i,
{
    assert(s[i] == s[i]);
    let j = s.index_of(s[i]);
    assert(0 <= j < s.len() && s[j] == s[i]);
}

/// Maintains a registry of active connections, at most one per remote address, in the order
/// they were added.
#[derive(Debug)]
pub struct ActiveConnections {
    connections: Vec<VirtualConnection>,
}

impl ActiveConnections {
    /// The connections held, in the order they were added.
    pub closed spec fn connections(&self) -> Seq<VirtualConnection> {
        self.connections@
    }

    /// The remote addresses of the connections held, in order.
    pub open spec fn addresses(&self) -> Seq<SocketAddress> {
        addresses_of(self.connections())
    }

    /// Whether a connection to `address` is held.
    pub open spec fn holds(&self, address: SocketAddress) -> bool {
        self.addresses().contains(address)
    }

    /// The position of the connection to `address`, when one is held.
    pub open spec fn position(&self, address: SocketAddress) -> int {
        self.addresses().index_of(address)
    }

    /// The invariant of the registry, whose connections were all made under `config`: no
    /// address is held twice, and every connection is well formed and keeps `config`.
    pub open spec fn wf(&self, config: Config) -> bool {
        &&& self.addresses().no_duplicates()
        &&& forall|i: int|
            0 <= i < self.connections().len() ==> {
                &&& (#[trigger] self.connections()[i]).wf()
                &&& self.connections()[i].state().spec_config() == config
            }
    }

    /// Initialized active connection list.
    pub fn new() -> (connections: ActiveConnections)
        ensures
            connections.connections() == Seq::<VirtualConnection>::empty(),
            forall|config: Config| #[trigger] connections.wf(config),
    {
        ActiveConnections { connections: Vec::new() }
    }

    /// Returns the number of connected clients.
    pub fn count(&self) -> (n: usize)
        ensures
            n == self.connections().len(),
    {
        self.connections.len()
    }

    /// The position of the connection to `address`, if one is held.
    fn find(&self, address: &SocketAddress) -> (found: Option<usize>)
        requires
            self.addresses().no_duplicates(),
        ensures
            match found {
                Some(i) => {
                    &&& i < self.connections().len()
                    &&& self.holds(*address)
                    &&& i == self.position(*address)
                    &&& self.connections()[i as int].spec_remote_address() == *address
                },
                None => !self.holds(*address),
            },
    {
        let mut i: usize = 0;
        while i < self.connections.len()
            invariant
                i <= self.connections@.len(),
                self.addresses().no_duplicates(),
                forall|j: int| 0 <= j < i ==> #[trigger] self.addresses()[j] != *address,
            decreases self.connections@.len() - i,
        {
            if self.connections[i].remote_address() == *address {
                proof {
                    assert(self.addresses()[i as int] == *address);
                    lemma_index_of_unique(self.addresses(), i as int);
                }
                return Some(i);
            }
            assert(self.addresses()[i as int] != *address);
            i = i + 1;
        }
        proof {
            assert forall|j: int| 0 <= j < self.addresses().len() implies self.addresses()[j] != *address by {
                assert(self.addresses()[j] != *address);
            }
        }
        None
    }

    /// Whether a connection to `address` is held.
    pub fn contains(&self, address: &SocketAddress) -> (held: bool)
        requires
            self.addresses().no_duplicates(),
        ensures
            held == self.holds(*address),
    {
        self.find(address).is_some()
    }

    /// Returns the connection to `address`, or `None` if it doesn't exist.
    pub fn try_get(&self, address: &SocketAddress) -> (found: Option<&VirtualConnection>)
        requires
            self.addresses().no_duplicates(),
        ensures
            match found {
                Some(connection) => self.holds(*address) && *connection == self.connections()[self.position(
                    *address,
                )],
                None => !self.holds(*address),
            },
    {
        match self.find(address) {
            Some(i) => Some(&self.connections[i]),
            None => None,
        }
    }

    /// Adds a connection to `address`, created at `time` under `config`, unless one is held
    /// already.
    pub fn get_or_insert_connection(&mut self, address: SocketAddress, config: &Config, time: u64)
        requires
            old(self).wf(*config),
        ensures
            final(self).wf(*config),
            final(self).holds(address),
            old(self).holds(address) ==> final(self).connections() == old(self).connections(),
            !old(self).holds(address) ==> {
                &&& final(self).connections() == old(self).connections().push(
                    final(self).connections()[old(self).connections().len() as int],
                )
                &&& fresh_connection(
                    final(self).connections()[old(self).connections().len() as int],
                    address,
                    *config,
                    time,
                )
            },
    {
        if self.find(&address).is_none() {
            let connection = VirtualConnection::new(address, config, time);
            self.connections.push(connection);
            proof {
                let n = old(self).connections().len() as int;
                assert(self.addresses() =~= old(self).addresses().push(address));
                assert(self.addresses()[n] == address);
                assert forall|i: int, j: int|
                    0 <= i < self.addresses().len() && 0 <= j < self.addresses().len() && i != j implies
                        self.addresses()[i] != self.addresses()[j] by {
                    if i < n && j < n {
                        assert(old(self).addresses()[i] != old(self).addresses()[j]);
                    } else if i == n {
                        assert(old(self).addresses()[j] == self.addresses()[j]);
                    } else {
                        assert(old(self).addresses()[i] == self.addresses()[i]);
                    }
                }
                assert(self.connections()[n].wf());
            }
        }
    }

    /// Inserts `connection`, unless a connection to its address is held already, and runs
    /// the recurring work of the connection then held for that address at `time` under
    /// `config`, so that it starts initialized. Returns the sends of that work.
    pub fn insert_and_init_connection(&mut self, connection: VirtualConnection, config: &Config, time: u64) -> (sends:
        Vec<Result<Vec<Vec<u8>>, ErrorKind>>)
        requires
            old(self).wf(*config),
            connection.wf(),
            connection.state().spec_config() == *config,
        ensures
            final(self).wf(*config),
            final(self).holds(connection.spec_remote_address()),
            old(self).holds(connection.spec_remote_address()) ==> {
                let i = old(self).position(connection.spec_remote_address());
                &&& final(self).connections() == old(self).connections().update(i, final(self).connections()[i])
                &&& connection_updated(
                    old(self).connections()[i],
                    final(self).connections()[i],
                    *config,
                    time,
                    sends_view(sends@),
                )
            },
            !old(self).holds(connection.spec_remote_address()) ==> {
                let n = old(self).connections().len() as int;
                &&& final(self).connections() == old(self).connections().push(final(self).connections()[n])
                &&& connection_updated(connection, final(self).connections()[n], *config, time, sends_view(sends@))
            },
    {
        let address = connection.remote_address();
        let i = match self.find(&address) {
            Some(i) => i,
            None => {
                self.connections.push(connection);
                proof {
                    let n = old(self).connections().len() as int;
                    assert(self.addresses() =~= old(self).addresses().push(address));
                    assert forall|a: int, b: int|
                        0 <= a < self.addresses().len() && 0 <= b < self.addresses().len() && a != b implies
                            self.addresses()[a] != self.addresses()[b] by {
                        if a < n && b < n {
                            assert(old(self).addresses()[a] != old(self).addresses()[b]);
                        } else if a == n {
                            assert(self.addresses()[b] == old(self).addresses()[b]);
                        } else {
                            assert(self.addresses()[a] == old(self).addresses()[a]);
                        }
                    }
                    assert(self.connections()[n] == connection);
                }
                self.connections.len() - 1
            },
        };
        let ghost inserted = *self;
        let mut held = self.connections.remove(i);
        proof {
            assert(held == inserted.connections()[i as int]);
        }
        let sends = held.update(config, time);
        self.connections.insert(i, held);
        proof {
            assert(self.connections() =~= inserted.connections().update(i as int, held));
            assert(self.addresses() =~= inserted.addresses());
            assert forall|k: int| 0 <= k < self.connections().len() implies {
                &&& (#[trigger] self.connections()[k]).wf()
                &&& self.connections()[k].state().spec_config() == *config
            } by {
                if k != i {
                    assert(self.connections()[k] == inserted.connections()[k]);
                }
            }
            assert(self.addresses()[i as int] == address);
            if old(self).holds(address) {
                assert(inserted == *old(self));
                assert(self.connections() =~= old(self).connections().update(i as int, held));
            } else {
                assert(self.connections() =~= old(self).connections().push(held));
            }
        }
        sends
    }

    /// Removes the connection to `address`, handing it back with its address, together with
    /// the events for the user: a disconnect when the connection was established, then its
    /// destruction. Nothing is removed and no event raised when no such connection is held.
    pub fn remove_connection(&mut self, address: &SocketAddress) -> (outcome: (
        Option<(SocketAddress, VirtualConnection)>,
        Vec<RemovalEvent>,
    ))
        requires
            old(self).addresses().no_duplicates(),
        ensures
            forall|config: Config| old(self).wf(config) ==> #[trigger] final(self).wf(config),
            !final(self).holds(*address),
            match outcome.0 {
                Some((a, connection)) => {
                    &&& old(self).holds(*address)
                    &&& a == *address
                    &&& connection == old(self).connections()[old(self).position(*address)]
                    &&& final(self).connections() == old(self).connections().remove(old(self).position(*address))
                    &&& outcome.1@ == removal_events(connection)
                },
                None => {
                    &&& !old(self).holds(*address)
                    &&& final(self).connections() == old(self).connections()
                    &&& outcome.1@ == Seq::<RemovalEvent>::empty()
                },
            },
    {
        match self.find(address) {
            Some(i) => {
                let connection = self.connections.remove(i);
                proof {
                    let before = old(self).addresses();
                    assert(self.addresses() =~= before.remove(i as int));
                    assert forall|config: Config| old(self).wf(config) implies #[trigger] self.wf(config) by {
                        assert forall|k: int| 0 <= k < self.connections().len() implies {
                            &&& (#[trigger] self.connections()[k]).wf()
                            &&& self.connections()[k].state().spec_config() == config
                        } by {
                            if k < i {
                                assert(self.connections()[k] == old(self).connections()[k]);
                            } else {
                                assert(self.connections()[k] == old(self).connections()[k + 1]);
                            }
                        }
                    }
                    assert forall|k: int, m: int|
                        0 <= k < self.addresses().len() && 0 <= m < self.addresses().len() && k != m implies
                            self.addresses()[k] != self.addresses()[m] by {
                        let k2 = if k < i { k } else { k + 1 };
                        let m2 = if m < i { m } else { m + 1 };
                        assert(self.addresses()[k] == before[k2]);
                        assert(self.addresses()[m] == before[m2]);
                    }
                    assert forall|k: int| 0 <= k < self.addresses().len() implies self.addresses()[k] != *address by {
                        let k2 = if k < i { k } else { k + 1 };
                        assert(self.addresses()[k] == before[k2]);
                        assert(before[i as int] == *address);
                    }
                }
                let mut events: Vec<RemovalEvent> = Vec::new();
                if connection.is_established() {
                    events.push(RemovalEvent::Disconnected(*address));
                }
                events.push(RemovalEvent::Destroyed(*address));
                proof {
                    assert(events@ =~= removal_events(connection));
                }
                (Some((*address, connection)), events)
            },
            None => (None, Vec::new()),
        }
    }

    /// Returns the addresses of the connections that have been silent for at least
    /// `max_idle` nanoseconds at `time`, in the order the connections were added.
    pub fn idle_connections(&self, max_idle: u64, time: u64) -> (idle: Vec<SocketAddress>)
        ensures
            idle@ == idle_addresses(self.connections(), max_idle, time),
    {
        let mut idle: Vec<SocketAddress> = Vec::new();
        let mut i: usize = 0;
        while i < self.connections.len()
            invariant
                i <= self.connections@.len(),
                idle@ == idle_addresses(self.connections().take(i as int), max_idle, time),
            decreases self.connections@.len() - i,
        {
            proof {
                assert(self.connections().take(i + 1).drop_last() =~= self.connections().take(i as int));
            }
            if self.connections[i].last_heard(time) >= max_idle {
                idle.push(self.connections[i].remote_address());
            }
            i = i + 1;
        }
        proof {
            assert(self.connections().take(i as int) =~= self.connections());
        }
        idle
    }

    /// Processes a datagram received from `address` at `time`. The connection to `address`
    /// processes it when one is held; otherwise a connection is made for it under `config`,
    /// which raises a connect event for the user as the remote side initiated it, and is then
    /// let go, so that receiving alone never adds a connection. Returns that connect event,
    /// if any, and the events of processing the datagram, or why it was refused.
    pub fn process_received(&mut self, config: &Config, address: SocketAddress, payload: &[u8], time: u64) -> (outcome:
        (Option<SocketEvent>, Result<Vec<SocketEvent>, ErrorKind>))
        requires
            old(self).wf(*config),
            reaches_reassembly(payload@) ==> config.fragment_reassembly_buffer_size > 0,
        ensures
            final(self).wf(*config),
            final(self).addresses() == old(self).addresses(),
            old(self).holds(address) ==> {
                let i = old(self).position(address);
                &&& outcome.0 == None::<SocketEvent>
                &&& final(self).connections() == old(self).connections().update(i, final(self).connections()[i])
                &&& packet_processed(
                    old(self).connections()[i],
                    final(self).connections()[i],
                    payload@,
                    time,
                    events_outcome(outcome.1),
                )
            },
            !old(self).holds(address) ==> {
                &&& outcome.0 == Some(SocketEvent::Connect(address))
                &&& final(self).connections() == old(self).connections()
                &&& exists|fresh: VirtualConnection, after: VirtualConnection|
                    fresh_connection(fresh, address, *config, time) && #[trigger] packet_processed(
                        fresh,
                        after,
                        payload@,
                        time,
                        events_outcome(outcome.1),
                    )
            },
    {
        match self.find(&address) {
            Some(i) => {
                let mut connection = self.connections.remove(i);
                proof {
                    assert(connection == old(self).connections()[i as int]);
                    connection.state().lemma_reassembly_capacity();
                }
                let events = connection.process_packet(payload, time);
                self.connections.insert(i, connection);
                proof {
                    assert(self.connections() =~= old(self).connections().update(i as int, connection));
                    assert(self.addresses() =~= old(self).addresses());
                    assert forall|k: int| 0 <= k < self.connections().len() implies {
                        &&& (#[trigger] self.connections()[k]).wf()
                        &&& self.connections()[k].state().spec_config() == *config
                    } by {
                        if k != i {
                            assert(self.connections()[k] == old(self).connections()[k]);
                        }
                    }
                }
                (None, events)
            },
            None => {
                // the connection is initiated by the remote host
                let connect = Some(SocketEvent::Connect(address));
                let mut connection = VirtualConnection::new(address, config, time);
                let ghost fresh = connection;
                let events = connection.process_packet(payload, time);
                proof {
                    assert(packet_processed(fresh, connection, payload@, time, events_outcome(events)));
                }
                (connect, events)
            },
        }
    }

    /// Processes a packet the user asked to send at `time`: the connection to its address
    /// handles it, made under `config` and added first when none is held. Returns the connect
    /// event when this send establishes the connection, and the bytes of the packets to put
    /// on the wire, or the error.
    pub fn process_user_packet(&mut self, config: &Config, packet: &Packet, time: u64) -> (outcome: (
        Option<SocketEvent>,
        Result<Vec<Vec<u8>>, ErrorKind>,
    ))
        requires
            old(self).wf(*config),
            fragmentation_defined(*config, PacketType::Packet, packet.payload@.len(), packet.delivery),
        ensures
            final(self).wf(*config),
            final(self).holds(packet.addr),
            old(self).holds(packet.addr) ==> {
                let i = old(self).position(packet.addr);
                &&& final(self).connections() == old(self).connections().update(i, final(self).connections()[i])
                &&& event_processed(
                    old(self).connections()[i],
                    final(self).connections()[i],
                    *packet,
                    time,
                    outcome.0,
                    bytes_view(outcome.1),
                )
            },
            !old(self).holds(packet.addr) ==> {
                let n = old(self).connections().len() as int;
                &&& final(self).connections() == old(self).connections().push(final(self).connections()[n])
                &&& exists|fresh: VirtualConnection|
                    fresh_connection(fresh, packet.addr, *config, time) && #[trigger] event_processed(
                        fresh,
                        final(self).connections()[n],
                        *packet,
                        time,
                        outcome.0,
                        bytes_view(outcome.1),
                    )
            },
    {
        self.get_or_insert_connection(packet.addr, config, time);
        let ghost inserted = *self;
        let i = match self.find(&packet.addr) {
            Some(i) => i,
            None => {
                assert(false);
                0
            },
        };
        let mut connection = self.connections.remove(i);
        let ghost before = connection;
        proof {
            assert(connection == inserted.connections()[i as int]);
        }
        let (connect, packets) = connection.process_event(packet, time);
        let sends = outgoing_contents(packets);
        self.connections.insert(i, connection);
        proof {
            assert(self.connections() =~= inserted.connections().update(i as int, connection));
            assert(self.addresses() =~= inserted.addresses());
            assert forall|k: int| 0 <= k < self.connections().len() implies {
                &&& (#[trigger] self.connections()[k]).wf()
                &&& self.connections()[k].state().spec_config() == *config
            } by {
                if k != i {
                    assert(self.connections()[k] == inserted.connections()[k]);
                }
            }
            assert(self.addresses()[i as int] == packet.addr);
            if old(self).holds(packet.addr) {
                lemma_index_of_unique(old(self).addresses(), i as int);
                assert(self.connections() =~= old(self).connections().update(i as int, connection));
            } else {
                let n = old(self).connections().len() as int;
                assert(inserted.addresses()[n] == packet.addr);
                lemma_index_of_unique(inserted.addresses(), n);
                assert(i == n);
                assert(before == inserted.connections()[n]);
                assert(fresh_connection(before, packet.addr, *config, time));
                assert(self.connections() =~= old(self).connections().push(connection));
                assert(self.connections()[n] == connection);
                assert(event_processed(before, self.connections()[n], *packet, time, connect, bytes_view(sends)));
            }
        }
        let ghost connect_copy = connect;
        let ghost sends_copy = sends;
        let outcome = (connect, sends);
        proof {
            assert(outcome.0 == connect_copy);
            assert(outcome.1 == sends_copy);
            if !old(self).holds(packet.addr) {
                let n = old(self).connections().len() as int;
                assert(exists|fresh: VirtualConnection|
                    fresh_connection(fresh, packet.addr, *config, time) && #[trigger] event_processed(
                        fresh,
                        self.connections()[n],
                        *packet,
                        time,
                        outcome.0,
                        bytes_view(outcome.1),
                    ));
            }
        }
        outcome
    }

    /// Runs the recurring work of every connection at `time` under `config`: resends and
    /// heartbeats. Returns, for each connection in order, its address and its sends.
    pub fn update_connections(&mut self, config: &Config, time: u64) -> (sends: Vec<
        (SocketAddress, Vec<Result<Vec<Vec<u8>>, ErrorKind>>),
    >)
        requires
            old(self).wf(*config),
        ensures
            final(self).wf(*config),
            final(self).addresses() == old(self).addresses(),
            final(self).connections().len() == old(self).connections().len(),
            sends@.len() == old(self).connections().len(),
            forall|i: int|
                0 <= i < sends@.len() ==> {
                    &&& (#[trigger] sends@[i]).0 == old(self).connections()[i].spec_remote_address()
                    &&& connection_updated(
                        old(self).connections()[i],
                        final(self).connections()[i],
                        *config,
                        time,
                        sends_view(sends@[i].1@),
                    )
                },
    {
        let mut sends: Vec<(SocketAddress, Vec<Result<Vec<Vec<u8>>, ErrorKind>>)> = Vec::new();
        let mut i: usize = 0;
        while i < self.connections.len()
            invariant
                i <= self.connections@.len(),
                self.connections@.len() == old(self).connections().len(),
                self.wf(*config),
                self.addresses() == old(self).addresses(),
                sends@.len() == i,
                forall|k: int| i <= k < self.connections@.len() ==> self.connections@[k] == old(self).connections()[k],
                forall|k: int|
                    0 <= k < i ==> {
                        &&& (#[trigger] sends@[k]).0 == old(self).connections()[k].spec_remote_address()
                        &&& connection_updated(
                            old(self).connections()[k],
                            self.connections@[k],
                            *config,
                            time,
                            sends_view(sends@[k].1@),
                        )
                    },
            decreases self.connections@.len() - i,
        {
            let ghost current = *self;
            let ghost sends_before = sends@;
            let mut connection = self.connections.remove(i);
            proof {
                assert(connection == current.connections()[i as int]);
            }
            let address = connection.remote_address();
            let connection_sends = connection.update(config, time);
            self.connections.insert(i, connection);
            sends.push((address, connection_sends));
            proof {
                assert(self.connections() =~= current.connections().update(i as int, connection));
                assert(self.addresses() =~= current.addresses());
                assert forall|k: int| 0 <= k < self.connections().len() implies {
                    &&& (#[trigger] self.connections()[k]).wf()
                    &&& self.connections()[k].state().spec_config() == *config
                } by {
                    if k != i {
                        assert(self.connections()[k] == current.connections()[k]);
                    }
                }
                assert forall|k: int|
                    0 <= k < i + 1 implies {
                        &&& (#[trigger] sends@[k]).0 == old(self).connections()[k].spec_remote_address()
                        &&& connection_updated(
                            old(self).connections()[k],
                            self.connections@[k],
                            *config,
                            time,
                            sends_view(sends@[k].1@),
                        )
                    } by {
                    if k < i {
                        assert(sends@[k] == sends_before[k]);
                        assert(self.connections@[k] == current.connections()[k]);
                    }
                }
            }
            i = i + 1;
        }
        sends
    }

    /// Drops the connections that are to be dropped at `time` under `config`: those with
    /// too many packets awaiting acknowledgement, or silent for the idle timeout. Returns the
    /// events for the user, in order: for each dropped connection a timeout and, when it was
    /// established, a disconnect.
    pub fn handle_dead_clients(&mut self, config: &Config, time: u64) -> (events: Vec<SocketEvent>)
        requires
            old(self).wf(*config),
        ensures
            final(self).wf(*config),
            final(self).connections() == survivors(old(self).connections(), *config, time),
            events_view(events@) == dropped_events(old(self).connections(), *config, time),
            forall|i: int|
                0 <= i < final(self).connections().len() ==> !drop_due(
                    #[trigger] final(self).connections()[i],
                    *config,
                    time,
                ),
    {
        let ghost all = self.connections();
        let mut remaining: Vec<VirtualConnection> = Vec::new();
        std::mem::swap(&mut remaining, &mut self.connections);
        let mut events: Vec<SocketEvent> = Vec::new();
        let ghost mut i: int = 0;
        while remaining.len() > 0
            invariant
                all == old(self).connections(),
                old(self).wf(*config),
                0 <= i <= all.len(),
                remaining@ == all.skip(i),
                self.connections() == survivors(all.take(i), *config, time),
                events_view(events@) == dropped_events(all.take(i), *config, time),
                self.addresses().no_duplicates(),
                forall|k: int, m: int|
                    #![trigger self.addresses()[k], all[m].spec_remote_address()]
                    0 <= k < self.addresses().len() && i <= m < all.len() ==> self.addresses()[k]
                        != all[m].spec_remote_address(),
                forall|k: int|
                    0 <= k < self.connections().len() ==> {
                        &&& (#[trigger] self.connections()[k]).wf()
                        &&& self.connections()[k].state().spec_config() == *config
                        &&& !drop_due(self.connections()[k], *config, time)
                    },
            decreases remaining@.len(),
        {
            let ghost kept = self.connections();
            let ghost events_before = events_view(events@);
            let connection = remaining.remove(0);
            proof {
                assert(connection == all[i]);
                assert(all.take(i + 1).drop_last() =~= all.take(i));
                assert(all.take(i + 1).last() == all[i]);
                assert(remaining@ =~= all.skip(i + 1));
                assert(addresses_of(all)[i] == all[i].spec_remote_address());
            }
            let (drop, mut connection_events) = connection.should_drop(config, time);
            if drop {
                events.append(&mut connection_events);
                proof {
                    assert(events_view(events@) =~= events_before + drop_events(all[i]));
                }
            } else {
                self.connections.push(connection);
                proof {
                    assert(self.connections() == kept.push(connection));
                    assert(self.addresses() =~= addresses_of(kept).push(connection.spec_remote_address()));
                    let n = kept.len() as int;
                    assert forall|k: int, m: int|
                        0 <= k < self.addresses().len() && 0 <= m < self.addresses().len() && k != m implies
                            self.addresses()[k] != self.addresses()[m] by {
                        if k < n && m < n {
                            assert(addresses_of(kept)[k] != addresses_of(kept)[m]);
                        } else if k == n {
                            assert(self.addresses()[m] == addresses_of(kept)[m]);
                            assert(addresses_of(kept)[m] != all[i].spec_remote_address());
                        } else {
                            assert(self.addresses()[k] == addresses_of(kept)[k]);
                            assert(addresses_of(kept)[k] != all[i].spec_remote_address());
                        }
                    }
                    assert forall|k: int, m: int|
                        #![trigger self.addresses()[k], all[m].spec_remote_address()]
                        0 <= k < self.addresses().len() && i + 1 <= m < all.len() implies self.addresses()[k]
                            != all[m].spec_remote_address() by {
                        assert(addresses_of(all)[m] == all[m].spec_remote_address());
                        if k < n {
                            assert(self.addresses()[k] == addresses_of(kept)[k]);
                        } else {
                            assert(addresses_of(all)[i] != addresses_of(all)[m]);
                        }
                    }
                    assert forall|k: int| 0 <= k < self.connections().len() implies {
                        &&& (#[trigger] self.connections()[k]).wf()
                        &&& self.connections()[k].state().spec_config() == *config
                        &&& !drop_due(self.connections()[k], *config, time)
                    } by {
                        if k < n {
                            assert(self.connections()[k] == kept[k]);
                        }
                    }
                }
            }
            proof {
                i = i + 1;
            }
        }
        proof {
            assert(all.take(i) =~= all);
        }
        events
    }
}

} // verus!
