use vstd::prelude::*;

use crate::error::{ErrorKind, FragmentErrorKind, PacketErrorKind};
use crate::infrastructure::acknowledgment::next_seq;
use crate::infrastructure::fragmentation::{
    fragment_count, fragment_of, lemma_truncate_to_u16, split_payload, split_positions_fit,
    wire_length,
};
use crate::net::connection::active_connections::lemma_index_of_unique;
use crate::net::network_config::NetworkConfig;
use crate::net::local_ack::settled_keys;
use crate::net::reliable_udp::{Connection, ConnectionView};
use crate::packet::header::{AckedPacketHeader, FragmentHeader, acked_header_bytes, fragment_header_bytes};
use crate::packet::{Packet, SocketAddress};

verus! {

/// Seconds of silence after which a connection is considered to have timed out, unless the
/// state is given another timeout.
pub const TIMEOUT_DEFAULT: u64 = 10;

/// Seconds between two checks of the connections for timeouts.
pub const TIMEOUT_POLL_INTERVAL: u64 = 1;

/// The bytes of one datagram of a prepared packet, given by its acknowledgement header
/// fields (the packet's sequence number, then the newest sequence number and the bit field
/// of acknowledgements received from the other side), its fragment position if it is a
/// fragment, and its data. A packet sent whole carries its acknowledgement header, then its
/// payload; a fragment carries its fragment header (the packet's sequence number, its id and
/// the number of fragments), the acknowledgement header on the first fragment only, then its
/// piece of the payload.
pub open spec fn datagram_bytes(part: ((u16, u16, u32), Option<(u8, u8)>, Seq<u8>)) -> Seq<u8> {
    let header = part.0;
    let acked = acked_header_bytes(header.0, header.1, header.2);
    match part.1 {
        None => acked + part.2,
        Some((id, count)) => fragment_header_bytes(header.0, id, count) + (if id == 0 {
            acked
        } else {
            Seq::empty()
        }) + part.2,
    }
}

/// The bytes of the datagrams a packet with `payload` goes out in (see `planned_parts`).
pub open spec fn planned_datagrams(payload: Seq<u8>, header: (u16, u16, u32), fragment_size: u16) -> Seq<Seq<u8>> {
    planned_parts(payload, header, fragment_size).map_values(
        |part: ((u16, u16, u32), Option<(u8, u8)>, Seq<u8>)| datagram_bytes(part),
    )
}

/// Writes one datagram of a prepared packet (see `datagram_bytes`).
fn encode_datagram(header: (u16, u16, u32), fragment: Option<(u8, u8)>, data: &[u8]) -> (bytes: Vec<u8>)
    ensures
        bytes@ == datagram_bytes((header, fragment, data@)),
{
    let mut buffer: Vec<u8> = Vec::new();
    let acked = AckedPacketHeader::new(header.0, header.1, header.2);
    match fragment {
        None => {
            acked.write(&mut buffer);
        },
        Some((id, count)) => {
            FragmentHeader::new(header.0, id, count).write(&mut buffer);
            if id == 0 {
                acked.write(&mut buffer);
            }
        },
    }
    let mut rest = vstd::slice::slice_to_vec(data);
    buffer.append(&mut rest);
    proof {
        assert(buffer@ =~= datagram_bytes((header, fragment, data@)));
    }
    buffer
}

/// The datagrams a packet with `payload` goes out in, each with the acknowledgement header
/// `header`: the whole payload in one when its length, in 16 bits, is at most
/// `fragment_size`; otherwise one fragment per piece of `fragment_size` bytes, in order.
pub open spec fn planned_parts(payload: Seq<u8>, header: (u16, u16, u32), fragment_size: u16) -> Seq<
    ((u16, u16, u32), Option<(u8, u8)>, Seq<u8>),
> {
    if wire_length(payload.len()) <= fragment_size {
        seq![(header, None::<(u8, u8)>, payload)]
    } else {
        let count = fragment_count(payload.len(), fragment_size);
        Seq::new(
            count as nat,
            |i: int| (header, Some((i as u8, count)), fragment_of(payload, fragment_size, i)),
        )
    }
}

/// Whether preparing a payload of `len` bytes under `config` stays within what the
/// arithmetic allows: a payload that is split needs a positive fragment size, and its
/// fragment positions must fit in 16 bits unless it is refused for its number of fragments.
pub open spec fn split_defined(len: nat, config: NetworkConfig) -> bool {
    len <= config.max_packet_size && wire_length(len) > config.fragment_size ==> config.fragment_size > 0
        && split_positions_fit(len, config.fragment_size, config.max_fragments)
}

/// Whether preparing a payload of `len` bytes under `config` stays within what the
/// arithmetic allows (see `split_defined`).
pub fn split_is_defined(len: usize, config: &NetworkConfig) -> (defined: bool)
    ensures
        defined == split_defined(len as nat, *config),
{
    let payload_length = len as u16;
    proof {
        lemma_truncate_to_u16(len);
    }
    if len <= config.max_packet_size && payload_length > config.fragment_size {
        if config.fragment_size > 0 {
            crate::infrastructure::fragmentation::split_fits(len, config.fragment_size, config.max_fragments)
        } else {
            false
        }
    } else {
        true
    }
}

/// Whether a payload of `len` bytes is refused under `config` for needing more fragments
/// than allowed.
pub open spec fn too_many_fragments(len: nat, config: NetworkConfig) -> bool {
    wire_length(len) > config.fragment_size && fragment_count(len, config.fragment_size) > config.max_fragments
}

/// Replacing, in `looked`, the connection that a lookup of `address` placed at `i` gives the
/// state that `before` becomes with that connection replaced.
proof fn lemma_replace_looked_up(
    before: SocketState,
    looked: SocketState,
    after: SocketState,
    address: SocketAddress,
    first: ConnectionView<Packet>,
    second: ConnectionView<Packet>,
    i: int,
)
    requires
        before.with_connection(&looked, address, first),
        before.holds(address) ==> i == before.position(address),
        !before.holds(address) ==> i == before.entries().len(),
        after.entries() == looked.entries().update(i, (address, second)),
        after.spec_timeout() == looked.spec_timeout(),
    ensures
        before.with_connection(&after, address, second),
{
    if before.holds(address) {
        assert(after.entries() =~= before.entries().update(i, (address, second)));
    } else {
        assert(after.entries() =~= before.entries().push((address, second)));
    }
}

/// After `before` becomes `after` by having its connection to `address` replaced or added,
/// that connection is the one `after` holds for `address`.
proof fn lemma_connection_after_replacement(
    before: SocketState,
    after: SocketState,
    address: SocketAddress,
    connection: ConnectionView<Packet>,
)
    requires
        before.wf(),
        before.with_connection(&after, address, connection),
    ensures
        after.wf(),
        after.holds(address),
        after.connection_to(address) == connection,
{
    let n = before.entries().len() as int;
    if before.holds(address) {
        let i = before.position(address);
        assert(before.addresses()[i] == address);
        assert(after.addresses() =~= before.addresses());
        assert(after.addresses()[i] == address);
        lemma_index_of_unique(after.addresses(), i);
    } else {
        assert(after.addresses() =~= before.addresses().push(address));
        assert forall|a: int, b: int|
            0 <= a < after.addresses().len() && 0 <= b < after.addresses().len() && a != b implies
                after.addresses()[a] != after.addresses()[b] by {
            if a < n && b < n {
                assert(before.addresses()[a] != before.addresses()[b]);
            } else if a == n {
                assert(after.addresses()[b] == before.addresses()[b]);
                assert(!before.addresses().contains(address));
                assert(before.addresses()[b] != address);
            } else {
                assert(after.addresses()[a] == before.addresses()[a]);
                assert(before.addresses()[a] != address);
            }
        }
        assert(after.addresses()[n] == address);
        lemma_index_of_unique(after.addresses(), n);
    }
}

/// A packet that a state prepares for sending waits for acknowledgement under the sequence
/// number its connection had, until a header received from the other side settles that
/// number, by acknowledging it, directly or through its bit field, or by declaring it lost:
/// then it waits no longer. A header that does not settle it leaves it waiting.
pub proof fn lemma_sent_packet_waits_until_acknowledged(
    first: SocketState,
    second: SocketState,
    third: SocketState,
    packet: Packet,
    seq: u16,
    ack_seq: u16,
    ack_field: u32,
)
    requires
        first.wf(),
        first.with_connection(
            &second,
            packet.addr,
            ConnectionView {
                seq_num: next_seq(first.connection_to(packet.addr).seq_num),
                waiting_packets: first.connection_to(packet.addr).waiting_packets.insert(
                    first.connection_to(packet.addr).seq_num,
                    packet,
                ),
                ..first.connection_to(packet.addr)
            },
        ),
        exists|after: ConnectionView<Packet>|
            #[trigger] second.connection_to(packet.addr).received(after, seq, ack_seq, ack_field)
                && second.with_connection(&third, packet.addr, after),
    ensures
        ({
            let sent = first.connection_to(packet.addr).seq_num;
            &&& second.connection_to(packet.addr).waiting_packets.contains_key(sent)
            &&& second.connection_to(packet.addr).waiting_packets[sent] == packet
            &&& settled_keys(ack_seq, ack_field).contains(sent) ==> !third.connection_to(
                packet.addr,
            ).waiting_packets.contains_key(sent)
            &&& !settled_keys(ack_seq, ack_field).contains(sent) ==> {
                &&& third.connection_to(packet.addr).waiting_packets.contains_key(sent)
                &&& third.connection_to(packet.addr).waiting_packets[sent] == packet
            }
        }),
{
    let c0 = first.connection_to(packet.addr);
    let c1 = ConnectionView {
        seq_num: next_seq(c0.seq_num),
        waiting_packets: c0.waiting_packets.insert(c0.seq_num, packet),
        ..c0
    };
    lemma_connection_after_replacement(first, second, packet.addr, c1);
    let after = choose|after: ConnectionView<Packet>|
        #[trigger] second.connection_to(packet.addr).received(after, seq, ack_seq, ack_field)
            && second.with_connection(&third, packet.addr, after);
    lemma_connection_after_replacement(second, third, packet.addr, after);
}

/// This holds the 'virtual connections' currently (connected) to the udp socket, at most one
/// per remote address, in the order they were made.
#[derive(Debug)]
pub struct SocketState {
    timeout: u64,
    connections: Vec<(SocketAddress, Connection<Packet>)>,
}

impl SocketState {
    /// The connections held with their addresses, in the order they were made.
    pub closed spec fn entries(&self) -> Seq<(SocketAddress, ConnectionView<Packet>)> {
        self.connections@.map_values(|e: (SocketAddress, Connection<Packet>)| (e.0, e.1@))
    }

    /// The seconds of silence after which a connection is considered to have timed out.
    pub closed spec fn spec_timeout(&self) -> u64 {
        self.timeout
    }

    /// The addresses of the connections held, in order.
    pub open spec fn addresses(&self) -> Seq<SocketAddress> {
        self.entries().map_values(|e: (SocketAddress, ConnectionView<Packet>)| e.0)
    }

    /// Whether a connection to `address` is held.
    pub open spec fn holds(&self, address: SocketAddress) -> bool {
        self.addresses().contains(address)
    }

    /// The position of the connection to `address`, when one is held.
    pub open spec fn position(&self, address: SocketAddress) -> int {
        self.addresses().index_of(address)
    }

    /// The connection to `address`: the one held, or a fresh one when none is.
    pub open spec fn connection_to(&self, address: SocketAddress) -> ConnectionView<Packet> {
        if self.holds(address) {
            self.entries()[self.position(address)].1
        } else {
            ConnectionView::fresh()
        }
    }

    /// Whether `after` is this state with the connection to `address` replaced by
    /// `connection`, or added at the end when none is held.
    pub open spec fn with_connection(&self, after: &SocketState, address: SocketAddress, connection: ConnectionView<Packet>) -> bool {
        &&& after.spec_timeout() == self.spec_timeout()
        &&& if self.holds(address) {
            after.entries() == self.entries().update(self.position(address), (address, connection))
        } else {
            after.entries() == self.entries().push((address, connection))
        }
    }

    /// The invariant of the state: no address is held twice.
    pub open spec fn wf(&self) -> bool {
        self.addresses().no_duplicates()
    }

    /// Creates a state that holds no connection, with the default timeout.
    pub fn new() -> (state: SocketState)
        ensures
            state.wf(),
            state.entries() == Seq::<(SocketAddress, ConnectionView<Packet>)>::empty(),
            state.spec_timeout() == TIMEOUT_DEFAULT,
    {
        let state = SocketState { timeout: TIMEOUT_DEFAULT, connections: Vec::new() };
        proof {
            assert(state.entries() =~= Seq::<(SocketAddress, ConnectionView<Packet>)>::empty());
            assert(state.addresses() =~= Seq::<SocketAddress>::empty());
        }
        state
    }

    /// Sets the seconds of silence after which a connection is considered to have timed out.
    pub fn with_client_timeout(self, timeout: u64) -> (state: SocketState)
        ensures
            state.entries() == self.entries(),
            state.spec_timeout() == timeout,
    {
        let mut state = self;
        state.timeout = timeout;
        state
    }

    /// The position of the connection to `address`, made fresh and added at the end when
    /// none is held.
    fn create_connection_if_not_exists(&mut self, address: &SocketAddress) -> (i: usize)
        requires
            old(self).wf(),
        ensures
            final(self).wf(),
            i < final(self).entries().len(),
            final(self).entries()[i as int] == (*address, old(self).connection_to(*address)),
            old(self).with_connection(&*final(self), *address, old(self).connection_to(*address)),
            old(self).holds(*address) ==> i == old(self).position(*address),
            !old(self).holds(*address) ==> i == old(self).entries().len(),
    {
        let mut i: usize = 0;
        while i < self.connections.len()
            invariant
                i <= self.connections@.len(),
                self.wf(),
                *self == *old(self),
                forall|j: int| 0 <= j < i ==> #[trigger] self.addresses()[j] != *address,
            decreases self.connections@.len() - i,
        {
            if self.connections[i].0 == *address {
                proof {
                    assert(self.addresses()[i as int] == *address);
                    assert(self.addresses().contains(*address));
                    let k = self.addresses().index_of(*address);
                    assert(self.addresses()[k] == *address);
                    assert(self.entries() =~= self.entries().update(i as int, (*address, self.entries()[i as int].1)));
                }
                return i;
            }
            assert(self.addresses()[i as int] != *address);
            i = i + 1;
        }
        proof {
            assert forall|j: int| 0 <= j < self.addresses().len() implies self.addresses()[j] != *address by {
                assert(self.addresses()[j] != *address);
            }
        }
        let connection = Connection::new();
        self.connections.push((*address, connection));
        proof {
            let n = old(self).entries().len() as int;
            assert(self.entries() =~= old(self).entries().push((*address, ConnectionView::<Packet>::fresh())));
            assert(self.addresses() =~= old(self).addresses().push(*address));
            assert forall|a: int, b: int|
                0 <= a < self.addresses().len() && 0 <= b < self.addresses().len() && a != b implies
                    self.addresses()[a] != self.addresses()[b] by {
                if a < n && b < n {
                    assert(old(self).addresses()[a] != old(self).addresses()[b]);
                } else if a == n {
                    assert(self.addresses()[b] == old(self).addresses()[b]);
                } else {
                    assert(self.addresses()[a] == old(self).addresses()[a]);
                }
            }
        }
        i
    }
    /// Prepares `packet` for sending under `config`. A payload longer than
    /// `config.max_packet_size` is refused. Otherwise the connection to the packet's address
    /// (made when none is held) keeps the packet waiting for acknowledgement under its
    /// sequence number; a payload that needs more fragments than `config.max_fragments` is
    /// then refused, and any other goes out in the datagrams `planned_datagrams` gives, after
    /// which the sequence number advances.
    pub fn pre_process_packet(&mut self, packet: Packet, config: &NetworkConfig) -> (result: Result<
        (SocketAddress, Vec<Vec<u8>>),
        ErrorKind,
    >)
        requires
            old(self).wf(),
            split_defined(packet.payload@.len(), *config),
        ensures
            final(self).wf(),
            packet.payload@.len() > config.max_packet_size ==> {
                &&& result == Err::<(SocketAddress, Vec<Vec<u8>>), ErrorKind>(
                    ErrorKind::PacketError(PacketErrorKind::ExceededMaxPacketSize),
                )
                &&& final(self).entries() == old(self).entries()
                &&& final(self).spec_timeout() == old(self).spec_timeout()
            },
            packet.payload@.len() <= config.max_packet_size ==> {
                let before = old(self).connection_to(packet.addr);
                let header = (before.seq_num, before.their_acks.last_seq, before.their_acks.field);
                let waiting = before.waiting_packets.insert(before.seq_num, packet);
                if too_many_fragments(packet.payload@.len(), *config) {
                    &&& result == Err::<(SocketAddress, Vec<Vec<u8>>), ErrorKind>(
                        ErrorKind::FragmentError(FragmentErrorKind::ExceededMaxFragments),
                    )
                    &&& old(self).with_connection(
                        &*final(self),
                        packet.addr,
                        ConnectionView { waiting_packets: waiting, ..before },
                    )
                } else {
                    &&& (result matches Ok((address, datagrams)) && address == packet.addr && datagrams@.map_values(
                        |d: Vec<u8>| d@,
                    ) == planned_datagrams(packet.payload@, header, config.fragment_size))
                    &&& old(self).with_connection(
                        &*final(self),
                        packet.addr,
                        ConnectionView { seq_num: next_seq(before.seq_num), waiting_packets: waiting, ..before },
                    )
                }
            },
    {
        if packet.payload.len() > config.max_packet_size {
            return Err(ErrorKind::PacketError(PacketErrorKind::ExceededMaxPacketSize));
        }
        let i = self.create_connection_if_not_exists(&packet.addr);
        let ghost looked = *self;
        let (address, mut connection) = self.connections.remove(i);
        let seq = connection.seq_num;
        let header = (seq, connection.their_acks.last_seq, connection.their_acks.field);
        let payload_length = packet.payload.len() as u16;
        proof {
            lemma_truncate_to_u16(packet.payload.len());
        }
        let mut parts: Vec<Vec<u8>> = Vec::new();
        let mut refused = false;
        if payload_length <= config.fragment_size {
            parts.push(encode_datagram(header, None, packet.payload.as_slice()));
            proof {
                assert(parts@.map_values(|d: Vec<u8>| d@) =~= planned_datagrams(
                    packet.payload@,
                    header,
                    config.fragment_size,
                ));
            }
        } else {
            match split_payload(packet.payload.as_slice(), config.fragment_size, config.max_fragments) {
                Ok(pieces) => {
                    let count = pieces.len() as u8;
                    let mut k: usize = 0;
                    while k < pieces.len()
                        invariant
                            k <= pieces@.len(),
                            pieces@.len() == fragment_count(packet.payload@.len(), config.fragment_size),
                            count == pieces@.len(),
                            forall|j: int|
                                0 <= j < pieces@.len() ==> #[trigger] pieces@[j]@ == fragment_of(
                                    packet.payload@,
                                    config.fragment_size,
                                    j,
                                ),
                            parts@.map_values(|d: Vec<u8>| d@) == Seq::new(
                                k as nat,
                                |j: int|
                                    datagram_bytes(
                                        (header, Some((j as u8, count)), fragment_of(packet.payload@, config.fragment_size, j)),
                                    ),
                            ),
                        decreases pieces@.len() - k,
                    {
                        let ghost before = parts@.map_values(|d: Vec<u8>| d@);
                        parts.push(encode_datagram(header, Some((k as u8, count)), pieces[k]));
                        proof {
                            assert(parts@.map_values(|d: Vec<u8>| d@) =~= before.push(parts@[k as int]@));
                            assert(parts@.map_values(|d: Vec<u8>| d@) =~= Seq::new(
                                (k + 1) as nat,
                                |j: int|
                                    datagram_bytes(
                                        (header, Some((j as u8, count)), fragment_of(packet.payload@, config.fragment_size, j)),
                                    ),
                            ));
                        }
                        k = k + 1;
                    }
                    proof {
                        assert(parts@.map_values(|d: Vec<u8>| d@) =~= planned_datagrams(
                            packet.payload@,
                            header,
                            config.fragment_size,
                        ));
                    }
                },
                Err(_) => {
                    refused = true;
                },
            }
        }
        connection.waiting_packets.enqueue(seq, packet);
        if refused {
            self.connections.insert(i, (address, connection));
            proof {
                assert(self.entries() =~= looked.entries().update(i as int, (address, connection@)));
                assert(self.addresses() =~= looked.addresses());
                lemma_replace_looked_up(
                    *old(self),
                    looked,
                    *self,
                    packet.addr,
                    old(self).connection_to(packet.addr),
                    connection@,
                    i as int,
                );
            }
            return Err(ErrorKind::FragmentError(FragmentErrorKind::ExceededMaxFragments));
        }
        connection.seq_num = seq.wrapping_add(1);
        self.connections.insert(i, (address, connection));
        proof {
            assert(self.entries() =~= looked.entries().update(i as int, (address, connection@)));
            assert(self.addresses() =~= looked.addresses());
            lemma_replace_looked_up(
                *old(self),
                looked,
                *self,
                packet.addr,
                old(self).connection_to(packet.addr),
                connection@,
                i as int,
            );
        }
        Ok((address, parts))
    }

    /// Hands out the packets the connection to `address` declared lost, and forgets them; the
    /// connection is made when none is held.
    pub fn dropped_packets(&mut self, address: SocketAddress) -> (dropped: Vec<Packet>)
        requires
            old(self).wf(),
        ensures
            final(self).wf(),
            dropped@ == old(self).connection_to(address).dropped_packets,
            old(self).with_connection(
                &*final(self),
                address,
                ConnectionView { dropped_packets: Seq::empty(), ..old(self).connection_to(address) },
            ),
    {
        let i = self.create_connection_if_not_exists(&address);
        let ghost looked = *self;
        let (entry_address, mut connection) = self.connections.remove(i);
        let dropped = connection.dropped_packets();
        self.connections.insert(i, (entry_address, connection));
        proof {
            assert(self.entries() =~= looked.entries().update(i as int, (entry_address, connection@)));
            assert(self.addresses() =~= looked.addresses());
            assert(connection@ == ConnectionView { dropped_packets: Seq::empty(), ..old(self).connection_to(address) });
            lemma_replace_looked_up(
                *old(self),
                looked,
                *self,
                address,
                old(self).connection_to(address),
                connection@,
                i as int,
            );
        }
        dropped
    }

    /// This will process an incoming packet's acknowledgement header and update
    /// acknowledgement information of the connection to `address`, made when none is held.
    pub fn process_received(&mut self, address: SocketAddress, header: &AckedPacketHeader)
        requires
            old(self).wf(),
        ensures
            final(self).wf(),
            exists|after: ConnectionView<Packet>|
                #[trigger] old(self).connection_to(address).received(
                    after,
                    header.fields().0,
                    header.fields().1,
                    header.fields().2,
                ) && old(self).with_connection(&*final(self), address, after),
    {
        let i = self.create_connection_if_not_exists(&address);
        let ghost looked = *self;
        let (entry_address, mut connection) = self.connections.remove(i);
        let ghost first = connection@;
        proof {
            assert(looked.entries()[i as int] == (entry_address, first));
            assert(first == old(self).connection_to(address));
        }
        connection.process_received(header.sequence(), header.ack_seq(), header.ack_field());
        proof {
            assert(old(self).connection_to(address).received(
                connection@,
                header.fields().0,
                header.fields().1,
                header.fields().2,
            ));
        }
        self.connections.insert(i, (entry_address, connection));
        proof {
            assert(self.entries() =~= looked.entries().update(i as int, (entry_address, connection@)));
            assert(self.addresses() =~= looked.addresses());
            lemma_replace_looked_up(
                *old(self),
                looked,
                *self,
                address,
                old(self).connection_to(address),
                connection@,
                i as int,
            );
        }
    }
}

} // verus!
