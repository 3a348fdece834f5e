use vstd::prelude::*;

use crate::config::Config;
use crate::net::reliability_system::elapsed;
use crate::net::virtual_connection::VirtualConnection;
use crate::packet::{Packet, SocketAddress};

verus! {

/// Nanoseconds before a connection is banned if not accepted
pub const NON_ACCEPT_TIMEOUT: u64 = 1_000_000_000;

/// Nanoseconds a connection is banned for, after it was not accepted
pub const TEMPORARY_BAN_TIMEOUT: u64 = 60_000_000_000;

/// A connection as the factory hands it out: the connection, and for one the remote side
/// opened, the point in time by which it must be accepted.
pub struct ConnectionImpl {
    /// The point in time after which a connection opened by the remote side and not yet
    /// accepted is discarded.
    pub non_accepted_timeout: Option<u64>,
    /// The connection.
    pub conn: VirtualConnection,
}

/// The ban list as a map from address to the end of its ban: each address at most once.
pub open spec fn ban_map(bans: Seq<(SocketAddress, u64)>) -> Map<SocketAddress, u64>
    decreases bans.len(),
{
    if bans.len() == 0 {
        Map::empty()
    } else {
        ban_map(bans.drop_last()).insert(bans.last().0, bans.last().1)
    }
}

/// Whether no address occurs twice in `bans`.
pub open spec fn unique_addresses(bans: Seq<(SocketAddress, u64)>) -> bool {
    forall|i: int, j: int| 0 <= i < j < bans.len() ==> bans[i].0 != bans[j].0
}

proof fn lemma_ban_map_lookup(bans: Seq<(SocketAddress, u64)>, i: int)
    requires
        unique_addresses(bans),
        0 <= i < bans.len(),
    ensures
        ban_map(bans).contains_key(bans[i].0),
        ban_map(bans)[bans[i].0] == bans[i].1,
    decreases bans.len(),
{
    if i < bans.len() - 1 {
        lemma_ban_map_lookup(bans.drop_last(), i);
    }
}

proof fn lemma_ban_map_keys(bans: Seq<(SocketAddress, u64)>, addr: SocketAddress)
    ensures
        ban_map(bans).contains_key(addr) <==> exists|i: int| 0 <= i < bans.len() && #[trigger] bans[i].0 == addr,
    decreases bans.len(),
{
    if bans.len() > 0 {
        lemma_ban_map_keys(bans.drop_last(), addr);
        if ban_map(bans.drop_last()).contains_key(addr) {
            let i = choose|i: int| 0 <= i < bans.drop_last().len() && #[trigger] bans.drop_last()[i].0 == addr;
            assert(bans[i].0 == addr);
        }
        if exists|i: int| 0 <= i < bans.len() && #[trigger] bans[i].0 == addr {
            let i = choose|i: int| 0 <= i < bans.len() && #[trigger] bans[i].0 == addr;
            if i < bans.len() - 1 {
                assert(bans.drop_last()[i].0 == addr);
            }
        }
    }
}

/// The bans of `banned` that still last after `time`.
pub open spec fn live_bans(banned: Map<SocketAddress, u64>, time: u64) -> Map<SocketAddress, u64> {
    banned.restrict(banned.dom().filter(|a: SocketAddress| banned[a] > time))
}

/// Provides simple DDoS protection by auto disconnecting non accepted connections, and ban
/// them for some time.
pub struct FactoryImpl {
    config: Config,
    temporary_banned: Vec<(SocketAddress, u64)>,
}

impl FactoryImpl {
    /// The configuration connections are created with.
    pub closed spec fn spec_config(&self) -> Config {
        self.config
    }

    /// The banned addresses, each with the point in time its ban ends.
    pub closed spec fn banned(&self) -> Map<SocketAddress, u64> {
        ban_map(self.temporary_banned@)
    }

    /// The invariant: each address is banned at most once.
    pub closed spec fn wf(&self) -> bool {
        unique_addresses(self.temporary_banned@)
    }

    /// Creates a factory that bans no one.
    pub fn new(config: Config) -> (factory: FactoryImpl)
        ensures
            factory.wf(),
            factory.spec_config() == config,
            factory.banned() == Map::<SocketAddress, u64>::empty(),
    {
        FactoryImpl { config, temporary_banned: Vec::new() }
    }

    /// Returns the bans as address and end of ban, in no particular order.
    pub fn temporary_banned(&self) -> (bans: Vec<(SocketAddress, u64)>)
        requires
            self.wf(),
        ensures
            unique_addresses(bans@),
            ban_map(bans@) == self.banned(),
    {
        let mut bans: Vec<(SocketAddress, u64)> = Vec::new();
        let mut i: usize = 0;
        while i < self.temporary_banned.len()
            invariant
                i <= self.temporary_banned@.len(),
                bans@ == self.temporary_banned@.take(i as int),
            decreases self.temporary_banned@.len() - i,
        {
            bans.push(self.temporary_banned[i]);
            proof {
                assert(self.temporary_banned@.take(i + 1) =~= self.temporary_banned@.take(i as int).push(
                    self.temporary_banned@[i as int],
                ));
            }
            i = i + 1;
        }
        proof {
            assert(self.temporary_banned@.take(i as int) =~= self.temporary_banned@);
        }
        bans
    }

    /// The index of `address` in the ban list, if it is banned.
    fn find(&self, address: SocketAddress) -> (index: Option<usize>)
        requires
            self.wf(),
        ensures
            match index {
                Some(i) => i < self.temporary_banned@.len() && self.temporary_banned@[i as int].0 == address,
                None => !self.banned().contains_key(address),
            },
    {
        let mut i: usize = 0;
        while i < self.temporary_banned.len()
            invariant
                i <= self.temporary_banned@.len(),
                forall|k: int| 0 <= k < i ==> self.temporary_banned@[k].0 != address,
            decreases self.temporary_banned@.len() - i,
        {
            if self.temporary_banned[i].0 == address {
                return Some(i);
            }
            i = i + 1;
        }
        proof {
            lemma_ban_map_keys(self.temporary_banned@, address);
        }
        None
    }

    /// Bans `address` until `until`, replacing an earlier ban of it.
    fn ban(&mut self, address: SocketAddress, until: u64)
        requires
            old(self).wf(),
        ensures
            final(self).wf(),
            final(self).spec_config() == old(self).spec_config(),
            final(self).banned() == old(self).banned().insert(address, until),
    {
        match self.find(address) {
            Some(i) => {
                self.forget(i);
            },
            None => {},
        }
        let ghost before = self.temporary_banned@;
        proof {
            lemma_ban_map_keys(before, address);
        }
        self.temporary_banned.push((address, until));
        proof {
            assert(self.temporary_banned@.drop_last() =~= before);
            assert forall|i: int, j: int| 0 <= i < j < self.temporary_banned@.len() implies self.temporary_banned@[i].0
                != self.temporary_banned@[j].0 by {
                if j == before.len() && self.temporary_banned@[i].0 == address {
                    assert(before[i].0 == address);
                }
            }
        }
    }

    /// Takes the ban at `index` out of the list.
    fn forget(&mut self, index: usize)
        requires
            old(self).wf(),
            index < old(self).temporary_banned@.len(),
        ensures
            final(self).wf(),
            final(self).spec_config() == old(self).spec_config(),
            final(self).banned() == old(self).banned().remove(old(self).temporary_banned@[index as int].0),
    {
        let ghost before = self.temporary_banned@;
        let ghost gone = before[index as int].0;
        self.temporary_banned.remove(index);
        proof {
            let after = self.temporary_banned@;
            assert(after =~= before.remove(index as int));
            assert forall|i: int, j: int| 0 <= i < j < after.len() implies after[i].0 != after[j].0 by {
                let oi = if i < index { i } else { i + 1 };
                let oj = if j < index { j } else { j + 1 };
                assert(after[i] == before[oi]);
                assert(after[j] == before[oj]);
            }
            assert forall|a: SocketAddress| #[trigger] ban_map(after).contains_key(a) == old(self).banned().remove(gone).contains_key(a)
                && (ban_map(after).contains_key(a) ==> ban_map(after)[a] == old(self).banned().remove(gone)[a]) by {
                lemma_ban_map_keys(after, a);
                lemma_ban_map_keys(before, a);
                if ban_map(after).contains_key(a) {
                    let i = choose|i: int| 0 <= i < after.len() && #[trigger] after[i].0 == a;
                    let oi = if i < index { i } else { i + 1 };
                    assert(after[i] == before[oi]);
                    lemma_ban_map_lookup(after, i);
                    lemma_ban_map_lookup(before, oi);
                }
                if old(self).banned().remove(gone).contains_key(a) {
                    let k = choose|k: int| 0 <= k < before.len() && #[trigger] before[k].0 == a;
                    assert(k != index);
                    let nk = if k < index { k } else { k - 1 };
                    assert(after[nk] == before[k]);
                }
            }
            assert(ban_map(after) =~= old(self).banned().remove(gone));
        }
    }

    /// Hands out a new connection to `address` unless the address is banned. A connection the
    /// local side asks for lifts the ban; one the remote side opens is refused while the ban
    /// lasts. `non_accepted_timeout` is set for connections the remote side opens.
    fn should_accept(&mut self, time: u64, address: SocketAddress, non_accepted_timeout: Option<u64>) -> (connection:
        Option<ConnectionImpl>)
        requires
            old(self).wf(),
        ensures
            final(self).wf(),
            final(self).spec_config() == old(self).spec_config(),
            accepted(old(self).banned(), time, address, non_accepted_timeout) <==> connection is Some,
            final(self).banned() == bans_after_request(old(self).banned(), address, non_accepted_timeout),
            connection matches Some(c) ==> c.non_accepted_timeout == non_accepted_timeout
                && c.conn.spec_remote_address() == address && c.conn.state().is_fresh(old(self).spec_config(), time)
                && !c.conn.has_sent() && !c.conn.has_received(),
    {
        match self.find(address) {
            Some(i) => {
                let banned_until = self.temporary_banned[i].1;
                proof {
                    lemma_ban_map_lookup(self.temporary_banned@, i as int);
                }
                if non_accepted_timeout.is_none() {
                    self.forget(i);
                } else if banned_until > time {
                    return None;
                }
            },
            None => {
                proof {
                    assert(self.banned().remove(address) =~= self.banned());
                }
            },
        }
        Some(
            ConnectionImpl {
                non_accepted_timeout,
                conn: VirtualConnection::new(address, &self.config, time),
            },
        )
    }

    /// Accepts a connection the remote side opened, unless its address is banned; it must be
    /// accepted within the non-accept timeout.
    pub fn should_accept_remote(&mut self, time: u64, address: SocketAddress, data: &[u8]) -> (connection: Option<
        ConnectionImpl,
    >)
        requires
            old(self).wf(),
            time + NON_ACCEPT_TIMEOUT <= u64::MAX,
        ensures
            final(self).wf(),
            final(self).spec_config() == old(self).spec_config(),
            final(self).banned() == old(self).banned(),
            (connection is Some) == !(old(self).banned().contains_key(address) && old(self).banned()[address] > time),
            connection matches Some(c) ==> c.non_accepted_timeout == Some((time + NON_ACCEPT_TIMEOUT) as u64)
                && c.conn.spec_remote_address() == address && c.conn.state().is_fresh(old(self).spec_config(), time),
    {
        self.should_accept(time, address, Some(time + NON_ACCEPT_TIMEOUT))
    }

    /// Accepts a connection the local side asks for, lifting any ban of its address.
    pub fn should_accept_local(&mut self, time: u64, address: SocketAddress, event: &Packet) -> (connection: Option<
        ConnectionImpl,
    >)
        requires
            old(self).wf(),
        ensures
            final(self).wf(),
            final(self).spec_config() == old(self).spec_config(),
            final(self).banned() == old(self).banned().remove(address),
            connection matches Some(c) && c.non_accepted_timeout is None && c.conn.spec_remote_address() == address
                && c.conn.state().is_fresh(old(self).spec_config(), time),
    {
        self.should_accept(time, address, None)
    }

    /// Removes addresses from ban list whose ban has ended.
    pub fn update(&mut self, time: u64)
        requires
            old(self).wf(),
        ensures
            final(self).wf(),
            final(self).spec_config() == old(self).spec_config(),
            final(self).banned() == live_bans(old(self).banned(), time),
    {
        let ghost before = self.temporary_banned@;
        let mut kept: Vec<(SocketAddress, u64)> = Vec::new();
        let mut i: usize = 0;
        proof {
            assert(before.take(0) =~= Seq::<(SocketAddress, u64)>::empty());
            assert(ban_map(kept@) =~= live_bans(ban_map(before.take(0)), time));
        }
        while i < self.temporary_banned.len()
            invariant
                i <= before.len(),
                self.temporary_banned@ == before,
                unique_addresses(before),
                unique_addresses(kept@),
                forall|k: int|
                    #![trigger kept@[k]]
                    0 <= k < kept@.len() ==> exists|j: int| 0 <= j < i && #[trigger] before[j] == kept@[k],
                ban_map(kept@) == live_bans(ban_map(before.take(i as int)), time),
            decreases before.len() - i,
        {
            let entry = self.temporary_banned[i];
            let ghost prefix = before.take(i as int);
            let ghost kept_before = kept@;
            proof {
                assert(before.take(i + 1) =~= prefix.push(entry));
                assert(before.take(i + 1).drop_last() =~= prefix);
                lemma_ban_map_keys(prefix, entry.0);
                assert(!ban_map(prefix).contains_key(entry.0)) by {
                    if ban_map(prefix).contains_key(entry.0) {
                        let j = choose|j: int| 0 <= j < prefix.len() && #[trigger] prefix[j].0 == entry.0;
                        assert(before[j].0 == before[i as int].0);
                    }
                }
            }
            if entry.1 > time {
                kept.push(entry);
                proof {
                    assert(kept@.drop_last() =~= kept_before);
                    assert forall|a: int, b: int| 0 <= a < b < kept@.len() implies kept@[a].0 != kept@[b].0 by {
                        if b == kept@.len() - 1 {
                            let j = choose|j: int| 0 <= j < i && #[trigger] before[j] == kept_before[a];
                            assert(before[j].0 != before[i as int].0);
                        }
                    }
                    assert forall|k: int|
                        #![trigger kept@[k]]
                        0 <= k < kept@.len() implies exists|j: int| 0 <= j < i + 1 && #[trigger] before[j] == kept@[k] by {
                        if k == kept@.len() - 1 {
                            assert(before[i as int] == kept@[k]);
                        } else {
                            let j = choose|j: int| 0 <= j < i && #[trigger] before[j] == kept_before[k];
                            assert(before[j] == kept@[k]);
                        }
                    }
                }
            }
            proof {
                assert(ban_map(kept@) =~= live_bans(ban_map(before.take(i + 1)), time));
            }
            i = i + 1;
        }
        proof {
            assert(before.take(i as int) =~= before);
        }
        self.temporary_banned = kept;
    }

    /// Discards a connection that was not accepted in time, banning its address; otherwise
    /// discards it when the connection itself should be dropped.
    pub fn should_discard(&mut self, time: u64, connection: &ConnectionImpl) -> (discard: bool)
        requires
            old(self).wf(),
            time + TEMPORARY_BAN_TIMEOUT <= u64::MAX,
        ensures
            final(self).wf(),
            final(self).spec_config() == old(self).spec_config(),
            (match connection.non_accepted_timeout {
                Some(timeout) => timeout < time,
                None => false,
            }) ==> discard && final(self).banned() == old(self).banned().insert(
                connection.conn.spec_remote_address(),
                (time + TEMPORARY_BAN_TIMEOUT) as u64,
            ),
            !(match connection.non_accepted_timeout {
                Some(timeout) => timeout < time,
                None => false,
            }) ==> final(self).banned() == old(self).banned() && discard == (
            (connection.conn.state().acks().spec_in_flight().dom().len() % 65536) as u16
                > old(self).spec_config().max_packets_in_flight || elapsed(
                connection.conn.state().spec_last_heard(),
                time,
            ) >= old(self).spec_config().idle_connection_timeout),
    {
        let timed_out = match connection.non_accepted_timeout {
            Some(timeout) => timeout < time,
            None => false,
        };
        if timed_out {
            self.ban(connection.conn.remote_address(), time + TEMPORARY_BAN_TIMEOUT);
            return true;
        }
        let (drop, _events) = connection.conn.should_drop(&self.config, time);
        drop
    }
}

/// Whether a connection to `address` is handed out: the local side asks for it, or the
/// address is not banned at `time`.
pub open spec fn accepted(banned: Map<SocketAddress, u64>, time: u64, address: SocketAddress, non_accepted_timeout: Option<u64>) -> bool {
    non_accepted_timeout is None || !(banned.contains_key(address) && banned[address] > time)
}

/// The bans once a connection to `address` was asked for: a local request lifts the ban.
pub open spec fn bans_after_request(banned: Map<SocketAddress, u64>, address: SocketAddress, non_accepted_timeout: Option<u64>) -> Map<SocketAddress, u64> {
    if non_accepted_timeout is None {
        banned.remove(address)
    } else {
        banned
    }
}

} // verus!
