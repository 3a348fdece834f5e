use laminar::net::factory_impl::{FactoryImpl, NON_ACCEPT_TIMEOUT, TEMPORARY_BAN_TIMEOUT};
use laminar::packet::{IpAddress, Packet, SocketAddress};
use laminar::Config;

const TIME: u64 = 1_000_000;

fn address() -> SocketAddress {
    SocketAddress { ip: IpAddress::V4(0x7f00_0001), port: 10001 }
}

fn user_event() -> Packet {
    Packet::unreliable(address(), Default::default())
}

// bans `address()` the way the factory does: a remote connection not accepted in time
fn ban_address(factory: &mut FactoryImpl, time: u64) -> u64 {
    let conn = factory.should_accept_remote(time, address(), &[]).unwrap();
    let later = time + NON_ACCEPT_TIMEOUT + 1;
    assert!(factory.should_discard(later, &conn));
    later + TEMPORARY_BAN_TIMEOUT
}

#[test]
fn accepting_local_connection_do_not_set_accept_timeout() {
    let mut factory = FactoryImpl::new(Default::default());

    let conn = factory.should_accept_local(TIME, address(), &user_event()).unwrap();

    assert_eq!(conn.non_accepted_timeout, None);
}

#[test]
fn accepting_remote_connection_sets_accept_timeout() {
    let time = TIME;
    let mut factory = FactoryImpl::new(Default::default());

    let conn = factory.should_accept_remote(time, address(), &[]).unwrap();

    assert_eq!(conn.non_accepted_timeout, Some(time + NON_ACCEPT_TIMEOUT));
}

#[test]
fn when_non_accept_timeout_expires_connection_is_discarded_and_banned() {
    let time = TIME;
    let mut factory = FactoryImpl::new(Default::default());

    let conn = factory.should_accept_remote(time, address(), &[]).unwrap();
    let time = time + NON_ACCEPT_TIMEOUT + 1;
    let is_discarded = factory.should_discard(time, &conn);
    let bans = factory.temporary_banned();
    let banned = bans[0];

    assert_eq!(is_discarded, true);
    assert_eq!(banned.0, address());
    assert_eq!(banned.1, time + TEMPORARY_BAN_TIMEOUT);
}

#[test]
fn accepting_remote_while_banned_returns_none() {
    let mut factory = FactoryImpl::new(Default::default());

    let banned_until = ban_address(&mut factory, TIME);
    let conn = factory.should_accept_remote(banned_until - 1, address(), &[]);

    assert_eq!(conn.is_none(), true);
    // once the ban is over the address is accepted again
    assert!(factory.should_accept_remote(banned_until, address(), &[]).is_some());
}

#[test]
fn accepting_local_while_banned_removes_ban() {
    let mut factory = FactoryImpl::new(Default::default());

    let banned_until = ban_address(&mut factory, TIME);
    let conn = factory.should_accept_local(banned_until - 1, address(), &user_event());

    assert_eq!(conn.is_some(), true);
    assert_eq!(factory.temporary_banned().is_empty(), true);
}

#[test]
fn update_lifts_the_bans_that_have_ended() {
    let mut factory = FactoryImpl::new(Config::default());
    let banned_until = ban_address(&mut factory, TIME);
    factory.update(banned_until - 1);
    assert_eq!(factory.temporary_banned().len(), 1);
    factory.update(banned_until);
    assert!(factory.temporary_banned().is_empty());
}

#[test]
fn accepted_connections_are_discarded_when_silent() {
    let config = Config::default();
    let mut factory = FactoryImpl::new(config.clone());
    let conn = factory.should_accept_local(TIME, address(), &user_event()).unwrap();
    assert!(!factory.should_discard(TIME + 1, &conn));
    assert!(factory.should_discard(TIME + config.idle_connection_timeout, &conn));
    // a silent connection is not banned
    assert!(factory.temporary_banned().is_empty());
}
