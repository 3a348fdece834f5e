use std::sync::Arc;
use std::time::Duration;

use laminar::net::RttMeasurer;
use laminar::Config;

#[test]
fn convert_duration_to_milliseconds_test() {
    let network_quality = RttMeasurer::new(Arc::new(Config::default()));
    let milliseconds1 = network_quality.as_milliseconds(Duration::from_secs(1));
    let milliseconds2 = network_quality.as_milliseconds(Duration::from_millis(1500));
    let milliseconds3 = network_quality.as_milliseconds(Duration::from_millis(1671));

    assert_eq!(milliseconds1, 1000);
    assert_eq!(milliseconds2, 1500);
    assert_eq!(milliseconds3, 1671);
}

#[test]
fn milliseconds_drop_the_sub_millisecond_part() {
    let network_quality = RttMeasurer::new(Arc::new(Config::default()));
    assert_eq!(network_quality.as_milliseconds(Duration::from_micros(2_999)), 2);
    assert_eq!(network_quality.as_milliseconds(Duration::new(3, 999_999_999)), 3999);
}

#[test]
fn checked_conversion_refuses_durations_too_long_for_its_arithmetic() {
    let network_quality = RttMeasurer::new(Arc::new(Config::default()));
    assert_eq!(network_quality.try_as_milliseconds(Duration::from_millis(1671)), Some(1671));
    assert_eq!(network_quality.try_as_milliseconds(Duration::from_secs(u64::MAX)), None);
    let largest = (u64::MAX - 1_000_000_000) / 1_000_000_000;
    assert_eq!(
        network_quality.try_as_milliseconds(Duration::new(largest, 999_999_999)),
        Some(largest * 1000 + 999)
    );
    // 18446744073 s and 709551615 ns are exactly u64::MAX nanoseconds.
    assert_eq!(
        network_quality.try_as_milliseconds(Duration::new(18_446_744_073, 709_551_615)),
        Some(18_446_744_073_709)
    );
    assert_eq!(network_quality.as_milliseconds(Duration::new(18_446_744_073, 709_551_615)), 18_446_744_073_709);
    assert_eq!(network_quality.try_as_milliseconds(Duration::new(18_446_744_073, 709_551_616)), None);
}

#[test]
fn quality_test_create_connection() {
    // 127.0.0.1:20000
    let addr = laminar::packet::SocketAddress { ip: laminar::packet::IpAddress::V4(0x7f00_0001), port: 20000 };
    let new_conn = laminar::net::VirtualConnection::new(addr, &Config::default(), 0);
    assert_eq!(new_conn.remote_address(), addr);
}
