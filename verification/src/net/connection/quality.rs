use vstd::prelude::*;

use std::sync::Arc;
use std::time::Duration;

use crate::config::Config;

verus! {

/// The whole seconds that `std::time::Duration::as_secs` reports of a duration.
pub uninterp spec fn duration_secs(d: Duration) -> u64;

/// The fractional nanoseconds that `std::time::Duration::subsec_nanos` reports of a duration.
pub uninterp spec fn duration_subsec_nanos(d: Duration) -> u32;

/// Calls `Duration::as_secs`; its result is named `duration_secs(d)`.
#[verifier::external_body]
fn secs_of(d: &Duration) -> (secs: u64)
    ensures
        secs == duration_secs(*d),
{
    d.as_secs()
}

/// Calls `Duration::subsec_nanos`, which std documents to return the fractional part of
/// the duration in nanoseconds, always below one billion; its result is named
/// `duration_subsec_nanos(d)`.
#[verifier::external_body]
fn subsec_nanos_of(d: &Duration) -> (nanos: u32)
    ensures
        nanos == duration_subsec_nanos(*d),
        nanos < 1_000_000_000,
{
    d.subsec_nanos()
}

/// Represents the quality of a network.
#[allow(dead_code)]
pub enum NetworkQuality {
    /// Connection is generally good, minimal packet loss or latency
    Good,
    /// Connection is generally bad, having an impact on game performance
    Bad,
}

/// The number of whole milliseconds in a duration of `secs` seconds and `nanos` nanoseconds.
pub open spec fn millis_of(secs: u64, nanos: u32) -> int {
    (1_000_000_000 * secs + nanos) / 1_000_000
}

/// This type helps with calculating the round trip time from any packet.
/// It is able to smooth out the network jitter if there is any.
pub struct RttMeasurer {
    config: Arc<Config>,
}

impl RttMeasurer {
    /// The configuration the measurer works with.
    pub closed spec fn config(&self) -> Config {
        *self.config
    }

    /// Creates and returns a new RttMeasurer
    pub fn new(config: Arc<Config>) -> (measurer: RttMeasurer)
        ensures
            measurer.config() == *config,
    {
        RttMeasurer { config }
    }

    /// Converts a duration to whole milliseconds: its length in nanoseconds, divided by one
    /// million and rounded down.
    pub fn as_milliseconds(&self, duration: Duration) -> (millis: u64)
        requires
            1_000_000_000 * duration_secs(duration) + duration_subsec_nanos(duration) <= u64::MAX,
        ensures
            millis == millis_of(duration_secs(duration), duration_subsec_nanos(duration)),
    {
        let nanos = subsec_nanos_of(&duration) as u64;
        (1000 * 1000 * 1000 * secs_of(&duration) + nanos) / (1000 * 1000)
    }

    /// Converts a duration to milliseconds, or gives `None` when the duration is too long
    /// for its length in nanoseconds to fit in 64 bits.
    pub fn try_as_milliseconds(&self, duration: Duration) -> (millis: Option<u64>)
        ensures
            1_000_000_000 * duration_secs(duration) + duration_subsec_nanos(duration) <= u64::MAX
                ==> millis == Some(
                millis_of(duration_secs(duration), duration_subsec_nanos(duration)) as u64,
            ),
            1_000_000_000 * duration_secs(duration) + duration_subsec_nanos(duration) > u64::MAX
                ==> millis is None,
    {
        let secs = secs_of(&duration);
        let nanos = subsec_nanos_of(&duration) as u64;
        if secs <= (u64::MAX - nanos) / 1_000_000_000 {
            proof {
                assert(1_000_000_000 * secs + nanos <= u64::MAX) by (nonlinear_arith)
                    requires
                        secs <= (u64::MAX - nanos) / 1_000_000_000,
                        nanos <= u64::MAX,
                ;
            }
            Some(self.as_milliseconds(duration))
        } else {
            proof {
                assert(1_000_000_000 * secs + nanos > u64::MAX) by (nonlinear_arith)
                    requires
                        secs > (u64::MAX - nanos) / 1_000_000_000,
                        nanos <= u64::MAX,
                ;
            }
            None
        }
    }
}

} // verus!
