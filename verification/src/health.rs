//! The running counters of one device, shared by everything that reports on it.

use vstd::prelude::*;

verus! {

/// The link as the status surfaces report it.
#[derive(Clone, Copy, Debug, PartialEq, Eq, Structural)]
pub enum LinkState {
    Connecting,
    Online,
    Backoff,
}

/// The counters and flags of one device. A counter wraps at `u64::MAX`.
#[derive(Clone, Copy, Debug, PartialEq, Eq, Structural)]
pub struct Health {
    pub link: LinkState,
    pub paused: bool,
    pub tls_handshake_failing: bool,
    pub samples_good: u64,
    pub samples_bad: u64,
    pub samples_uncertain: u64,
    pub samples_changed: u64,
    pub samples_suppressed: u64,
    pub read_errors: u64,
    pub write_errors: u64,
    pub reconnects: u64,
    pub poll_cycles: u64,
    pub overruns: u64,
    pub frames_consumed: u64,
    pub signals_published: u64,
    pub stale_signals: u64,
    pub poll_latency_ms: u64,
    pub publish_latency_ms: u64,
}

/// A counter after `n` more events.
pub open spec fn bumped(counter: u64, n: int) -> u64 {
    ((counter + n) % 0x1_0000_0000_0000_0000) as u64
}

/// A counter after `n` more events.
pub fn bump(counter: u64, n: u64) -> (r: u64)
    ensures
        r == bumped(counter, n as int),
{
    counter.wrapping_add(n)
}

impl Health {
    pub open spec fn fresh() -> Health {
        Health {
            link: LinkState::Connecting,
            paused: false,
            tls_handshake_failing: false,
            samples_good: 0,
            samples_bad: 0,
            samples_uncertain: 0,
            samples_changed: 0,
            samples_suppressed: 0,
            read_errors: 0,
            write_errors: 0,
            reconnects: 0,
            poll_cycles: 0,
            overruns: 0,
            frames_consumed: 0,
            signals_published: 0,
            stale_signals: 0,
            poll_latency_ms: 0,
            publish_latency_ms: 0,
        }
    }

    /// The counters of a device that has just been launched.
    pub fn new() -> (r: Health)
        ensures
            r == Health::fresh(),
    {
        Health {
            link: LinkState::Connecting,
            paused: false,
            tls_handshake_failing: false,
            samples_good: 0,
            samples_bad: 0,
            samples_uncertain: 0,
            samples_changed: 0,
            samples_suppressed: 0,
            read_errors: 0,
            write_errors: 0,
            reconnects: 0,
            poll_cycles: 0,
            overruns: 0,
            frames_consumed: 0,
            signals_published: 0,
            stale_signals: 0,
            poll_latency_ms: 0,
            publish_latency_ms: 0,
        }
    }
}

impl Default for Health {
    fn default() -> (r: Health)
        ensures
            r == Health::fresh(),
    {
        Health::new()
    }
}

/// A counter counts every event: below its limit by as many as there were, and events counted one
/// after the other as those counted at once.
pub proof fn a_counter_counts_every_event(counter: u64, a: u64, b: u64)
    ensures
        counter + a <= u64::MAX ==> bumped(counter, a as int) == counter + a,
        counter + a > u64::MAX ==> bumped(counter, a as int) == counter + a - 0x1_0000_0000_0000_0000,
        bumped(bumped(counter, a as int), b as int) == bumped(counter, a + b),
{
}

/// A device that has just been launched is connecting, is not paused, and has counted nothing.
pub proof fn a_new_device_has_counted_nothing()
    ensures
        Health::fresh().link == LinkState::Connecting,
        !Health::fresh().paused,
        !Health::fresh().tls_handshake_failing,
        Health::fresh().samples_good == 0 && Health::fresh().samples_bad == 0,
        Health::fresh().samples_uncertain == 0 && Health::fresh().samples_changed == 0,
        Health::fresh().samples_suppressed == 0 && Health::fresh().read_errors == 0,
        Health::fresh().write_errors == 0 && Health::fresh().reconnects == 0,
        Health::fresh().poll_cycles == 0 && Health::fresh().overruns == 0,
        Health::fresh().frames_consumed == 0 && Health::fresh().signals_published == 0,
        Health::fresh().stale_signals == 0,
{
}

} // verus!
