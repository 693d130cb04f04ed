//! The counter state behind the metric families.

use vstd::prelude::*;

use crate::clock::Instant;
use crate::text::{join2, owned};

verus! {

/// A total that only grows and an interval that starts again with each emit. Both stop at `u64::MAX`.
#[derive(Clone, Copy, Debug, PartialEq, Eq, Structural)]
pub struct Pair {
    pub total: u64,
    pub interval: u64,
}

/// `a + b`, at most `u64::MAX`.
pub open spec fn sum(a: u64, b: u64) -> u64 {
    if a + b <= u64::MAX {
        (a + b) as u64
    } else {
        u64::MAX
    }
}

/// `a + b`, at most `u64::MAX`.
pub fn add_up(a: u64, b: u64) -> (r: u64)
    ensures
        r == sum(a, b),
{
    a.saturating_add(b)
}

/// The value of one measure.
#[derive(Clone, Copy, Debug, PartialEq, Eq, Structural)]
pub enum Amount {
    /// A number, in the measure's unit.
    Number(u64),
    /// A span in nanoseconds, for a measure in milliseconds.
    Nanos(u128),
    /// A number that may be negative.
    Signed(i64),
}

/// One measure of an emit.
#[derive(Debug)]
pub struct Measure {
    pub name: String,
    pub amount: Amount,
}

/// The measures of a list: each name with its value, in order.
pub open spec fn measured(s: Seq<Measure>) -> Seq<(Seq<char>, Amount)> {
    Seq::new(s.len(), |i: int| (s[i].name@, s[i].amount))
}

/// One measure.
pub open spec fn value_of(name: Seq<char>, amount: Amount) -> Seq<(Seq<char>, Amount)> {
    seq![(name, amount)]
}

/// The two measures of a counter.
pub open spec fn pair_of(prefix: Seq<char>, p: Pair) -> Seq<(Seq<char>, Amount)> {
    seq![
        (prefix + "Total"@, Amount::Number(p.total)),
        (prefix + "Interval"@, Amount::Number(p.interval)),
    ]
}

pub open spec fn flag(b: bool) -> Amount {
    Amount::Number(
        if b {
            1
        } else {
            0
        },
    )
}

/// Append one measure.
pub fn put(out: &mut Vec<Measure>, name: &str, amount: Amount)
    ensures
        measured(final(out)@) == measured(old(out)@) + value_of(name@, amount),
{
    let one = Measure { name: owned(name), amount };
    out.push(one);
    assert(measured(out@) =~= measured(old(out)@) + value_of(name@, amount));
}

/// Append a flag as zero or one.
pub fn put_flag(out: &mut Vec<Measure>, name: &str, b: bool)
    ensures
        measured(final(out)@) == measured(old(out)@) + value_of(name@, flag(b)),
{
    if b {
        put(out, name, Amount::Number(1));
    } else {
        put(out, name, Amount::Number(0));
    }
}

/// A list without measures.
pub fn nothing_measured() -> (r: Vec<Measure>)
    ensures
        measured(r@) == Seq::<(Seq<char>, Amount)>::empty(),
{
    let r: Vec<Measure> = Vec::new();
    assert(measured(r@) =~= Seq::<(Seq<char>, Amount)>::empty());
    r
}

impl Pair {
    pub open spec fn zero() -> Pair {
        Pair { total: 0, interval: 0 }
    }

    pub open spec fn plus(self, v: u64) -> Pair {
        Pair { total: sum(self.total, v), interval: sum(self.interval, v) }
    }

    /// The counter once it has been emitted.
    pub open spec fn emitted(self) -> Pair {
        Pair { total: self.total, interval: 0 }
    }

    /// A counter at zero.
    pub fn new() -> (r: Pair)
        ensures
            r == Pair::zero(),
    {
        Pair { total: 0, interval: 0 }
    }

    /// Count `v` more.
    pub fn add(&mut self, v: u64)
        ensures
            *final(self) == old(self).plus(v),
    {
        self.total = add_up(self.total, v);
        self.interval = add_up(self.interval, v);
    }

    /// Append both measures, and start the interval again.
    pub fn drain_into(&mut self, out: &mut Vec<Measure>, prefix: &str)
        ensures
            measured(final(out)@) == measured(old(out)@) + pair_of(prefix@, *old(self)),
            *final(self) == old(self).emitted(),
    {
        let total = join2(prefix, "Total");
        let interval = join2(prefix, "Interval");
        put(out, total.as_str(), Amount::Number(self.total));
        put(out, interval.as_str(), Amount::Number(self.interval));
        self.interval = 0;
        assert(measured(out@) =~= measured(old(out)@) + pair_of(prefix@, *old(self)));
    }
}

/// The session and connect counters.
#[derive(Clone, Copy, Debug, PartialEq, Eq, Structural)]
pub struct ConnCounters {
    pub session_connected: bool,
    pub ever_connected: bool,
    pub connect_attempts: Pair,
    pub connect_failures: Pair,
    pub connection_drops: Pair,
    pub reconnects: Pair,
    pub tls_handshake_failures: Pair,
    pub connect_latency_ms: u64,
    /// How long sessions were up since the last emit.
    pub connected_nanos: u128,
    pub connected_since: Option<Instant>,
    /// Days to the end of validity of the adapter's own certificate, as last seen.
    pub cert_expiry_days: Option<i64>,
    pub cert_reloads: Pair,
    pub est_enrollments: Pair,
    pub est_failures: Pair,
}

impl ConnCounters {
    pub open spec fn zero() -> ConnCounters {
        ConnCounters {
            session_connected: false,
            ever_connected: false,
            connect_attempts: Pair::zero(),
            connect_failures: Pair::zero(),
            connection_drops: Pair::zero(),
            reconnects: Pair::zero(),
            tls_handshake_failures: Pair::zero(),
            connect_latency_ms: 0,
            connected_nanos: 0,
            connected_since: None,
            cert_expiry_days: None,
            cert_reloads: Pair::zero(),
            est_enrollments: Pair::zero(),
            est_failures: Pair::zero(),
        }
    }

    /// The counters with the session's time up to `now` counted.
    pub open spec fn accrued(self, now: Instant) -> ConnCounters {
        match self.connected_since {
            Some(since) => ConnCounters {
                connected_nanos: if self.connected_nanos + now.after(since) <= u128::MAX {
                    (self.connected_nanos + now.after(since)) as u128
                } else {
                    u128::MAX
                },
                connected_since: Some(now),
                ..self
            },
            None => self,
        }
    }

    /// Whether there is anything to say of the adapter's own certificate.
    pub open spec fn has_certificate(self) -> bool {
        self.cert_expiry_days is Some || self.cert_reloads.total > 0 || self.est_enrollments.total > 0
            || self.est_failures.total > 0
    }

    /// What an emit carries of the adapter's own certificate: nothing until there is something to say.
    pub open spec fn certificate_values(self) -> Seq<(Seq<char>, Amount)> {
        if self.has_certificate() {
            pair_of("certReloads"@, self.cert_reloads) + pair_of(
                "estEnrollments"@,
                self.est_enrollments,
            ) + pair_of("estFailures"@, self.est_failures) + (match self.cert_expiry_days {
                Some(d) => value_of("certExpiryDays"@, Amount::Signed(d)),
                None => Seq::empty(),
            })
        } else {
            Seq::empty()
        }
    }

    /// What an emit carries: the session and connect counters, then what there is to say of the
    /// adapter's own certificate.
    pub open spec fn values(self) -> Seq<(Seq<char>, Amount)> {
        self.session_values() + self.certificate_values()
    }

    /// What an emit carries of the session and the connects.
    pub open spec fn session_values(self) -> Seq<(Seq<char>, Amount)> {
        value_of("sessionConnected"@, flag(self.session_connected)) + pair_of(
            "connectAttempts"@,
            self.connect_attempts,
        ) + pair_of("connectFailures"@, self.connect_failures) + pair_of(
            "connectionDrops"@,
            self.connection_drops,
        ) + pair_of("reconnects"@, self.reconnects) + pair_of(
            "tlsHandshakeFailures"@,
            self.tls_handshake_failures,
        ) + value_of("connectLatencyMs"@, Amount::Number(self.connect_latency_ms)) + value_of(
            "connectedDurationMs"@,
            Amount::Nanos(self.connected_nanos),
        )
    }

    /// The counters once they have been emitted.
    pub open spec fn emitted(self) -> ConnCounters {
        ConnCounters {
            connect_attempts: self.connect_attempts.emitted(),
            connect_failures: self.connect_failures.emitted(),
            connection_drops: self.connection_drops.emitted(),
            reconnects: self.reconnects.emitted(),
            tls_handshake_failures: self.tls_handshake_failures.emitted(),
            connected_nanos: 0,
            cert_reloads: self.cert_reloads.emitted(),
            est_enrollments: self.est_enrollments.emitted(),
            est_failures: self.est_failures.emitted(),
            ..self
        }
    }

    /// The counters once a connect was attempted.
    pub open spec fn attempted(self) -> ConnCounters {
        ConnCounters { connect_attempts: self.connect_attempts.plus(1), ..self }
    }

    /// The counters once a connect succeeded. Every success but the first is a reconnect.
    pub open spec fn opened(self, latency_ms: u64, now: Instant) -> ConnCounters {
        ConnCounters {
            session_connected: true,
            ever_connected: true,
            connect_latency_ms: latency_ms,
            connected_since: Some(now),
            reconnects: if self.ever_connected {
                self.reconnects.plus(1)
            } else {
                self.reconnects
            },
            ..self
        }
    }

    /// The counters once a connect failed.
    pub open spec fn refused(self) -> ConnCounters {
        ConnCounters { connect_failures: self.connect_failures.plus(1), ..self }
    }

    /// The counters once a TLS handshake failed.
    pub open spec fn handshake_failed(self) -> ConnCounters {
        ConnCounters { tls_handshake_failures: self.tls_handshake_failures.plus(1), ..self }
    }

    /// The counters once a session ended.
    pub open spec fn dropped(self, now: Instant) -> ConnCounters {
        ConnCounters {
            connected_since: None,
            session_connected: false,
            connection_drops: self.connection_drops.plus(1),
            ..self.accrued(now)
        }
    }

    /// The counters once the end of validity was seen.
    pub open spec fn expiry_seen(self, days: i64) -> ConnCounters {
        ConnCounters { cert_expiry_days: Some(days), ..self }
    }

    /// The counters once new certificate material was seen.
    pub open spec fn reloaded(self) -> ConnCounters {
        ConnCounters { cert_reloads: self.cert_reloads.plus(1), ..self }
    }

    /// The counters once a certificate was enrolled, or could not be.
    pub open spec fn enrolled(self, ok: bool) -> ConnCounters {
        if ok {
            ConnCounters { est_enrollments: self.est_enrollments.plus(1), ..self }
        } else {
            ConnCounters { est_failures: self.est_failures.plus(1), ..self }
        }
    }

    pub fn new() -> (r: ConnCounters)
        ensures
            r == ConnCounters::zero(),
    {
        ConnCounters {
            session_connected: false,
            ever_connected: false,
            connect_attempts: Pair::new(),
            connect_failures: Pair::new(),
            connection_drops: Pair::new(),
            reconnects: Pair::new(),
            tls_handshake_failures: Pair::new(),
            connect_latency_ms: 0,
            connected_nanos: 0,
            connected_since: None,
            cert_expiry_days: None,
            cert_reloads: Pair::new(),
            est_enrollments: Pair::new(),
            est_failures: Pair::new(),
        }
    }

    /// Count the session's time up to `now`.
    pub fn accrue(&mut self, now: Instant)
        ensures
            *final(self) == old(self).accrued(now),
    {
        match self.connected_since {
            Some(since) => {
                self.connected_nanos = self.connected_nanos.saturating_add(now.since(since).nanos);
                self.connected_since = Some(now);
            },
            None => {},
        }
    }

    /// What the emit at `now` carries; the intervals start again.
    pub fn drain(&mut self, now: Instant) -> (v: Vec<Measure>)
        ensures
            measured(v@) == old(self).accrued(now).values(),
            *final(self) == old(self).accrued(now).emitted(),
    {
        self.accrue(now);
        let ghost at = *self;
        let mut v = nothing_measured();
        put_flag(&mut v, "sessionConnected", self.session_connected);
        self.connect_attempts.drain_into(&mut v, "connectAttempts");
        self.connect_failures.drain_into(&mut v, "connectFailures");
        self.connection_drops.drain_into(&mut v, "connectionDrops");
        self.reconnects.drain_into(&mut v, "reconnects");
        self.tls_handshake_failures.drain_into(&mut v, "tlsHandshakeFailures");
        put(&mut v, "connectLatencyMs", Amount::Number(self.connect_latency_ms));
        put(&mut v, "connectedDurationMs", Amount::Nanos(self.connected_nanos));
        self.connected_nanos = 0;
        assert(measured(v@) =~= at.session_values());
        if self.cert_expiry_days.is_some() || self.cert_reloads.total > 0 || self.est_enrollments.total > 0
            || self.est_failures.total > 0 {
            self.cert_reloads.drain_into(&mut v, "certReloads");
            self.est_enrollments.drain_into(&mut v, "estEnrollments");
            self.est_failures.drain_into(&mut v, "estFailures");
            if let Some(d) = self.cert_expiry_days {
                put(&mut v, "certExpiryDays", Amount::Signed(d));
            }
        } else {
            self.cert_reloads.interval = 0;
            self.est_enrollments.interval = 0;
            self.est_failures.interval = 0;
        }
        assert(measured(v@) =~= at.values());
        v
    }
}

/// The counters of the poll cycles of one group with one outcome.
#[derive(Clone, Copy, Debug, PartialEq, Eq, Structural)]
pub struct PollCounters {
    pub poll_cycles: Pair,
    pub poll_duration_ms: u64,
    pub tag_reads: Pair,
    pub tag_read_errors: Pair,
    pub samples_good: Pair,
    pub samples_bad: Pair,
    pub samples_uncertain: Pair,
    pub samples_changed: Pair,
    pub samples_suppressed: Pair,
    pub poll_overruns: Pair,
}

impl PollCounters {
    pub open spec fn zero() -> PollCounters {
        PollCounters {
            poll_cycles: Pair::zero(),
            poll_duration_ms: 0,
            tag_reads: Pair::zero(),
            tag_read_errors: Pair::zero(),
            samples_good: Pair::zero(),
            samples_bad: Pair::zero(),
            samples_uncertain: Pair::zero(),
            samples_changed: Pair::zero(),
            samples_suppressed: Pair::zero(),
            poll_overruns: Pair::zero(),
        }
    }

    pub open spec fn values(self) -> Seq<(Seq<char>, Amount)> {
        pair_of("pollCycles"@, self.poll_cycles) + value_of(
            "pollDurationMs"@,
            Amount::Number(self.poll_duration_ms),
        ) + pair_of("tagReads"@, self.tag_reads) + pair_of("tagReadErrors"@, self.tag_read_errors)
            + pair_of("samplesGood"@, self.samples_good) + pair_of("samplesBad"@, self.samples_bad)
            + pair_of("samplesUncertain"@, self.samples_uncertain) + pair_of(
            "samplesChanged"@,
            self.samples_changed,
        ) + pair_of("samplesSuppressed"@, self.samples_suppressed) + pair_of(
            "pollOverruns"@,
            self.poll_overruns,
        )
    }

    pub open spec fn emitted(self) -> PollCounters {
        PollCounters {
            poll_cycles: self.poll_cycles.emitted(),
            poll_duration_ms: 0,
            tag_reads: self.tag_reads.emitted(),
            tag_read_errors: self.tag_read_errors.emitted(),
            samples_good: self.samples_good.emitted(),
            samples_bad: self.samples_bad.emitted(),
            samples_uncertain: self.samples_uncertain.emitted(),
            samples_changed: self.samples_changed.emitted(),
            samples_suppressed: self.samples_suppressed.emitted(),
            poll_overruns: self.poll_overruns.emitted(),
        }
    }

    pub fn new() -> (r: PollCounters)
        ensures
            r == PollCounters::zero(),
    {
        PollCounters {
            poll_cycles: Pair::new(),
            poll_duration_ms: 0,
            tag_reads: Pair::new(),
            tag_read_errors: Pair::new(),
            samples_good: Pair::new(),
            samples_bad: Pair::new(),
            samples_uncertain: Pair::new(),
            samples_changed: Pair::new(),
            samples_suppressed: Pair::new(),
            poll_overruns: Pair::new(),
        }
    }

    /// What an emit carries; the intervals start again.
    pub fn drain(&mut self) -> (v: Vec<Measure>)
        ensures
            measured(v@) == old(self).values(),
            *final(self) == old(self).emitted(),
    {
        let mut v = nothing_measured();
        self.poll_cycles.drain_into(&mut v, "pollCycles");
        put(&mut v, "pollDurationMs", Amount::Number(self.poll_duration_ms));
        self.poll_duration_ms = 0;
        self.tag_reads.drain_into(&mut v, "tagReads");
        self.tag_read_errors.drain_into(&mut v, "tagReadErrors");
        self.samples_good.drain_into(&mut v, "samplesGood");
        self.samples_bad.drain_into(&mut v, "samplesBad");
        self.samples_uncertain.drain_into(&mut v, "samplesUncertain");
        self.samples_changed.drain_into(&mut v, "samplesChanged");
        self.samples_suppressed.drain_into(&mut v, "samplesSuppressed");
        self.poll_overruns.drain_into(&mut v, "pollOverruns");
        assert(measured(v@) =~= old(self).values());
        v
    }
}

/// The counters of the publishes of one publish mode.
#[derive(Clone, Copy, Debug, PartialEq, Eq, Structural)]
pub struct PubCounters {
    pub data_messages: Pair,
    pub samples: Pair,
    pub failures: Pair,
    pub batch_flushes: Pair,
    pub batch_size: u64,
    pub publish_latency_ms: u64,
}

impl PubCounters {
    pub open spec fn zero() -> PubCounters {
        PubCounters {
            data_messages: Pair::zero(),
            samples: Pair::zero(),
            failures: Pair::zero(),
            batch_flushes: Pair::zero(),
            batch_size: 0,
            publish_latency_ms: 0,
        }
    }

    pub open spec fn values(self) -> Seq<(Seq<char>, Amount)> {
        pair_of("dataMessagesPublished"@, self.data_messages) + pair_of(
            "samplesPublished"@,
            self.samples,
        ) + pair_of("publishFailures"@, self.failures) + pair_of("batchFlushes"@, self.batch_flushes)
            + value_of("batchSize"@, Amount::Number(self.batch_size)) + value_of(
            "publishLatencyMs"@,
            Amount::Number(self.publish_latency_ms),
        )
    }

    pub open spec fn emitted(self) -> PubCounters {
        PubCounters {
            data_messages: self.data_messages.emitted(),
            samples: self.samples.emitted(),
            failures: self.failures.emitted(),
            batch_flushes: self.batch_flushes.emitted(),
            publish_latency_ms: 0,
            ..self
        }
    }

    /// The counters after one publish of `samples` samples.
    pub open spec fn published(self, samples: u64, from_batch: bool, latency_ms: u64, ok: bool) -> PubCounters {
        PubCounters {
            data_messages: self.data_messages.plus(1),
            samples: if ok {
                self.samples.plus(samples)
            } else {
                self.samples
            },
            publish_latency_ms: if ok {
                sum(self.publish_latency_ms, latency_ms)
            } else {
                self.publish_latency_ms
            },
            failures: if ok {
                self.failures
            } else {
                self.failures.plus(1)
            },
            batch_flushes: if from_batch {
                self.batch_flushes.plus(1)
            } else {
                self.batch_flushes
            },
            batch_size: if from_batch {
                samples
            } else {
                self.batch_size
            },
        }
    }

    pub fn new() -> (r: PubCounters)
        ensures
            r == PubCounters::zero(),
    {
        PubCounters {
            data_messages: Pair::new(),
            samples: Pair::new(),
            failures: Pair::new(),
            batch_flushes: Pair::new(),
            batch_size: 0,
            publish_latency_ms: 0,
        }
    }

    /// Count one publish of `samples` samples.
    pub fn count(&mut self, samples: u64, from_batch: bool, latency_ms: u64, ok: bool)
        ensures
            *final(self) == old(self).published(samples, from_batch, latency_ms, ok),
    {
        self.data_messages.add(1);
        if ok {
            self.samples.add(samples);
            self.publish_latency_ms = add_up(self.publish_latency_ms, latency_ms);
        } else {
            self.failures.add(1);
        }
        if from_batch {
            self.batch_flushes.add(1);
            self.batch_size = samples;
        }
    }

    /// What an emit carries; the intervals start again.
    pub fn drain(&mut self) -> (v: Vec<Measure>)
        ensures
            measured(v@) == old(self).values(),
            *final(self) == old(self).emitted(),
    {
        let mut v = nothing_measured();
        self.data_messages.drain_into(&mut v, "dataMessagesPublished");
        self.samples.drain_into(&mut v, "samplesPublished");
        self.failures.drain_into(&mut v, "publishFailures");
        self.batch_flushes.drain_into(&mut v, "batchFlushes");
        put(&mut v, "batchSize", Amount::Number(self.batch_size));
        put(&mut v, "publishLatencyMs", Amount::Number(self.publish_latency_ms));
        self.publish_latency_ms = 0;
        assert(measured(v@) =~= old(self).values());
        v
    }
}

/// The counters of one command with one outcome.
#[derive(Clone, Copy, Debug, PartialEq, Eq, Structural)]
pub struct CmdCounters {
    pub command_requests: Pair,
    pub command_errors: Pair,
    pub command_latency_ms: u64,
    pub read_signals: Pair,
    pub write_signals: Pair,
    pub write_failures: Pair,
    pub browsed_tags: Pair,
    pub pause_requests: Pair,
    pub resume_requests: Pair,
    pub reconnect_requests: Pair,
    pub repoll_requests: Pair,
}

impl CmdCounters {
    pub open spec fn zero() -> CmdCounters {
        CmdCounters {
            command_requests: Pair::zero(),
            command_errors: Pair::zero(),
            command_latency_ms: 0,
            read_signals: Pair::zero(),
            write_signals: Pair::zero(),
            write_failures: Pair::zero(),
            browsed_tags: Pair::zero(),
            pause_requests: Pair::zero(),
            resume_requests: Pair::zero(),
            reconnect_requests: Pair::zero(),
            repoll_requests: Pair::zero(),
        }
    }

    pub open spec fn values(self) -> Seq<(Seq<char>, Amount)> {
        pair_of("commandRequests"@, self.command_requests) + pair_of(
            "commandErrors"@,
            self.command_errors,
        ) + value_of("commandLatencyMs"@, Amount::Number(self.command_latency_ms)) + pair_of(
            "readSignals"@,
            self.read_signals,
        ) + pair_of("writeSignals"@, self.write_signals) + pair_of(
            "writeFailures"@,
            self.write_failures,
        ) + pair_of("browsedTags"@, self.browsed_tags) + pair_of("pauseRequests"@, self.pause_requests)
            + pair_of("resumeRequests"@, self.resume_requests) + pair_of(
            "reconnectRequests"@,
            self.reconnect_requests,
        ) + pair_of("repollRequests"@, self.repoll_requests)
    }

    pub open spec fn emitted(self) -> CmdCounters {
        CmdCounters {
            command_requests: self.command_requests.emitted(),
            command_errors: self.command_errors.emitted(),
            command_latency_ms: 0,
            read_signals: self.read_signals.emitted(),
            write_signals: self.write_signals.emitted(),
            write_failures: self.write_failures.emitted(),
            browsed_tags: self.browsed_tags.emitted(),
            pause_requests: self.pause_requests.emitted(),
            resume_requests: self.resume_requests.emitted(),
            reconnect_requests: self.reconnect_requests.emitted(),
            repoll_requests: self.repoll_requests.emitted(),
        }
    }

    pub fn new() -> (r: CmdCounters)
        ensures
            r == CmdCounters::zero(),
    {
        CmdCounters {
            command_requests: Pair::new(),
            command_errors: Pair::new(),
            command_latency_ms: 0,
            read_signals: Pair::new(),
            write_signals: Pair::new(),
            write_failures: Pair::new(),
            browsed_tags: Pair::new(),
            pause_requests: Pair::new(),
            resume_requests: Pair::new(),
            reconnect_requests: Pair::new(),
            repoll_requests: Pair::new(),
        }
    }

    /// What an emit carries; the intervals start again.
    pub fn drain(&mut self) -> (v: Vec<Measure>)
        ensures
            measured(v@) == old(self).values(),
            *final(self) == old(self).emitted(),
    {
        let mut v = nothing_measured();
        self.command_requests.drain_into(&mut v, "commandRequests");
        self.command_errors.drain_into(&mut v, "commandErrors");
        put(&mut v, "commandLatencyMs", Amount::Number(self.command_latency_ms));
        self.command_latency_ms = 0;
        self.read_signals.drain_into(&mut v, "readSignals");
        self.write_signals.drain_into(&mut v, "writeSignals");
        self.write_failures.drain_into(&mut v, "writeFailures");
        self.browsed_tags.drain_into(&mut v, "browsedTags");
        self.pause_requests.drain_into(&mut v, "pauseRequests");
        self.resume_requests.drain_into(&mut v, "resumeRequests");
        self.reconnect_requests.drain_into(&mut v, "reconnectRequests");
        self.repoll_requests.drain_into(&mut v, "repollRequests");
        assert(measured(v@) =~= old(self).values());
        v
    }
}

/// The counters of the class-1 stack, cumulative since the connection was opened.
#[derive(Clone, Copy, Debug, PartialEq, Eq, Structural)]
pub struct IoLinkStats {
    pub frames_produced: u64,
    pub stale_frames: u64,
    pub size_mismatch: u64,
    pub malformed_frames: u64,
    pub produce_overruns: u64,
    pub sequence_gaps: u64,
    pub refused_redirects: u64,
}

impl IoLinkStats {
    pub open spec fn zero() -> IoLinkStats {
        IoLinkStats {
            frames_produced: 0,
            stale_frames: 0,
            size_mismatch: 0,
            malformed_frames: 0,
            produce_overruns: 0,
            sequence_gaps: 0,
            refused_redirects: 0,
        }
    }
}

impl Default for IoLinkStats {
    fn default() -> (r: IoLinkStats)
        ensures
            r == IoLinkStats::zero(),
    {
        IoLinkStats {
            frames_produced: 0,
            stale_frames: 0,
            size_mismatch: 0,
            malformed_frames: 0,
            produce_overruns: 0,
            sequence_gaps: 0,
            refused_redirects: 0,
        }
    }
}

/// What a cumulative counter grew by since it was last read. One that fell was reset, and counts
/// from zero.
pub open spec fn growth(last: u64, cur: u64) -> u64 {
    if cur >= last {
        (cur - last) as u64
    } else {
        cur
    }
}

fn grown(last: u64, cur: u64) -> (r: u64)
    ensures
        r == growth(last, cur),
{
    if cur >= last {
        cur - last
    } else {
        cur
    }
}

/// The class-1 counters.
#[derive(Clone, Copy, Debug, PartialEq, Eq, Structural)]
pub struct IoCounters {
    pub io_connection_state: bool,
    pub forward_opens: Pair,
    pub forward_open_failures: Pair,
    pub frames_consumed: Pair,
    pub frames_produced: Pair,
    pub stale_frames_dropped: Pair,
    pub sequence_gaps: Pair,
    pub size_mismatch_dropped: Pair,
    pub malformed_frames: Pair,
    pub io_timeouts: Pair,
    pub produce_overruns: Pair,
    /// The redirects the stack refused.
    pub refused_redirects: Pair,
    pub inter_frame_nanos: u64,
    pub run_mode: bool,
    pub last_seq: Option<u16>,
    pub last_frame_at: Option<Instant>,
    /// The stack counters as they were last read on this connection.
    pub last_stats: IoLinkStats,
    pub o2t_api_ms: u32,
    pub t2o_api_ms: u32,
}

impl IoCounters {
    pub open spec fn zero() -> IoCounters {
        IoCounters {
            io_connection_state: false,
            forward_opens: Pair::zero(),
            forward_open_failures: Pair::zero(),
            frames_consumed: Pair::zero(),
            frames_produced: Pair::zero(),
            stale_frames_dropped: Pair::zero(),
            sequence_gaps: Pair::zero(),
            size_mismatch_dropped: Pair::zero(),
            malformed_frames: Pair::zero(),
            io_timeouts: Pair::zero(),
            produce_overruns: Pair::zero(),
            refused_redirects: Pair::zero(),
            inter_frame_nanos: 0,
            run_mode: false,
            last_seq: None,
            last_frame_at: None,
            last_stats: IoLinkStats::zero(),
            o2t_api_ms: 0,
            t2o_api_ms: 0,
        }
    }

    /// What an emit carries of refused redirects: nothing until there was one.
    pub open spec fn redirect_values(self) -> Seq<(Seq<char>, Amount)> {
        if self.refused_redirects.total > 0 {
            pair_of("refusedRedirects"@, self.refused_redirects)
        } else {
            Seq::empty()
        }
    }

    /// What an emit carries: the counters of the connection, then what there is to say of refused
    /// redirects.
    pub open spec fn values(self) -> Seq<(Seq<char>, Amount)> {
        self.link_values() + self.redirect_values()
    }

    /// What an emit carries of the connection.
    pub open spec fn link_values(self) -> Seq<(Seq<char>, Amount)> {
        value_of("ioConnectionState"@, flag(self.io_connection_state)) + pair_of(
            "forwardOpens"@,
            self.forward_opens,
        ) + pair_of("forwardOpenFailures"@, self.forward_open_failures) + pair_of(
            "framesConsumed"@,
            self.frames_consumed,
        ) + pair_of("framesProduced"@, self.frames_produced) + pair_of(
            "staleFramesDropped"@,
            self.stale_frames_dropped,
        ) + pair_of("sequenceGaps"@, self.sequence_gaps) + pair_of(
            "sizeMismatchDropped"@,
            self.size_mismatch_dropped,
        ) + pair_of("malformedFrames"@, self.malformed_frames) + pair_of(
            "ioTimeouts"@,
            self.io_timeouts,
        ) + pair_of("produceOverruns"@, self.produce_overruns) + value_of(
            "interFrameMs"@,
            Amount::Nanos(self.inter_frame_nanos as u128),
        ) + value_of("runMode"@, flag(self.run_mode))
    }

    pub open spec fn emitted(self) -> IoCounters {
        IoCounters {
            forward_opens: self.forward_opens.emitted(),
            forward_open_failures: self.forward_open_failures.emitted(),
            frames_consumed: self.frames_consumed.emitted(),
            frames_produced: self.frames_produced.emitted(),
            stale_frames_dropped: self.stale_frames_dropped.emitted(),
            sequence_gaps: self.sequence_gaps.emitted(),
            size_mismatch_dropped: self.size_mismatch_dropped.emitted(),
            malformed_frames: self.malformed_frames.emitted(),
            io_timeouts: self.io_timeouts.emitted(),
            produce_overruns: self.produce_overruns.emitted(),
            refused_redirects: self.refused_redirects.emitted(),
            ..self
        }
    }

    /// The counters after one accepted frame. A forward jump of the sequence is that many frames
    /// missed; the sequence wraps at 16 bits.
    pub open spec fn consumed(self, sequence: u16, received_at: Instant, run_mode: bool) -> IoCounters {
        let missed = match self.last_seq {
            Some(last) => {
                let step = (sequence - last) % 0x1_0000;
                if step > 1 {
                    (step - 1) as u64
                } else {
                    0
                }
            },
            None => 0,
        };
        IoCounters {
            frames_consumed: self.frames_consumed.plus(1),
            run_mode,
            sequence_gaps: self.sequence_gaps.plus(missed),
            last_seq: Some(sequence),
            inter_frame_nanos: match self.last_frame_at {
                Some(prev) => received_at.after(prev) as u64,
                None => self.inter_frame_nanos,
            },
            last_frame_at: Some(received_at),
            ..self
        }
    }

    /// The counters once the stack's own have been folded in.
    pub open spec fn folded(self, s: IoLinkStats) -> IoCounters {
        IoCounters {
            frames_produced: self.frames_produced.plus(
                growth(self.last_stats.frames_produced, s.frames_produced),
            ),
            stale_frames_dropped: self.stale_frames_dropped.plus(
                growth(self.last_stats.stale_frames, s.stale_frames),
            ),
            size_mismatch_dropped: self.size_mismatch_dropped.plus(
                growth(self.last_stats.size_mismatch, s.size_mismatch),
            ),
            malformed_frames: self.malformed_frames.plus(
                growth(self.last_stats.malformed_frames, s.malformed_frames),
            ),
            produce_overruns: self.produce_overruns.plus(
                growth(self.last_stats.produce_overruns, s.produce_overruns),
            ),
            refused_redirects: self.refused_redirects.plus(
                growth(self.last_stats.refused_redirects, s.refused_redirects),
            ),
            last_stats: s,
            ..self
        }
    }

    /// The counters with what belonged to the connection that is gone forgotten.
    pub open spec fn link_replaced(self) -> IoCounters {
        IoCounters { last_seq: None, last_frame_at: None, last_stats: IoLinkStats::zero(), ..self }
    }

    /// The counters once a class-1 open succeeded or failed.
    pub open spec fn forward_opened(self, ok: bool) -> IoCounters {
        IoCounters {
            forward_opens: if ok {
                self.forward_opens.plus(1)
            } else {
                self.forward_opens
            },
            forward_open_failures: if ok {
                self.forward_open_failures
            } else {
                self.forward_open_failures.plus(1)
            },
            ..self
        }
    }

    /// The counters once the connection is up.
    pub open spec fn up(self, o2t_api_ms: u32, t2o_api_ms: u32) -> IoCounters {
        IoCounters { io_connection_state: true, o2t_api_ms, t2o_api_ms, ..self }
    }

    /// The counters once the connection was lost.
    pub open spec fn lost(self) -> IoCounters {
        IoCounters {
            io_connection_state: false,
            io_timeouts: self.io_timeouts.plus(1),
            ..self.link_replaced()
        }
    }

    pub fn new() -> (r: IoCounters)
        ensures
            r == IoCounters::zero(),
    {
        IoCounters {
            io_connection_state: false,
            forward_opens: Pair::new(),
            forward_open_failures: Pair::new(),
            frames_consumed: Pair::new(),
            frames_produced: Pair::new(),
            stale_frames_dropped: Pair::new(),
            sequence_gaps: Pair::new(),
            size_mismatch_dropped: Pair::new(),
            malformed_frames: Pair::new(),
            io_timeouts: Pair::new(),
            produce_overruns: Pair::new(),
            refused_redirects: Pair::new(),
            inter_frame_nanos: 0,
            run_mode: false,
            last_seq: None,
            last_frame_at: None,
            last_stats: IoLinkStats::default(),
            o2t_api_ms: 0,
            t2o_api_ms: 0,
        }
    }

    /// Count one accepted frame.
    pub fn consume(&mut self, sequence: u16, received_at: Instant, run_mode: bool)
        ensures
            *final(self) == old(self).consumed(sequence, received_at, run_mode),
    {
        self.frames_consumed.add(1);
        self.run_mode = run_mode;
        let missed: u64 = match self.last_seq {
            Some(last) => {
                let step: u16 = sequence.wrapping_sub(last);
                if step > 1 {
                    (step - 1) as u64
                } else {
                    0
                }
            },
            None => 0,
        };
        self.sequence_gaps.add(missed);
        self.last_seq = Some(sequence);
        match self.last_frame_at {
            Some(prev) => {
                self.inter_frame_nanos = received_at.since(prev).nanos as u64;
            },
            None => {},
        }
        self.last_frame_at = Some(received_at);
    }

    /// Fold the stack's counters in; returns whether it refused a redirect that it had not refused when
    /// they were last read.
    pub fn fold(&mut self, s: IoLinkStats) -> (newly_refused: bool)
        ensures
            *final(self) == old(self).folded(s),
            newly_refused == (growth(old(self).last_stats.refused_redirects, s.refused_redirects) > 0),
    {
        self.frames_produced.add(grown(self.last_stats.frames_produced, s.frames_produced));
        self.stale_frames_dropped.add(grown(self.last_stats.stale_frames, s.stale_frames));
        self.size_mismatch_dropped.add(grown(self.last_stats.size_mismatch, s.size_mismatch));
        self.malformed_frames.add(grown(self.last_stats.malformed_frames, s.malformed_frames));
        self.produce_overruns.add(grown(self.last_stats.produce_overruns, s.produce_overruns));
        let refused: u64 = grown(self.last_stats.refused_redirects, s.refused_redirects);
        self.refused_redirects.add(refused);
        self.last_stats = s;
        refused > 0
    }

    /// What an emit carries; the intervals start again.
    pub fn drain(&mut self) -> (v: Vec<Measure>)
        ensures
            measured(v@) == old(self).values(),
            *final(self) == old(self).emitted(),
    {
        let mut v = nothing_measured();
        put_flag(&mut v, "ioConnectionState", self.io_connection_state);
        self.forward_opens.drain_into(&mut v, "forwardOpens");
        self.forward_open_failures.drain_into(&mut v, "forwardOpenFailures");
        self.frames_consumed.drain_into(&mut v, "framesConsumed");
        self.frames_produced.drain_into(&mut v, "framesProduced");
        self.stale_frames_dropped.drain_into(&mut v, "staleFramesDropped");
        self.sequence_gaps.drain_into(&mut v, "sequenceGaps");
        self.size_mismatch_dropped.drain_into(&mut v, "sizeMismatchDropped");
        self.malformed_frames.drain_into(&mut v, "malformedFrames");
        self.io_timeouts.drain_into(&mut v, "ioTimeouts");
        self.produce_overruns.drain_into(&mut v, "produceOverruns");
        put(&mut v, "interFrameMs", Amount::Nanos(self.inter_frame_nanos as u128));
        put_flag(&mut v, "runMode", self.run_mode);
        assert(measured(v@) =~= old(self).link_values());
        if self.refused_redirects.total > 0 {
            self.refused_redirects.drain_into(&mut v, "refusedRedirects");
        } else {
            self.refused_redirects.interval = 0;
        }
        assert(measured(v@) =~= old(self).values());
        v
    }
}

// ---- what the counters keep ----

/// The total of a counter never falls, and an emit leaves it alone; the interval after an emit is what
/// was counted since.
pub proof fn a_total_only_grows_and_an_interval_starts_again(p: Pair, v: u64, w: u64)
    ensures
        p.plus(v).total >= p.total,
        p.emitted().total == p.total,
        p.emitted().interval == 0,
        p.plus(v).emitted().plus(w).interval == w,
        p.total + v + w <= u64::MAX ==> p.plus(v).emitted().plus(w).total == p.total + v + w,
{
}

/// The totals of what the stack counts.
pub open spec fn stack_totals(c: IoCounters) -> Seq<int> {
    seq![
        c.frames_produced.total as int,
        c.stale_frames_dropped.total as int,
        c.size_mismatch_dropped.total as int,
        c.malformed_frames.total as int,
        c.produce_overruns.total as int,
        c.refused_redirects.total as int,
    ]
}

/// What the stack says it counted on one connection.
pub open spec fn stack_counts(s: IoLinkStats) -> Seq<int> {
    seq![
        s.frames_produced as int,
        s.stale_frames as int,
        s.size_mismatch as int,
        s.malformed_frames as int,
        s.produce_overruns as int,
        s.refused_redirects as int,
    ]
}

/// Two reads of the stack's counters on one connection add up to the last of them, however the frames
/// fell between the reads.
pub proof fn stack_counters_add_up_on_one_connection(
    c: IoCounters,
    a: IoLinkStats,
    b: IoLinkStats,
    k: int,
)
    requires
        c.last_stats == IoLinkStats::zero(),
        0 <= k < 6,
        stack_counts(a)[k] <= stack_counts(b)[k],
        stack_totals(c)[k] + stack_counts(b)[k] <= u64::MAX,
    ensures
        stack_totals(c.folded(a).folded(b))[k] == stack_totals(c.folded(b))[k],
        stack_totals(c.folded(a).folded(b))[k] == stack_totals(c)[k] + stack_counts(b)[k],
{
}

/// A new connection's stack counters count from zero: the total of two connections is the sum of both.
pub proof fn a_new_connection_counts_from_zero(
    c: IoCounters,
    a: IoLinkStats,
    b: IoLinkStats,
    k: int,
)
    requires
        c.last_stats == IoLinkStats::zero(),
        0 <= k < 6,
        stack_totals(c)[k] + stack_counts(a)[k] + stack_counts(b)[k] <= u64::MAX,
    ensures
        stack_totals(c.folded(a).link_replaced().folded(b))[k] == stack_totals(c)[k] + stack_counts(
            a,
        )[k] + stack_counts(b)[k],
{
}

/// Frames that follow one another leave no gap, also across the wrap of the sequence; a jump counts exactly
/// the frames it skipped, and a frame that comes again counts none.
pub proof fn a_jump_counts_what_was_missed(
    c: IoCounters,
    last: u16,
    skipped: u16,
    received_at: Instant,
    run_mode: bool,
)
    requires
        c.last_seq == Some(last),
        skipped < 0xFFFF,
    ensures
        c.consumed(
            ((last + 1 + skipped) % 0x1_0000) as u16,
            received_at,
            run_mode,
        ).sequence_gaps == c.sequence_gaps.plus(skipped as u64),
        c.consumed(last, received_at, run_mode).sequence_gaps == c.sequence_gaps.plus(0),
{
}

/// A counter counts what it is given, below its limit exactly, and stops there; what is counted at once
/// and what is counted one after the other is the same.
pub proof fn a_pair_counts_what_it_is_given(p: Pair, v: u64, w: u64)
    ensures
        p.total + v <= u64::MAX ==> p.plus(v).total == p.total + v,
        p.total + v > u64::MAX ==> p.plus(v).total == u64::MAX,
        p.interval + v <= u64::MAX ==> p.plus(v).interval == p.interval + v,
        p.interval + v > u64::MAX ==> p.plus(v).interval == u64::MAX,
        v + w <= u64::MAX ==> p.plus(v).plus(w) == p.plus((v + w) as u64),
        p.plus(0) == p,
        Pair::zero().total == 0 && Pair::zero().interval == 0,
        sum(v, w) == (if v + w <= u64::MAX {
            v + w
        } else {
            u64::MAX as int
        }),
{
}

/// The time of a session is counted from its connect to its end and no further, whole, however often it is
/// looked at meanwhile; without a session none is counted.
pub proof fn a_session_is_timed_from_connect_to_drop(
    c: ConnCounters,
    latency_ms: u64,
    t0: Instant,
    t1: Instant,
    t2: Instant,
    t3: Instant,
)
    requires
        t0.nanos <= t1.nanos <= t2.nanos <= t3.nanos,
        c.connected_nanos + u64::MAX <= u128::MAX,
    ensures
        c.opened(latency_ms, t0).accrued(t1).accrued(t2).connected_nanos == c.connected_nanos + (t2.nanos
            - t0.nanos),
        c.opened(latency_ms, t0).accrued(t1).dropped(t2).connected_nanos == c.connected_nanos + (t2.nanos
            - t0.nanos),
        c.opened(latency_ms, t0).dropped(t2).accrued(t3).connected_nanos == c.connected_nanos + (t2.nanos
            - t0.nanos),
        c.connected_since is None ==> c.accrued(t1) == c,
        c.opened(latency_ms, t0).dropped(t2).connected_since is None,
{
}

/// Each thing that happens to a connection is counted under its own name and under no other: an attempt, a
/// refusal, a failed handshake, a drop, a reload, an enrollment or its failure. A connect is a reconnect
/// unless it is the first, and the session is up from it until it is dropped.
pub proof fn each_event_of_a_connection_is_counted_once(
    c: ConnCounters,
    latency_ms: u64,
    now: Instant,
    days: i64,
    ok: bool,
)
    ensures
        c.attempted() == (ConnCounters { connect_attempts: c.connect_attempts.plus(1), ..c }),
        c.refused() == (ConnCounters { connect_failures: c.connect_failures.plus(1), ..c }),
        c.handshake_failed() == (ConnCounters {
            tls_handshake_failures: c.tls_handshake_failures.plus(1),
            ..c
        }),
        c.reloaded() == (ConnCounters { cert_reloads: c.cert_reloads.plus(1), ..c }),
        c.expiry_seen(days) == (ConnCounters { cert_expiry_days: Some(days), ..c }),
        c.enrolled(true) == (ConnCounters { est_enrollments: c.est_enrollments.plus(1), ..c }),
        c.enrolled(false) == (ConnCounters { est_failures: c.est_failures.plus(1), ..c }),
        c.opened(latency_ms, now).session_connected && c.opened(latency_ms, now).ever_connected,
        c.opened(latency_ms, now).connect_latency_ms == latency_ms,
        c.opened(latency_ms, now).connected_since == Some(now),
        c.ever_connected ==> c.opened(latency_ms, now).reconnects == c.reconnects.plus(1),
        !c.ever_connected ==> c.opened(latency_ms, now).reconnects == c.reconnects,
        c.opened(latency_ms, now).connect_attempts == c.connect_attempts,
        c.opened(latency_ms, now).connect_failures == c.connect_failures,
        c.opened(latency_ms, now).connection_drops == c.connection_drops,
        !c.dropped(now).session_connected && c.dropped(now).ever_connected == c.ever_connected,
        c.dropped(now).connection_drops == c.connection_drops.plus(1),
        c.dropped(now).connect_attempts == c.connect_attempts,
        c.dropped(now).connect_failures == c.connect_failures,
        c.dropped(now).reconnects == c.reconnects,
        !ConnCounters::zero().ever_connected && !ConnCounters::zero().session_connected,
        ConnCounters::zero().connected_since is None && ConnCounters::zero().cert_expiry_days is None,
{
}

/// An emit starts every interval again and keeps every total, and what is known of the session stays.
pub proof fn an_emit_keeps_the_totals_of_a_connection(c: ConnCounters)
    ensures
        ({
            let e = c.emitted();
            &&& e.connect_attempts.total == c.connect_attempts.total && e.connect_attempts.interval == 0
            &&& e.connect_failures.total == c.connect_failures.total && e.connect_failures.interval == 0
            &&& e.connection_drops.total == c.connection_drops.total && e.connection_drops.interval == 0
            &&& e.reconnects.total == c.reconnects.total && e.reconnects.interval == 0
            &&& e.tls_handshake_failures.total == c.tls_handshake_failures.total
                && e.tls_handshake_failures.interval == 0
            &&& e.cert_reloads.total == c.cert_reloads.total && e.cert_reloads.interval == 0
            &&& e.est_enrollments.total == c.est_enrollments.total && e.est_enrollments.interval == 0
            &&& e.est_failures.total == c.est_failures.total && e.est_failures.interval == 0
            &&& e.connected_nanos == 0
            &&& e.connected_since == c.connected_since
            &&& e.session_connected == c.session_connected
            &&& e.ever_connected == c.ever_connected
            &&& e.cert_expiry_days == c.cert_expiry_days
            &&& e.connect_latency_ms == c.connect_latency_ms
        }),
{
}

/// The same of the class-1 counters: an emit starts the intervals again, and keeps the totals and what is
/// known of the connection.
pub proof fn an_emit_keeps_the_totals_of_a_class_1_connection(c: IoCounters)
    ensures
        ({
            let e = c.emitted();
            &&& e.forward_opens.total == c.forward_opens.total && e.forward_opens.interval == 0
            &&& e.forward_open_failures.total == c.forward_open_failures.total
                && e.forward_open_failures.interval == 0
            &&& e.frames_consumed.total == c.frames_consumed.total && e.frames_consumed.interval == 0
            &&& e.frames_produced.total == c.frames_produced.total && e.frames_produced.interval == 0
            &&& e.stale_frames_dropped.total == c.stale_frames_dropped.total
                && e.stale_frames_dropped.interval == 0
            &&& e.sequence_gaps.total == c.sequence_gaps.total && e.sequence_gaps.interval == 0
            &&& e.size_mismatch_dropped.total == c.size_mismatch_dropped.total
                && e.size_mismatch_dropped.interval == 0
            &&& e.malformed_frames.total == c.malformed_frames.total && e.malformed_frames.interval == 0
            &&& e.io_timeouts.total == c.io_timeouts.total && e.io_timeouts.interval == 0
            &&& e.produce_overruns.total == c.produce_overruns.total && e.produce_overruns.interval == 0
            &&& e.refused_redirects.total == c.refused_redirects.total && e.refused_redirects.interval == 0
            &&& e.io_connection_state == c.io_connection_state && e.run_mode == c.run_mode
            &&& e.last_seq == c.last_seq && e.last_frame_at == c.last_frame_at && e.last_stats
                == c.last_stats
            &&& e.inter_frame_nanos == c.inter_frame_nanos
            &&& e.o2t_api_ms == c.o2t_api_ms && e.t2o_api_ms == c.t2o_api_ms
        }),
{
}

/// The same of the counters of polls, publishes and commands.
pub proof fn an_emit_keeps_the_other_totals(p: PollCounters, q: PubCounters, c: CmdCounters)
    ensures
        ({
            let e = p.emitted();
            &&& e.poll_cycles.total == p.poll_cycles.total && e.poll_cycles.interval == 0
            &&& e.tag_reads.total == p.tag_reads.total && e.tag_reads.interval == 0
            &&& e.tag_read_errors.total == p.tag_read_errors.total && e.tag_read_errors.interval == 0
            &&& e.samples_good.total == p.samples_good.total && e.samples_good.interval == 0
            &&& e.samples_bad.total == p.samples_bad.total && e.samples_bad.interval == 0
            &&& e.samples_uncertain.total == p.samples_uncertain.total && e.samples_uncertain.interval == 0
            &&& e.samples_changed.total == p.samples_changed.total && e.samples_changed.interval == 0
            &&& e.samples_suppressed.total == p.samples_suppressed.total && e.samples_suppressed.interval
                == 0
            &&& e.poll_overruns.total == p.poll_overruns.total && e.poll_overruns.interval == 0
            &&& e.poll_duration_ms == 0
        }),
        ({
            let e = q.emitted();
            &&& e.data_messages.total == q.data_messages.total && e.data_messages.interval == 0
            &&& e.samples.total == q.samples.total && e.samples.interval == 0
            &&& e.failures.total == q.failures.total && e.failures.interval == 0
            &&& e.batch_flushes.total == q.batch_flushes.total && e.batch_flushes.interval == 0
            &&& e.publish_latency_ms == 0
            &&& e.batch_size == q.batch_size
        }),
        ({
            let e = c.emitted();
            &&& e.command_requests.total == c.command_requests.total && e.command_requests.interval == 0
            &&& e.command_errors.total == c.command_errors.total && e.command_errors.interval == 0
            &&& e.read_signals.total == c.read_signals.total && e.read_signals.interval == 0
            &&& e.write_signals.total == c.write_signals.total && e.write_signals.interval == 0
            &&& e.write_failures.total == c.write_failures.total && e.write_failures.interval == 0
            &&& e.browsed_tags.total == c.browsed_tags.total && e.browsed_tags.interval == 0
            &&& e.pause_requests.total == c.pause_requests.total && e.pause_requests.interval == 0
            &&& e.resume_requests.total == c.resume_requests.total && e.resume_requests.interval == 0
            &&& e.reconnect_requests.total == c.reconnect_requests.total && e.reconnect_requests.interval
                == 0
            &&& e.repoll_requests.total == c.repoll_requests.total && e.repoll_requests.interval == 0
            &&& e.command_latency_ms == 0
        }),
{
}

/// Every publish is one message; one that was confirmed counts its samples and its latency, one that was
/// not counts as a failure and nothing of them. A flush counts as one and leaves its size.
pub proof fn a_publish_is_counted_by_its_outcome(
    c: PubCounters,
    samples: u64,
    from_batch: bool,
    latency_ms: u64,
    ok: bool,
)
    ensures
        ({
            let p = c.published(samples, from_batch, latency_ms, ok);
            &&& p.data_messages == c.data_messages.plus(1)
            &&& ok ==> p.samples == c.samples.plus(samples) && p.failures == c.failures
                && p.publish_latency_ms == sum(c.publish_latency_ms, latency_ms)
            &&& !ok ==> p.samples == c.samples && p.failures == c.failures.plus(1)
                && p.publish_latency_ms == c.publish_latency_ms
            &&& from_batch ==> p.batch_flushes == c.batch_flushes.plus(1) && p.batch_size == samples
            &&& !from_batch ==> p.batch_flushes == c.batch_flushes && p.batch_size == c.batch_size
        }),
{
}

/// A frame is one frame consumed, in the mode it says; the time since the one before it on the same
/// connection is kept, and the first one on a connection leaves no gap.
pub proof fn a_frame_is_counted_once(c: IoCounters, sequence: u16, received_at: Instant, run_mode: bool)
    ensures
        ({
            let f = c.consumed(sequence, received_at, run_mode);
            &&& f.frames_consumed == c.frames_consumed.plus(1)
            &&& f.run_mode == run_mode
            &&& f.last_seq == Some(sequence)
            &&& f.last_frame_at == Some(received_at)
            &&& c.last_frame_at matches Some(t) ==> f.inter_frame_nanos == received_at.after(t)
            &&& c.last_frame_at is None ==> f.inter_frame_nanos == c.inter_frame_nanos
            &&& c.last_seq is None ==> f.sequence_gaps == c.sequence_gaps.plus(0)
            &&& f.io_timeouts == c.io_timeouts && f.frames_produced == c.frames_produced
            &&& f.io_connection_state == c.io_connection_state && f.last_stats == c.last_stats
        }),
{
}

/// A connection that comes up is up at its intervals; one that is lost is down and a timeout; opening one
/// counts by its outcome. A connection that is gone takes its sequence and the stack's counters along.
pub proof fn a_class_1_connection_is_counted_by_what_happens(
    c: IoCounters,
    o2t_api_ms: u32,
    t2o_api_ms: u32,
)
    ensures
        c.up(o2t_api_ms, t2o_api_ms) == (IoCounters {
            io_connection_state: true,
            o2t_api_ms,
            t2o_api_ms,
            ..c
        }),
        !c.lost().io_connection_state,
        c.lost().io_timeouts == c.io_timeouts.plus(1),
        c.lost().last_seq is None && c.lost().last_frame_at is None,
        c.lost().last_stats == IoLinkStats::zero(),
        c.lost().frames_consumed == c.frames_consumed,
        c.link_replaced().io_timeouts == c.io_timeouts,
        c.link_replaced().io_connection_state == c.io_connection_state,
        c.link_replaced().last_seq is None && c.link_replaced().last_frame_at is None,
        c.link_replaced().last_stats == IoLinkStats::zero(),
        c.forward_opened(true) == (IoCounters { forward_opens: c.forward_opens.plus(1), ..c }),
        c.forward_opened(false) == (IoCounters {
            forward_open_failures: c.forward_open_failures.plus(1),
            ..c
        }),
        IoLinkStats::zero().frames_produced == 0 && IoLinkStats::zero().refused_redirects == 0,
        IoLinkStats::zero().stale_frames == 0 && IoLinkStats::zero().size_mismatch == 0,
        IoLinkStats::zero().malformed_frames == 0 && IoLinkStats::zero().produce_overruns == 0,
        IoLinkStats::zero().sequence_gaps == 0,
{
}

/// What a cumulative counter grew by is what came on top; one that fell began again.
pub proof fn growth_is_what_came_on_top(last: u64, more: u64, cur: u64)
    ensures
        last + more <= u64::MAX ==> growth(last, (last + more) as u64) == more,
        cur < last ==> growth(last, cur) == cur,
        growth(0, cur) == cur,
{
}

} // verus!
