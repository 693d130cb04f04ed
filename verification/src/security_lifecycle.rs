//! The certificate lifecycle of a TLS poll instance: enrollment first, then the watch for rotated
//! material and for the end of validity.

use vstd::prelude::*;

use crate::clock::{Duration, Instant};
use crate::device::text_view;
use crate::device_metrics::DeviceMetrics;
use crate::eip::tls::{
    cert_not_after, expiry_of, expiry_text_of, read_expiry, read_serial, serial_in, SecurityConfig,
};
use crate::json::{Json, JsonV, Object};
use crate::notice::{event, event_notice, Notice, NoticeV, Severity};
use crate::status::{optional_text_json, text_or_null};
use crate::text::{decimal_i128, decimal_int, join3, owned};

verus! {

// ---- what is watched ----

/// The adapter's own certificate, as it stands in the vault.
#[derive(Debug)]
pub struct ClientCert {
    pub serial: Option<String>,
    pub not_after: Option<String>,
    /// Days to the end of validity; `i64::MAX` when it is not known.
    pub expiry_days: i64,
    /// What tells this certificate from another.
    pub fingerprint: u64,
}

/// The whole days from now to an end of validity, both in seconds since 1970: fewer than none once it is
/// past, and `i64::MAX` when it is not known.
pub open spec fn days_left(expiry: Option<u64>, now_secs: u64) -> int {
    match expiry {
        Some(end) => if end >= now_secs {
            (end - now_secs) / 86_400
        } else {
            -((now_secs - end) / 86_400)
        },
        None => i64::MAX as int,
    }
}

/// A certificate as it is watched, from what could be read of it: nothing where it has no serial number.
pub fn watched_cert(
    serial: Option<String>,
    expiry: Option<u64>,
    not_after: Option<String>,
    fingerprint: u64,
    now_secs: u64,
) -> (r: Option<ClientCert>)
    ensures
        match (serial, r) {
            (Some(_), Some(c)) => {
                &&& c.serial == serial
                &&& c.not_after == not_after
                &&& c.expiry_days == days_left(expiry, now_secs)
                &&& c.fingerprint == fingerprint
            },
            (None, None) => true,
            _ => false,
        },
{
    if serial.is_none() {
        return None;
    }
    let expiry_days: i64 = match expiry {
        Some(end) => {
            if end >= now_secs {
                ((end - now_secs) / 86_400) as i64
            } else {
                -(((now_secs - end) / 86_400) as i64)
            }
        },
        None => i64::MAX,
    };
    Some(ClientCert { serial, not_after, expiry_days, fingerprint })
}

/// The adapter's own certificate as it is watched, or nothing where it does not parse.
pub fn client_cert(der: &Vec<u8>, fingerprint: u64, now_secs: u64) -> (r: Option<ClientCert>)
    ensures
        match (serial_in(der@), r) {
            (Some(serial), Some(c)) => {
                &&& text_view(c.serial) == Some(serial)
                &&& text_view(c.not_after) == expiry_text_of(expiry_of(der@))
                &&& c.expiry_days == days_left(expiry_of(der@), now_secs)
                &&& c.fingerprint == fingerprint
            },
            (None, None) => true,
            _ => false,
        },
{
    watched_cert(read_serial(der), read_expiry(der), cert_not_after(der), fingerprint, now_secs)
}

/// The material as it stands in the vault.
#[derive(Debug)]
pub struct ReloadState {
    pub client: Option<ClientCert>,
    /// What tells this trust store from another.
    pub trust: u64,
}

/// What tells one state of the material from another.
#[derive(Clone, Copy, Debug, PartialEq, Eq, Structural)]
pub struct Mark {
    pub client: Option<u64>,
    pub trust: u64,
}

/// How close a certificate is to its end.
#[derive(Clone, Copy, Debug, PartialEq, Eq, Structural)]
pub enum Validity {
    Fine,
    /// Within the days before the end in which it is renewed.
    Expiring,
    Expired,
}

/// How close a certificate is to its end.
pub open spec fn validity_of(days: Option<i64>, renew_before_days: i64) -> Validity {
    match days {
        Some(d) => if d < 0 {
            Validity::Expired
        } else if d <= renew_before_days {
            Validity::Expiring
        } else {
            Validity::Fine
        },
        None => Validity::Fine,
    }
}

impl ReloadState {
    /// Days to the end of validity, where they are known.
    pub open spec fn days(self) -> Option<i64> {
        match self.client {
            Some(c) => if c.expiry_days == i64::MAX {
                None
            } else {
                Some(c.expiry_days)
            },
            None => None,
        }
    }

    /// Days to the end of validity, where they are known.
    pub fn expiry_days(&self) -> (r: Option<i64>)
        ensures
            r == self.days(),
    {
        match &self.client {
            Some(c) => if c.expiry_days == i64::MAX {
                None
            } else {
                Some(c.expiry_days)
            },
            None => None,
        }
    }

    /// What tells this material from another.
    pub open spec fn mark(self) -> Mark {
        Mark {
            client: match self.client {
                Some(c) => Some(c.fingerprint),
                None => None,
            },
            trust: self.trust,
        }
    }

    fn marked(&self) -> (r: Mark)
        ensures
            r == self.mark(),
    {
        Mark {
            client: match &self.client {
                Some(c) => Some(c.fingerprint),
                None => None,
            },
            trust: self.trust,
        }
    }
}

/// What was last seen of the material.
#[derive(Clone, Copy, Debug, PartialEq, Eq, Structural)]
pub struct CertWatcher {
    pub seen: Option<Mark>,
    pub validity: Validity,
}

/// What an observation calls for.
#[derive(Clone, Copy, Debug, PartialEq, Eq, Structural)]
pub struct WatchOutcome {
    /// The material changed.
    pub rotated: bool,
    /// It came within the days before the end.
    pub expiring: bool,
    /// It came past the end.
    pub expired: bool,
    pub expiry_days: Option<i64>,
}

impl Default for CertWatcher {
    fn default() -> (r: CertWatcher)
        ensures
            r == (CertWatcher { seen: None, validity: Validity::Fine }),
    {
        CertWatcher { seen: None, validity: Validity::Fine }
    }
}

impl CertWatcher {
    /// What an observation comes to. The first one is what later ones are compared with; it is no
    /// rotation, but a certificate that is already close to its end is told of.
    pub open spec fn outcome(self, state: ReloadState, renew_before_days: i64) -> WatchOutcome {
        let v = validity_of(state.days(), renew_before_days);
        WatchOutcome {
            rotated: self.seen is Some && self.seen != Some(state.mark()),
            expiring: v == Validity::Expiring && self.validity != v,
            expired: v == Validity::Expired && self.validity != v,
            expiry_days: state.days(),
        }
    }

    /// Observe the material.
    pub fn observe(&mut self, state: &ReloadState, renew_before_days: i64) -> (r: WatchOutcome)
        ensures
            r == old(self).outcome(*state, renew_before_days),
            *final(self) == (CertWatcher {
                seen: Some(state.mark()),
                validity: validity_of(state.days(), renew_before_days),
            }),
    {
        let mark = state.marked();
        let days = state.expiry_days();
        let v = match days {
            Some(d) => if d < 0 {
                Validity::Expired
            } else if d <= renew_before_days {
                Validity::Expiring
            } else {
                Validity::Fine
            },
            None => Validity::Fine,
        };
        let rotated = match self.seen {
            Some(seen) => seen != mark,
            None => false,
        };
        let r = WatchOutcome {
            rotated,
            expiring: v == Validity::Expiring && self.validity != v,
            expired: v == Validity::Expired && self.validity != v,
            expiry_days: days,
        };
        self.seen = Some(mark);
        self.validity = v;
        r
    }
}

/// Whether a certificate is enrolled now, and whether it succeeds another.
#[derive(Clone, Copy, Debug, PartialEq, Eq, Structural)]
pub enum EstDecision {
    Wait,
    Enroll { reenroll: bool },
}

/// Whether to enroll: where there is no certificate, or it is within its renewal days, but never before
/// the backoff since the last attempt has passed.
pub open spec fn est_decision(
    days: Option<i64>,
    renew_days: i64,
    since: Option<Duration>,
    backoff: Duration,
) -> EstDecision {
    if since matches Some(s) && s.nanos < backoff.nanos {
        EstDecision::Wait
    } else {
        match days {
            None => EstDecision::Enroll { reenroll: false },
            Some(d) => if d <= renew_days {
                EstDecision::Enroll { reenroll: true }
            } else {
                EstDecision::Wait
            },
        }
    }
}

/// Whether to enroll.
pub fn decide(days: Option<i64>, renew_days: i64, since: Option<Duration>, backoff: Duration) -> (r:
    EstDecision)
    ensures
        r == est_decision(days, renew_days, since, backoff),
{
    match since {
        Some(s) => {
            if s.nanos < backoff.nanos {
                return EstDecision::Wait;
            }
        },
        None => {},
    }
    match days {
        None => EstDecision::Enroll { reenroll: false },
        Some(d) => if d <= renew_days {
            EstDecision::Enroll { reenroll: true }
        } else {
            EstDecision::Wait
        },
    }
}

// ---- the configuration ----

/// Where certificates are enrolled.
#[derive(Clone, Debug)]
pub struct EstSettings {
    pub server: String,
    pub renew_before_days: i64,
    pub retry_backoff: Duration,
}

/// What the `security` block says of the lifecycle.
#[derive(Clone, Debug)]
pub struct WatchSettings {
    /// How often the vault is read, in seconds; zero turns the watch off.
    pub reload_interval_secs: Option<u64>,
    /// The days before the end of validity of which the operator is warned.
    pub renew_before_days: Option<u32>,
    /// Enrollment, where it is on.
    pub est: Option<EstSettings>,
    /// How often the vault is read when the block does not say, in seconds.
    pub default_interval_secs: u64,
    /// The days of warning when the block does not say.
    pub default_renew_days: i64,
}

/// What the status surface says of enrollment.
#[derive(Debug)]
pub struct EstStatus {
    pub enabled: bool,
    pub server: String,
    pub last_enroll: Option<String>,
    pub next_renew: Option<String>,
    pub last_error: Option<String>,
    pub enrollments: u64,
    pub failures: u64,
}

/// What the status surface says of enrollment.
#[verifier::ext_equal]
pub struct EstStatusV {
    pub enabled: bool,
    pub server: Seq<char>,
    pub last_enroll: Option<Seq<char>>,
    pub next_renew: Option<Seq<char>>,
    pub last_error: Option<Seq<char>>,
    pub enrollments: u64,
    pub failures: u64,
}

impl View for EstStatus {
    type V = EstStatusV;

    open spec fn view(&self) -> EstStatusV {
        EstStatusV {
            enabled: self.enabled,
            server: self.server@,
            last_enroll: text_view(self.last_enroll),
            next_renew: text_view(self.next_renew),
            last_error: text_view(self.last_error),
            enrollments: self.enrollments,
            failures: self.failures,
        }
    }
}

/// One more, at most `u64::MAX`.
pub open spec fn one_more(n: u64) -> u64 {
    if n < u64::MAX {
        (n + 1) as u64
    } else {
        n
    }
}

/// An enrollment that succeeded.
#[derive(Debug)]
pub struct Enrolled {
    pub serial: Option<String>,
    pub not_after: Option<String>,
    /// Where the certificate was written to.
    pub written_to: String,
    /// When it was enrolled.
    pub at: Option<String>,
    /// When it is renewed.
    pub next_renew: Option<String>,
}

/// The certificate lifecycle of one instance.
#[derive(Debug)]
pub struct SecurityLifecycle {
    pub id: String,
    pub endpoint: String,
    /// How often it comes round, in seconds.
    pub tick_secs: u64,
    pub renew_before_days: i64,
    pub est: Option<EstSettings>,
    pub watcher: CertWatcher,
    pub last_attempt: Option<Instant>,
    pub status: Option<EstStatus>,
}

/// How often the vault is read.
pub open spec fn interval_of(w: WatchSettings) -> u64 {
    match w.reload_interval_secs {
        Some(s) => s,
        None => w.default_interval_secs,
    }
}

/// Whether an instance has a lifecycle: TLS, and something to watch or to enroll.
pub open spec fn has_lifecycle(sec: Option<SecurityConfig>, w: WatchSettings) -> bool {
    &&& sec matches Some(s) && s.mode == crate::eip::tls::SecurityMode::Tls
    &&& interval_of(w) != 0 || w.est is Some
}

impl SecurityLifecycle {
    /// The status before anything was enrolled.
    pub open spec fn fresh_status(est: Option<EstSettings>) -> Option<EstStatusV> {
        match est {
            Some(e) => Some(
                EstStatusV {
                    enabled: true,
                    server: e.server@,
                    last_enroll: None,
                    next_renew: None,
                    last_error: None,
                    enrollments: 0,
                    failures: 0,
                },
            ),
            None => None,
        }
    }

    /// The status, by meaning.
    pub open spec fn status_view(self) -> Option<EstStatusV> {
        match self.status {
            Some(s) => Some(s@),
            None => None,
        }
    }

    /// Start a lifecycle, or none where there is nothing to do: an instance that is not TLS, or one that
    /// neither watches nor enrolls. With enrollment on and the watch off it still comes round, at the
    /// default cadence.
    pub fn start(id: &str, endpoint: &str, sec: &Option<SecurityConfig>, w: &WatchSettings) -> (r: Option<
        SecurityLifecycle,
    >)
        ensures
            r is Some <==> has_lifecycle(*sec, *w),
            r matches Some(l) ==> {
                &&& l.id@ == id@
                &&& l.endpoint@ == endpoint@
                &&& l.tick_secs == (if interval_of(*w) == 0 {
                    w.default_interval_secs
                } else {
                    interval_of(*w)
                })
                &&& l.renew_before_days == (match w.renew_before_days {
                    Some(d) => d as i64,
                    None => w.default_renew_days,
                })
                &&& l.watcher == (CertWatcher { seen: None, validity: Validity::Fine })
                &&& l.last_attempt is None
                &&& l.status_view() == SecurityLifecycle::fresh_status(w.est)
                &&& match (l.est, w.est) {
                    (Some(a), Some(b)) => a.server@ == b.server@ && a.renew_before_days
                        == b.renew_before_days && a.retry_backoff == b.retry_backoff,
                    (None, None) => true,
                    _ => false,
                }
            },
    {
        let tls = match sec {
            Some(s) => s.is_tls(),
            None => false,
        };
        if !tls {
            return None;
        }
        let interval: u64 = match w.reload_interval_secs {
            Some(s) => s,
            None => w.default_interval_secs,
        };
        let est = match &w.est {
            Some(e) => Some(
                EstSettings {
                    server: owned(e.server.as_str()),
                    renew_before_days: e.renew_before_days,
                    retry_backoff: e.retry_backoff,
                },
            ),
            None => None,
        };
        if interval == 0 && est.is_none() {
            return None;
        }
        let status = match &est {
            Some(e) => Some(
                EstStatus {
                    enabled: true,
                    server: owned(e.server.as_str()),
                    last_enroll: None,
                    next_renew: None,
                    last_error: None,
                    enrollments: 0,
                    failures: 0,
                },
            ),
            None => None,
        };
        Some(
            SecurityLifecycle {
                id: owned(id),
                endpoint: owned(endpoint),
                tick_secs: if interval == 0 {
                    w.default_interval_secs
                } else {
                    interval
                },
                renew_before_days: match w.renew_before_days {
                    Some(d) => d as i64,
                    None => w.default_renew_days,
                },
                est,
                watcher: CertWatcher { seen: None, validity: Validity::Fine },
                last_attempt: None,
                status,
            },
        )
    }

    /// What a tick enrolls, before anything is watched: a fresh certificate is then seen by the same tick.
    pub open spec fn decision(self, days: Option<i64>, now: Instant) -> EstDecision {
        match self.est {
            Some(e) => est_decision(
                days,
                e.renew_before_days,
                match self.last_attempt {
                    Some(t) => Some(Duration { nanos: now.after(t) as u128 }),
                    None => None,
                },
                e.retry_backoff,
            ),
            None => EstDecision::Wait,
        }
    }

    /// A tick: whether to enroll now. `days` is what the current certificate has left, where there is one
    /// and it could be read.
    pub fn tick(&mut self, days: Option<i64>, now: Instant) -> (r: EstDecision)
        ensures
            r == old(self).decision(days, now),
            *final(self) == (SecurityLifecycle {
                last_attempt: if r == EstDecision::Wait {
                    old(self).last_attempt
                } else {
                    Some(now)
                },
                ..*old(self)
            }),
    {
        let (renew, backoff) = match &self.est {
            Some(e) => (e.renew_before_days, e.retry_backoff),
            None => {
                return EstDecision::Wait;
            },
        };
        let since = match self.last_attempt {
            Some(t) => Some(now.since(t)),
            None => None,
        };
        let r = decide(days, renew, since, backoff);
        if r != EstDecision::Wait {
            self.last_attempt = Some(now);
        }
        r
    }
}

// ---- what enrollment came to ----

/// The context of a notice on a certificate.
pub open spec fn cert_context(id: Seq<char>) -> Map<Seq<char>, JsonV> {
    Map::empty().insert("instance"@, JsonV::Text(id)).insert("security"@, JsonV::Text("tls"@))
}

fn cert_object(id: &String) -> (o: Object)
    ensures
        o@ == cert_context(id@),
{
    let mut o = Object::new();
    o.insert("instance", Json::of_text(id.as_str()));
    o.insert("security", Json::of_text("tls"));
    o
}

/// A certificate was enrolled.
pub open spec fn enrolled_notice(
    id: Seq<char>,
    endpoint: Seq<char>,
    e: Enrolled,
    reenroll: bool,
) -> NoticeV {
    event(
        Severity::Info,
        "cert-enrolled"@,
        "EST "@ + (if reenroll {
            "re-enrollment"@
        } else {
            "enrollment"@
        }) + " succeeded for "@ + endpoint + " — wrote the new certificate to `"@ + e.written_to@
            + "`"@,
        cert_context(id).insert("serial"@, text_or_null(text_view(e.serial))).insert(
            "notAfter"@,
            text_or_null(text_view(e.not_after)),
        ).insert("reenroll"@, JsonV::Bool(reenroll)),
    )
}

/// A certificate could not be enrolled.
pub open spec fn enroll_failed_notice(
    id: Seq<char>,
    endpoint: Seq<char>,
    why: Seq<char>,
) -> NoticeV {
    event(
        Severity::Warning,
        "cert-enroll-failed"@,
        "EST enrollment for "@ + endpoint + " failed: "@ + why
            + " — keeping the current certificate; will retry"@,
        cert_context(id),
    )
}

impl SecurityLifecycle {
    /// The status after an enrollment that succeeded.
    pub open spec fn status_enrolled(self, e: Enrolled) -> Option<EstStatusV> {
        match self.est {
            Some(est) => Some(
                EstStatusV {
                    enabled: true,
                    server: est.server@,
                    last_enroll: text_view(e.at),
                    next_renew: text_view(e.next_renew),
                    last_error: None,
                    enrollments: match self.status {
                        Some(s) => one_more(s.enrollments),
                        None => 1,
                    },
                    failures: match self.status {
                        Some(s) => s.failures,
                        None => 0,
                    },
                },
            ),
            None => self.status_view(),
        }
    }

    /// The status after an enrollment that failed: what the last one that succeeded left stays.
    pub open spec fn status_failed(self, why: Seq<char>) -> Option<EstStatusV> {
        match self.est {
            Some(est) => Some(
                EstStatusV {
                    enabled: true,
                    server: est.server@,
                    last_enroll: match self.status {
                        Some(s) => text_view(s.last_enroll),
                        None => None,
                    },
                    next_renew: match self.status {
                        Some(s) => text_view(s.next_renew),
                        None => None,
                    },
                    last_error: Some(why),
                    enrollments: match self.status {
                        Some(s) => s.enrollments,
                        None => 0,
                    },
                    failures: match self.status {
                        Some(s) => one_more(s.failures),
                        None => 1,
                    },
                },
            ),
            None => self.status_view(),
        }
    }

    /// What the enrollment a tick decided on came to.
    pub fn enrolled(
        &mut self,
        outcome: Result<Enrolled, String>,
        reenroll: bool,
        dm: &mut DeviceMetrics,
    ) -> (r: Notice)
        ensures
            *final(dm) == (DeviceMetrics {
                conn: old(dm).conn.enrolled(outcome is Ok),
                ..*old(dm)
            }),
            match outcome {
                Ok(e) => {
                    &&& r@ == enrolled_notice(old(self).id@, old(self).endpoint@, e, reenroll)
                    &&& final(self).status_view() == old(self).status_enrolled(e)
                },
                Err(why) => {
                    &&& r@ == enroll_failed_notice(old(self).id@, old(self).endpoint@, why@)
                    &&& final(self).status_view() == old(self).status_failed(why@)
                },
            },
            *final(self) == (SecurityLifecycle { status: final(self).status, ..*old(self) }),
    {
        match outcome {
            Ok(e) => {
                dm.on_est_enrollment(true);
                let mut o = cert_object(&self.id);
                o.insert("serial", optional_text_json(&e.serial));
                o.insert("notAfter", optional_text_json(&e.not_after));
                o.insert("reenroll", Json::of_bool(reenroll));
                let mut text = join3(
                    "EST ",
                    if reenroll {
                        "re-enrollment"
                    } else {
                        "enrollment"
                    },
                    " succeeded for ",
                );
                text.append(self.endpoint.as_str());
                text.append(" — wrote the new certificate to `");
                text.append(e.written_to.as_str());
                text.append("`");
                if let Some(est) = &self.est {
                    let (enrollments, failures) = match &self.status {
                        Some(s) => (s.enrollments, s.failures),
                        None => (0, 0),
                    };
                    self.status = Some(
                        EstStatus {
                            enabled: true,
                            server: owned(est.server.as_str()),
                            last_enroll: e.at,
                            next_renew: e.next_renew,
                            last_error: None,
                            enrollments: enrollments.saturating_add(1),
                            failures,
                        },
                    );
                }
                event_notice(Severity::Info, "cert-enrolled", text, o)
            },
            Err(why) => {
                dm.on_est_enrollment(false);
                let o = cert_object(&self.id);
                let mut text = join3("EST enrollment for ", self.endpoint.as_str(), " failed: ");
                text.append(why.as_str());
                text.append(" — keeping the current certificate; will retry");
                if let Some(est) = &self.est {
                    let server = owned(est.server.as_str());
                    let mut before: Option<EstStatus> = None;
                    std::mem::swap(&mut before, &mut self.status);
                    self.status = match before {
                        Some(s) => Some(
                            EstStatus {
                                enabled: true,
                                server,
                                last_enroll: s.last_enroll,
                                next_renew: s.next_renew,
                                last_error: Some(why),
                                enrollments: s.enrollments,
                                failures: s.failures.saturating_add(1),
                            },
                        ),
                        None => Some(
                            EstStatus {
                                enabled: true,
                                server,
                                last_enroll: None,
                                next_renew: None,
                                last_error: Some(why),
                                enrollments: 0,
                                failures: 1,
                            },
                        ),
                    };
                }
                event_notice(Severity::Warning, "cert-enroll-failed", text, o)
            },
        }
    }
}

// ---- what the watch came to ----

/// One thing an observation calls for.
#[derive(Debug)]
pub struct WatchStep {
    pub notice: Notice,
    /// The session is opened again, so that the next handshake uses the new material.
    pub reconnect: bool,
}

/// The steps of a list, by meaning.
pub open spec fn watch_steps(s: Seq<WatchStep>) -> Seq<(NoticeV, bool)> {
    Seq::new(s.len(), |i: int| (s[i].notice@, s[i].reconnect))
}

/// The material changed.
pub open spec fn rotated_notice(id: Seq<char>, endpoint: Seq<char>, state: ReloadState) -> NoticeV {
    event(
        Severity::Info,
        "cert-rotated"@,
        "client certificate / trust store rotated for "@ + endpoint
            + " — reconnecting to apply the new material"@,
        cert_context(id).insert(
            "serial"@,
            text_or_null(
                match state.client {
                    Some(c) => text_view(c.serial),
                    None => None,
                },
            ),
        ).insert("notAfter"@, text_or_null(state.end_of_validity())),
    )
}

/// The certificate came within the days before its end.
pub open spec fn expiring_notice(id: Seq<char>, days: i64, state: ReloadState) -> NoticeV {
    event(
        Severity::Warning,
        "cert-expiring"@,
        "adapter client certificate expires in "@ + decimal_int(days as int)
            + " day(s) — rotate it (e.g. ec-secrets) before it lapses"@,
        cert_context(id).insert("daysRemaining"@, JsonV::Int(days as int)).insert(
            "notAfter"@,
            text_or_null(state.end_of_validity()),
        ),
    )
}

/// The certificate came past its end.
pub open spec fn expired_notice(id: Seq<char>, days: i64, state: ReloadState) -> NoticeV {
    event(
        Severity::Warning,
        "cert-expired"@,
        "adapter client certificate EXPIRED "@ + decimal_int(-days)
            + " day(s) ago — TLS connects will fail until it is rotated"@,
        cert_context(id).insert("notAfter"@, text_or_null(state.end_of_validity())),
    )
}

impl ReloadState {
    pub open spec fn end_of_validity(self) -> Option<Seq<char>> {
        match self.client {
            Some(c) => text_view(c.not_after),
            None => None,
        }
    }

    fn put_end(&self, o: &mut Object)
        ensures
            final(o)@ == old(o)@.insert("notAfter"@, text_or_null(self.end_of_validity())),
    {
        let end: Json = match &self.client {
            Some(c) => optional_text_json(&c.not_after),
            None => optional_text_json(&None),
        };
        o.insert("notAfter", end);
    }
}

impl SecurityLifecycle {
    /// What an observation calls for: a rotation first, then what it says of the end of validity.
    pub open spec fn steps_of(self, state: ReloadState) -> Seq<(NoticeV, bool)> {
        let o = self.watcher.outcome(state, self.renew_before_days);
        (if o.rotated {
            seq![(rotated_notice(self.id@, self.endpoint@, state), true)]
        } else {
            Seq::empty()
        }) + (if o.expiring {
            seq![(expiring_notice(self.id@, o.expiry_days->0, state), false)]
        } else {
            Seq::empty()
        }) + (if o.expired {
            seq![(expired_notice(self.id@, o.expiry_days->0, state), false)]
        } else {
            Seq::empty()
        })
    }

    /// The metrics once the material was observed.
    pub open spec fn metrics_observed(self, dm: DeviceMetrics, state: ReloadState) -> DeviceMetrics {
        let o = self.watcher.outcome(state, self.renew_before_days);
        let seen = match o.expiry_days {
            Some(d) => dm.conn.expiry_seen(d),
            None => dm.conn,
        };
        DeviceMetrics {
            conn: if o.rotated {
                seen.reloaded()
            } else {
                seen
            },
            ..dm
        }
    }

    /// What the material is, as the vault has it now, or nothing where it could not be read: then the
    /// current material stays, and nothing is said.
    pub fn observed(&mut self, read: &Option<ReloadState>, dm: &mut DeviceMetrics) -> (r: Vec<WatchStep>)
        ensures
            match *read {
                None => r@.len() == 0 && *final(self) == *old(self) && *final(dm) == *old(dm),
                Some(state) => {
                    &&& watch_steps(r@) == old(self).steps_of(state)
                    &&& final(self).watcher == (CertWatcher {
                        seen: Some(state.mark()),
                        validity: validity_of(state.days(), old(self).renew_before_days),
                    })
                    &&& *final(dm) == old(self).metrics_observed(*old(dm), state)
                    &&& *final(self) == (SecurityLifecycle {
                        watcher: final(self).watcher,
                        ..*old(self)
                    })
                },
            },
    {
        let mut out: Vec<WatchStep> = Vec::new();
        let state = match read {
            Some(s) => s,
            None => {
                return out;
            },
        };
        let o = self.watcher.observe(state, self.renew_before_days);
        assert(watch_steps(out@) =~= Seq::empty());
        match o.expiry_days {
            Some(d) => {
                dm.set_cert_expiry_days(d);
            },
            None => {},
        }
        if o.rotated {
            dm.on_cert_reload();
            let mut ctx = cert_object(&self.id);
            let serial: Json = match &state.client {
                Some(c) => optional_text_json(&c.serial),
                None => optional_text_json(&None),
            };
            ctx.insert("serial", serial);
            state.put_end(&mut ctx);
            let text = join3(
                "client certificate / trust store rotated for ",
                self.endpoint.as_str(),
                " — reconnecting to apply the new material",
            );
            out.push(
                WatchStep {
                    notice: event_notice(Severity::Info, "cert-rotated", text, ctx),
                    reconnect: true,
                },
            );
        }
        let ghost first = out@;
        let days: i64 = match o.expiry_days {
            Some(d) => d,
            None => 0,
        };
        if o.expiring {
            let mut ctx = cert_object(&self.id);
            ctx.insert("daysRemaining", Json::of_i64(days));
            state.put_end(&mut ctx);
            let text = join3(
                "adapter client certificate expires in ",
                decimal_i128(days as i128).as_str(),
                " day(s) — rotate it (e.g. ec-secrets) before it lapses",
            );
            out.push(
                WatchStep {
                    notice: event_notice(Severity::Warning, "cert-expiring", text, ctx),
                    reconnect: false,
                },
            );
        }
        if o.expired {
            let mut ctx = cert_object(&self.id);
            state.put_end(&mut ctx);
            let text = join3(
                "adapter client certificate EXPIRED ",
                decimal_i128(-(days as i128)).as_str(),
                " day(s) ago — TLS connects will fail until it is rotated",
            );
            out.push(
                WatchStep {
                    notice: event_notice(Severity::Warning, "cert-expired", text, ctx),
                    reconnect: false,
                },
            );
        }
        assert(watch_steps(out@) =~= old(self).steps_of(*state));
        out
    }
}

// ---- what holds of every lifecycle ----

/// A failed enrollment is spaced: whatever the certificate, nothing is enrolled before the backoff since
/// the last attempt has passed.
pub proof fn attempts_are_spaced(l: SecurityLifecycle, days: Option<i64>, now: Instant, t: Instant)
    requires
        l.last_attempt == Some(t),
        l.est is Some,
        now.after(t) < l.est->0.retry_backoff.nanos,
    ensures
        l.decision(days, now) == EstDecision::Wait,
{
}

/// A certificate with more than its renewal days left is not enrolled again.
pub proof fn a_healthy_certificate_is_not_renewed(l: SecurityLifecycle, days: i64, now: Instant)
    requires
        l.est is Some,
        days > l.est->0.renew_before_days,
    ensures
        l.decision(Some(days), now) == EstDecision::Wait,
{
}

/// The first observation is no rotation.
pub proof fn the_first_observation_is_no_rotation(state: ReloadState, renew_before_days: i64)
    ensures
        !(CertWatcher { seen: None, validity: Validity::Fine }).outcome(
            state,
            renew_before_days,
        ).rotated,
{
}

/// The same material observed again calls for nothing: each warning is given once.
pub proof fn the_same_material_is_told_once(
    w: CertWatcher,
    state: ReloadState,
    renew_before_days: i64,
)
    requires
        w.seen == Some(state.mark()),
        w.validity == validity_of(state.days(), renew_before_days),
    ensures
        ({
            let o = w.outcome(state, renew_before_days);
            !o.rotated && !o.expiring && !o.expired
        }),
{
}

/// A rotation is counted once for each time the session is opened again, and what was observed of the end
/// of validity is what the gauge says from then on.
pub proof fn the_metrics_follow_the_material(l: SecurityLifecycle, dm: DeviceMetrics, state: ReloadState)
    ensures
        l.watcher.outcome(state, l.renew_before_days).rotated ==> l.metrics_observed(
            dm,
            state,
        ).conn.cert_reloads == dm.conn.cert_reloads.plus(1),
        !l.watcher.outcome(state, l.renew_before_days).rotated ==> l.metrics_observed(
            dm,
            state,
        ).conn.cert_reloads == dm.conn.cert_reloads,
        state.days() is Some ==> l.metrics_observed(dm, state).conn.cert_expiry_days == state.days(),
{
}

/// New material always opens the session again, and nothing else does.
pub proof fn only_new_material_reconnects(l: SecurityLifecycle, state: ReloadState)
    ensures
        (exists|i: int| 0 <= i < l.steps_of(state).len() && (#[trigger] l.steps_of(state)[i]).1)
            <==> l.watcher.outcome(state, l.renew_before_days).rotated,
{
    if l.watcher.outcome(state, l.renew_before_days).rotated {
        assert(l.steps_of(state)[0].1);
    }
}

/// The days left are counted in whole days toward the end of validity, and in whole days below none from
/// it; an end that is not known is as far off as can be said.
pub proof fn days_left_are_whole_days(expiry: Option<u64>, now_secs: u64)
    ensures
        match expiry {
            Some(end) => {
                let d = days_left(expiry, now_secs);
                &&& end >= now_secs ==> 0 <= d && d * 86_400 <= end - now_secs < (d + 1) * 86_400
                &&& end < now_secs ==> d <= 0 && (-d) * 86_400 <= now_secs - end < (1 - d) * 86_400
            },
            None => days_left(expiry, now_secs) == i64::MAX,
        },
{
}

/// A later end leaves no fewer days, and a later moment no more.
pub proof fn days_left_run_down(a: u64, b: u64, early: u64, late: u64)
    requires
        a <= b,
        early <= late,
    ensures
        days_left(Some(a), early) <= days_left(Some(b), early),
        days_left(Some(a), late) <= days_left(Some(a), early),
{
}

/// The days of a certificate are known exactly when there is one whose end could be read.
pub proof fn the_days_of_a_certificate_are_its_own(state: ReloadState)
    ensures
        state.client is None ==> state.days() is None,
        state.client matches Some(c) ==> (if c.expiry_days == i64::MAX {
            state.days() is None
        } else {
            state.days() == Some(c.expiry_days)
        }),
{
}

/// Material is told apart by both of its parts: two states have the same mark exactly when they have the
/// same trust store and the same certificate, or none either time.
pub proof fn material_is_told_apart_by_both_parts(a: ReloadState, b: ReloadState)
    ensures
        a.mark() == b.mark() <==> a.trust == b.trust && (match (a.client, b.client) {
            (Some(x), Some(y)) => x.fingerprint == y.fingerprint,
            (None, None) => true,
            _ => false,
        }),
{
}

/// An observation calls for a rotation exactly when something was seen before and it was other material; a
/// warning exactly when the certificate is newly within its days, or newly past its end. A certificate
/// without days is warned of never.
pub proof fn an_observation_calls_for_what_is_new(w: CertWatcher, state: ReloadState, renew: i64)
    ensures
        ({
            let o = w.outcome(state, renew);
            &&& w.seen is None ==> !o.rotated
            &&& w.seen matches Some(m) ==> (o.rotated <==> m.trust != state.trust || (
            match state.client {
                Some(c) => m.client != Some(c.fingerprint),
                None => m.client is Some,
            }))
            &&& state.days() is None ==> !o.expiring && !o.expired
            &&& state.days() matches Some(d) ==> {
                &&& o.expiring <==> 0 <= d <= renew && !(w.validity is Expiring)
                &&& o.expired <==> d < 0 && !(w.validity is Expired)
            }
            &&& o.expiry_days == state.days()
        }),
{
}

/// Nothing is enrolled before the backoff since the last attempt has passed. From then on a certificate is
/// enrolled when there is none, and again when it has no more than its renewal days left.
pub proof fn a_certificate_is_enrolled_when_it_is_due(
    l: SecurityLifecycle,
    days: Option<i64>,
    now: Instant,
)
    ensures
        l.est is None ==> l.decision(days, now) is Wait,
        l.est matches Some(e) ==> {
            let spaced = match l.last_attempt {
                Some(t) => now.nanos >= t.nanos && now.nanos - t.nanos >= e.retry_backoff.nanos
                    || e.retry_backoff.nanos == 0,
                None => true,
            };
            match days {
                None => if spaced {
                    l.decision(days, now) == (EstDecision::Enroll { reenroll: false })
                } else {
                    l.decision(days, now) is Wait
                },
                Some(d) => if spaced && d <= e.renew_before_days {
                    l.decision(days, now) == (EstDecision::Enroll { reenroll: true })
                } else {
                    l.decision(days, now) is Wait
                },
            }
        },
{
}

/// An instance has a lifecycle exactly when it is TLS and either the vault is read now and then or
/// certificates are enrolled; how often the vault is read is what the block says, where it says so.
pub proof fn a_lifecycle_needs_tls_and_something_to_do(sec: Option<SecurityConfig>, w: WatchSettings)
    ensures
        sec is None ==> !has_lifecycle(sec, w),
        sec matches Some(s) ==> (has_lifecycle(sec, w) <==> s.mode is Tls && (w.est is Some || (
        match w.reload_interval_secs {
            Some(n) => n != 0,
            None => w.default_interval_secs != 0,
        }))),
        w.reload_interval_secs matches Some(n) ==> interval_of(w) == n,
        w.reload_interval_secs is None ==> interval_of(w) == w.default_interval_secs,
{
}

/// Where enrollment is on, an enrollment that succeeds is counted, dated and told when it is renewed, and
/// leaves no error; one that fails is counted as such, leaves its reason, and leaves the dates of the last
/// one that succeeded. Neither touches the other's count.
pub proof fn an_enrollment_is_counted_and_told(l: SecurityLifecycle, e: Enrolled, why: Seq<char>)
    requires
        l.est is Some,
        l.status is Some,
        l.status->0.enrollments < u64::MAX,
        l.status->0.failures < u64::MAX,
    ensures
        ({
            let s = l.status->0;
            &&& l.status_enrolled(e) matches Some(n) && {
                &&& n.enabled
                &&& n.server == l.est->0.server@
                &&& n.enrollments == s.enrollments + 1
                &&& n.failures == s.failures
                &&& n.last_enroll == text_view(e.at)
                &&& n.next_renew == text_view(e.next_renew)
                &&& n.last_error is None
            }
            &&& l.status_failed(why) matches Some(n) && {
                &&& n.enabled
                &&& n.server == l.est->0.server@
                &&& n.enrollments == s.enrollments
                &&& n.failures == s.failures + 1
                &&& n.last_enroll == text_view(s.last_enroll)
                &&& n.next_renew == text_view(s.next_renew)
                &&& n.last_error == Some(why)
            }
        }),
{
}

/// A lifecycle with enrollment starts with a status that counts nothing; one without has none.
pub proof fn a_fresh_status_counts_nothing(est: Option<EstSettings>)
    ensures
        est is None ==> SecurityLifecycle::fresh_status(est) is None,
        est matches Some(e) ==> ({
            let s = SecurityLifecycle::fresh_status(est);
            &&& s is Some
            &&& (s->0).enabled
            &&& (s->0).server == e.server@
            &&& (s->0).enrollments == 0
            &&& (s->0).failures == 0
            &&& (s->0).last_enroll is None
            &&& (s->0).next_renew is None
            &&& (s->0).last_error is None
        }),
{
}

/// Every notice on a certificate is an event that names its instance, and says of the certificate at hand
/// what it is about.
pub proof fn a_certificate_notice_says_what_it_is_about(
    id: Seq<char>,
    endpoint: Seq<char>,
    e: Enrolled,
    reenroll: bool,
    why: Seq<char>,
    state: ReloadState,
    days: i64,
)
    ensures
        ({
            let n = enrolled_notice(id, endpoint, e, reenroll);
            &&& n.kind is Event && n.severity is Info && n.name == "cert-enrolled"@
            &&& n.context matches Some(JsonV::Object(c)) && {
                &&& c["instance"@] == JsonV::Text(id)
                &&& c["security"@] == JsonV::Text("tls"@)
                &&& c["reenroll"@] == JsonV::Bool(reenroll)
                &&& e.serial matches Some(t) ==> c["serial"@] == JsonV::Text(t@)
                &&& e.serial is None ==> c["serial"@] is Null
                &&& e.not_after matches Some(t) ==> c["notAfter"@] == JsonV::Text(t@)
                &&& e.not_after is None ==> c["notAfter"@] is Null
            }
        }),
        ({
            let n = enroll_failed_notice(id, endpoint, why);
            &&& n.kind is Event && n.severity is Warning && n.name == "cert-enroll-failed"@
            &&& n.message == Some(
                "EST enrollment for "@ + endpoint + " failed: "@ + why
                    + " — keeping the current certificate; will retry"@,
            )
            &&& n.context matches Some(JsonV::Object(c)) && c["instance"@] == JsonV::Text(id)
                && c["security"@] == JsonV::Text("tls"@)
        }),
        ({
            let n = rotated_notice(id, endpoint, state);
            &&& n.kind is Event && n.severity is Info && n.name == "cert-rotated"@
            &&& n.context matches Some(JsonV::Object(c)) && {
                &&& c["instance"@] == JsonV::Text(id)
                &&& state.client is Some && state.client->0.serial is Some ==> c["serial"@]
                    == JsonV::Text(state.client->0.serial->0@)
                &&& state.client is None ==> c["serial"@] is Null && c["notAfter"@] is Null
                &&& state.client is Some && state.client->0.not_after is Some ==> c["notAfter"@]
                    == JsonV::Text(state.client->0.not_after->0@)
            }
        }),
        ({
            let n = expiring_notice(id, days, state);
            &&& n.kind is Event && n.severity is Warning && n.name == "cert-expiring"@
            &&& n.context matches Some(JsonV::Object(c)) && {
                &&& c["instance"@] == JsonV::Text(id)
                &&& c["daysRemaining"@] == JsonV::Int(days as int)
                &&& state.client is Some && state.client->0.not_after is Some ==> c["notAfter"@]
                    == JsonV::Text(state.client->0.not_after->0@)
            }
        }),
        ({
            let n = expired_notice(id, days, state);
            &&& n.kind is Event && n.severity is Warning && n.name == "cert-expired"@
            &&& n.message == Some(
                "adapter client certificate EXPIRED "@ + decimal_int(-days)
                    + " day(s) ago — TLS connects will fail until it is rotated"@,
            )
            &&& n.context matches Some(JsonV::Object(c)) && {
                &&& c["instance"@] == JsonV::Text(id)
                &&& state.client is Some && state.client->0.not_after is Some ==> c["notAfter"@]
                    == JsonV::Text(state.client->0.not_after->0@)
            }
        }),
{
    reveal_strlit("instance");
    reveal_strlit("security");
    reveal_strlit("serial");
    reveal_strlit("notAfter");
    reveal_strlit("reenroll");
    reveal_strlit("daysRemaining");
    assert("instance"@.len() == 8 && "security"@.len() == 8 && "serial"@.len() == 6);
    assert("notAfter"@.len() == 8 && "reenroll"@.len() == 8 && "daysRemaining"@.len() == 13);
    assert("instance"@[0] != "security"@[0] && "instance"@[0] != "notAfter"@[0]);
    assert("instance"@[0] != "reenroll"@[0] && "security"@[0] != "notAfter"@[0]);
    assert("security"@[0] != "reenroll"@[0] && "notAfter"@[0] != "reenroll"@[0]);
}

/// What an observation calls for is told once each, the rotation before the warnings; only the rotation
/// opens the session again, and nothing is told of material that is as it was.
pub proof fn an_observation_is_told_thing_by_thing(l: SecurityLifecycle, state: ReloadState)
    ensures
        ({
            let o = l.watcher.outcome(state, l.renew_before_days);
            let s = l.steps_of(state);
            let first: int = if o.rotated {
                1
            } else {
                0
            };
            &&& s.len() == first + (if o.expiring || o.expired {
                1int
            } else {
                0
            })
            &&& o.rotated ==> s[0].1 && s[0].0.name == "cert-rotated"@
            &&& o.expiring ==> !s[first].1 && s[first].0.name == "cert-expiring"@
            &&& o.expired ==> !s[first].1 && s[first].0.name == "cert-expired"@
        }),
{
}

} // verus!
