//! The certificate lifecycle, driven tick by tick.

use ethernet_ip_adapter::clock::{Duration, Instant};
use ethernet_ip_adapter::config::{
    Defaults, DeviceConfig, DeviceMode, GlobalConfig, Timeouts,
};
use ethernet_ip_adapter::device_metrics::DeviceMetrics;
use ethernet_ip_adapter::eip::tls::{SecurityConfig, SecurityMode};
use ethernet_ip_adapter::ieee::F64;
use ethernet_ip_adapter::json::{Json, Number, Object};
use ethernet_ip_adapter::notice::{Notice, Severity};
use ethernet_ip_adapter::security_lifecycle::{
    decide, CertWatcher, ClientCert, Enrolled, EstDecision, EstSettings, ReloadState,
    SecurityLifecycle, Validity, WatchSettings,
};
use serde_json::Value;

fn to_json(v: &Value) -> Json {
    match v {
        Value::Null => Json::Null,
        Value::Bool(b) => Json::Bool(*b),
        Value::Number(n) => {
            if let Some(u) = n.as_u64() {
                Json::Number(Number::Unsigned(u))
            } else if let Some(i) = n.as_i64() {
                Json::Number(Number::Signed(i))
            } else {
                let f = n.as_f64().unwrap();
                Json::Number(Number::Float(F64 { bits: f.to_bits() }))
            }
        }
        Value::String(s) => Json::Text(s.clone()),
        Value::Array(items) => Json::Array(items.iter().map(to_json).collect()),
        Value::Object(map) => {
            let mut o = Object::new();
            for (k, v) in map {
                o.insert(k, to_json(v));
            }
            Json::Object(o)
        }
    }
}

fn json(text: &str) -> Json {
    to_json(&serde_json::from_str(text).expect("a JSON value"))
}

fn at(secs: u64) -> Instant {
    Instant { nanos: (1_000 + secs) * 1_000_000_000 }
}

fn tls() -> Option<SecurityConfig> {
    Some(SecurityConfig {
        mode: SecurityMode::Tls,
        ..SecurityConfig::default()
    })
}

fn watch(renew_before_days: Option<u32>) -> WatchSettings {
    WatchSettings {
        reload_interval_secs: Some(1),
        renew_before_days,
        est: None,
        default_interval_secs: 3_600,
        default_renew_days: 30,
    }
}

fn est(backoff_mins: u64) -> Option<EstSettings> {
    Some(EstSettings {
        server: "https://127.0.0.1:9443/.well-known/est".to_string(),
        renew_before_days: 30,
        retry_backoff: Duration::from_secs(backoff_mins * 60),
    })
}

fn material(fingerprint: u64, days: i64) -> Option<ReloadState> {
    Some(ReloadState {
        client: Some(ClientCert {
            serial: Some(format!("serial-{fingerprint}")),
            not_after: Some("2030-01-01T00:00:00Z".to_string()),
            expiry_days: days,
            fingerprint,
        }),
        trust: 7,
    })
}

fn metrics() -> DeviceMetrics {
    let defaults = Defaults {
        publish_mode: None,
        batch_ms: None,
    };
    let cfg = DeviceConfig {
        id: "plc-1".to_string(),
        adapter: "ethernet-ip".to_string(),
        endpoint: "127.0.0.1:2221".to_string(),
        slot: None,
        connected: false,
        mode: DeviceMode::Poll,
        poll_groups: Vec::new(),
        defaults,
        write_allow: Vec::new(),
        io: None,
    };
    let global = GlobalConfig {
        timeouts: Timeouts {
            connect_ms: 5_000,
            request_timeout_ms: 2_000,
            reconnect_backoff_min_ms: 1_000,
            reconnect_backoff_max_ms: 30_000,
        },
        defaults,
        metrics_interval_secs: 60,
        stale_signal_secs: 60,
        keepalive_probe_interval_ms: 10_000,
    };
    DeviceMetrics::new(&cfg, &global)
}

struct Rig {
    lifecycle: SecurityLifecycle,
    dm: DeviceMetrics,
    told: Vec<Notice>,
    reconnects: usize,
}

impl Rig {
    fn new(w: &WatchSettings) -> Rig {
        Rig {
            lifecycle: SecurityLifecycle::start("plc-1", "127.0.0.1:2221", &tls(), w)
                .expect("a lifecycle"),
            dm: metrics(),
            told: Vec::new(),
            reconnects: 0,
        }
    }

    fn observe(&mut self, state: &Option<ReloadState>) {
        for step in self.lifecycle.observed(state, &mut self.dm) {
            if step.reconnect {
                self.reconnects += 1;
            }
            self.told.push(step.notice);
        }
    }

    fn count(&self, name: &str) -> usize {
        self.told.iter().filter(|n| n.name == name).count()
    }

    fn context(&self, name: &str, key: &str) -> Json {
        self.told
            .iter()
            .rev()
            .find(|n| n.name == name)
            .and_then(|n| n.context.as_ref())
            .and_then(|c| c.get(key))
            .map(|v| v.copy())
            .unwrap_or_else(|| panic!("{name} carries {key}"))
    }
}

#[test]
fn not_tls_or_watch_disabled_without_est_returns_immediately() {
    let plaintext = Some(SecurityConfig::default());
    let off = WatchSettings {
        reload_interval_secs: Some(0),
        ..watch(None)
    };
    let start = |sec: &Option<SecurityConfig>, w: &WatchSettings| {
        SecurityLifecycle::start("plc-1", "127.0.0.1:2221", sec, w)
    };
    assert!(start(&plaintext, &watch(None)).is_none());
    assert!(start(&tls(), &off).is_none());
    assert!(start(&None, &watch(None)).is_none());

    // With enrollment on it still comes round, at the default cadence.
    let enrolling = WatchSettings {
        est: est(60),
        ..off
    };
    assert_eq!(start(&tls(), &enrolling).expect("it enrolls").tick_secs, 3_600);
    assert_eq!(start(&tls(), &watch(None)).expect("it watches").tick_secs, 1);
}

#[test]
fn rotation_emits_cert_rotated_and_requests_reconnect() {
    let mut rig = Rig::new(&watch(None));
    rig.observe(&material(1, 400));
    assert_eq!(
        rig.count("cert-rotated"),
        0,
        "the first observation is a baseline, not a rotation"
    );
    rig.observe(&material(2, 500));
    assert_eq!(rig.reconnects, 1);
    assert_eq!(rig.count("cert-rotated"), 1);
    assert!(rig.context("cert-rotated", "security").same(&json("\"tls\"")));
    assert!(rig.context("cert-rotated", "serial").same(&json("\"serial-2\"")));
    assert!(rig.dm.conn.cert_reloads.total >= 1);
    assert_eq!(
        rig.told[0].message.as_deref(),
        Some(
            "client certificate / trust store rotated for 127.0.0.1:2221 \u{2014} reconnecting to \
             apply the new material"
        )
    );
}

#[test]
fn a_changed_trust_store_is_a_rotation() {
    let mut rig = Rig::new(&watch(None));
    rig.observe(&material(1, 400));
    let mut other = material(1, 400);
    if let Some(state) = &mut other {
        state.trust = 8;
    }
    rig.observe(&other);
    assert_eq!(rig.reconnects, 1);
}

#[test]
fn expiring_then_expired_events_fire_on_transitions_and_gauge_updates() {
    let mut rig = Rig::new(&watch(Some(30)));
    rig.observe(&material(1, 10));
    assert_eq!(rig.count("cert-expiring"), 1);
    assert_eq!(rig.dm.conn.cert_expiry_days, Some(10));
    assert!(rig.context("cert-expiring", "daysRemaining").same(&json("10")));

    rig.observe(&material(2, -2));
    assert_eq!(rig.reconnects, 1, "the rotation still requests a reconnect");
    rig.observe(&material(2, -2));
    assert_eq!(rig.count("cert-expired"), 1, "expired warns once, not every tick");
    assert_eq!(rig.count("cert-expiring"), 1, "and the earlier warning does not repeat");
    assert_eq!(rig.dm.conn.cert_expiry_days, Some(-2));
    let expired = rig.told.iter().find(|n| n.name == "cert-expired").unwrap();
    assert_eq!(expired.severity, Severity::Warning);
    assert!(expired.message.as_deref().unwrap().contains("EXPIRED 2 day(s) ago"));
}

#[test]
fn vault_read_error_is_ignored_and_the_loop_continues() {
    let mut rig = Rig::new(&watch(None));
    rig.observe(&None);
    assert!(rig.told.is_empty(), "a failed read emits nothing");
    rig.observe(&material(1, 400));
    rig.observe(&None);
    rig.observe(&material(2, 500));
    assert_eq!(rig.reconnects, 1, "the lifecycle survived the vault error");
}

#[test]
fn est_enroll_success_updates_status_events_and_the_same_tick_watcher_reconnects() {
    let settings = WatchSettings {
        est: est(60),
        ..watch(None)
    };
    let mut rig = Rig::new(&settings);
    let status = rig.lifecycle.status.as_ref().expect("an enrollment status");
    assert!(status.enabled && status.enrollments == 0 && status.failures == 0);

    // A healthy certificate is not renewed; the tick only sets the baseline.
    assert_eq!(rig.lifecycle.tick(Some(400), at(0)), EstDecision::Wait);
    rig.observe(&material(1, 400));
    assert_eq!(rig.count("cert-enrolled"), 0);

    // Within the renewal days it is, and the same tick sees what was written.
    assert_eq!(
        rig.lifecycle.tick(Some(5), at(1)),
        EstDecision::Enroll { reenroll: true }
    );
    let notice = rig.lifecycle.enrolled(
        Ok(Enrolled {
            serial: Some("serial-9".to_string()),
            not_after: Some("2031-01-01T00:00:00Z".to_string()),
            written_to: "ot/originator".to_string(),
            at: Some("2030-01-01T00:00:00Z".to_string()),
            next_renew: Some("2030-12-02T00:00:00Z".to_string()),
        }),
        true,
        &mut rig.dm,
    );
    rig.told.push(notice);
    rig.observe(&material(9, 365));

    assert_eq!(rig.reconnects, 1);
    assert!(rig.context("cert-enrolled", "serial").same(&json("\"serial-9\"")));
    assert!(rig.context("cert-enrolled", "reenroll").same(&json("true")));
    assert!(rig.context("cert-rotated", "serial").same(&json("\"serial-9\"")));
    assert_eq!(
        rig.told[0].message.as_deref(),
        Some(
            "EST re-enrollment succeeded for 127.0.0.1:2221 \u{2014} wrote the new certificate to \
             `ot/originator`"
        )
    );
    let status = rig.lifecycle.status.as_ref().unwrap();
    assert!(status.enabled && status.enrollments == 1 && status.failures == 0);
    assert!(status.last_enroll.is_some() && status.next_renew.is_some());
    assert!(status.last_error.is_none());
    assert_eq!(rig.dm.conn.est_enrollments.total, 1);
    assert!(rig.dm.conn.cert_reloads.total >= 1);
}

#[test]
fn est_failure_emits_enroll_failed_and_respects_retry_backoff() {
    let settings = WatchSettings {
        est: est(60),
        ..watch(None)
    };
    let mut rig = Rig::new(&settings);
    for tick in 0..3 {
        if let EstDecision::Enroll { reenroll } = rig.lifecycle.tick(Some(5), at(tick)) {
            let notice = rig
                .lifecycle
                .enrolled(Err("connection refused".to_string()), reenroll, &mut rig.dm);
            rig.told.push(notice);
        }
        rig.observe(&material(1, 5));
    }
    assert_eq!(rig.count("cert-enroll-failed"), 1, "one attempt across three ticks");
    assert_eq!(rig.dm.conn.est_failures.total, 1);
    assert_eq!(rig.dm.conn.est_enrollments.total, 0);
    assert_eq!(rig.dm.conn.cert_expiry_days, Some(5));
    let status = rig.lifecycle.status.as_ref().unwrap();
    assert_eq!((status.enrollments, status.failures), (0, 1));
    assert_eq!(status.last_error.as_deref(), Some("connection refused"));
    assert_eq!(rig.count("cert-enrolled"), 0);
    // The backoff passes, and it is tried again.
    assert_eq!(rig.lifecycle.tick(Some(5), at(3_600)), EstDecision::Enroll { reenroll: true });
}

#[test]
fn a_missing_certificate_is_enrolled_and_a_fresh_one_is_left_alone() {
    let backoff = Duration::from_secs(60);
    assert_eq!(decide(None, 30, None, backoff), EstDecision::Enroll { reenroll: false });
    assert_eq!(decide(Some(30), 30, None, backoff), EstDecision::Enroll { reenroll: true });
    assert_eq!(decide(Some(31), 30, None, backoff), EstDecision::Wait);
    assert_eq!(
        decide(None, 30, Some(Duration::from_secs(59)), backoff),
        EstDecision::Wait
    );
    assert_eq!(
        decide(None, 30, Some(Duration::from_secs(60)), backoff),
        EstDecision::Enroll { reenroll: false }
    );
}

#[test]
fn a_certificate_without_a_known_end_is_fine() {
    let mut w = CertWatcher::default();
    let state = material(1, i64::MAX).unwrap();
    let o = w.observe(&state, 30);
    assert_eq!(o.expiry_days, None);
    assert!(!o.rotated && !o.expiring && !o.expired);
    assert_eq!(w.validity, Validity::Fine);
}
