//! The reconnect ladder, climbed on a simulated clock.

use std::collections::VecDeque;

use ethernet_ip_adapter::clock::Instant;
use ethernet_ip_adapter::config::{
    DeadbandSpec, Defaults, DeviceConfig, DeviceMode, EipType, GlobalConfig, IoConfig, IoFieldSpec,
    PollGroup, PublishMode, SignalSpec, Timeouts,
};
use ethernet_ip_adapter::counters::{Amount, IoLinkStats};
use ethernet_ip_adapter::device::{identity_json, DeviceError, DeviceIdentity, SecurityStatus};
use ethernet_ip_adapter::device_metrics::DeviceMetrics;
use ethernet_ip_adapter::eip::tls::{ClientIdentity, SecurityConfig, SecurityMode};
use ethernet_ip_adapter::emit::Emission;
use ethernet_ip_adapter::health::{Health, LinkState};
use ethernet_ip_adapter::ieee::F64;
use ethernet_ip_adapter::json::{Json, Number, Object};
use ethernet_ip_adapter::metrics::Family;
use ethernet_ip_adapter::notice::{Notice, NoticeKind, Severity};
use ethernet_ip_adapter::reconnect::{
    backend_for, connect_line, experimental_note, is_permanent, Backoff, BackendKind, Ladder,
    LadderNext, LoopExit, OfflineAnswer, Pause, UnknownAdapter, WaitEnd,
};
use ethernet_ip_adapter::poll_driver::ControlVerb;
use ethernet_ip_adapter::push_driver::{PushExit, PushLoop, PushNext};
use ethernet_ip_adapter::startup::LaunchRefusal;
use ethernet_ip_adapter::step::StepPart;
use serde_json::Value;

fn to_json(v: &Value) -> Json {
    match v {
        Value::Null => Json::Null,
        Value::Bool(b) => Json::Bool(*b),
        Value::Number(n) => {
            if let Some(u) = n.as_u64() {
                Json::Number(Number::Unsigned(u))
            } else if let Some(i) = n.as_i64() {
                Json::Number(Number::Signed(i))
            } else {
                let f = n.as_f64().unwrap();
                Json::Number(Number::Float(F64 { bits: f.to_bits() }))
            }
        }
        Value::String(s) => Json::Text(s.clone()),
        Value::Array(items) => Json::Array(items.iter().map(to_json).collect()),
        Value::Object(map) => {
            let mut o = Object::new();
            for (k, v) in map {
                o.insert(k, to_json(v));
            }
            Json::Object(o)
        }
    }
}

fn json(text: &str) -> Json {
    to_json(&serde_json::from_str(text).expect("a JSON value"))
}

fn at(ms: u64) -> Instant {
    Instant { nanos: 1_000_000_000 + ms * 1_000_000 }
}

fn signal(name: &str, tag: &str, ty: EipType, count: Option<u32>) -> SignalSpec {
    SignalSpec {
        name: name.to_string(),
        tag_path: tag.to_string(),
        eip_type: ty,
        array_count: count,
        scale: None,
        value_offset: None,
        deadband: DeadbandSpec::default(),
    }
}

fn device(mode: DeviceMode, signals: Vec<SignalSpec>) -> DeviceConfig {
    DeviceConfig {
        id: if mode == DeviceMode::Push { "io-1" } else { "plc-1" }.to_string(),
        adapter: "ethernet-ip".to_string(),
        endpoint: "127.0.0.1:44818".to_string(),
        slot: None,
        connected: false,
        mode,
        poll_groups: if mode == DeviceMode::Push {
            Vec::new()
        } else {
            vec![PollGroup {
                id: Some("fast".to_string()),
                signals,
                publish_mode: PublishMode::OnChange,
                poll_interval_ms: 20,
            }]
        },
        defaults: Defaults {
            publish_mode: None,
            batch_ms: None,
        },
        write_allow: Vec::new(),
        io: if mode == DeviceMode::Push {
            Some(IoConfig {
                input_assembly: 100,
                input_size_bytes: 8,
                sample_ms: 0,
                input_fields: vec![IoFieldSpec {
                    name: "motor-run".to_string(),
                    offset: 0,
                    eip_type: EipType::Udint,
                    bit: None,
                    array_count: None,
                    scale: None,
                    value_offset: None,
                    deadband: None,
                }],
                output_run: None,
                output_size_bytes: 0,
                output_fields: Vec::new(),
                rpi_ms: 100,
                o2t_rpi_ms: 100,
            })
        } else {
            None
        },
    }
}

fn poll_device() -> DeviceConfig {
    device(
        DeviceMode::Poll,
        vec![signal("line-speed", "LINE_SPEED", EipType::Real, None)],
    )
}

fn global(min_ms: u64, max_ms: u64) -> GlobalConfig {
    GlobalConfig {
        timeouts: Timeouts {
            connect_ms: 500,
            request_timeout_ms: 2000,
            reconnect_backoff_min_ms: min_ms,
            reconnect_backoff_max_ms: max_ms,
        },
        defaults: Defaults {
            publish_mode: None,
            batch_ms: None,
        },
        metrics_interval_secs: 60,
        stale_signal_secs: 60,
        keepalive_probe_interval_ms: 10_000,
    }
}

fn scripted_identity(product: &str) -> DeviceIdentity {
    DeviceIdentity {
        vendor_id: 0x1337,
        vendor_name: None,
        device_type: 0x0E,
        device_type_name: None,
        product_code: 1,
        revision_major: 7,
        revision_minor: 3,
        serial_number: 0x00C0_FFEE,
        product_name: product.to_string(),
    }
}

struct Session {
    runs_ms: u64,
    exit: LoopExit,
    identity: Option<DeviceIdentity>,
    security: Option<SecurityStatus>,
}

fn session(runs_ms: u64, exit: LoopExit) -> Session {
    Session {
        runs_ms,
        exit,
        identity: None,
        security: None,
    }
}

struct Rig {
    cfg: DeviceConfig,
    global: GlobalConfig,
    security: Option<SecurityConfig>,
    health: Health,
    dm: DeviceMetrics,
    attempts: VecDeque<Result<Session, (bool, &'static str)>>,
    /// What a connect beyond the script does.
    hang: bool,
    reconnects: VecDeque<u64>,
    cancel_at: u64,
    attempt_times: Vec<u64>,
    emitted: Vec<Emission>,
    notices: Vec<Notice>,
    /// What was answered, emitted and told, in order.
    heard: Vec<String>,
    replies: Vec<Result<(), String>>,
    identity_while_up: Vec<Option<DeviceIdentity>>,
    security_while_up: Vec<Option<SecurityStatus>>,
    identity_at_end: bool,
    now_ms: u64,
}

impl Rig {
    fn new(cfg: DeviceConfig, global: GlobalConfig) -> Rig {
        let dm = DeviceMetrics::new(&cfg, &global);
        Rig {
            cfg,
            global,
            security: None,
            health: Health::default(),
            dm,
            attempts: VecDeque::new(),
            hang: false,
            reconnects: VecDeque::new(),
            cancel_at: 600_000,
            attempt_times: Vec::new(),
            emitted: Vec::new(),
            notices: Vec::new(),
            heard: Vec::new(),
            replies: Vec::new(),
            identity_while_up: Vec::new(),
            security_while_up: Vec::new(),
            identity_at_end: false,
            now_ms: 0,
        }
    }

    fn next_reconnect(&self) -> u64 {
        self.reconnects.front().copied().unwrap_or(u64::MAX).max(self.now_ms)
    }

    fn run(&mut self) {
        let mut ladder = Ladder::new(&self.cfg, &self.global, &self.security).expect("a ladder");
        let mut next = LadderNext::Attempt;
        let mut up: Option<Session> = None;
        loop {
            let now = at(self.now_ms);
            let step = match next {
                LadderNext::Attempt => {
                    self.attempt_times.push(self.now_ms);
                    ladder.connect(&mut self.health, &mut self.dm)
                }
                LadderNext::Connect(deadline_ms) => {
                    let outcome = match self.attempts.pop_front() {
                        Some(o) => Some(o),
                        None if self.hang => None,
                        None => Some(Err((false, "refused"))),
                    };
                    match outcome {
                        None => {
                            if self.cancel_at <= self.now_ms + deadline_ms {
                                self.now_ms = self.cancel_at;
                                ladder.cancelled()
                            } else {
                                self.now_ms += deadline_ms;
                                ladder.failed(
                                    &self.cfg,
                                    false,
                                    "connect timed out",
                                    at(self.now_ms),
                                    &mut self.health,
                                    &mut self.dm,
                                )
                            }
                        }
                        Some(Ok(mut s)) => {
                            let step = ladder.connected(
                                &self.cfg,
                                "ethernet-ip",
                                4,
                                now,
                                s.security.take(),
                                s.identity.take(),
                                &mut self.health,
                                &mut self.dm,
                            );
                            self.identity_while_up.push(ladder.identity.clone());
                            self.security_while_up.push(ladder.security.clone());
                            up = Some(s);
                            step
                        }
                        Some(Err((permanent, reason))) => ladder.failed(
                            &self.cfg,
                            permanent,
                            reason,
                            now,
                            &mut self.health,
                            &mut self.dm,
                        ),
                    }
                }
                LadderNext::Run => {
                    let s = up.take().expect("a session");
                    let ends = self.now_ms + s.runs_ms;
                    let asked = self.next_reconnect();
                    let exit = if self.cancel_at <= asked && self.cancel_at <= ends {
                        self.now_ms = self.cancel_at;
                        LoopExit::Stopped
                    } else if asked <= ends {
                        self.now_ms = asked;
                        self.reconnects.pop_front();
                        LoopExit::Reconnect
                    } else {
                        self.now_ms = ends;
                        s.exit
                    };
                    ladder.left(
                        &self.cfg,
                        exit,
                        at(self.now_ms),
                        &mut self.health,
                        &mut self.dm,
                    )
                }
                LadderNext::Wait(pause) => {
                    let ms = match pause {
                        Pause::UpTo(ms) => ms,
                        Pause::Exactly(ms) => ms,
                    };
                    let ends = self.now_ms + ms;
                    let asked = self.next_reconnect();
                    if self.cancel_at <= asked && self.cancel_at <= ends {
                        self.now_ms = self.cancel_at;
                        ladder.waited(WaitEnd::Stopped)
                    } else if asked <= ends {
                        self.now_ms = asked;
                        self.reconnects.pop_front();
                        ladder.waited(WaitEnd::Reconnect)
                    } else {
                        self.now_ms = ends;
                        ladder.waited(WaitEnd::Elapsed)
                    }
                }
                LadderNext::Done => {
                    self.identity_at_end = ladder.identity.is_some();
                    return;
                }
            };
            let mut step = step;
            for part in step.order.parts() {
                match part {
                    StepPart::Answer => {
                        if let Some(reply) = step.reply.take() {
                            self.heard.push("answer".to_string());
                            self.replies.push(reply);
                        }
                    }
                    StepPart::Emit => {
                        if !step.emit.is_empty() {
                            self.heard.push("metrics".to_string());
                        }
                        self.emitted.append(&mut step.emit);
                    }
                    StepPart::Tell => {
                        self.heard.extend(step.notices.iter().map(|n| n.name.clone()));
                        self.notices.append(&mut step.notices);
                    }
                }
            }
            next = step.next;
        }
    }

    fn waits(&self) -> Vec<u64> {
        self.attempt_times.windows(2).map(|w| w[1] - w[0]).collect()
    }

    fn told(&self, name: &str) -> Vec<&Notice> {
        self.notices.iter().filter(|n| n.name == name).collect()
    }

    fn last(&self, family: Family, measure: &str) -> Option<u64> {
        self.emitted
            .iter()
            .rev()
            .find(|e| e.family == family)
            .and_then(|e| value(e, measure))
    }

    fn emit_now(&mut self) {
        let now = at(self.now_ms);
        let out = self.dm.emit_now(&mut self.health, now);
        self.emitted.extend(out);
    }
}

fn value(e: &Emission, measure: &str) -> Option<u64> {
    e.values.iter().find(|m| m.name == measure).map(|m| match m.amount {
        Amount::Number(n) => n,
        Amount::Nanos(n) => (n / 1_000_000) as u64,
        Amount::Signed(n) => u64::try_from(n).unwrap_or(0),
    })
}

fn context(n: &Notice, key: &str) -> Option<Json> {
    n.context.as_ref().and_then(|c| c.get(key)).map(|v| v.copy())
}

// ---- backend selection ----

#[test]
fn backend_for_maps_sim_ethernet_ip_and_unknown() {
    assert_eq!(backend_for("sim").expect("sim backend").kind(), "sim");
    assert_eq!(
        backend_for("ethernet-ip").expect("eip backend").kind(),
        "ethernet-ip"
    );
    assert_eq!(backend_for("ethernet-ip"), Some(BackendKind::EthernetIp));
    assert!(backend_for("etherne-tip").is_none());
}

#[test]
fn an_unknown_adapter_refusal_is_distinguishable_from_a_construction_failure() {
    let refusal = LaunchRefusal::Adapter(UnknownAdapter {
        instance: "plc-1".to_string(),
        adapter: "etherne-tip".to_string(),
    });
    assert!(refusal.is_unknown_adapter());
    assert!(refusal.message().contains("etherne-tip") && refusal.message().contains("plc-1"));
    let failure = LaunchRefusal::Other("the runtime is shutting down".to_string());
    assert!(!failure.is_unknown_adapter(), "an ordinary failure is no bad instance");
    assert_eq!(failure.message(), "the runtime is shutting down");
}

// ---- the connect edge ----

#[test]
fn connect_success_publishes_connected_event_and_clears_alarm() {
    let mut rig = Rig::new(poll_device(), global(1000, 30000));
    rig.attempts.push_back(Ok(session(600_000, LoopExit::LinkLost)));
    rig.cancel_at = 50;
    rig.run();
    let connected = rig.told("device-connected");
    assert_eq!(connected.len(), 1);
    assert!(context(connected[0], "adapter").unwrap().same(&json("\"ethernet-ip\"")));
    assert_eq!(rig.told("device-unreachable").len(), 1);
    assert_eq!(rig.told("device-unreachable")[0].kind, NoticeKind::Clear);
    assert_eq!(rig.attempt_times.len(), 1);
    assert!(rig.last(Family::Connection, "connectAttemptsTotal").unwrap() >= 1);
    assert_eq!(rig.last(Family::Connection, "sessionConnected"), Some(1));
}

#[test]
fn a_connect_publishes_the_identity_on_the_event_and_stores_it_for_status() {
    let mut rig = Rig::new(poll_device(), global(1000, 30000));
    rig.attempts.push_back(Ok(Session {
        identity: Some(scripted_identity("1756-L71/B")),
        ..session(600_000, LoopExit::LinkLost)
    }));
    rig.cancel_at = 50;
    rig.run();
    let connected = rig.told("device-connected");
    let id = context(connected[0], "identity").expect("the nameplate");
    assert!(id.get("productName").unwrap().same(&json("\"1756-L71/B\"")));
    assert!(id.get("revision").unwrap().same(&json("\"7.3\"")));
    assert!(id.get("vendorId").unwrap().same(&json(&0x1337.to_string())));
    assert!(id.get("serialNumber").unwrap().same(&json("\"0x00C0FFEE\"")));
    let stored = rig.identity_while_up[0].clone().expect("stored while up");
    assert_eq!(stored.product_name, "1756-L71/B");
    assert!(identity_json(&stored).same(&id), "one rendering for both surfaces");
}

#[test]
fn a_connect_without_an_identity_announces_itself_unchanged() {
    let mut rig = Rig::new(poll_device(), global(1000, 30000));
    rig.attempts.push_back(Ok(session(600_000, LoopExit::LinkLost)));
    rig.cancel_at = 50;
    rig.run();
    let connected = rig.told("device-connected");
    assert!(context(connected[0], "adapter").unwrap().same(&json("\"ethernet-ip\"")));
    assert!(context(connected[0], "identity").is_none());
}

#[test]
fn a_lost_link_clears_the_stored_identity() {
    let mut rig = Rig::new(poll_device(), global(100, 800));
    rig.attempts.push_back(Ok(Session {
        identity: Some(scripted_identity("1756-L71/B")),
        ..session(20, LoopExit::LinkLost)
    }));
    rig.hang = true;
    rig.cancel_at = 2_000;
    rig.run();
    assert!(!rig.identity_at_end);
}

#[test]
fn the_connect_line_names_the_product_when_there_is_one() {
    assert_eq!(
        connect_line("10.0.0.5:44818", Some(&scripted_identity("1756-L71/B"))),
        "connected to 10.0.0.5:44818 (1756-L71/B rev 7.3)"
    );
    assert_eq!(
        connect_line("10.0.0.5:44818", None),
        "connected to 10.0.0.5:44818"
    );
}

#[test]
fn an_instance_with_experimental_signals_is_warned_about_naming_the_device() {
    let cfg = device(
        DeviceMode::Poll,
        vec![
            signal("alarms", "ALARM_BITS", EipType::Bool, Some(8)),
            signal("line-speed", "LINE_SPEED", EipType::Real, None),
        ],
    );
    let note = experimental_note(&cfg, Some(&scripted_identity("1756-L71/B"))).expect("one note");
    assert!(note.message.contains("EXPERIMENTAL"));
    assert_eq!(note.signals, vec!["alarms"]);
    assert_eq!(note.product, "1756-L71/B rev 7.3");
    for forbidden in ["will fail", "expected BAD", "BAD on", "will read"] {
        assert!(!note.message.contains(forbidden));
    }
    assert!(experimental_note(&poll_device(), None).is_none());
}

#[test]
fn link_lost_raises_alarm_backs_off_and_reconnects() {
    let mut rig = Rig::new(poll_device(), global(100, 800));
    rig.attempts.push_back(Ok(session(20, LoopExit::LinkLost)));
    rig.attempts.push_back(Ok(session(600_000, LoopExit::LinkLost)));
    rig.cancel_at = 3_000;
    rig.run();
    let alarms = rig.told("device-unreachable");
    assert!(alarms.iter().any(|n| n.kind == NoticeKind::Raise));
    assert!(rig
        .emitted
        .iter()
        .filter(|e| e.family == Family::Health)
        .any(|e| value(e, "reconnects") == Some(1)));
    assert_eq!(rig.attempt_times.len(), 2);
    assert!(rig.waits()[0] <= 20 + 100);
    assert_eq!(rig.told("device-connected").len(), 2);
}

#[test]
fn permanent_connect_failure_backs_off_at_the_ceiling() {
    let mut rig = Rig::new(poll_device(), global(100, 800));
    for _ in 0..3 {
        rig.attempts.push_back(Err((true, "no such device")));
    }
    rig.cancel_at = 3_000;
    rig.run();
    let waits = rig.waits();
    assert!(waits.len() >= 3);
    assert_eq!(waits[..3], [800, 800, 800]);
    assert!(rig.told("device-connected").is_empty());
}

#[test]
fn transient_failures_backoff_exponentially_and_reset_on_success() {
    let mut rig = Rig::new(poll_device(), global(100, 800));
    for _ in 0..3 {
        rig.attempts.push_back(Err((false, "refused")));
    }
    rig.attempts.push_back(Ok(session(20, LoopExit::LinkLost)));
    rig.attempts.push_back(Err((false, "refused again")));
    rig.cancel_at = 5_000;
    rig.run();
    let waits = rig.waits();
    assert!(waits.len() >= 4);
    assert_eq!(waits[..3], [100, 200, 400]);
    assert_eq!(waits[3], 20 + 100, "a successful connect starts the ladder again");
}

#[test]
fn tls_instance_permanent_failure_fires_handshake_event_on_the_transition_only() {
    let mut rig = Rig::new(poll_device(), global(100, 800));
    rig.security = Some(SecurityConfig {
        mode: SecurityMode::Tls,
        verify_peer: false,
        client: Some(ClientIdentity {
            cert_secret: None,
            cert_file: Some("client.pem".to_string()),
            key_file: Some("client.key".to_string()),
        }),
        ..SecurityConfig::default()
    });
    for _ in 0..3 {
        rig.attempts.push_back(Err((true, "bad certificate")));
    }
    rig.cancel_at = 2_000;
    rig.run();
    assert!(rig.attempt_times.len() >= 3, "it kept retrying");
    assert_eq!(rig.told("tls-handshake-failed").len(), 1);
    assert!(rig.last(Family::Connection, "tlsHandshakeFailuresTotal").unwrap() >= 3);
}

#[test]
fn explicit_reconnect_reply_fulfilled_after_next_connect_success_and_failure() {
    let mut rig = Rig::new(poll_device(), global(100, 800));
    rig.attempts.push_back(Ok(session(600_000, LoopExit::LinkLost)));
    rig.attempts.push_back(Ok(session(600_000, LoopExit::LinkLost)));
    rig.attempts.push_back(Err((true, "gone")));
    rig.reconnects.push_back(50);
    rig.reconnects.push_back(150);
    rig.cancel_at = 900;
    rig.run();
    assert_eq!(rig.replies.len(), 2);
    assert!(rig.replies[0].is_ok(), "the first reconnect reconnected");
    assert!(rig.replies[1].is_err(), "the second one's connect failed");
}

#[test]
fn a_reconnect_is_answered_after_a_success_was_told_and_before_a_failure_is() {
    let mut rig = Rig::new(poll_device(), global(100, 800));
    rig.security = Some(SecurityConfig {
        mode: SecurityMode::Tls,
        ..SecurityConfig::default()
    });
    rig.attempts.push_back(Ok(session(600_000, LoopExit::LinkLost)));
    rig.attempts.push_back(Ok(session(600_000, LoopExit::LinkLost)));
    rig.attempts.push_back(Err((true, "bad certificate")));
    rig.reconnects.push_back(50);
    rig.reconnects.push_back(150);
    rig.cancel_at = 160;
    rig.run();
    let connect = ["metrics", "device-connected", "device-unreachable"];
    assert_eq!(rig.heard[..3], connect, "nobody asked for the first connect");
    assert_eq!(rig.heard[3..6], connect);
    assert_eq!(rig.heard[6..], ["answer", "answer", "metrics", "tls-handshake-failed"]);
}

#[test]
fn cancel_during_connect_returns_without_alarm_or_reconnect() {
    let mut rig = Rig::new(poll_device(), global(1000, 30000));
    rig.hang = true;
    rig.cancel_at = 100;
    rig.run();
    assert!(rig.now_ms < 200);
    assert_eq!(rig.attempt_times.len(), 1);
    assert!(rig.told("device-unreachable").is_empty());
    assert!(rig.told("device-connected").is_empty());
}

#[test]
fn security_status_lands_in_health_and_cert_gauge_on_connect() {
    let mut rig = Rig::new(poll_device(), global(1000, 30000));
    rig.attempts.push_back(Ok(Session {
        security: Some(SecurityStatus {
            tls: true,
            tls_version: Some("1.3".to_string()),
            peer_verified: true,
            client_cert_expiry_days: Some(12),
            ..SecurityStatus::default()
        }),
        ..session(600_000, LoopExit::LinkLost)
    }));
    rig.cancel_at = 50;
    rig.run();
    let seen = rig.security_while_up[0].clone().expect("a posture while connected");
    assert!(seen.tls && seen.tls_version.as_deref() == Some("1.3"));
    let connected = rig.told("device-connected");
    assert!(context(connected[0], "security").unwrap().same(&json("\"tls\"")));
    assert_eq!(rig.last(Family::Connection, "certExpiryDays"), Some(12));
}

#[test]
fn tls_peer_unverified_session_emits_the_warning() {
    let mut rig = Rig::new(poll_device(), global(1000, 30000));
    rig.attempts.push_back(Ok(Session {
        security: Some(SecurityStatus {
            tls: true,
            peer_verified: false,
            ..SecurityStatus::default()
        }),
        ..session(600_000, LoopExit::LinkLost)
    }));
    rig.cancel_at = 50;
    rig.run();
    let told = rig.told("tls-peer-unverified");
    assert_eq!(told.len(), 1);
    assert_eq!(told[0].severity, Severity::Warning);
    assert!(context(told[0], "instance").unwrap().same(&json("\"plc-1\"")));
}

#[test]
fn stop_or_reconnect_during_the_poll_backoff_is_honoured_immediately() {
    let mut rig = Rig::new(poll_device(), global(30_000, 60_000));
    for _ in 0..2 {
        rig.attempts.push_back(Ok(session(20, LoopExit::LinkLost)));
    }
    rig.reconnects.push_back(200);
    rig.cancel_at = 400;
    rig.run();
    assert!(rig.now_ms < 1_000);
    assert_eq!(rig.replies.len(), 1);
    assert!(rig.replies[0].is_ok());
    assert_eq!(rig.attempt_times.len(), 2);
}

// ---- push ----

#[test]
fn push_open_failure_counts_forward_open_and_backs_off() {
    let mut rig = Rig::new(device(DeviceMode::Push, Vec::new()), global(100, 800));
    rig.attempts.push_back(Err((false, "forward open refused")));
    rig.attempts.push_back(Ok(session(600_000, LoopExit::LinkLost)));
    rig.cancel_at = 3_000;
    rig.run();
    assert_eq!(rig.attempt_times.len(), 2);
    rig.emit_now();
    assert_eq!(rig.last(Family::Io, "forwardOpenFailuresTotal"), Some(1));
    assert_eq!(rig.last(Family::Io, "forwardOpensTotal"), Some(1));
    assert!(rig.last(Family::Connection, "connectFailuresTotal").unwrap() >= 1);
    assert!(rig.waits()[0] <= 100);
}

#[test]
fn only_a_refusal_that_repeats_itself_is_permanent() {
    assert!(is_permanent(&Some(DeviceError::Permanent("bad path".to_string()))));
    assert!(is_permanent(&Some(DeviceError::Unsupported("no push".to_string()))));
    assert!(!is_permanent(&Some(DeviceError::Transient("reset".to_string()))));
    assert!(!is_permanent(&None), "a connect that timed out may succeed next time");
}

#[test]
fn a_pause_takes_effect_while_the_link_is_down() {
    let cfg = poll_device();
    let g = global(1_000, 30_000);
    let mut dm = DeviceMetrics::new(&cfg, &g);
    let mut health = Health::default();
    let mut ladder = Ladder::new(&cfg, &g, &None).unwrap();
    ladder.connect(&mut health, &mut dm);
    ladder.failed(&cfg, false, "refused", at(0), &mut health, &mut dm);

    let paused = ladder.serve(&cfg, ControlVerb::Pause, Some("site/op"), at(1), &mut health, &mut dm);
    assert_eq!(paused.answer, OfflineAnswer::Changed(true));
    assert!(health.paused);
    assert_eq!(paused.notices.len(), 1);
    assert_eq!(paused.notices[0].name, "adapter-paused");
    assert_eq!(paused.notices[0].severity, Severity::Info);
    assert!(context(&paused.notices[0], "by").unwrap().same(&json("\"site/op\"")));
    assert_eq!(value(&paused.emit[0], "paused"), Some(1));

    let again = ladder.serve(&cfg, ControlVerb::Pause, None, at(2), &mut health, &mut dm);
    assert_eq!(again.answer, OfflineAnswer::Changed(false));
    assert!(again.notices.is_empty() && again.emit.is_empty());

    let resumed = ladder.serve(&cfg, ControlVerb::Resume, None, at(3), &mut health, &mut dm);
    assert_eq!(resumed.answer, OfflineAnswer::Changed(true));
    assert_eq!(resumed.notices[0].name, "adapter-resumed");
    assert!(!health.paused);

    let asked = ladder.serve(&cfg, ControlVerb::Reconnect, None, at(4), &mut health, &mut dm);
    assert_eq!(asked.answer, OfflineAnswer::Reconnect);
    let write = ladder.serve(&cfg, ControlVerb::Write, None, at(5), &mut health, &mut dm);
    assert_eq!(write.answer, OfflineAnswer::Refused);
}

#[test]
fn push_permanent_open_failure_holds_the_ceiling_and_serves_control() {
    let mut rig = Rig::new(device(DeviceMode::Push, Vec::new()), global(30_000, 60_000));
    for _ in 0..2 {
        rig.attempts.push_back(Err((true, "connection size mismatch")));
    }
    rig.reconnects.push_back(200);
    rig.cancel_at = 600;
    rig.run();
    assert!(rig.now_ms < 1_000);
    assert_eq!(rig.replies.len(), 1);
    assert!(rig.replies[0].is_err());
    assert_eq!(rig.attempt_times.len(), 2);
    rig.emit_now();
    assert_eq!(rig.last(Family::Io, "forwardOpenFailuresTotal"), Some(2));
}

#[test]
fn push_reconnect_rebases_stack_counters_not_io_lost() {
    let cfg = device(DeviceMode::Push, Vec::new());
    let g = global(100, 800);
    let mut dm = DeviceMetrics::new(&cfg, &g);
    let mut health = Health::default();
    let mut ladder = Ladder::new(&cfg, &g, &None).unwrap();
    let stats = IoLinkStats {
        frames_produced: 10,
        stale_frames: 0,
        size_mismatch: 0,
        malformed_frames: 0,
        produce_overruns: 0,
        sequence_gaps: 0,
        refused_redirects: 1,
    };
    let mut opens = 0;
    let mut told: Vec<Notice> = Vec::new();
    for start in [0, 200_000] {
        ladder.connect(&mut health, &mut dm);
        opens += 1;
        ladder.connected(&cfg, "ethernet-ip", 1, at(start), None, None, &mut health, &mut dm);
        let mut pl = PushLoop::new(&cfg, &g, false, at(start)).expect("a class-1 connection");
        let due = pl.ticked(at(start + 60_000), &mut health);
        assert_eq!(due.next, PushNext::Stats, "the metrics are due");
        told.extend(pl.counted(Some(stats), &mut health, &mut dm).notices);
        let asked = pl.control(
            &cfg,
            ControlVerb::Reconnect,
            None,
            None,
            at(start + 61_000),
            &mut health,
            &mut dm,
        );
        assert_eq!(asked.next, PushNext::Close(PushExit::Reconnect));
        ladder.left(&cfg, LoopExit::Reconnect, at(start + 61_000), &mut health, &mut dm);
    }
    assert_eq!(opens, 2);
    let out = dm.emit_now(&mut health, at(400_000));
    let io = out.iter().find(|e| e.family == Family::Io).unwrap();
    assert_eq!(value(io, "ioTimeoutsTotal"), Some(0), "a requested reconnect is no timeout");
    assert!(value(io, "refusedRedirectsTotal").unwrap() >= 2);
    let refused = told.iter().filter(|n| n.name == "io-redirect-refused").count();
    assert_eq!(refused, 2, "it is told again on the new connection");
    assert_eq!(value(io, "framesProducedTotal"), Some(20));
}

#[test]
fn a_push_device_without_a_connection_has_no_ladder() {
    let mut cfg = device(DeviceMode::Push, Vec::new());
    cfg.io = None;
    assert!(Ladder::new(&cfg, &global(100, 800), &None).is_none());
}

#[test]
fn the_rungs_double_up_to_the_ceiling() {
    let b = Backoff::from_timeouts(&global(100, 800).timeouts);
    let rungs: Vec<u64> = (0..6).map(|a| b.cap(a)).collect();
    assert_eq!(rungs, vec![100, 200, 400, 800, 800, 800]);
    assert_eq!(b.cap(u32::MAX), 800);
    let wide = Backoff {
        base_ms: u64::MAX,
        max_ms: u64::MAX,
    };
    assert_eq!(wide.cap(3), u64::MAX);
}

#[test]
fn a_lost_link_is_a_backoff_and_a_stop_is_quiet() {
    let cfg = poll_device();
    let g = global(100, 800);
    let mut dm = DeviceMetrics::new(&cfg, &g);
    let mut health = Health::default();
    let mut ladder = Ladder::new(&cfg, &g, &None).unwrap();
    ladder.connect(&mut health, &mut dm);
    ladder.connected(&cfg, "ethernet-ip", 1, at(0), None, None, &mut health, &mut dm);
    assert_eq!(health.link, LinkState::Online);
    let step = ladder.left(&cfg, LoopExit::Stopped, at(5), &mut health, &mut dm);
    assert!(step.notices.is_empty() && step.emit.is_empty());
    assert_eq!(step.next, LadderNext::Done);
}

#[test]
fn the_experimental_note_is_emitted_on_the_connect_edge() {
    let mut rig = Rig::new(
        device(
            DeviceMode::Poll,
            vec![signal("alarms", "ALARM_BITS", EipType::Bool, Some(8))],
        ),
        global(1000, 30000),
    );
    rig.attempts.push_back(Ok(Session {
        identity: Some(scripted_identity("1756-L71/B")),
        ..session(600_000, LoopExit::LinkLost)
    }));
    rig.cancel_at = 50;
    rig.run();
    let note = experimental_note(&rig.cfg, rig.identity_while_up[0].as_ref()).expect("a note");
    assert!(note.message.contains("EXPERIMENTAL"));
    assert_eq!(note.product, "1756-L71/B rev 7.3");
}
