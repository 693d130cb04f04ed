//! The push loop, run against a scripted stream of updates on a simulated clock.

use std::collections::VecDeque;

use ethernet_ip_adapter::clock::Instant;
use ethernet_ip_adapter::config::{
    DeadbandSpec, Defaults, DeviceConfig, DeviceMode, EipType, GlobalConfig, IoConfig, IoFieldSpec,
    PublishMode, Timeouts,
};
use ethernet_ip_adapter::counters::{Amount, IoLinkStats};
use ethernet_ip_adapter::device::{DeviceIdentity, InputSnapshot, Quality, Reading};
use ethernet_ip_adapter::device_metrics::DeviceMetrics;
use ethernet_ip_adapter::emit::Emission;
use ethernet_ip_adapter::health::{Health, LinkState};
use ethernet_ip_adapter::ieee::F64;
use ethernet_ip_adapter::json::{Json, Number, Object};
use ethernet_ip_adapter::metrics::Family;
use ethernet_ip_adapter::notice::{Notice, NoticeKind};
use ethernet_ip_adapter::poll_driver::{BrowseError, ControlVerb};
use ethernet_ip_adapter::push_driver::{Frame, PushExit, PushLoop, PushNext, PushReply, PushStep};
use ethernet_ip_adapter::step::StepPart;
use serde_json::Value;

fn to_json(v: &Value) -> Json {
    match v {
        Value::Null => Json::Null,
        Value::Bool(b) => Json::Bool(*b),
        Value::Number(n) => {
            if let Some(u) = n.as_u64() {
                Json::Number(Number::Unsigned(u))
            } else if let Some(i) = n.as_i64() {
                Json::Number(Number::Signed(i))
            } else {
                let f = n.as_f64().unwrap();
                Json::Number(Number::Float(F64 { bits: f.to_bits() }))
            }
        }
        Value::String(s) => Json::Text(s.clone()),
        Value::Array(items) => Json::Array(items.iter().map(to_json).collect()),
        Value::Object(map) => {
            let mut o = Object::new();
            for (k, v) in map {
                o.insert(k, to_json(v));
            }
            Json::Object(o)
        }
    }
}

fn json(text: &str) -> Json {
    to_json(&serde_json::from_str(text).expect("a JSON value"))
}

const BASE: u64 = 1_000_000_000;
const FIELD_ID: &str = "a100/0/udint";

fn at(ms: u64) -> Instant {
    Instant { nanos: BASE + ms * 1_000_000 }
}

fn field(name: &str) -> IoFieldSpec {
    IoFieldSpec {
        name: name.to_string(),
        offset: 0,
        eip_type: EipType::Udint,
        bit: None,
        array_count: None,
        scale: None,
        value_offset: None,
        deadband: None,
    }
}

fn io_device(defaults: Defaults) -> DeviceConfig {
    DeviceConfig {
        id: "io-1".to_string(),
        adapter: "ethernet-ip".to_string(),
        endpoint: "127.0.0.1:44818".to_string(),
        slot: None,
        connected: false,
        mode: DeviceMode::Push,
        poll_groups: Vec::new(),
        defaults,
        write_allow: Vec::new(),
        io: Some(IoConfig {
            input_assembly: 100,
            input_size_bytes: 8,
            sample_ms: 0,
            input_fields: vec![field("motor-run")],
            output_run: Some(true),
            output_size_bytes: 8,
            output_fields: vec![field("setpoint")],
            rpi_ms: 100,
            o2t_rpi_ms: 100,
        }),
    }
}

fn no_defaults() -> Defaults {
    Defaults {
        publish_mode: None,
        batch_ms: None,
    }
}

fn global(metrics_interval_secs: u64) -> GlobalConfig {
    GlobalConfig {
        timeouts: Timeouts {
            connect_ms: 5000,
            request_timeout_ms: 2000,
            reconnect_backoff_min_ms: 1000,
            reconnect_backoff_max_ms: 30000,
        },
        defaults: no_defaults(),
        metrics_interval_secs,
        stale_signal_secs: 60,
        keepalive_probe_interval_ms: 10_000,
    }
}

#[derive(Clone, Copy)]
enum Update {
    Up(u32, u32),
    Data(i64, u16),
    Lost,
}

struct Rig {
    cfg: DeviceConfig,
    global: GlobalConfig,
    health: Health,
    dm: DeviceMetrics,
    updates_in: VecDeque<(u64, Update)>,
    ended: bool,
    verbs: VecDeque<(u64, ControlVerb)>,
    open: bool,
    cancel_at: u64,
    closed: usize,
    snapshot: Option<i64>,
    stats: Option<IoLinkStats>,
    outputs: VecDeque<Result<(), String>>,
    publish_results: VecDeque<bool>,
    identity: Option<DeviceIdentity>,
    published: Vec<(String, Vec<Json>)>,
    emitted: Vec<Emission>,
    notices: Vec<Notice>,
    /// What was answered, emitted and told, in order.
    heard: Vec<String>,
    replies: Vec<PushReply>,
    now_ms: u64,
}

fn field_reading(v: i64) -> Reading {
    Reading {
        signal_id: FIELD_ID.to_string(),
        name: Some("motor-run".to_string()),
        value: json(&v.to_string()),
        quality: Quality::Good,
        quality_raw: Some("0x00".to_string()),
        observed_type: None,
    }
}

impl Rig {
    fn new(cfg: DeviceConfig, global: GlobalConfig) -> Rig {
        let dm = DeviceMetrics::new(&cfg, &global);
        Rig {
            cfg,
            global,
            health: Health::default(),
            dm,
            updates_in: VecDeque::new(),
            ended: false,
            verbs: VecDeque::new(),
            open: true,
            cancel_at: 600_000,
            closed: 0,
            snapshot: None,
            stats: None,
            outputs: VecDeque::new(),
            publish_results: VecDeque::new(),
            identity: None,
            published: Vec::new(),
            emitted: Vec::new(),
            notices: Vec::new(),
            heard: Vec::new(),
            replies: Vec::new(),
            now_ms: 0,
        }
    }

    fn simple() -> Rig {
        Rig::new(io_device(no_defaults()), global(60))
    }

    fn now(&self) -> Instant {
        at(self.now_ms)
    }

    fn frame(&self, pl: &PushLoop, v: i64, sequence: u16) -> Frame {
        let value = json(&v.to_string());
        let moved = match pl.engine.reference(FIELD_ID) {
            Some(old) => vec![!old.same(&value)],
            None => Vec::new(),
        };
        Frame {
            readings: vec![field_reading(v)],
            sequence,
            run_mode: true,
            received_at: self.now(),
            now: self.now(),
            server_ts: "2026-07-18T12:00:00Z".to_string(),
            moved: vec![moved],
        }
    }

    fn wait(&mut self, pl: &mut PushLoop, until: u128) -> PushStep {
        let wake_ms = ((until.max(u128::from(BASE)) - u128::from(BASE)) / 1_000_000) as u64;
        let wake_ms = wake_ms.max(self.now_ms);
        let verb_ms = match self.verbs.front() {
            Some((ms, _)) => (*ms).max(self.now_ms),
            None if !self.open => self.now_ms,
            None => u64::MAX,
        };
        let update_ms = match self.updates_in.front() {
            Some((ms, _)) => (*ms).max(self.now_ms),
            None if self.ended => self.now_ms,
            None => u64::MAX,
        };
        let cancel_ms = self.cancel_at.max(self.now_ms);
        let first = cancel_ms.min(verb_ms).min(update_ms).min(wake_ms);
        self.now_ms = first;
        let now = self.now();
        if first == cancel_ms {
            return pl.stop();
        }
        if first == verb_ms {
            return match self.verbs.pop_front() {
                Some((_, verb)) => {
                    let last = self.snapshot.map(|v| InputSnapshot {
                        readings: vec![field_reading(v)],
                        received_at: now,
                        run_mode: true,
                    });
                    pl.control(
                        &self.cfg,
                        verb,
                        None,
                        last,
                        now,
                        &mut self.health,
                        &mut self.dm,
                    )
                }
                None => pl.stop(),
            };
        }
        if first == update_ms {
            return match self.updates_in.pop_front() {
                Some((_, Update::Up(o2t, t2o))) => pl.up(
                    &self.cfg,
                    "ethernet-ip",
                    o2t,
                    t2o,
                    &self.identity,
                    now,
                    &mut self.health,
                    &mut self.dm,
                ),
                Some((_, Update::Data(v, sequence))) => {
                    let f = self.frame(pl, v, sequence);
                    pl.frame(&f, &mut self.health, &mut self.dm)
                }
                Some((_, Update::Lost)) | None => pl.lost(&mut self.health, &mut self.dm),
            };
        }
        pl.ticked(now, &mut self.health)
    }

    fn run(&mut self) -> PushExit {
        let mut pl = PushLoop::new(&self.cfg, &self.global, self.health.paused, self.now())
            .expect("a class-1 connection");
        let mut next = PushNext::Wait(pl.wake());
        loop {
            let step = match next {
                PushNext::Wait(until) => self.wait(&mut pl, until),
                PushNext::WriteOutput => {
                    let outcome = self.outputs.pop_front().unwrap_or(Ok(()));
                    pl.output_written(outcome, &mut self.health)
                }
                PushNext::Publish => {
                    let (id, values) = {
                        let (p, _, _) = pl.job();
                        (
                            p.signal_id.clone(),
                            p.samples.iter().map(|s| s.value.copy()).collect::<Vec<Json>>(),
                        )
                    };
                    self.published.push((id, values));
                    let ok = self.publish_results.pop_front().unwrap_or(true);
                    pl.published(ok, 1, &mut self.health, &mut self.dm)
                }
                PushNext::Clock => {
                    let now = self.now();
                    pl.ticked(now, &mut self.health)
                }
                PushNext::Stats => {
                    let stats = self.stats;
                    pl.counted(stats, &mut self.health, &mut self.dm)
                }
                PushNext::Close(exit) => {
                    self.closed += 1;
                    return exit;
                }
            };
            let mut step = step;
            for part in step.order.parts() {
                match part {
                    StepPart::Answer => {
                        if let Some(reply) = step.reply.take() {
                            self.heard.push("answer".to_string());
                            self.replies.push(reply);
                        }
                    }
                    StepPart::Emit => {
                        if !step.emit.is_empty() {
                            self.heard.push("metrics".to_string());
                        }
                        self.emitted.append(&mut step.emit);
                    }
                    StepPart::Tell => {
                        self.heard.extend(step.notices.iter().map(|n| n.name.clone()));
                        self.notices.append(&mut step.notices);
                    }
                }
            }
            next = step.next;
        }
    }

    fn emit_periodic(&mut self) {
        let now = self.now();
        let out = self.dm.emit_periodic(&mut self.health, now);
        self.emitted.extend(out);
    }

    fn last(&self, family: Family, measure: &str) -> Option<u64> {
        self.emitted
            .iter()
            .rev()
            .find(|e| e.family == family)
            .and_then(|e| value(e, measure))
    }

    fn emits(&self, family: Family) -> usize {
        self.emitted.iter().filter(|e| e.family == family).count()
    }

    fn told(&self, name: &str) -> Vec<&Notice> {
        self.notices.iter().filter(|n| n.name == name).collect()
    }
}

fn value(e: &Emission, measure: &str) -> Option<u64> {
    e.values.iter().find(|m| m.name == measure).map(|m| match m.amount {
        Amount::Number(n) => n,
        Amount::Nanos(n) => (n / 1_000_000) as u64,
        Amount::Signed(n) => u64::try_from(n).unwrap_or(0),
    })
}

fn context(n: &Notice, key: &str) -> Json {
    n.context
        .as_ref()
        .and_then(|c| c.get(key))
        .map(|v| v.copy())
        .unwrap_or(Json::Null)
}

fn stats(frames_produced: u64, refused_redirects: u64) -> IoLinkStats {
    IoLinkStats {
        frames_produced,
        stale_frames: 0,
        size_mismatch: 0,
        malformed_frames: 0,
        produce_overruns: 0,
        sequence_gaps: 0,
        refused_redirects,
    }
}

#[test]
fn up_event_emits_connected_and_clears_alarm() {
    let mut rig = Rig::simple();
    rig.updates_in.push_back((10, Update::Up(96, 104)));
    rig.cancel_at = 50;
    assert_eq!(rig.run(), PushExit::Stopped);
    assert_eq!(rig.health.link, LinkState::Online);
    let connected = rig.told("device-connected");
    assert_eq!(connected.len(), 1);
    assert!(context(connected[0], "o2tApiMs").same(&json("96")));
    assert!(context(connected[0], "t2oApiMs").same(&json("104")));
    assert_eq!(rig.told("device-unreachable")[0].kind, NoticeKind::Clear);
    assert_eq!(rig.last(Family::Io, "ioConnectionState"), Some(1));
}

#[test]
fn data_frames_gate_publish_but_consumption_continues_while_paused() {
    let mut rig = Rig::simple();
    rig.verbs.push_back((0, ControlVerb::Pause));
    rig.updates_in.push_back((10, Update::Data(1, 1)));
    rig.updates_in.push_back((20, Update::Data(2, 3)));
    rig.cancel_at = 50;
    rig.run();
    assert!(matches!(rig.replies[0], PushReply::Changed(true)));
    assert_eq!(rig.published.len(), 0, "a paused instance publishes nothing");
    assert_eq!(rig.health.frames_consumed, 2);
    rig.emit_periodic();
    assert_eq!(rig.last(Family::Io, "framesConsumedTotal"), Some(2));
    assert_eq!(rig.last(Family::Io, "sequenceGapsTotal"), Some(1));
}

#[test]
fn lost_and_stream_end_both_return_link_lost_with_io_lost_bookkeeping() {
    let mut rig = Rig::simple();
    rig.updates_in.push_back((10, Update::Lost));
    assert_eq!(rig.run(), PushExit::LinkLost);
    assert_eq!(rig.health.read_errors, 1);
    rig.emit_periodic();
    assert_eq!(rig.last(Family::Io, "ioTimeoutsTotal"), Some(1));
    assert_eq!(rig.last(Family::Io, "ioConnectionState"), Some(0));

    let mut rig = Rig::simple();
    rig.ended = true;
    assert_eq!(rig.run(), PushExit::LinkLost);
    assert_eq!(rig.health.read_errors, 1);
    rig.emit_periodic();
    assert_eq!(rig.last(Family::Io, "ioTimeoutsTotal"), Some(1));
}

#[test]
fn resume_rebases_engine_from_last_snapshot() {
    let mut rig = Rig::simple();
    rig.snapshot = Some(5);
    rig.verbs.push_back((0, ControlVerb::Pause));
    rig.updates_in.push_back((10, Update::Data(5, 1)));
    rig.verbs.push_back((20, ControlVerb::Resume));
    rig.updates_in.push_back((30, Update::Data(5, 2)));
    rig.updates_in.push_back((40, Update::Data(9, 3)));
    rig.cancel_at = 60;
    rig.run();
    assert!(matches!(rig.replies[1], PushReply::Changed(true)));
    assert_eq!(rig.published.len(), 1, "only the real change publishes");
    assert!(rig.published[0].1[0].same(&json("9")));
}

#[test]
fn pause_discards_the_open_window_so_no_stale_value_lands_after_the_resume_rebase() {
    let mut rig = Rig::new(
        io_device(Defaults {
            publish_mode: None,
            batch_ms: Some(200),
        }),
        global(60),
    );
    rig.snapshot = Some(9);
    rig.updates_in.push_back((10, Update::Data(7, 1)));
    rig.verbs.push_back((20, ControlVerb::Pause));
    rig.verbs.push_back((30, ControlVerb::Resume));
    rig.updates_in.push_back((40, Update::Data(9, 2)));
    rig.updates_in.push_back((250, Update::Data(11, 3)));
    rig.cancel_at = 500;
    rig.run();
    assert!(matches!(rig.replies[0], PushReply::Changed(true)));
    assert!(matches!(rig.replies[1], PushReply::Changed(true)));
    assert_eq!(rig.told("adapter-paused").len(), 1);
    assert_eq!(rig.told("adapter-resumed").len(), 1);
    assert!(rig
        .published
        .iter()
        .all(|(_, v)| v.iter().all(|s| !s.same(&json("7")))));
    assert_eq!(rig.published.len(), 1);
    assert!(rig.published[0].1[0].same(&json("11")));
}

#[test]
fn a_failed_publish_is_retried_on_the_next_identical_frame() {
    let mut rig = Rig::simple();
    for ok in [true, false, true] {
        rig.publish_results.push_back(ok);
    }
    for (ms, v, s) in [(10, 1, 1), (20, 2, 2), (30, 2, 3), (40, 2, 4)] {
        rig.updates_in.push_back((ms, Update::Data(v, s)));
    }
    rig.cancel_at = 100;
    rig.run();
    let values: Vec<bool> = rig
        .published
        .iter()
        .zip(["1", "2", "2"])
        .map(|((_, v), want)| v[0].same(&json(want)))
        .collect();
    assert_eq!(values, vec![true, true, true]);
    assert_eq!(rig.published.len(), 3);
    assert_eq!(rig.health.signals_published, 2);
}

#[test]
fn io_stats_fold_fires_redirect_event_once_per_forward_open() {
    let mut rig = Rig::new(io_device(no_defaults()), global(1));
    rig.stats = Some(stats(10, 1));
    rig.cancel_at = 2_500;
    rig.run();
    let told = rig.told("io-redirect-refused");
    assert_eq!(told.len(), 1, "one warning, not two");
    assert!(context(told[0], "refusedRedirects").same(&json("1")));
    assert_eq!(rig.last(Family::Io, "framesProducedTotal"), Some(10));
    assert_eq!(rig.heard[0], "io-redirect-refused", "told before the metrics are emitted");
    assert_eq!(rig.heard[1], "metrics");
}

#[test]
fn a_pause_of_a_connection_is_answered_once_it_was_told() {
    let mut rig = Rig::simple();
    rig.verbs.push_back((0, ControlVerb::Pause));
    rig.verbs.push_back((10, ControlVerb::Pause));
    rig.cancel_at = 50;
    rig.run();
    assert_eq!(rig.heard, ["metrics", "adapter-paused", "answer", "answer"]);
}

#[test]
fn write_output_stages_field_and_failure_counts() {
    let mut rig = Rig::simple();
    rig.outputs.push_back(Ok(()));
    rig.outputs.push_back(Err("output assembly is full".to_string()));
    rig.verbs.push_back((0, ControlVerb::WriteOutput));
    rig.verbs.push_back((0, ControlVerb::WriteOutput));
    rig.cancel_at = 50;
    rig.run();
    assert!(matches!(&rig.replies[0], PushReply::Written(Ok(()))));
    assert!(matches!(&rig.replies[1], PushReply::Written(Err(e)) if e.contains("output assembly is full")));
    assert_eq!(rig.health.write_errors, 1);
    assert!(rig.outputs.is_empty(), "both were staged");
}

#[test]
fn snapshot_verb_answers_last_input_even_paused() {
    let mut rig = Rig::simple();
    rig.snapshot = Some(7);
    rig.verbs.push_back((0, ControlVerb::Pause));
    rig.verbs.push_back((10, ControlVerb::Snapshot));
    rig.cancel_at = 30;
    rig.run();
    match &rig.replies[1] {
        PushReply::Snapshot(Some(frame)) => assert!(frame.readings[0].value.same(&json("7"))),
        other => panic!("the last consumed frame answers, got {other:?}"),
    }
}

#[test]
fn batch_flush_and_metrics_cadence() {
    let mut rig = Rig::new(
        io_device(Defaults {
            publish_mode: Some(PublishMode::Always),
            batch_ms: Some(200),
        }),
        global(1),
    );
    rig.updates_in.push_back((50, Update::Data(1, 1)));
    rig.updates_in.push_back((100, Update::Data(2, 2)));
    rig.cancel_at = 2_500;
    rig.run();
    assert_eq!(rig.published.len(), 1, "one window closed: one publish");
    assert_eq!(rig.published[0].1.len(), 2);
    assert_eq!(rig.published[0].0, FIELD_ID);
    assert!(rig.emits(Family::Health) >= 2);
    assert!(rig.emits(Family::Io) >= 2);
    assert_eq!(rig.last(Family::Publish, "batchFlushesTotal"), Some(1));
    assert_eq!(rig.last(Family::Publish, "dataMessagesPublishedTotal"), Some(1));
    assert_eq!(rig.last(Family::Publish, "batchSize"), Some(2));
}

#[test]
fn poll_verbs_answered_defensively() {
    let mut rig = Rig::simple();
    for verb in [
        ControlVerb::ReadNow,
        ControlVerb::Write,
        ControlVerb::Repoll,
        ControlVerb::Browse,
    ] {
        rig.verbs.push_back((0, verb));
    }
    rig.open = false;
    assert_eq!(rig.run(), PushExit::Stopped);
    assert!(matches!(&rig.replies[0], PushReply::Refused(e) if e.contains("input snapshot")));
    assert!(matches!(&rig.replies[1], PushReply::Refused(e) if e.contains("output assembly")));
    assert!(matches!(&rig.replies[2], PushReply::Refused(e) if e.contains("cyclically")));
    assert!(matches!(
        &rig.replies[3],
        PushReply::BrowseFailed(BrowseError::Unsupported)
    ));
}

#[test]
fn push_driver_control_channel_close_is_stopped_not_link_lost() {
    let mut rig = Rig::simple();
    rig.open = false;
    assert_eq!(rig.run(), PushExit::Stopped);
    assert!(rig.told("device-unreachable").is_empty());
    assert_eq!(rig.health.read_errors, 0, "a shutdown is not a read error");
    rig.emit_periodic();
    assert_eq!(rig.last(Family::Io, "ioTimeoutsTotal"), Some(0));
}

#[test]
fn cancelled_returns_stopped_without_alarm() {
    let mut rig = Rig::simple();
    rig.updates_in.push_back((10, Update::Data(1, 1)));
    rig.cancel_at = 50;
    assert_eq!(rig.run(), PushExit::Stopped);
    assert!(rig.told("device-unreachable").is_empty());
}

#[test]
fn push_session_close_runs_on_every_exit_path() {
    let mut closed = 0;
    let mut lost = Rig::simple();
    lost.ended = true;
    assert_eq!(lost.run(), PushExit::LinkLost);
    closed += lost.closed;
    let mut asked = Rig::simple();
    asked.verbs.push_back((500, ControlVerb::Reconnect));
    assert_eq!(asked.run(), PushExit::Reconnect);
    closed += asked.closed;
    let mut stopped = Rig::simple();
    stopped.cancel_at = 2_000;
    assert_eq!(stopped.run(), PushExit::Stopped);
    closed += stopped.closed;
    assert_eq!(closed, 3, "however the loop is left, the connection is closed once");
}

#[test]
fn a_device_without_a_connection_has_no_loop() {
    let mut cfg = io_device(no_defaults());
    cfg.io = None;
    assert!(PushLoop::new(&cfg, &global(60), false, at(0)).is_none());
}

#[test]
fn a_requested_reconnect_leaves_the_loop_without_a_loss() {
    let mut rig = Rig::simple();
    rig.verbs.push_back((5, ControlVerb::Reconnect));
    assert_eq!(rig.run(), PushExit::Reconnect);
    assert_eq!(rig.health.read_errors, 0);
}

#[test]
fn the_minimum_spacing_of_a_field_holds() {
    let mut cfg = io_device(Defaults {
        publish_mode: Some(PublishMode::Always),
        batch_ms: None,
    });
    if let Some(io) = cfg.io.as_mut() {
        io.sample_ms = 100;
        io.input_fields[0].deadband = Some(DeadbandSpec::default());
    }
    let mut rig = Rig::new(cfg, global(60));
    for (ms, v, s) in [(0, 1, 1), (50, 2, 2), (120, 3, 3)] {
        rig.updates_in.push_back((ms, Update::Data(v, s)));
    }
    rig.cancel_at = 200;
    rig.run();
    assert_eq!(rig.published.len(), 2);
    assert!(rig.published[1].1[0].same(&json("3")));
}

#[test]
fn a_push_connect_publishes_the_identity_on_the_event() {
    let mut rig = Rig::simple();
    rig.identity = Some(DeviceIdentity {
        vendor_id: 0x1337,
        vendor_name: None,
        device_type: 0x0C,
        device_type_name: None,
        product_code: 1,
        revision_major: 7,
        revision_minor: 3,
        serial_number: 0x00C0_FFEE,
        product_name: "1734-AENTR".to_string(),
    });
    rig.updates_in.push_back((10, Update::Up(100, 100)));
    rig.cancel_at = 100;
    rig.run();
    let connected = rig.told("device-connected");
    let id = context(connected[0], "identity");
    assert!(id.get("productName").unwrap().same(&json("\"1734-AENTR\"")));
    assert!(context(connected[0], "o2tApiMs").same(&json("100")));
}
