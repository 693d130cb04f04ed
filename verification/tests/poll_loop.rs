//! The poll loop, run against a scripted session on a simulated clock.

use std::collections::VecDeque;

use ethernet_ip_adapter::clock::{Duration, Instant};
use ethernet_ip_adapter::config::{
    DeadbandKind, DeadbandSpec, Defaults, DeviceConfig, DeviceMode, EipType, GlobalConfig, PollGroup,
    PublishMode, SignalSpec, Timeouts,
};
use ethernet_ip_adapter::counters::Amount;
use ethernet_ip_adapter::device::{DeviceError, Quality, Reading};
use ethernet_ip_adapter::device_metrics::DeviceMetrics;
use ethernet_ip_adapter::emit::Emission;
use ethernet_ip_adapter::health::Health;
use ethernet_ip_adapter::ieee::F64;
use ethernet_ip_adapter::json::{Json, Number, Object};
use ethernet_ip_adapter::metrics::Family;
use ethernet_ip_adapter::notice::Notice;
use ethernet_ip_adapter::observed::ObservedTypes;
use ethernet_ip_adapter::poll_driver::{
    BrowseError, ControlVerb, GroupReading, PollExit, PollLoop, PollNext, PollPhase, PollReply,
    PollStep, SampleSnapshot,
};
use ethernet_ip_adapter::publish::{scalar_exceeds, Comparison};
use ethernet_ip_adapter::sim::{BrowsePage, BrowsedTag};
use ethernet_ip_adapter::step::StepPart;
use serde_json::Value;

fn to_json(v: &Value) -> Json {
    match v {
        Value::Null => Json::Null,
        Value::Bool(b) => Json::Bool(*b),
        Value::Number(n) => {
            if let Some(u) = n.as_u64() {
                Json::Number(Number::Unsigned(u))
            } else if let Some(i) = n.as_i64() {
                Json::Number(Number::Signed(i))
            } else {
                let f = n.as_f64().unwrap();
                Json::Number(Number::Float(F64 { bits: f.to_bits() }))
            }
        }
        Value::String(s) => Json::Text(s.clone()),
        Value::Array(items) => Json::Array(items.iter().map(to_json).collect()),
        Value::Object(map) => {
            let mut o = Object::new();
            for (k, v) in map {
                o.insert(k, to_json(v));
            }
            Json::Object(o)
        }
    }
}

fn json(text: &str) -> Json {
    to_json(&serde_json::from_str(text).expect("a JSON value"))
}

const BASE: u64 = 1_000_000_000;

fn at(ms: u64) -> Instant {
    Instant { nanos: BASE + ms * 1_000_000 }
}

fn any_change() -> DeadbandSpec {
    DeadbandSpec {
        kind: DeadbandKind::AnyChange,
        value: F64 { bits: 0 },
    }
}

fn signal(name: &str, tag: &str, deadband: DeadbandSpec) -> SignalSpec {
    SignalSpec {
        name: name.to_string(),
        tag_path: tag.to_string(),
        eip_type: EipType::Real,
        array_count: None,
        scale: None,
        value_offset: None,
        deadband,
    }
}

fn group(id: &str, poll_ms: u64, mode: PublishMode, signals: Vec<SignalSpec>) -> PollGroup {
    PollGroup {
        id: Some(id.to_string()),
        signals,
        publish_mode: mode,
        poll_interval_ms: poll_ms,
    }
}

fn device(groups: Vec<PollGroup>, batch_ms: Option<u64>) -> DeviceConfig {
    DeviceConfig {
        id: "plc-1".to_string(),
        adapter: "ethernet-ip".to_string(),
        endpoint: "127.0.0.1:44818".to_string(),
        slot: None,
        connected: false,
        mode: DeviceMode::Poll,
        poll_groups: groups,
        defaults: Defaults {
            publish_mode: None,
            batch_ms,
        },
        write_allow: Vec::new(),
        io: None,
    }
}

fn one_group(poll_ms: u64, mode: PublishMode) -> DeviceConfig {
    device(
        vec![group(
            "fast",
            poll_ms,
            mode,
            vec![signal("line-speed", "LINE_SPEED", any_change())],
        )],
        None,
    )
}

fn global() -> GlobalConfig {
    GlobalConfig {
        timeouts: Timeouts {
            connect_ms: 5000,
            request_timeout_ms: 2000,
            reconnect_backoff_min_ms: 1000,
            reconnect_backoff_max_ms: 30000,
        },
        defaults: Defaults {
            publish_mode: None,
            batch_ms: None,
        },
        metrics_interval_secs: 60,
        stale_signal_secs: 60,
        keepalive_probe_interval_ms: 10_000,
    }
}

fn reading(id: &str, value: &str, quality: Quality) -> Reading {
    Reading {
        signal_id: id.to_string(),
        name: Some(id.to_string()),
        value: json(value),
        quality,
        quality_raw: Some("0x00".to_string()),
        observed_type: None,
    }
}

fn as_f64(j: &Json) -> Option<f64> {
    match j {
        Json::Number(Number::Unsigned(u)) => Some(*u as f64),
        Json::Number(Number::Signed(i)) => Some(*i as f64),
        Json::Number(Number::Float(f)) => Some(f64::from_bits(f.bits)),
        _ => None,
    }
}

fn moved(old: Option<&Json>, new: &Json, d: &DeadbandSpec) -> Vec<bool> {
    match (old.and_then(as_f64), as_f64(new)) {
        (Some(a), Some(b)) => {
            let value = f64::from_bits(d.value.bits);
            let threshold = a.abs() * value / 100.0;
            vec![scalar_exceeds(
                d.kind,
                Comparison {
                    differs: a != b,
                    reaches_value: (b - a).abs() >= value,
                    threshold_is_zero: threshold == 0.0,
                    reaches_threshold: (b - a).abs() >= threshold,
                },
            )]
        }
        _ => Vec::new(),
    }
}

type Script = Vec<(&'static str, &'static str, Quality)>;

struct Rig {
    cfg: DeviceConfig,
    global: GlobalConfig,
    health: Health,
    dm: DeviceMetrics,
    /// What the session answers, then what it answers for ever.
    reads: VecDeque<Result<Script, String>>,
    repeat: Script,
    delays: VecDeque<u64>,
    probes: VecDeque<bool>,
    writes: VecDeque<Result<(), String>>,
    browses: VecDeque<Result<BrowsePage, DeviceError>>,
    /// What the device declares its tags to be.
    declares: Option<&'static str>,
    observed: ObservedTypes,
    publish_results: VecDeque<bool>,
    verbs: VecDeque<(u64, ControlVerb)>,
    /// Who asks for a pause.
    by: Option<&'static str>,
    open: bool,
    cancel_at: u64,
    reads_done: usize,
    closed: usize,
    updates: Vec<(String, Vec<Json>)>,
    emitted: Vec<Emission>,
    notices: Vec<Notice>,
    /// What was answered, emitted and told, in order.
    heard: Vec<String>,
    replies: Vec<PollReply>,
    now_ms: u64,
}

impl Rig {
    fn new(cfg: DeviceConfig, global: GlobalConfig, repeat: Script) -> Rig {
        let dm = DeviceMetrics::new(&cfg, &global);
        Rig {
            cfg,
            global,
            health: Health::default(),
            dm,
            reads: VecDeque::new(),
            repeat,
            delays: VecDeque::new(),
            probes: VecDeque::new(),
            writes: VecDeque::new(),
            browses: VecDeque::new(),
            declares: None,
            observed: ObservedTypes::new(),
            publish_results: VecDeque::new(),
            verbs: VecDeque::new(),
            by: None,
            open: true,
            cancel_at: 600_000,
            reads_done: 0,
            closed: 0,
            updates: Vec::new(),
            emitted: Vec::new(),
            notices: Vec::new(),
            heard: Vec::new(),
            replies: Vec::new(),
            now_ms: 0,
        }
    }

    fn simple(poll_ms: u64, mode: PublishMode, value: &'static str) -> Rig {
        Rig::new(
            one_group(poll_ms, mode),
            global(),
            vec![("LINE_SPEED", value, Quality::Good)],
        )
    }

    fn now(&self) -> Instant {
        at(self.now_ms)
    }

    fn read(&mut self, pl: &PollLoop, g: usize) -> Result<GroupReading, String> {
        self.reads_done += 1;
        let took = self.delays.pop_front().unwrap_or(0);
        self.now_ms += took;
        let script = match self.reads.pop_front() {
            Some(Ok(s)) => s,
            Some(Err(e)) => return Err(e),
            None => self.repeat.clone(),
        };
        let readings: Vec<Reading> = script
            .iter()
            .map(|(i, v, q)| Reading {
                observed_type: self.declares.map(|t| t.to_string()),
                ..reading(i, v, *q)
            })
            .collect();
        let verdicts = self.cfg.poll_groups[g]
            .signals
            .iter()
            .map(|s| match readings.iter().rev().find(|r| r.signal_id == s.tag_path) {
                Some(r) => moved(pl.engine.reference(&s.tag_path), &r.value, &s.deadband),
                None => Vec::new(),
            })
            .collect();
        Ok(GroupReading {
            readings,
            elapsed: Duration::from_millis(took),
            now: self.now(),
            server_ts: "2026-07-18T12:00:00Z".to_string(),
            moved: verdicts,
        })
    }

    fn wait(&mut self, pl: &mut PollLoop, until: u128) -> PollStep {
        let wake_ms = ((until.max(u128::from(BASE)) - u128::from(BASE)) / 1_000_000) as u64;
        let wake_ms = wake_ms.max(self.now_ms);
        let verb_ms = match self.verbs.front() {
            Some((ms, _)) => (*ms).max(self.now_ms),
            None if !self.open => self.now_ms,
            None => u64::MAX,
        };
        let cancel_ms = self.cancel_at.max(self.now_ms);
        if cancel_ms <= verb_ms && cancel_ms <= wake_ms {
            self.now_ms = cancel_ms;
            return pl.stop();
        }
        if verb_ms <= wake_ms {
            self.now_ms = verb_ms;
            return match self.verbs.pop_front() {
                Some((_, verb)) => {
                    let now = self.now();
                    pl.control(
                        &self.cfg,
                        verb,
                        self.by,
                        now,
                        &mut self.health,
                        &mut self.dm,
                    )
                }
                None => pl.stop(),
            };
        }
        self.now_ms = wake_ms;
        let now = self.now();
        pl.woke(&self.cfg, now, &mut self.health, &mut self.dm)
    }

    fn run(&mut self) -> PollExit {
        let mut pl = PollLoop::new(
            &self.cfg,
            &self.global,
            self.global.keepalive_probe_interval_ms,
            self.health.paused,
            self.now(),
        );
        let mut next = PollNext::Wait(pl.wake());
        loop {
            let step = match next {
                PollNext::Wait(until) => self.wait(&mut pl, until),
                PollNext::Write => {
                    let outcome = self.writes.pop_front().unwrap_or(Ok(()));
                    pl.written(outcome, &mut self.health)
                }
                PollNext::ReadNow => {
                    let outcome = self.read(&pl, 0).map(|r| r.readings);
                    pl.read_now_done(outcome, &mut self.health, &mut self.observed)
                }
                PollNext::Browse => {
                    let outcome = self.browses.pop_front().expect("a scripted browse");
                    pl.browsed(outcome)
                }
                PollNext::Probe => {
                    let ok = self.probes.pop_front().unwrap_or(true);
                    pl.probed(&self.cfg, ok, &mut self.health, &mut self.dm)
                }
                PollNext::ReadGroup(g) => {
                    let scheduled = matches!(pl.phase, PollPhase::Polling(..));
                    let outcome = self.read(&pl, g);
                    if scheduled {
                        pl.polled(
                            &self.cfg,
                            outcome,
                            &mut self.health,
                            &mut self.dm,
                            &mut self.observed,
                        )
                    } else {
                        pl.repolled(&self.cfg, outcome, &mut self.health, &mut self.observed)
                    }
                }
                PollNext::Publish => {
                    let (id, values) = {
                        let (p, _, _) = pl.job(&self.cfg);
                        (
                            p.signal_id.clone(),
                            p.samples.iter().map(|s| s.value.copy()).collect::<Vec<Json>>(),
                        )
                    };
                    self.updates.push((id, values));
                    let ok = self.publish_results.pop_front().unwrap_or(true);
                    pl.published(&self.cfg, ok, 3, &mut self.health, &mut self.dm)
                }
                PollNext::Close(exit) => {
                    self.closed += 1;
                    return exit;
                }
            };
            let mut step = step;
            for part in step.order.parts() {
                match part {
                    StepPart::Answer => {
                        if let Some(reply) = step.reply.take() {
                            self.heard.push("answer".to_string());
                            self.replies.push(reply);
                        }
                    }
                    StepPart::Emit => {
                        if !step.emit.is_empty() {
                            self.heard.push("metrics".to_string());
                        }
                        self.emitted.append(&mut step.emit);
                    }
                    StepPart::Tell => {
                        self.heard.extend(step.notices.iter().map(|n| n.name.clone()));
                        self.notices.append(&mut step.notices);
                    }
                }
            }
            next = step.next;
        }
    }

    fn published(&self, id: &str) -> usize {
        self.updates.iter().filter(|(i, _)| i == id).count()
    }

    fn emit_periodic(&mut self) {
        let now = self.now();
        let out = self.dm.emit_periodic(&mut self.health, now);
        self.emitted.extend(out);
    }

    fn all(&self, family: Family) -> Vec<&Emission> {
        self.emitted.iter().filter(|e| e.family == family).collect()
    }

    fn told(&self, name: &str) -> Vec<&Notice> {
        self.notices.iter().filter(|n| n.name == name).collect()
    }

    fn total(&self, family: Family, measure: &str) -> u64 {
        self.all(family).iter().filter_map(|e| value(e, measure)).sum()
    }
}

fn value(e: &Emission, measure: &str) -> Option<u64> {
    e.values.iter().find(|m| m.name == measure).map(|m| match m.amount {
        Amount::Number(n) => n,
        Amount::Nanos(n) => (n / 1_000_000) as u64,
        Amount::Signed(n) => u64::try_from(n).unwrap_or(0),
    })
}

fn firsts(updates: &[(String, Vec<Json>)]) -> Vec<f64> {
    updates.iter().map(|(_, v)| as_f64(&v[0]).unwrap()).collect()
}

#[test]
fn cancel_closes_the_session_and_returns_stopped() {
    let mut rig = Rig::simple(100, PublishMode::Always, "1.0");
    rig.cancel_at = 250;
    assert_eq!(rig.run(), PollExit::Stopped);
    assert_eq!(rig.closed, 1);
    assert_eq!(rig.reads_done, 2);
    assert!(rig.told("device-unreachable").is_empty(), "a stop raises no alarm");
}

#[test]
fn poll_driver_control_channel_close_is_stopped_not_link_lost() {
    let mut rig = Rig::simple(60_000, PublishMode::Always, "1.0");
    rig.open = false;
    assert_eq!(rig.run(), PollExit::Stopped);
    assert_eq!(rig.closed, 1);
}

#[test]
fn read_error_closes_session_and_returns_link_lost_with_error_cycle_recorded() {
    let mut rig = Rig::simple(50, PublishMode::Always, "1.0");
    rig.reads.push_back(Err("connection reset".to_string()));
    assert_eq!(rig.run(), PollExit::LinkLost);
    assert_eq!(rig.closed, 1);
    assert_eq!(rig.health.read_errors, 1);
    assert_eq!(rig.updates.len(), 0, "a failed read publishes nothing");
    rig.emit_periodic();
    assert_eq!(rig.total(Family::Poll, "pollCyclesTotal"), 1);
    assert_eq!(rig.total(Family::Poll, "tagReadsTotal"), 1);
}

#[test]
fn groups_poll_on_their_own_cadence_and_rearm_without_catchup_storm() {
    let cfg = device(
        vec![
            group(
                "fast",
                100,
                PublishMode::Always,
                vec![signal("fast-sig", "FAST", any_change())],
            ),
            group(
                "slow",
                500,
                PublishMode::Always,
                vec![signal("slow-sig", "SLOW", any_change())],
            ),
        ],
        None,
    );
    let mut rig = Rig::new(
        cfg,
        global(),
        vec![
            ("FAST", "1.0", Quality::Good),
            ("SLOW", "2.0", Quality::Good),
        ],
    );
    rig.delays.push_back(450);
    rig.cancel_at = 1_100;
    rig.run();
    assert_eq!(rig.published("SLOW"), 2, "the slow group keeps its own cadence");
    let fast = rig.published("FAST");
    assert!((5..=8).contains(&fast), "no replay of every missed tick: {fast}");
    rig.emit_periodic();
    assert_eq!(rig.total(Family::Poll, "pollOverrunsTotal"), 1);
}

#[test]
fn batch_windows_flush_before_the_next_poll_and_attribute_from_batch() {
    let cfg = device(
        vec![group(
            "fast",
            100,
            PublishMode::Always,
            vec![signal("line-speed", "LINE_SPEED", any_change())],
        )],
        Some(200),
    );
    let mut rig = Rig::new(cfg, global(), vec![("LINE_SPEED", "1.0", Quality::Good)]);
    rig.cancel_at = 650;
    rig.run();
    assert_eq!(rig.updates.len(), 2, "two 200 ms windows closed in the run");
    assert_eq!(rig.updates.iter().map(|(_, v)| v.len()).sum::<usize>(), 4);
    for (_, values) in &rig.updates {
        assert_eq!(values.len(), 2);
    }
    rig.emit_periodic();
    assert_eq!(rig.total(Family::Publish, "dataMessagesPublishedTotal"), 2);
    assert_eq!(rig.total(Family::Publish, "batchFlushesTotal"), 2);
    assert_eq!(value(rig.all(Family::Publish)[0], "batchSize"), Some(2));
}

#[test]
fn paused_loop_probes_keepalive_and_probe_failure_reconnects() {
    let mut rig = Rig::new(
        one_group(100, PublishMode::Always),
        GlobalConfig {
            keepalive_probe_interval_ms: 200,
            ..global()
        },
        vec![("LINE_SPEED", "1.0", Quality::Good)],
    );
    rig.probes.push_back(true);
    rig.probes.push_back(false);
    rig.verbs.push_back((10, ControlVerb::Pause));
    rig.by = Some("site/op");
    assert_eq!(rig.run(), PollExit::LinkLost, "a dead keepalive is a lost link");
    assert!(matches!(rig.replies[0], PollReply::Changed(true)));
    assert_eq!(rig.closed, 1);
    assert_eq!(rig.health.read_errors, 1);
    assert_eq!(rig.reads_done, 0, "no polls flow while paused");
    let told = rig.told("adapter-paused");
    assert_eq!(told.len(), 1);
    let context = told[0].context.as_ref().expect("a context");
    assert!(context.get("by").expect("who asked").same(&json("\"site/op\"")));
    assert!(context.get("instance").is_some());
}

#[test]
fn pause_resume_rebase_deadlines_and_staleness() {
    let mut rig = Rig::new(
        one_group(100, PublishMode::Always),
        GlobalConfig {
            metrics_interval_secs: 1,
            stale_signal_secs: 1,
            keepalive_probe_interval_ms: 60_000,
            ..global()
        },
        vec![("LINE_SPEED", "1.0", Quality::Good)],
    );
    rig.verbs.push_back((250, ControlVerb::Pause));
    rig.verbs.push_back((3_000, ControlVerb::Resume));
    rig.cancel_at = 3_250;
    rig.run();
    assert!(matches!(rig.replies[0], PollReply::Changed(true)));
    assert!(matches!(rig.replies[1], PollReply::Changed(true)));
    assert_eq!(rig.reads_done, 4, "the paused span is not replayed");
    let rows = rig.all(Family::Health);
    assert!(rows.len() >= 3, "the health cadence kept emitting while paused");
    assert!(rows.iter().all(|e| value(e, "staleSignals") == Some(0)));
    assert_eq!(rig.told("adapter-paused").len(), 1);
    assert_eq!(rig.told("adapter-resumed").len(), 1);
}

#[test]
fn write_verb_journals_and_failure_counts_write_errors() {
    let mut rig = Rig::simple(60_000, PublishMode::Always, "1.0");
    rig.verbs.push_back((0, ControlVerb::Write));
    rig.verbs.push_back((50, ControlVerb::Write));
    rig.writes.push_back(Ok(()));
    rig.writes.push_back(Err("CIP 0x0C: object state conflict".to_string()));
    rig.open = false;
    assert_eq!(rig.run(), PollExit::Stopped);
    assert!(matches!(&rig.replies[0], PollReply::Written(Ok(()))));
    match &rig.replies[1] {
        PollReply::Written(Err(e)) => assert!(e.contains("object state conflict")),
        other => panic!("the rejected write is answered as a failure, got {other:?}"),
    }
    assert_eq!(rig.health.write_errors, 1);
    assert!(rig.writes.is_empty(), "both writes were performed");
}

#[test]
fn read_now_error_is_link_lost() {
    let mut rig = Rig::simple(60_000, PublishMode::Always, "1.0");
    rig.reads.push_back(Err("session timed out".to_string()));
    rig.verbs.push_back((0, ControlVerb::ReadNow));
    assert_eq!(rig.run(), PollExit::LinkLost);
    match &rig.replies[0] {
        PollReply::ReadNow(Err(e)) => assert!(e.contains("session timed out")),
        other => panic!("expected the failure, got {other:?}"),
    }
    assert_eq!(rig.closed, 1);
    assert_eq!(rig.health.read_errors, 1);
}

#[test]
fn browse_unsupported_maps_to_browse_error() {
    let mut rig = Rig::simple(60_000, PublishMode::Always, "1.0");
    let page = BrowsePage {
        tags: vec![BrowsedTag {
            name: "LINE_SPEED".to_string(),
            tag_type: "REAL".to_string(),
            array_dim: None,
            instance_id: 1,
        }],
        next_cursor: None,
    };
    for outcome in [
        Ok(page),
        Err(DeviceError::Unsupported("no tag-list service".to_string())),
        Err(DeviceError::Transient("browse timed out".to_string())),
    ] {
        rig.browses.push_back(outcome);
        rig.verbs.push_back((0, ControlVerb::Browse));
    }
    rig.open = false;
    assert_eq!(rig.run(), PollExit::Stopped, "a browse failure never breaks the link");
    assert_eq!(rig.replies.len(), 3);
    assert!(matches!(&rig.replies[0], PollReply::Browsed(Ok(p)) if p.tags.len() == 1));
    assert!(matches!(
        &rig.replies[1],
        PollReply::Browsed(Err(BrowseError::Unsupported))
    ));
    assert!(matches!(
        &rig.replies[2],
        PollReply::Browsed(Err(BrowseError::Failed(m))) if m.contains("browse timed out")
    ));
}

#[test]
fn repoll_while_paused_refused() {
    let mut rig = Rig::simple(60_000, PublishMode::Always, "1.0");
    for verb in [
        ControlVerb::Pause,
        ControlVerb::Repoll,
        ControlVerb::Resume,
        ControlVerb::Repoll,
    ] {
        rig.verbs.push_back((0, verb));
    }
    rig.open = false;
    assert_eq!(rig.run(), PollExit::Stopped);
    match &rig.replies[1] {
        PollReply::Repolled(Err(e)) => assert!(e.contains("paused")),
        other => panic!("a paused instance refuses repoll and says why, got {other:?}"),
    }
    assert!(matches!(&rig.replies[3], PollReply::Repolled(Ok(1))));
    assert_eq!(rig.published("LINE_SPEED"), 1, "and published it");
}

#[test]
fn push_verbs_answered_defensively() {
    let mut rig = Rig::simple(60_000, PublishMode::Always, "1.0");
    rig.verbs.push_back((0, ControlVerb::Snapshot));
    rig.verbs.push_back((0, ControlVerb::WriteOutput));
    rig.open = false;
    assert_eq!(rig.run(), PollExit::Stopped);
    assert!(matches!(rig.replies[0], PollReply::NoSnapshot));
    assert!(matches!(&rig.replies[1], PollReply::Refused(e) if e.contains("not a push instance")));
}

#[test]
fn reconnect_verb_closes_session_and_carries_reply() {
    let mut rig = Rig::simple(60_000, PublishMode::Always, "1.0");
    rig.verbs.push_back((0, ControlVerb::Reconnect));
    assert_eq!(rig.run(), PollExit::Reconnect);
    assert_eq!(rig.closed, 1);
    assert!(rig.replies.is_empty(), "the ladder answers it after the next connect");
}

#[test]
fn publish_failure_is_accounted_and_the_identical_value_is_republished() {
    let mut rig = Rig::simple(100, PublishMode::OnChange, "2.0");
    rig.reads.push_back(Ok(vec![("LINE_SPEED", "1.0", Quality::Good)]));
    rig.reads.push_back(Ok(vec![("LINE_SPEED", "2.0", Quality::Good)]));
    for ok in [true, false, true] {
        rig.publish_results.push_back(ok);
    }
    rig.cancel_at = 450;
    rig.run();
    assert_eq!(firsts(&rig.updates), vec![1.0, 2.0, 2.0]);
    assert_eq!(rig.health.signals_published, 2);
    rig.emit_periodic();
    let row = rig.all(Family::Publish)[0];
    assert_eq!(value(row, "dataMessagesPublishedTotal"), Some(3));
    assert_eq!(value(row, "samplesPublishedTotal"), Some(2));
    assert_eq!(value(row, "publishFailuresTotal"), Some(1));
    assert_eq!(value(row, "publishLatencyMs"), Some(6), "the latency of both successes");
}

#[test]
fn a_failed_publish_does_not_shrink_the_deadband_window_for_later_values() {
    let cfg = device(
        vec![group(
            "fast",
            100,
            PublishMode::OnChange,
            vec![signal(
                "line-speed",
                "LINE_SPEED",
                DeadbandSpec {
                    kind: DeadbandKind::Absolute,
                    value: F64 { bits: 1.0_f64.to_bits() },
                },
            )],
        )],
        None,
    );
    let mut rig = Rig::new(cfg, global(), vec![("LINE_SPEED", "11.5", Quality::Good)]);
    rig.reads.push_back(Ok(vec![("LINE_SPEED", "10.0", Quality::Good)]));
    rig.reads.push_back(Ok(vec![("LINE_SPEED", "11.0", Quality::Good)]));
    rig.publish_results.push_back(true);
    rig.publish_results.push_back(false);
    rig.cancel_at = 350;
    rig.run();
    assert_eq!(firsts(&rig.updates), vec![10.0, 11.0, 11.5]);
}

#[test]
fn pause_discards_open_batch_windows_so_nothing_stale_flushes_on_resume() {
    let cfg = device(
        vec![group(
            "fast",
            100,
            PublishMode::Always,
            vec![signal("line-speed", "LINE_SPEED", any_change())],
        )],
        Some(200),
    );
    let mut rig = Rig::new(
        cfg,
        GlobalConfig {
            keepalive_probe_interval_ms: 60_000,
            ..global()
        },
        vec![("LINE_SPEED", "1.0", Quality::Good)],
    );
    rig.reads.push_back(Ok(vec![("LINE_SPEED", "42.0", Quality::Good)]));
    rig.verbs.push_back((150, ControlVerb::Pause));
    rig.verbs.push_back((1_000, ControlVerb::Resume));
    rig.cancel_at = 1_400;
    rig.run();
    assert!(matches!(rig.replies[0], PollReply::Changed(true)));
    assert!(matches!(rig.replies[1], PollReply::Changed(true)));
    assert!(rig
        .updates
        .iter()
        .all(|(_, v)| v.iter().all(|s| !s.same(&json("42.0")))));
    assert_eq!(rig.updates.len(), 1, "only the window that opened after the resume");
    assert_eq!(rig.updates[0].1.len(), 2);
}

#[test]
fn sample_snapshot_delta_attributes_cycle_counts() {
    let cfg = device(
        vec![group(
            "mixed",
            100,
            PublishMode::Always,
            vec![
                signal("good-sig", "GOOD", any_change()),
                signal("bad-sig", "BAD", any_change()),
            ],
        )],
        None,
    );
    let mut rig = Rig::new(
        cfg,
        global(),
        vec![("GOOD", "1.0", Quality::Good), ("BAD", "null", Quality::Bad)],
    );
    rig.reads.push_back(Ok(vec![
        ("GOOD", "1.0", Quality::Good),
        ("BAD", "2.0", Quality::Good),
    ]));
    rig.cancel_at = 250;
    rig.run();
    rig.emit_periodic();
    assert_eq!(rig.total(Family::Poll, "pollCyclesTotal"), 2);
    assert_eq!(rig.total(Family::Poll, "samplesGoodTotal"), 3);
    assert_eq!(rig.total(Family::Poll, "samplesBadTotal"), 1);
    assert_eq!(rig.total(Family::Poll, "tagReadErrorsTotal"), 1);
    assert_eq!(rig.total(Family::Poll, "tagReadsTotal"), 4);
}

#[test]
fn metrics_emit_on_interval_and_stale_count_suspended_while_paused() {
    let mut rig = Rig::new(
        one_group(60_000, PublishMode::Always),
        GlobalConfig {
            metrics_interval_secs: 1,
            stale_signal_secs: 1,
            keepalive_probe_interval_ms: 60_000,
            ..global()
        },
        vec![("LINE_SPEED", "1.0", Quality::Good)],
    );
    rig.verbs.push_back((1_500, ControlVerb::Pause));
    rig.cancel_at = 2_500;
    rig.run();
    let rows = rig.all(Family::Health);
    assert!(rows.len() >= 3, "one emit per second, plus the one of the pause");
    assert_eq!(value(rows[0], "staleSignals"), Some(1));
    assert_eq!(value(rows[rows.len() - 1], "staleSignals"), Some(0));
    assert!(!rig.all(Family::Poll).is_empty());
}

#[test]
fn a_snapshot_counts_from_the_one_before() {
    let mut h = Health::default();
    h.samples_good = 5;
    h.samples_suppressed = 2;
    let before = SampleSnapshot::take(&h);
    h.samples_good = 8;
    h.samples_bad = 1;
    let d = SampleSnapshot::take(&h).delta_since(before);
    assert_eq!((d.good, d.bad, d.suppressed), (3, 1, 0));
}

#[test]
fn a_pause_that_came_while_the_link_was_down_carries_over() {
    let mut rig = Rig::simple(100, PublishMode::Always, "1.0");
    rig.health.paused = true;
    rig.cancel_at = 550;
    assert_eq!(rig.run(), PollExit::Stopped);
    assert_eq!(rig.reads_done, 0);
}

#[test]
fn a_second_pause_changes_nothing() {
    let mut rig = Rig::simple(60_000, PublishMode::Always, "1.0");
    rig.verbs.push_back((0, ControlVerb::Pause));
    rig.verbs.push_back((1, ControlVerb::Pause));
    rig.open = false;
    rig.run();
    assert!(matches!(rig.replies[0], PollReply::Changed(true)));
    assert!(matches!(rig.replies[1], PollReply::Changed(false)));
    assert_eq!(rig.told("adapter-paused").len(), 1, "it is told once");
    let rows = rig.all(Family::Health);
    assert_eq!(rows.len(), 1, "and shown once");
    assert_eq!(value(rows[0], "paused"), Some(1));
    assert!(rows[0].immediate);
}

#[test]
fn the_poll_loop_records_the_observed_representation_of_every_reading() {
    let mut rig = Rig::simple(100, PublishMode::Always, "1.0");
    rig.declares = Some("DWORD");
    assert_eq!(
        rig.observed.observed_type("LINE_SPEED"),
        None,
        "nothing is claimed before the first reply"
    );
    rig.cancel_at = 250;
    rig.run();
    assert_eq!(
        rig.observed.observed_type("LINE_SPEED").map(|t| t.as_str()),
        Some("DWORD"),
        "what the device declared reaches the surface sb/signals reads"
    );
}

#[test]
fn every_read_records_what_the_device_declares() {
    for verb in [ControlVerb::ReadNow, ControlVerb::Repoll] {
        let mut rig = Rig::simple(60_000, PublishMode::Always, "1.0");
        rig.declares = Some("REAL");
        rig.verbs.push_back((0, verb));
        rig.open = false;
        rig.run();
        assert_eq!(
            rig.observed.observed_type("LINE_SPEED").map(|t| t.as_str()),
            Some("REAL")
        );
        if verb == ControlVerb::ReadNow {
            assert!(matches!(&rig.replies[0], PollReply::ReadNow(Ok(r)) if r.len() == 1));
        }
    }
}

#[test]
fn a_declaration_is_corrected_by_the_next_reply() {
    let mut observed = ObservedTypes::new();
    assert_eq!(
        observed.observed_type("LINE_SPEED"),
        None,
        "nothing is claimed before the first reply"
    );
    let reply = |declared: Option<&str>| {
        vec![Reading {
            observed_type: declared.map(|t| t.to_string()),
            ..reading("LINE_SPEED", "1.0", Quality::Good)
        }]
    };
    observed.record_observed(&reply(Some("DWORD")));
    assert_eq!(
        observed.observed_type("LINE_SPEED").map(|t| t.as_str()),
        Some("DWORD"),
        "what the device declared reaches the surface sb/signals reads"
    );
    observed.record_observed(&reply(None));
    assert_eq!(observed.observed_type("LINE_SPEED").map(|t| t.as_str()), Some("DWORD"));
    observed.record_observed(&reply(Some("REAL")));
    assert_eq!(
        observed.observed_type("LINE_SPEED").map(|t| t.as_str()),
        Some("REAL"),
        "a re-programmed controller corrects the surface on its next reply"
    );
    assert_eq!(observed.observed_type("OTHER"), None);
    assert_eq!(observed.entries.len(), 1);
}

#[test]
fn a_pause_of_a_polled_device_is_answered_once_it_was_told() {
    let mut rig = Rig::simple(1_000, PublishMode::Always, "1");
    rig.verbs.push_back((10, ControlVerb::Pause));
    rig.verbs.push_back((20, ControlVerb::Resume));
    rig.verbs.push_back((30, ControlVerb::Resume));
    rig.cancel_at = 50;
    rig.run();
    assert_eq!(
        rig.heard,
        ["metrics", "adapter-paused", "answer", "metrics", "adapter-resumed", "answer", "answer"]
    );
}
