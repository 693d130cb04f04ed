//! The metric families, the counters behind them, and the status views.

use std::collections::BTreeSet;

use ethernet_ip_adapter::clock::Instant;
use ethernet_ip_adapter::config::{
    DeadbandSpec, Defaults, DeviceConfig, DeviceMode, EipType, GlobalConfig, IoConfig, IoFieldSpec,
    PollGroup, PublishMode, SignalSpec, Timeouts,
};
use ethernet_ip_adapter::counters::{Amount, IoLinkStats, Measure, Pair};
use ethernet_ip_adapter::device::{SecurityStatus, TargetCertificateSummary, TargetSecurityPosture};
use ethernet_ip_adapter::device_metrics::{DeviceMetrics, PollCycle};
use ethernet_ip_adapter::eip::tls::{SecurityConfig, SecurityMode};
use ethernet_ip_adapter::emit::{Combo, Emission};
use ethernet_ip_adapter::health::{Health, LinkState};
use ethernet_ip_adapter::ieee::F64;
use ethernet_ip_adapter::json::{Json, Number, Object};
use ethernet_ip_adapter::metrics::{family_def, family_defs, CommandTally, Family, Outcome, Verb};
use ethernet_ip_adapter::rows::{is_key_before, is_text_before};
use ethernet_ip_adapter::status::security_target_view;
use serde_json::Value;

fn to_json(v: &Value) -> Json {
    match v {
        Value::Null => Json::Null,
        Value::Bool(b) => Json::Bool(*b),
        Value::Number(n) => {
            if let Some(u) = n.as_u64() {
                Json::Number(Number::Unsigned(u))
            } else if let Some(i) = n.as_i64() {
                Json::Number(Number::Signed(i))
            } else {
                let f = n.as_f64().unwrap();
                Json::Number(Number::Float(F64 { bits: f.to_bits() }))
            }
        }
        Value::String(s) => Json::Text(s.clone()),
        Value::Array(items) => Json::Array(items.iter().map(to_json).collect()),
        Value::Object(map) => {
            let mut o = Object::new();
            for (k, v) in map {
                o.insert(k, to_json(v));
            }
            Json::Object(o)
        }
    }
}

fn json(text: &str) -> Json {
    to_json(&serde_json::from_str(text).expect("a JSON value"))
}

fn at(ms: u64) -> Instant {
    Instant { nanos: 1_000_000_000 + ms * 1_000_000 }
}

fn signal(name: &str, tag: &str, count: Option<u32>) -> SignalSpec {
    SignalSpec {
        name: name.to_string(),
        tag_path: tag.to_string(),
        eip_type: EipType::Real,
        array_count: count,
        scale: None,
        value_offset: None,
        deadband: DeadbandSpec::default(),
    }
}

fn no_defaults() -> Defaults {
    Defaults {
        publish_mode: None,
        batch_ms: None,
    }
}

fn poll_device() -> DeviceConfig {
    DeviceConfig {
        id: "filler-plc".to_string(),
        adapter: "sim".to_string(),
        endpoint: "127.0.0.1:44818".to_string(),
        slot: Some(0),
        connected: false,
        mode: DeviceMode::Poll,
        poll_groups: vec![
            PollGroup {
                id: Some("fast".to_string()),
                signals: vec![
                    signal("line-speed", "LINE_SPEED", None),
                    signal("zone-temps", "ZONE_TEMPS", Some(8)),
                ],
                publish_mode: PublishMode::OnChange,
                poll_interval_ms: 1_000,
            },
            PollGroup {
                id: Some("slow".to_string()),
                signals: vec![signal("fill-setpoint", "FILL_SETPOINT", None)],
                publish_mode: PublishMode::Always,
                poll_interval_ms: 1_000,
            },
        ],
        defaults: no_defaults(),
        write_allow: vec!["FILL_SETPOINT".to_string()],
        io: None,
    }
}

fn push_device() -> DeviceConfig {
    DeviceConfig {
        id: "palletizer-io".to_string(),
        adapter: "sim".to_string(),
        endpoint: "opener:44818".to_string(),
        slot: None,
        connected: false,
        mode: DeviceMode::Push,
        poll_groups: Vec::new(),
        defaults: no_defaults(),
        write_allow: Vec::new(),
        io: Some(IoConfig {
            input_assembly: 100,
            input_size_bytes: 8,
            sample_ms: 0,
            input_fields: vec![IoFieldSpec {
                name: "motor-run".to_string(),
                offset: 0,
                eip_type: EipType::Bool,
                bit: Some(0),
                array_count: None,
                scale: None,
                value_offset: None,
                deadband: None,
            }],
            output_run: None,
            output_size_bytes: 0,
            output_fields: Vec::new(),
            rpi_ms: 100,
            o2t_rpi_ms: 100,
        }),
    }
}

fn dm(device: DeviceConfig) -> DeviceMetrics {
    let global = GlobalConfig {
        timeouts: Timeouts {
            connect_ms: 5_000,
            request_timeout_ms: 2_000,
            reconnect_backoff_min_ms: 1_000,
            reconnect_backoff_max_ms: 30_000,
        },
        defaults: no_defaults(),
        metrics_interval_secs: 60,
        stale_signal_secs: 60,
        keepalive_probe_interval_ms: 10_000,
    };
    DeviceMetrics::new(&device, &global)
}

fn number(values: &[Measure], name: &str) -> u64 {
    match values.iter().find(|m| m.name == name) {
        Some(Measure {
            amount: Amount::Number(n),
            ..
        }) => *n,
        Some(Measure {
            amount: Amount::Nanos(n),
            ..
        }) => (*n / 1_000_000) as u64,
        Some(Measure {
            amount: Amount::Signed(n),
            ..
        }) => u64::try_from(*n).expect("not negative"),
        None => panic!("{name} is measured"),
    }
}

fn rows(out: &[Emission], family: Family) -> Vec<&Emission> {
    out.iter().filter(|e| e.family == family).collect()
}

fn row<'a>(out: &'a [Emission], family: Family, dims: &[(&str, &str)]) -> &'a Emission {
    rows(out, family)
        .into_iter()
        .find(|e| {
            dims.iter()
                .all(|(k, v)| e.dimensions.iter().any(|d| d.key == *k && d.value == *v))
        })
        .expect("the row is emitted")
}

fn families(out: &[Emission]) -> Vec<Family> {
    let mut seen = Vec::new();
    for e in out {
        if !seen.contains(&e.family) {
            seen.push(e.family);
        }
    }
    seen
}

fn at_path(j: &Json, path: &[&str]) -> Json {
    let mut here = j.copy();
    for key in path {
        let next = match here.get(key) {
            Some(v) => v.copy(),
            None => panic!("{key} is there"),
        };
        here = next;
    }
    here
}

fn cycle(duration_ms: u64, tag_reads: u64, good: u64, bad: u64, changed: u64) -> PollCycle {
    PollCycle {
        duration_ms,
        tag_reads,
        overran: false,
        good,
        bad,
        uncertain: 0,
        changed,
        suppressed: 0,
    }
}

type Expected = (&'static str, Vec<&'static str>, Vec<(String, String, u32)>);

#[test]
fn definition_set_matches_design_section_8_exactly() {
    let c = |n: &str| (n.to_string(), "Count".to_string(), 60u32);
    let cp = |n: &str| vec![c(&format!("{n}Total")), c(&format!("{n}Interval"))];
    let g = |n: &str, u: &str, r: u32| (n.to_string(), u.to_string(), r);
    let mut expected: Vec<Expected> = Vec::new();

    expected.push((
        "southbound_health",
        vec!["instance"],
        vec![
            g("connectionState", "Count", 1),
            g("paused", "Count", 1),
            g("pollLatencyMs", "Milliseconds", 1),
            g("publishLatencyMs", "Milliseconds", 1),
            g("readErrors", "Count", 60),
            g("writeErrors", "Count", 60),
            g("staleSignals", "Count", 60),
            g("reconnects", "Count", 60),
        ],
    ));

    let mut conn = vec![g("sessionConnected", "Count", 1)];
    for p in [
        "connectAttempts",
        "connectFailures",
        "connectionDrops",
        "reconnects",
        "tlsHandshakeFailures",
    ] {
        conn.extend(cp(p));
    }
    conn.push(g("connectLatencyMs", "Milliseconds", 60));
    conn.push(g("connectedDurationMs", "Milliseconds", 60));
    expected.push(("EtherNetIpConnection", vec!["instance", "connectionMode"], conn));

    expected.push((
        "EtherNetIpInventory",
        vec!["instance", "pollGroup"],
        vec![
            g("configuredSignals", "Count", 60),
            g("arraySignals", "Count", 60),
            g("writableSignals", "Count", 60),
            g("configuredPollIntervalMs", "Milliseconds", 60),
            g("requestsPerCycle", "Count", 60),
        ],
    ));

    let mut poll = Vec::new();
    poll.extend(cp("pollCycles"));
    poll.push(g("pollDurationMs", "Milliseconds", 60));
    for p in [
        "tagReads",
        "tagReadErrors",
        "samplesGood",
        "samplesBad",
        "samplesUncertain",
        "samplesChanged",
        "samplesSuppressed",
        "pollOverruns",
    ] {
        poll.extend(cp(p));
    }
    expected.push(("EtherNetIpPoll", vec!["instance", "pollGroup", "result"], poll));

    let mut publish = Vec::new();
    for p in [
        "dataMessagesPublished",
        "samplesPublished",
        "publishFailures",
        "batchFlushes",
    ] {
        publish.extend(cp(p));
    }
    publish.push(g("batchSize", "Count", 60));
    publish.push(g("publishLatencyMs", "Milliseconds", 60));
    expected.push(("EtherNetIpPublish", vec!["instance", "publishMode"], publish));

    let mut command = Vec::new();
    command.extend(cp("commandRequests"));
    command.extend(cp("commandErrors"));
    command.push(g("commandLatencyMs", "Milliseconds", 60));
    for p in [
        "readSignals",
        "writeSignals",
        "writeFailures",
        "browsedTags",
        "pauseRequests",
        "resumeRequests",
        "reconnectRequests",
        "repollRequests",
    ] {
        command.extend(cp(p));
    }
    expected.push(("EtherNetIpCommand", vec!["instance", "verb", "result"], command));

    let mut io = vec![g("ioConnectionState", "Count", 1)];
    for p in [
        "forwardOpens",
        "forwardOpenFailures",
        "framesConsumed",
        "framesProduced",
        "staleFramesDropped",
        "sequenceGaps",
        "sizeMismatchDropped",
        "malformedFrames",
        "ioTimeouts",
        "produceOverruns",
    ] {
        io.extend(cp(p));
    }
    io.push(g("interFrameMs", "Milliseconds", 1));
    io.push(g("runMode", "Count", 1));
    expected.push(("EtherNetIpIo", vec!["instance"], io));

    let actual = family_defs();
    assert_eq!(actual.len(), expected.len(), "exactly seven families");
    for (name, dims, measures) in expected {
        let fam = actual
            .iter()
            .find(|f| f.name == name)
            .unwrap_or_else(|| panic!("family {name} defined"));
        let want_dims: Vec<String> = dims.iter().map(|s| (*s).to_string()).collect();
        assert_eq!(fam.dimensions, want_dims, "{name} dimension keys");
        let want: BTreeSet<(String, String, u32)> = measures.iter().cloned().collect();
        let got: BTreeSet<(String, String, u32)> = fam
            .measures
            .iter()
            .map(|m| (m.name.clone(), m.unit.clone(), m.res))
            .collect();
        assert_eq!(got, want, "{name} measure set");
        assert_eq!(fam.measures.len(), measures.len(), "{name}: no duplicate measures");
    }
}

#[test]
fn define_all_registers_families_with_low_cardinality_dims_only() {
    let defined = dm(poll_device()).define_all();
    let allowed: BTreeSet<&str> = [
        "instance",
        "connectionMode",
        "pollGroup",
        "result",
        "verb",
        "publishMode",
    ]
    .into_iter()
    .collect();
    for combo in &defined {
        for d in &combo.dimensions {
            assert!(allowed.contains(d.key.as_str()), "{} is low-cardinality", d.key);
        }
        let keys: Vec<String> = combo.dimensions.iter().map(|d| d.key.clone()).collect();
        assert_eq!(keys, family_def(combo.family).dimensions);
    }
    let has = |f: Family| defined.iter().any(|c: &Combo| c.family == f);
    for f in [
        Family::Health,
        Family::Connection,
        Family::Inventory,
        Family::Poll,
        Family::Publish,
        Family::Command,
    ] {
        assert!(has(f), "poll device defines {f:?}");
    }
    assert!(!has(Family::Io), "poll device does not define EtherNetIpIo");
    assert!(family_def(Family::Health).measures.iter().any(|m| m.name == "paused"));
}

#[test]
fn push_device_defines_io_and_not_the_poll_families() {
    let defined = dm(push_device()).define_all();
    let has = |f: Family| defined.iter().any(|c: &Combo| c.family == f);
    assert!(has(Family::Io), "push device defines EtherNetIpIo");
    for f in [
        Family::Health,
        Family::Connection,
        Family::Publish,
        Family::Command,
    ] {
        assert!(has(f), "push device defines {f:?}");
    }
    assert!(!has(Family::Poll), "push device does not define EtherNetIpPoll");
    assert!(!has(Family::Inventory), "push device does not define EtherNetIpInventory");
}

#[test]
fn total_accumulates_while_interval_resets_each_emit() {
    let mut p = Pair::new();
    p.add(3);
    let mut a = Vec::new();
    p.drain_into(&mut a, "x");
    assert_eq!(number(&a, "xTotal"), 3);
    assert_eq!(number(&a, "xInterval"), 3);

    let mut b = Vec::new();
    p.drain_into(&mut b, "x");
    assert_eq!(number(&b, "xTotal"), 3, "total is monotonic");
    assert_eq!(number(&b, "xInterval"), 0, "interval reset after the previous emit");

    p.add(2);
    let mut c = Vec::new();
    p.drain_into(&mut c, "x");
    assert_eq!(number(&c, "xTotal"), 5);
    assert_eq!(number(&c, "xInterval"), 2);
}

#[test]
fn a_counter_stops_at_its_largest_value() {
    let mut p = Pair::new();
    p.add(u64::MAX);
    p.add(1);
    assert_eq!(p.total, u64::MAX);
}

#[test]
fn poll_interval_resets_after_emit_but_total_persists() {
    let mut m = dm(poll_device());
    let mut h = Health::default();
    m.record_poll_cycle("fast", Outcome::Success, cycle(12, 2, 2, 0, 1));
    let first = m.emit_periodic(&mut h, at(0));
    let second = m.emit_periodic(&mut h, at(60_000));
    let dims = [("pollGroup", "fast"), ("result", Outcome::Success.as_str())];
    assert_eq!(rows(&first, Family::Poll).len(), 4, "two groups, two results");
    let a = &row(&first, Family::Poll, &dims).values;
    assert_eq!(number(a, "samplesGoodTotal"), 2);
    assert_eq!(number(a, "pollCyclesTotal"), 1);
    assert_eq!(number(a, "pollCyclesInterval"), 1);
    assert_eq!(number(a, "pollDurationMs"), 12);
    assert_eq!(number(a, "samplesChangedInterval"), 1);
    let b = &row(&second, Family::Poll, &dims).values;
    assert_eq!(number(b, "pollCyclesTotal"), 1);
    assert_eq!(number(b, "pollCyclesInterval"), 0);
}

fn stats(produced: u64, stale: u64, size: u64, malformed: u64, overruns: u64, gaps: u64) -> IoLinkStats {
    IoLinkStats {
        frames_produced: produced,
        stale_frames: stale,
        size_mismatch: size,
        malformed_frames: malformed,
        produce_overruns: overruns,
        sequence_gaps: gaps,
        refused_redirects: 0,
    }
}

fn io_row(m: &mut DeviceMetrics, now: Instant) -> Vec<Measure> {
    let mut h = Health::default();
    let out = m.emit_now(&mut h, now);
    out.into_iter().find(|e| e.family == Family::Io).expect("the io family").values
}

#[test]
fn io_stack_stats_fold_into_ethernetip_io_as_deltas() {
    let mut m = dm(push_device());
    m.record_io_stats(stats(10, 2, 1, 0, 3, 9));
    let a = io_row(&mut m, at(0));
    m.record_io_stats(stats(25, 2, 4, 1, 3, 20));
    let b = io_row(&mut m, at(10));

    assert_eq!(number(&a, "framesProducedTotal"), 10);
    assert_eq!(number(&a, "framesProducedInterval"), 10);
    assert_eq!(number(&a, "produceOverrunsTotal"), 3);

    assert_eq!(number(&b, "framesProducedTotal"), 25);
    assert_eq!(number(&b, "framesProducedInterval"), 15);
    assert_eq!(number(&b, "sizeMismatchDroppedTotal"), 4);
    assert_eq!(number(&b, "sizeMismatchDroppedInterval"), 3);
    assert_eq!(number(&b, "malformedFramesInterval"), 1);
    assert_eq!(number(&b, "staleFramesDroppedInterval"), 0);
    assert_eq!(number(&b, "produceOverrunsInterval"), 0);
    assert_eq!(number(&b, "sequenceGapsTotal"), 0);

    m.on_io_lost();
    m.record_io_stats(stats(5, 0, 0, 0, 0, 0));
    let last = io_row(&mut m, at(20));
    assert_eq!(number(&last, "framesProducedInterval"), 5);
    assert_eq!(number(&last, "framesProducedTotal"), 30);
}

#[test]
fn health_emit_includes_the_paused_gauge_and_reads_health() {
    let mut m = dm(poll_device());
    let mut h = Health::default();
    h.link = LinkState::Online;
    h.read_errors = 4;
    let out = m.emit_now(&mut h, at(0));
    let v = &rows(&out, Family::Health)[0].values;
    assert_eq!(number(v, "connectionState"), 1);
    assert_eq!(number(v, "readErrors"), 4);
    assert_eq!(number(v, "paused"), 0);
    assert!(v.iter().any(|x| x.name == "publishLatencyMs"));
    assert!(v.iter().any(|x| x.name == "staleSignals"));
    assert_eq!(h.read_errors, 0, "an interval counter starts again with each emit");
}

fn conn_row(m: &mut DeviceMetrics, now: Instant) -> Vec<Measure> {
    let mut h = Health::default();
    let out = m.emit_now(&mut h, now);
    out.into_iter()
        .find(|e| e.family == Family::Connection)
        .expect("the connection family")
        .values
}

#[test]
fn connection_lifecycle_counts_attempts_reconnects_and_up_duration() {
    let mut m = dm(poll_device());
    m.on_connect_attempt();
    m.on_connect_failure();
    m.on_connect_attempt();
    m.on_connected(12, at(0));
    let first = conn_row(&mut m, at(100));
    assert_eq!(number(&first, "sessionConnected"), 1);
    assert_eq!(number(&first, "connectAttemptsTotal"), 2);
    assert_eq!(number(&first, "connectFailuresTotal"), 1);
    assert_eq!(number(&first, "reconnectsInterval"), 0, "the first connect is no reconnect");
    assert_eq!(number(&first, "connectLatencyMs"), 12);
    assert_eq!(number(&first, "connectedDurationMs"), 100);

    m.on_connection_dropped(at(500));
    let dropped = conn_row(&mut m, at(700));
    assert_eq!(number(&dropped, "sessionConnected"), 0);
    assert_eq!(number(&dropped, "connectionDropsInterval"), 1);
    assert_eq!(number(&dropped, "connectedDurationMs"), 400, "what accrued since the last emit");

    m.on_connect_attempt();
    m.on_connected(5, at(800));
    let re = conn_row(&mut m, at(900));
    assert_eq!(number(&re, "reconnectsInterval"), 1);
}

#[test]
fn publish_and_poll_recording_cover_batch_failure_and_overrun() {
    let mut m = dm(poll_device());
    let mut h = Health::default();
    m.record_publish(PublishMode::OnChange, 3, true, 7, true);
    m.record_publish(PublishMode::OnChange, 1, false, 0, false);
    m.record_poll_cycle(
        "fast",
        Outcome::Success,
        PollCycle {
            overran: true,
            ..cycle(900, 2, 2, 0, 0)
        },
    );
    let out = m.emit_periodic(&mut h, at(0));
    let p = &row(&out, Family::Publish, &[("publishMode", "onChange")]).values;
    assert_eq!(number(p, "dataMessagesPublishedTotal"), 2);
    assert_eq!(number(p, "samplesPublishedTotal"), 3, "only the ok publish added samples");
    assert_eq!(number(p, "publishFailuresTotal"), 1);
    assert_eq!(number(p, "batchFlushesTotal"), 1);
    assert_eq!(number(p, "batchSize"), 3);
    let overran = rows(&out, Family::Poll)
        .into_iter()
        .filter(|e| number(&e.values, "pollOverrunsTotal") == 1)
        .count();
    assert_eq!(overran, 1, "an overrun cycle bumps pollOverruns");
}

#[test]
fn periodic_emit_publishes_every_poll_family() {
    let mut m = dm(poll_device());
    let mut h = Health::default();
    m.record_command(Verb::Status, true, 2, CommandTally::default());
    let out = m.emit_periodic(&mut h, at(0));
    let names = families(&out);
    for f in [
        Family::Health,
        Family::Connection,
        Family::Inventory,
        Family::Poll,
        Family::Publish,
        Family::Command,
    ] {
        assert!(names.contains(&f), "periodic emit includes {f:?}");
    }
    assert!(!names.contains(&Family::Io), "a poll device never emits EtherNetIpIo");

    let fast = &row(&out, Family::Inventory, &[("pollGroup", "fast")]).values;
    assert_eq!(number(fast, "configuredSignals"), 2);
    assert_eq!(number(fast, "arraySignals"), 1);
    assert_eq!(number(fast, "writableSignals"), 0);
    assert_eq!(number(fast, "configuredPollIntervalMs"), 1_000);
    assert!(fast.iter().any(|x| x.name == "requestsPerCycle"));
    let slow = &row(&out, Family::Inventory, &[("pollGroup", "slow")]).values;
    assert_eq!(number(slow, "writableSignals"), 1);

    let status = &row(
        &out,
        Family::Command,
        &[("verb", "sb/status"), ("result", Outcome::Success.as_str())],
    )
    .values;
    assert_eq!(number(status, "commandRequestsTotal"), 1);
    assert_eq!(number(status, "commandErrorsTotal"), 0);
    assert_eq!(number(status, "commandLatencyMs"), 2);

    assert!(out.iter().all(|e| !e.immediate), "the cadence collects");
    let mut other = dm(poll_device());
    let flush = other.emit_now(&mut h, at(0));
    assert!(flush.iter().all(|e| e.immediate), "a transition goes out at once");
    let now = families(&flush);
    assert!(now.contains(&Family::Health) && now.contains(&Family::Connection));
    assert!(!now.contains(&Family::Poll), "the transition emit is not the full periodic set");
}

#[test]
fn push_io_recording_and_status_views() {
    let mut m = dm(push_device());
    let mut h = Health::default();
    m.on_forward_open(true);
    m.on_forward_open(false);
    m.on_io_up(100, 100);
    m.record_frame_consumed(1, at(0), true);
    m.record_frame_consumed(4, at(30), true);
    let out = m.emit_periodic(&mut h, at(40));
    let names = families(&out);
    assert!(names.contains(&Family::Io), "a push device emits EtherNetIpIo");
    assert!(!names.contains(&Family::Poll) && !names.contains(&Family::Inventory));

    let io = &rows(&out, Family::Io)[0].values;
    assert_eq!(number(io, "ioConnectionState"), 1);
    assert_eq!(number(io, "forwardOpensTotal"), 1);
    assert_eq!(number(io, "forwardOpenFailuresTotal"), 1);
    assert_eq!(number(io, "framesConsumedTotal"), 2);
    assert_eq!(number(io, "sequenceGapsTotal"), 2, "1 to 4 is two missed frames");
    assert_eq!(number(io, "runMode"), 1);
    assert_eq!(number(io, "interFrameMs"), 30);

    let counters = m.counters_view();
    assert!(at_path(&counters, &["read", "total"]).same(&json("2.0")), "read = accepted frames");
    let view = m.io_view();
    assert!(at_path(&view, &["o2tApiMs"]).same(&json("100")));
    assert!(at_path(&view, &["t2oApiMs"]).same(&json("100")));
    assert!(at_path(&view, &["peerRun"]).same(&json("true")));
    assert!(at_path(&view, &["framesConsumed", "total"]).same(&json("2.0")));
}

#[test]
fn an_io_emit_says_nothing_of_redirects_until_one_is_refused() {
    let mut m = dm(push_device());
    m.record_io_stats(stats(1, 0, 0, 0, 0, 0));
    let quiet = io_row(&mut m, at(0));
    assert!(quiet.iter().all(|v| !v.name.starts_with("refusedRedirects")));
    m.record_io_stats(IoLinkStats {
        refused_redirects: 3,
        ..stats(1, 0, 0, 0, 0, 0)
    });
    let row = io_row(&mut m, at(10));
    assert_eq!(number(&row, "refusedRedirectsTotal"), 3);
    assert_eq!(number(&row, "refusedRedirectsInterval"), 3);
    let again = io_row(&mut m, at(20));
    assert_eq!(number(&again, "refusedRedirectsTotal"), 3);
    assert_eq!(number(&again, "refusedRedirectsInterval"), 0);
}

#[test]
fn a_sequence_that_wraps_leaves_no_gap() {
    let mut m = dm(push_device());
    let gaps = |m: &mut DeviceMetrics, ms: u64| number(&io_row(m, at(ms)), "sequenceGapsTotal");
    m.record_frame_consumed(0xFFFF, at(0), true);
    m.record_frame_consumed(0, at(10), true);
    assert_eq!(gaps(&mut m, 20), 0, "the sequence wrapped");
    m.record_frame_consumed(0, at(30), true);
    assert_eq!(gaps(&mut m, 40), 0, "the frame came again");
    m.record_frame_consumed(3, at(50), true);
    assert_eq!(gaps(&mut m, 60), 2, "two frames are missing");
}

#[test]
fn poll_counters_view_sums_reads_and_writes() {
    let mut m = dm(poll_device());
    m.record_poll_cycle("fast", Outcome::Success, cycle(5, 2, 2, 1, 0));
    m.record_command(
        Verb::Write,
        true,
        1,
        CommandTally {
            write_signals: 1,
            ..CommandTally::default()
        },
    );
    let v = m.counters_view();
    assert!(at_path(&v, &["read", "total"]).same(&json("2.0")));
    assert!(
        at_path(&v, &["readErrors", "total"]).same(&json("1.0")),
        "a BAD read is a tagReadError"
    );
    assert!(at_path(&v, &["write", "total"]).same(&json("1.0")));
}

fn posture() -> TargetSecurityPosture {
    TargetSecurityPosture {
        state: None,
        profiles: Vec::new(),
        allowed_cipher_suites: Vec::new(),
        available_cipher_suites: Vec::new(),
        verify_client: None,
        send_certificate_chain: None,
        check_expiration: None,
        certificate: None,
    }
}

#[test]
fn security_view_plaintext_no_session_is_bare() {
    let v = dm(poll_device()).security_view(&None, &None);
    assert!(v.same(&json("{\"mode\": \"plaintext\"}")));
}

#[test]
fn security_view_reports_target_unavailable_for_generic_device() {
    let sec = SecurityStatus {
        tls: false,
        target: None,
        ..SecurityStatus::default()
    };
    let v = dm(poll_device()).security_view(&None, &Some(sec));
    assert!(at_path(&v, &["mode"]).same(&json("\"plaintext\"")));
    assert!(at_path(&v, &["targetSupportsCipSecurity"]).same(&json("false")));
    assert!(v.get("target").is_none());
}

#[test]
fn security_view_renders_decoded_target_posture() {
    let target = TargetSecurityPosture {
        state: Some("Configured".to_string()),
        profiles: vec!["EtherNet/IP Confidentiality".to_string()],
        allowed_cipher_suites: vec!["TLS_ECDHE_ECDSA_WITH_AES_128_GCM_SHA256".to_string()],
        available_cipher_suites: vec![
            "TLS_ECDHE_ECDSA_WITH_AES_128_GCM_SHA256".to_string(),
            "0xC023".to_string(),
        ],
        verify_client: Some(true),
        send_certificate_chain: Some(true),
        check_expiration: Some(false),
        certificate: Some(TargetCertificateSummary {
            push_supported: Some(true),
            pull_supported: Some(false),
            name: Some("Device".to_string()),
            state: Some("Verified".to_string()),
            encoding: Some("PEM".to_string()),
        }),
    };
    let sec = SecurityStatus {
        tls: false,
        target: Some(target),
        ..SecurityStatus::default()
    };
    let v = dm(poll_device()).security_view(&None, &Some(sec));
    assert!(at_path(&v, &["targetSupportsCipSecurity"]).same(&json("true")));
    let t = at_path(&v, &["target"]);
    let said = |path: &[&str], want: &str| {
        assert!(at_path(&t, path).same(&json(want)), "{path:?} is {want}");
    };
    said(&["state"], "\"Configured\"");
    said(&["profiles"], "[\"EtherNet/IP Confidentiality\"]");
    said(&["allowedCipherSuites"], "[\"TLS_ECDHE_ECDSA_WITH_AES_128_GCM_SHA256\"]");
    said(
        &["availableCipherSuites"],
        "[\"TLS_ECDHE_ECDSA_WITH_AES_128_GCM_SHA256\", \"0xC023\"]",
    );
    said(&["verifyClient"], "true");
    said(&["checkExpiration"], "false");
    said(&["pullModel"], "false");
    said(&["certificate", "pushSupported"], "true");
    said(&["certificate", "name"], "\"Device\"");
    said(&["certificate", "encoding"], "\"PEM\"");
}

#[test]
fn security_target_view_arrays_always_present() {
    let v = security_target_view(&posture());
    for key in ["profiles", "allowedCipherSuites", "availableCipherSuites"] {
        assert!(at_path(&v, &[key]).same(&json("[]")));
    }
    assert!(v.get("state").is_none());
    assert!(v.get("certificate").is_none());
}

#[test]
fn a_tls_session_reports_what_was_negotiated() {
    let security = Some(SecurityConfig {
        mode: SecurityMode::Tls,
        ..SecurityConfig::default()
    });
    let mut m = dm(poll_device());
    m.on_tls_handshake_failure();
    let session = Some(SecurityStatus {
        tls: true,
        tls_version: Some("1.3".to_string()),
        cipher_suite: Some("TLS13_AES_128_GCM_SHA256".to_string()),
        peer_verified: true,
        ..SecurityStatus::default()
    });
    let v = m.security_view(&security, &session);
    assert!(at_path(&v, &["mode"]).same(&json("\"tls\"")));
    assert!(at_path(&v, &["tlsVersion"]).same(&json("\"1.3\"")));
    assert!(at_path(&v, &["cipherSuite"]).same(&json("\"TLS13_AES_128_GCM_SHA256\"")));
    assert!(at_path(&v, &["peerVerified"]).same(&json("true")));
}

#[test]
fn a_connection_emit_says_nothing_of_a_certificate_there_is_none_of() {
    let mut m = dm(poll_device());
    let plain = conn_row(&mut m, at(0));
    let defined: Vec<String> = family_def(Family::Connection)
        .measures
        .into_iter()
        .map(|d| d.name)
        .collect();
    assert_eq!(plain.iter().map(|x| x.name.clone()).collect::<Vec<_>>(), defined);
    m.set_cert_expiry_days(-3);
    m.on_cert_reload();
    m.on_est_enrollment(true);
    m.on_est_enrollment(false);
    let told = conn_row(&mut m, at(10));
    let days = told.iter().find(|x| x.name == "certExpiryDays").unwrap();
    assert_eq!(days.amount, Amount::Signed(-3));
    assert_eq!(number(&told, "certReloadsInterval"), 1);
    assert_eq!(number(&told, "estEnrollmentsTotal"), 1);
    assert_eq!(number(&told, "estFailuresTotal"), 1);
    let later = conn_row(&mut m, at(20));
    assert_eq!(number(&later, "certReloadsTotal"), 1);
    assert_eq!(number(&later, "certReloadsInterval"), 0);
}

#[test]
fn rows_are_emitted_in_the_order_of_their_keys() {
    let mut device = poll_device();
    device.poll_groups.reverse();
    let mut m = dm(device);
    let mut h = Health::default();
    m.record_poll_cycle("medium", Outcome::Success, cycle(1, 1, 1, 0, 0));
    let out = m.emit_periodic(&mut h, at(0));
    let values = |family: Family, key: &str| -> Vec<String> {
        rows(&out, family)
            .iter()
            .map(|e| {
                e.dimensions
                    .iter()
                    .find(|d| d.key == key)
                    .map(|d| d.value.clone())
                    .expect("the dimension")
            })
            .collect()
    };
    assert_eq!(values(Family::Publish, "publishMode"), vec!["always", "onChange"]);
    assert_eq!(
        values(Family::Poll, "pollGroup"),
        vec!["fast", "fast", "medium", "slow", "slow"]
    );
    assert_eq!(
        values(Family::Poll, "result"),
        vec!["error", "success", "success", "error", "success"]
    );
    let verbs = values(Family::Command, "verb");
    assert_eq!(
        verbs.iter().step_by(2).map(String::as_str).collect::<Vec<_>>(),
        vec![
            "reconnect",
            "repoll",
            "sb/browse",
            "sb/pause",
            "sb/read",
            "sb/resume",
            "sb/signals",
            "sb/status",
            "sb/write",
        ]
    );
    assert_eq!(values(Family::Command, "result")[..4], ["error", "success", "error", "success"]);
    assert_eq!(
        values(Family::Inventory, "pollGroup"),
        vec!["slow", "fast"],
        "the inventory follows the configuration"
    );
}

#[test]
fn texts_are_ordered_by_code_point() {
    assert!(is_text_before("", "a") && !is_text_before("a", ""));
    assert!(is_text_before("B", "a") && is_text_before("a", "ab") && !is_text_before("a", "a"));
    assert!(is_text_before("z", "é"));
    assert!(is_key_before("a", "error", "a", "success"));
    assert!(is_key_before("a", "success", "b", "error"));
    assert!(!is_key_before("b", "error", "a", "success"));
}

#[test]
fn an_allow_entry_that_names_no_signal_is_reported() {
    let mut cfg = poll_device();
    assert!(cfg.unmatched_allow_entries().is_empty());
    cfg.write_allow = ["GHOST", "FILL_SETPOINT", "fill-setpoint", "GHOST"]
        .map(String::from)
        .to_vec();
    assert_eq!(cfg.unmatched_allow_entries(), ["GHOST", "fill-setpoint", "GHOST"]);
    assert!(cfg.permits("GHOST"), "it is kept");
}
