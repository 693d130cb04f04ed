//! The publish filter, the batching windows, staleness, and the gating of groups and frames.

use ethernet_ip_adapter::clock::{Duration, Instant};
use ethernet_ip_adapter::config::{
    DeadbandKind, DeadbandSpec, EipType, IoConfig, IoFieldSpec, PollGroup, PublishMode, SignalSpec,
};
use ethernet_ip_adapter::device::{Quality, Reading};
use ethernet_ip_adapter::engine::Engine;
use ethernet_ip_adapter::health::Health;
use ethernet_ip_adapter::ieee::F64;
use ethernet_ip_adapter::json::{Json, Number, Object};
use ethernet_ip_adapter::poll::{process_group, record_cycle, Gate};
use ethernet_ip_adapter::publish::{
    build_update, cycle_overran, is_stale, sample_of, scalar_exceeds, should_publish, value_changed,
    Batcher, Comparison,
};
use ethernet_ip_adapter::push::{deadbands, field_deadband, process_frame, FieldDeadband};
use serde_json::Value;

fn to_json(v: &Value) -> Json {
    match v {
        Value::Null => Json::Null,
        Value::Bool(b) => Json::Bool(*b),
        Value::Number(n) => {
            if let Some(u) = n.as_u64() {
                Json::Number(Number::Unsigned(u))
            } else if let Some(i) = n.as_i64() {
                Json::Number(Number::Signed(i))
            } else {
                let f = n.as_f64().unwrap();
                Json::Number(Number::Float(F64 { bits: f.to_bits() }))
            }
        }
        Value::String(s) => Json::Text(s.clone()),
        Value::Array(items) => Json::Array(items.iter().map(to_json).collect()),
        Value::Object(map) => {
            let mut o = Object::new();
            for (k, v) in map {
                o.insert(k, to_json(v));
            }
            Json::Object(o)
        }
    }
}

fn json(text: &str) -> Json {
    to_json(&serde_json::from_str(text).expect("a JSON value"))
}

fn as_f64(j: &Json) -> Option<f64> {
    match j {
        Json::Number(Number::Unsigned(u)) => Some(*u as f64),
        Json::Number(Number::Signed(i)) => Some(*i as f64),
        Json::Number(Number::Float(f)) => Some(f64::from_bits(f.bits)),
        _ => None,
    }
}

fn compare(old: f64, new: f64, deadband: &DeadbandSpec) -> Comparison {
    let value = f64::from_bits(deadband.value.bits);
    let delta = (new - old).abs();
    let threshold = old.abs() * value / 100.0;
    Comparison {
        differs: new != old,
        reaches_value: delta >= value,
        threshold_is_zero: threshold == 0.0,
        reaches_threshold: delta >= threshold,
    }
}

fn moved_one(old: &Json, new: &Json, deadband: &DeadbandSpec) -> bool {
    match (as_f64(old), as_f64(new)) {
        (Some(a), Some(b)) => scalar_exceeds(deadband.kind, compare(a, b, deadband)),
        _ => false,
    }
}

fn moved(old: Option<&Json>, new: &Json, deadband: &DeadbandSpec) -> Vec<bool> {
    match (old, new) {
        (None, _) => Vec::new(),
        (Some(Json::Array(p)), Json::Array(n)) => p
            .iter()
            .zip(n)
            .map(|(a, b)| moved_one(a, b, deadband))
            .collect(),
        (Some(p), n) => vec![moved_one(p, n, deadband)],
    }
}

fn db(kind: DeadbandKind, value: f64) -> DeadbandSpec {
    DeadbandSpec {
        kind,
        value: F64 { bits: value.to_bits() },
    }
}

fn none_db() -> DeadbandSpec {
    db(DeadbandKind::AnyChange, 0.0)
}

fn at(ms: u64) -> Instant {
    Instant { nanos: 1_000_000_000 + ms * 1_000_000 }
}

fn publishes(prev: Option<&str>, new: &str, q: Quality, mode: PublishMode, d: &DeadbandSpec) -> bool {
    let prev = prev.map(json);
    let new = json(new);
    let verdicts = moved(prev.as_ref(), &new, d);
    should_publish(prev.as_ref(), &new, q, mode, &verdicts)
}

fn changed(prev: &str, new: &str, d: &DeadbandSpec) -> bool {
    let (prev, new) = (json(prev), json(new));
    let verdicts = moved(Some(&prev), &new, d);
    value_changed(&prev, &new, &verdicts)
}

// ---- the publish filter ----

#[test]
fn always_mode_publishes_every_sample_including_unchanged() {
    assert!(publishes(
        Some("10.0"),
        "10.0",
        Quality::Good,
        PublishMode::Always,
        &none_db()
    ));
}

#[test]
fn on_change_suppresses_an_unchanged_good_sample() {
    assert!(!publishes(
        Some("10.0"),
        "10.0",
        Quality::Good,
        PublishMode::OnChange,
        &none_db()
    ));
}

#[test]
fn a_bad_sample_always_passes_the_gate_even_unchanged() {
    assert!(publishes(
        Some("10.0"),
        "null",
        Quality::Bad,
        PublishMode::OnChange,
        &none_db()
    ));
    assert!(publishes(
        Some("10.0"),
        "10.0",
        Quality::Uncertain,
        PublishMode::OnChange,
        &none_db()
    ));
}

#[test]
fn the_first_onchange_sample_always_publishes() {
    assert!(publishes(
        None,
        "1.0",
        Quality::Good,
        PublishMode::OnChange,
        &db(DeadbandKind::Absolute, 100.0)
    ));
}

#[test]
fn deadband_none_republishes_any_change_but_not_equality() {
    assert!(changed("10.0", "10.001", &none_db()));
    assert!(!changed("10.0", "10.0", &none_db()));
}

#[test]
fn deadband_absolute_gates_below_the_threshold() {
    let abs = db(DeadbandKind::Absolute, 0.5);
    assert!(!changed("10.0", "10.4", &abs), "0.4 < 0.5 suppressed");
    assert!(changed("10.0", "10.5", &abs), "0.5 >= 0.5 passes");
}

#[test]
fn deadband_percent_is_relative_to_the_old_value() {
    let pct = db(DeadbandKind::Percent, 1.0);
    assert!(!changed("100.0", "100.9", &pct), "0.9 < 1.0 suppressed");
    assert!(changed("100.0", "101.0", &pct), "1.0 >= 1.0 passes");
    assert!(changed("0.0", "0.001", &pct));
}

#[test]
fn non_numeric_uses_any_change() {
    let abs = db(DeadbandKind::Absolute, 1000.0);
    assert!(changed("true", "false", &abs));
    assert!(!changed("true", "true", &abs));
}

#[test]
fn array_passes_when_any_element_exceeds() {
    let abs = db(DeadbandKind::Absolute, 0.5);
    assert!(changed("[1.0, 2.0, 3.0]", "[1.1, 2.1, 3.6]", &abs), "3rd exceeds");
    assert!(
        !changed("[1.0, 2.0, 3.0]", "[1.1, 2.1, 3.1]", &abs),
        "no element moves >= 0.5"
    );
    assert!(changed("[1.0, 2.0, 3.0]", "[1.0, 2.0]", &abs));
}

#[test]
fn a_percentage_of_nothing_is_any_change() {
    let still = Comparison {
        differs: false,
        reaches_value: true,
        threshold_is_zero: true,
        reaches_threshold: true,
    };
    assert!(!scalar_exceeds(DeadbandKind::Percent, still));
    assert!(scalar_exceeds(DeadbandKind::Absolute, still));
    assert!(!scalar_exceeds(DeadbandKind::AnyChange, still));
}

// ---- batching ----

#[test]
fn batcher_with_zero_window_publishes_immediately() {
    let mut b = Batcher::new();
    let out = b.add(
        sample_of(json("1"), Quality::Good, Some("0x00".to_string()), None),
        at(0),
        0,
    );
    assert_eq!(out.map(|v| v.len()), Some(1));
    assert!(b.next_deadline(0).is_none());
}

#[test]
fn batcher_buffers_then_flushes_on_window_close() {
    let mut b = Batcher::new();
    assert!(b
        .add(
            sample_of(json("1"), Quality::Good, None, Some("t0".to_string())),
            at(0),
            100
        )
        .is_none());
    assert_eq!(b.next_deadline(100), Some(u128::from(at(100).nanos)));
    assert!(b
        .add(
            sample_of(json("2"), Quality::Good, None, Some("t1".to_string())),
            at(40),
            100
        )
        .is_none());
    assert!(b.take_due(at(50), 100).is_none());
    let flush = b.take_due(at(100), 100).expect("a due flush");
    assert_eq!(flush.len(), 2);
    assert!(flush[0].value.same(&json("1")));
    assert!(flush[1].value.same(&json("2")));
    assert!(b.take_due(at(300), 100).is_none());
}

// ---- staleness and overrun ----

#[test]
fn staleness_counts_from_last_good_or_start() {
    let start = at(0);
    assert!(!is_stale(None, start, at(59_000), 60));
    assert!(is_stale(None, start, at(60_000), 60));
    let good = at(100_000);
    assert!(!is_stale(Some(good), start, at(130_000), 60));
    assert!(is_stale(Some(good), start, at(160_000), 60));
}

#[test]
fn overrun_is_a_cycle_longer_than_its_interval() {
    assert!(cycle_overran(
        Duration::from_millis(600),
        Duration::from_millis(500)
    ));
    assert!(!cycle_overran(
        Duration::from_millis(400),
        Duration::from_millis(500)
    ));
}

#[test]
fn overrun_is_counted_when_a_cycle_runs_longer_than_its_interval() {
    let mut h = Health::default();
    record_cycle(Duration::from_millis(600), Duration::from_millis(500), &mut h);
    record_cycle(Duration::from_millis(100), Duration::from_millis(500), &mut h);
    assert_eq!(h.poll_cycles, 2);
    assert_eq!(h.overruns, 1);
}

// ---- groups ----

const TS: &str = "2026-07-18T12:00:00Z";

fn reading(id: &str, value: &str, quality: Quality) -> Reading {
    Reading {
        signal_id: id.to_string(),
        name: Some(id.to_string()),
        value: json(value),
        quality,
        quality_raw: Some(
            if quality == Quality::Good {
                "0x00"
            } else {
                "0x04 path segment error"
            }
            .to_string(),
        ),
        observed_type: None,
    }
}

fn signal(name: &str, tag: &str, ty: EipType, count: Option<u32>, deadband: DeadbandSpec) -> SignalSpec {
    SignalSpec {
        name: name.to_string(),
        tag_path: tag.to_string(),
        eip_type: ty,
        array_count: count,
        scale: None,
        value_offset: None,
        deadband,
    }
}

fn group(signals: Vec<SignalSpec>) -> PollGroup {
    PollGroup {
        id: None,
        signals,
        publish_mode: PublishMode::OnChange,
        poll_interval_ms: 1000,
    }
}

fn one_signal(deadband: DeadbandSpec) -> PollGroup {
    group(vec![signal(
        "line-speed",
        "LINE_SPEED",
        EipType::Real,
        None,
        deadband,
    )])
}

fn run(
    e: &mut Engine,
    g: &PollGroup,
    mode: PublishMode,
    batch_ms: u64,
    readings: Vec<Reading>,
    now: Instant,
    h: &mut Health,
) -> usize {
    let verdicts: Vec<Vec<bool>> = g
        .signals
        .iter()
        .map(|s| match readings.iter().rev().find(|r| r.signal_id == s.tag_path) {
            Some(r) => moved(e.reference(&s.tag_path), &r.value, &s.deadband),
            None => Vec::new(),
        })
        .collect();
    let gate = Gate {
        mode,
        batch_ms,
        now,
        server_ts: TS.to_string(),
    };
    process_group(e, g, &readings, &gate, &verdicts, h).len()
}

#[test]
fn deadband_absolute_onchange_via_a_scripted_session_publishes_fewer_than_polls() {
    let g = one_signal(db(DeadbandKind::Absolute, 0.5));
    let mut h = Health::default();
    let mut e = Engine::new(at(0));
    let mut published = 0usize;
    for value in ["10.0", "10.2", "11.0"] {
        published += run(
            &mut e,
            &g,
            PublishMode::OnChange,
            0,
            vec![reading("LINE_SPEED", value, Quality::Good)],
            at(0),
            &mut h,
        );
    }
    assert_eq!(published, 2);
    assert_eq!(h.samples_good, 3);
    assert_eq!(h.samples_suppressed, 1);
    assert_eq!(h.samples_changed, 2);
}

#[test]
fn deadband_percent_and_none() {
    let g = one_signal(db(DeadbandKind::Percent, 1.0));
    let mut h = Health::default();
    let mut e = Engine::new(at(0));
    let mut poll = |e: &mut Engine, g: &PollGroup, v: &str, h: &mut Health| {
        run(
            e,
            g,
            PublishMode::OnChange,
            0,
            vec![reading("LINE_SPEED", v, Quality::Good)],
            at(0),
            h,
        )
    };
    assert_eq!(poll(&mut e, &g, "100.0", &mut h), 1);
    assert_eq!(poll(&mut e, &g, "100.9", &mut h), 0, "0.9 < 1% suppressed");
    assert_eq!(poll(&mut e, &g, "101.5", &mut h), 1, "1.5 >= 1% publishes");

    let g = one_signal(none_db());
    let mut e = Engine::new(at(0));
    assert_eq!(poll(&mut e, &g, "1.0", &mut h), 1);
    assert_eq!(poll(&mut e, &g, "1.0", &mut h), 0, "no change");
    assert_eq!(poll(&mut e, &g, "1.1", &mut h), 1);
}

#[test]
fn always_mode_publishes_every_poll_and_non_numeric_uses_any_change() {
    let g = one_signal(none_db());
    let mut h = Health::default();
    let mut e = Engine::new(at(0));
    for _ in 0..3 {
        assert_eq!(
            run(
                &mut e,
                &g,
                PublishMode::Always,
                0,
                vec![reading("LINE_SPEED", "5.0", Quality::Good)],
                at(0),
                &mut h
            ),
            1
        );
    }
    assert_eq!(h.samples_suppressed, 0);

    let g = group(vec![signal("state", "STATE", EipType::Dint, None, none_db())]);
    let mut e = Engine::new(at(0));
    for (value, n) in [("\"RUN\"", 1), ("\"RUN\"", 0), ("\"STOP\"", 1)] {
        assert_eq!(
            run(
                &mut e,
                &g,
                PublishMode::OnChange,
                0,
                vec![reading("STATE", value, Quality::Good)],
                at(0),
                &mut h
            ),
            n
        );
    }
}

#[test]
fn array_any_element_exceeds_gates_the_whole_signal() {
    let g = group(vec![signal(
        "zone-temps",
        "ZONE_TEMPS",
        EipType::Real,
        Some(3),
        db(DeadbandKind::Absolute, 0.5),
    )]);
    let mut h = Health::default();
    let mut e = Engine::new(at(0));
    for (value, n) in [
        ("[1.0, 2.0, 3.0]", 1),
        ("[1.1, 2.1, 3.1]", 0),
        ("[1.1, 2.7, 3.1]", 1),
    ] {
        assert_eq!(
            run(
                &mut e,
                &g,
                PublishMode::OnChange,
                0,
                vec![reading("ZONE_TEMPS", value, Quality::Good)],
                at(0),
                &mut h
            ),
            n
        );
    }
}

#[test]
fn a_bad_read_always_passes_the_gate_and_is_not_swallowed() {
    let g = one_signal(none_db());
    let mut h = Health::default();
    let mut e = Engine::new(at(0));
    for _ in 0..2 {
        assert_eq!(
            run(
                &mut e,
                &g,
                PublishMode::OnChange,
                0,
                vec![reading("LINE_SPEED", "null", Quality::Bad)],
                at(0),
                &mut h
            ),
            1
        );
    }
    assert_eq!(h.samples_bad, 2);
    assert_eq!(h.samples_suppressed, 0);
}

#[test]
fn an_uncertain_reading_is_tallied_and_always_passes_the_gate() {
    let g = one_signal(none_db());
    let mut h = Health::default();
    let mut e = Engine::new(at(0));
    for _ in 0..2 {
        assert_eq!(
            run(
                &mut e,
                &g,
                PublishMode::OnChange,
                0,
                vec![reading("LINE_SPEED", "null", Quality::Uncertain)],
                at(0),
                &mut h
            ),
            1
        );
    }
    assert_eq!(h.samples_uncertain, 2);
    assert_eq!(h.samples_good, 0);
    assert_eq!(h.samples_bad, 0);
    assert_eq!(h.samples_suppressed, 0);
}

#[test]
fn batch_window_buffers_reads_then_flushes_one_update() {
    let g = one_signal(none_db());
    let mut h = Health::default();
    let mut e = Engine::new(at(0));
    for (value, ms) in [("10.0", 0), ("11.0", 40)] {
        assert_eq!(
            run(
                &mut e,
                &g,
                PublishMode::Always,
                100,
                vec![reading("LINE_SPEED", value, Quality::Good)],
                at(ms),
                &mut h
            ),
            0
        );
    }
    assert!(e.take_due(100, at(50)).is_empty());
    let flush = e.take_due(100, at(100));
    assert_eq!(flush.len(), 1);
    assert_eq!(flush[0].samples.len(), 2);
    assert!(flush[0].samples[0].value.same(&json("10.0")));
    assert_eq!(flush[0].samples[0].server_ts.as_deref(), Some(TS));
}

#[test]
fn an_unchanged_reading_inside_an_open_batch_window_enqueues_one_sample_only() {
    let g = one_signal(none_db());
    let mut h = Health::default();
    let mut e = Engine::new(at(0));
    let mut poll = |e: &mut Engine, ms: u64, v: &str, h: &mut Health| {
        run(
            e,
            &g,
            PublishMode::OnChange,
            200,
            vec![reading("LINE_SPEED", v, Quality::Good)],
            at(ms),
            h,
        )
    };
    assert_eq!(poll(&mut e, 0, "10.0", &mut h), 0, "buffered, not published yet");
    assert_eq!(poll(&mut e, 50, "10.0", &mut h), 0);
    assert_eq!(poll(&mut e, 100, "10.0", &mut h), 0);
    assert_eq!(h.samples_suppressed, 2);

    let flush = e.take_due(200, at(200));
    assert_eq!(flush.len(), 1);
    assert_eq!(flush[0].samples.len(), 1, "one sample rode the window");

    assert_eq!(poll(&mut e, 250, "11.0", &mut h), 0);
    assert_eq!(poll(&mut e, 300, "12.0", &mut h), 0);
    let flush = e.take_due(200, at(450));
    assert_eq!(flush[0].samples.len(), 2);
}

#[test]
fn quality_transitions_still_bypass_the_gate_with_a_value_in_flight() {
    let g = one_signal(none_db());
    let mut h = Health::default();
    let mut e = Engine::new(at(0));
    let mut poll = |e: &mut Engine, ms: u64, v: &str, q: Quality, h: &mut Health| {
        run(
            e,
            &g,
            PublishMode::OnChange,
            200,
            vec![reading("LINE_SPEED", v, q)],
            at(ms),
            h,
        )
    };
    assert_eq!(poll(&mut e, 0, "10.0", Quality::Good, &mut h), 0);
    assert_eq!(poll(&mut e, 0, "null", Quality::Bad, &mut h), 0);
    assert_eq!(poll(&mut e, 0, "null", Quality::Bad, &mut h), 0);
    assert_eq!(poll(&mut e, 0, "10.0", Quality::Uncertain, &mut h), 0);
    assert_eq!(poll(&mut e, 0, "10.0", Quality::Good, &mut h), 0);

    let flush = e.take_due(200, at(200));
    assert_eq!(flush[0].samples.len(), 4);
    assert_eq!(h.samples_bad, 2);
    assert_eq!(h.samples_uncertain, 1);
    assert_eq!(h.samples_suppressed, 1);

    e.settle("LINE_SPEED", true);
    assert_eq!(poll(&mut e, 1000, "10.0", Quality::Good, &mut h), 0);
    assert_eq!(h.samples_suppressed, 2);
    assert!(e.take_due(200, at(5000)).is_empty());
}

#[test]
fn a_delayed_batch_flush_carries_the_read_time_server_ts_not_publish_time() {
    let g = one_signal(none_db());
    let mut h = Health::default();
    let mut e = Engine::new(at(0));
    for (value, q, ms) in [("10.0", Quality::Good, 0), ("null", Quality::Bad, 40)] {
        assert_eq!(
            run(
                &mut e,
                &g,
                PublishMode::Always,
                100,
                vec![reading("LINE_SPEED", value, q)],
                at(ms),
                &mut h
            ),
            0
        );
    }
    let flush = e.take_due(100, at(30_000));
    assert_eq!(flush.len(), 1);
    assert_eq!(flush[0].samples.len(), 2);
    let publish_time_stamp = "2031-01-01T00:00:30Z";
    for s in &flush[0].samples {
        assert_eq!(s.server_ts.as_deref(), Some(TS), "the stamp of the read survives the delay");
        assert_ne!(s.server_ts.as_deref(), Some(publish_time_stamp));
    }
}

#[test]
fn stale_accounting_counts_aged_and_never_read_signals() {
    let g = group(vec![
        signal("a", "A", EipType::Real, None, none_db()),
        signal("b", "B", EipType::Real, None, none_db()),
    ]);
    let mut h = Health::default();
    let mut e = Engine::new(at(0));
    let ids = vec!["A".to_string(), "B".to_string()];
    run(
        &mut e,
        &g,
        PublishMode::Always,
        0,
        vec![reading("A", "1.0", Quality::Good)],
        at(0),
        &mut h,
    );
    assert_eq!(e.count_stale(&ids, 60, at(30_000)), 0, "both within the window");
    assert_eq!(e.count_stale(&ids, 60, at(70_000)), 2, "A aged out, B never read");
    run(
        &mut e,
        &g,
        PublishMode::Always,
        0,
        vec![reading("A", "2.0", Quality::Good)],
        at(70_000),
        &mut h,
    );
    assert_eq!(e.count_stale(&ids, 60, at(80_000)), 1, "A fresh again, B still stale");
}

#[test]
fn a_failed_publish_lets_the_same_value_through_again() {
    let g = one_signal(none_db());
    let mut h = Health::default();
    let mut e = Engine::new(at(0));
    let poll = |e: &mut Engine, h: &mut Health| {
        run(
            e,
            &g,
            PublishMode::OnChange,
            0,
            vec![reading("LINE_SPEED", "7.0", Quality::Good)],
            at(0),
            h,
        )
    };
    assert_eq!(poll(&mut e, &mut h), 1);
    e.settle("LINE_SPEED", false);
    assert_eq!(poll(&mut e, &mut h), 1, "a failed publish is no comparison");
    e.settle("LINE_SPEED", true);
    assert_eq!(poll(&mut e, &mut h), 0);
}

// ---- frames ----

fn deadband_list(entries: &[(&str, DeadbandSpec)]) -> Vec<FieldDeadband> {
    entries
        .iter()
        .map(|(id, d)| FieldDeadband {
            signal_id: id.to_string(),
            deadband: *d,
        })
        .collect()
}

fn frame(
    e: &mut Engine,
    readings: Vec<Reading>,
    dbs: &Vec<FieldDeadband>,
    mode: PublishMode,
    sample_ms: u64,
    now: Instant,
    h: &mut Health,
) -> usize {
    let verdicts: Vec<Vec<bool>> = readings
        .iter()
        .map(|r| {
            moved(
                e.reference(&r.signal_id),
                &r.value,
                &field_deadband(dbs, &r.signal_id),
            )
        })
        .collect();
    let gate = Gate {
        mode,
        batch_ms: 0,
        now,
        server_ts: TS.to_string(),
    };
    process_frame(e, &readings, &gate, sample_ms, &verdicts, h).len()
}

#[test]
fn sample_ms_floor_throttles_the_publish_rate() {
    let dbs = deadband_list(&[("a100/0/udint", none_db())]);
    let mut h = Health::default();
    let mut e = Engine::new(at(0));
    let go = |e: &mut Engine, ms: u64, v: &str, h: &mut Health| {
        frame(
            e,
            vec![reading("a100/0/udint", v, Quality::Good)],
            &dbs,
            PublishMode::Always,
            100,
            at(ms),
            h,
        )
    };
    assert_eq!(go(&mut e, 0, "1", &mut h), 1, "first frame publishes");
    assert_eq!(go(&mut e, 50, "2", &mut h), 0, "within 100ms: throttled");
    assert_eq!(go(&mut e, 120, "3", &mut h), 1, "past the floor: publishes");
    assert_eq!(h.samples_suppressed, 1);
}

#[test]
fn deadband_gates_a_push_field_in_onchange() {
    let dbs = deadband_list(&[("a100/4/real", db(DeadbandKind::Absolute, 0.5))]);
    let mut h = Health::default();
    let mut e = Engine::new(at(0));
    let go = |e: &mut Engine, v: &str, h: &mut Health| {
        frame(
            e,
            vec![reading("a100/4/real", v, Quality::Good)],
            &dbs,
            PublishMode::OnChange,
            0,
            at(0),
            h,
        )
    };
    assert_eq!(go(&mut e, "10.0", &mut h), 1, "first publishes");
    assert_eq!(go(&mut e, "10.2", &mut h), 0, "0.2 < 0.5 suppressed");
    assert_eq!(go(&mut e, "11.0", &mut h), 1, "0.8 >= 0.5 publishes");
}

#[test]
fn a_bad_or_idle_sample_still_publishes_even_unchanged() {
    let dbs = deadband_list(&[("a100/0/bool.1", none_db())]);
    let mut h = Health::default();
    let mut e = Engine::new(at(0));
    for (value, q) in [
        ("true", Quality::Uncertain),
        ("true", Quality::Uncertain),
        ("null", Quality::Bad),
    ] {
        assert_eq!(
            frame(
                &mut e,
                vec![reading("a100/0/bool.1", value, q)],
                &dbs,
                PublishMode::OnChange,
                500,
                at(0),
                &mut h
            ),
            1
        );
    }
    assert_eq!(h.samples_bad, 1);
    assert_eq!(h.samples_suppressed, 0);
}

enum Scripted {
    Up,
    Data(&'static str),
    Lost,
}

#[test]
fn consumes_scripted_updates_from_a_mock_push_session() {
    let dbs = deadband_list(&[("a100/0/udint", none_db())]);
    let mut h = Health::default();
    let mut e = Engine::new(at(0));
    let script = [Scripted::Up, Scripted::Data("1"), Scripted::Data("1"), Scripted::Lost];
    let mut published = 0usize;
    let mut up_seen = false;
    for update in script {
        match update {
            Scripted::Up => up_seen = true,
            Scripted::Data(value) => {
                published += frame(
                    &mut e,
                    vec![reading("a100/0/udint", value, Quality::Good)],
                    &dbs,
                    PublishMode::OnChange,
                    0,
                    at(0),
                    &mut h,
                );
            }
            Scripted::Lost => break,
        }
    }
    assert!(up_seen, "the connection came up");
    assert_eq!(published, 1, "the first frame passed; the unchanged second did not");
    assert_eq!(h.samples_good, 2);
    assert_eq!(h.samples_suppressed, 1);
}

#[test]
fn the_later_of_two_deadbands_counts() {
    let dbs = deadband_list(&[
        ("x", none_db()),
        ("x", db(DeadbandKind::Absolute, 2.0)),
    ]);
    assert_eq!(field_deadband(&dbs, "x").kind, DeadbandKind::Absolute);
    assert_eq!(field_deadband(&dbs, "y").kind, DeadbandKind::AnyChange);
}

// ---- the update ----

fn field(name: &str, offset: u32, ty: EipType, bit: Option<u8>, count: Option<u32>) -> IoFieldSpec {
    IoFieldSpec {
        name: name.to_string(),
        offset,
        eip_type: ty,
        bit,
        array_count: count,
        scale: None,
        value_offset: None,
        deadband: None,
    }
}

#[test]
fn wire_shape_of_both_id_forms() {
    let spec = signal("zone-temps", "ZONE_TEMPS", EipType::Real, Some(8), none_db());
    let sample = sample_of(
        json("[1.0, 2.0]"),
        Quality::Good,
        Some("0x00".to_string()),
        Some("2026-07-18T12:00:00Z".to_string()),
    );
    let update = build_update(
        &spec.tag_path,
        &spec.name,
        spec.address_json(Some(0)),
        "ethernet-ip",
        "filler-plc",
        "127.0.0.1:44818",
        vec![sample],
    );
    assert_eq!(update.signal_id, "ZONE_TEMPS");
    assert_eq!(update.signal_name, "zone-temps");
    assert_eq!(update.signal_path, "zone-temps", "channel = name, not the id");
    assert!(update.signal_address.same(&json(
        r#"{ "tagPath": "ZONE_TEMPS", "type": "real", "arrayCount": 8, "slot": 0 }"#
    )));
    assert!(update.device.same(&json(
        r#"{ "adapter": "ethernet-ip", "instance": "filler-plc", "endpoint": "127.0.0.1:44818" }"#
    )));
    let s = &update.samples[0];
    assert!(s.value.same(&json("[1.0, 2.0]")));
    assert_eq!(s.quality, Quality::Good);
    assert_eq!(s.quality_raw.as_deref(), Some("0x00"));
    assert!(s.server_ts.is_some(), "serverTs present");

    let motor = field("motor-run", 0, EipType::Bool, Some(0), None);
    let bad = sample_of(
        Json::Null,
        Quality::Bad,
        Some("0x04 path segment error".to_string()),
        None,
    );
    let update = build_update(
        &motor.signal_id(100),
        &motor.name,
        motor.address_json(100, Some(0)),
        "ethernet-ip",
        "palletizer-io",
        "opener:44818",
        vec![bad],
    );
    assert_eq!(update.signal_id, "a100/0/bool.0");
    assert_eq!(update.signal_name, "motor-run");
    assert!(update.signal_address.same(&json(
        r#"{ "assembly": 100, "offset": 0, "type": "bool", "bit": 0, "slot": 0 }"#
    )));
    let counts = field("line-counts", 4, EipType::Udint, None, Some(7));
    assert_eq!(counts.signal_id(100), "a100/4/udint");
    assert!(counts.address_json(100, Some(0)).same(&json(
        r#"{ "assembly": 100, "offset": 4, "type": "udint", "arrayCount": 7, "slot": 0 }"#
    )));
    let s = &update.samples[0];
    assert_eq!(s.quality, Quality::Bad);
    assert!(matches!(s.value, Json::Null), "a BAD sample's value is JSON null");
}

#[test]
fn the_deadbands_of_a_connection_are_those_of_its_fields() {
    let mut speed = field("line-speed", 4, EipType::Real, None, None);
    speed.deadband = Some(db(DeadbandKind::Absolute, 0.5));
    let io = IoConfig {
        input_assembly: 100,
        input_size_bytes: 8,
        sample_ms: 0,
        input_fields: vec![
            field("din-word", 0, EipType::Udint, None, None),
            speed,
            field("motor-run", 0, EipType::Bool, Some(1), None),
        ],
        output_run: None,
        output_size_bytes: 0,
        output_fields: Vec::new(),
        rpi_ms: 20,
        o2t_rpi_ms: 20,
    };
    let dbs = deadbands(&io);
    let ids: Vec<&str> = dbs.iter().map(|d| d.signal_id.as_str()).collect();
    assert_eq!(ids, vec!["a100/0/udint", "a100/4/real", "a100/0/bool.1"]);
    assert_eq!(field_deadband(&dbs, "a100/4/real").kind, DeadbandKind::Absolute);
    assert_eq!(field_deadband(&dbs, "a100/0/udint").kind, DeadbandKind::AnyChange);
    assert_eq!(field_deadband(&dbs, "a100/0/bool.1").kind, DeadbandKind::AnyChange);
}
