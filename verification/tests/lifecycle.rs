//! The registry of running instances and the bounds of a teardown.

use ethernet_ip_adapter::clock::{Duration, Instant};
use ethernet_ip_adapter::config::{Defaults, DeviceMode, GlobalConfig, Timeouts};
use ethernet_ip_adapter::json::{Json, Number, Object};
use ethernet_ip_adapter::lifecycle::{
    remaining, stop_budget, DeviceRegistry, DeviceRuntime, Drain, Shutdown, SoleHandle, StopPass, StopReport,
    TaskEnd, STOP_BUDGET_CEILING_MS, STOP_BUDGET_FLOOR_MS,
};
use ethernet_ip_adapter::ieee::F64;
use ethernet_ip_adapter::reconnect::UnknownAdapter;
use ethernet_ip_adapter::startup::{App, LaunchRefusal, StartupLaunch};
use serde_json::Value;

fn to_json(v: &Value) -> Json {
    match v {
        Value::Null => Json::Null,
        Value::Bool(b) => Json::Bool(*b),
        Value::Number(n) => {
            if let Some(u) = n.as_u64() {
                Json::Number(Number::Unsigned(u))
            } else if let Some(i) = n.as_i64() {
                Json::Number(Number::Signed(i))
            } else {
                let f = n.as_f64().unwrap();
                Json::Number(Number::Float(F64 { bits: f.to_bits() }))
            }
        }
        Value::String(s) => Json::Text(s.clone()),
        Value::Array(items) => Json::Array(items.iter().map(to_json).collect()),
        Value::Object(map) => {
            let mut o = Object::new();
            for (k, v) in map {
                o.insert(k, to_json(v));
            }
            Json::Object(o)
        }
    }
}

fn json(text: &str) -> Json {
    to_json(&serde_json::from_str(text).expect("a JSON value"))
}

fn at(ms: u64) -> Instant {
    Instant { nanos: 1_000_000_000 + ms * 1_000_000 }
}

fn timeouts(request_timeout_ms: u64) -> Timeouts {
    Timeouts {
        connect_ms: 5_000,
        request_timeout_ms,
        reconnect_backoff_min_ms: 1_000,
        reconnect_backoff_max_ms: 30_000,
    }
}

fn global() -> GlobalConfig {
    GlobalConfig {
        timeouts: timeouts(2_000),
        defaults: Defaults {
            publish_mode: None,
            batch_ms: None,
        },
        metrics_interval_secs: 60,
        stale_signal_secs: 60,
        keepalive_probe_interval_ms: 10_000,
    }
}

/// A runtime with the ends its tasks will come to.
fn runtime(id: &str, mode: DeviceMode, raw: &str, ends: Vec<TaskEnd>) -> DeviceRuntime<u32, Vec<TaskEnd>> {
    DeviceRuntime {
        id: id.to_string(),
        mode,
        cfg: 0,
        raw: json(raw),
        rest: ends,
    }
}

fn poll(id: &str) -> DeviceRuntime<u32, Vec<TaskEnd>> {
    runtime(
        id,
        DeviceMode::Poll,
        &format!("{{\"id\": \"{id}\"}}"),
        vec![TaskEnd::Finished],
    )
}

fn stop_tasks(tasks: &[(String, Vec<TaskEnd>)]) -> StopReport {
    let mut pass = StopPass::begin(at(0), Duration::from_secs(5));
    for (_, ends) in tasks {
        for end in ends {
            pass.ended(*end);
        }
    }
    pass.report
}

#[test]
fn stop_budget_composes_the_phase1_bounds() {
    assert_eq!(stop_budget(&timeouts(2_000)), Duration::from_millis(7_500));
    assert_eq!(
        stop_budget(&timeouts(4_000)),
        Duration::from_millis(STOP_BUDGET_CEILING_MS)
    );
}

#[test]
fn stop_budget_clamps_floor_and_ceiling() {
    assert!(
        stop_budget(&timeouts(0)).nanos >= Duration::from_millis(STOP_BUDGET_FLOOR_MS).nanos,
        "the floor holds for a zero request timeout"
    );
    assert_eq!(
        stop_budget(&timeouts(60_000)),
        Duration::from_millis(STOP_BUDGET_CEILING_MS)
    );
}

#[test]
fn the_budget_of_each_rung_is_exact() {
    assert_eq!(stop_budget(&timeouts(0)), Duration::from_millis(5_501));
    assert_eq!(stop_budget(&timeouts(3_000)), Duration::from_millis(8_500));
    assert_eq!(stop_budget(&timeouts(3_500)), Duration::from_millis(9_500));
    assert_eq!(stop_budget(&timeouts(3_750)), Duration::from_millis(10_000));
    assert_eq!(
        stop_budget(&timeouts(u64::MAX)),
        Duration::from_millis(STOP_BUDGET_CEILING_MS)
    );
}

#[test]
fn stop_tasks_joins_cooperative_tasks_and_reports() {
    let mut tasks: Vec<(String, Vec<TaskEnd>)> = (0..3)
        .map(|i| (format!("plc-{i}"), vec![TaskEnd::Finished]))
        .collect();
    tasks.push(("plc-panicked".to_string(), vec![TaskEnd::Abnormal]));
    assert_eq!(
        stop_tasks(&tasks),
        StopReport {
            joined: 4,
            aborted: 0
        }
    );
}

#[test]
fn stop_tasks_aborts_stragglers_at_the_absolute_deadline() {
    let budget = Duration::from_secs(4);
    let begun = at(0);
    let pass = StopPass::begin(begun, budget);
    // The first task took a second; what is left for the second one is three.
    assert_eq!(pass.wait(at(1_000)), Duration::from_secs(3));
    // Past the deadline nothing is left.
    assert_eq!(pass.wait(at(9_000)), Duration::from_secs(0));
    let tasks = vec![
        ("plc-ok".to_string(), vec![TaskEnd::Finished]),
        ("plc-wedged".to_string(), vec![TaskEnd::Overdue]),
    ];
    assert_eq!(
        stop_tasks(&tasks),
        StopReport {
            joined: 1,
            aborted: 1
        }
    );
}

#[test]
fn shutdown_all_reaps_a_runtime_inserted_after_cancel() {
    let mut registry = DeviceRegistry::new();
    registry.set_global(global());
    registry.insert(poll("plc-1"));

    let mut shutdown = Shutdown::begin(at(0), Duration::from_secs(5));
    let mut passes = 0;
    let report = loop {
        match shutdown.next(&mut registry, at(passes * 500)) {
            Drain::Done(report) => break report,
            Drain::Stop(runtimes, budget) => {
                assert_eq!(budget, Duration::from_millis(5_000 - passes * 500));
                if passes == 0 {
                    registry.insert(poll("plc-late"));
                }
                let tasks: Vec<(String, Vec<TaskEnd>)> =
                    runtimes.into_iter().map(|rt| (rt.id, rt.rest)).collect();
                shutdown.passed(stop_tasks(&tasks));
                passes += 1;
            }
        }
    };
    assert_eq!(
        report,
        StopReport {
            joined: 2,
            aborted: 0
        },
        "the drain loop reaped the late insert as well as the original"
    );
    assert_eq!(passes, 2);
    assert!(registry.is_empty(), "the registry drains empty");
}

#[test]
fn registry_preserves_insertion_order_and_removes_by_id() {
    let mut registry = DeviceRegistry::new();
    assert!(registry.is_empty());
    for id in ["plc-a", "plc-b", "plc-c"] {
        registry.insert(poll(id));
    }
    assert_eq!(registry.ids(), vec!["plc-a", "plc-b", "plc-c"]);
    assert_eq!(
        registry
            .handles()
            .iter()
            .map(|h| h.id.clone())
            .collect::<Vec<_>>(),
        vec!["plc-a", "plc-b", "plc-c"],
        "handles() preserves the same order"
    );

    let removed = registry.remove("plc-b").expect("plc-b is live");
    assert_eq!(removed.id, "plc-b");
    assert!(registry.remove("plc-b").is_none(), "removal is idempotent");
    assert_eq!(registry.ids(), vec!["plc-a", "plc-c"], "order survives");

    let drained = registry.take_all();
    assert_eq!(drained.len(), 2);
    assert!(registry.is_empty());
    assert!(registry.take_all().is_empty(), "a second drain is a no-op");
}

#[test]
fn handle_and_sole_handle_return_single_clones() {
    let mut registry = DeviceRegistry::new();
    assert!(registry.handle("plc-a").is_none());
    assert!(matches!(registry.sole_handle(), SoleHandle::Nobody));

    registry.insert(poll("plc-a"));
    assert_eq!(registry.handle("plc-a").expect("plc-a is live").id, "plc-a");
    match registry.sole_handle() {
        SoleHandle::One(h) => assert_eq!(h.id, "plc-a"),
        _ => panic!("exactly one instance is running"),
    }
    assert!(registry.handle("ghost").is_none());

    registry.insert(poll("plc-b"));
    assert_eq!(
        registry.handle("plc-a").map(|h| h.id.clone()).as_deref(),
        Some("plc-a")
    );
    assert_eq!(
        registry.handle("plc-b").map(|h| h.id.clone()).as_deref(),
        Some("plc-b")
    );
    assert!(matches!(registry.sole_handle(), SoleHandle::Many));

    registry.remove("plc-a").expect("plc-a is live");
    match registry.sole_handle() {
        SoleHandle::One(h) => assert_eq!(h.id, "plc-b"),
        _ => panic!("the survivor is the sole instance"),
    }
    assert!(
        registry.handle("plc-a").is_none(),
        "a stopped instance stops routing"
    );

    registry.take_all();
    assert!(matches!(registry.sole_handle(), SoleHandle::Nobody));
}

#[test]
fn registry_exposes_the_generation_views() {
    let mut registry = DeviceRegistry::new();
    registry.set_global(global());
    assert_eq!(registry.global().timeouts.request_timeout_ms, 2_000);
    assert!(!registry.all_push(), "an empty registry is not all-push");

    let raw = "{\"id\": \"io-1\", \"mode\": \"push\"}";
    registry.insert(runtime("io-1", DeviceMode::Push, raw, Vec::new()));
    assert!(registry.all_push());
    let running = registry.snapshot_running();
    assert_eq!(running.len(), 1);
    assert_eq!(running[0].id, "io-1");
    assert!(running[0].raw.same(&json(raw)));

    registry.insert(poll("plc-1"));
    assert!(!registry.all_push(), "one poll instance can service repoll");
    assert_eq!(registry.snapshot_running().len(), 2);
}

fn unknown(id: &str) -> LaunchRefusal {
    LaunchRefusal::Adapter(UnknownAdapter {
        instance: id.to_string(),
        adapter: "etherne-tip".to_string(),
    })
}

#[test]
fn a_bad_adapter_costs_its_instance_alone() {
    let mut start = StartupLaunch::new();
    assert!(start.took("plc-1", Ok(poll("plc-1"))));
    assert!(start.took("plc-2", Err(unknown("plc-2"))), "the next one is launched all the same");
    assert!(start.took("plc-3", Ok(poll("plc-3"))));
    start.finished();
    let ids: Vec<&str> = start.launched.iter().map(|rt| rt.id.as_str()).collect();
    assert_eq!(ids, vec!["plc-1", "plc-3"]);
    assert_eq!(start.skipped.len(), 1);
    assert_eq!(start.skipped[0].id, "plc-2");
    assert_eq!(
        start.skipped[0].reason,
        "device `plc-2`: unknown adapter `etherne-tip` (expected `ethernet-ip` or `sim`)"
    );
    assert!(start.fatal.is_none());
}

#[test]
fn a_start_fails_on_a_construction_failure_and_when_nothing_runs() {
    let mut start = StartupLaunch::new();
    assert!(start.took("plc-1", Ok(poll("plc-1"))));
    let refused = LaunchRefusal::Other("no facade for `plc-2`".to_string());
    assert!(!start.took("plc-2", Err(refused)), "nothing is launched after it");
    start.finished();
    assert_eq!(start.fatal.as_deref(), Some("no facade for `plc-2`"));
    assert_eq!(start.launched.len(), 1, "what runs is still handed on to be stopped");

    let mut start: StartupLaunch<u32, Vec<TaskEnd>> = StartupLaunch::new();
    assert!(start.took("plc-1", Err(unknown("plc-1"))));
    start.finished();
    assert_eq!(start.fatal.as_deref(), Some("no configured device could be launched"));
}

fn app(doc: &str, outcomes: Vec<Result<u32, String>>) -> App<u32, Vec<TaskEnd>> {
    match App::new(&json(doc), Ok(global()), outcomes) {
        Ok(app) => app,
        Err(e) => panic!("{e}"),
    }
}

const THREE: &str = "{\"component\": {\"global\": {}, \"instances\": [{\"id\": \"plc-1\"}, {\"id\": \"plc-2\"}, {\"id\": \"plc-3\"}]}}";

#[test]
fn stop_on_startup_error_tears_down_what_already_started() {
    let mut app = app(THREE, vec![Ok(1), Ok(2), Ok(3)]);
    let err = app
        .start_instances(
            vec![poll("plc-1"), poll("plc-2")],
            Some("no facade for `plc-3`".to_string()),
        )
        .expect_err("the startup error still propagates");
    assert!(err.contains("plc-3"), "the original error is unchanged: {err}");
    assert!(!app.coordinator.started, "no change is allowed after a failed start");

    let mut shutdown = Shutdown::begin(at(0), Duration::from_secs(5));
    match shutdown.next(&mut app.registry, at(0)) {
        Drain::Stop(runtimes, _) => {
            let ids: Vec<String> = runtimes.iter().map(|rt| rt.id.clone()).collect();
            assert_eq!(ids, vec!["plc-1", "plc-2"], "every launched instance is stopped");
            let tasks: Vec<(String, Vec<TaskEnd>)> =
                runtimes.into_iter().map(|rt| (rt.id, rt.rest)).collect();
            shutdown.passed(stop_tasks(&tasks));
        }
        Drain::Done(_) => panic!("two instances are running"),
    }
    assert!(app.registry.is_empty(), "the registry drained");
    match shutdown.next(&mut app.registry, at(10)) {
        Drain::Done(report) => assert_eq!(
            report,
            StopReport {
                joined: 2,
                aborted: 0
            }
        ),
        Drain::Stop(..) => panic!("nothing is left"),
    }
}

#[test]
fn stop_on_startup_error_passes_success_through_untouched() {
    let mut app = app(THREE, vec![Ok(1), Ok(2), Ok(3)]);
    assert!(app.start_instances(vec![poll("plc-1")], None).is_ok());
    assert!(app.coordinator.started);
    assert_eq!(app.registry.ids(), vec!["plc-1"], "the registry is untouched");
}

#[test]
fn a_start_needs_a_component_block_and_an_instance() {
    let doc = json(THREE);
    let refused = |global: Result<GlobalConfig, String>, outcomes: Vec<Result<u32, String>>| {
        let r: Result<App<u32, Vec<TaskEnd>>, String> = App::new(&doc, global, outcomes);
        match r {
            Ok(_) => panic!("the start must be refused"),
            Err(e) => e,
        }
    };
    let ok = || vec![Ok(1), Ok(2), Ok(3)];
    assert_eq!(
        refused(Err("bad timeouts".to_string()), ok()),
        "invalid component.global: bad timeouts"
    );
    let none = (0..3).map(|_| Err("bad".to_string())).collect();
    assert_eq!(
        refused(Ok(global()), none),
        "no valid devices in component.instances[]"
    );
    let some = app(THREE, vec![Ok(1), Err("bad".to_string()), Ok(3)]);
    assert_eq!(some.devices.len(), 2);
    assert_eq!(some.skipped.len(), 1);
    assert_eq!(some.skipped[0].id, "plc-2");
    assert!(some.registry.is_empty());
}

#[test]
fn a_budget_past_the_usual_ceiling_is_taken_as_it_is() {
    let budget = Duration::from_secs(3_600);
    let shutdown = Shutdown::begin(at(250), budget);
    assert_eq!(remaining(shutdown.deadline, at(250)), budget);
    assert_eq!(remaining(shutdown.deadline, at(3_600_250)), Duration::from_secs(0));
    let longest = Duration {
        nanos: u128::from(u64::MAX) * 1_000_000_000 + 999_999_999,
    };
    assert_eq!(StopPass::begin(at(1), longest).wait(at(1)), longest);
}

#[test]
fn a_second_teardown_stops_nothing() {
    let mut registry = DeviceRegistry::new();
    registry.insert(poll("plc-1"));
    let mut first = Shutdown::begin(at(0), Duration::from_secs(5));
    match first.next(&mut registry, at(0)) {
        Drain::Stop(runtimes, _) => {
            let tasks: Vec<(String, Vec<TaskEnd>)> =
                runtimes.into_iter().map(|rt| (rt.id, rt.rest)).collect();
            first.passed(stop_tasks(&tasks));
        }
        Drain::Done(_) => panic!("an instance is running"),
    }
    let done = |shutdown: &Shutdown, registry: &mut DeviceRegistry<u32, Vec<TaskEnd>>| {
        match shutdown.next(registry, at(10)) {
            Drain::Done(report) => report,
            Drain::Stop(..) => panic!("nothing is left"),
        }
    };
    let report = done(&first, &mut registry);
    assert_eq!((report.joined, report.aborted), (1, 0));
    let second = Shutdown::begin(at(20), Duration::from_secs(5));
    let report = done(&second, &mut registry);
    assert_eq!(report, StopReport::default(), "nothing was inserted in between");
}
