//! Planning and carrying out a change of the configuration.

use ethernet_ip_adapter::clock::Duration;
use ethernet_ip_adapter::config::{Defaults, DeviceMode, GlobalConfig, Timeouts};
use ethernet_ip_adapter::ieee::F64;
use ethernet_ip_adapter::json::{Json, Number, Object};
use ethernet_ip_adapter::lifecycle::{stop_budget, DeviceRegistry, DeviceRuntime, RunningInstance};
use ethernet_ip_adapter::reload::{
    candidate_instances, non_instance_view, parse_instances, plan, ReloadPlan, ReloadPlanError,
};
use ethernet_ip_adapter::transaction::{
    Applied, ApplyError, PriorGeneration, ReloadCoordinator, ReloadTransaction,
    NOTIFY_BUDGET_MS,
};
use serde_json::Value;

fn to_json(v: &Value) -> Json {
    match v {
        Value::Null => Json::Null,
        Value::Bool(b) => Json::Bool(*b),
        Value::Number(n) => {
            if let Some(u) = n.as_u64() {
                Json::Number(Number::Unsigned(u))
            } else if let Some(i) = n.as_i64() {
                Json::Number(Number::Signed(i))
            } else {
                let f = n.as_f64().unwrap();
                Json::Number(Number::Float(F64 { bits: f.to_bits() }))
            }
        }
        Value::String(s) => Json::Text(s.clone()),
        Value::Array(items) => Json::Array(items.iter().map(to_json).collect()),
        Value::Object(map) => {
            let mut o = Object::new();
            for (k, v) in map {
                o.insert(k, to_json(v));
            }
            Json::Object(o)
        }
    }
}

fn json(text: &str) -> Json {
    to_json(&serde_json::from_str(text).expect("a JSON value"))
}

#[derive(Clone, Debug, PartialEq)]
struct Cfg {
    id: String,
    push: bool,
    interval: u64,
}

fn poll_instance(id: &str, interval: u64) -> String {
    format!(
        "{{\"id\": \"{id}\", \"adapter\": \"sim\", \"connection\": {{\"endpoint\": \"127.0.0.1:44818\", \"slot\": 0}}, \
         \"pollGroups\": [{{\"pollIntervalMs\": {interval}, \"signals\": [{{\"name\": \"line-speed\", \
         \"tagPath\": \"LINE_SPEED\", \"type\": \"real\"}}]}}]}}"
    )
}

fn push_instance(id: &str) -> String {
    format!("{{\"id\": \"{id}\", \"adapter\": \"sim\", \"mode\": \"push\", \"connection\": {{\"endpoint\": \"opener:44818\"}}}}")
}

const BROKEN: &str = "{\"id\": \"broken\", \"adapter\": \"sim\", \"connection\": {\"endpoint\": \"x:1\"}, \"pollGroups\": [], \"nonsense\": true}";

const NAMELESS: &str = "{\"adapter\": \"sim\", \"connection\": {\"endpoint\": \"x:1\"}}";

fn document(global: &str, instances: Vec<String>) -> Value {
    let list = instances.join(", ");
    let text = format!(
        "{{\"topic\": {{\"includeRoot\": false}}, \"component\": {{\"global\": {global}, \"instances\": [{list}]}}}}"
    );
    serde_json::from_str(&text).expect("a document")
}

fn parse_global(doc: &Value) -> Result<GlobalConfig, String> {
    let timeout = &doc["component"]["global"]["timeouts"]["requestTimeoutMs"];
    let request_timeout_ms = match timeout {
        Value::Null => 2_000,
        Value::Number(n) => n.as_u64().unwrap(),
        other => return Err(format!("invalid component.global: {other} is not a number")),
    };
    Ok(GlobalConfig {
        timeouts: Timeouts {
            connect_ms: 5_000,
            request_timeout_ms,
            reconnect_backoff_min_ms: 1_000,
            reconnect_backoff_max_ms: 30_000,
        },
        defaults: Defaults {
            publish_mode: None,
            batch_ms: None,
        },
        metrics_interval_secs: 60,
        stale_signal_secs: 60,
        keepalive_probe_interval_ms: 10_000,
    })
}

fn text(j: &Json, key: &str) -> Option<String> {
    match j.get(key) {
        Some(Json::Text(s)) => Some(s.clone()),
        _ => None,
    }
}

fn parse_device(raw: &Json) -> Result<Cfg, String> {
    if raw.get("nonsense").is_some() {
        return Err("unknown field `nonsense`".to_string());
    }
    let interval = match raw.get("pollGroups") {
        Some(Json::Array(groups)) => match groups[0].get("pollIntervalMs") {
            Some(Json::Number(Number::Unsigned(n))) => *n,
            _ => 0,
        },
        _ => 0,
    };
    Ok(Cfg {
        id: text(raw, "id").expect("a candidate has an id"),
        push: text(raw, "mode").as_deref() == Some("push"),
        interval,
    })
}

fn outcomes(raw: &Json) -> Vec<Result<Cfg, String>> {
    candidate_instances(raw).iter().map(|c| parse_device(&c.raw)).collect()
}

fn planned(
    running: &Vec<RunningInstance>,
    bound: &Value,
    after: &Value,
) -> Result<ReloadPlan<Cfg>, ReloadPlanError> {
    let raw = to_json(after);
    let parsed = outcomes(&raw);
    plan(
        running,
        &non_instance_view(&to_json(bound)),
        &raw,
        parse_global(after),
        parsed,
    )
}

fn plan_of(before: &Value, after: &Value) -> Result<ReloadPlan<Cfg>, ReloadPlanError> {
    planned(&candidate_instances(&to_json(before)), before, after)
}

fn refused(r: Result<ReloadPlan<Cfg>, ReloadPlanError>) -> ReloadPlanError {
    match r {
        Ok(_) => panic!("the candidate must be refused"),
        Err(e) => e,
    }
}

fn starts(p: &ReloadPlan<Cfg>) -> Vec<String> {
    p.start.iter().map(|s| s.id.clone()).collect()
}

// ---- the plan ----

#[test]
fn plan_keeps_unchanged_starts_added_stops_removed_restarts_changed() {
    let before = document(
        "{}",
        vec![
            poll_instance("keep-me", 500),
            poll_instance("change-me", 500),
            poll_instance("remove-me", 500),
        ],
    );
    let after = document(
        "{}",
        vec![
            poll_instance("keep-me", 500),
            poll_instance("change-me", 250),
            poll_instance("add-me", 500),
        ],
    );
    let p = plan_of(&before, &after).unwrap();
    assert!(!p.restart_all, "only instances changed");
    assert_eq!(p.keep, vec!["keep-me"]);
    assert_eq!(p.stop, vec!["change-me", "remove-me"]);
    assert_eq!(starts(&p), vec!["change-me", "add-me"]);
    assert_eq!(
        p.removed,
        vec!["remove-me"],
        "only the instance with no successor gets its alarm cleared"
    );
    assert!(p.skipped.is_empty());
}

#[test]
fn plan_restarts_all_on_a_global_change() {
    let list = || vec![poll_instance("plc-1", 500), poll_instance("plc-2", 500)];
    let before = document("{}", list());
    let after = document("{\"timeouts\": {\"requestTimeoutMs\": 3000}}", list());
    let p = plan_of(&before, &after).unwrap();
    assert!(p.restart_all);
    assert!(p.keep.is_empty(), "nothing survives a global change");
    assert_eq!(p.stop, vec!["plc-1", "plc-2"]);
    assert_eq!(starts(&p), vec!["plc-1", "plc-2"]);
    assert!(p.removed.is_empty(), "a restart is not a removal");
    assert_eq!(p.global.timeouts.request_timeout_ms, 3000);
}

#[test]
fn plan_restarts_all_on_a_non_instance_change() {
    let before = document("{}", vec![poll_instance("plc-1", 500)]);
    let mut after = before.clone();
    after["topic"]["includeRoot"] = Value::Bool(true);
    let p = plan_of(&before, &after).unwrap();
    assert!(p.restart_all, "a topic change restarts every instance");
    assert_eq!(p.stop, vec!["plc-1"]);
    assert_eq!(p.start.len(), 1);
}

#[test]
fn plan_object_key_order_does_not_restart() {
    let before = document("{}", vec![poll_instance("plc-1", 500)]);
    // Written out by hand, since a parsed map may sort its keys.
    let mut signal = Object::new();
    signal.insert("type", Json::Text("real".to_string()));
    signal.insert("tagPath", Json::Text("LINE_SPEED".to_string()));
    signal.insert("name", Json::Text("line-speed".to_string()));
    let mut group = Object::new();
    group.insert("signals", Json::Array(vec![Json::Object(signal)]));
    group.insert("pollIntervalMs", Json::Number(Number::Unsigned(500)));
    let mut connection = Object::new();
    connection.insert("slot", Json::Number(Number::Unsigned(0)));
    connection.insert("endpoint", Json::Text("127.0.0.1:44818".to_string()));
    let mut instance = Object::new();
    instance.insert("pollGroups", Json::Array(vec![Json::Object(group)]));
    instance.insert("connection", Json::Object(connection));
    instance.insert("adapter", Json::Text("sim".to_string()));
    instance.insert("id", Json::Text("plc-1".to_string()));
    let mut component = Object::new();
    component.insert("instances", Json::Array(vec![Json::Object(instance)]));
    component.insert("global", Json::Object(Object::new()));
    let mut topic = Object::new();
    topic.insert("includeRoot", Json::Bool(false));
    let mut doc = Object::new();
    doc.insert("component", Json::Object(component));
    doc.insert("topic", Json::Object(topic));
    let reordered = Json::Object(doc);

    let parsed = outcomes(&reordered);
    let p = plan(
        &candidate_instances(&to_json(&before)),
        &non_instance_view(&to_json(&before)),
        &reordered,
        parse_global(&before),
        parsed,
    )
    .unwrap();
    assert!(!p.restart_all, "key order is not a configuration change");
    assert_eq!(p.keep, vec!["plc-1"]);
    assert!(p.stop.is_empty());
    assert!(p.start.is_empty());
}

#[test]
fn plan_skips_malformed_and_reports_them() {
    let before = document("{}", vec![poll_instance("plc-1", 500)]);
    let after = document(
        "{}",
        vec![poll_instance("plc-1", 500), BROKEN.to_string()],
    );
    let p = plan_of(&before, &after).unwrap();
    assert_eq!(p.keep, vec!["plc-1"]);
    assert!(p.start.is_empty(), "the malformed instance never starts");
    assert_eq!(p.skipped.len(), 1);
    assert_eq!(p.skipped[0].id, "broken");
    assert!(
        p.skipped[0].reason.contains("nonsense"),
        "the parse error names the offending key: {}",
        p.skipped[0].reason
    );
}

#[test]
fn plan_rejects_zero_valid_instances() {
    let before = document("{}", vec![poll_instance("plc-1", 500)]);
    let all_bad = document("{}", vec![BROKEN.to_string()]);
    assert!(matches!(
        refused(plan_of(&before, &all_bad)),
        ReloadPlanError::NoValidInstances
    ));
    let none = document("{}", vec![]);
    assert!(matches!(
        refused(plan_of(&before, &none)),
        ReloadPlanError::NoValidInstances
    ));
}

#[test]
fn plan_rejects_invalid_global() {
    let before = document("{}", vec![poll_instance("plc-1", 500)]);
    let after = document(
        "{\"timeouts\": {\"requestTimeoutMs\": \"soon\"}}",
        vec![poll_instance("plc-1", 500)],
    );
    match refused(plan_of(&before, &after)) {
        ReloadPlanError::InvalidGlobal(e) => assert!(
            e.contains("component.global"),
            "the error names the section: {e}"
        ),
        other => panic!("expected InvalidGlobal, got {other:?}"),
    }
}

#[test]
fn plan_dedupes_duplicate_ids_first_wins() {
    let before = document("{}", vec![poll_instance("plc-1", 500)]);
    let after = document(
        "{}",
        vec![poll_instance("plc-1", 500), poll_instance("plc-1", 250)],
    );
    let p = plan_of(&before, &after).unwrap();
    assert_eq!(p.keep, vec!["plc-1"], "the FIRST declaration wins");
    assert!(p.stop.is_empty(), "the duplicate does not restart anything");
    assert!(p.start.is_empty());
}

#[test]
fn candidate_instances_skips_id_less_entries_and_a_missing_list() {
    let doc = document("{}", vec![NAMELESS.to_string(), poll_instance("plc-1", 500)]);
    assert_eq!(
        candidate_instances(&to_json(&doc))
            .iter()
            .map(|c| c.id.clone())
            .collect::<Vec<_>>(),
        vec!["plc-1"]
    );
    assert!(candidate_instances(&json("{\"topic\": {}}")).is_empty());
    assert!(candidate_instances(&json("{\"component\": {}}")).is_empty());
}

#[test]
fn startup_and_reload_share_one_deduped_instance_set() {
    let doc = document(
        "{}",
        vec![
            poll_instance("plc-1", 500),
            NAMELESS.to_string(),
            poll_instance("plc-1", 250),
            BROKEN.to_string(),
            poll_instance("plc-2", 500),
        ],
    );
    let raw = to_json(&doc);
    let parsed = outcomes(&raw);
    let (startup, skipped) = parse_instances(&raw, parsed);
    assert_eq!(
        startup.iter().map(|p| p.id.clone()).collect::<Vec<_>>(),
        vec!["plc-1", "plc-2"],
        "the duplicate id is launched once, and the id-less entry not at all"
    );
    assert_eq!(startup[0].cfg.interval, 500, "first declaration wins");
    assert_eq!(skipped.len(), 1, "the malformed entry is skipped, not fatal");
    assert_eq!(skipped[0].id, "broken");

    let running: Vec<RunningInstance> = startup
        .iter()
        .map(|p| RunningInstance {
            id: p.id.clone(),
            raw: p.raw.copy(),
        })
        .collect();
    let p = planned(&running, &doc, &doc).unwrap();
    assert_eq!(p.keep, vec!["plc-1", "plc-2"]);
    assert!(p.stop.is_empty() && p.start.is_empty());
}

#[test]
fn plan_starts_a_previously_skipped_instance_whose_raw_is_unchanged() {
    let doc = document(
        "{}",
        vec![poll_instance("plc-1", 500), poll_instance("plc-2", 500)],
    );
    let running = vec![RunningInstance {
        id: "plc-1".to_string(),
        raw: json(&poll_instance("plc-1", 500)),
    }];
    let p = planned(&running, &doc, &doc).unwrap();
    assert!(!p.restart_all);
    assert_eq!(p.keep, vec!["plc-1"]);
    assert_eq!(
        starts(&p),
        vec!["plc-2"],
        "the instance that is not running starts, unchanged raw or not"
    );
    assert!(p.stop.is_empty());
}

#[test]
fn a_plan_splits_what_runs_and_what_is_to_run() {
    let before = document(
        "{}",
        vec![
            poll_instance("kept", 500),
            poll_instance("changed", 500),
            poll_instance("broken", 500),
            poll_instance("gone", 500),
        ],
    );
    let after = document(
        "{}",
        vec![
            poll_instance("changed", 250),
            "{\"id\": \"broken\", \"nonsense\": 1}".to_string(),
            poll_instance("added", 500),
            poll_instance("kept", 500),
        ],
    );
    let p = plan_of(&before, &after).unwrap();
    let mut running: Vec<String> = p.keep.iter().chain(p.stop.iter()).cloned().collect();
    running.sort();
    assert_eq!(running, vec!["broken", "changed", "gone", "kept"], "each exactly once");
    let mut to_run: Vec<String> = p.keep.iter().cloned().chain(starts(&p)).collect();
    to_run.sort();
    assert_eq!(to_run, vec!["added", "changed", "kept"]);
    let launched = starts(&p);
    let left: Vec<String> = p.stop.iter().filter(|id| !launched.contains(id)).cloned().collect();
    assert_eq!(p.removed, left);
    assert_eq!(p.removed, vec!["broken", "gone"]);
    assert!(!p.restart_all);
    assert_eq!(p.keep, vec!["kept"]);
}

// ---- the transaction ----

/// What a runtime carries: a mark of its own, by which it is recognised again, and whether its task
/// ignores a stop.
#[derive(Debug, PartialEq)]
struct Live {
    mark: u64,
    paused: bool,
    wedged: bool,
}

struct Rig {
    registry: DeviceRegistry<Cfg, Live>,
    coordinator: ReloadCoordinator,
    order: Vec<(&'static str, String)>,
    /// The documents and request timeouts the launches were bound to.
    bound: Vec<(Json, u64)>,
    fail: Vec<String>,
    fail_all: bool,
    stalled: bool,
    shutting_down: bool,
    elapsed: Duration,
    next_mark: u64,
    availability: Vec<bool>,
    told: Option<Json>,
}

impl Rig {
    fn running(doc: &Value) -> Rig {
        let raw = to_json(doc);
        let global = parse_global(doc).unwrap();
        let mut registry = DeviceRegistry::new();
        registry.set_global(global);
        let mut coordinator = ReloadCoordinator::new(PriorGeneration::of(&raw, global));
        coordinator.started = true;
        let mut rig = Rig {
            registry,
            coordinator,
            order: Vec::new(),
            bound: Vec::new(),
            fail: Vec::new(),
            fail_all: false,
            stalled: false,
            shutting_down: false,
            elapsed: Duration::from_millis(0),
            next_mark: 0,
            availability: Vec::new(),
            told: None,
        };
        for c in candidate_instances(&raw) {
            let cfg = parse_device(&c.raw).unwrap();
            let rt = rig.runtime(&cfg, &c.raw);
            rig.registry.insert(rt);
        }
        rig
    }

    fn runtime(&mut self, cfg: &Cfg, raw: &Json) -> DeviceRuntime<Cfg, Live> {
        self.next_mark += 1;
        DeviceRuntime {
            id: cfg.id.clone(),
            mode: if cfg.push { DeviceMode::Push } else { DeviceMode::Poll },
            cfg: cfg.clone(),
            raw: raw.copy(),
            rest: Live {
                mark: self.next_mark,
                paused: false,
                wedged: false,
            },
        }
    }

    fn launch(&mut self, cfg: &Cfg, raw: &Json, bound: &Json) -> Result<DeviceRuntime<Cfg, Live>, String> {
        if self.fail_all || self.fail.contains(&cfg.id) {
            return Err(format!("launch refused for `{}`", cfg.id));
        }
        self.order.push(("launch", cfg.id.clone()));
        self.bound
            .push((bound.copy(), self.registry.global().timeouts.request_timeout_ms));
        Ok(self.runtime(cfg, raw))
    }

    fn prepare(&self, after: &Value) -> Result<ReloadTransaction<Cfg>, ApplyError> {
        let raw = to_json(after);
        let parsed = outcomes(&raw);
        self.coordinator.prepare_configuration_apply(
            &self.registry,
            self.shutting_down,
            raw,
            parse_global(after),
            parsed,
        )
    }

    fn spend(&mut self, d: Duration) {
        self.elapsed = Duration {
            nanos: self.elapsed.nanos + d.nanos,
        };
    }

    fn stop(&mut self, runtimes: Vec<(String, Live)>, budget: Duration) {
        let mut wedged = false;
        for (id, rest) in runtimes {
            if rest.wedged {
                wedged = true;
            } else {
                self.order.push(("stop", id));
            }
        }
        if wedged {
            self.spend(budget);
        }
    }

    fn notify(&mut self) -> bool {
        if self.stalled {
            self.spend(Duration::from_millis(NOTIFY_BUDGET_MS));
        }
        !self.stalled
    }

    fn commit(&mut self, tx: &mut ReloadTransaction<Cfg>) -> Result<(), ApplyError> {
        let detached = tx.detach(&mut self.registry, self.shutting_down)?;
        let stopping = detached.runtimes.into_iter().map(|s| (s.id, s.rest)).collect();
        self.stop(stopping, detached.budget);
        for id in tx.stopped() {
            if self.notify() {
                self.order.push(("clear", id));
            }
        }
        tx.publish(&mut self.registry);
        loop {
            let (cfg, raw) = match tx.next_launch() {
                Some(p) => (p.cfg.clone(), p.raw.copy()),
                None => break,
            };
            let bound = tx.snapshot.copy();
            let outcome = self.launch(&cfg, &raw, &bound);
            tx.launched(&mut self.registry, outcome);
        }
        let Applied {
            all_push,
            notice,
            prior,
        } = tx.finish(&self.registry)?;
        self.availability.push(all_push);
        self.coordinator.prior = prior;
        if self.notify() {
            assert_eq!(notice.name, "config-applied");
            self.told = notice.context;
        }
        Ok(())
    }

    fn rollback(&mut self, tx: &mut ReloadTransaction<Cfg>) -> Result<(), ApplyError> {
        let withdrawn = tx.withdraw(&mut self.registry);
        let stopping = withdrawn.runtimes.into_iter().map(|rt| (rt.id, rt.rest)).collect();
        self.stop(stopping, withdrawn.budget);
        let mut restoration = tx.restore(&mut self.registry);
        loop {
            let (cfg, raw, bound) = match restoration.next() {
                Some((p, global, snapshot)) => {
                    assert_eq!(
                        global.timeouts.request_timeout_ms,
                        self.registry.global().timeouts.request_timeout_ms
                    );
                    (p.cfg.clone(), p.raw.copy(), snapshot.copy())
                }
                None => break,
            };
            let up = self.launch(&cfg, &raw, &bound).ok().map(|rt| (rt.mode, rt.rest));
            restoration.relaunched(&mut self.registry, up);
        }
        restoration.outcome()
    }

    fn told_list(&self, key: &str) -> Json {
        self.told
            .as_ref()
            .and_then(|t| t.get(key))
            .map(|v| v.copy())
            .unwrap_or_else(|| panic!("{key} is told"))
    }
}

fn two(interval: u64) -> Vec<String> {
    vec![poll_instance("plc-1", 500), poll_instance("plc-2", interval)]
}

const SHORT: &str = "{\"timeouts\": {\"requestTimeoutMs\": 1500}}";

fn code(r: Result<ReloadTransaction<Cfg>, ApplyError>) -> (String, String) {
    match r {
        Ok(_) => panic!("the candidate must be refused"),
        Err(e) => (e.code(), e.message()),
    }
}

#[test]
fn commit_stops_then_swaps_global_then_launches_in_order() {
    let before = document(
        "{}",
        vec![poll_instance("keep-me", 500), poll_instance("change-me", 500)],
    );
    let after = document(
        SHORT,
        vec![poll_instance("keep-me", 500), poll_instance("change-me", 250)],
    );
    let mut rig = Rig::running(&before);
    let mut tx = rig.prepare(&after).expect("the candidate prepares");
    rig.commit(&mut tx).expect("the commit succeeds");
    assert_eq!(rig.registry.ids(), vec!["keep-me", "change-me"]);
    assert_eq!(rig.registry.global().timeouts.request_timeout_ms, 1500);
    let order: Vec<(&str, &str)> = rig.order.iter().map(|(k, i)| (*k, i.as_str())).collect();
    assert_eq!(
        order,
        vec![
            ("stop", "keep-me"),
            ("stop", "change-me"),
            ("launch", "keep-me"),
            ("launch", "change-me"),
        ],
        "every replaced instance stopped before any successor launched"
    );
    assert_eq!(rig.bound.len(), 2);
    for (snapshot, timeout) in &rig.bound {
        assert!(snapshot.same(&to_json(&after)), "bound to the candidate");
        assert_eq!(*timeout, 1500);
    }
}

#[test]
fn a_commit_makes_the_candidate_run() {
    let before = document(
        "{}",
        vec![
            poll_instance("kept", 500),
            poll_instance("changed", 500),
            poll_instance("gone", 500),
        ],
    );
    let after = document(
        "{}",
        vec![
            poll_instance("added", 500),
            poll_instance("changed", 250),
            poll_instance("kept", 500),
        ],
    );
    let mut rig = Rig::running(&before);
    let mut tx = rig.prepare(&after).unwrap();
    rig.commit(&mut tx).unwrap();
    assert_eq!(rig.registry.devices.len(), 3);
    for c in candidate_instances(&to_json(&after)) {
        let rt = rig.registry.handle(&c.id).expect("it runs");
        assert!(rt.raw.same(&c.raw), "{} runs from the candidate", c.id);
    }
}

#[test]
fn commit_keeps_untouched_runtimes_by_identity() {
    let before = document(
        "{}",
        vec![poll_instance("paused-one", 500), poll_instance("other", 500)],
    );
    let after = document(
        "{}",
        vec![poll_instance("paused-one", 500), poll_instance("other", 250)],
    );
    let mut rig = Rig::running(&before);
    rig.registry.devices[0].rest.paused = true;
    let mark = rig.registry.handle("paused-one").unwrap().rest.mark;
    let mut tx = rig.prepare(&after).unwrap();
    rig.commit(&mut tx).unwrap();
    let kept = &rig.registry.handle("paused-one").unwrap().rest;
    assert_eq!(kept.mark, mark, "the untouched instance keeps its live runtime");
    assert!(kept.paused, "pause survives on an instance the change did not touch");
    assert_eq!(rig.bound.len(), 1, "only the changed instance was relaunched");
}

#[test]
fn commit_refuses_when_shutting_down() {
    let before = document("{}", vec![poll_instance("plc-1", 500)]);
    let after = document("{}", vec![poll_instance("plc-1", 250)]);
    let mut rig = Rig::running(&before);
    let mut tx = rig.prepare(&after).expect("prepare happens before the shutdown signal");
    rig.shutting_down = true;
    let err = rig.commit(&mut tx).expect_err("the commit is refused");
    assert_eq!(err.code(), "SHUTTING_DOWN");
    assert_eq!(rig.registry.ids(), vec!["plc-1"], "the registry is untouched");
    assert!(rig.bound.is_empty(), "nothing was launched");
    rig.rollback(&mut tx).expect("rollback after a no-op commit");
    assert_eq!(rig.registry.ids(), vec!["plc-1"]);
    assert_eq!(rig.registry.handle("plc-1").unwrap().rest.mark, 1);
}

#[test]
fn commit_is_bounded_when_a_stopping_task_wedges() {
    let before = document("{}", vec![poll_instance("wedged", 500)]);
    let after = document("{}", vec![poll_instance("wedged", 250)]);
    let mut rig = Rig::running(&before);
    rig.registry.devices[0].rest.wedged = true;
    let budget = stop_budget(&rig.registry.global().timeouts);
    let mut tx = rig.prepare(&after).unwrap();
    rig.commit(&mut tx).expect("a wedged stop is not a commit failure");
    assert_eq!(rig.elapsed, budget, "the stop ran out the whole budget and no more");
    assert_eq!(rig.registry.ids(), vec!["wedged"], "the successor is running");
    assert!(!rig.registry.devices[0].rest.wedged);
}

#[test]
fn commit_clears_the_unreachable_alarm_for_removed_instances() {
    let before = document(
        "{}",
        vec![poll_instance("stays", 500), poll_instance("goes", 500)],
    );
    let after = document("{}", vec![poll_instance("stays", 500)]);
    let mut rig = Rig::running(&before);
    let mut tx = rig.prepare(&after).unwrap();
    rig.commit(&mut tx).unwrap();
    let order: Vec<(&str, &str)> = rig.order.iter().map(|(k, i)| (*k, i.as_str())).collect();
    assert_eq!(
        order,
        vec![("stop", "goes"), ("clear", "goes")],
        "the alarm is cleared only after the instance is stopped"
    );
    assert_eq!(rig.registry.ids(), vec!["stays"]);
}

#[test]
fn commit_fails_and_rollback_restores_the_prior_set_when_nothing_runs() {
    let before = document("{}", two(500));
    let after = document(SHORT, two(500));
    let mut rig = Rig::running(&before);
    let mut tx = rig.prepare(&after).unwrap();
    rig.fail_all = true;
    let err = rig.commit(&mut tx).expect_err("nothing runs after the commit");
    assert_eq!(err.code(), "NO_RUNNING_INSTANCES");
    assert!(rig.registry.is_empty(), "the failed commit left nothing running");

    rig.fail_all = false;
    rig.rollback(&mut tx).expect("the prior generation is restored");
    assert_eq!(rig.registry.ids(), vec!["plc-1", "plc-2"], "the prior instance set is back");
    assert_eq!(rig.registry.global().timeouts.request_timeout_ms, 2_000);
    assert_eq!(rig.bound.len(), 2);
    for (snapshot, timeout) in &rig.bound {
        assert!(snapshot.same(&to_json(&before)), "bound to the prior document");
        assert_eq!(*timeout, 2_000);
    }
}

#[test]
fn a_rollback_reports_what_it_could_not_restore() {
    let before = document("{}", two(500));
    let after = document(SHORT, two(500));
    let mut rig = Rig::running(&before);
    let mut tx = rig.prepare(&after).unwrap();
    rig.fail_all = true;
    rig.commit(&mut tx).expect_err("nothing runs");
    rig.fail_all = false;
    rig.fail.push("plc-1".to_string());
    let err = rig.rollback(&mut tx).expect_err("one of them could not be restored");
    assert_eq!(err.code(), "ROLLBACK_RELAUNCH_FAILED");
    assert!(err.message().contains("plc-1") && !err.message().contains("plc-2"));
    assert_eq!(rig.registry.ids(), vec!["plc-2"], "the other one runs");
}

#[test]
fn a_rollback_takes_out_what_the_change_launched() {
    let before = document("{}", two(500));
    let after = document("{}", vec![poll_instance("plc-1", 500), poll_instance("plc-2", 250), poll_instance("plc-3", 500)]);
    let mut rig = Rig::running(&before);
    let kept = rig.registry.handle("plc-1").unwrap().rest.mark;
    let mut tx = rig.prepare(&after).unwrap();
    rig.commit(&mut tx).unwrap();
    assert_eq!(rig.registry.ids(), vec!["plc-1", "plc-2", "plc-3"]);
    rig.rollback(&mut tx).unwrap();
    assert_eq!(rig.registry.ids(), vec!["plc-1", "plc-2"]);
    assert_eq!(rig.registry.handle("plc-1").unwrap().rest.mark, kept);
    let back = rig.registry.handle("plc-2").unwrap();
    assert!(back.raw.same(&json(&poll_instance("plc-2", 500))));
    assert_eq!(back.cfg.interval, 500, "with the configuration it ran with");
}

#[test]
fn commit_emits_config_applied_and_recomputes_repoll_availability() {
    let before = document(
        "{}",
        vec![poll_instance("stays", 500), poll_instance("goes", 500)],
    );
    let after = document(
        "{}",
        vec![
            poll_instance("stays", 500),
            push_instance("io-1"),
            poll_instance("wont-start", 500),
            BROKEN.to_string(),
        ],
    );
    let mut rig = Rig::running(&before);
    let mut tx = rig.prepare(&after).unwrap();
    rig.fail.push("wont-start".to_string());
    rig.commit(&mut tx).unwrap();
    assert!(rig.told_list("started").same(&json("[\"io-1\"]")));
    assert!(rig.told_list("stopped").same(&json("[\"goes\"]")));
    assert!(rig.told_list("kept").same(&json("[\"stays\"]")));
    assert!(rig.told_list("restartAll").same(&json("false")));
    assert!(
        rig.told_list("skipped").same(&json(
            "[[\"broken\", \"unknown field `nonsense`\"], [\"wont-start\", \"launch refused for `wont-start`\"]]"
        )),
        "the parse-time skip and the launch failure, each with its reason"
    );
    assert_eq!(rig.registry.ids(), vec!["stays", "io-1"]);
    assert_eq!(rig.availability, vec![false], "a poll instance still runs");
}

#[test]
fn an_all_push_generation_has_nothing_to_poll_again() {
    let before = document("{}", vec![poll_instance("plc-1", 500)]);
    let after = document("{}", vec![push_instance("io-1")]);
    let mut rig = Rig::running(&before);
    let mut tx = rig.prepare(&after).unwrap();
    rig.commit(&mut tx).unwrap();
    assert_eq!(rig.availability, vec![true]);
}

#[test]
fn a_second_reload_diffs_against_the_generation_the_first_one_applied() {
    let before = document("{}", two(500));
    let after = document(SHORT, two(500));
    let mut rig = Rig::running(&before);
    let mut first = rig.prepare(&after).unwrap();
    rig.commit(&mut first).expect("the first change applies");
    assert_eq!(rig.bound.len(), 2);

    rig.bound.clear();
    let mut second = rig.prepare(&after).unwrap();
    rig.commit(&mut second).expect("the second change applies");
    assert!(rig.told_list("restartAll").same(&json("false")));
    assert!(rig.told_list("kept").same(&json("[\"plc-1\", \"plc-2\"]")));
    assert!(rig.told_list("started").same(&json("[]")));
    assert!(rig.told_list("stopped").same(&json("[]")));
    assert!(rig.bound.is_empty(), "an unchanged candidate restarts nothing");
    assert_eq!(rig.registry.ids(), vec!["plc-1", "plc-2"]);
}

#[test]
fn commit_is_not_stalled_by_a_wedged_notification() {
    let before = document(
        "{}",
        vec![poll_instance("stays", 500), poll_instance("goes", 500)],
    );
    let after = document("{}", vec![poll_instance("stays", 500)]);
    let mut rig = Rig::running(&before);
    rig.stalled = true;
    let mut tx = rig.prepare(&after).unwrap();
    rig.commit(&mut tx).expect("a wedged broker is not a commit failure");
    let budget = Duration::from_millis(NOTIFY_BUDGET_MS).nanos;
    assert!(rig.elapsed.nanos >= budget);
    assert!(rig.elapsed.nanos <= 2 * budget + Duration::from_secs(1).nanos);
    assert_eq!(rig.registry.ids(), vec!["stays"], "the swap itself completed");
}

#[test]
fn prepare_rejects_an_invalid_candidate_and_keeps_the_running_generation() {
    let before = document("{}", vec![poll_instance("plc-1", 500)]);
    let rig = Rig::running(&before);
    let (c, message) = code(rig.prepare(&document("{}", vec![BROKEN.to_string()])));
    assert_eq!(c, "NO_VALID_INSTANCES");
    assert!(message.contains("keeping the running configuration"));

    let bad_global = document(
        "{\"timeouts\": {\"requestTimeoutMs\": \"soon\"}}",
        vec![poll_instance("plc-1", 500)],
    );
    let (c, message) = code(rig.prepare(&bad_global));
    assert_eq!(c, "INVALID_GLOBAL");
    assert!(message.contains("component.global"));
    assert_eq!(rig.registry.ids(), vec!["plc-1"]);
    assert!(rig.bound.is_empty());
}

#[test]
fn prepare_rejects_before_started_and_is_io_free() {
    let before = document("{}", vec![poll_instance("plc-1", 500)]);
    let mut rig = Rig::running(&before);
    rig.coordinator.started = false;
    assert_eq!(code(rig.prepare(&before)).0, "STARTING");

    rig.coordinator.started = true;
    rig.shutting_down = true;
    assert_eq!(code(rig.prepare(&before)).0, "SHUTTING_DOWN");

    rig.shutting_down = false;
    let big = document(
        "{}",
        (0..100).map(|i| poll_instance(&format!("plc-{i}"), 500)).collect(),
    );
    let started = std::time::Instant::now();
    assert!(rig.prepare(&big).is_ok());
    assert!(started.elapsed() < std::time::Duration::from_secs(1), "it performs no I/O");
    assert_eq!(rig.registry.ids(), vec!["plc-1"]);
}
