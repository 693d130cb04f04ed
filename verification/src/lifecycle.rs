//! The device registry and the bounds of a teardown: cancel, close, join under one budget, flush.

use vstd::prelude::*;

use crate::clock::{Duration, Instant};
use crate::config::{DeviceMode, GlobalConfig, Timeouts};
use crate::json::{Json, JsonV};
use crate::text::texts;

verus! {

/// The longest the close of a push session may take, in milliseconds.
pub const PUSH_CLOSE_HANDOFF_CAP_MS: u64 = 5_000;

/// The longest the close of a poll session may take once its last request is answered, in milliseconds.
pub const SESSION_CLOSE_BOUND_MS: u64 = 2_000;

/// Slack over the bounds of the protocol, in milliseconds.
pub const STOP_GRACE_MS: u64 = 500;

/// The least a teardown is given, in milliseconds.
pub const STOP_BUDGET_FLOOR_MS: u64 = 1_000;

/// The most a teardown is given, in milliseconds.
pub const STOP_BUDGET_CEILING_MS: u64 = 10_000;

/// The budget of a whole teardown in milliseconds: one request in flight, the slower of the two closes,
/// and the slack, within the floor and the ceiling.
pub open spec fn budget_ms(request_timeout_ms: u64) -> int {
    let in_flight = if request_timeout_ms == 0 {
        1
    } else {
        request_timeout_ms as int
    };
    let close = if in_flight + SESSION_CLOSE_BOUND_MS >= PUSH_CLOSE_HANDOFF_CAP_MS {
        in_flight + SESSION_CLOSE_BOUND_MS
    } else {
        PUSH_CLOSE_HANDOFF_CAP_MS as int
    };
    let whole = in_flight + close + STOP_GRACE_MS;
    if whole < STOP_BUDGET_FLOOR_MS {
        STOP_BUDGET_FLOOR_MS as int
    } else if whole > STOP_BUDGET_CEILING_MS {
        STOP_BUDGET_CEILING_MS as int
    } else {
        whole
    }
}

/// The budget of a whole teardown.
pub fn stop_budget(timeouts: &Timeouts) -> (r: Duration)
    ensures
        r.nanos == budget_ms(timeouts.request_timeout_ms) * 1_000_000,
{
    let in_flight: u128 = if timeouts.request_timeout_ms == 0 {
        1
    } else {
        timeouts.request_timeout_ms as u128
    };
    let poll_close: u128 = in_flight + SESSION_CLOSE_BOUND_MS as u128;
    let close: u128 = if poll_close >= PUSH_CLOSE_HANDOFF_CAP_MS as u128 {
        poll_close
    } else {
        PUSH_CLOSE_HANDOFF_CAP_MS as u128
    };
    let whole: u128 = in_flight + close + STOP_GRACE_MS as u128;
    let ms: u64 = if whole < STOP_BUDGET_FLOOR_MS as u128 {
        STOP_BUDGET_FLOOR_MS
    } else if whole > STOP_BUDGET_CEILING_MS as u128 {
        STOP_BUDGET_CEILING_MS
    } else {
        whole as u64
    };
    Duration::from_millis(ms)
}

/// A teardown is always given between one and ten seconds.
pub proof fn a_teardown_is_bounded(request_timeout_ms: u64)
    ensures
        STOP_BUDGET_FLOOR_MS <= budget_ms(request_timeout_ms) <= STOP_BUDGET_CEILING_MS,
{
}

/// A teardown that is not cut off by the ceiling outlasts one request in flight and either close.
pub proof fn a_teardown_outlasts_its_parts(request_timeout_ms: u64)
    requires
        budget_ms(request_timeout_ms) < STOP_BUDGET_CEILING_MS,
    ensures
        budget_ms(request_timeout_ms) >= request_timeout_ms + PUSH_CLOSE_HANDOFF_CAP_MS,
        budget_ms(request_timeout_ms) >= 2 * request_timeout_ms + SESSION_CLOSE_BOUND_MS,
{
}

/// A longer request timeout never shortens the teardown.
pub proof fn a_longer_timeout_is_no_shorter_teardown(a: u64, b: u64)
    requires
        a <= b,
    ensures
        budget_ms(a) <= budget_ms(b),
{
}

// ---- the registry ----

/// One running instance: what its commands are routed by, and what it is stopped with.
#[derive(Debug)]
pub struct DeviceRuntime<C, T> {
    pub id: String,
    pub mode: DeviceMode,
    /// Its configuration.
    pub cfg: C,
    /// The configuration subtree it was launched from.
    pub raw: Json,
    /// Its control channel, its cancellation and its tasks.
    pub rest: T,
}

/// The running instances, in the order they were launched.
#[derive(Debug)]
pub struct DeviceRegistry<C, T> {
    pub devices: Vec<DeviceRuntime<C, T>>,
    pub global: Option<GlobalConfig>,
}

/// What an unaddressed request is routed to.
pub enum SoleHandle<'a, C, T> {
    /// Exactly one instance is running: it answers.
    One(&'a DeviceRuntime<C, T>),
    /// No instance is running.
    Nobody,
    /// Several are running, so the request has to name one.
    Many,
}

/// The ids of a list of instances.
pub open spec fn ids_of<C, T>(devices: Seq<DeviceRuntime<C, T>>) -> Seq<Seq<char>> {
    Seq::new(devices.len(), |i: int| devices[i].id@)
}

/// No id occurs twice.
pub open spec fn distinct_ids<C, T>(devices: Seq<DeviceRuntime<C, T>>) -> bool {
    forall|i: int, j: int|
        0 <= i < j < devices.len() ==> (#[trigger] devices[i]).id@ != (#[trigger] devices[j]).id@
}

/// The first instance of an id, by its place.
pub open spec fn first_of<C, T>(devices: Seq<DeviceRuntime<C, T>>, id: Seq<char>) -> Option<int> {
    ids_of(devices).index_of_first(id)
}

impl<C, T> DeviceRegistry<C, T> {
    /// A registry without instances.
    pub fn new() -> (r: DeviceRegistry<C, T>)
        ensures
            r.devices@.len() == 0,
            r.global is None,
    {
        DeviceRegistry { devices: Vec::new(), global: None }
    }

    /// Add a launched instance behind the others.
    pub fn insert(&mut self, rt: DeviceRuntime<C, T>)
        ensures
            final(self).devices@ == old(self).devices@.push(rt),
            final(self).global == old(self).global,
    {
        self.devices.push(rt);
    }

    fn position(&self, id: &str) -> (r: Option<usize>)
        ensures
            match r {
                Some(i) => i < self.devices@.len() && first_of(self.devices@, id@) == Some(i as int)
                    && self.devices@[i as int].id@ == id@,
                None => first_of(self.devices@, id@) is None,
            },
    {
        let wanted = id.to_owned();
        let ghost ids = ids_of(self.devices@);
        proof {
            ids.index_of_first_ensures(id@);
        }
        let mut i: usize = 0;
        while i < self.devices.len()
            invariant
                i <= self.devices@.len(),
                wanted@ == id@,
                ids == ids_of(self.devices@),
                forall|j: int| 0 <= j < i ==> ids[j] != id@,
                match ids.index_of_first(id@) {
                    Some(index) => {
                        &&& 0 <= index < ids.len()
                        &&& ids[index] == id@
                        &&& forall|j: int| 0 <= j < index < ids.len() ==> ids[j] != id@
                    },
                    None => !ids.contains(id@),
                },
            decreases self.devices@.len() - i,
        {
            if self.devices[i].id == wanted {
                assert(ids[i as int] == id@);
                return Some(i);
            }
            i = i + 1;
        }
        None
    }

    /// Take an instance out; the others keep their order.
    pub fn remove(&mut self, id: &str) -> (r: Option<DeviceRuntime<C, T>>)
        ensures
            final(self).global == old(self).global,
            match first_of(old(self).devices@, id@) {
                Some(i) => r == Some(old(self).devices@[i]) && final(self).devices@ == old(
                    self,
                ).devices@.remove(i),
                None => r is None && final(self).devices@ == old(self).devices@,
            },
    {
        match self.position(id) {
            Some(i) => Some(self.devices.remove(i)),
            None => None,
        }
    }

    /// Take every instance out.
    pub fn take_all(&mut self) -> (r: Vec<DeviceRuntime<C, T>>)
        ensures
            r@ == old(self).devices@,
            final(self).devices@.len() == 0,
            final(self).global == old(self).global,
    {
        let mut out: Vec<DeviceRuntime<C, T>> = Vec::new();
        std::mem::swap(&mut out, &mut self.devices);
        out
    }

    /// The running instances, in order.
    pub fn handles(&self) -> (r: &Vec<DeviceRuntime<C, T>>)
        ensures
            *r == self.devices,
    {
        &self.devices
    }

    /// The instance a request addresses.
    pub fn handle(&self, id: &str) -> (r: Option<&DeviceRuntime<C, T>>)
        ensures
            match first_of(self.devices@, id@) {
                Some(i) => r == Some(&self.devices@[i]),
                None => r is None,
            },
    {
        match self.position(id) {
            Some(i) => Some(&self.devices[i]),
            None => None,
        }
    }

    /// The instance an unaddressed request is routed to, or why there is none.
    pub fn sole_handle(&self) -> (r: SoleHandle<'_, C, T>)
        ensures
            match r {
                SoleHandle::One(rt) => self.devices@.len() == 1 && *rt == self.devices@[0],
                SoleHandle::Nobody => self.devices@.len() == 0,
                SoleHandle::Many => self.devices@.len() > 1,
            },
    {
        let n: usize = self.devices.len();
        if n == 0 {
            SoleHandle::Nobody
        } else if n == 1 {
            SoleHandle::One(&self.devices[0])
        } else {
            SoleHandle::Many
        }
    }

    /// The ids of the running instances, in order.
    pub fn ids(&self) -> (r: Vec<String>)
        ensures
            texts(r@) == ids_of(self.devices@),
    {
        let mut out: Vec<String> = Vec::new();
        let mut i: usize = 0;
        while i < self.devices.len()
            invariant
                i <= self.devices@.len(),
                out@.len() == i,
                forall|j: int| 0 <= j < i ==> (#[trigger] out@[j])@ == self.devices@[j].id@,
            decreases self.devices@.len() - i,
        {
            out.push(self.devices[i].id.clone());
            i = i + 1;
        }
        assert(texts(out@) =~= ids_of(self.devices@));
        out
    }

    /// Publish the configuration of the generation that runs.
    pub fn set_global(&mut self, g: GlobalConfig)
        ensures
            final(self).global == Some(g),
            final(self).devices == old(self).devices,
    {
        self.global = Some(g);
    }

    /// The configuration of the generation that runs.
    pub fn global(&self) -> (r: GlobalConfig)
        requires
            self.global is Some,
        ensures
            self.global == Some(r),
    {
        self.global.unwrap()
    }

    /// What runs: each id with the subtree it was launched from.
    pub fn snapshot_running(&self) -> (r: Vec<RunningInstance>)
        ensures
            running(r@) == running_of(self.devices@),
    {
        let mut out: Vec<RunningInstance> = Vec::new();
        let mut i: usize = 0;
        while i < self.devices.len()
            invariant
                i <= self.devices@.len(),
                out@.len() == i,
                forall|j: int|
                    0 <= j < i ==> (#[trigger] out@[j]).id@ == self.devices@[j].id@ && out@[j].raw@
                        == self.devices@[j].raw@,
            decreases self.devices@.len() - i,
        {
            out.push(
                RunningInstance {
                    id: self.devices[i].id.clone(),
                    raw: self.devices[i].raw.copy(),
                },
            );
            i = i + 1;
        }
        assert(running(out@) =~= running_of(self.devices@));
        out
    }

    /// Whether something runs and all of it is push.
    pub fn all_push(&self) -> (r: bool)
        ensures
            r == (self.devices@.len() > 0 && forall|i: int|
                0 <= i < self.devices@.len() ==> (#[trigger] self.devices@[i]).mode
                    == DeviceMode::Push),
    {
        if self.devices.len() == 0 {
            return false;
        }
        let mut i: usize = 0;
        while i < self.devices.len()
            invariant
                i <= self.devices@.len(),
                self.devices@.len() > 0,
                forall|j: int|
                    0 <= j < i ==> (#[trigger] self.devices@[j]).mode == DeviceMode::Push,
            decreases self.devices@.len() - i,
        {
            if self.devices[i].mode != DeviceMode::Push {
                assert(self.devices@[i as int].mode != DeviceMode::Push);
                return false;
            }
            i = i + 1;
        }
        true
    }

    /// Whether nothing runs.
    pub fn is_empty(&self) -> (r: bool)
        ensures
            r == (self.devices@.len() == 0),
    {
        self.devices.len() == 0
    }
}

/// An instance that runs, with the subtree it was launched from.
#[derive(Debug)]
pub struct RunningInstance {
    pub id: String,
    pub raw: Json,
}

/// What runs, by meaning.
pub open spec fn running(s: Seq<RunningInstance>) -> Seq<(Seq<char>, JsonV)> {
    Seq::new(s.len(), |i: int| (s[i].id@, s[i].raw@))
}

/// What runs, by meaning.
pub open spec fn running_of<C, T>(devices: Seq<DeviceRuntime<C, T>>) -> Seq<(Seq<char>, JsonV)> {
    Seq::new(devices.len(), |i: int| (devices[i].id@, devices[i].raw@))
}

/// What runs, each with the configuration it was launched with.
pub open spec fn configured_of<C, T>(devices: Seq<DeviceRuntime<C, T>>) -> Seq<(Seq<char>, C, JsonV)> {
    Seq::new(devices.len(), |i: int| (devices[i].id@, devices[i].cfg, devices[i].raw@))
}

/// An instance that is added under a new id keeps the ids distinct.
pub proof fn a_new_id_keeps_the_ids_distinct<C, T>(devices: Seq<DeviceRuntime<C, T>>, rt: DeviceRuntime<C, T>)
    requires
        distinct_ids(devices),
        first_of(devices, rt.id@) is None,
    ensures
        distinct_ids(devices.push(rt)),
{
    let ids = ids_of(devices);
    ids.index_of_first_ensures(rt.id@);
    let all = devices.push(rt);
    assert forall|i: int, j: int| 0 <= i < j < all.len() implies (#[trigger] all[i]).id@
        != (#[trigger] all[j]).id@ by {
        if j == devices.len() {
            assert(ids[i] == devices[i].id@);
            assert(ids.contains(ids[i]));
        } else {
            assert(devices[i].id@ != devices[j].id@);
        }
    }
}

/// Once an instance was taken out no request reaches it, and every other one is found as before.
pub proof fn a_removed_instance_is_gone<C, T>(
    devices: Seq<DeviceRuntime<C, T>>,
    id: Seq<char>,
    other: Seq<char>,
)
    requires
        distinct_ids(devices),
        first_of(devices, id) is Some,
    ensures
        first_of(devices.remove(first_of(devices, id)->0), id) is None,
        other != id ==> (first_of(devices, other) is Some <==> first_of(
            devices.remove(first_of(devices, id)->0),
            other,
        ) is Some),
        other != id && first_of(devices, other) is Some ==> devices.remove(
            first_of(devices, id)->0,
        )[first_of(devices.remove(first_of(devices, id)->0), other)->0] == devices[first_of(
            devices,
            other,
        )->0],
        distinct_ids(devices.remove(first_of(devices, id)->0)),
{
    let ids = ids_of(devices);
    ids.index_of_first_ensures(id);
    ids.index_of_first_ensures(other);
    let at = first_of(devices, id)->0;
    let rest = devices.remove(at);
    let rest_ids = ids_of(rest);
    rest_ids.index_of_first_ensures(id);
    rest_ids.index_of_first_ensures(other);
    assert forall|k: int| 0 <= k < rest.len() implies #[trigger] rest[k] == devices[if k < at {
        k
    } else {
        k + 1
    }] by {}
    assert forall|i: int, j: int| 0 <= i < j < rest.len() implies (#[trigger] rest[i]).id@
        != (#[trigger] rest[j]).id@ by {
        let a = if i < at {
            i
        } else {
            i + 1
        };
        let b = if j < at {
            j
        } else {
            j + 1
        };
        assert(devices[a].id@ != devices[b].id@);
    }
    if rest_ids.contains(id) {
        let k = choose|k: int| 0 <= k < rest_ids.len() && rest_ids[k] == id;
        let a = if k < at {
            k
        } else {
            k + 1
        };
        assert(rest[k] == devices[a]);
        if a < at {
            assert(devices[a].id@ != devices[at].id@);
        } else {
            assert(devices[at].id@ != devices[a].id@);
        }
        assert(false);
    }
    if other != id {
        if ids.contains(other) {
            let a = choose|a: int| 0 <= a < ids.len() && ids[a] == other;
            let k = if a < at {
                a
            } else {
                a - 1
            };
            assert(a != at);
            assert(rest[k] == devices[a]);
            assert(rest_ids[k] == other);
        }
        if rest_ids.contains(other) {
            let k = choose|k: int| 0 <= k < rest_ids.len() && rest_ids[k] == other;
            let a = if k < at {
                k
            } else {
                k + 1
            };
            assert(rest[k] == devices[a]);
            assert(ids[a] == other);
        }
        if ids.contains(other) {
            let a = first_of(devices, other)->0;
            let k = first_of(rest, other)->0;
            let b = if k < at {
                k
            } else {
                k + 1
            };
            assert(rest[k] == devices[b]);
            assert(devices[b].id@ == devices[a].id@);
            assert(a == b) by {
                if a < b {
                    assert(devices[a].id@ != devices[b].id@);
                } else if b < a {
                    assert(devices[b].id@ != devices[a].id@);
                }
            }
        }
    }
}

// ---- stopping ----

/// How a task ended.
#[derive(Clone, Copy, Debug, PartialEq, Eq, Structural)]
pub enum TaskEnd {
    /// By itself.
    Finished,
    /// By itself, but not cleanly.
    Abnormal,
    /// Not within the budget: it was aborted.
    Overdue,
}

/// What a teardown came to.
#[derive(Clone, Copy, Debug, PartialEq, Eq, Structural)]
pub struct StopReport {
    /// Tasks that ended by themselves within the budget.
    pub joined: usize,
    /// Tasks that were still running when it expired, and were aborted.
    pub aborted: usize,
}

impl Default for StopReport {
    fn default() -> (r: StopReport)
        ensures
            r.joined == 0,
            r.aborted == 0,
    {
        StopReport { joined: 0, aborted: 0 }
    }
}

/// `a + b`, at most `usize::MAX`.
pub open spec fn together(a: usize, b: usize) -> usize {
    if a + b <= usize::MAX {
        (a + b) as usize
    } else {
        usize::MAX
    }
}

impl StopReport {
    pub open spec fn counted(self, end: TaskEnd) -> StopReport {
        match end {
            TaskEnd::Overdue => StopReport { aborted: together(self.aborted, 1), ..self },
            _ => StopReport { joined: together(self.joined, 1), ..self },
        }
    }

    /// Count one task. A task that ended by panicking is not running any more, so it counts as joined.
    pub fn count(&mut self, end: TaskEnd)
        ensures
            *final(self) == old(self).counted(end),
    {
        match end {
            TaskEnd::Overdue => {
                self.aborted = self.aborted.saturating_add(1);
            },
            _ => {
                self.joined = self.joined.saturating_add(1);
            },
        }
    }

    pub open spec fn plus(self, pass: StopReport) -> StopReport {
        StopReport {
            joined: together(self.joined, pass.joined),
            aborted: together(self.aborted, pass.aborted),
        }
    }
}

/// What is left of a budget that runs out at `deadline` nanoseconds on the clock.
pub open spec fn left_of(deadline: u128, now: Instant) -> int {
    if deadline >= now.nanos {
        deadline - now.nanos
    } else {
        0
    }
}

/// What is left of a budget that runs out at `deadline` nanoseconds on the clock.
pub fn remaining(deadline: u128, now: Instant) -> (r: Duration)
    ensures
        r.nanos == left_of(deadline, now),
{
    let t: u128 = now.nanos as u128;
    if deadline >= t {
        Duration { nanos: deadline - t }
    } else {
        Duration { nanos: 0 }
    }
}

/// The stopping of a set of tasks under one absolute deadline: the whole set costs at most the budget,
/// not the budget for each task.
#[derive(Debug)]
pub struct StopPass {
    pub deadline: u128,
    pub report: StopReport,
}

impl StopPass {
    /// Begin to stop tasks that have been told to end.
    pub fn begin(now: Instant, budget: Duration) -> (r: StopPass)
        requires
            now.nanos + budget.nanos <= u128::MAX,
        ensures
            r.deadline == now.nanos + budget.nanos,
            r.report == (StopReport { joined: 0, aborted: 0 }),
    {
        StopPass {
            deadline: now.nanos as u128 + budget.nanos,
            report: StopReport { joined: 0, aborted: 0 },
        }
    }

    /// How long the next task is waited for. One that is still running then is aborted.
    pub fn wait(&self, now: Instant) -> (r: Duration)
        ensures
            r.nanos == left_of(self.deadline, now),
    {
        remaining(self.deadline, now)
    }

    /// The next task has ended, or was aborted.
    pub fn ended(&mut self, end: TaskEnd)
        ensures
            *final(self) == (StopPass { report: old(self).report.counted(end), ..*old(self) }),
    {
        self.report.count(end);
    }
}

/// A teardown of everything, under one deadline for all its passes.
#[derive(Debug)]
pub struct Shutdown {
    pub deadline: u128,
    pub report: StopReport,
}

/// What a teardown does next.
pub enum Drain<C, T> {
    /// Nothing is left.
    Done(StopReport),
    /// Cancel these, and join or abort their tasks within that time.
    Stop(Vec<DeviceRuntime<C, T>>, Duration),
}

impl Shutdown {
    /// Begin a teardown. The root is cancelled before anything is drained.
    pub fn begin(now: Instant, budget: Duration) -> (r: Shutdown)
        requires
            now.nanos + budget.nanos <= u128::MAX,
        ensures
            r.deadline == now.nanos + budget.nanos,
            r.report == (StopReport { joined: 0, aborted: 0 }),
    {
        Shutdown {
            deadline: now.nanos as u128 + budget.nanos,
            report: StopReport { joined: 0, aborted: 0 },
        }
    }

    /// Drain the registry once more. What was launched while the last pass ran is stopped by the next
    /// one; only an empty registry ends the teardown.
    pub fn next<C, T>(&self, registry: &mut DeviceRegistry<C, T>, now: Instant) -> (r: Drain<C, T>)
        ensures
            final(registry).devices@.len() == 0,
            final(registry).global == old(registry).global,
            match r {
                Drain::Done(report) => old(registry).devices@.len() == 0 && report == self.report,
                Drain::Stop(runtimes, budget) => {
                    &&& runtimes@ == old(registry).devices@
                    &&& runtimes@.len() > 0
                    &&& budget.nanos == left_of(self.deadline, now)
                },
            },
    {
        let runtimes = registry.take_all();
        if runtimes.len() == 0 {
            Drain::Done(self.report)
        } else {
            Drain::Stop(runtimes, remaining(self.deadline, now))
        }
    }

    /// A pass is over.
    pub fn passed(&mut self, pass: StopReport)
        ensures
            *final(self) == (Shutdown { report: old(self).report.plus(pass), ..*old(self) }),
    {
        self.report = StopReport {
            joined: self.report.joined.saturating_add(pass.joined),
            aborted: self.report.aborted.saturating_add(pass.aborted),
        };
    }
}

// ---- what a whole teardown comes to ----

/// One task being stopped: when its turn came, how long it was waited for, and how it ended.
pub struct TaskStop {
    pub at: Instant,
    pub waited: nat,
    pub end: TaskEnd,
}

/// One pass of a teardown: when the registry was drained, what it held, how each of its tasks was
/// stopped, and what was inserted into the registry meanwhile.
pub struct TeardownPass<C, T> {
    pub at: Instant,
    pub drained: Seq<DeviceRuntime<C, T>>,
    pub stops: Seq<TaskStop>,
    pub late: Seq<DeviceRuntime<C, T>>,
}

/// How many tasks a list of instances has, when `tasks` tells it of one.
pub open spec fn tasks_of<C, T>(devices: Seq<DeviceRuntime<C, T>>, tasks: spec_fn(T) -> nat) -> nat
    decreases devices.len(),
{
    if devices.len() == 0 {
        0
    } else {
        tasks_of(devices.drop_last(), tasks) + tasks(devices.last().rest)
    }
}

/// The report of one pass.
pub open spec fn pass_report(stops: Seq<TaskStop>) -> StopReport
    decreases stops.len(),
{
    if stops.len() == 0 {
        StopReport { joined: 0, aborted: 0 }
    } else {
        pass_report(stops.drop_last()).counted(stops.last().end)
    }
}

/// How long the tasks of one pass were waited for together.
pub open spec fn pass_waited(stops: Seq<TaskStop>) -> nat
    decreases stops.len(),
{
    if stops.len() == 0 {
        0
    } else {
        pass_waited(stops.drop_last()) + stops.last().waited
    }
}

/// When a pass that began at `at` was over.
pub open spec fn pass_over(at: Instant, stops: Seq<TaskStop>) -> int {
    if stops.len() == 0 {
        at.nanos as int
    } else {
        stops.last().at.nanos + stops.last().waited
    }
}

/// A pass that stops one task after the other and waits for none past its deadline.
pub open spec fn pass_runs(at: Instant, deadline: int, stops: Seq<TaskStop>) -> bool
    decreases stops.len(),
{
    stops.len() > 0 ==> {
        &&& pass_runs(at, deadline, stops.drop_last())
        &&& stops.last().at.nanos >= pass_over(at, stops.drop_last())
        &&& stops.last().waited <= left_of(deadline as u128, stops.last().at)
    }
}

/// What the registry holds after the passes, when it held `devices` before the first.
pub open spec fn still_held<C, T>(
    devices: Seq<DeviceRuntime<C, T>>,
    passes: Seq<TeardownPass<C, T>>,
) -> Seq<DeviceRuntime<C, T>> {
    if passes.len() == 0 {
        devices
    } else {
        passes.last().late
    }
}

/// When the passes of a teardown that began at `begun` were over.
pub open spec fn teardown_over<C, T>(begun: Instant, passes: Seq<TeardownPass<C, T>>) -> int {
    if passes.len() == 0 {
        begun.nanos as int
    } else {
        pass_over(passes.last().at, passes.last().stops)
    }
}

/// The passes of a teardown that began at `begun` with that deadline and found `devices` running: each
/// drains what the registry holds, as long as it holds anything, and stops every task of it.
pub open spec fn teardown_runs<C, T>(
    begun: Instant,
    deadline: u128,
    devices: Seq<DeviceRuntime<C, T>>,
    tasks: spec_fn(T) -> nat,
    passes: Seq<TeardownPass<C, T>>,
) -> bool
    decreases passes.len(),
{
    passes.len() > 0 ==> {
        let before = passes.drop_last();
        let p = passes.last();
        &&& teardown_runs(begun, deadline, devices, tasks, before)
        &&& p.at.nanos >= teardown_over(begun, before)
        &&& p.drained == still_held(devices, before)
        &&& p.drained.len() > 0
        &&& p.stops.len() == tasks_of(p.drained, tasks)
        &&& pass_runs(p.at, p.at.nanos + left_of(deadline, p.at), p.stops)
    }
}

/// The report a teardown ends with.
pub open spec fn teardown_report<C, T>(passes: Seq<TeardownPass<C, T>>) -> StopReport
    decreases passes.len(),
{
    if passes.len() == 0 {
        StopReport { joined: 0, aborted: 0 }
    } else {
        teardown_report(passes.drop_last()).plus(pass_report(passes.last().stops))
    }
}

/// How long all tasks of a teardown were waited for together.
pub open spec fn teardown_waited<C, T>(passes: Seq<TeardownPass<C, T>>) -> nat
    decreases passes.len(),
{
    if passes.len() == 0 {
        0
    } else {
        teardown_waited(passes.drop_last()) + pass_waited(passes.last().stops)
    }
}

/// How many tasks the instances have that were inserted while the passes ran.
pub open spec fn late_tasks<C, T>(passes: Seq<TeardownPass<C, T>>, tasks: spec_fn(T) -> nat) -> nat
    decreases passes.len(),
{
    if passes.len() == 0 {
        0
    } else {
        late_tasks(passes.drop_last(), tasks) + tasks_of(passes.last().late, tasks)
    }
}

/// How many tasks of a pass were aborted.
pub open spec fn overdue(stops: Seq<TaskStop>) -> nat
    decreases stops.len(),
{
    if stops.len() == 0 {
        0
    } else {
        overdue(stops.drop_last()) + if stops.last().end is Overdue {
            1nat
        } else {
            0nat
        }
    }
}

/// How many tasks of a teardown were aborted.
pub open spec fn teardown_overdue<C, T>(passes: Seq<TeardownPass<C, T>>) -> nat
    decreases passes.len(),
{
    if passes.len() == 0 {
        0
    } else {
        teardown_overdue(passes.drop_last()) + overdue(passes.last().stops)
    }
}

proof fn lemma_pass_report(stops: Seq<TaskStop>)
    requires
        stops.len() <= usize::MAX,
    ensures
        overdue(stops) <= stops.len(),
        pass_report(stops).aborted == overdue(stops),
        pass_report(stops).joined == stops.len() - overdue(stops),
    decreases stops.len(),
{
    if stops.len() > 0 {
        lemma_pass_report(stops.drop_last());
    }
}

proof fn lemma_pass_waits(begun: Instant, deadline: u128, at: Instant, stops: Seq<TaskStop>, spent: nat)
    requires
        begun.nanos <= deadline,
        pass_runs(at, at.nanos + left_of(deadline, at), stops),
        begun.nanos + spent <= at.nanos,
        begun.nanos + spent <= deadline,
    ensures
        begun.nanos + spent + pass_waited(stops) <= pass_over(at, stops),
        begun.nanos + spent + pass_waited(stops) <= deadline,
        pass_over(at, stops) >= at.nanos,
    decreases stops.len(),
{
    if stops.len() > 0 {
        lemma_pass_waits(begun, deadline, at, stops.drop_last(), spent);
    }
}

proof fn lemma_teardown<C, T>(
    begun: Instant,
    deadline: u128,
    devices: Seq<DeviceRuntime<C, T>>,
    tasks: spec_fn(T) -> nat,
    passes: Seq<TeardownPass<C, T>>,
)
    requires
        begun.nanos <= deadline,
        teardown_runs(begun, deadline, devices, tasks, passes),
        tasks_of(devices, tasks) + late_tasks(passes, tasks) <= usize::MAX,
    ensures
        ({
            let report = teardown_report(passes);
            let stopped = tasks_of(devices, tasks) + late_tasks(passes, tasks) - tasks_of(
                still_held(devices, passes),
                tasks,
            );
            &&& report.aborted == teardown_overdue(passes)
            &&& report.joined + report.aborted == stopped
            &&& begun.nanos + teardown_waited(passes) <= teardown_over(begun, passes)
            &&& begun.nanos + teardown_waited(passes) <= deadline
        }),
    decreases passes.len(),
{
    if passes.len() > 0 {
        let before = passes.drop_last();
        let p = passes.last();
        lemma_teardown(begun, deadline, devices, tasks, before);
        lemma_pass_report(p.stops);
        lemma_pass_waits(begun, deadline, p.at, p.stops, teardown_waited(before));
    }
}

/// A teardown that has come to its end, with nothing left to drain, has stopped every task of every
/// instance that was running, and of every instance that was inserted while it ran: each is counted once,
/// as joined or as aborted. All its passes together waited no longer than the one budget.
pub proof fn a_teardown_stops_everything<C, T>(
    begun: Instant,
    budget: Duration,
    shutdown: Shutdown,
    devices: Seq<DeviceRuntime<C, T>>,
    tasks: spec_fn(T) -> nat,
    passes: Seq<TeardownPass<C, T>>,
)
    requires
        shutdown.deadline == begun.nanos + budget.nanos,
        teardown_runs(begun, shutdown.deadline, devices, tasks, passes),
        still_held(devices, passes).len() == 0,
        tasks_of(devices, tasks) + late_tasks(passes, tasks) <= usize::MAX,
    ensures
        ({
            let report = teardown_report(passes);
            &&& report.joined + report.aborted == tasks_of(devices, tasks) + late_tasks(
                passes,
                tasks,
            )
            &&& report.aborted == teardown_overdue(passes)
        }),
        teardown_waited(passes) <= budget.nanos,
{
    lemma_teardown(begun, shutdown.deadline, devices, tasks, passes);
}

/// A teardown of what was torn down already does nothing: it makes no pass and reports no task.
pub proof fn a_second_teardown_is_a_no_op<C, T>(
    begun: Instant,
    deadline: u128,
    devices: Seq<DeviceRuntime<C, T>>,
    tasks: spec_fn(T) -> nat,
    passes: Seq<TeardownPass<C, T>>,
)
    requires
        devices.len() == 0,
        teardown_runs(begun, deadline, devices, tasks, passes),
        forall|k: int| 0 <= k < passes.len() ==> (#[trigger] passes[k]).late.len() == 0,
    ensures
        passes.len() == 0,
        teardown_report(passes) == (StopReport { joined: 0, aborted: 0 }),
        still_held(devices, passes).len() == 0,
{
    if passes.len() > 0 {
        let before = passes.drop_last();
        if before.len() > 0 {
            assert(before.last() == passes[passes.len() - 2]);
        }
    }
}

/// Later passes get what earlier ones left: no pass is given time past the deadline of the whole.
pub proof fn the_budget_is_one_for_all_passes(deadline: u128, first: Instant, second: Instant)
    requires
        first.nanos <= second.nanos,
        second.nanos <= deadline,
    ensures
        left_of(deadline, second) + (second.nanos - first.nanos) == left_of(deadline, first),
{
}

/// A teardown is given one request, the slower of the two closes and half a second: with a request of up
/// to three seconds the push close is the slower one; beyond three and three quarters the ceiling of ten
/// seconds is reached. A request timeout of zero counts as one millisecond.
pub proof fn a_teardown_is_given_what_its_parts_take(request_timeout_ms: u64)
    ensures
        budget_ms(0) == 5_501,
        1 <= request_timeout_ms <= 3_000 ==> budget_ms(request_timeout_ms) == request_timeout_ms
            + 5_500,
        3_000 <= request_timeout_ms <= 3_750 ==> budget_ms(request_timeout_ms) == 2
            * request_timeout_ms + 2_500,
        3_750 <= request_timeout_ms ==> budget_ms(request_timeout_ms) == 10_000,
{
}

/// A request that names an id reaches the first instance of that id, and none only where none has it.
pub proof fn a_request_reaches_the_instance_it_names<C, T>(
    devices: Seq<DeviceRuntime<C, T>>,
    id: Seq<char>,
)
    ensures
        match first_of(devices, id) {
            Some(i) => {
                &&& 0 <= i < devices.len()
                &&& devices[i].id@ == id
                &&& forall|j: int| 0 <= j < i ==> (#[trigger] devices[j]).id@ != id
            },
            None => forall|j: int| 0 <= j < devices.len() ==> (#[trigger] devices[j]).id@ != id,
        },
{
    let ids = ids_of(devices);
    ids.index_of_first_ensures(id);
    assert forall|j: int| 0 <= j < devices.len() implies (#[trigger] devices[j]).id@ == ids[j] by {}
    if first_of(devices, id) is None {
        assert forall|j: int| 0 <= j < devices.len() implies (#[trigger] devices[j]).id@ != id by {
            assert(ids.contains(ids[j]));
        }
    }
}

/// Of every running instance, and of nothing else, its own id, subtree and configuration are told, in the
/// order of the instances.
pub proof fn what_runs_is_told_as_it_is<C, T>(devices: Seq<DeviceRuntime<C, T>>, i: int)
    requires
        0 <= i < devices.len(),
    ensures
        ids_of(devices).len() == devices.len(),
        ids_of(devices)[i] == devices[i].id@,
        running_of(devices).len() == devices.len(),
        running_of(devices)[i].0 == devices[i].id@,
        running_of(devices)[i].1 == devices[i].raw@,
        configured_of(devices).len() == devices.len(),
        configured_of(devices)[i].0 == devices[i].id@,
        configured_of(devices)[i].1 == devices[i].cfg,
        configured_of(devices)[i].2 == devices[i].raw@,
{
}

/// A task is counted once: as aborted when it was overdue, as joined however else it ended. The reports of
/// two passes add up.
pub proof fn a_task_is_counted_once(r: StopReport, end: TaskEnd, pass: StopReport)
    requires
        r.joined < usize::MAX,
        r.aborted < usize::MAX,
        r.joined + pass.joined <= usize::MAX,
        r.aborted + pass.aborted <= usize::MAX,
    ensures
        r.counted(end).joined + r.counted(end).aborted == r.joined + r.aborted + 1,
        end is Overdue ==> r.counted(end).aborted == r.aborted + 1,
        !(end is Overdue) ==> r.counted(end).joined == r.joined + 1,
        r.plus(pass).joined == r.joined + pass.joined,
        r.plus(pass).aborted == r.aborted + pass.aborted,
{
}

/// A count that can hold no more stays where it is.
pub proof fn a_full_count_stays_full(r: StopReport, end: TaskEnd, pass: StopReport)
    ensures
        r.counted(end).joined >= r.joined,
        r.counted(end).aborted >= r.aborted,
        r.joined + pass.joined >= usize::MAX ==> r.plus(pass).joined == usize::MAX,
        r.aborted + pass.aborted >= usize::MAX ==> r.plus(pass).aborted == usize::MAX,
{
}

/// What is left of a budget is the time up to its deadline, and nothing once that has come.
pub proof fn what_is_left_ends_at_the_deadline(deadline: u128, now: Instant)
    ensures
        now.nanos <= deadline ==> now.nanos + left_of(deadline, now) == deadline,
        now.nanos >= deadline ==> left_of(deadline, now) == 0,
{
}

} // verus!
