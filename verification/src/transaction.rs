//! Applying a planned change: when it may be staged, the swap of the running instances, and the way
//! back.

use vstd::prelude::*;

use crate::clock::Duration;
use crate::config::{DeviceMode, GlobalConfig};
use crate::json::{text_list, values, Json, JsonV, Object};
use crate::lifecycle::{
    a_removed_instance_is_gone, budget_ms, configured_of, distinct_ids, first_of, ids_of, running_of,
    stop_budget, DeviceRegistry, DeviceRuntime,
};
use crate::notice::{event, event_notice, Notice, Severity};
use crate::reload::{
    a_kept_instance_runs, a_plan_accounts_for_every_instance, a_running_instance_is_kept_or_stopped,
    a_started_instance_is_not_kept, a_started_instance_is_valid, candidates, non_instance_view, parsed,
    plan, planned, same_subtree, skips, started_ids, succeeds, valid_among, valid_ids_are_distinct,
    without_instances, ParsedInstance, ReloadPlan, ReloadPlanError, SkippedInstance,
};
use crate::text::{join2, owned, texts};

verus! {

/// How long a change waits for one notice to go out before it moves on, in milliseconds. A notice that
/// does not make it never fails a change.
pub const NOTIFY_BUDGET_MS: u64 = 2_000;

/// Why a change was not applied, or not undone.
#[derive(Debug)]
pub enum ApplyError {
    /// The instances of the start are not all launched yet.
    Starting,
    /// The component is going down.
    ShuttingDown,
    /// The component's own block is malformed.
    InvalidGlobal(String),
    /// Nothing in the candidate can be run.
    NoValidInstances,
    /// Nothing was kept and nothing could be launched.
    NoRunningInstances,
    /// These instances could not be launched again.
    RollbackRelaunchFailed(Vec<String>),
}

/// Texts with a comma between each two.
pub open spec fn comma_list(s: Seq<Seq<char>>, n: nat) -> Seq<char>
    decreases n,
{
    if n == 0 {
        Seq::empty()
    } else if n == 1 {
        s[0]
    } else {
        comma_list(s, (n - 1) as nat) + ", "@ + s[n - 1]
    }
}

fn commas(list: &Vec<String>) -> (r: String)
    ensures
        r@ == comma_list(texts(list@), list@.len()),
{
    let mut out = owned("");
    proof {
        reveal_strlit("");
    }
    assert(out@ =~= Seq::<char>::empty());
    let mut i: usize = 0;
    while i < list.len()
        invariant
            i <= list@.len(),
            out@ == comma_list(texts(list@), i as nat),
        decreases list@.len() - i,
    {
        assert(texts(list@)[i as int] == list@[i as int]@);
        if i > 0 {
            out.append(", ");
        }
        let ghost before = out@;
        out.append(list[i].as_str());
        proof {
            if i == 0 {
                assert(out@ =~= list@[0]@);
            }
        }
        i = i + 1;
    }
    out
}

impl ApplyError {
    pub open spec fn code_text(self) -> Seq<char> {
        match self {
            ApplyError::Starting => "STARTING"@,
            ApplyError::ShuttingDown => "SHUTTING_DOWN"@,
            ApplyError::InvalidGlobal(_) => "INVALID_GLOBAL"@,
            ApplyError::NoValidInstances => "NO_VALID_INSTANCES"@,
            ApplyError::NoRunningInstances => "NO_RUNNING_INSTANCES"@,
            ApplyError::RollbackRelaunchFailed(_) => "ROLLBACK_RELAUNCH_FAILED"@,
        }
    }

    /// The code the refusal is reported under.
    pub fn code(&self) -> (r: String)
        ensures
            r@ == self.code_text(),
    {
        match self {
            ApplyError::Starting => owned("STARTING"),
            ApplyError::ShuttingDown => owned("SHUTTING_DOWN"),
            ApplyError::InvalidGlobal(_) => owned("INVALID_GLOBAL"),
            ApplyError::NoValidInstances => owned("NO_VALID_INSTANCES"),
            ApplyError::NoRunningInstances => owned("NO_RUNNING_INSTANCES"),
            ApplyError::RollbackRelaunchFailed(_) => owned("ROLLBACK_RELAUNCH_FAILED"),
        }
    }

    pub open spec fn text(self) -> Seq<char> {
        match self {
            ApplyError::Starting =>
                "component is still starting; re-send the change or use reload-config"@,
            ApplyError::ShuttingDown => "component is shutting down; candidate not applied"@,
            ApplyError::InvalidGlobal(e) => e@,
            ApplyError::NoValidInstances => ReloadPlanError::NoValidInstances.text(),
            ApplyError::NoRunningInstances => "no instance is running after applying the candidate"@,
            ApplyError::RollbackRelaunchFailed(ids) =>
                "the previous configuration was restored except for: "@ + comma_list(
                texts(ids@),
                ids@.len(),
            ),
        }
    }

    /// The message.
    pub fn message(&self) -> (r: String)
        ensures
            r@ == self.text(),
    {
        match self {
            ApplyError::Starting => owned(
                "component is still starting; re-send the change or use reload-config",
            ),
            ApplyError::ShuttingDown => owned("component is shutting down; candidate not applied"),
            ApplyError::InvalidGlobal(e) => e.clone(),
            ApplyError::NoValidInstances => ReloadPlanError::NoValidInstances.message(),
            ApplyError::NoRunningInstances => owned(
                "no instance is running after applying the candidate",
            ),
            ApplyError::RollbackRelaunchFailed(ids) => join2(
                "the previous configuration was restored except for: ",
                commas(ids).as_str(),
            ),
        }
    }
}

// ---- the generations ----

/// The generation a change is measured against, and the one the way back restores.
#[derive(Debug)]
pub struct PriorGeneration {
    /// The document its instances are bound to.
    pub snapshot: Json,
    /// That document without its instances.
    pub non_instance: Json,
    pub global: GlobalConfig,
}

/// A generation.
pub struct GenerationV {
    pub snapshot: JsonV,
    pub non_instance: JsonV,
    pub global: GlobalConfig,
}

/// The generation of a document.
pub open spec fn generation(snapshot: JsonV, global: GlobalConfig) -> GenerationV {
    GenerationV { snapshot, non_instance: without_instances(snapshot), global }
}

impl View for PriorGeneration {
    type V = GenerationV;

    open spec fn view(&self) -> GenerationV {
        GenerationV {
            snapshot: self.snapshot@,
            non_instance: self.non_instance@,
            global: self.global,
        }
    }
}

impl PriorGeneration {
    /// The generation of a document.
    pub fn of(snapshot: &Json, global: GlobalConfig) -> (r: PriorGeneration)
        ensures
            r@ == generation(snapshot@, global),
    {
        PriorGeneration {
            snapshot: snapshot.copy(),
            non_instance: non_instance_view(snapshot),
            global,
        }
    }

    /// A copy.
    pub fn copy(&self) -> (r: PriorGeneration)
        ensures
            r@ == self@,
    {
        PriorGeneration {
            snapshot: self.snapshot.copy(),
            non_instance: self.non_instance.copy(),
            global: self.global,
        }
    }
}

/// What the way back needs.
#[derive(Debug)]
pub struct UndoState<C> {
    /// The instances the change stopped, with the configuration they ran with.
    pub stopped: Vec<ParsedInstance<C>>,
    /// The instances it launched.
    pub launched: Vec<String>,
    /// The generation to restore.
    pub prior: PriorGeneration,
}

/// How far a staged change has got.
#[derive(Clone, Copy, Debug, PartialEq, Eq, Structural)]
pub enum ReloadStage {
    /// Nothing was touched yet.
    Staged,
    /// What stops is out of the registry and is being stopped.
    Stopping,
    /// It is stopped; the alarms of what nothing succeeds are being cleared.
    Clearing,
    /// The candidate's own block is published; its instances are being launched.
    Launching,
}

/// A staged change.
#[derive(Debug)]
pub struct ReloadTransaction<C> {
    pub plan: ReloadPlan<C>,
    /// The candidate: every instance the change launches is bound to it.
    pub snapshot: Json,
    pub undo: UndoState<C>,
    pub stage: ReloadStage,
    /// The stopped instances that nothing succeeds.
    pub clearing: Vec<String>,
    /// How many of the instances to launch were launched or skipped.
    pub settled: usize,
}

/// The one place changes are staged.
#[derive(Debug)]
pub struct ReloadCoordinator {
    /// Whether the instances of the start are all launched.
    pub started: bool,
    /// The generation that runs.
    pub prior: PriorGeneration,
}

impl ReloadCoordinator {
    /// A coordinator over the generation of the start.
    pub fn new(prior: PriorGeneration) -> (r: ReloadCoordinator)
        ensures
            !r.started,
            r.prior == prior,
    {
        ReloadCoordinator { started: false, prior }
    }

    /// Stage a change. Nothing that runs is touched: a refusal leaves the running generation as it is.
    pub fn prepare_configuration_apply<C, T>(
        &self,
        registry: &DeviceRegistry<C, T>,
        shutting_down: bool,
        candidate: Json,
        global: Result<GlobalConfig, String>,
        outcomes: Vec<Result<C, String>>,
    ) -> (r: Result<ReloadTransaction<C>, ApplyError>)
        requires
            outcomes@.len() == candidates(candidate@).len(),
        ensures
            r matches Err(ApplyError::Starting) <==> !self.started,
            r matches Err(ApplyError::ShuttingDown) <==> self.started && shutting_down,
            ({
                let p = planned(
                    running_of(registry.devices@),
                    self.prior.non_instance@,
                    candidate@,
                    global,
                    outcomes@,
                );
                self.started && !shutting_down ==> match r {
                    Ok(t) => {
                        &&& p == Ok::<_, Option<Seq<char>>>(t.plan@)
                        &&& t.snapshot == candidate
                        &&& t.undo.stopped@.len() == 0
                        &&& t.undo.launched@.len() == 0
                        &&& t.undo.prior@ == self.prior@
                        &&& t.stage == ReloadStage::Staged
                        &&& t.clearing@.len() == 0
                        &&& t.settled == 0
                    },
                    Err(ApplyError::InvalidGlobal(e)) => p matches Err(Some(why)) && why == e@,
                    Err(ApplyError::NoValidInstances) => p matches Err(None),
                    Err(_) => false,
                }
            }),
    {
        if !self.started {
            return Err(ApplyError::Starting);
        }
        if shutting_down {
            return Err(ApplyError::ShuttingDown);
        }
        let live = registry.snapshot_running();
        match plan(&live, &self.prior.non_instance, &candidate, global, outcomes) {
            Ok(plan) => Ok(
                ReloadTransaction {
                    plan,
                    snapshot: candidate,
                    undo: UndoState {
                        stopped: Vec::new(),
                        launched: Vec::new(),
                        prior: self.prior.copy(),
                    },
                    stage: ReloadStage::Staged,
                    clearing: Vec::new(),
                    settled: 0,
                },
            ),
            Err(ReloadPlanError::InvalidGlobal(e)) => Err(ApplyError::InvalidGlobal(e)),
            Err(ReloadPlanError::NoValidInstances) => Err(ApplyError::NoValidInstances),
        }
    }
}

// ---- the swap ----

/// What is left of the running instances, and what was taken out of them, after the first `n` of the
/// instances to stop.
pub open spec fn detached<C, T>(
    devices: Seq<DeviceRuntime<C, T>>,
    stop: Seq<Seq<char>>,
    n: nat,
) -> (Seq<DeviceRuntime<C, T>>, Seq<DeviceRuntime<C, T>>)
    decreases n,
{
    if n == 0 {
        (devices, Seq::empty())
    } else {
        let before = detached(devices, stop, (n - 1) as nat);
        match first_of(before.0, stop[n - 1]) {
            Some(i) => (before.0.remove(i), before.1.push(before.0[i])),
            None => before,
        }
    }
}

/// Whether an id is among a list of instances.
pub open spec fn is_among<C, T>(devices: Seq<DeviceRuntime<C, T>>, id: Seq<char>) -> bool {
    ids_of(devices).contains(id)
}

/// Those of the first `n` ids that are among a list of instances.
pub open spec fn found_among<C, T>(
    devices: Seq<DeviceRuntime<C, T>>,
    ids: Seq<Seq<char>>,
    n: nat,
) -> Seq<Seq<char>>
    decreases n,
{
    if n == 0 {
        Seq::empty()
    } else {
        let before = found_among(devices, ids, (n - 1) as nat);
        if is_among(devices, ids[n - 1]) {
            before.push(ids[n - 1])
        } else {
            before
        }
    }
}

/// An instance to stop: what it is stopped with.
#[derive(Debug)]
pub struct Stopping<T> {
    pub id: String,
    pub rest: T,
}

/// Instances to stop, by meaning.
pub open spec fn handed<T>(s: Seq<Stopping<T>>) -> Seq<(Seq<char>, T)> {
    Seq::new(s.len(), |i: int| (s[i].id@, s[i].rest))
}

/// What running instances are stopped with.
pub open spec fn handed_of<C, T>(devices: Seq<DeviceRuntime<C, T>>) -> Seq<(Seq<char>, T)> {
    Seq::new(devices.len(), |i: int| (devices[i].id@, devices[i].rest))
}

/// What a change took out of the running instances.
#[derive(Debug)]
pub struct Detached<T> {
    /// The instances to stop.
    pub runtimes: Vec<Stopping<T>>,
    /// How long the stop may take.
    pub budget: Duration,
}

fn includes<C, T>(devices: &Vec<DeviceRuntime<C, T>>, id: &String) -> (r: bool)
    ensures
        r == is_among(devices@, id@),
{
    let mut i: usize = 0;
    while i < devices.len()
        invariant
            i <= devices@.len(),
            forall|j: int| 0 <= j < i ==> (#[trigger] ids_of(devices@)[j]) != id@,
        decreases devices@.len() - i,
    {
        if devices[i].id == *id {
            assert(ids_of(devices@)[i as int] == id@);
            return true;
        }
        i = i + 1;
    }
    false
}

/// Take instances out of the registry, in order.
fn take_out<C, T>(registry: &mut DeviceRegistry<C, T>, ids: &Vec<String>) -> (r: Vec<DeviceRuntime<C, T>>)
    ensures
        final(registry).global == old(registry).global,
        (final(registry).devices@, r@) == detached(old(registry).devices@, texts(ids@), ids@.len()),
{
    let ghost devices = registry.devices@;
    let ghost wanted = texts(ids@);
    let mut out: Vec<DeviceRuntime<C, T>> = Vec::new();
    assert(out@ =~= Seq::empty());
    let mut i: usize = 0;
    while i < ids.len()
        invariant
            i <= ids@.len(),
            wanted == texts(ids@),
            registry.global == old(registry).global,
            (registry.devices@, out@) == detached(devices, wanted, i as nat),
        decreases ids@.len() - i,
    {
        assert(wanted[i as int] == ids@[i as int]@);
        match registry.remove(ids[i].as_str()) {
            Some(rt) => {
                out.push(rt);
            },
            None => {},
        }
        i = i + 1;
    }
    out
}

impl<C> ReloadTransaction<C> {
    /// The first stage of a change: take what stops out of the registry, so that no request reaches an
    /// instance that is going away. Nothing is done when the component is going down.
    pub fn detach<T>(&mut self, registry: &mut DeviceRegistry<C, T>, shutting_down: bool) -> (r: Result<
        Detached<T>,
        ApplyError,
    >)
        requires
            old(registry).global is Some,
            old(self).stage == ReloadStage::Staged,
        ensures
            final(registry).global == old(registry).global,
            shutting_down <==> r is Err,
            shutting_down ==> {
                &&& r matches Err(ApplyError::ShuttingDown)
                &&& *final(self) == *old(self)
                &&& *final(registry) == *old(registry)
            },
            r matches Ok(d) ==> {
                let parts = detached(
                    old(registry).devices@,
                    old(self).plan@.stop,
                    old(self).plan@.stop.len(),
                );
                &&& final(registry).devices@ == parts.0
                &&& handed(d.runtimes@) == handed_of(parts.1)
                &&& texts(final(self).clearing@) == found_among(
                    parts.1,
                    old(self).plan@.removed,
                    old(self).plan@.removed.len(),
                )
                &&& d.budget.nanos == budget_ms(
                    old(registry).global->0.timeouts.request_timeout_ms,
                ) * 1_000_000
                &&& parsed(final(self).undo.stopped@) == parsed(old(self).undo.stopped@)
                    + configured_of(parts.1)
                &&& *final(self) == (ReloadTransaction {
                    undo: UndoState { stopped: final(self).undo.stopped, ..old(self).undo },
                    stage: ReloadStage::Stopping,
                    clearing: final(self).clearing,
                    ..*old(self)
                })
            },
    {
        if shutting_down {
            return Err(ApplyError::ShuttingDown);
        }
        let budget = stop_budget(&registry.global().timeouts);
        let runtimes = take_out(registry, &self.plan.stop);
        let ghost going = texts(self.plan.removed@);
        let mut clearing: Vec<String> = Vec::new();
        assert(texts(clearing@) =~= Seq::empty());
        let mut k: usize = 0;
        while k < self.plan.removed.len()
            invariant
                k <= self.plan.removed@.len(),
                going == texts(self.plan.removed@),
                texts(clearing@) == found_among(runtimes@, going, k as nat),
            decreases self.plan.removed@.len() - k,
        {
            assert(going[k as int] == self.plan.removed@[k as int]@);
            if includes(&runtimes, &self.plan.removed[k]) {
                let ghost had = clearing@;
                clearing.push(self.plan.removed[k].clone());
                assert(texts(clearing@) =~= texts(had).push(going[k as int]));
            }
            k = k + 1;
        }
        let ghost taken = runtimes@;
        let ghost before = self.undo.stopped@;
        let mut left = runtimes;
        let mut stopping: Vec<Stopping<T>> = Vec::new();
        let ghost mut i: int = 0;
        assert(handed(stopping@) =~= handed_of(taken.take(0)));
        assert(parsed(before) + configured_of(taken.take(0)) =~= parsed(before));
        assert(taken.skip(0) =~= taken);
        while left.len() > 0
            invariant
                0 <= i <= taken.len(),
                left@ == taken.skip(i),
                handed(stopping@) == handed_of(taken.take(i)),
                parsed(self.undo.stopped@) == parsed(before) + configured_of(taken.take(i)),
                *self == (ReloadTransaction {
                    undo: UndoState { stopped: self.undo.stopped, ..old(self).undo },
                    ..*old(self)
                }),
            decreases left@.len(),
        {
            let rt = left.remove(0);
            let ghost had = self.undo.stopped@;
            let ghost gave = stopping@;
            stopping.push(Stopping { id: rt.id.clone(), rest: rt.rest });
            self.undo.stopped.push(ParsedInstance { id: rt.id, cfg: rt.cfg, raw: rt.raw });
            proof {
                let one = (rt.id@, rt.cfg, rt.raw@);
                assert(rt == taken[i]);
                assert(left@ =~= taken.skip(i + 1));
                assert(parsed(self.undo.stopped@) =~= parsed(had).push(one));
                assert(configured_of(taken.take(i + 1)) =~= configured_of(taken.take(i)).push(one));
                assert(parsed(before) + configured_of(taken.take(i + 1)) =~= (parsed(before)
                    + configured_of(taken.take(i))).push(one));
                assert(handed(stopping@) =~= handed(gave).push((rt.id@, rt.rest)));
                assert(handed_of(taken.take(i + 1)) =~= handed_of(taken.take(i)).push(
                    (rt.id@, rt.rest),
                ));
                i = i + 1;
            }
        }
        assert(taken.take(i) =~= taken);
        self.clearing = clearing;
        self.stage = ReloadStage::Stopping;
        Ok(Detached { runtimes: stopping, budget })
    }

    /// The second stage, once what stops is stopped: the instances whose alarm is to be cleared, because
    /// nothing succeeds them. Not before: an instance that still runs could raise it again.
    pub fn stopped(&mut self) -> (r: Vec<String>)
        requires
            old(self).stage == ReloadStage::Stopping,
        ensures
            r@ == old(self).clearing@,
            final(self).clearing@.len() == 0,
            *final(self) == (ReloadTransaction {
                stage: ReloadStage::Clearing,
                clearing: final(self).clearing,
                ..*old(self)
            }),
    {
        let mut out: Vec<String> = Vec::new();
        std::mem::swap(&mut out, &mut self.clearing);
        self.stage = ReloadStage::Clearing;
        out
    }

    /// The third stage, once the alarms are cleared: publish the candidate's own block. What keeps
    /// running keeps what it was launched with.
    pub fn publish<T>(&mut self, registry: &mut DeviceRegistry<C, T>)
        requires
            old(self).stage == ReloadStage::Clearing,
        ensures
            final(registry).global == Some(old(self).plan.global),
            final(registry).devices == old(registry).devices,
            *final(self) == (ReloadTransaction { stage: ReloadStage::Launching, ..*old(self) }),
    {
        registry.set_global(self.plan.global);
        self.stage = ReloadStage::Launching;
    }

    /// The instance to launch next, against the candidate and its own block.
    pub fn next_launch(&self) -> (r: Option<&ParsedInstance<C>>)
        ensures
            match r {
                Some(p) => self.settled < self.plan.start@.len() && *p
                    == self.plan.start@[self.settled as int],
                None => self.settled >= self.plan.start@.len(),
            },
    {
        if self.settled < self.plan.start.len() {
            Some(&self.plan.start[self.settled])
        } else {
            None
        }
    }

    /// Every instance that was to be launched so far was launched, or is reported as skipped.
    pub open spec fn accounts_for_all(self) -> bool {
        &&& self.settled <= self.plan.start@.len()
        &&& forall|i: int|
            0 <= i < self.settled ==> texts(self.undo.launched@).contains(
                (#[trigger] self.plan.start@[i]).id@,
            ) || reported(self.plan@.skipped, self.plan.start@[i].id@)
    }

    /// The fourth stage, for each instance in turn: what launching it came to. It is registered under the id
    /// and with the subtree of the plan. One that could not be launched is skipped and reported; it does not
    /// fail the change.
    pub fn launched<T>(
        &mut self,
        registry: &mut DeviceRegistry<C, T>,
        outcome: Result<DeviceRuntime<C, T>, String>,
    )
        requires
            old(self).stage == ReloadStage::Launching,
            old(self).settled < old(self).plan.start@.len(),
        ensures
            final(registry).global == old(registry).global,
            final(self).settled == old(self).settled + 1,
            match outcome {
                Ok(rt) => {
                    &&& final(registry).devices@.len() == old(registry).devices@.len() + 1
                    &&& final(registry).devices@.drop_last() == old(registry).devices@
                    &&& launched_as(
                        final(registry).devices@.last(),
                        old(self).plan.start@[old(self).settled as int],
                        rt,
                    )
                    &&& texts(final(self).undo.launched@) == texts(old(self).undo.launched@).push(
                        old(self).plan.start@[old(self).settled as int].id@,
                    )
                    &&& *final(self) == (ReloadTransaction {
                        settled: final(self).settled,
                        undo: UndoState { launched: final(self).undo.launched, ..old(self).undo },
                        ..*old(self)
                    })
                },
                Err(why) => {
                    &&& final(registry).devices@ == old(registry).devices@
                    &&& skips(final(self).plan.skipped@) == skips(old(self).plan.skipped@).push(
                        (old(self).plan.start@[old(self).settled as int].id@, why@),
                    )
                    &&& *final(self) == (ReloadTransaction {
                        settled: final(self).settled,
                        plan: ReloadPlan { skipped: final(self).plan.skipped, ..old(self).plan },
                        ..*old(self)
                    })
                },
            },
            old(self).accounts_for_all() ==> final(self).accounts_for_all(),
    {
        let at: usize = self.settled;
        let n: usize = self.plan.start.len();
        assert(at < n);
        let id = self.plan.start[at].id.clone();
        let ghost before = *self;
        match outcome {
            Ok(rt) => {
                let raw = self.plan.start[at].raw.copy();
                let ghost ran = registry.devices@;
                registry.insert(
                    DeviceRuntime { id: id.clone(), mode: rt.mode, cfg: rt.cfg, raw, rest: rt.rest },
                );
                assert(registry.devices@.drop_last() =~= ran);
                let ghost had = self.undo.launched@;
                self.undo.launched.push(id);
                assert(texts(self.undo.launched@) =~= texts(had).push(id@));
            },
            Err(why) => {
                let one = SkippedInstance { id, reason: why };
                let ghost had = self.plan.skipped@;
                self.plan.skipped.push(one);
                assert(skips(self.plan.skipped@) =~= skips(had).push((id@, why@)));
            },
        }
        self.settled = at + 1;
        proof {
            if before.accounts_for_all() {
                let now = *self;
                assert forall|i: int| 0 <= i < now.settled implies texts(
                    now.undo.launched@,
                ).contains((#[trigger] now.plan.start@[i]).id@) || reported(
                    now.plan@.skipped,
                    now.plan.start@[i].id@,
                ) by {
                    let id = now.plan.start@[i].id@;
                    let l0 = texts(before.undo.launched@);
                    let l1 = texts(now.undo.launched@);
                    let s0 = before.plan@.skipped;
                    let s1 = now.plan@.skipped;
                    if i < at {
                        assert(before.plan.start@[i] == now.plan.start@[i]);
                        if l0.contains(id) {
                            let k = choose|k: int| 0 <= k < l0.len() && l0[k] == id;
                            assert(l1[k] == id);
                        } else {
                            let k = choose|k: int| 0 <= k < s0.len() && (#[trigger] s0[k]).0 == id;
                            assert(s1[k].0 == id);
                        }
                    } else if outcome is Ok {
                        assert(l1[l0.len() as int] == id);
                    } else {
                        assert(s1[s0.len() as int].0 == id);
                    }
                }
            }
        }
    }
}

/// The registered runtime of an instance that was launched: the instance's id and subtree, and the rest of
/// what the launch made.
pub open spec fn launched_as<C, T>(
    d: DeviceRuntime<C, T>,
    p: ParsedInstance<C>,
    made: DeviceRuntime<C, T>,
) -> bool {
    &&& d.id@ == p.id@
    &&& d.raw@ == p.raw@
    &&& d.mode == made.mode
    &&& d.cfg == made.cfg
    &&& d.rest == made.rest
}

/// Whether an instance is among the skipped.
pub open spec fn reported(skipped: Seq<(Seq<char>, Seq<char>)>, id: Seq<char>) -> bool {
    exists|k: int| 0 <= k < skipped.len() && (#[trigger] skipped[k]).0 == id
}

/// The skipped instances, each with its reason.
pub open spec fn skip_list(skipped: Seq<(Seq<char>, Seq<char>)>) -> JsonV {
    JsonV::Array(
        Seq::new(
            skipped.len(),
            |i: int| JsonV::Array(seq![JsonV::Text(skipped[i].0), JsonV::Text(skipped[i].1)]),
        ),
    )
}

fn skips_json(list: &Vec<SkippedInstance>) -> (j: Json)
    ensures
        j@ == skip_list(skips(list@)),
{
    let mut out: Vec<Json> = Vec::new();
    let ghost all = skips(list@);
    let mut i: usize = 0;
    while i < list.len()
        invariant
            i <= list@.len(),
            out@.len() == i,
            all == skips(list@),
            forall|k: int|
                0 <= k < i ==> #[trigger] out@[k]@ == JsonV::Array(
                    seq![JsonV::Text(all[k].0), JsonV::Text(all[k].1)],
                ),
        decreases list@.len() - i,
    {
        let mut pair: Vec<Json> = Vec::new();
        pair.push(Json::of_text(list[i].id.as_str()));
        pair.push(Json::of_text(list[i].reason.as_str()));
        assert(values(pair@) =~= seq![JsonV::Text(all[i as int].0), JsonV::Text(all[i as int].1)]);
        out.push(Json::of_array(pair));
        i = i + 1;
    }
    assert(values(out@) =~= skip_list(all)->Array_0);
    Json::of_array(out)
}

/// What a change came to, for the operator.
pub open spec fn applied_context<C>(t: ReloadTransaction<C>) -> Map<Seq<char>, JsonV> {
    Map::empty().insert("started"@, text_list(texts(t.undo.launched@))).insert(
        "stopped"@,
        text_list(t.plan@.stop),
    ).insert("kept"@, text_list(t.plan@.keep)).insert(
        "skipped"@,
        skip_list(t.plan@.skipped),
    ).insert("restartAll"@, JsonV::Bool(t.plan.restart_all))
}

/// A change that was applied.
#[derive(Debug)]
pub struct Applied {
    /// Everything that runs is push, so there is nothing to poll again on demand.
    pub all_push: bool,
    /// What the operator is told.
    pub notice: Notice,
    /// The generation the next change is measured against.
    pub prior: PriorGeneration,
}

impl<C> ReloadTransaction<C> {
    /// The last stage: what the change came to. A change after which nothing runs fails, and is undone.
    pub fn finish<T>(&self, registry: &DeviceRegistry<C, T>) -> (r: Result<Applied, ApplyError>)
        requires
            self.stage == ReloadStage::Launching,
            self.settled >= self.plan.start@.len(),
        ensures
            r is Err <==> registry.devices@.len() == 0,
            match r {
                Err(e) => e is NoRunningInstances,
                Ok(a) => {
                    &&& a.all_push == (registry.devices@.len() > 0 && forall|i: int|
                        0 <= i < registry.devices@.len() ==> (#[trigger] registry.devices@[i]).mode
                            == DeviceMode::Push)
                    &&& a.notice@ == event(
                        Severity::Info,
                        "config-applied"@,
                        "configuration applied"@,
                        applied_context(*self),
                    )
                    &&& a.prior@ == generation(self.snapshot@, self.plan.global)
                },
            },
    {
        if registry.is_empty() {
            return Err(ApplyError::NoRunningInstances);
        }
        let mut o = Object::new();
        o.insert("started", Json::of_texts(&self.undo.launched));
        o.insert("stopped", Json::of_texts(&self.plan.stop));
        o.insert("kept", Json::of_texts(&self.plan.keep));
        o.insert("skipped", skips_json(&self.plan.skipped));
        o.insert("restartAll", Json::of_bool(self.plan.restart_all));
        Ok(
            Applied {
                all_push: registry.all_push(),
                notice: event_notice(
                    Severity::Info,
                    "config-applied",
                    owned("configuration applied"),
                    o,
                ),
                prior: PriorGeneration::of(&self.snapshot, self.plan.global),
            },
        )
    }
}

// ---- the way back ----

/// What the way back stops first.
#[derive(Debug)]
pub struct Withdrawn<C, T> {
    /// The instances the change launched.
    pub runtimes: Vec<DeviceRuntime<C, T>>,
    /// How long the stop may take.
    pub budget: Duration,
}

/// The way back once what the change launched is stopped: what is to be launched again, with the
/// configuration it ran with and against the generation that is restored, and what could not be.
#[derive(Debug)]
pub struct Restoration<C> {
    /// The instances that were not tried yet.
    pub waiting: Vec<ParsedInstance<C>>,
    /// The generation every one of them is bound to.
    pub prior: PriorGeneration,
    /// The instances that could not be launched again.
    pub failed: Vec<String>,
}

impl<C> ReloadTransaction<C> {
    /// The first stage of the way back: take what the change launched out of the registry.
    pub fn withdraw<T>(&mut self, registry: &mut DeviceRegistry<C, T>) -> (r: Withdrawn<C, T>)
        ensures
            final(registry).global == old(registry).global,
            (final(registry).devices@, r.runtimes@) == detached(
                old(registry).devices@,
                texts(old(self).undo.launched@),
                old(self).undo.launched@.len(),
            ),
            r.budget.nanos == budget_ms(
                old(self).undo.prior.global.timeouts.request_timeout_ms,
            ) * 1_000_000,
            final(self).undo.launched@.len() == 0,
            *final(self) == (ReloadTransaction {
                undo: UndoState { launched: final(self).undo.launched, ..old(self).undo },
                ..*old(self)
            }),
    {
        let budget = stop_budget(&self.undo.prior.global.timeouts);
        let mut ids: Vec<String> = Vec::new();
        std::mem::swap(&mut ids, &mut self.undo.launched);
        let runtimes = take_out(registry, &ids);
        Withdrawn { runtimes, budget }
    }

    /// The second stage, once those are stopped: publish the block of the generation before, and hand out
    /// the instances to launch again, against that generation.
    pub fn restore<T>(&mut self, registry: &mut DeviceRegistry<C, T>) -> (r: Restoration<C>)
        ensures
            final(registry).global == Some(old(self).undo.prior.global),
            final(registry).devices == old(registry).devices,
            r.waiting@ == old(self).undo.stopped@,
            r.prior@ == old(self).undo.prior@,
            r.failed@.len() == 0,
            final(self).undo.stopped@.len() == 0,
            *final(self) == (ReloadTransaction {
                undo: UndoState { stopped: final(self).undo.stopped, ..old(self).undo },
                ..*old(self)
            }),
    {
        registry.set_global(self.undo.prior.global);
        let mut waiting: Vec<ParsedInstance<C>> = Vec::new();
        std::mem::swap(&mut waiting, &mut self.undo.stopped);
        Restoration { waiting, prior: self.undo.prior.copy(), failed: Vec::new() }
    }
}

/// The runtime of an instance that was launched again.
pub open spec fn runtime_of<C, T>(p: ParsedInstance<C>, up: (DeviceMode, T)) -> DeviceRuntime<C, T> {
    DeviceRuntime { id: p.id, mode: up.0, cfg: p.cfg, raw: p.raw, rest: up.1 }
}

/// How far the way back has got: what is still to be tried, what could not be launched, and what runs.
pub struct RestorationV<C, T> {
    pub waiting: Seq<ParsedInstance<C>>,
    pub failed: Seq<Seq<char>>,
    pub devices: Seq<DeviceRuntime<C, T>>,
}

impl<C, T> RestorationV<C, T> {
    /// One more instance was tried: it runs again, or it is among the failed.
    pub open spec fn relaunched(self, outcome: Option<(DeviceMode, T)>) -> RestorationV<C, T> {
        let p = self.waiting[0];
        RestorationV {
            waiting: self.waiting.skip(1),
            failed: if outcome is None {
                self.failed.push(p.id@)
            } else {
                self.failed
            },
            devices: if outcome is Some {
                self.devices.push(runtime_of(p, outcome->0))
            } else {
                self.devices
            },
        }
    }

    /// One instance after the other was tried.
    pub open spec fn all_relaunched(self, outcomes: Seq<Option<(DeviceMode, T)>>) -> RestorationV<C, T>
        decreases outcomes.len(),
    {
        if outcomes.len() == 0 {
            self
        } else {
            self.all_relaunched(outcomes.drop_last()).relaunched(outcomes.last())
        }
    }
}

/// How far the way back has got.
pub open spec fn restoring<C, T>(
    r: Restoration<C>,
    devices: Seq<DeviceRuntime<C, T>>,
) -> RestorationV<C, T> {
    RestorationV { waiting: r.waiting@, failed: texts(r.failed@), devices }
}

impl<C> Restoration<C> {
    /// The instance to launch next, with the component block and the document it is bound to.
    pub fn next(&self) -> (r: Option<(&ParsedInstance<C>, GlobalConfig, &Json)>)
        ensures
            match r {
                Some((p, global, snapshot)) => {
                    &&& self.waiting@.len() > 0
                    &&& *p == self.waiting@[0]
                    &&& global == self.prior.global
                    &&& *snapshot == self.prior.snapshot
                },
                None => self.waiting@.len() == 0,
            },
    {
        if self.waiting.len() == 0 {
            None
        } else {
            Some((&self.waiting[0], self.prior.global, &self.prior.snapshot))
        }
    }

    /// The last stage, for each instance in turn: whether it could be launched again. One that could not
    /// does not strand the others.
    pub fn relaunched<T>(
        &mut self,
        registry: &mut DeviceRegistry<C, T>,
        outcome: Option<(DeviceMode, T)>,
    )
        requires
            old(self).waiting@.len() > 0,
        ensures
            final(registry).global == old(registry).global,
            final(self).prior == old(self).prior,
            restoring(*final(self), final(registry).devices@) == restoring(
                *old(self),
                old(registry).devices@,
            ).relaunched(outcome),
    {
        let p = self.waiting.remove(0);
        assert(self.waiting@ =~= old(self).waiting@.skip(1));
        match outcome {
            Some((mode, rest)) => {
                registry.insert(DeviceRuntime { id: p.id, mode, cfg: p.cfg, raw: p.raw, rest });
            },
            None => {
                let ghost had = self.failed@;
                self.failed.push(p.id);
                assert(texts(self.failed@) =~= texts(had).push(p.id@));
            },
        }
    }

    /// What the way back came to.
    pub fn outcome(self) -> (r: Result<(), ApplyError>)
        requires
            self.waiting@.len() == 0,
        ensures
            r is Ok <==> self.failed@.len() == 0,
            r matches Err(e) ==> e == ApplyError::RollbackRelaunchFailed(self.failed),
    {
        if self.failed.len() == 0 {
            Ok(())
        } else {
            Err(ApplyError::RollbackRelaunchFailed(self.failed))
        }
    }
}

// ---- what a change keeps, and what the way back restores ----

proof fn lemma_found<C, T>(devices: Seq<DeviceRuntime<C, T>>, id: Seq<char>)
    ensures
        is_among(devices, id) <==> first_of(devices, id) is Some,
        first_of(devices, id) matches Some(i) ==> 0 <= i < devices.len() && devices[i].id@ == id,
{
    ids_of(devices).index_of_first_ensures(id);
}

proof fn lemma_detached<C, T>(
    devices: Seq<DeviceRuntime<C, T>>,
    stop: Seq<Seq<char>>,
    n: nat,
    id: Seq<char>,
)
    requires
        n <= stop.len(),
        distinct_ids(devices),
    ensures
        distinct_ids(detached(devices, stop, n).0),
        is_among(detached(devices, stop, n).0, id) <==> is_among(devices, id) && !stop.take(
            n as int,
        ).contains(id),
    decreases n,
{
    let now = stop.take(n as int);
    if n > 0 {
        let before = stop.take(n - 1);
        lemma_detached(devices, stop, (n - 1) as nat, id);
        let rest = detached(devices, stop, (n - 1) as nat).0;
        lemma_found(rest, stop[n - 1]);
        lemma_found(rest, id);
        assert(now =~= before.push(stop[n - 1]));
        assert(now.contains(id) <==> before.contains(id) || id == stop[n - 1]) by {
            if before.contains(id) {
                let k = choose|k: int| 0 <= k < before.len() && before[k] == id;
                assert(now[k] == id);
            }
            assert(now[n - 1] == stop[n - 1]);
            if now.contains(id) && id != stop[n - 1] {
                let k = choose|k: int| 0 <= k < now.len() && now[k] == id;
                assert(before[k] == id);
            }
        }
        if first_of(rest, stop[n - 1]) is Some {
            a_removed_instance_is_gone(rest, stop[n - 1], id);
            lemma_found(detached(devices, stop, n).0, id);
        }
    }
}

proof fn lemma_same_runtimes<C, T>(devices: Seq<DeviceRuntime<C, T>>, stop: Seq<Seq<char>>, n: nat)
    requires
        n <= stop.len(),
    ensures
        forall|k: int|
            0 <= k < detached(devices, stop, n).0.len() ==> devices.contains(
                #[trigger] detached(devices, stop, n).0[k],
            ),
    decreases n,
{
    if n > 0 {
        lemma_same_runtimes(devices, stop, (n - 1) as nat);
        let rest = detached(devices, stop, (n - 1) as nat).0;
        let now = detached(devices, stop, n).0;
        lemma_found(rest, stop[n - 1]);
        assert forall|k: int| 0 <= k < now.len() implies devices.contains(#[trigger] now[k]) by {
            match first_of(rest, stop[n - 1]) {
                Some(i) => {
                    assert(now[k] == rest[if k < i {
                        k
                    } else {
                        k + 1
                    }]);
                },
                None => {},
            }
        }
    } else {
        assert forall|k: int| 0 <= k < devices.len() implies devices.contains(
            #[trigger] detached(devices, stop, 0).0[k],
        ) by {
            assert(devices[k] == detached(devices, stop, 0).0[k]);
        }
    }
}

/// No instance vanishes: once every launch was tried, each instance of the plan is among the started or
/// among the skipped of what the operator is told.
pub proof fn no_instance_vanishes<C>(t: ReloadTransaction<C>, i: int)
    requires
        t.accounts_for_all(),
        t.settled == t.plan.start@.len(),
        0 <= i < t.plan.start@.len(),
    ensures
        applied_context(t)["started"@] == text_list(texts(t.undo.launched@)),
        applied_context(t)["skipped"@] == skip_list(t.plan@.skipped),
        texts(t.undo.launched@).contains(t.plan.start@[i].id@) || reported(
            t.plan@.skipped,
            t.plan.start@[i].id@,
        ),
{
    reveal_strlit("started");
    reveal_strlit("stopped");
    reveal_strlit("kept");
    reveal_strlit("skipped");
    reveal_strlit("restartAll");
    assert("started"@.len() == 7 && "stopped"@.len() == 7 && "skipped"@.len() == 7);
    assert("kept"@.len() == 4 && "restartAll"@.len() == 10);
    assert("started"@[2] != "stopped"@[2]);
    assert("started"@[1] != "skipped"@[1]);
}

/// Once what stops is taken out, exactly what the plan keeps still runs, and it is the very instances
/// that ran before.
pub proof fn a_change_leaves_what_is_kept_running<C, T>(
    devices: Seq<DeviceRuntime<C, T>>,
    bound: JsonV,
    raw: JsonV,
    global: Result<GlobalConfig, String>,
    outcomes: Seq<Result<C, String>>,
    id: Seq<char>,
)
    requires
        distinct_ids(devices),
        outcomes.len() == candidates(raw).len(),
        planned(running_of(devices), bound, raw, global, outcomes) is Ok,
    ensures
        ({
            let p = planned(running_of(devices), bound, raw, global, outcomes)->Ok_0;
            let rest = detached(devices, p.stop, p.stop.len()).0;
            &&& is_among(rest, id) <==> p.keep.contains(id)
            &&& forall|k: int| 0 <= k < rest.len() ==> devices.contains(#[trigger] rest[k])
        }),
{
    let live = running_of(devices);
    let p = planned(live, bound, raw, global, outcomes)->Ok_0;
    lemma_detached(devices, p.stop, p.stop.len(), id);
    lemma_same_runtimes(devices, p.stop, p.stop.len());
    assert(p.stop.take(p.stop.len() as int) =~= p.stop);
    if is_among(devices, id) {
        let k = choose|k: int| 0 <= k < ids_of(devices).len() && ids_of(devices)[k] == id;
        assert(live[k].0 == id);
        a_running_instance_is_kept_or_stopped(live, bound, raw, global, outcomes, id);
    }
    if p.keep.contains(id) {
        a_kept_instance_runs(live, bound, raw, global, outcomes, id);
        let k = choose|k: int| 0 <= k < live.len() && (#[trigger] live[k]).0 == id;
        assert(ids_of(devices)[k] == id);
    }
}

/// Taking instances out loses none of them: what is left and what was taken out are together what
/// ran, with the same configurations.
pub proof fn nothing_is_lost<C, T>(devices: Seq<DeviceRuntime<C, T>>, stop: Seq<Seq<char>>, n: nat)
    requires
        n <= stop.len(),
    ensures
        configured_of(detached(devices, stop, n).0).to_multiset().add(
            configured_of(detached(devices, stop, n).1).to_multiset(),
        ) == configured_of(devices).to_multiset(),
    decreases n,
{
    broadcast use vstd::seq_lib::group_to_multiset_ensures;

    if n > 0 {
        nothing_is_lost(devices, stop, (n - 1) as nat);
        let before = detached(devices, stop, (n - 1) as nat);
        lemma_found(before.0, stop[n - 1]);
        match first_of(before.0, stop[n - 1]) {
            Some(i) => {
                let r0 = configured_of(before.0);
                let t0 = configured_of(before.1);
                let r1 = configured_of(before.0.remove(i));
                let t1 = configured_of(before.1.push(before.0[i]));
                let x = r0[i];
                assert(r1 =~= r0.remove(i));
                assert(t1 =~= t0.push(x));
                assert(r0.contains(x));
                assert(r0.to_multiset().count(x) > 0);
                assert(r1.to_multiset() =~= r0.to_multiset().remove(x));
                assert(t1.to_multiset() =~= t0.to_multiset().insert(x));
                assert(r1.to_multiset().add(t1.to_multiset()) =~= r0.to_multiset().add(
                    t0.to_multiset(),
                ));
            },
            None => {},
        }
    } else {
        assert(configured_of(Seq::<DeviceRuntime<C, T>>::empty()) =~= Seq::empty());
        assert(configured_of(devices).to_multiset().add(
            Seq::<(Seq<char>, C, JsonV)>::empty().to_multiset(),
        ) =~= configured_of(devices).to_multiset());
    }
}

proof fn lemma_withdrawn<C, T>(rest: Seq<DeviceRuntime<C, T>>, new: Seq<DeviceRuntime<C, T>>, n: nat)
    requires
        n <= new.len(),
        forall|i: int| 0 <= i < new.len() ==> !is_among(rest, (#[trigger] new[i]).id@),
    ensures
        detached(rest + new, ids_of(new), n) == (rest + new.skip(n as int), new.take(n as int)),
    decreases n,
{
    if n > 0 {
        lemma_withdrawn(rest, new, (n - 1) as nat);
        let now = rest + new.skip(n - 1);
        let id = new[n - 1].id@;
        assert(ids_of(new)[n - 1] == id);
        assert(now[rest.len() as int] == new[n - 1]);
        lemma_found(now, id);
        let ids = ids_of(now);
        ids.index_of_first_ensures(id);
        assert(ids[rest.len() as int] == id);
        assert(ids.contains(id));
        let at = first_of(now, id)->0;
        if at < rest.len() {
            assert(now[at] == rest[at]);
            assert(ids_of(rest)[at] == id);
            assert(is_among(rest, new[n - 1].id@));
        }
        assert(at == rest.len());
        assert(now.remove(at) =~= rest + new.skip(n as int));
        assert(new.take(n - 1).push(new[n - 1]) =~= new.take(n as int));
    } else {
        assert(rest + new.skip(0) =~= rest + new);
        assert(new.take(0) =~= Seq::empty());
    }
}

/// Whether the candidate holds an instance of that id with that subtree.
pub open spec fn is_held<C>(valid: Seq<(Seq<char>, C, JsonV)>, id: Seq<char>, raw: JsonV) -> bool {
    exists|j: int| 0 <= j < valid.len() && (#[trigger] valid[j]).0 == id && valid[j].2 == raw
}

/// Whether an instance of that id runs from that subtree.
pub open spec fn is_running<C, T>(
    devices: Seq<DeviceRuntime<C, T>>,
    id: Seq<char>,
    raw: JsonV,
) -> bool {
    exists|k: int|
        0 <= k < devices.len() && (#[trigger] devices[k]).id@ == id && devices[k].raw@ == raw
}

/// What a change leaves running runs from the candidate's subtree.
proof fn lemma_kept_is_held<C, T>(
    devices: Seq<DeviceRuntime<C, T>>,
    bound: JsonV,
    raw: JsonV,
    global: Result<GlobalConfig, String>,
    verdicts: Seq<Result<C, String>>,
    k: int,
)
    requires
        distinct_ids(devices),
        verdicts.len() == candidates(raw).len(),
        planned(running_of(devices), bound, raw, global, verdicts) is Ok,
        ({
            let p = planned(running_of(devices), bound, raw, global, verdicts)->Ok_0;
            0 <= k < detached(devices, p.stop, p.stop.len()).0.len()
        }),
    ensures
        ({
            let p = planned(running_of(devices), bound, raw, global, verdicts)->Ok_0;
            let d = detached(devices, p.stop, p.stop.len()).0[k];
            &&& p.keep.contains(d.id@)
            &&& is_held(
                valid_among(candidates(raw), verdicts, verdicts.len()),
                d.id@,
                d.raw@,
            )
        }),
{
    let live = running_of(devices);
    let p = planned(live, bound, raw, global, verdicts)->Ok_0;
    let valid = valid_among(candidates(raw), verdicts, verdicts.len());
    let rest = detached(devices, p.stop, p.stop.len()).0;
    let id = rest[k].id@;
    a_plan_accounts_for_every_instance(live, bound, raw, global, verdicts);
    a_change_leaves_what_is_kept_running(devices, bound, raw, global, verdicts, id);
    assert(ids_of(rest)[k] == id);
    assert(is_among(rest, id));
    assert(devices.contains(rest[k]));
    let d = choose|d: int| 0 <= d < devices.len() && devices[d] == rest[k];
    assert(same_subtree(live, valid, id));
    let (i, j) = choose|i: int, j: int|
        {
            &&& 0 <= i < live.len()
            &&& 0 <= j < valid.len()
            &&& (#[trigger] live[i]).0 == id
            &&& (#[trigger] valid[j]).0 == id
            &&& live[i].1 == valid[j].2
        };
    assert(devices[i].id@ == devices[d].id@);
    if i < d {
        assert(devices[i].id@ != devices[d].id@);
    } else if d < i {
        assert(devices[d].id@ != devices[i].id@);
    }
    assert(valid[j].2 == rest[k].raw@);
}

proof fn lemma_joined_distinct<C, T>(
    rest: Seq<DeviceRuntime<C, T>>,
    new: Seq<DeviceRuntime<C, T>>,
    keep: Seq<Seq<char>>,
    ids: Seq<Seq<char>>,
)
    requires
        distinct_ids(rest),
        (keep + ids).no_duplicates(),
        ids == ids_of(new),
        forall|k: int| 0 <= k < rest.len() ==> keep.contains((#[trigger] rest[k]).id@),
    ensures
        distinct_ids(rest + new),
{
    let now = rest + new;
    lemma_second_part_distinct(keep, ids);
    assert forall|i: int, j: int| 0 <= i < j < now.len() implies (#[trigger] now[i]).id@ != (
    #[trigger] now[j]).id@ by {
        if j < rest.len() {
            assert(rest[i].id@ != rest[j].id@);
        } else if i >= rest.len() {
            assert(ids[i - rest.len()] != ids[j - rest.len()]);
        } else {
            lemma_parts_apart(keep, ids, rest[i].id@);
            assert(ids.contains(ids[j - rest.len()]));
        }
    }
}

/// A change of which every launch succeeds makes the candidate run: what runs afterwards is exactly what
/// the candidate can run, each instance once and from the candidate's own subtree.
pub proof fn a_change_that_launches_everything_runs_the_candidate<C, T>(
    devices: Seq<DeviceRuntime<C, T>>,
    bound: JsonV,
    raw: JsonV,
    global: Result<GlobalConfig, String>,
    verdicts: Seq<Result<C, String>>,
    new: Seq<DeviceRuntime<C, T>>,
)
    requires
        distinct_ids(devices),
        verdicts.len() == candidates(raw).len(),
        planned(running_of(devices), bound, raw, global, verdicts) is Ok,
        ({
            let p = planned(running_of(devices), bound, raw, global, verdicts)->Ok_0;
            &&& new.len() == p.start.len()
            &&& forall|i: int|
                0 <= i < new.len() ==> (#[trigger] new[i]).id@ == p.start[i].0 && new[i].raw@
                    == p.start[i].2
        }),
    ensures
        ({
            let p = planned(running_of(devices), bound, raw, global, verdicts)->Ok_0;
            let valid = valid_among(candidates(raw), verdicts, verdicts.len());
            let now = detached(devices, p.stop, p.stop.len()).0 + new;
            &&& distinct_ids(now)
            &&& forall|k: int|
                0 <= k < now.len() ==> is_held(valid, (#[trigger] now[k]).id@, now[k].raw@)
            &&& forall|j: int|
                0 <= j < valid.len() ==> is_running(now, (#[trigger] valid[j]).0, valid[j].2)
        }),
{
    let live = running_of(devices);
    let p = planned(live, bound, raw, global, verdicts)->Ok_0;
    let valid = valid_among(candidates(raw), verdicts, verdicts.len());
    let rest = detached(devices, p.stop, p.stop.len()).0;
    let now = rest + new;
    let ids = started_ids(p.start);
    a_plan_accounts_for_every_instance(live, bound, raw, global, verdicts);
    lemma_detached(devices, p.stop, p.stop.len(), Seq::empty());
    assert(ids =~= ids_of(new));
    assert forall|k: int| 0 <= k < rest.len() implies p.keep.contains((#[trigger] rest[k]).id@) by {
        lemma_kept_is_held(devices, bound, raw, global, verdicts, k);
    }
    lemma_joined_distinct(rest, new, p.keep, ids);
    assert forall|k: int| 0 <= k < now.len() implies is_held(
        valid,
        (#[trigger] now[k]).id@,
        now[k].raw@,
    ) by {
        if k < rest.len() {
            lemma_kept_is_held(devices, bound, raw, global, verdicts, k);
        } else {
            let c = p.start[k - rest.len()];
            assert(now[k] == new[k - rest.len()]);
            assert(p.start.contains(c));
            a_started_instance_is_valid(live, bound, raw, global, verdicts, c);
            let j = choose|j: int| 0 <= j < valid.len() && valid[j] == c;
            assert(valid[j].0 == now[k].id@);
        }
    }
    assert forall|j: int| 0 <= j < valid.len() implies is_running(
        now,
        (#[trigger] valid[j]).0,
        valid[j].2,
    ) by {
        let id = valid[j].0;
        assert(succeeds(valid, id));
        assert((p.keep + ids).contains(id));
        a_change_leaves_what_is_kept_running(devices, bound, raw, global, verdicts, id);
        let at = choose|at: int| 0 <= at < (p.keep + ids).len() && (p.keep + ids)[at] == id;
        let k: int = if at < p.keep.len() {
            choose|k: int| 0 <= k < ids_of(rest).len() && ids_of(rest)[k] == id
        } else {
            rest.len() + (at - p.keep.len())
        };
        if at < p.keep.len() {
            assert(p.keep[at] == id);
            assert(is_among(rest, id));
            assert(now[k] == rest[k]);
        } else {
            assert(ids[at - p.keep.len()] == id);
            assert(now[k] == new[at - p.keep.len()]);
        }
        assert(is_held(valid, now[k].id@, now[k].raw@));
        let m = choose|m: int|
            0 <= m < valid.len() && (#[trigger] valid[m]).0 == now[k].id@ && valid[m].2
                == now[k].raw@;
        valid_ids_are_distinct(raw, verdicts, m, j);
    }
}

proof fn lemma_second_part_distinct<A>(s: Seq<A>, t: Seq<A>)
    requires
        (s + t).no_duplicates(),
    ensures
        t.no_duplicates(),
{
    assert forall|i: int, j: int| 0 <= i < t.len() && 0 <= j < t.len() && i != j implies t[i]
        != t[j] by {
        assert((s + t)[s.len() + i] != (s + t)[s.len() + j]);
    }
}

proof fn lemma_parts_apart<A>(s: Seq<A>, t: Seq<A>, a: A)
    requires
        (s + t).no_duplicates(),
        s.contains(a),
    ensures
        !t.contains(a),
{
    if t.contains(a) {
        let i = choose|i: int| 0 <= i < s.len() && s[i] == a;
        let j = choose|j: int| 0 <= j < t.len() && t[j] == a;
        assert((s + t)[i] != (s + t)[s.len() + j]);
    }
}

/// What runs again of the first `n` instances that were tried.
pub open spec fn brought_back<C, T>(
    waiting: Seq<ParsedInstance<C>>,
    outcomes: Seq<Option<(DeviceMode, T)>>,
    n: nat,
) -> Seq<DeviceRuntime<C, T>>
    decreases n,
{
    if n == 0 {
        Seq::empty()
    } else {
        let before = brought_back(waiting, outcomes, (n - 1) as nat);
        match outcomes[n - 1] {
            Some(up) => before.push(runtime_of(waiting[n - 1], up)),
            None => before,
        }
    }
}

/// Which of the first `n` instances that were tried could not be launched.
pub open spec fn given_up<C, T>(
    waiting: Seq<ParsedInstance<C>>,
    outcomes: Seq<Option<(DeviceMode, T)>>,
    n: nat,
) -> Seq<Seq<char>>
    decreases n,
{
    if n == 0 {
        Seq::empty()
    } else {
        let before = given_up(waiting, outcomes, (n - 1) as nat);
        match outcomes[n - 1] {
            Some(_) => before,
            None => before.push(waiting[n - 1].id@),
        }
    }
}

proof fn lemma_all_relaunched<C, T>(
    start: RestorationV<C, T>,
    outcomes: Seq<Option<(DeviceMode, T)>>,
    n: nat,
)
    requires
        n <= outcomes.len() <= start.waiting.len(),
    ensures
        ({
            let now = start.all_relaunched(outcomes.take(n as int));
            &&& now.waiting == start.waiting.skip(n as int)
            &&& now.failed == start.failed + given_up(start.waiting, outcomes, n)
            &&& now.devices == start.devices + brought_back(start.waiting, outcomes, n)
        }),
    decreases n,
{
    let some = outcomes.take(n as int);
    if n > 0 {
        lemma_all_relaunched(start, outcomes, (n - 1) as nat);
        assert(some.drop_last() =~= outcomes.take(n - 1));
        let before = start.all_relaunched(outcomes.take(n - 1));
        assert(before.waiting[0] == start.waiting[n - 1]);
        assert(before.waiting.skip(1) =~= start.waiting.skip(n as int));
        assert(start.failed + given_up(start.waiting, outcomes, n) =~= (match outcomes[n - 1] {
            Some(_) => before.failed,
            None => before.failed.push(start.waiting[n - 1].id@),
        }));
        assert(start.devices + brought_back(start.waiting, outcomes, n) =~= (match outcomes[n - 1] {
            Some(up) => before.devices.push(runtime_of(start.waiting[n - 1], up)),
            None => before.devices,
        }));
    } else {
        assert(start.waiting.skip(0) =~= start.waiting);
        assert(start.failed + Seq::<Seq<char>>::empty() =~= start.failed);
        assert(start.devices + Seq::<DeviceRuntime<C, T>>::empty() =~= start.devices);
    }
}

proof fn lemma_brought_back<C, T>(
    waiting: Seq<ParsedInstance<C>>,
    outcomes: Seq<Option<(DeviceMode, T)>>,
    n: nat,
)
    requires
        n <= outcomes.len(),
        outcomes.len() == waiting.len(),
    ensures
        forall|i: int|
            0 <= i < n && outcomes[i] is Some ==> brought_back(waiting, outcomes, n).contains(
                #[trigger] runtime_of(waiting[i], outcomes[i]->0),
            ),
        forall|i: int|
            0 <= i < n && outcomes[i] is None ==> given_up(waiting, outcomes, n).contains(
                (#[trigger] waiting[i]).id@,
            ),
        forall|k: int|
            0 <= k < given_up(waiting, outcomes, n).len() ==> exists|i: int|
                0 <= i < n && outcomes[i] is None && (#[trigger] waiting[i]).id@
                    == #[trigger] given_up(waiting, outcomes, n)[k],
        brought_back(waiting, outcomes, n).len() + given_up(waiting, outcomes, n).len() == n,
        given_up(waiting, outcomes, n).len() == 0 ==> configured_of(
            brought_back(waiting, outcomes, n),
        ) == parsed(waiting.take(n as int)),
    decreases n,
{
    let back = brought_back(waiting, outcomes, n);
    let gone = given_up(waiting, outcomes, n);
    if n > 0 {
        lemma_brought_back(waiting, outcomes, (n - 1) as nat);
        let back0 = brought_back(waiting, outcomes, (n - 1) as nat);
        let gone0 = given_up(waiting, outcomes, (n - 1) as nat);
        assert forall|i: int| 0 <= i < n && outcomes[i] is Some implies back.contains(
            #[trigger] runtime_of(waiting[i], outcomes[i]->0),
        ) by {
            let rt = runtime_of(waiting[i], outcomes[i]->0);
            if i < n - 1 {
                let k = choose|k: int| 0 <= k < back0.len() && back0[k] == rt;
                assert(back[k] == rt);
            } else {
                assert(back[back0.len() as int] == rt);
            }
        }
        assert forall|i: int| 0 <= i < n && outcomes[i] is None implies gone.contains(
            (#[trigger] waiting[i]).id@,
        ) by {
            let id = waiting[i].id@;
            if i < n - 1 {
                let k = choose|k: int| 0 <= k < gone0.len() && gone0[k] == id;
                assert(gone[k] == id);
            } else {
                assert(gone[gone0.len() as int] == id);
            }
        }
        assert forall|k: int| 0 <= k < gone.len() implies exists|i: int|
            0 <= i < n && outcomes[i] is None && (#[trigger] waiting[i]).id@ == #[trigger] gone[k] by {
            if k < gone0.len() {
                let i = choose|i: int|
                    0 <= i < n - 1 && outcomes[i] is None && (#[trigger] waiting[i]).id@ == gone0[k];
                assert(waiting[i].id@ == gone[k]);
            } else {
                assert(waiting[n - 1].id@ == gone[k]);
            }
        }
        if gone.len() == 0 {
            assert(configured_of(back) =~= parsed(waiting.take(n as int))) by {
                assert(forall|k: int| 0 <= k < n - 1 ==> configured_of(back)[k] == configured_of(back0)[k]);
                assert(forall|k: int|
                    0 <= k < n - 1 ==> #[trigger] parsed(waiting.take(n as int))[k] == parsed(
                        waiting.take(n - 1),
                    )[k]);
            }
        }
    } else {
        assert(configured_of(back) =~= parsed(waiting.take(0)));
    }
}

/// The way back, whatever of the plan was launched and whatever the relaunches come to: the instances
/// the change launched are out of the registry and only what the plan keeps is left of it; every
/// instance the change stopped is tried with the configuration it ran with, and runs again unless its
/// own relaunch failed; the failed ones are exactly those whose relaunch failed; and when none did, the
/// set of instances and configurations that ran before the change runs again.
pub proof fn the_way_back_restores_what_ran<C, T>(
    devices: Seq<DeviceRuntime<C, T>>,
    bound: JsonV,
    raw: JsonV,
    global: Result<GlobalConfig, String>,
    verdicts: Seq<Result<C, String>>,
    new: Seq<DeviceRuntime<C, T>>,
    stopped: Seq<ParsedInstance<C>>,
    outcomes: Seq<Option<(DeviceMode, T)>>,
)
    requires
        distinct_ids(devices),
        verdicts.len() == candidates(raw).len(),
        planned(running_of(devices), bound, raw, global, verdicts) is Ok,
        ({
            let p = planned(running_of(devices), bound, raw, global, verdicts)->Ok_0;
            let parts = detached(devices, p.stop, p.stop.len());
            &&& forall|i: int|
                0 <= i < new.len() ==> exists|k: int|
                    0 <= k < p.start.len() && (#[trigger] p.start[k]).0 == (#[trigger] new[i]).id@
            &&& parsed(stopped) == configured_of(parts.1)
        }),
        outcomes.len() == stopped.len(),
    ensures
        ({
            let p = planned(running_of(devices), bound, raw, global, verdicts)->Ok_0;
            let parts = detached(devices, p.stop, p.stop.len());
            let back = detached(parts.0 + new, ids_of(new), new.len());
            let start = RestorationV { waiting: stopped, failed: Seq::empty(), devices: back.0 };
            let end = start.all_relaunched(outcomes);
            &&& back == (parts.0, new)
            &&& end.waiting.len() == 0
            &&& forall|k: int| 0 <= k < parts.0.len() ==> end.devices.contains(#[trigger] parts.0[k])
            &&& forall|i: int|
                0 <= i < stopped.len() && outcomes[i] is Some ==> end.devices.contains(
                    #[trigger] runtime_of(stopped[i], outcomes[i]->0),
                )
            &&& forall|i: int|
                0 <= i < stopped.len() && outcomes[i] is None ==> end.failed.contains(
                    (#[trigger] stopped[i]).id@,
                )
            &&& forall|k: int|
                0 <= k < end.failed.len() ==> exists|i: int|
                    0 <= i < stopped.len() && outcomes[i] is None && (#[trigger] stopped[i]).id@
                        == #[trigger] end.failed[k]
            &&& end.devices.len() + end.failed.len() == devices.len()
            &&& end.failed.len() == 0 <==> forall|i: int|
                0 <= i < outcomes.len() ==> (#[trigger] outcomes[i]) is Some
            &&& end.failed.len() == 0 ==> configured_of(end.devices).to_multiset() == configured_of(
                devices,
            ).to_multiset()
        }),
{
    let live = running_of(devices);
    let p = planned(live, bound, raw, global, verdicts)->Ok_0;
    let parts = detached(devices, p.stop, p.stop.len());
    assert forall|i: int| 0 <= i < new.len() implies !is_among(parts.0, (#[trigger] new[i]).id@) by {
        let k = choose|k: int|
            0 <= k < p.start.len() && (#[trigger] p.start[k]).0 == new[i].id@;
        assert(p.start.contains(p.start[k]));
        a_started_instance_is_not_kept(live, bound, raw, global, verdicts, p.start[k]);
        a_change_leaves_what_is_kept_running(devices, bound, raw, global, verdicts, new[i].id@);
    }
    lemma_withdrawn(parts.0, new, new.len());
    assert(parts.0 + new.skip(new.len() as int) =~= parts.0);
    assert(new.take(new.len() as int) =~= new);
    nothing_is_lost(devices, p.stop, p.stop.len());
    let n = stopped.len();
    let start = RestorationV { waiting: stopped, failed: Seq::empty(), devices: parts.0 };
    lemma_all_relaunched(start, outcomes, n);
    lemma_brought_back(stopped, outcomes, n);
    assert(outcomes.take(n as int) =~= outcomes);
    let end = start.all_relaunched(outcomes);
    let again = brought_back(stopped, outcomes, n);
    let gone = given_up(stopped, outcomes, n);
    assert(end.failed =~= gone);
    assert forall|k: int| 0 <= k < parts.0.len() implies end.devices.contains(
        #[trigger] parts.0[k],
    ) by {
        assert(end.devices[k] == parts.0[k]);
    }
    assert forall|i: int| 0 <= i < stopped.len() && outcomes[i] is Some implies end.devices.contains(
        #[trigger] runtime_of(stopped[i], outcomes[i]->0),
    ) by {
        let rt = runtime_of(stopped[i], outcomes[i]->0);
        let k = choose|k: int| 0 <= k < again.len() && again[k] == rt;
        assert(end.devices[parts.0.len() + k] == rt);
    }
    if gone.len() == 0 {
        assert forall|i: int| 0 <= i < outcomes.len() implies (#[trigger] outcomes[i]) is Some by {
            if outcomes[i] is None {
                assert(gone.contains(stopped[i].id@));
            }
        }
    } else {
        let i = choose|i: int|
            0 <= i < n && outcomes[i] is None && (#[trigger] stopped[i]).id@ == gone[0];
        assert(outcomes[i] is None);
    }
    {
        broadcast use vstd::seq_lib::group_to_multiset_ensures;

        assert(configured_of(devices).to_multiset().len() == devices.len());
        assert(configured_of(parts.0).to_multiset().len() == parts.0.len());
        assert(configured_of(parts.1).to_multiset().len() == parts.1.len());
        assert(parsed(stopped).len() == stopped.len());
    }
    if gone.len() == 0 {
        assert(stopped.take(n as int) =~= stopped);
        assert(configured_of(parts.0 + again) =~= configured_of(parts.0) + configured_of(again));
        vstd::seq_lib::lemma_multiset_commutative(configured_of(parts.0), configured_of(again));
    }
}

// ---- what a change takes out, hands over and tells ----

proof fn lemma_places<C, T>(
    devices: Seq<DeviceRuntime<C, T>>,
    stop: Seq<Seq<char>>,
    n: nat,
) -> (places: Seq<int>)
    requires
        n <= stop.len(),
    ensures
        ({
            let parts = detached(devices, stop, n);
            &&& places.len() == parts.0.len()
            &&& forall|a: int, b: int| 0 <= a < b < places.len() ==> places[a] < places[b]
            &&& forall|k: int|
                0 <= k < places.len() ==> 0 <= #[trigger] places[k] < devices.len() && parts.0[k]
                    == devices[places[k]]
            &&& forall|k: int| 0 <= k < parts.1.len() ==> devices.contains(#[trigger] parts.1[k])
            &&& parts.0.len() + parts.1.len() == devices.len()
            &&& forall|i: int|
                0 <= i < devices.len() ==> places.contains(i) || parts.1.contains(
                    #[trigger] devices[i],
                )
        }),
    decreases n,
{
    let parts = detached(devices, stop, n);
    if n == 0 {
        let places = Seq::new(devices.len(), |k: int| k);
        assert forall|i: int| 0 <= i < devices.len() implies places.contains(i)
            || parts.1.contains(#[trigger] devices[i]) by {
            assert(places[i] == i);
        }
        places
    } else {
        let places = lemma_places(devices, stop, (n - 1) as nat);
        let before = detached(devices, stop, (n - 1) as nat);
        lemma_found(before.0, stop[n - 1]);
        match first_of(before.0, stop[n - 1]) {
            Some(at) => {
                let now = places.remove(at);
                assert forall|k: int| 0 <= k < now.len() implies 0 <= #[trigger] now[k]
                    < devices.len() && parts.0[k] == devices[now[k]] by {
                    let was = if k < at {
                        k
                    } else {
                        k + 1
                    };
                    assert(now[k] == places[was]);
                }
                assert(devices.contains(devices[places[at]]));
                assert forall|k: int| 0 <= k < parts.1.len() implies devices.contains(
                    #[trigger] parts.1[k],
                ) by {
                    if k < before.1.len() {
                        assert(parts.1[k] == before.1[k]);
                    } else {
                        assert(parts.1[k] == devices[places[at]]);
                    }
                }
                assert forall|i: int| 0 <= i < devices.len() implies now.contains(i)
                    || parts.1.contains(#[trigger] devices[i]) by {
                    if places.contains(i) {
                        let k = choose|k: int| 0 <= k < places.len() && places[k] == i;
                        if k < at {
                            assert(now[k] == i);
                        } else if k > at {
                            assert(now[k - 1] == i);
                        } else {
                            assert(parts.1[before.1.len() as int] == devices[i]);
                        }
                    } else {
                        let k = choose|k: int| 0 <= k < before.1.len() && before.1[k] == devices[i];
                        assert(parts.1[k] == devices[i]);
                    }
                }
                now
            },
            None => places,
        }
    }
}

/// A change takes out of the running instances exactly those that it stops, each as it runs, and leaves the
/// others as they are and in their order.
pub proof fn a_change_takes_out_exactly_what_it_stops<C, T>(
    devices: Seq<DeviceRuntime<C, T>>,
    stop: Seq<Seq<char>>,
) -> (places: Seq<int>)
    requires
        distinct_ids(devices),
    ensures
        ({
            let left = detached(devices, stop, stop.len()).0;
            let out = detached(devices, stop, stop.len()).1;
            &&& left.len() + out.len() == devices.len()
            &&& places.len() == left.len()
            &&& forall|a: int, b: int| 0 <= a < b < places.len() ==> places[a] < places[b]
            &&& forall|k: int|
                0 <= k < places.len() ==> 0 <= #[trigger] places[k] < devices.len() && left[k]
                    == devices[places[k]]
            &&& forall|i: int|
                0 <= i < devices.len() ==> (places.contains(i) <==> !stop.contains(
                    (#[trigger] devices[i]).id@,
                ))
            &&& forall|i: int|
                0 <= i < devices.len() && stop.contains(devices[i].id@) ==> out.contains(
                    #[trigger] devices[i],
                )
            &&& forall|k: int| 0 <= k < out.len() ==> devices.contains(#[trigger] out[k])
        }),
{
    let places = lemma_places(devices, stop, stop.len());
    let left = detached(devices, stop, stop.len()).0;
    let out = detached(devices, stop, stop.len()).1;
    assert(stop.take(stop.len() as int) =~= stop);
    assert forall|i: int| 0 <= i < devices.len() implies (places.contains(i) <==> !stop.contains(
        (#[trigger] devices[i]).id@,
    )) by {
        let id = devices[i].id@;
        lemma_detached(devices, stop, stop.len(), id);
        assert(ids_of(devices)[i] == id);
        assert(is_among(devices, id));
        if places.contains(i) {
            let k = choose|k: int| 0 <= k < places.len() && places[k] == i;
            assert(left[k] == devices[places[k]]);
            assert(ids_of(left)[k] == id);
            assert(is_among(left, id));
        }
        if !stop.contains(id) {
            assert(is_among(left, id));
            let k = choose|k: int| 0 <= k < ids_of(left).len() && ids_of(left)[k] == id;
            let p = places[k];
            assert(left[k] == devices[p]);
            if p < i {
                assert(devices[p].id@ != devices[i].id@);
            } else if i < p {
                assert(devices[i].id@ != devices[p].id@);
            }
        }
    }
    places
}

/// What is stopped is handed over one for one: under its own id, and with what that very instance is
/// stopped with.
pub proof fn what_is_stopped_is_handed_over<C, T>(
    devices: Seq<DeviceRuntime<C, T>>,
    stopping: Seq<Stopping<T>>,
    k: int,
)
    requires
        handed(stopping) == handed_of(devices),
        0 <= k < devices.len(),
    ensures
        stopping.len() == devices.len(),
        stopping[k].id@ == devices[k].id@,
        stopping[k].rest == devices[k].rest,
{
    assert(handed(stopping).len() == stopping.len());
    assert(handed(stopping)[k] == handed_of(devices)[k]);
}

/// The alarms that are cleared are those of the ids that ran, each once for each time it is listed, in that
/// order.
pub proof fn an_alarm_is_cleared_for_what_ran<C, T>(
    devices: Seq<DeviceRuntime<C, T>>,
    ids: Seq<Seq<char>>,
    n: nat,
) -> (places: Seq<int>)
    requires
        n <= ids.len(),
    ensures
        ({
            let found = found_among(devices, ids, n);
            &&& places.len() == found.len()
            &&& forall|a: int, b: int| 0 <= a < b < places.len() ==> places[a] < places[b]
            &&& forall|k: int|
                0 <= k < places.len() ==> 0 <= #[trigger] places[k] < n && found[k] == ids[places[k]]
            &&& forall|i: int|
                0 <= i < n ==> (#[trigger] places.contains(i) <==> exists|d: int|
                    0 <= d < devices.len() && (#[trigger] devices[d]).id@ == ids[i])
        }),
    decreases n,
{
    if n == 0 {
        Seq::empty()
    } else {
        let before = an_alarm_is_cleared_for_what_ran(devices, ids, (n - 1) as nat);
        let id = ids[n - 1];
        assert(is_among(devices, id) <==> exists|d: int|
            0 <= d < devices.len() && (#[trigger] devices[d]).id@ == id) by {
            if is_among(devices, id) {
                let d = choose|d: int| 0 <= d < ids_of(devices).len() && ids_of(devices)[d] == id;
                assert(devices[d].id@ == id);
            }
            if exists|d: int| 0 <= d < devices.len() && (#[trigger] devices[d]).id@ == id {
                let d = choose|d: int| 0 <= d < devices.len() && (#[trigger] devices[d]).id@ == id;
                assert(ids_of(devices)[d] == id);
            }
        }
        let places = if is_among(devices, id) {
            before.push(n - 1)
        } else {
            before
        };
        assert forall|i: int| 0 <= i < n implies (#[trigger] places.contains(i) <==> exists|d: int|
            0 <= d < devices.len() && (#[trigger] devices[d]).id@ == ids[i]) by {
            crate::engine::lemma_int_push(before, n - 1, i);
            if i == n - 1 && before.contains(i) {
                let k = choose|k: int| 0 <= k < before.len() && before[k] == i;
                assert(before[k] < n - 1);
            }
        }
        places
    }
}

/// The operator is told of every instance that was launched, stopped or kept, of every one that was
/// skipped, with why, and of whether everything had to be started again.
pub proof fn a_change_tells_what_it_came_to<C>(t: ReloadTransaction<C>)
    ensures
        ({
            let c = applied_context(t);
            &&& c["started"@] matches JsonV::Array(s) && s.len() == t.undo.launched@.len()
                && forall|i: int|
                0 <= i < s.len() ==> #[trigger] s[i] == JsonV::Text(t.undo.launched@[i]@)
            &&& c["stopped"@] matches JsonV::Array(s) && s.len() == t.plan.stop@.len() && forall|i: int|
                0 <= i < s.len() ==> #[trigger] s[i] == JsonV::Text(t.plan.stop@[i]@)
            &&& c["kept"@] matches JsonV::Array(s) && s.len() == t.plan.keep@.len() && forall|i: int|
                0 <= i < s.len() ==> #[trigger] s[i] == JsonV::Text(t.plan.keep@[i]@)
            &&& c["skipped"@] matches JsonV::Array(s) && s.len() == t.plan.skipped@.len()
                && forall|i: int|
                0 <= i < s.len() ==> #[trigger] s[i] == JsonV::Array(
                    seq![
                        JsonV::Text(t.plan.skipped@[i].id@),
                        JsonV::Text(t.plan.skipped@[i].reason@),
                    ],
                )
            &&& c["restartAll"@] == JsonV::Bool(t.plan.restart_all)
        }),
{
    reveal_strlit("started");
    reveal_strlit("stopped");
    reveal_strlit("kept");
    reveal_strlit("skipped");
    reveal_strlit("restartAll");
    assert("started"@.len() == 7 && "stopped"@.len() == 7 && "skipped"@.len() == 7);
    assert("kept"@.len() == 4 && "restartAll"@.len() == 10);
    assert("started"@[2] != "stopped"@[2]);
    assert("started"@[1] != "skipped"@[1]);
    assert("stopped"@[1] != "skipped"@[1]);
}

/// A launched instance is registered under the id and with the subtree of the plan, and with the mode, the
/// configuration and the tasks that the launch made.
pub proof fn a_launched_instance_is_registered_as_planned<C, T>(
    d: DeviceRuntime<C, T>,
    p: ParsedInstance<C>,
    made: DeviceRuntime<C, T>,
)
    requires
        launched_as(d, p, made),
    ensures
        d.id@ == p.id@,
        d.raw@ == p.raw@,
        d.mode == made.mode,
        d.cfg == made.cfg,
        d.rest == made.rest,
{
}

/// An instance that is tried again is tried no second time. Where it comes up it runs, behind the others,
/// under its id and with the configuration and subtree it had; where it does not, it is named as failed and
/// nothing else changes.
pub proof fn an_instance_tried_again_runs_or_is_given_up<C, T>(
    r: RestorationV<C, T>,
    outcome: Option<(DeviceMode, T)>,
)
    requires
        r.waiting.len() > 0,
    ensures
        ({
            let now = r.relaunched(outcome);
            let p = r.waiting[0];
            &&& now.waiting.len() == r.waiting.len() - 1
            &&& forall|i: int|
                0 <= i < now.waiting.len() ==> #[trigger] now.waiting[i] == r.waiting[i + 1]
            &&& match outcome {
                Some((mode, rest)) => {
                    &&& now.failed == r.failed
                    &&& now.devices.len() == r.devices.len() + 1
                    &&& now.devices.drop_last() == r.devices
                    &&& now.devices.last().id == p.id
                    &&& now.devices.last().cfg == p.cfg
                    &&& now.devices.last().raw == p.raw
                    &&& now.devices.last().mode == mode
                    &&& now.devices.last().rest == rest
                },
                None => {
                    &&& now.devices == r.devices
                    &&& now.failed == r.failed.push(p.id@)
                },
            }
        }),
{
    assert(r.relaunched(outcome).devices.drop_last() =~= r.devices || outcome is None);
}

/// Names are told in their order with a comma and a space between each two: the names of two lists, one
/// behind the other, are told as those of the first, a comma and a space, and those of the second.
pub proof fn names_are_told_with_commas(s: Seq<Seq<char>>, t: Seq<Seq<char>>, n: nat)
    requires
        s.len() > 0,
        0 < n <= t.len(),
    ensures
        comma_list(s.take(1), 1) == s[0],
        comma_list(s + t, s.len() + n) == comma_list(s, s.len()) + ", "@ + comma_list(t, n),
    decreases n,
{
    assert(s.take(1)[0] == s[0]);
    assert((s + t)[s.len() + n - 1] == t[n - 1]);
    if n == 1 {
        lemma_first_names(s + t, s, s.len());
    } else {
        names_are_told_with_commas(s, t, (n - 1) as nat);
        assert(comma_list(s, s.len()) + ", "@ + (comma_list(t, (n - 1) as nat) + ", "@ + t[n - 1])
            =~= (comma_list(s, s.len()) + ", "@ + comma_list(t, (n - 1) as nat)) + ", "@ + t[n - 1]);
    }
}

proof fn lemma_first_names(all: Seq<Seq<char>>, s: Seq<Seq<char>>, n: nat)
    requires
        n <= s.len(),
        n <= all.len(),
        forall|i: int| 0 <= i < n ==> all[i] == s[i],
    ensures
        comma_list(all, n) == comma_list(s, n),
    decreases n,
{
    if n > 1 {
        lemma_first_names(all, s, (n - 1) as nat);
    }
}

/// A generation is the document it is bound to, that document without its instances, and the component's
/// own block.
pub proof fn a_generation_is_bound_to_its_document(snapshot: JsonV, global: GlobalConfig)
    ensures
        generation(snapshot, global).snapshot == snapshot,
        generation(snapshot, global).non_instance == without_instances(snapshot),
        generation(snapshot, global).global == global,
{
}

/// Every refusal is reported under a code of its own, and one whose cause is known tells that cause.
pub proof fn every_refusal_has_its_own_code(e: String, ids: Vec<String>)
    ensures
        ApplyError::Starting.code_text() == "STARTING"@,
        ApplyError::ShuttingDown.code_text() == "SHUTTING_DOWN"@,
        ApplyError::InvalidGlobal(e).code_text() == "INVALID_GLOBAL"@,
        ApplyError::NoValidInstances.code_text() == "NO_VALID_INSTANCES"@,
        ApplyError::NoRunningInstances.code_text() == "NO_RUNNING_INSTANCES"@,
        ApplyError::RollbackRelaunchFailed(ids).code_text() == "ROLLBACK_RELAUNCH_FAILED"@,
        ApplyError::InvalidGlobal(e).text() == e@,
        ids@.len() == 1 ==> ApplyError::RollbackRelaunchFailed(ids).text()
            == "the previous configuration was restored except for: "@ + ids@[0]@,
{
    if ids@.len() == 1 {
        assert(texts(ids@)[0] == ids@[0]@);
    }
}

} // verus!
