//! The poll loop: scheduled reads, gated, batched and published, with the control verbs served in
//! between. One task owns the session, so everything here happens one after the other; the caller
//! performs each step the loop asks for and hands back how it went.

use vstd::prelude::*;

use crate::clock::{Duration, Instant, NANOS_PER_SEC};
use crate::config::{batch_window, DeviceConfig, GlobalConfig, PollGroup, PublishMode, SignalSpec};
use crate::counters::{add_up, sum};
use crate::device::{DeviceError, Quality, Reading};
use crate::device_metrics::{DeviceMetrics, PollCycle};
use crate::emit::{emissions, health_emitted, Emission};
use crate::engine::{flushes, publishes, stale_among, Engine, Publish};
use crate::health::{bump, bumped, Health, LinkState};
use crate::metrics::Outcome;
use crate::notice::Notice;
use crate::observed::ObservedTypes;
use crate::pause::{apply_pause, asked_by, paused_to};
use crate::poll::{
    distinct_tags, every_signal_that_passes_is_published, gated, group_run, process_group, reading_of,
    record_cycle, start_of, the_last_reading_of_a_signal_counts, Gate, GateV, GroupV,
};
use crate::publish::{cycle_overran, passes, StateV};
use crate::sim::BrowsePage;
use crate::step::StepOrder;
use crate::text::owned;

verus! {

/// How the poll loop was left. In every case the session is to be closed.
#[derive(Clone, Copy, Debug, PartialEq, Eq, Structural)]
pub enum PollExit {
    /// The link broke: back off and reconnect.
    LinkLost,
    /// A reconnect was asked for: connect again at once and answer it.
    Reconnect,
    /// Cancelled, or the control channel closed: neither reconnect nor alarm.
    Stopped,
}

/// The sample counters at one point in time.
#[derive(Clone, Copy, Debug, PartialEq, Eq, Structural)]
pub struct SampleSnapshot {
    pub good: u64,
    pub bad: u64,
    pub uncertain: u64,
    pub changed: u64,
    pub suppressed: u64,
}

/// How far a counter has gone since it stood at `before`.
pub open spec fn apart(now: u64, before: u64) -> u64 {
    if now >= before {
        (now - before) as u64
    } else {
        (now - before + 0x1_0000_0000_0000_0000) as u64
    }
}

fn distance(now: u64, before: u64) -> (r: u64)
    ensures
        r == apart(now, before),
{
    now.wrapping_sub(before)
}

impl SampleSnapshot {
    pub open spec fn of(h: Health) -> SampleSnapshot {
        SampleSnapshot {
            good: h.samples_good,
            bad: h.samples_bad,
            uncertain: h.samples_uncertain,
            changed: h.samples_changed,
            suppressed: h.samples_suppressed,
        }
    }

    /// The counters as they stand.
    pub fn take(health: &Health) -> (r: SampleSnapshot)
        ensures
            r == SampleSnapshot::of(*health),
    {
        SampleSnapshot {
            good: health.samples_good,
            bad: health.samples_bad,
            uncertain: health.samples_uncertain,
            changed: health.samples_changed,
            suppressed: health.samples_suppressed,
        }
    }

    pub open spec fn minus(self, before: SampleSnapshot) -> SampleSnapshot {
        SampleSnapshot {
            good: apart(self.good, before.good),
            bad: apart(self.bad, before.bad),
            uncertain: apart(self.uncertain, before.uncertain),
            changed: apart(self.changed, before.changed),
            suppressed: apart(self.suppressed, before.suppressed),
        }
    }

    /// What was counted since `before`.
    pub fn delta_since(self, before: SampleSnapshot) -> (r: SampleSnapshot)
        ensures
            r == self.minus(before),
    {
        SampleSnapshot {
            good: distance(self.good, before.good),
            bad: distance(self.bad, before.bad),
            uncertain: distance(self.uncertain, before.uncertain),
            changed: distance(self.changed, before.changed),
            suppressed: distance(self.suppressed, before.suppressed),
        }
    }
}

/// What the loop is in the middle of.
#[derive(Clone, Copy, Debug, PartialEq, Eq, Structural)]
pub enum PollPhase {
    /// Nothing: it waits for a verb or its next deadline.
    Waiting,
    /// A confirmed write.
    Writing,
    /// An on-demand read.
    ReadingNow,
    Browsing,
    /// The keepalive probe of a paused device.
    Probing(Instant),
    /// Publishing the windows that closed.
    Flushing(Instant),
    /// Reading a group that is due; the counters are those before it.
    Polling(Instant, usize, SampleSnapshot),
    /// Publishing what a group's readings came to, with how long the read took.
    Publishing(Instant, usize, SampleSnapshot, Duration),
    /// Reading a group out of turn, with how many signals were read so far.
    Repolling(usize, u64),
    /// Publishing what its readings came to.
    Republishing(usize, u64),
    /// The loop was left.
    Left,
}

/// The poll loop of one device.
#[derive(Debug)]
pub struct PollLoop {
    pub engine: Engine,
    /// The cadence of each group, in milliseconds.
    pub intervals: Vec<u64>,
    pub batch_ms: u64,
    pub stale_secs: u64,
    pub metrics_secs: u64,
    pub keepalive_ms: u64,
    /// When each group is due next, in nanoseconds on the clock.
    pub deadlines: Vec<u128>,
    pub since_health: Instant,
    pub since_keepalive: Instant,
    pub paused: bool,
    pub phase: PollPhase,
    /// The updates to publish, and how many of them are done.
    pub queue: Vec<Publish>,
    pub done: usize,
}

/// What the caller is to do next.
#[derive(Clone, Copy, Debug, PartialEq, Eq, Structural)]
pub enum PollNext {
    /// Wait for cancellation, a control verb or that point on the clock, in that order.
    Wait(u128),
    /// Perform the write that was asked for.
    Write,
    /// Perform the read that was asked for.
    ReadNow,
    /// Perform the browse that was asked for.
    Browse,
    /// Probe the session.
    Probe,
    /// Read that group.
    ReadGroup(usize),
    /// Publish the update [`PollLoop::job`] names.
    Publish,
    /// Close the session; the loop is left.
    Close(PollExit),
}

/// Why a browse was not answered.
#[derive(Clone, Debug)]
pub enum BrowseError {
    Unsupported,
    Failed(String),
}

/// The answer to a control verb.
#[derive(Debug)]
pub enum PollReply {
    /// Whether pausing or resuming changed anything.
    Changed(bool),
    /// The outcome of a write.
    Written(Result<(), String>),
    /// What an on-demand read gave, or why it gave nothing.
    ReadNow(Result<Vec<Reading>, String>),
    /// How many signals were read out of turn, or why they were not.
    Repolled(Result<u64, String>),
    /// The page a browse gave, or why it gave none.
    Browsed(Result<BrowsePage, BrowseError>),
    /// The verb is not one for a polled device.
    NoSnapshot,
    Refused(String),
}

/// What one step of the loop comes to.
#[derive(Debug)]
pub struct PollStep {
    pub reply: Option<PollReply>,
    /// The metrics to emit.
    pub emit: Vec<Emission>,
    pub notices: Vec<Notice>,
    pub order: StepOrder,
    pub next: PollNext,
}

/// The control verbs.
#[derive(Clone, Copy, Debug, PartialEq, Eq, Structural)]
pub enum ControlVerb {
    Write,
    ReadNow,
    Pause,
    Resume,
    Reconnect,
    Repoll,
    Browse,
    Snapshot,
    WriteOutput,
}

/// The readings of a group.
#[derive(Debug)]
pub struct GroupReading {
    pub readings: Vec<Reading>,
    /// How long the read took.
    pub elapsed: Duration,
    /// When it was done.
    pub now: Instant,
    pub server_ts: String,
    /// For each signal of the group, the deadband's verdict on each number of its reading.
    pub moved: Vec<Vec<bool>>,
}

/// At least one.
pub open spec fn at_least_one(n: u64) -> u64 {
    if n == 0 {
        1
    } else {
        n
    }
}

/// At least one.
pub fn one_or_more(n: u64) -> (r: u64)
    ensures
        r == at_least_one(n),
{
    if n == 0 {
        1
    } else {
        n
    }
}

/// The earliest of the first `n` deadlines, and the first place it stands at.
pub open spec fn earliest(deadlines: Seq<u128>, n: nat) -> int
    decreases n,
{
    if n <= 1 {
        0
    } else {
        let best = earliest(deadlines, (n - 1) as nat);
        if deadlines[n - 1] < deadlines[best] {
            n - 1
        } else {
            best
        }
    }
}

/// The group that is due first, if one is due.
pub open spec fn due_group(deadlines: Seq<u128>, now: Instant) -> Option<int> {
    let best = earliest(deadlines, deadlines.len());
    if deadlines[best] <= now.nanos {
        Some(best)
    } else {
        None
    }
}

/// A group's next deadline: one interval on, but not in the past.
pub open spec fn rearmed(deadline: u128, interval_ms: u64, now: Instant) -> u128 {
    let next = (deadline + interval_ms * 1_000_000) as u128;
    if next >= now.nanos {
        next
    } else {
        now.nanos as u128
    }
}

proof fn lemma_earliest(deadlines: Seq<u128>, n: nat)
    requires
        0 < n <= deadlines.len(),
    ensures
        0 <= earliest(deadlines, n) < n,
        forall|i: int|
            0 <= i < n ==> deadlines[earliest(deadlines, n)] <= #[trigger] deadlines[i],
        forall|i: int|
            0 <= i < earliest(deadlines, n) ==> deadlines[earliest(deadlines, n)]
                < #[trigger] deadlines[i],
    decreases n,
{
    if n > 1 {
        lemma_earliest(deadlines, (n - 1) as nat);
    }
}

impl PollLoop {
    /// The loop fits the device: every group has a cadence and a deadline, and whatever the loop is in
    /// the middle of exists.
    pub open spec fn wf(self, cfg: DeviceConfig) -> bool {
        &&& self.engine.wf()
        &&& self.deadlines@.len() == cfg.poll_groups@.len()
        &&& self.intervals@.len() == cfg.poll_groups@.len()
        &&& cfg.poll_groups@.len() > 0
        &&& self.done <= self.queue@.len()
        &&& match self.phase {
            PollPhase::Flushing(_) => self.done < self.queue@.len(),
            PollPhase::Polling(_, g, _) => g < cfg.poll_groups@.len(),
            PollPhase::Publishing(_, g, _, _) => g < cfg.poll_groups@.len() && self.done
                < self.queue@.len(),
            PollPhase::Repolling(g, _) => g < cfg.poll_groups@.len(),
            PollPhase::Republishing(g, _) => g < cfg.poll_groups@.len() && self.done
                < self.queue@.len(),
            _ => true,
        }
    }

    /// A loop that has just started on a device.
    pub open spec fn starts(
        self,
        cfg: DeviceConfig,
        global: GlobalConfig,
        keepalive_ms: u64,
        paused: bool,
        now: Instant,
    ) -> bool {
        &&& self.wf(cfg)
        &&& self.engine.since() == now
        &&& self.engine.known() == Seq::<Seq<char>>::empty()
        &&& forall|k: Seq<char>| #[trigger] self.engine.signal(k) == StateV::unread()
        &&& forall|i: int|
            0 <= i < self.intervals@.len() ==> #[trigger] self.intervals@[i] == at_least_one(
                cfg.poll_groups@[i].poll_interval_ms,
            )
        &&& forall|i: int|
            0 <= i < self.deadlines@.len() ==> #[trigger] self.deadlines@[i] == now.due(
                self.intervals@[i] as int,
            )
        &&& self.batch_ms == batch_window(cfg.defaults, global.defaults)
        &&& self.stale_secs == global.stale_signal_secs
        &&& self.metrics_secs == at_least_one(global.metrics_interval_secs)
        &&& self.keepalive_ms == at_least_one(keepalive_ms)
        &&& self.since_health == now
        &&& self.since_keepalive == now
        &&& self.paused == paused
        &&& self.phase == PollPhase::Waiting
        &&& self.queue@.len() == 0
    }

    /// Start on a device. A pause that came while the link was down carries over.
    pub fn new(
        cfg: &DeviceConfig,
        global: &GlobalConfig,
        keepalive_ms: u64,
        paused: bool,
        now: Instant,
    ) -> (r: PollLoop)
        requires
            cfg.poll_groups@.len() > 0,
        ensures
            r.starts(*cfg, *global, keepalive_ms, paused, now),
    {
        let mut intervals: Vec<u64> = Vec::new();
        let mut deadlines: Vec<u128> = Vec::new();
        let mut i: usize = 0;
        while i < cfg.poll_groups.len()
            invariant
                i <= cfg.poll_groups@.len(),
                intervals@.len() == i,
                deadlines@.len() == i,
                forall|j: int|
                    0 <= j < i ==> #[trigger] intervals@[j] == at_least_one(
                        cfg.poll_groups@[j].poll_interval_ms,
                    ),
                forall|j: int|
                    0 <= j < i ==> #[trigger] deadlines@[j] == now.due(intervals@[j] as int),
            decreases cfg.poll_groups@.len() - i,
        {
            let ms: u64 = one_or_more(cfg.poll_groups[i].poll_interval_ms);
            intervals.push(ms);
            deadlines.push(now.due_after_ms(ms));
            i = i + 1;
        }
        PollLoop {
            engine: Engine::new(now),
            intervals,
            batch_ms: cfg.effective_batch_ms(global),
            stale_secs: global.stale_signal_secs,
            metrics_secs: one_or_more(global.metrics_interval_secs),
            keepalive_ms: one_or_more(keepalive_ms),
            deadlines,
            since_health: now,
            since_keepalive: now,
            paused,
            phase: PollPhase::Waiting,
            queue: Vec::new(),
            done: 0,
        }
    }

    /// When the metrics are due next.
    pub open spec fn metrics_due(self) -> int {
        self.since_health.nanos + self.metrics_secs * 1_000_000_000
    }

    /// `w` is when the loop wakes by itself: the metrics; while paused the keepalive probe, otherwise
    /// the first group and the first window that closes.
    pub open spec fn is_wake(self, w: u128) -> bool {
        if self.paused {
            w == least(self.metrics_due(), self.since_keepalive.due(self.keepalive_ms as int))
        } else {
            exists|close: Option<u128>| #[trigger]
                self.engine.first_close(self.batch_ms, close) && w == least(
                    least(
                        self.metrics_due(),
                        self.deadlines@[earliest(self.deadlines@, self.deadlines@.len())] as int,
                    ),
                    match close {
                        Some(t) => t as int,
                        None => self.metrics_due(),
                    },
                )
        }
    }

    fn first_deadline(&self) -> (r: usize)
        requires
            self.deadlines@.len() > 0,
        ensures
            r == earliest(self.deadlines@, self.deadlines@.len()),
            r < self.deadlines@.len(),
    {
        let mut best: usize = 0;
        let mut i: usize = 1;
        while i < self.deadlines.len()
            invariant
                1 <= i <= self.deadlines@.len(),
                best < i,
                best == earliest(self.deadlines@, i as nat),
            decreases self.deadlines@.len() - i,
        {
            if self.deadlines[i] < self.deadlines[best] {
                best = i;
            }
            i = i + 1;
        }
        best
    }

    /// When the loop wakes by itself.
    pub fn wake(&self) -> (w: u128)
        requires
            self.engine.wf(),
            self.deadlines@.len() > 0,
        ensures
            self.is_wake(w),
    {
        let metrics: u128 = (self.since_health.nanos as u128) + (self.metrics_secs as u128)
            * NANOS_PER_SEC;
        if self.paused {
            let probe: u128 = self.since_keepalive.due_after_ms(self.keepalive_ms);
            if metrics <= probe {
                metrics
            } else {
                probe
            }
        } else {
            let first: u128 = self.deadlines[self.first_deadline()];
            let mut w: u128 = metrics;
            if first < w {
                w = first;
            }
            let close = self.engine.next_batch_deadline(self.batch_ms);
            if let Some(t) = close {
                if t < w {
                    w = t;
                }
            }
            assert(self.engine.first_close(self.batch_ms, close));
            w
        }
    }

    /// The loop waits, and `next` says until when.
    pub open spec fn waits(self, next: PollNext) -> bool {
        self.phase == PollPhase::Waiting && (next matches PollNext::Wait(w) && self.is_wake(w))
    }
}

/// The smaller of two.
pub open spec fn least(a: int, b: int) -> int {
    if a <= b {
        a
    } else {
        b
    }
}

/// Nothing but the loop itself has changed, and nothing is to be emitted or answered.
pub open spec fn quiet(h0: Health, h1: Health, dm0: DeviceMetrics, dm1: DeviceMetrics, step: PollStep) -> bool {
    &&& h1 == h0
    &&& dm1 == dm0
    &&& step.reply is None
    &&& tells_nothing(step)
}

/// Nothing is to be emitted or told.
pub open spec fn tells_nothing(step: PollStep) -> bool {
    step.emit@.len() == 0 && step.notices@.len() == 0
}

/// The end of a tick: when the metrics are due they are emitted, with the stale signals counted unless
/// the device is paused. Then the loop waits.
pub open spec fn tick_done(
    before: PollLoop,
    after: PollLoop,
    cfg: DeviceConfig,
    now: Instant,
    h0: Health,
    h1: Health,
    dm0: DeviceMetrics,
    dm1: DeviceMetrics,
    step: PollStep,
) -> bool {
    &&& after.waits(step.next)
    &&& step.reply is None
    &&& step.order == StepOrder::AnswerLast
    &&& step.notices@.len() == 0
    &&& if now.after(before.since_health) >= before.metrics_secs * 1_000_000_000 {
        let stale = if before.paused {
            0
        } else {
            stale_among(cfg.tags(), before.engine, before.stale_secs, now)
        };
        let h = Health { stale_signals: stale as u64, ..h0 };
        &&& after == (PollLoop { since_health: now, phase: PollPhase::Waiting, ..before })
        &&& stale <= u64::MAX
        &&& emissions(step.emit@) == dm0.periodic_emits(h, now)
        &&& h1 == health_emitted(h)
        &&& dm1.emitted_from(dm0, now)
    } else {
        &&& after == (PollLoop { phase: PollPhase::Waiting, ..before })
        &&& quiet(h0, h1, dm0, dm1, step)
    }
}

/// After the windows were flushed: the group that is due first is re-armed and read, otherwise the tick
/// is done.
pub open spec fn turn(
    before: PollLoop,
    after: PollLoop,
    cfg: DeviceConfig,
    now: Instant,
    h0: Health,
    h1: Health,
    dm0: DeviceMetrics,
    dm1: DeviceMetrics,
    step: PollStep,
) -> bool {
    match due_group(before.deadlines@, now) {
        Some(g) => {
            &&& after == (PollLoop {
                deadlines: after.deadlines,
                phase: PollPhase::Polling(now, g as usize, SampleSnapshot::of(h0)),
                ..before
            })
            &&& after.deadlines@ == before.deadlines@.update(
                g,
                rearmed(before.deadlines@[g], before.intervals@[g], now),
            )
            &&& step.next == PollNext::ReadGroup(g as usize)
            &&& quiet(h0, h1, dm0, dm1, step)
        },
        None => tick_done(before, after, cfg, now, h0, h1, dm0, dm1, step),
    }
}

fn silent(next: PollNext) -> (r: PollStep)
    ensures
        r.reply is None,
        tells_nothing(r),
        r.order == StepOrder::AnswerLast,
        r.next == next,
{
    PollStep {
        reply: None,
        emit: Vec::new(),
        notices: Vec::new(),
        order: StepOrder::AnswerLast,
        next,
    }
}

fn answer(reply: PollReply, next: PollNext) -> (r: PollStep)
    ensures
        r.reply == Some(reply),
        tells_nothing(r),
        r.order == StepOrder::AnswerLast,
        r.next == next,
{
    PollStep {
        reply: Some(reply),
        emit: Vec::new(),
        notices: Vec::new(),
        order: StepOrder::AnswerLast,
        next,
    }
}

impl PollLoop {
    fn finish_tick(
        &mut self,
        cfg: &DeviceConfig,
        now: Instant,
        health: &mut Health,
        dm: &mut DeviceMetrics,
    ) -> (step: PollStep)
        requires
            old(self).engine.wf(),
            old(self).deadlines@.len() > 0,
        ensures
            tick_done(
                *old(self),
                *final(self),
                *cfg,
                now,
                *old(health),
                *final(health),
                *old(dm),
                *final(dm),
                step,
            ),
    {
        let mut emit: Vec<Emission> = Vec::new();
        if now.since(self.since_health).nanos >= Duration::from_secs(self.metrics_secs).nanos {
            let mut stale: u64 = 0;
            if !self.paused {
                let ids = cfg.signal_ids();
                stale = self.engine.count_stale(&ids, self.stale_secs, now);
            }
            health.stale_signals = stale;
            emit = dm.emit_periodic(health, now);
            self.since_health = now;
        }
        self.phase = PollPhase::Waiting;
        let w: u128 = self.wake();
        PollStep {
            reply: None,
            emit,
            notices: Vec::new(),
            order: StepOrder::AnswerLast,
            next: PollNext::Wait(w),
        }
    }

    fn take_turn(
        &mut self,
        cfg: &DeviceConfig,
        now: Instant,
        health: &mut Health,
        dm: &mut DeviceMetrics,
    ) -> (step: PollStep)
        requires
            old(self).engine.wf(),
            old(self).deadlines@.len() > 0,
            old(self).deadlines@.len() == old(self).intervals@.len(),
        ensures
            turn(
                *old(self),
                *final(self),
                *cfg,
                now,
                *old(health),
                *final(health),
                *old(dm),
                *final(dm),
                step,
            ),
    {
        let g: usize = self.first_deadline();
        if self.deadlines[g] <= now.nanos as u128 {
            let next: u128 = self.deadlines[g] + Duration::from_millis(self.intervals[g]).nanos;
            let at: u128 = if next >= now.nanos as u128 {
                next
            } else {
                now.nanos as u128
            };
            self.deadlines.set(g, at);
            self.phase = PollPhase::Polling(now, g, SampleSnapshot::take(health));
            silent(PollNext::ReadGroup(g))
        } else {
            self.finish_tick(cfg, now, health, dm)
        }
    }

    /// Cancelled, or the control channel closed: the loop is left for good.
    pub fn stop(&mut self) -> (step: PollStep)
        ensures
            *final(self) == (PollLoop { phase: PollPhase::Left, ..*old(self) }),
            step.next == PollNext::Close(PollExit::Stopped),
            step.reply is None,
            tells_nothing(step),
    {
        self.phase = PollPhase::Left;
        silent(PollNext::Close(PollExit::Stopped))
    }

    /// What a control verb comes to.
    pub open spec fn served(
        before: PollLoop,
        after: PollLoop,
        cfg: DeviceConfig,
        verb: ControlVerb,
        by: Option<Seq<char>>,
        now: Instant,
        h0: Health,
        h1: Health,
        dm0: DeviceMetrics,
        dm1: DeviceMetrics,
        step: PollStep,
    ) -> bool {
        &&& step.order == StepOrder::AnswerLast
        &&& !(verb is Pause || verb is Resume) ==> tells_nothing(step) && h1 == h0 && dm1 == dm0
        &&& match verb {
            ControlVerb::Write => {
                &&& after == (PollLoop { phase: PollPhase::Writing, ..before })
                &&& step.next == PollNext::Write
                &&& step.reply is None
            },
            ControlVerb::ReadNow => {
                &&& after == (PollLoop { phase: PollPhase::ReadingNow, ..before })
                &&& step.next == PollNext::ReadNow
                &&& step.reply is None
            },
            ControlVerb::Browse => {
                &&& after == (PollLoop { phase: PollPhase::Browsing, ..before })
                &&& step.next == PollNext::Browse
                &&& step.reply is None
            },
            ControlVerb::Pause => {
                &&& after == (PollLoop { engine: after.engine, paused: true, ..before })
                &&& after.engine.discarded_from(before.engine)
                &&& after.waits(step.next)
                &&& step.reply == Some(PollReply::Changed(!h0.paused))
                &&& paused_to(
                    true,
                    cfg.id@,
                    by,
                    now,
                    h0,
                    h1,
                    dm0,
                    dm1,
                    step.emit@,
                    step.notices@,
                )
            },
            ControlVerb::Resume => {
                &&& after == (PollLoop {
                    engine: after.engine,
                    deadlines: after.deadlines,
                    paused: false,
                    ..before
                })
                &&& if h0.paused {
                    &&& after.engine.refreshed_from(before.engine, now)
                    &&& after.deadlines@ == Seq::new(
                        before.intervals@.len(),
                        |i: int| now.due(before.intervals@[i] as int) as u128,
                    )
                } else {
                    &&& after.engine == before.engine
                    &&& after.deadlines == before.deadlines
                }
                &&& after.waits(step.next)
                &&& step.reply == Some(PollReply::Changed(h0.paused))
                &&& paused_to(
                    false,
                    cfg.id@,
                    None,
                    now,
                    h0,
                    h1,
                    dm0,
                    dm1,
                    step.emit@,
                    step.notices@,
                )
            },
            ControlVerb::Reconnect => {
                &&& after == (PollLoop { phase: PollPhase::Left, ..before })
                &&& step.next == PollNext::Close(PollExit::Reconnect)
                &&& step.reply is None
            },
            ControlVerb::Repoll => if before.paused {
                &&& after == before
                &&& after.waits(step.next)
                &&& step.reply matches Some(PollReply::Repolled(Err(e))) && e@
                    == "instance is paused - resume first"@
            } else {
                &&& after == (PollLoop { phase: PollPhase::Repolling(0, 0), ..before })
                &&& step.next == PollNext::ReadGroup(0)
                &&& step.reply is None
            },
            ControlVerb::Snapshot => {
                &&& after == before
                &&& after.waits(step.next)
                &&& step.reply == Some(PollReply::NoSnapshot)
            },
            ControlVerb::WriteOutput => {
                &&& after == before
                &&& after.waits(step.next)
                &&& step.reply matches Some(PollReply::Refused(e)) && e@ == "not a push instance"@
            },
        }
    }

    /// Serve a control verb. Pausing drops the open windows; resuming counts staleness and the cadences
    /// from now on, so that the paused span neither makes a signal stale nor is caught up with.
    /// `by` is who asked for a pause, if that is known.
    pub fn control(
        &mut self,
        cfg: &DeviceConfig,
        verb: ControlVerb,
        by: Option<&str>,
        now: Instant,
        health: &mut Health,
        dm: &mut DeviceMetrics,
    ) -> (step: PollStep)
        requires
            old(self).wf(*cfg),
            old(self).phase == PollPhase::Waiting,
        ensures
            final(self).wf(*cfg),
            PollLoop::served(
                *old(self),
                *final(self),
                *cfg,
                verb,
                asked_by(by),
                now,
                *old(health),
                *final(health),
                *old(dm),
                *final(dm),
                step,
            ),
    {
        match verb {
            ControlVerb::Write => {
                self.phase = PollPhase::Writing;
                silent(PollNext::Write)
            },
            ControlVerb::ReadNow => {
                self.phase = PollPhase::ReadingNow;
                silent(PollNext::ReadNow)
            },
            ControlVerb::Browse => {
                self.phase = PollPhase::Browsing;
                silent(PollNext::Browse)
            },
            ControlVerb::Pause => {
                let p = apply_pause(cfg, health, dm, true, by, now);
                self.engine.discard_open_batches();
                self.paused = true;
                PollStep {
                    reply: Some(PollReply::Changed(p.changed)),
                    emit: p.emit,
                    notices: p.notices,
                    order: StepOrder::AnswerLast,
                    next: PollNext::Wait(self.wake()),
                }
            },
            ControlVerb::Resume => {
                let p = apply_pause(cfg, health, dm, false, None, now);
                if p.changed {
                    self.engine.rebase_stale(now);
                    let mut fresh: Vec<u128> = Vec::new();
                    let mut i: usize = 0;
                    while i < self.intervals.len()
                        invariant
                            i <= self.intervals@.len(),
                            fresh@.len() == i,
                            forall|j: int|
                                0 <= j < i ==> #[trigger] fresh@[j] == now.due(
                                    self.intervals@[j] as int,
                                ) as u128,
                        decreases self.intervals@.len() - i,
                    {
                        fresh.push(now.due_after_ms(self.intervals[i]));
                        i = i + 1;
                    }
                    self.deadlines = fresh;
                    assert(self.deadlines@ =~= Seq::new(
                        old(self).intervals@.len(),
                        |i: int| now.due(old(self).intervals@[i] as int) as u128,
                    ));
                }
                self.paused = false;
                PollStep {
                    reply: Some(PollReply::Changed(p.changed)),
                    emit: p.emit,
                    notices: p.notices,
                    order: StepOrder::AnswerLast,
                    next: PollNext::Wait(self.wake()),
                }
            },
            ControlVerb::Reconnect => {
                self.phase = PollPhase::Left;
                silent(PollNext::Close(PollExit::Reconnect))
            },
            ControlVerb::Repoll => {
                if self.paused {
                    answer(
                        PollReply::Repolled(Err(owned("instance is paused - resume first"))),
                        PollNext::Wait(self.wake()),
                    )
                } else {
                    self.phase = PollPhase::Repolling(0, 0);
                    silent(PollNext::ReadGroup(0))
                }
            },
            ControlVerb::Snapshot => answer(PollReply::NoSnapshot, PollNext::Wait(self.wake())),
            ControlVerb::WriteOutput => answer(
                PollReply::Refused(owned("not a push instance")),
                PollNext::Wait(self.wake()),
            ),
        }
    }

    /// The write was performed; a failure counts.
    pub fn written(&mut self, result: Result<(), String>, health: &mut Health) -> (step: PollStep)
        requires
            old(self).engine.wf(),
            old(self).deadlines@.len() > 0,
            old(self).phase == PollPhase::Writing,
        ensures
            *final(self) == (PollLoop { phase: PollPhase::Waiting, ..*old(self) }),
            final(self).waits(step.next),
            step.reply == Some(PollReply::Written(result)),
            tells_nothing(step),
            *final(health) == (if result is Err {
                Health { write_errors: bumped(old(health).write_errors, 1), ..*old(health) }
            } else {
                *old(health)
            }),
    {
        if result.is_err() {
            health.write_errors = bump(health.write_errors, 1);
        }
        self.phase = PollPhase::Waiting;
        answer(PollReply::Written(result), PollNext::Wait(self.wake()))
    }

    /// The on-demand read was performed. What the device declared is kept; a failure is a lost link.
    pub fn read_now_done(
        &mut self,
        result: Result<Vec<Reading>, String>,
        health: &mut Health,
        observed: &mut ObservedTypes,
    ) -> (step: PollStep)
        requires
            old(self).engine.wf(),
            old(self).deadlines@.len() > 0,
            old(self).phase == PollPhase::ReadingNow,
            old(observed).wf(),
        ensures
            tells_nothing(step),
            step.reply == Some(PollReply::ReadNow(result)),
            match result {
                Ok(readings) => {
                    &&& *final(self) == (PollLoop { phase: PollPhase::Waiting, ..*old(self) })
                    &&& final(self).waits(step.next)
                    &&& *final(health) == *old(health)
                    &&& final(observed).recorded_from(*old(observed), readings@)
                },
                Err(_) => {
                    &&& *final(self) == (PollLoop { phase: PollPhase::Left, ..*old(self) })
                    &&& step.next == PollNext::Close(PollExit::LinkLost)
                    &&& *final(health) == (Health {
                        read_errors: bumped(old(health).read_errors, 1),
                        ..*old(health)
                    })
                    &&& *final(observed) == *old(observed)
                },
            },
    {
        match result {
            Ok(readings) => {
                observed.record_observed(&readings);
                self.phase = PollPhase::Waiting;
                answer(PollReply::ReadNow(Ok(readings)), PollNext::Wait(self.wake()))
            },
            Err(e) => {
                health.read_errors = bump(health.read_errors, 1);
                self.phase = PollPhase::Left;
                answer(PollReply::ReadNow(Err(e)), PollNext::Close(PollExit::LinkLost))
            },
        }
    }

    /// The browse was performed. A failure does not break the link: the next poll finds out.
    pub fn browsed(&mut self, result: Result<BrowsePage, DeviceError>) -> (step: PollStep)
        requires
            old(self).engine.wf(),
            old(self).deadlines@.len() > 0,
            old(self).phase == PollPhase::Browsing,
        ensures
            *final(self) == (PollLoop { phase: PollPhase::Waiting, ..*old(self) }),
            final(self).waits(step.next),
            tells_nothing(step),
            match result {
                Ok(page) => step.reply == Some(PollReply::Browsed(Ok(page))),
                Err(DeviceError::Unsupported(_)) => step.reply == Some(
                    PollReply::Browsed(Err(BrowseError::Unsupported)),
                ),
                Err(e) => step.reply matches Some(PollReply::Browsed(Err(BrowseError::Failed(why))))
                    && why@ == e.text(),
            },
    {
        self.phase = PollPhase::Waiting;
        let next = PollNext::Wait(self.wake());
        let reply = match result {
            Ok(page) => Ok(page),
            Err(DeviceError::Unsupported(_)) => Err(BrowseError::Unsupported),
            Err(e) => Err(BrowseError::Failed(e.message())),
        };
        answer(PollReply::Browsed(reply), next)
    }
}

/// The counters once a publish of a configured signal was confirmed.
pub open spec fn counted_published(h: Health, n: u64, latency_ms: u64) -> Health {
    Health {
        signals_published: bumped(h.signals_published, n as int),
        publish_latency_ms: latency_ms,
        ..h
    }
}

/// How an update is accounted: under which mode, with how many samples, from a window or not.
#[derive(Clone, Copy, Debug, PartialEq, Eq, Structural)]
pub struct Account {
    pub mode: PublishMode,
    pub samples: u64,
    pub from_batch: bool,
}

/// What a publish comes to. Only a configured signal is published at all, so that only one counts.
pub open spec fn accounted(
    configured: bool,
    ok: bool,
    latency_ms: u64,
    a: Account,
    h0: Health,
    h1: Health,
    dm0: DeviceMetrics,
    dm1: DeviceMetrics,
) -> bool {
    if configured {
        &&& h1 == (if ok {
            counted_published(h0, a.samples, latency_ms)
        } else {
            h0
        })
        &&& dm1.publish_recorded_from(dm0, a.mode, a.samples, a.from_batch, latency_ms, ok)
    } else {
        h1 == h0 && dm1 == dm0
    }
}

/// Account for a publish that was performed.
pub fn account(
    configured: bool,
    ok: bool,
    latency_ms: u64,
    a: Account,
    health: &mut Health,
    dm: &mut DeviceMetrics,
)
    ensures
        accounted(
            configured,
            ok,
            latency_ms,
            a,
            *old(health),
            *final(health),
            *old(dm),
            *final(dm),
        ),
{
    if configured {
        if ok {
            health.signals_published = bump(health.signals_published, a.samples);
            health.publish_latency_ms = latency_ms;
        }
        dm.record_publish(a.mode, a.samples, a.from_batch, latency_ms, ok);
    }
}

impl PollLoop {
    /// How the update at hand is accounted: under the mode of the last group that has the signal; a
    /// signal that none has is accounted on change, or under the mode of the group that was read.
    pub open spec fn job_account(self, cfg: DeviceConfig) -> Account {
        let p = self.queue@[self.done as int];
        let fallback = match self.phase {
            PollPhase::Publishing(_, g, _, _) => cfg.poll_groups@[g as int].publish_mode,
            PollPhase::Republishing(g, _) => cfg.poll_groups@[g as int].publish_mode,
            _ => PublishMode::OnChange,
        };
        Account {
            mode: match cfg.mode_of(p.signal_id@) {
                Some(m) => m,
                None => fallback,
            },
            samples: p.samples@.len() as u64,
            from_batch: self.phase is Flushing,
        }
    }

    /// The loop has an update to publish.
    pub open spec fn publishing(self) -> bool {
        self.phase is Flushing || self.phase is Publishing || self.phase is Republishing
    }

    /// The update at hand, the configured signal it belongs to, if there is one, and how it is
    /// accounted.
    pub fn job(&self, cfg: &DeviceConfig) -> (r: (&Publish, Option<(usize, usize)>, Account))
        requires
            self.wf(*cfg),
            self.publishing(),
        ensures
            *r.0 == self.queue@[self.done as int],
            r.2 == self.job_account(*cfg),
            match r.1 {
                Some((g, i)) => {
                    &&& g < cfg.poll_groups@.len()
                    &&& i < cfg.poll_groups@[g as int].signals@.len()
                    &&& cfg.poll_groups@[g as int].signals@[i as int].tag_path@ == r.0@.signal_id
                    &&& cfg.has_signal(r.0@.signal_id)
                },
                None => !cfg.has_signal(r.0@.signal_id),
            },
    {
        let p = &self.queue[self.done];
        let fallback = match self.phase {
            PollPhase::Publishing(_, g, _, _) => cfg.poll_groups[g].publish_mode,
            PollPhase::Republishing(g, _) => cfg.poll_groups[g].publish_mode,
            _ => PublishMode::OnChange,
        };
        let mode = match cfg.signal_mode(p.signal_id.as_str()) {
            Some(m) => m,
            None => fallback,
        };
        let from_batch = matches!(self.phase, PollPhase::Flushing(_));
        let samples: u64 = p.samples.len() as u64;
        (p, cfg.find_signal(p.signal_id.as_str()), Account { mode, samples, from_batch })
    }

    /// The loop with updates to publish, before it goes on with them.
    pub open spec fn with_updates(self, engine: Engine, queue: Vec<Publish>) -> PollLoop {
        PollLoop { engine, queue, done: 0, ..self }
    }

    /// What waking by itself comes to: while paused a keepalive probe when it is due; otherwise the
    /// windows that closed are flushed before the group that is due is read.
    pub open spec fn woken(
        before: PollLoop,
        after: PollLoop,
        cfg: DeviceConfig,
        now: Instant,
        h0: Health,
        h1: Health,
        dm0: DeviceMetrics,
        dm1: DeviceMetrics,
        step: PollStep,
    ) -> bool {
        if before.paused {
            if now.after(before.since_keepalive) >= before.keepalive_ms * 1_000_000 {
                &&& after == (PollLoop {
                    since_keepalive: now,
                    phase: PollPhase::Probing(now),
                    ..before
                })
                &&& step.next == PollNext::Probe
                &&& quiet(h0, h1, dm0, dm1, step)
            } else {
                tick_done(before, after, cfg, now, h0, h1, dm0, dm1, step)
            }
        } else {
            let mid = before.with_updates(after.engine, after.queue);
            &&& after.engine.drained_from(before.engine, now, before.batch_ms)
            &&& publishes(after.queue@) == flushes(
                before.engine.known(),
                before.engine,
                now,
                before.batch_ms,
            )
            &&& if after.queue@.len() > 0 {
                &&& after == (PollLoop { phase: PollPhase::Flushing(now), ..mid })
                &&& step.next == PollNext::Publish
                &&& quiet(h0, h1, dm0, dm1, step)
            } else {
                turn(mid, after, cfg, now, h0, h1, dm0, dm1, step)
            }
        }
    }

    /// The loop woke by itself.
    pub fn woke(
        &mut self,
        cfg: &DeviceConfig,
        now: Instant,
        health: &mut Health,
        dm: &mut DeviceMetrics,
    ) -> (step: PollStep)
        requires
            old(self).wf(*cfg),
            old(self).phase == PollPhase::Waiting,
        ensures
            final(self).wf(*cfg),
            PollLoop::woken(
                *old(self),
                *final(self),
                *cfg,
                now,
                *old(health),
                *final(health),
                *old(dm),
                *final(dm),
                step,
            ),
    {
        if self.paused {
            if now.since(self.since_keepalive).nanos >= Duration::from_millis(self.keepalive_ms).nanos {
                self.since_keepalive = now;
                self.phase = PollPhase::Probing(now);
                silent(PollNext::Probe)
            } else {
                self.finish_tick(cfg, now, health, dm)
            }
        } else {
            self.queue = self.engine.take_due(self.batch_ms, now);
            self.done = 0;
            if self.queue.len() > 0 {
                self.phase = PollPhase::Flushing(now);
                silent(PollNext::Publish)
            } else {
                proof {
                    lemma_earliest(self.deadlines@, self.deadlines@.len());
                }
                self.take_turn(cfg, now, health, dm)
            }
        }
    }

    /// What a keepalive probe comes to: an answer shows the link is up, silence that it is lost.
    pub open spec fn probed_to(
        before: PollLoop,
        after: PollLoop,
        cfg: DeviceConfig,
        ok: bool,
        h0: Health,
        h1: Health,
        dm0: DeviceMetrics,
        dm1: DeviceMetrics,
        step: PollStep,
    ) -> bool {
        if ok {
            tick_done(
                before,
                after,
                cfg,
                before.phase->Probing_0,
                Health { link: LinkState::Online, ..h0 },
                h1,
                dm0,
                dm1,
                step,
            )
        } else {
            &&& after == (PollLoop { phase: PollPhase::Left, ..before })
            &&& step.next == PollNext::Close(PollExit::LinkLost)
            &&& quiet(
                Health { read_errors: bumped(h0.read_errors, 1), ..h0 },
                h1,
                dm0,
                dm1,
                step,
            )
        }
    }

    /// The keepalive probe was performed.
    pub fn probed(
        &mut self,
        cfg: &DeviceConfig,
        ok: bool,
        health: &mut Health,
        dm: &mut DeviceMetrics,
    ) -> (step: PollStep)
        requires
            old(self).wf(*cfg),
            old(self).phase is Probing,
        ensures
            final(self).wf(*cfg),
            PollLoop::probed_to(
                *old(self),
                *final(self),
                *cfg,
                ok,
                *old(health),
                *final(health),
                *old(dm),
                *final(dm),
                step,
            ),
    {
        let now = match self.phase {
            PollPhase::Probing(t) => t,
            _ => self.since_keepalive,
        };
        if ok {
            health.link = LinkState::Online;
            self.finish_tick(cfg, now, health, dm)
        } else {
            health.read_errors = bump(health.read_errors, 1);
            self.phase = PollPhase::Left;
            silent(PollNext::Close(PollExit::LinkLost))
        }
    }

    /// The cycle of a group whose updates are all published, as it is counted.
    pub open spec fn cycle_of(
        self,
        cfg: DeviceConfig,
        g: int,
        before: SampleSnapshot,
        elapsed: Duration,
        h: Health,
    ) -> PollCycle {
        let d = SampleSnapshot::of(h).minus(before);
        PollCycle {
            duration_ms: elapsed.millis() as u64,
            tag_reads: cfg.poll_groups@[g].signals@.len() as u64,
            overran: elapsed.nanos > self.intervals@[g] * 1_000_000,
            good: d.good,
            bad: d.bad,
            uncertain: d.uncertain,
            changed: d.changed,
            suppressed: d.suppressed,
        }
    }

    /// The end of a group's cycle: it is counted as a success, and the tick is done.
    pub open spec fn cycle_done(
        before: PollLoop,
        after: PollLoop,
        cfg: DeviceConfig,
        now: Instant,
        g: int,
        snapshot: SampleSnapshot,
        elapsed: Duration,
        h0: Health,
        h1: Health,
        dm0: DeviceMetrics,
        dm1: DeviceMetrics,
        step: PollStep,
    ) -> bool {
        exists|dm: DeviceMetrics|
            #[trigger] dm.cycle_recorded_from(
                dm0,
                cfg.poll_groups@[g].label(),
                Outcome::Success,
                before.cycle_of(cfg, g, snapshot, elapsed, h0),
            ) && tick_done(before, after, cfg, now, h0, h1, dm, dm1, step)
    }

    fn finish_cycle(
        &mut self,
        cfg: &DeviceConfig,
        now: Instant,
        g: usize,
        snapshot: SampleSnapshot,
        elapsed: Duration,
        health: &mut Health,
        dm: &mut DeviceMetrics,
    ) -> (step: PollStep)
        requires
            old(self).engine.wf(),
            old(self).deadlines@.len() > 0,
            g < cfg.poll_groups@.len(),
            cfg.poll_groups@.len() == old(self).intervals@.len(),
        ensures
            PollLoop::cycle_done(
                *old(self),
                *final(self),
                *cfg,
                now,
                g as int,
                snapshot,
                elapsed,
                *old(health),
                *final(health),
                *old(dm),
                *final(dm),
                step,
            ),
    {
        let d = SampleSnapshot::take(health).delta_since(snapshot);
        let cycle = PollCycle {
            duration_ms: elapsed.as_millis(),
            tag_reads: cfg.poll_groups[g].signals.len() as u64,
            overran: cycle_overran(elapsed, Duration::from_millis(self.intervals[g])),
            good: d.good,
            bad: d.bad,
            uncertain: d.uncertain,
            changed: d.changed,
            suppressed: d.suppressed,
        };
        let label = cfg.poll_groups[g].name();
        dm.record_poll_cycle(label.as_str(), Outcome::Success, cycle);
        let ghost mid = *dm;
        let step = self.finish_tick(cfg, now, health, dm);
        assert(mid.cycle_recorded_from(
            *old(dm),
            cfg.poll_groups@[g as int].label(),
            Outcome::Success,
            old(self).cycle_of(*cfg, g as int, snapshot, elapsed, *old(health)),
        ));
        step
    }

    /// After a group was read out of turn: the next group, or the answer.
    pub open spec fn repoll_on(
        before: PollLoop,
        after: PollLoop,
        cfg: DeviceConfig,
        g: int,
        polled: u64,
        step: PollStep,
    ) -> bool {
        &&& tells_nothing(step)
        &&& if g + 1 < cfg.poll_groups@.len() {
            &&& after == (PollLoop {
                phase: PollPhase::Repolling((g + 1) as usize, polled),
                ..before
            })
            &&& step.next == PollNext::ReadGroup((g + 1) as usize)
            &&& step.reply is None
        } else {
            &&& after == (PollLoop { phase: PollPhase::Waiting, ..before })
            &&& after.waits(step.next)
            &&& step.reply == Some(PollReply::Repolled(Ok::<u64, String>(polled)))
        }
    }

    fn next_repoll(&mut self, cfg: &DeviceConfig, g: usize, polled: u64) -> (step: PollStep)
        requires
            old(self).engine.wf(),
            old(self).deadlines@.len() > 0,
            g < cfg.poll_groups@.len(),
        ensures
            PollLoop::repoll_on(*old(self), *final(self), *cfg, g as int, polled, step),
    {
        let groups: usize = cfg.poll_groups.len();
        if g + 1 < groups {
            self.phase = PollPhase::Repolling(g + 1, polled);
            silent(PollNext::ReadGroup(g + 1))
        } else {
            self.phase = PollPhase::Waiting;
            answer(PollReply::Repolled(Ok(polled)), PollNext::Wait(self.wake()))
        }
    }

    /// What a publish comes to: it is accounted, the signal's pending value is promoted or dropped, and
    /// the loop goes on with the next update or with what the updates came from.
    pub open spec fn published_to(
        before: PollLoop,
        after: PollLoop,
        cfg: DeviceConfig,
        ok: bool,
        latency_ms: u64,
        h0: Health,
        h1: Health,
        dm0: DeviceMetrics,
        dm1: DeviceMetrics,
        step: PollStep,
    ) -> bool {
        let id = before.queue@[before.done as int].signal_id@;
        let configured = cfg.has_signal(id);
        let mid = PollLoop { engine: after.engine, done: (before.done + 1) as usize, ..before };
        &&& after.engine.settled_from(before.engine, id, ok && configured)
        &&& exists|h: Health, dm: DeviceMetrics|
            #[trigger] accounted(
                configured,
                ok,
                latency_ms,
                before.job_account(cfg),
                h0,
                h,
                dm0,
                dm,
            ) && (if before.done + 1 < before.queue@.len() {
                &&& after == mid
                &&& step.next == PollNext::Publish
                &&& quiet(h, h1, dm, dm1, step)
            } else {
                match before.phase {
                    PollPhase::Flushing(now) => turn(mid, after, cfg, now, h, h1, dm, dm1, step),
                    PollPhase::Publishing(now, g, snapshot, elapsed) => PollLoop::cycle_done(
                        mid,
                        after,
                        cfg,
                        now,
                        g as int,
                        snapshot,
                        elapsed,
                        h,
                        h1,
                        dm,
                        dm1,
                        step,
                    ),
                    PollPhase::Republishing(g, polled) => {
                        &&& PollLoop::repoll_on(mid, after, cfg, g as int, polled, step)
                        &&& h1 == h
                        &&& dm1 == dm
                    },
                    _ => true,
                }
            })
    }

    /// The update at hand was published, or failed to be.
    pub fn published(
        &mut self,
        cfg: &DeviceConfig,
        ok: bool,
        latency_ms: u64,
        health: &mut Health,
        dm: &mut DeviceMetrics,
    ) -> (step: PollStep)
        requires
            old(self).wf(*cfg),
            old(self).publishing(),
        ensures
            final(self).wf(*cfg),
            PollLoop::published_to(
                *old(self),
                *final(self),
                *cfg,
                ok,
                latency_ms,
                *old(health),
                *final(health),
                *old(dm),
                *final(dm),
                step,
            ),
    {
        let (p, located, a) = self.job(cfg);
        let configured = located.is_some();
        let id = p.signal_id.clone();
        account(configured, ok, latency_ms, a, health, dm);
        let ghost h = *health;
        let ghost m = *dm;
        self.engine.settle(id.as_str(), ok && configured);
        let updates: usize = self.queue.len();
        self.done = self.done + 1;
        assert(accounted(
            cfg.has_signal(id@),
            ok,
            latency_ms,
            old(self).job_account(*cfg),
            *old(health),
            h,
            *old(dm),
            m,
        ));
        if self.done < updates {
            return silent(PollNext::Publish);
        }
        match self.phase {
            PollPhase::Flushing(now) => {
                proof {
                    lemma_earliest(self.deadlines@, self.deadlines@.len());
                }
                self.take_turn(cfg, now, health, dm)
            },
            PollPhase::Publishing(now, g, snapshot, elapsed) => self.finish_cycle(
                cfg,
                now,
                g,
                snapshot,
                elapsed,
                health,
                dm,
            ),
            PollPhase::Republishing(g, polled) => self.next_repoll(cfg, g, polled),
            _ => silent(PollNext::Publish),
        }
    }
}

/// How a group filters its samples for readings that have just come in.
pub open spec fn group_gate(group: PollGroup, batch_ms: u64, r: GroupReading) -> GateV {
    GateV { mode: group.publish_mode, batch_ms, now: r.now, server_ts: r.server_ts@ }
}

/// The counters once a group was read: how long it took, one more cycle, perhaps an overrun.
pub open spec fn cycle_counted(h: Health, elapsed: Duration, interval_ms: u64) -> Health {
    Health {
        poll_latency_ms: elapsed.millis() as u64,
        poll_cycles: bumped(h.poll_cycles, 1),
        overruns: if elapsed.nanos > interval_ms * 1_000_000 {
            bumped(h.overruns, 1)
        } else {
            h.overruns
        },
        ..h
    }
}

/// The cycle of a group whose read failed.
pub open spec fn failed_cycle(group: PollGroup) -> PollCycle {
    PollCycle {
        duration_ms: 0,
        tag_reads: group.signals@.len() as u64,
        overran: false,
        good: 0,
        bad: 0,
        uncertain: 0,
        changed: 0,
        suppressed: 0,
    }
}

impl PollLoop {
    /// The readings of group `g`, gated from `h0` to `h1`.
    pub open spec fn gated_to(
        before: PollLoop,
        after: PollLoop,
        cfg: DeviceConfig,
        g: int,
        r: GroupReading,
        h0: Health,
        h1: Health,
    ) -> bool {
        let group = cfg.poll_groups@[g];
        gated(
            before.engine,
            after.engine,
            group_run(
                start_of(before.engine, h0),
                group.signals@,
                group.signals@.len(),
                r.readings@,
                group_gate(group, before.batch_ms, r),
                r.moved@,
            ),
            h1,
            publishes(after.queue@),
        )
    }

    /// What a scheduled read comes to. A failure is an error cycle and a lost link; otherwise the read is
    /// counted, the readings are gated, and what passes is published before the cycle is counted.
    pub open spec fn polled_to(
        before: PollLoop,
        after: PollLoop,
        cfg: DeviceConfig,
        outcome: Result<GroupReading, String>,
        h0: Health,
        h1: Health,
        dm0: DeviceMetrics,
        dm1: DeviceMetrics,
        step: PollStep,
    ) -> bool {
        let now = before.phase->Polling_0;
        let at = before.phase->Polling_1;
        let g = at as int;
        let snapshot = before.phase->Polling_2;
        match outcome {
            Err(_) => {
                &&& after == (PollLoop { phase: PollPhase::Left, ..before })
                &&& step.next == PollNext::Close(PollExit::LinkLost)
                &&& step.reply is None
                &&& tells_nothing(step)
                &&& h1 == (Health { read_errors: bumped(h0.read_errors, 1), ..h0 })
                &&& dm1.cycle_recorded_from(
                    dm0,
                    cfg.poll_groups@[g].label(),
                    Outcome::Error,
                    failed_cycle(cfg.poll_groups@[g]),
                )
            },
            Ok(r) => {
                let mid = before.with_updates(after.engine, after.queue);
                exists|h: Health|
                    #[trigger] PollLoop::gated_to(
                        before,
                        after,
                        cfg,
                        g,
                        r,
                        cycle_counted(h0, r.elapsed, before.intervals@[g]),
                        h,
                    ) && (if after.queue@.len() > 0 {
                        &&& after == (PollLoop {
                            phase: PollPhase::Publishing(now, at, snapshot, r.elapsed),
                            ..mid
                        })
                        &&& step.next == PollNext::Publish
                        &&& quiet(h, h1, dm0, dm1, step)
                    } else {
                        PollLoop::cycle_done(
                            mid,
                            after,
                            cfg,
                            now,
                            g,
                            snapshot,
                            r.elapsed,
                            h,
                            h1,
                            dm0,
                            dm1,
                            step,
                        )
                    })
            },
        }
    }

    /// What a read out of turn comes to. A failure is answered and is a lost link; otherwise the
    /// readings are gated, and what passes is published before the next group is read.
    pub open spec fn repolled_to(
        before: PollLoop,
        after: PollLoop,
        cfg: DeviceConfig,
        outcome: Result<GroupReading, String>,
        h0: Health,
        h1: Health,
        step: PollStep,
    ) -> bool {
        let at = before.phase->Repolling_0;
        let g = at as int;
        match outcome {
            Err(e) => {
                &&& after == (PollLoop { phase: PollPhase::Left, ..before })
                &&& step.next == PollNext::Close(PollExit::LinkLost)
                &&& step.reply == Some(PollReply::Repolled(Err::<u64, String>(e)))
                &&& tells_nothing(step)
                &&& h1 == h0
            },
            Ok(r) => {
                let polled = sum(
                    before.phase->Repolling_1,
                    cfg.poll_groups@[g].signals@.len() as u64,
                );
                let mid = before.with_updates(after.engine, after.queue);
                &&& PollLoop::gated_to(before, after, cfg, g, r, h0, h1)
                &&& if after.queue@.len() > 0 {
                    &&& after == (PollLoop { phase: PollPhase::Republishing(at, polled), ..mid })
                    &&& step.next == PollNext::Publish
                    &&& step.reply is None
                    &&& tells_nothing(step)
                } else {
                    PollLoop::repoll_on(mid, after, cfg, g, polled, step)
                }
            },
        }
    }

    fn gate_group(&mut self, cfg: &DeviceConfig, g: usize, r: &GroupReading, health: &mut Health)
        requires
            old(self).wf(*cfg),
            g < cfg.poll_groups@.len(),
            r.moved@.len() == cfg.poll_groups@[g as int].signals@.len(),
        ensures
            *final(self) == old(self).with_updates(final(self).engine, final(self).queue),
            PollLoop::gated_to(
                *old(self),
                *final(self),
                *cfg,
                g as int,
                *r,
                *old(health),
                *final(health),
            ),
    {
        let group = &cfg.poll_groups[g];
        let gate = Gate {
            mode: group.publish_mode,
            batch_ms: self.batch_ms,
            now: r.now,
            server_ts: r.server_ts.clone(),
        };
        self.queue = process_group(&mut self.engine, group, &r.readings, &gate, &r.moved, health);
        self.done = 0;
    }

    /// The scheduled read of a group was performed. What the device declared is kept.
    pub fn polled(
        &mut self,
        cfg: &DeviceConfig,
        outcome: Result<GroupReading, String>,
        health: &mut Health,
        dm: &mut DeviceMetrics,
        observed: &mut ObservedTypes,
    ) -> (step: PollStep)
        requires
            old(self).wf(*cfg),
            old(observed).wf(),
            old(self).phase is Polling,
            outcome matches Ok(r) ==> r.moved@.len() == cfg.poll_groups@[old(
                self,
            ).phase->Polling_1 as int].signals@.len(),
        ensures
            final(self).wf(*cfg),
            match outcome {
                Ok(r) => final(observed).recorded_from(*old(observed), r.readings@),
                Err(_) => *final(observed) == *old(observed),
            },
            PollLoop::polled_to(
                *old(self),
                *final(self),
                *cfg,
                outcome,
                *old(health),
                *final(health),
                *old(dm),
                *final(dm),
                step,
            ),
    {
        let (now, g, snapshot) = match self.phase {
            PollPhase::Polling(now, g, snapshot) => (now, g, snapshot),
            _ => (self.since_health, 0, SampleSnapshot::take(health)),
        };
        match outcome {
            Err(_) => {
                health.read_errors = bump(health.read_errors, 1);
                let label = cfg.poll_groups[g].name();
                let cycle = PollCycle {
                    duration_ms: 0,
                    tag_reads: cfg.poll_groups[g].signals.len() as u64,
                    overran: false,
                    good: 0,
                    bad: 0,
                    uncertain: 0,
                    changed: 0,
                    suppressed: 0,
                };
                dm.record_poll_cycle(label.as_str(), Outcome::Error, cycle);
                self.phase = PollPhase::Left;
                silent(PollNext::Close(PollExit::LinkLost))
            },
            Ok(r) => {
                observed.record_observed(&r.readings);
                health.poll_latency_ms = r.elapsed.as_millis();
                record_cycle(r.elapsed, Duration::from_millis(self.intervals[g]), health);
                let ghost h1 = *health;
                self.gate_group(cfg, g, &r, health);
                let ghost h = *health;
                let ghost mid = *self;
                if self.queue.len() > 0 {
                    self.phase = PollPhase::Publishing(now, g, snapshot, r.elapsed);
                    assert(PollLoop::gated_to(*old(self), *self, *cfg, g as int, r, h1, h));
                    silent(PollNext::Publish)
                } else {
                    let step = self.finish_cycle(cfg, now, g, snapshot, r.elapsed, health, dm);
                    assert(PollLoop::gated_to(*old(self), *self, *cfg, g as int, r, h1, h));
                    step
                }
            },
        }
    }

    /// The read of a group out of turn was performed. What the device declared is kept.
    pub fn repolled(
        &mut self,
        cfg: &DeviceConfig,
        outcome: Result<GroupReading, String>,
        health: &mut Health,
        observed: &mut ObservedTypes,
    ) -> (step: PollStep)
        requires
            old(self).wf(*cfg),
            old(observed).wf(),
            old(self).phase is Repolling,
            outcome matches Ok(r) ==> r.moved@.len() == cfg.poll_groups@[old(
                self,
            ).phase->Repolling_0 as int].signals@.len(),
        ensures
            final(self).wf(*cfg),
            match outcome {
                Ok(r) => final(observed).recorded_from(*old(observed), r.readings@),
                Err(_) => *final(observed) == *old(observed),
            },
            PollLoop::repolled_to(
                *old(self),
                *final(self),
                *cfg,
                outcome,
                *old(health),
                *final(health),
                step,
            ),
    {
        let (g, before) = match self.phase {
            PollPhase::Repolling(g, before) => (g, before),
            _ => (0, 0),
        };
        match outcome {
            Err(e) => {
                self.phase = PollPhase::Left;
                answer(PollReply::Repolled(Err(e)), PollNext::Close(PollExit::LinkLost))
            },
            Ok(r) => {
                observed.record_observed(&r.readings);
                let polled: u64 = add_up(before, cfg.poll_groups[g].signals.len() as u64);
                self.gate_group(cfg, g, &r, health);
                if self.queue.len() > 0 {
                    self.phase = PollPhase::Republishing(g, polled);
                    silent(PollNext::Publish)
                } else {
                    self.next_repoll(cfg, g, polled)
                }
            },
        }
    }
}

// ---- what the loop keeps ----

/// A group that is read is one whose deadline has come, and no other group's deadline is earlier.
pub proof fn the_group_most_overdue_is_read(deadlines: Seq<u128>, now: Instant)
    requires
        deadlines.len() > 0,
        due_group(deadlines, now) is Some,
    ensures
        0 <= due_group(deadlines, now)->0 < deadlines.len(),
        deadlines[due_group(deadlines, now)->0] <= now.nanos,
        forall|i: int|
            0 <= i < deadlines.len() ==> deadlines[due_group(deadlines, now)->0]
                <= #[trigger] deadlines[i],
{
    lemma_earliest(deadlines, deadlines.len());
}

/// When no group is read none is due.
pub proof fn no_due_group_is_passed_over(deadlines: Seq<u128>, now: Instant)
    requires
        deadlines.len() > 0,
        due_group(deadlines, now) is None,
    ensures
        forall|i: int| 0 <= i < deadlines.len() ==> #[trigger] deadlines[i] > now.nanos,
{
    lemma_earliest(deadlines, deadlines.len());
}

/// However far a group has fallen behind, it is not caught up with: its next deadline is never in the
/// past.
pub proof fn an_overrun_is_not_caught_up_with(deadline: u128, interval_ms: u64, now: Instant)
    requires
        deadline <= now.nanos,
    ensures
        rearmed(deadline, interval_ms, now) >= now.nanos,
        rearmed(deadline, interval_ms, now) == now.nanos || rearmed(deadline, interval_ms, now)
            == deadline + interval_ms * 1_000_000,
{
}

/// A group is read only when no closed window was left to flush.
pub proof fn windows_are_flushed_before_a_group_is_read(
    before: PollLoop,
    after: PollLoop,
    cfg: DeviceConfig,
    now: Instant,
    h0: Health,
    h1: Health,
    dm0: DeviceMetrics,
    dm1: DeviceMetrics,
    step: PollStep,
)
    requires
        PollLoop::woken(before, after, cfg, now, h0, h1, dm0, dm1, step),
        step.next is ReadGroup,
    ensures
        flushes(before.engine.known(), before.engine, now, before.batch_ms).len() == 0,
{
}

/// A paused loop that wakes neither reads a group nor publishes, and reports no stale signals.
pub proof fn a_paused_loop_is_quiet(
    before: PollLoop,
    after: PollLoop,
    cfg: DeviceConfig,
    now: Instant,
    h0: Health,
    h1: Health,
    dm0: DeviceMetrics,
    dm1: DeviceMetrics,
    step: PollStep,
)
    requires
        before.paused,
        PollLoop::woken(before, after, cfg, now, h0, h1, dm0, dm1, step),
    ensures
        step.next is Probe || step.next is Wait,
        after.paused,
        after.engine == before.engine,
        step.emit@.len() > 0 ==> h1.stale_signals == 0,
{
}

/// What waited in a window when the device was paused is never published: every window is empty
/// afterwards, and a value that waited in one is not what later values are compared with.
pub proof fn a_pause_forgets_what_was_waiting(
    before: PollLoop,
    after: PollLoop,
    cfg: DeviceConfig,
    by: Option<Seq<char>>,
    now: Instant,
    h0: Health,
    h1: Health,
    dm0: DeviceMetrics,
    dm1: DeviceMetrics,
    step: PollStep,
    id: Seq<char>,
)
    requires
        PollLoop::served(
            before,
            after,
            cfg,
            ControlVerb::Pause,
            by,
            now,
            h0,
            h1,
            dm0,
            dm1,
            step,
        ),
    ensures
        after.engine.signal(id).batcher.buffer.len() == 0,
        after.engine.signal(id).baseline == before.engine.signal(id).baseline,
        after.engine.signal(id).pending is None || before.engine.signal(id).batcher.buffer.len() == 0,
{
}

/// After a resume that changed something every group is due one interval on, and no signal has been
/// stale for longer than since the resume.
pub proof fn a_resume_starts_the_cadences_again(
    before: PollLoop,
    after: PollLoop,
    cfg: DeviceConfig,
    by: Option<Seq<char>>,
    now: Instant,
    h0: Health,
    h1: Health,
    dm0: DeviceMetrics,
    dm1: DeviceMetrics,
    step: PollStep,
    i: int,
    id: Seq<char>,
)
    requires
        h0.paused,
        PollLoop::served(
            before,
            after,
            cfg,
            ControlVerb::Resume,
            by,
            now,
            h0,
            h1,
            dm0,
            dm1,
            step,
        ),
        0 <= i < before.intervals@.len(),
    ensures
        after.deadlines@[i] == now.due(before.intervals@[i] as int),
        after.engine.since() == now,
        after.engine.signal(id).last_good is Some ==> after.engine.signal(id).last_good == Some(now),
{
}

/// A value whose publish failed, or could not be made, is not what later values are compared with.
pub proof fn a_failed_publish_is_no_comparison(
    before: PollLoop,
    after: PollLoop,
    cfg: DeviceConfig,
    latency_ms: u64,
    h0: Health,
    h1: Health,
    dm0: DeviceMetrics,
    dm1: DeviceMetrics,
    step: PollStep,
)
    requires
        PollLoop::published_to(
            before,
            after,
            cfg,
            false,
            latency_ms,
            h0,
            h1,
            dm0,
            dm1,
            step,
        ),
    ensures
        ({
            let id = before.queue@[before.done as int].signal_id@;
            &&& after.engine.signal(id).pending is None
            &&& after.engine.signal(id).baseline == before.engine.signal(id).baseline
        }),
{
}

// ---- the groups read out of turn ----

/// A repoll starts with the first group, and nothing is answered yet; a paused device refuses it.
pub proof fn a_repoll_starts_with_the_first_group(
    before: PollLoop,
    after: PollLoop,
    cfg: DeviceConfig,
    by: Option<Seq<char>>,
    now: Instant,
    h0: Health,
    h1: Health,
    dm0: DeviceMetrics,
    dm1: DeviceMetrics,
    step: PollStep,
)
    requires
        PollLoop::served(
            before,
            after,
            cfg,
            ControlVerb::Repoll,
            by,
            now,
            h0,
            h1,
            dm0,
            dm1,
            step,
        ),
    ensures
        !before.paused ==> step.next == PollNext::ReadGroup(0) && step.reply is None && after.phase
            == PollPhase::Repolling(0, 0),
        before.paused ==> step.next is Wait && (step.reply matches Some(PollReply::Repolled(Err(_))))
            && after.phase == before.phase,
        after.engine == before.engine,
        after.deadlines == before.deadlines,
        h1 == h0,
{
}

/// A group that was read well out of turn is counted with its signals, and followed by the next group,
/// or by the answer when it was the last; where there is something to publish, by that first. One that
/// could not be read ends the repoll with the reason, and the link.
pub proof fn a_group_read_out_of_turn_is_followed_by_the_next(
    before: PollLoop,
    after: PollLoop,
    cfg: DeviceConfig,
    g: usize,
    polled: u64,
    outcome: Result<GroupReading, String>,
    h0: Health,
    h1: Health,
    step: PollStep,
)
    requires
        before.phase == PollPhase::Repolling(g, polled),
        g < cfg.poll_groups@.len(),
        polled + cfg.poll_groups@[g as int].signals@.len() <= u64::MAX,
        PollLoop::repolled_to(before, after, cfg, outcome, h0, h1, step),
    ensures
        outcome matches Err(why) ==> {
            &&& step.reply == Some(PollReply::Repolled(Err::<u64, String>(why)))
            &&& step.next == PollNext::Close(PollExit::LinkLost)
            &&& h1 == h0
        },
        outcome is Ok ==> {
            let total = (polled + cfg.poll_groups@[g as int].signals@.len()) as u64;
            &&& after.queue@.len() > 0 ==> step.next == PollNext::Publish && step.reply is None
                && after.phase == PollPhase::Republishing(g, total) && after.done == 0
            &&& after.queue@.len() == 0 && g + 1 < cfg.poll_groups@.len() ==> step.next
                == PollNext::ReadGroup((g + 1) as usize) && step.reply is None && after.phase
                == PollPhase::Repolling((g + 1) as usize, total)
            &&& after.queue@.len() == 0 && g + 1 == cfg.poll_groups@.len() ==> step.next is Wait
                && step.reply == Some(PollReply::Repolled(Ok::<u64, String>(total))) && after.phase
                == PollPhase::Waiting
        },
        after.deadlines == before.deadlines,
        after.paused == before.paused,
{
}

/// What a group read out of turn hands out is published one after the other; behind the last one comes
/// the next group, or the answer when it was the last.
pub proof fn a_group_published_out_of_turn_is_followed_by_the_next(
    before: PollLoop,
    after: PollLoop,
    cfg: DeviceConfig,
    g: usize,
    polled: u64,
    ok: bool,
    latency_ms: u64,
    h0: Health,
    h1: Health,
    dm0: DeviceMetrics,
    dm1: DeviceMetrics,
    step: PollStep,
)
    requires
        before.phase == PollPhase::Republishing(g, polled),
        g < cfg.poll_groups@.len(),
        before.done < before.queue@.len(),
        PollLoop::published_to(before, after, cfg, ok, latency_ms, h0, h1, dm0, dm1, step),
    ensures
        before.done + 1 < before.queue@.len() ==> step.next == PollNext::Publish && step.reply is None
            && after.phase == before.phase && after.done == before.done + 1 && after.queue == before.queue,
        before.done + 1 == before.queue@.len() && g + 1 < cfg.poll_groups@.len() ==> step.next
            == PollNext::ReadGroup((g + 1) as usize) && step.reply is None && after.phase
            == PollPhase::Repolling((g + 1) as usize, polled),
        before.done + 1 == before.queue@.len() && g + 1 == cfg.poll_groups@.len() ==> step.next is Wait
            && step.reply == Some(PollReply::Repolled(Ok::<u64, String>(polled))) && after.phase
            == PollPhase::Waiting,
        after.deadlines == before.deadlines,
        after.paused == before.paused,
{
    assert(before.queue.len() == before.queue@.len());
    assert(cfg.poll_groups.len() == cfg.poll_groups@.len());
}

/// One step of a repoll under way: a group was read out of turn, or an update of it was published.
#[verifier::opaque]
pub open spec fn repoll_goes_on(before: PollLoop, after: PollLoop, cfg: DeviceConfig, step: PollStep) -> bool {
    ||| before.phase is Repolling && exists|
        outcome: Result<GroupReading, String>,
        h0: Health,
        h1: Health,
    | #[trigger]
        PollLoop::repolled_to(before, after, cfg, outcome, h0, h1, step)
    ||| before.phase is Republishing && exists|
        ok: bool,
        latency_ms: u64,
        h0: Health,
        h1: Health,
        dm0: DeviceMetrics,
        dm1: DeviceMetrics,
    | #[trigger]
        PollLoop::published_to(before, after, cfg, ok, latency_ms, h0, h1, dm0, dm1, step)
}

/// How many signals the first `n` groups have.
pub open spec fn signals_of(groups: Seq<PollGroup>, n: int) -> int {
    groups.take(n).map_values(|g: PollGroup| g.signals@.len() as int).fold_left(
        0int,
        |a: int, b: int| a + b,
    )
}

proof fn lemma_signals_of(groups: Seq<PollGroup>, n: int)
    requires
        0 <= n < groups.len(),
    ensures
        signals_of(groups, n + 1) == signals_of(groups, n) + groups[n].signals@.len(),
        signals_of(groups, 0) == 0,
{
    let f = |g: PollGroup| g.signals@.len() as int;
    let s = groups.take(n + 1).map_values(f);
    assert(s.drop_last() =~= groups.take(n).map_values(f));
    assert(s.last() == groups[n].signals@.len());
    assert(groups.take(0).map_values(f) =~= Seq::<int>::empty());
}

proof fn lemma_signals_grow(groups: Seq<PollGroup>, n: int, m: int)
    requires
        0 <= n <= m <= groups.len(),
    ensures
        0 <= signals_of(groups, n) <= signals_of(groups, m),
    decreases m,
{
    if groups.len() > 0 {
        if n < m {
            lemma_signals_of(groups, m - 1);
            lemma_signals_grow(groups, n, m - 1);
        } else if n > 0 {
            lemma_signals_of(groups, n - 1);
            lemma_signals_grow(groups, n - 1, n - 1);
        } else {
            lemma_signals_of(groups, 0);
        }
    } else {
        assert(groups.take(0).map_values(|g: PollGroup| g.signals@.len() as int) =~= Seq::<int>::empty());
    }
}

proof fn lemma_under_way(before: PollLoop, after: PollLoop, cfg: DeviceConfig, step: PollStep)
    requires
        repoll_goes_on(before, after, cfg, step),
    ensures
        before.phase is Repolling || before.phase is Republishing,
{
    reveal(repoll_goes_on);
}

/// What one step of a repoll under way leads to.
proof fn lemma_repoll_step(
    before: PollLoop,
    after: PollLoop,
    cfg: DeviceConfig,
    g: usize,
    polled: u64,
    step: PollStep,
) -> (total: u64)
    requires
        repoll_goes_on(before, after, cfg, step),
        before.phase == PollPhase::Repolling(g, polled) || before.phase == PollPhase::Republishing(
            g,
            polled,
        ),
        g < cfg.poll_groups@.len(),
        before.phase is Repolling ==> polled + cfg.poll_groups@[g as int].signals@.len() <= u64::MAX,
        before.phase is Republishing ==> before.done < before.queue@.len(),
    ensures
        total == (if before.phase is Repolling {
            polled + cfg.poll_groups@[g as int].signals@.len()
        } else {
            polled as int
        }),
        after.phase is Repolling ==> g + 1 < cfg.poll_groups@.len() && after.phase
            == PollPhase::Repolling((g + 1) as usize, total) && step.next == PollNext::ReadGroup(
            (g + 1) as usize,
        ) && step.reply is None,
        after.phase is Republishing ==> after.phase == PollPhase::Republishing(g, total) && step.next
            == PollNext::Publish && step.reply is None,
        !(after.phase is Repolling) ==> !(step.next is ReadGroup),
        step.reply matches Some(PollReply::Repolled(Ok(n))) ==> n == total && g + 1
            == cfg.poll_groups@.len(),
{
    reveal(repoll_goes_on);
    assert(cfg.poll_groups.len() == cfg.poll_groups@.len());
    if before.phase is Repolling {
        let (outcome, h0, h1) = choose|
            outcome: Result<GroupReading, String>,
            h0: Health,
            h1: Health,
        | #[trigger]
            PollLoop::repolled_to(before, after, cfg, outcome, h0, h1, step);
        a_group_read_out_of_turn_is_followed_by_the_next(
            before,
            after,
            cfg,
            g,
            polled,
            outcome,
            h0,
            h1,
            step,
        );
        (polled + cfg.poll_groups@[g as int].signals@.len()) as u64
    } else {
        let (ok, latency_ms, h0, h1, dm0, dm1) = choose|
            ok: bool,
            latency_ms: u64,
            h0: Health,
            h1: Health,
            dm0: DeviceMetrics,
            dm1: DeviceMetrics,
        | #[trigger]
            PollLoop::published_to(before, after, cfg, ok, latency_ms, h0, h1, dm0, dm1, step);
        a_group_published_out_of_turn_is_followed_by_the_next(
            before,
            after,
            cfg,
            g,
            polled,
            ok,
            latency_ms,
            h0,
            h1,
            dm0,
            dm1,
            step,
        );
        polled
    }
}

/// Where a repoll stands while it is under way: every group up to the one at hand was asked for, in
/// order, and the signals counted are those of the groups that were read.
proof fn lemma_repoll(cfg: DeviceConfig, run: Seq<(PollLoop, PollStep)>, n: nat) -> (asked: Seq<int>)
    requires
        cfg.poll_groups@.len() > 0,
        signals_of(cfg.poll_groups@, cfg.poll_groups@.len() as int) <= u64::MAX,
        n < run.len(),
        run[0].0.phase == PollPhase::Repolling(0, 0),
        run[0].1.next == PollNext::ReadGroup(0),
        forall|i: int|
            0 <= i < run.len() - 1 ==> repoll_goes_on(
                (#[trigger] run[i]).0,
                run[i + 1].0,
                cfg,
                run[i + 1].1,
            ),
        run[n as int].0.phase is Repolling || run[n as int].0.phase is Republishing,
        run[n as int].0.phase is Republishing ==> run[n as int].0.done < run[n as int].0.queue@.len(),
        forall|i: int|
            0 <= i < run.len() && (#[trigger] run[i]).0.phase is Republishing ==> run[i].0.done
                < run[i].0.queue@.len(),
    ensures
        0 < asked.len() <= cfg.poll_groups@.len(),
        forall|i: int, j: int| 0 <= i < j < asked.len() ==> asked[i] < asked[j],
        forall|g: int|
            0 <= g < asked.len() ==> 0 <= #[trigger] asked[g] <= n && run[asked[g]].1.next
                == PollNext::ReadGroup(g as usize),
        forall|i: int| 0 <= i <= n && (#[trigger] run[i]).1.next is ReadGroup ==> asked.contains(i),
        match run[n as int].0.phase {
            PollPhase::Repolling(g, polled) => g + 1 == asked.len() && polled == signals_of(
                cfg.poll_groups@,
                g as int,
            ),
            PollPhase::Republishing(g, polled) => g + 1 == asked.len() && polled == signals_of(
                cfg.poll_groups@,
                g + 1,
            ),
            _ => false,
        },
    decreases n,
{
    let groups = cfg.poll_groups@;
    assert(cfg.poll_groups.len() == groups.len());
    lemma_signals_of(groups, 0);
    if n == 0 {
        let asked = seq![0int];
        assert(asked[0] == 0);
        asked
    } else {
        let m = (n - 1) as nat;
        assert(repoll_goes_on(run[m as int].0, run[n as int].0, cfg, run[n as int].1));
        lemma_under_way(run[m as int].0, run[n as int].0, cfg, run[n as int].1);
        let prev = lemma_repoll(cfg, run, m);
        let before = run[m as int].0;
        let (g, polled) = match before.phase {
            PollPhase::Repolling(g, polled) => (g, polled),
            PollPhase::Republishing(g, polled) => (g, polled),
            _ => (0, 0),
        };
        lemma_signals_of(groups, g as int);
        lemma_signals_grow(groups, g + 1, groups.len() as int);
        lemma_repoll_step(before, run[n as int].0, cfg, g, polled, run[n as int].1);
        if run[n as int].1.next is ReadGroup {
            let next = prev.push(n as int);
            assert forall|i: int| 0 <= i <= n && (#[trigger] run[i]).1.next is ReadGroup implies next.contains(
                i,
            ) by {
                crate::engine::lemma_int_push(prev, n as int, i);
            }
            next
        } else {
            prev
        }
    }
}

/// A repoll that is answered well has asked for every configured group, once and in order, and for no
/// other, and the number answered is that of their signals. `run` holds the loop and the step from the
/// verb on up to the answer; the places of the steps that ask for the groups are returned.
pub proof fn a_repoll_reads_every_group(
    before: PollLoop,
    cfg: DeviceConfig,
    by: Option<Seq<char>>,
    now: Instant,
    h0: Health,
    h1: Health,
    dm0: DeviceMetrics,
    dm1: DeviceMetrics,
    run: Seq<(PollLoop, PollStep)>,
    answered: u64,
) -> (asked: Seq<int>)
    requires
        cfg.poll_groups@.len() > 0,
        cfg.poll_groups@.len() <= usize::MAX,
        cfg.poll_groups@.map_values(|g: PollGroup| g.signals@.len() as int).fold_left(
            0int,
            |a: int, b: int| a + b,
        ) <= u64::MAX,
        !before.paused,
        run.len() > 1,
        PollLoop::served(
            before,
            run[0].0,
            cfg,
            ControlVerb::Repoll,
            by,
            now,
            h0,
            h1,
            dm0,
            dm1,
            run[0].1,
        ),
        forall|i: int|
            0 <= i < run.len() - 1 ==> repoll_goes_on(
                (#[trigger] run[i]).0,
                run[i + 1].0,
                cfg,
                run[i + 1].1,
            ),
        forall|i: int| 0 <= i < run.len() ==> (#[trigger] run[i]).0.wf(cfg),
        run.last().1.reply == Some(PollReply::Repolled(Ok::<u64, String>(answered))),
    ensures
        asked.len() == cfg.poll_groups@.len(),
        forall|i: int, j: int| 0 <= i < j < asked.len() ==> asked[i] < asked[j],
        forall|g: int|
            0 <= g < asked.len() ==> 0 <= #[trigger] asked[g] < run.len() && run[asked[g]].1.next
                == PollNext::ReadGroup(g as usize),
        forall|i: int|
            0 <= i < run.len() && (#[trigger] run[i]).1.next is ReadGroup ==> asked.contains(i),
        answered == cfg.poll_groups@.map_values(|g: PollGroup| g.signals@.len() as int).fold_left(
            0int,
            |a: int, b: int| a + b,
        ),
{
    let groups = cfg.poll_groups@;
    assert(groups.take(groups.len() as int) =~= groups);
    let m = run.len() - 2;
    assert(run[m].0.wf(cfg));
    assert(repoll_goes_on(run[m].0, run[m + 1].0, cfg, run[m + 1].1));
    lemma_under_way(run[m].0, run[m + 1].0, cfg, run[m + 1].1);
    assert forall|i: int| 0 <= i < run.len() && (#[trigger] run[i]).0.phase is Republishing implies run[i].0.done
        < run[i].0.queue@.len() by {
        assert(run[i].0.wf(cfg));
    }
    let asked = lemma_repoll(cfg, run, m as nat);
    let (g, polled) = match run[m].0.phase {
        PollPhase::Repolling(g, polled) => (g, polled),
        PollPhase::Republishing(g, polled) => (g, polled),
        _ => (0, 0),
    };
    lemma_signals_of(groups, g as int);
    lemma_signals_grow(groups, g + 1, groups.len() as int);
    lemma_repoll_step(run[m].0, run[m + 1].0, cfg, g, polled, run[m + 1].1);
    asked
}

// ---- the verbs, the clock and the readings ----

/// Each verb is served as it asks: a write, a read, a browse and a reconnect are left to the caller and
/// answered later; pausing and resuming are answered with whether they changed anything, and last until
/// the other; what is none of a polled device's is answered at once. None but these two touches the
/// counters, and none but a repoll, a pause and a resume touches the schedule.
pub proof fn each_verb_is_served_as_it_asks(
    before: PollLoop,
    after: PollLoop,
    cfg: DeviceConfig,
    verb: ControlVerb,
    by: Option<Seq<char>>,
    now: Instant,
    h0: Health,
    h1: Health,
    dm0: DeviceMetrics,
    dm1: DeviceMetrics,
    step: PollStep,
)
    requires
        before.phase == PollPhase::Waiting,
        PollLoop::served(before, after, cfg, verb, by, now, h0, h1, dm0, dm1, step),
    ensures
        verb == ControlVerb::Write ==> step.next == PollNext::Write && step.reply is None && after.phase
            == PollPhase::Writing,
        verb == ControlVerb::ReadNow ==> step.next == PollNext::ReadNow && step.reply is None
            && after.phase == PollPhase::ReadingNow,
        verb == ControlVerb::Browse ==> step.next == PollNext::Browse && step.reply is None
            && after.phase == PollPhase::Browsing,
        verb == ControlVerb::Reconnect ==> step.next == PollNext::Close(PollExit::Reconnect)
            && step.reply is None && after.phase == PollPhase::Left,
        verb == ControlVerb::Pause ==> step.next is Wait && after.paused && h1.paused && step.reply == Some(
            PollReply::Changed(!h0.paused),
        ),
        verb == ControlVerb::Resume ==> step.next is Wait && !after.paused && !h1.paused && step.reply
            == Some(PollReply::Changed(h0.paused)),
        verb == ControlVerb::Snapshot ==> step.next is Wait && step.reply == Some(PollReply::NoSnapshot),
        verb == ControlVerb::WriteOutput ==> step.next is Wait && step.reply is Some && (
        step.reply->0 is Refused),
        !(verb is Pause || verb is Resume) ==> {
            &&& h1 == h0
            &&& dm1 == dm0
            &&& step.emit@.len() == 0
            &&& step.notices@.len() == 0
            &&& after.paused == before.paused
            &&& after.engine == before.engine
        },
        !(verb is Resume) ==> after.deadlines == before.deadlines,
        after.intervals == before.intervals,
        after.batch_ms == before.batch_ms,
        after.queue == before.queue,
{
}

/// A loop that waits wakes for whatever comes first: the metrics; while paused the keepalive probe,
/// otherwise a group or a window that closes. It wakes no later than any of them, and for one of them.
pub proof fn a_loop_wakes_for_what_comes_first(l: PollLoop, w: u128, i: int, k: Seq<char>)
    requires
        l.deadlines@.len() > 0,
        l.is_wake(w),
    ensures
        w <= l.since_health.nanos + l.metrics_secs * 1_000_000_000,
        l.paused ==> w <= l.since_keepalive.nanos + l.keepalive_ms * 1_000_000,
        l.paused ==> w == l.since_health.nanos + l.metrics_secs * 1_000_000_000 || w
            == l.since_keepalive.nanos + l.keepalive_ms * 1_000_000,
        !l.paused && 0 <= i < l.deadlines@.len() ==> w <= l.deadlines@[i],
        !l.paused ==> (l.engine.signal(k).batcher.window_open matches Some(t) ==> w <= t.nanos + l.batch_ms
            * 1_000_000),
        !l.paused ==> {
            ||| w == l.since_health.nanos + l.metrics_secs * 1_000_000_000
            ||| l.deadlines@.contains(w)
            ||| exists|o: Seq<char>|
                (#[trigger] l.engine.signal(o)).batcher.window_open matches Some(t) && w == t.nanos
                    + l.batch_ms * 1_000_000
        },
{
    if !l.paused {
        lemma_earliest(l.deadlines@, l.deadlines@.len());
        let close = choose|close: Option<u128>| #[trigger]
            l.engine.first_close(l.batch_ms, close) && w == least(
                least(
                    l.metrics_due(),
                    l.deadlines@[earliest(l.deadlines@, l.deadlines@.len())] as int,
                ),
                match close {
                    Some(t) => t as int,
                    None => l.metrics_due(),
                },
            );
        crate::engine::the_first_window_to_close(l.engine, l.batch_ms, close, k);
        assert(l.deadlines@.contains(l.deadlines@[earliest(l.deadlines@, l.deadlines@.len())]));
    }
}

/// At the end of a tick the metrics go out exactly when their interval has passed, with the signals that
/// are stale by then (none while paused), and then count from now on. The loop waits, and nothing else
/// of it changes.
pub proof fn metrics_go_out_when_they_are_due(
    before: PollLoop,
    after: PollLoop,
    cfg: DeviceConfig,
    now: Instant,
    h0: Health,
    h1: Health,
    dm0: DeviceMetrics,
    dm1: DeviceMetrics,
    step: PollStep,
)
    requires
        tick_done(before, after, cfg, now, h0, h1, dm0, dm1, step),
    ensures
        step.next is Wait,
        step.reply is None,
        step.notices@.len() == 0,
        after.phase == PollPhase::Waiting,
        now.after(before.since_health) >= before.metrics_secs * 1_000_000_000 ==> {
            &&& after.since_health == now
            &&& before.paused ==> emissions(step.emit@) == dm0.periodic_emits(
                Health { stale_signals: 0, ..h0 },
                now,
            )
            &&& !before.paused ==> emissions(step.emit@) == dm0.periodic_emits(
                Health {
                    stale_signals: stale_among(cfg.tags(), before.engine, before.stale_secs, now) as u64,
                    ..h0
                },
                now,
            )
        },
        now.after(before.since_health) < before.metrics_secs * 1_000_000_000 ==> {
            &&& after.since_health == before.since_health
            &&& step.emit@.len() == 0
            &&& h1 == h0
            &&& dm1 == dm0
        },
        after.engine == before.engine,
        after.deadlines == before.deadlines,
        after.paused == before.paused,
        after.queue == before.queue,
        after.since_keepalive == before.since_keepalive,
{
}

/// When a group is due, the first of those most overdue is read and no other, its next deadline is one
/// interval on but not in the past, and every other deadline stays. When none is, the tick is done.
pub proof fn a_due_group_is_read_and_armed_again(
    before: PollLoop,
    after: PollLoop,
    cfg: DeviceConfig,
    now: Instant,
    h0: Health,
    h1: Health,
    dm0: DeviceMetrics,
    dm1: DeviceMetrics,
    step: PollStep,
    i: int,
)
    requires
        before.deadlines@.len() > 0,
        before.intervals@.len() == before.deadlines@.len(),
        turn(before, after, cfg, now, h0, h1, dm0, dm1, step),
        0 <= i < before.deadlines@.len(),
        before.deadlines@[i] + before.intervals@[i] * 1_000_000 <= u128::MAX,
    ensures
        before.deadlines@[i] <= now.nanos ==> step.next is ReadGroup,
        step.next matches PollNext::ReadGroup(g) ==> {
            &&& g < before.deadlines@.len()
            &&& before.deadlines@[g as int] <= now.nanos
            &&& before.deadlines@[g as int] <= before.deadlines@[i]
            &&& i < g ==> before.deadlines@[g as int] < before.deadlines@[i]
            &&& after.phase == PollPhase::Polling(
                now,
                g,
                SampleSnapshot {
                    good: h0.samples_good,
                    bad: h0.samples_bad,
                    uncertain: h0.samples_uncertain,
                    changed: h0.samples_changed,
                    suppressed: h0.samples_suppressed,
                },
            )
            &&& i == g ==> after.deadlines@[i] == (if before.deadlines@[i] + before.intervals@[i]
                * 1_000_000 >= now.nanos {
                before.deadlines@[i] + before.intervals@[i] * 1_000_000
            } else {
                now.nanos as int
            })
            &&& i != g ==> after.deadlines@[i] == before.deadlines@[i]
            &&& after.deadlines@.len() == before.deadlines@.len()
            &&& h1 == h0
            &&& dm1 == dm0
            &&& step.reply is None
            &&& step.emit@.len() == 0
        },
        !(step.next is ReadGroup) ==> step.next is Wait && tick_done(
            before,
            after,
            cfg,
            now,
            h0,
            h1,
            dm0,
            dm1,
            step,
        ),
        after.engine == before.engine,
{
    lemma_earliest(before.deadlines@, before.deadlines@.len());
    assert(before.deadlines.len() == before.deadlines@.len());
}

/// A loop that runs and wakes flushes the windows that are due and publishes them first; only where there
/// are none does it turn to the groups. A paused one probes the link when the probe is due, and starts to
/// count again from then.
pub proof fn a_loop_that_wakes_flushes_first(
    before: PollLoop,
    after: PollLoop,
    cfg: DeviceConfig,
    now: Instant,
    h0: Health,
    h1: Health,
    dm0: DeviceMetrics,
    dm1: DeviceMetrics,
    step: PollStep,
)
    requires
        PollLoop::woken(before, after, cfg, now, h0, h1, dm0, dm1, step),
    ensures
        before.paused && now.after(before.since_keepalive) >= before.keepalive_ms * 1_000_000 ==> {
            &&& step.next == PollNext::Probe
            &&& after.since_keepalive == now
            &&& after.phase == PollPhase::Probing(now)
        },
        before.paused && now.after(before.since_keepalive) < before.keepalive_ms * 1_000_000 ==> step.next is Wait
            && after.since_keepalive == before.since_keepalive,
        before.paused ==> after.engine == before.engine && after.deadlines == before.deadlines,
        !before.paused ==> {
            &&& after.engine.drained_from(before.engine, now, before.batch_ms)
            &&& publishes(after.queue@) == flushes(
                before.engine.known(),
                before.engine,
                now,
                before.batch_ms,
            )
            &&& after.queue@.len() > 0 ==> step.next == PollNext::Publish && after.phase
                == PollPhase::Flushing(now) && after.done == 0 && after.deadlines == before.deadlines
                && h1 == h0
            &&& after.queue@.len() == 0 ==> step.next is ReadGroup || step.next is Wait
        },
        after.paused == before.paused,
        step.reply is None,
{
}

/// A probe that is answered shows that the link is up; one that is not loses it and counts as a read
/// error.
pub proof fn a_probe_shows_the_link(
    before: PollLoop,
    after: PollLoop,
    cfg: DeviceConfig,
    ok: bool,
    h0: Health,
    h1: Health,
    dm0: DeviceMetrics,
    dm1: DeviceMetrics,
    step: PollStep,
)
    requires
        PollLoop::probed_to(before, after, cfg, ok, h0, h1, dm0, dm1, step),
    ensures
        ok ==> h1.link == LinkState::Online && step.next is Wait,
        ok && (before.phase->Probing_0).after(before.since_health) < before.metrics_secs * 1_000_000_000
            ==> h1 == (Health { link: LinkState::Online, ..h0 }),
        !ok ==> step.next == PollNext::Close(PollExit::LinkLost) && after.phase == PollPhase::Left && h1
            == (Health { read_errors: bumped(h0.read_errors, 1), ..h0 }) && dm1 == dm0 && step.emit@.len()
            == 0,
        after.engine == before.engine,
{
}

/// A scheduled read that failed is a read error and a failed cycle of its group, and the link is lost.
pub proof fn a_failed_read_loses_the_link(
    before: PollLoop,
    after: PollLoop,
    cfg: DeviceConfig,
    now: Instant,
    g: usize,
    snapshot: SampleSnapshot,
    why: String,
    h0: Health,
    h1: Health,
    dm0: DeviceMetrics,
    dm1: DeviceMetrics,
    step: PollStep,
)
    requires
        before.phase == PollPhase::Polling(now, g, snapshot),
        PollLoop::polled_to(
            before,
            after,
            cfg,
            Err::<GroupReading, String>(why),
            h0,
            h1,
            dm0,
            dm1,
            step,
        ),
    ensures
        step.next == PollNext::Close(PollExit::LinkLost),
        after.phase == PollPhase::Left,
        after.engine == before.engine,
        h1 == (Health { read_errors: bumped(h0.read_errors, 1), ..h0 }),
        dm1.cycle_recorded_from(
            dm0,
            cfg.poll_groups@[g as int].label(),
            Outcome::Error,
            PollCycle {
                duration_ms: 0,
                tag_reads: cfg.poll_groups@[g as int].signals@.len() as u64,
                overran: false,
                good: 0,
                bad: 0,
                uncertain: 0,
                changed: 0,
                suppressed: 0,
            },
        ),
{
}

/// A scheduled read that went well is one more cycle, an overrun exactly when it took longer than the
/// group's interval. Without a window, every signal of that group that passes under the group's own mode
/// is queued to be published, once and in order, and nothing else is. The places of those signals are
/// returned.
pub proof fn a_scheduled_read_publishes_what_passes(
    before: PollLoop,
    after: PollLoop,
    cfg: DeviceConfig,
    now: Instant,
    g: usize,
    snapshot: SampleSnapshot,
    r: GroupReading,
    h0: Health,
    h1: Health,
    dm0: DeviceMetrics,
    dm1: DeviceMetrics,
    step: PollStep,
) -> (places: Seq<int>)
    requires
        before.phase == PollPhase::Polling(now, g, snapshot),
        before.batch_ms == 0,
        distinct_tags(cfg.poll_groups@[g as int].signals@),
        PollLoop::polled_to(
            before,
            after,
            cfg,
            Ok::<GroupReading, String>(r),
            h0,
            h1,
            dm0,
            dm1,
            step,
        ),
    ensures
        after.queue@.len() == places.len(),
        forall|i: int, j: int| 0 <= i < j < places.len() ==> places[i] < places[j],
        forall|p: int| #[trigger]
            places.contains(p) <==> 0 <= p < cfg.poll_groups@[g as int].signals@.len() && (reading_of(
                r.readings@,
                cfg.poll_groups@[g as int].signals@[p].tag_path@,
            ) matches Some(at) && passes(
                before.engine.signal(
                    cfg.poll_groups@[g as int].signals@[p].tag_path@,
                ).reference(),
                r.readings@[at].value@,
                r.readings@[at].quality,
                cfg.poll_groups@[g as int].publish_mode,
                r.moved@[p]@,
            )),
        forall|j: int|
            0 <= j < places.len() ==> (#[trigger] after.queue@[j]).signal_id@
                == cfg.poll_groups@[g as int].signals@[places[j]].tag_path@,
        after.queue@.len() > 0 ==> step.next == PollNext::Publish && after.phase
            == PollPhase::Publishing(now, g, snapshot, r.elapsed) && after.done == 0,
        after.queue@.len() == 0 ==> step.next is Wait && after.phase == PollPhase::Waiting,
        h1.poll_cycles == bumped(h0.poll_cycles, 1),
        h1.overruns == (if r.elapsed.nanos > before.intervals@[g as int] * 1_000_000 {
            bumped(h0.overruns, 1)
        } else {
            h0.overruns
        }),
{
    let group = cfg.poll_groups@[g as int];
    let hc = cycle_counted(h0, r.elapsed, before.intervals@[g as int]);
    let h = choose|h: Health| #[trigger]
        PollLoop::gated_to(before, after, cfg, g as int, r, hc, h) && (if after.queue@.len() > 0 {
            &&& after == (PollLoop {
                phase: PollPhase::Publishing(now, g, snapshot, r.elapsed),
                ..before.with_updates(after.engine, after.queue)
            })
            &&& step.next == PollNext::Publish
            &&& quiet(h, h1, dm0, dm1, step)
        } else {
            PollLoop::cycle_done(
                before.with_updates(after.engine, after.queue),
                after,
                cfg,
                now,
                g as int,
                snapshot,
                r.elapsed,
                h,
                h1,
                dm0,
                dm1,
                step,
            )
        });
    let gate = group_gate(group, before.batch_ms, r);
    let places = every_signal_that_passes_is_published(
        before.engine,
        after.engine,
        group.signals@,
        r.readings@,
        gate,
        r.moved@,
        hc,
        h,
        publishes(after.queue@),
    );
    assert forall|j: int| 0 <= j < places.len() implies (#[trigger] after.queue@[j]).signal_id@
        == group.signals@[places[j]].tag_path@ by {
        assert(publishes(after.queue@)[j] == after.queue@[j]@);
    }
    lemma_gating_counts_no_cycle(
        start_of(before.engine, hc),
        group.signals@,
        group.signals@.len(),
        r.readings@,
        gate,
        r.moved@,
    );
    places
}

/// Gating the readings of a group counts samples and nothing else; only a bad one is a read error.
proof fn lemma_gating_counts_no_cycle(
    start: GroupV,
    signals: Seq<SignalSpec>,
    n: nat,
    readings: Seq<Reading>,
    gate: GateV,
    moved: Seq<Vec<bool>>,
)
    ensures
        ({
            let h = group_run(start, signals, n, readings, gate, moved).health;
            &&& h.poll_cycles == start.health.poll_cycles
            &&& h.overruns == start.health.overruns
            &&& h.poll_latency_ms == start.health.poll_latency_ms
            &&& h.link == start.health.link
            &&& h.paused == start.health.paused
            &&& h.signals_published == start.health.signals_published
            &&& h.read_errors == start.health.read_errors || exists|j: int|
                0 <= j < readings.len() && (#[trigger] readings[j]).quality == Quality::Bad
        }),
    decreases n,
{
    if n > 0 {
        lemma_gating_counts_no_cycle(start, signals, (n - 1) as nat, readings, gate, moved);
        let id = signals[n - 1].tag_path@;
        the_last_reading_of_a_signal_counts(readings, id);
        if let Some(at) = reading_of(readings, id) {
            let r = readings[at];
            assert(r@.quality == r.quality);
        }
    }
}

/// A publish of a configured signal that was confirmed counts its samples, and makes what was in flight
/// what later values are compared with. Every other one counts nothing there and forgets it. The update
/// is done with either way: the next one follows.
pub proof fn a_publish_is_accounted_and_settled(
    before: PollLoop,
    after: PollLoop,
    cfg: DeviceConfig,
    ok: bool,
    latency_ms: u64,
    h0: Health,
    h1: Health,
    dm0: DeviceMetrics,
    dm1: DeviceMetrics,
    step: PollStep,
    other: Seq<char>,
)
    requires
        before.done < before.queue@.len(),
        before.publishing(),
        PollLoop::published_to(before, after, cfg, ok, latency_ms, h0, h1, dm0, dm1, step),
    ensures
        ({
            let id = before.queue@[before.done as int].signal_id@;
            let counts = ok && cfg.has_signal(id);
            &&& after.engine.signal(id).pending is None
            &&& counts && before.engine.signal(id).pending is Some ==> after.engine.signal(id).baseline
                == before.engine.signal(id).pending
            &&& !counts ==> after.engine.signal(id).baseline == before.engine.signal(id).baseline
            &&& other != id ==> after.engine.signal(other) == before.engine.signal(other)
            &&& counts ==> h1.signals_published == bumped(
                h0.signals_published,
                before.queue@[before.done as int].samples@.len() as int % 0x1_0000_0000_0000_0000,
            ) && h1.publish_latency_ms == latency_ms
            &&& !counts ==> h1.signals_published == h0.signals_published && h1.publish_latency_ms
                == h0.publish_latency_ms
            &&& before.done + 1 < before.queue@.len() ==> step.next == PollNext::Publish && after.done
                == before.done + 1 && after.queue == before.queue && after.phase == before.phase
            &&& before.done + 1 == before.queue@.len() ==> step.next != PollNext::Publish
        }),
{
    assert(before.queue.len() == before.queue@.len());
    let p = before.queue@[before.done as int];
    assert(p.samples.len() == p.samples@.len());
    let id = p.signal_id@;
    let configured = cfg.has_signal(id);
    let mid = PollLoop { engine: after.engine, done: (before.done + 1) as usize, ..before };
    let (h, dm) = choose|h: Health, dm: DeviceMetrics|
        #[trigger] accounted(
            configured,
            ok,
            latency_ms,
            before.job_account(cfg),
            h0,
            h,
            dm0,
            dm,
        ) && (if before.done + 1 < before.queue@.len() {
            &&& after == mid
            &&& step.next == PollNext::Publish
            &&& quiet(h, h1, dm, dm1, step)
        } else {
            match before.phase {
                PollPhase::Flushing(now) => turn(mid, after, cfg, now, h, h1, dm, dm1, step),
                PollPhase::Publishing(now, g, snapshot, elapsed) => PollLoop::cycle_done(
                    mid,
                    after,
                    cfg,
                    now,
                    g as int,
                    snapshot,
                    elapsed,
                    h,
                    h1,
                    dm,
                    dm1,
                    step,
                ),
                PollPhase::Republishing(g, polled) => {
                    &&& PollLoop::repoll_on(mid, after, cfg, g as int, polled, step)
                    &&& h1 == h
                    &&& dm1 == dm
                },
                _ => true,
            }
        });
}

/// How far the counters have gone since a snapshot, below their limit: by as many as were counted.
pub proof fn a_snapshot_tells_what_was_counted_since(before: SampleSnapshot, now: SampleSnapshot)
    requires
        before.good <= now.good,
        before.bad <= now.bad,
        before.uncertain <= now.uncertain,
        before.changed <= now.changed,
        before.suppressed <= now.suppressed,
    ensures
        before.good + now.minus(before).good == now.good,
        before.bad + now.minus(before).bad == now.bad,
        before.uncertain + now.minus(before).uncertain == now.uncertain,
        before.changed + now.minus(before).changed == now.changed,
        before.suppressed + now.minus(before).suppressed == now.suppressed,
{
}

/// A counter that wrapped has still gone as far as it was counted.
pub proof fn a_wrapped_counter_has_gone_as_far(counter: u64, n: u64)
    ensures
        apart(bumped(counter, n as int), counter) == n,
{
}

/// The cycle that is recorded of a group is its own: the signals it has, how long the read took, whether
/// that was longer than its interval, and what was counted since the read began.
pub proof fn a_cycle_is_that_of_its_group(
    l: PollLoop,
    cfg: DeviceConfig,
    g: int,
    before: SampleSnapshot,
    elapsed: Duration,
    h: Health,
)
    ensures
        ({
            let c = l.cycle_of(cfg, g, before, elapsed, h);
            &&& c.duration_ms == elapsed.millis()
            &&& c.tag_reads == cfg.poll_groups@[g].signals@.len() as u64
            &&& c.overran <==> elapsed.nanos > l.intervals@[g] * 1_000_000
            &&& before.good <= h.samples_good ==> before.good + c.good == h.samples_good
            &&& before.bad <= h.samples_bad ==> before.bad + c.bad == h.samples_bad
            &&& before.uncertain <= h.samples_uncertain ==> before.uncertain + c.uncertain
                == h.samples_uncertain
            &&& before.changed <= h.samples_changed ==> before.changed + c.changed == h.samples_changed
            &&& before.suppressed <= h.samples_suppressed ==> before.suppressed + c.suppressed
                == h.samples_suppressed
        }),
{
}

/// A loop that starts reads no group before its own interval has passed, and none more often than once a
/// millisecond; it has seen nothing, and waits.
pub proof fn a_loop_starts_one_interval_ahead(
    l: PollLoop,
    cfg: DeviceConfig,
    global: GlobalConfig,
    keepalive_ms: u64,
    paused: bool,
    now: Instant,
    i: int,
    k: Seq<char>,
)
    requires
        l.starts(cfg, global, keepalive_ms, paused, now),
        0 <= i < cfg.poll_groups@.len(),
    ensures
        l.deadlines@.len() == cfg.poll_groups@.len(),
        cfg.poll_groups@[i].poll_interval_ms > 0 ==> l.deadlines@[i] == now.nanos
            + cfg.poll_groups@[i].poll_interval_ms * 1_000_000,
        cfg.poll_groups@[i].poll_interval_ms == 0 ==> l.deadlines@[i] == now.nanos + 1_000_000,
        cfg.poll_groups@[i].poll_interval_ms > 0 ==> l.intervals@[i]
            == cfg.poll_groups@[i].poll_interval_ms,
        l.paused == paused,
        l.phase == PollPhase::Waiting,
        l.engine.signal(k).baseline is None && l.engine.signal(k).pending is None,
        l.engine.signal(k).batcher.buffer.len() == 0 && l.engine.signal(k).last_good is None,
        l.engine.since() == now,
        l.since_health == now && l.since_keepalive == now,
        global.metrics_interval_secs > 0 ==> l.metrics_secs == global.metrics_interval_secs,
        keepalive_ms > 0 ==> l.keepalive_ms == keepalive_ms,
        l.metrics_secs > 0 && l.keepalive_ms > 0 && l.intervals@[i] > 0,
        l.stale_secs == global.stale_signal_secs,
        l.queue@.len() == 0,
{
    assert(l.intervals@[i] == at_least_one(cfg.poll_groups@[i].poll_interval_ms));
    assert(l.deadlines@[i] == now.due(l.intervals@[i] as int));
}

/// An update is accounted under the mode of its signal, with as many samples as it has, and as one from a
/// window exactly when it was flushed out of one.
pub proof fn an_update_is_accounted_as_what_it_is(l: PollLoop, cfg: DeviceConfig)
    requires
        l.publishing(),
        l.done < l.queue@.len(),
    ensures
        ({
            let p = l.queue@[l.done as int];
            let a = l.job_account(cfg);
            &&& a.samples == p.samples@.len() as u64
            &&& a.from_batch <==> l.phase is Flushing
            &&& cfg.mode_of(p.signal_id@) matches Some(m) ==> a.mode == m
            &&& cfg.mode_of(p.signal_id@) is None && l.phase is Publishing ==> a.mode == cfg.poll_groups@[l.phase->Publishing_1 as int].publish_mode
            &&& cfg.mode_of(p.signal_id@) is None && l.phase is Republishing ==> a.mode
                == cfg.poll_groups@[l.phase->Republishing_0 as int].publish_mode
            &&& cfg.mode_of(p.signal_id@) is None && l.phase is Flushing ==> a.mode
                == PublishMode::OnChange
        }),
{
}

/// A quiet step answers nobody, emits nothing and tells nothing, and leaves every count as it is; a loop
/// that waits does so until what comes first.
pub proof fn a_quiet_step_does_nothing(
    l: PollLoop,
    h0: Health,
    h1: Health,
    dm0: DeviceMetrics,
    dm1: DeviceMetrics,
    step: PollStep,
)
    ensures
        quiet(h0, h1, dm0, dm1, step) <==> h1 == h0 && dm1 == dm0 && step.reply is None
            && step.emit@.len() == 0 && step.notices@.len() == 0,
        tells_nothing(step) <==> step.emit@.len() == 0 && step.notices@.len() == 0,
        l.waits(step.next) ==> l.phase is Waiting && step.next is Wait && l.is_wake(step.next->Wait_0),
{
}

} // verus!
