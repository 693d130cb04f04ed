//! The push loop: the frames of a class-1 connection, gated, batched and published, with the control
//! verbs served in between. The caller performs each step the loop asks for and hands back how it went.

use vstd::prelude::*;

use crate::clock::{Duration, Instant, NANOS_PER_SEC};
use crate::config::{
    batch_window, holds_text, push_mode, push_publish_mode, DeviceConfig, GlobalConfig, PublishMode,
};
use crate::counters::{growth, IoLinkStats};
use crate::device::{put_identity, with_identity, DeviceIdentity, InputSnapshot, Quality, Reading};
use crate::device_metrics::DeviceMetrics;
use crate::emit::{emissions, health_emitted, Emission};
use crate::engine::{flushes, publishes, snapshot_of, stale_among, Engine, Publish, PublishV};
use crate::health::{bump, bumped, Health, LinkState};
use crate::json::{Json, JsonV, Object};
use crate::notice::{
    clear_unreachable, event, event_notice, notices, reachable_again, Notice, NoticeV, Severity,
};
use crate::pause::{apply_pause, asked_by, paused_to};
use crate::poll::{gated, start_of, Gate, GateV, GroupV};
use crate::poll_driver::{
    account, accounted, at_least_one, least, one_or_more, Account, BrowseError, ControlVerb,
};
use crate::publish::{passes, SampleV, StateV};
use crate::push::{
    distinct_fields, every_field_that_passes_is_published, frame_run, process_frame,
};
use crate::step::StepOrder;
use crate::text::{join2, owned, texts};

verus! {

/// How the push loop was left. In every case the connection is to be closed.
#[derive(Clone, Copy, Debug, PartialEq, Eq, Structural)]
pub enum PushExit {
    /// The connection was lost: back off and reconnect.
    LinkLost,
    /// A reconnect was asked for: open again at once and answer it.
    Reconnect,
    /// Cancelled, or the control channel closed: neither reconnect nor alarm.
    Stopped,
}

/// What the loop is in the middle of.
#[derive(Clone, Copy, Debug, PartialEq, Eq, Structural)]
pub enum PushPhase {
    /// Nothing: it waits for a verb, an update or its next deadline.
    Waiting,
    /// Staging an output field.
    WritingOutput,
    /// Publishing what a frame came to.
    Publishing,
    /// An update was dealt with; the time is wanted.
    Asking,
    /// Publishing the windows that closed.
    Flushing(Instant),
    /// The metrics are due; the stack's counters are wanted.
    Counting(Instant),
    /// The loop was left.
    Left,
}

/// The push loop of one device.
#[derive(Debug)]
pub struct PushLoop {
    pub engine: Engine,
    pub mode: PublishMode,
    pub sample_ms: u64,
    pub batch_ms: u64,
    pub stale_secs: u64,
    pub metrics_secs: u64,
    /// The ids of the configured input fields.
    pub ids: Vec<String>,
    pub since_health: Instant,
    pub paused: bool,
    pub phase: PushPhase,
    /// The updates to publish, and how many of them are done.
    pub queue: Vec<Publish>,
    pub done: usize,
}

/// What the caller is to do next.
#[derive(Clone, Copy, Debug, PartialEq, Eq, Structural)]
pub enum PushNext {
    /// Wait for cancellation, a control verb, an update or that point on the clock, in that order.
    Wait(u128),
    /// Stage the output field that was asked for.
    WriteOutput,
    /// Publish the update [`PushLoop::job`] names.
    Publish,
    /// Say what time it is.
    Clock,
    /// Read the counters of the class-1 stack.
    Stats,
    /// Close the connection; the loop is left.
    Close(PushExit),
}

/// The answer to a control verb.
#[derive(Debug)]
pub enum PushReply {
    /// The last consumed frame, if there is one.
    Snapshot(Option<InputSnapshot>),
    /// Whether pausing or resuming changed anything.
    Changed(bool),
    /// The outcome of staging an output field.
    Written(Result<(), String>),
    /// The verb is not one for a push device.
    Refused(String),
    BrowseFailed(BrowseError),
}

/// What one step of the loop comes to.
#[derive(Debug)]
pub struct PushStep {
    pub reply: Option<PushReply>,
    /// The metrics to emit.
    pub emit: Vec<Emission>,
    pub notices: Vec<Notice>,
    pub order: StepOrder,
    pub next: PushNext,
}

/// A consumed frame.
#[derive(Debug)]
pub struct Frame {
    pub readings: Vec<Reading>,
    pub sequence: u16,
    pub run_mode: bool,
    pub received_at: Instant,
    /// When it is gated.
    pub now: Instant,
    pub server_ts: String,
    /// For each field, the deadband's verdict on each of its numbers.
    pub moved: Vec<Vec<bool>>,
}

impl PushLoop {
    /// Whatever the loop is in the middle of exists.
    pub open spec fn wf(self) -> bool {
        &&& self.engine.wf()
        &&& self.done <= self.queue@.len()
        &&& (self.phase is Publishing || self.phase is Flushing) ==> self.done < self.queue@.len()
    }

    /// A loop that has just started on a device with a class-1 connection.
    pub open spec fn starts(
        self,
        cfg: DeviceConfig,
        global: GlobalConfig,
        paused: bool,
        now: Instant,
    ) -> bool {
        &&& self.wf()
        &&& self.engine.since() == now
        &&& self.engine.known() == Seq::<Seq<char>>::empty()
        &&& forall|k: Seq<char>| #[trigger] self.engine.signal(k) == StateV::unread()
        &&& self.mode == push_mode(cfg.defaults, global.defaults)
        &&& cfg.io matches Some(io) && self.sample_ms == io.sample_ms && texts(self.ids@)
            == io.input_ids()
        &&& self.batch_ms == batch_window(cfg.defaults, global.defaults)
        &&& self.stale_secs == global.stale_signal_secs
        &&& self.metrics_secs == at_least_one(global.metrics_interval_secs)
        &&& self.since_health == now
        &&& self.paused == paused
        &&& self.phase == PushPhase::Waiting
        &&& self.queue@.len() == 0
    }

    /// Start on a device, if it has a class-1 connection. A pause that came while the link was down
    /// carries over.
    pub fn new(cfg: &DeviceConfig, global: &GlobalConfig, paused: bool, now: Instant) -> (r: Option<
        PushLoop,
    >)
        ensures
            match r {
                Some(l) => l.starts(*cfg, *global, paused, now),
                None => cfg.io is None,
            },
    {
        match &cfg.io {
            None => None,
            Some(io) => Some(
                PushLoop {
                    engine: Engine::new(now),
                    mode: push_publish_mode(cfg.defaults, global.defaults),
                    sample_ms: io.sample_ms,
                    batch_ms: cfg.effective_batch_ms(global),
                    stale_secs: global.stale_signal_secs,
                    metrics_secs: one_or_more(global.metrics_interval_secs),
                    ids: io.field_ids(),
                    since_health: now,
                    paused,
                    phase: PushPhase::Waiting,
                    queue: Vec::new(),
                    done: 0,
                },
            ),
        }
    }

    /// When the metrics are due next.
    pub open spec fn metrics_due(self) -> int {
        self.since_health.nanos + self.metrics_secs * 1_000_000_000
    }

    /// `w` is when the loop wakes by itself: the metrics and, unless it is paused, the first window that
    /// closes.
    pub open spec fn is_wake(self, w: u128) -> bool {
        if self.paused {
            w == self.metrics_due()
        } else {
            exists|close: Option<u128>| #[trigger]
                self.engine.first_close(self.batch_ms, close) && w == (match close {
                    Some(t) => least(self.metrics_due(), t as int),
                    None => self.metrics_due(),
                })
        }
    }

    /// When the loop wakes by itself.
    pub fn wake(&self) -> (w: u128)
        requires
            self.engine.wf(),
        ensures
            self.is_wake(w),
    {
        let mut w: u128 = (self.since_health.nanos as u128) + (self.metrics_secs as u128)
            * NANOS_PER_SEC;
        if !self.paused {
            let close = self.engine.next_batch_deadline(self.batch_ms);
            if let Some(t) = close {
                if t < w {
                    w = t;
                }
            }
            assert(self.engine.first_close(self.batch_ms, close));
        }
        w
    }

    /// The loop waits, and `next` says until when.
    pub open spec fn waits(self, next: PushNext) -> bool {
        self.phase == PushPhase::Waiting && (next matches PushNext::Wait(w) && self.is_wake(w))
    }
}

fn silent(next: PushNext) -> (r: PushStep)
    ensures
        r.reply is None,
        r.emit@.len() == 0,
        r.notices@.len() == 0,
        r.order == StepOrder::AnswerLast,
        r.next == next,
{
    PushStep {
        reply: None,
        emit: Vec::new(),
        notices: Vec::new(),
        order: StepOrder::AnswerLast,
        next,
    }
}

fn answer(reply: PushReply, next: PushNext) -> (r: PushStep)
    ensures
        r.reply == Some(reply),
        r.emit@.len() == 0,
        r.notices@.len() == 0,
        r.order == StepOrder::AnswerLast,
        r.next == next,
{
    PushStep {
        reply: Some(reply),
        emit: Vec::new(),
        notices: Vec::new(),
        order: StepOrder::AnswerLast,
        next,
    }
}

/// Nothing is to be emitted, told or answered.
pub open spec fn is_silent(step: PushStep) -> bool {
    step.reply is None && step.emit@.len() == 0 && step.notices@.len() == 0
}

impl PushLoop {
    /// Cancelled, or the control channel closed: the loop is left for good.
    pub fn stop(&mut self) -> (step: PushStep)
        ensures
            *final(self) == (PushLoop { phase: PushPhase::Left, ..*old(self) }),
            step.next == PushNext::Close(PushExit::Stopped),
            is_silent(step),
    {
        self.phase = PushPhase::Left;
        silent(PushNext::Close(PushExit::Stopped))
    }

    /// What a control verb comes to. `last` is the last consumed frame, if there is one.
    pub open spec fn served(
        before: PushLoop,
        after: PushLoop,
        cfg: DeviceConfig,
        verb: ControlVerb,
        by: Option<Seq<char>>,
        last: Option<InputSnapshot>,
        now: Instant,
        h0: Health,
        h1: Health,
        dm0: DeviceMetrics,
        dm1: DeviceMetrics,
        step: PushStep,
    ) -> bool {
        &&& step.order == StepOrder::AnswerLast
        &&& !(verb is Pause || verb is Resume) ==> {
            &&& step.emit@.len() == 0
            &&& step.notices@.len() == 0
            &&& h1 == h0
            &&& dm1 == dm0
        }
        &&& match verb {
            ControlVerb::Snapshot => {
                &&& after == before
                &&& after.waits(step.next)
                &&& step.reply == Some(PushReply::Snapshot(last))
            },
            ControlVerb::WriteOutput => {
                &&& after == (PushLoop { phase: PushPhase::WritingOutput, ..before })
                &&& step.next == PushNext::WriteOutput
                &&& step.reply is None
            },
            ControlVerb::Pause => {
                &&& after == (PushLoop { engine: after.engine, paused: true, ..before })
                &&& after.engine.discarded_from(before.engine)
                &&& after.waits(step.next)
                &&& step.reply == Some(PushReply::Changed(!h0.paused))
                &&& paused_to(
                    true,
                    cfg.id@,
                    by,
                    now,
                    h0,
                    h1,
                    dm0,
                    dm1,
                    step.emit@,
                    step.notices@,
                )
            },
            ControlVerb::Resume => {
                &&& after == (PushLoop { engine: after.engine, paused: false, ..before })
                &&& match last {
                    Some(frame) if h0.paused => after.engine.rebased_from(
                        before.engine,
                        frame.readings@,
                        now,
                    ),
                    _ => after.engine == before.engine,
                }
                &&& after.waits(step.next)
                &&& step.reply == Some(PushReply::Changed(h0.paused))
                &&& paused_to(
                    false,
                    cfg.id@,
                    None,
                    now,
                    h0,
                    h1,
                    dm0,
                    dm1,
                    step.emit@,
                    step.notices@,
                )
            },
            ControlVerb::Reconnect => {
                &&& after == (PushLoop { phase: PushPhase::Left, ..before })
                &&& step.next == PushNext::Close(PushExit::Reconnect)
                &&& step.reply is None
            },
            ControlVerb::ReadNow => {
                &&& after == before
                &&& after.waits(step.next)
                &&& step.reply matches Some(PushReply::Refused(e)) && e@
                    == "push instance - reads answer from the input snapshot"@
            },
            ControlVerb::Write => {
                &&& after == before
                &&& after.waits(step.next)
                &&& step.reply matches Some(PushReply::Refused(e)) && e@
                    == "push instance - writes target the output assembly"@
            },
            ControlVerb::Repoll => {
                &&& after == before
                &&& after.waits(step.next)
                &&& step.reply matches Some(PushReply::Refused(e)) && e@
                    == "push instance - data arrives cyclically"@
            },
            ControlVerb::Browse => {
                &&& after == before
                &&& after.waits(step.next)
                &&& step.reply == Some(PushReply::BrowseFailed(BrowseError::Unsupported))
            },
        }
    }

    /// Serve a control verb. Pausing drops the open windows; resuming compares later values with the
    /// last consumed frame, so that what drifted meanwhile is not published as one burst.
    /// `by` is who asked for a pause, if that is known.
    pub fn control(
        &mut self,
        cfg: &DeviceConfig,
        verb: ControlVerb,
        by: Option<&str>,
        last: Option<InputSnapshot>,
        now: Instant,
        health: &mut Health,
        dm: &mut DeviceMetrics,
    ) -> (step: PushStep)
        requires
            old(self).wf(),
            old(self).phase == PushPhase::Waiting,
        ensures
            final(self).wf(),
            PushLoop::served(
                *old(self),
                *final(self),
                *cfg,
                verb,
                asked_by(by),
                last,
                now,
                *old(health),
                *final(health),
                *old(dm),
                *final(dm),
                step,
            ),
    {
        match verb {
            ControlVerb::Snapshot => answer(PushReply::Snapshot(last), PushNext::Wait(self.wake())),
            ControlVerb::WriteOutput => {
                self.phase = PushPhase::WritingOutput;
                silent(PushNext::WriteOutput)
            },
            ControlVerb::Pause => {
                let p = apply_pause(cfg, health, dm, true, by, now);
                self.engine.discard_open_batches();
                self.paused = true;
                PushStep {
                    reply: Some(PushReply::Changed(p.changed)),
                    emit: p.emit,
                    notices: p.notices,
                    order: StepOrder::AnswerLast,
                    next: PushNext::Wait(self.wake()),
                }
            },
            ControlVerb::Resume => {
                let p = apply_pause(cfg, health, dm, false, None, now);
                if p.changed {
                    if let Some(frame) = &last {
                        self.engine.rebase_from(&frame.readings, now);
                    }
                }
                self.paused = false;
                PushStep {
                    reply: Some(PushReply::Changed(p.changed)),
                    emit: p.emit,
                    notices: p.notices,
                    order: StepOrder::AnswerLast,
                    next: PushNext::Wait(self.wake()),
                }
            },
            ControlVerb::Reconnect => {
                self.phase = PushPhase::Left;
                silent(PushNext::Close(PushExit::Reconnect))
            },
            ControlVerb::ReadNow => answer(
                PushReply::Refused(owned("push instance - reads answer from the input snapshot")),
                PushNext::Wait(self.wake()),
            ),
            ControlVerb::Write => answer(
                PushReply::Refused(owned("push instance - writes target the output assembly")),
                PushNext::Wait(self.wake()),
            ),
            ControlVerb::Repoll => answer(
                PushReply::Refused(owned("push instance - data arrives cyclically")),
                PushNext::Wait(self.wake()),
            ),
            ControlVerb::Browse => answer(
                PushReply::BrowseFailed(BrowseError::Unsupported),
                PushNext::Wait(self.wake()),
            ),
        }
    }

    /// The output field was staged; a failure counts.
    pub fn output_written(&mut self, result: Result<(), String>, health: &mut Health) -> (step:
        PushStep)
        requires
            old(self).engine.wf(),
            old(self).phase == PushPhase::WritingOutput,
        ensures
            *final(self) == (PushLoop { phase: PushPhase::Waiting, ..*old(self) }),
            final(self).waits(step.next),
            step.reply == Some(PushReply::Written(result)),
            step.emit@.len() == 0,
            step.notices@.len() == 0,
            *final(health) == (if result is Err {
                Health { write_errors: bumped(old(health).write_errors, 1), ..*old(health) }
            } else {
                *old(health)
            }),
    {
        if result.is_err() {
            health.write_errors = bump(health.write_errors, 1);
        }
        self.phase = PushPhase::Waiting;
        answer(PushReply::Written(result), PushNext::Wait(self.wake()))
    }

    /// The link was lost, or the stream of updates ended without a word: either way it counts as a
    /// read error and a timeout.
    pub fn lost(&mut self, health: &mut Health, dm: &mut DeviceMetrics) -> (step: PushStep)
        ensures
            *final(self) == (PushLoop { phase: PushPhase::Left, ..*old(self) }),
            step.next == PushNext::Close(PushExit::LinkLost),
            is_silent(step),
            *final(health) == (Health {
                read_errors: bumped(old(health).read_errors, 1),
                ..*old(health)
            }),
            *final(dm) == (DeviceMetrics { io: old(dm).io.lost(), ..*old(dm) }),
    {
        health.read_errors = bump(health.read_errors, 1);
        dm.on_io_lost();
        self.phase = PushPhase::Left;
        silent(PushNext::Close(PushExit::LinkLost))
    }
}

/// What is told when the class-1 connection is up, with the nameplate of a device that has one.
pub open spec fn up_context(
    instance: Seq<char>,
    adapter: Seq<char>,
    o2t_api_ms: u32,
    t2o_api_ms: u32,
    identity: Option<DeviceIdentity>,
) -> Map<Seq<char>, JsonV> {
    with_identity(
        Map::empty().insert("instance"@, JsonV::Text(instance)).insert(
            "adapter"@,
            JsonV::Text(adapter),
        ).insert("o2tApiMs"@, JsonV::Int(o2t_api_ms as int)).insert(
            "t2oApiMs"@,
            JsonV::Int(t2o_api_ms as int),
        ),
        identity,
    )
}

/// What is told when the stack refuses to produce to a foreign address.
pub open spec fn redirect_refused(count: u64) -> NoticeV {
    event(
        Severity::Warning,
        "io-redirect-refused"@,
        "forward-open reply pointed the O→T stream at a foreign address; address refused, sockaddr port honoured"@,
        Map::empty().insert("refusedRedirects"@, JsonV::Int(count as int)),
    )
}

impl PushLoop {
    /// What the connection coming up comes to: the link is online, its intervals are known, the metrics
    /// of the transition are emitted, and the alarm of an unreachable device is cleared.
    pub open spec fn up_to(
        before: PushLoop,
        after: PushLoop,
        cfg: DeviceConfig,
        adapter: Seq<char>,
        o2t_api_ms: u32,
        t2o_api_ms: u32,
        identity: Option<DeviceIdentity>,
        now: Instant,
        h0: Health,
        h1: Health,
        dm0: DeviceMetrics,
        dm1: DeviceMetrics,
        step: PushStep,
    ) -> bool {
        let h = Health { link: LinkState::Online, ..h0 };
        let dm = DeviceMetrics { io: dm0.io.up(o2t_api_ms, t2o_api_ms), ..dm0 };
        &&& after == (PushLoop { phase: PushPhase::Asking, ..before })
        &&& step.next == PushNext::Clock
        &&& step.reply is None
        &&& step.order == StepOrder::AnswerLast
        &&& h1 == health_emitted(h)
        &&& emissions(step.emit@) == dm.transition_emits(h, now)
        &&& dm1.transition_emitted_from(dm, now)
        &&& notices(step.notices@) == seq![
            event(
                Severity::Info,
                "device-connected"@,
                "class-1 connection up to "@ + cfg.endpoint@,
                up_context(cfg.id@, adapter, o2t_api_ms, t2o_api_ms, identity),
            ),
            reachable_again(),
        ]
    }

    /// The class-1 connection is up.
    pub fn up(
        &mut self,
        cfg: &DeviceConfig,
        adapter: &str,
        o2t_api_ms: u32,
        t2o_api_ms: u32,
        identity: &Option<DeviceIdentity>,
        now: Instant,
        health: &mut Health,
        dm: &mut DeviceMetrics,
    ) -> (step: PushStep)
        requires
            old(self).wf(),
            old(self).phase == PushPhase::Waiting,
        ensures
            final(self).wf(),
            PushLoop::up_to(
                *old(self),
                *final(self),
                *cfg,
                adapter@,
                o2t_api_ms,
                t2o_api_ms,
                *identity,
                now,
                *old(health),
                *final(health),
                *old(dm),
                *final(dm),
                step,
            ),
    {
        health.link = LinkState::Online;
        dm.on_io_up(o2t_api_ms, t2o_api_ms);
        let emit = dm.emit_now(health, now);
        let mut context = Object::new();
        context.insert("instance", Json::of_text(cfg.id.as_str()));
        context.insert("adapter", Json::of_text(adapter));
        context.insert("o2tApiMs", Json::of_u64(o2t_api_ms as u64));
        context.insert("t2oApiMs", Json::of_u64(t2o_api_ms as u64));
        put_identity(&mut context, identity);
        let mut told: Vec<Notice> = Vec::new();
        told.push(
            event_notice(
                Severity::Info,
                "device-connected",
                join2("class-1 connection up to ", cfg.endpoint.as_str()),
                context,
            ),
        );
        told.push(clear_unreachable());
        assert(notices(told@) =~= seq![
            event(
                Severity::Info,
                "device-connected"@,
                "class-1 connection up to "@ + cfg.endpoint@,
                up_context(cfg.id@, adapter@, o2t_api_ms, t2o_api_ms, *identity),
            ),
            reachable_again(),
        ]);
        self.phase = PushPhase::Asking;
        PushStep {
            reply: None,
            emit,
            notices: told,
            order: StepOrder::AnswerLast,
            next: PushNext::Clock,
        }
    }

    /// What a frame comes to. It is counted whether or not the device is paused; only when it is not are
    /// its fields gated and published.
    pub open spec fn framed_to(
        before: PushLoop,
        after: PushLoop,
        f: Frame,
        h0: Health,
        h1: Health,
        dm0: DeviceMetrics,
        dm1: DeviceMetrics,
        step: PushStep,
    ) -> bool {
        let h = Health { frames_consumed: bumped(h0.frames_consumed, 1), ..h0 };
        &&& is_silent(step)
        &&& dm1 == (DeviceMetrics {
            io: dm0.io.consumed(f.sequence, f.received_at, f.run_mode),
            ..dm0
        })
        &&& if before.paused {
            &&& after == (PushLoop { phase: PushPhase::Asking, ..before })
            &&& step.next == PushNext::Clock
            &&& h1 == h
        } else {
            &&& after == (PushLoop {
                engine: after.engine,
                queue: after.queue,
                done: 0,
                phase: if after.queue@.len() > 0 {
                    PushPhase::Publishing
                } else {
                    PushPhase::Asking
                },
                ..before
            })
            &&& gated(
                before.engine,
                after.engine,
                frame_run(
                    start_of(before.engine, h),
                    f.readings@.len(),
                    f.readings@,
                    GateV {
                        mode: before.mode,
                        batch_ms: before.batch_ms,
                        now: f.now,
                        server_ts: f.server_ts@,
                    },
                    before.sample_ms,
                    f.moved@,
                ),
                h1,
                publishes(after.queue@),
            )
            &&& step.next == (if after.queue@.len() > 0 {
                PushNext::Publish
            } else {
                PushNext::Clock
            })
        }
    }

    /// A frame was consumed.
    pub fn frame(&mut self, f: &Frame, health: &mut Health, dm: &mut DeviceMetrics) -> (step: PushStep)
        requires
            old(self).wf(),
            old(self).phase == PushPhase::Waiting,
            f.moved@.len() == f.readings@.len(),
        ensures
            final(self).wf(),
            PushLoop::framed_to(
                *old(self),
                *final(self),
                *f,
                *old(health),
                *final(health),
                *old(dm),
                *final(dm),
                step,
            ),
    {
        health.frames_consumed = bump(health.frames_consumed, 1);
        dm.record_frame_consumed(f.sequence, f.received_at, f.run_mode);
        if self.paused {
            self.phase = PushPhase::Asking;
            return silent(PushNext::Clock);
        }
        let gate = Gate {
            mode: self.mode,
            batch_ms: self.batch_ms,
            now: f.now,
            server_ts: f.server_ts.clone(),
        };
        self.queue = process_frame(
            &mut self.engine,
            &f.readings,
            &gate,
            self.sample_ms,
            &f.moved,
            health,
        );
        self.done = 0;
        if self.queue.len() > 0 {
            self.phase = PushPhase::Publishing;
            silent(PushNext::Publish)
        } else {
            self.phase = PushPhase::Asking;
            silent(PushNext::Clock)
        }
    }

    /// The end of a tick: when the metrics are due the stale fields are counted, unless the device is
    /// paused, and the stack's counters are wanted; otherwise the loop waits.
    pub open spec fn tick_done(
        before: PushLoop,
        after: PushLoop,
        now: Instant,
        h0: Health,
        h1: Health,
        step: PushStep,
    ) -> bool {
        &&& is_silent(step)
        &&& if now.after(before.since_health) >= before.metrics_secs * 1_000_000_000 {
            let stale = if before.paused {
                0
            } else {
                stale_among(texts(before.ids@), before.engine, before.stale_secs, now)
            };
            &&& stale <= u64::MAX
            &&& after == (PushLoop { phase: PushPhase::Counting(now), ..before })
            &&& step.next == PushNext::Stats
            &&& h1 == (Health { stale_signals: stale as u64, ..h0 })
        } else {
            &&& after == (PushLoop { phase: PushPhase::Waiting, ..before })
            &&& after.waits(step.next)
            &&& h1 == h0
        }
    }

    fn finish_tick(&mut self, now: Instant, health: &mut Health) -> (step: PushStep)
        requires
            old(self).engine.wf(),
        ensures
            PushLoop::tick_done(*old(self), *final(self), now, *old(health), *final(health), step),
    {
        if now.since(self.since_health).nanos >= Duration::from_secs(self.metrics_secs).nanos {
            let mut stale: u64 = 0;
            if !self.paused {
                stale = self.engine.count_stale(&self.ids, self.stale_secs, now);
            }
            health.stale_signals = stale;
            self.phase = PushPhase::Counting(now);
            silent(PushNext::Stats)
        } else {
            self.phase = PushPhase::Waiting;
            let w: u128 = self.wake();
            silent(PushNext::Wait(w))
        }
    }

    /// What a tick comes to: unless the device is paused, the windows that closed are flushed first.
    pub open spec fn ticked_to(
        before: PushLoop,
        after: PushLoop,
        now: Instant,
        h0: Health,
        h1: Health,
        step: PushStep,
    ) -> bool {
        if before.paused {
            PushLoop::tick_done(before, after, now, h0, h1, step)
        } else {
            let mid = PushLoop { engine: after.engine, queue: after.queue, done: 0, ..before };
            &&& after.engine.drained_from(before.engine, now, before.batch_ms)
            &&& publishes(after.queue@) == flushes(
                before.engine.known(),
                before.engine,
                now,
                before.batch_ms,
            )
            &&& if after.queue@.len() > 0 {
                &&& after == (PushLoop { phase: PushPhase::Flushing(now), ..mid })
                &&& step.next == PushNext::Publish
                &&& is_silent(step)
                &&& h1 == h0
            } else {
                PushLoop::tick_done(mid, after, now, h0, h1, step)
            }
        }
    }

    /// The loop woke by itself, or an update was dealt with: it is `now`.
    pub fn ticked(&mut self, now: Instant, health: &mut Health) -> (step: PushStep)
        requires
            old(self).wf(),
            old(self).phase == PushPhase::Waiting || old(self).phase == PushPhase::Asking,
        ensures
            final(self).wf(),
            PushLoop::ticked_to(*old(self), *final(self), now, *old(health), *final(health), step),
    {
        if self.paused {
            return self.finish_tick(now, health);
        }
        self.queue = self.engine.take_due(self.batch_ms, now);
        self.done = 0;
        if self.queue.len() > 0 {
            self.phase = PushPhase::Flushing(now);
            silent(PushNext::Publish)
        } else {
            self.finish_tick(now, health)
        }
    }

    /// The loop has an update to publish.
    pub open spec fn publishing(self) -> bool {
        self.phase is Publishing || self.phase is Flushing
    }

    /// How the update at hand is accounted.
    pub open spec fn job_account(self) -> Account {
        Account {
            mode: self.mode,
            samples: self.queue@[self.done as int].samples@.len() as u64,
            from_batch: self.phase is Flushing,
        }
    }

    /// The update at hand, whether its field is configured, and how it is accounted.
    pub fn job(&self) -> (r: (&Publish, bool, Account))
        requires
            self.wf(),
            self.publishing(),
        ensures
            *r.0 == self.queue@[self.done as int],
            r.1 == texts(self.ids@).contains(r.0@.signal_id),
            r.2 == self.job_account(),
    {
        let p = &self.queue[self.done];
        let from_batch = matches!(self.phase, PushPhase::Flushing(_));
        let samples: u64 = p.samples.len() as u64;
        (p, holds_text(&self.ids, p.signal_id.as_str()), Account { mode: self.mode, samples, from_batch })
    }

    /// What a publish comes to: it is accounted, the field's pending value is promoted or dropped, and
    /// the loop goes on with the next update or with what the updates came from.
    pub open spec fn published_to(
        before: PushLoop,
        after: PushLoop,
        ok: bool,
        latency_ms: u64,
        h0: Health,
        h1: Health,
        dm0: DeviceMetrics,
        dm1: DeviceMetrics,
        step: PushStep,
    ) -> bool {
        let id = before.queue@[before.done as int].signal_id@;
        let configured = texts(before.ids@).contains(id);
        let mid = PushLoop { engine: after.engine, done: (before.done + 1) as usize, ..before };
        &&& after.engine.settled_from(before.engine, id, ok && configured)
        &&& exists|h: Health|
            #[trigger] accounted(
                configured,
                ok,
                latency_ms,
                before.job_account(),
                h0,
                h,
                dm0,
                dm1,
            ) && (if before.done + 1 < before.queue@.len() {
                &&& after == mid
                &&& step.next == PushNext::Publish
                &&& is_silent(step)
                &&& h1 == h
            } else {
                match before.phase {
                    PushPhase::Flushing(now) => PushLoop::tick_done(mid, after, now, h, h1, step),
                    _ => {
                        &&& after == (PushLoop { phase: PushPhase::Asking, ..mid })
                        &&& step.next == PushNext::Clock
                        &&& is_silent(step)
                        &&& h1 == h
                    },
                }
            })
    }

    /// The update at hand was published, or failed to be.
    pub fn published(
        &mut self,
        ok: bool,
        latency_ms: u64,
        health: &mut Health,
        dm: &mut DeviceMetrics,
    ) -> (step: PushStep)
        requires
            old(self).wf(),
            old(self).publishing(),
        ensures
            final(self).wf(),
            PushLoop::published_to(
                *old(self),
                *final(self),
                ok,
                latency_ms,
                *old(health),
                *final(health),
                *old(dm),
                *final(dm),
                step,
            ),
    {
        let (p, configured, a) = self.job();
        let id = p.signal_id.clone();
        account(configured, ok, latency_ms, a, health, dm);
        let ghost h = *health;
        self.engine.settle(id.as_str(), ok && configured);
        let updates: usize = self.queue.len();
        self.done = self.done + 1;
        assert(accounted(
            texts(old(self).ids@).contains(id@),
            ok,
            latency_ms,
            old(self).job_account(),
            *old(health),
            h,
            *old(dm),
            *dm,
        ));
        if self.done < updates {
            return silent(PushNext::Publish);
        }
        match self.phase {
            PushPhase::Flushing(now) => self.finish_tick(now, health),
            _ => {
                self.phase = PushPhase::Asking;
                silent(PushNext::Clock)
            },
        }
    }

    /// What the stack's counters come to: they are folded in before the metrics are emitted, and a
    /// redirect that was newly refused is told before that, too.
    pub open spec fn counted_to(
        before: PushLoop,
        after: PushLoop,
        stats: Option<IoLinkStats>,
        h0: Health,
        h1: Health,
        dm0: DeviceMetrics,
        dm1: DeviceMetrics,
        step: PushStep,
    ) -> bool {
        let now = before.phase->Counting_0;
        let dm = match stats {
            Some(s) => DeviceMetrics { io: dm0.io.folded(s), ..dm0 },
            None => dm0,
        };
        &&& after == (PushLoop { since_health: now, phase: PushPhase::Waiting, ..before })
        &&& after.waits(step.next)
        &&& step.reply is None
        &&& step.order == StepOrder::NoticesFirst
        &&& emissions(step.emit@) == dm.periodic_emits(h0, now)
        &&& h1 == health_emitted(h0)
        &&& dm1.emitted_from(dm, now)
        &&& notices(step.notices@) == (match stats {
            Some(s) if growth(dm0.io.last_stats.refused_redirects, s.refused_redirects) > 0 => seq![
                redirect_refused(s.refused_redirects),
            ],
            _ => Seq::empty(),
        })
    }

    /// The stack's counters were read, if there are any.
    pub fn counted(
        &mut self,
        stats: Option<IoLinkStats>,
        health: &mut Health,
        dm: &mut DeviceMetrics,
    ) -> (step: PushStep)
        requires
            old(self).wf(),
            old(self).phase is Counting,
        ensures
            final(self).wf(),
            PushLoop::counted_to(
                *old(self),
                *final(self),
                stats,
                *old(health),
                *final(health),
                *old(dm),
                *final(dm),
                step,
            ),
    {
        let now = match self.phase {
            PushPhase::Counting(t) => t,
            _ => self.since_health,
        };
        let mut told: Vec<Notice> = Vec::new();
        assert(notices(told@) =~= Seq::<NoticeV>::empty());
        if let Some(s) = stats {
            if dm.record_io_stats(s) {
                let mut context = Object::new();
                context.insert("refusedRedirects", Json::of_u64(s.refused_redirects));
                told.push(
                    event_notice(
                        Severity::Warning,
                        "io-redirect-refused",
                        owned(
                            "forward-open reply pointed the O→T stream at a foreign address; address refused, sockaddr port honoured",
                        ),
                        context,
                    ),
                );
                assert(notices(told@) =~= seq![redirect_refused(s.refused_redirects)]);
            }
        }
        let emit = dm.emit_periodic(health, now);
        self.since_health = now;
        self.phase = PushPhase::Waiting;
        let w: u128 = self.wake();
        PushStep {
            reply: None,
            emit,
            notices: told,
            order: StepOrder::NoticesFirst,
            next: PushNext::Wait(w),
        }
    }
}

// ---- what the loop keeps ----

/// A frame is counted whether the device is paused or not.
pub proof fn frames_are_counted_while_paused(
    before: PushLoop,
    after: PushLoop,
    f: Frame,
    h0: Health,
    h1: Health,
    dm0: DeviceMetrics,
    dm1: DeviceMetrics,
    step: PushStep,
)
    requires
        before.paused,
        PushLoop::framed_to(before, after, f, h0, h1, dm0, dm1, step),
    ensures
        h1.frames_consumed == bumped(h0.frames_consumed, 1),
        dm1.io.frames_consumed == dm0.io.frames_consumed.plus(1),
        dm1.io.last_seq == Some(f.sequence),
        after.engine == before.engine,
        !(step.next is Publish),
{
}

/// A resume that changed something compares later values with the last consumed frame: no value of it
/// waits to be published, and none counts as stale from before.
pub proof fn a_resume_compares_with_the_last_frame(
    before: PushLoop,
    after: PushLoop,
    cfg: DeviceConfig,
    by: Option<Seq<char>>,
    frame: InputSnapshot,
    now: Instant,
    h0: Health,
    h1: Health,
    dm0: DeviceMetrics,
    dm1: DeviceMetrics,
    step: PushStep,
    id: Seq<char>,
)
    requires
        h0.paused,
        PushLoop::served(
            before,
            after,
            cfg,
            ControlVerb::Resume,
            by,
            Some(frame),
            now,
            h0,
            h1,
            dm0,
            dm1,
            step,
        ),
        snapshot_of(frame.readings@, id) is Some,
    ensures
        after.engine.signal(id).reference() == snapshot_of(frame.readings@, id),
        after.engine.signal(id).pending is None,
        after.engine.signal(id).last_good == Some(now),
{
}

/// A redirect that was refused is told once: the same counters read again tell nothing.
pub proof fn a_refused_redirect_is_told_once(
    first: PushLoop,
    second: PushLoop,
    a: PushLoop,
    b: PushLoop,
    s: IoLinkStats,
    h0: Health,
    h1: Health,
    h2: Health,
    h3: Health,
    dm0: DeviceMetrics,
    dm1: DeviceMetrics,
    dm2: DeviceMetrics,
    x: PushStep,
    y: PushStep,
)
    requires
        dm0.is_push,
        PushLoop::counted_to(first, a, Some(s), h0, h1, dm0, dm1, x),
        PushLoop::counted_to(second, b, Some(s), h2, h3, dm1, dm2, y),
    ensures
        notices(y.notices@).len() == 0,
{
}

/// A paused loop publishes nothing by itself and reports no stale fields.
pub proof fn a_paused_loop_is_quiet(
    before: PushLoop,
    after: PushLoop,
    now: Instant,
    h0: Health,
    h1: Health,
    step: PushStep,
)
    requires
        before.paused,
        PushLoop::ticked_to(before, after, now, h0, h1, step),
    ensures
        !(step.next is Publish),
        after.engine == before.engine,
        step.next is Stats ==> h1.stale_signals == 0,
{
}

// ---- the verbs, the frames and the clock ----

/// Each verb is served as it asks: the last frame is answered as it is, staging an output and a
/// reconnect are left to the caller, pausing and resuming are answered with whether they changed
/// anything, and what only a polled device does is refused. None but these two touches the counters.
pub proof fn each_verb_is_served_as_it_asks(
    before: PushLoop,
    after: PushLoop,
    cfg: DeviceConfig,
    verb: ControlVerb,
    by: Option<Seq<char>>,
    last: Option<InputSnapshot>,
    now: Instant,
    h0: Health,
    h1: Health,
    dm0: DeviceMetrics,
    dm1: DeviceMetrics,
    step: PushStep,
)
    requires
        before.phase == PushPhase::Waiting,
        PushLoop::served(before, after, cfg, verb, by, last, now, h0, h1, dm0, dm1, step),
    ensures
        verb == ControlVerb::Snapshot ==> step.next is Wait && step.reply == Some(
            PushReply::Snapshot(last),
        ),
        verb == ControlVerb::WriteOutput ==> step.next == PushNext::WriteOutput && step.reply is None
            && after.phase == PushPhase::WritingOutput,
        verb == ControlVerb::Reconnect ==> step.next == PushNext::Close(PushExit::Reconnect)
            && step.reply is None && after.phase == PushPhase::Left,
        verb == ControlVerb::Pause ==> step.next is Wait && after.paused && h1.paused && step.reply == Some(
            PushReply::Changed(!h0.paused),
        ),
        verb == ControlVerb::Resume ==> step.next is Wait && !after.paused && !h1.paused && step.reply
            == Some(PushReply::Changed(h0.paused)),
        verb is ReadNow || verb is Write || verb is Repoll ==> step.next is Wait && step.reply is Some
            && step.reply->0 is Refused,
        verb is Browse ==> step.next is Wait && step.reply == Some(
            PushReply::BrowseFailed(BrowseError::Unsupported),
        ),
        !(verb is Pause || verb is Resume) ==> {
            &&& h1 == h0
            &&& dm1 == dm0
            &&& step.emit@.len() == 0
            &&& step.notices@.len() == 0
            &&& after.paused == before.paused
            &&& after.engine == before.engine
        },
        after.queue == before.queue,
        after.mode == before.mode && after.batch_ms == before.batch_ms && after.sample_ms
            == before.sample_ms,
{
}

/// A pause leaves nothing waiting in a window, and nothing in flight where something waited; what was
/// published stays what later values are compared with.
pub proof fn a_pause_leaves_nothing_waiting(
    before: PushLoop,
    after: PushLoop,
    cfg: DeviceConfig,
    by: Option<Seq<char>>,
    last: Option<InputSnapshot>,
    now: Instant,
    h0: Health,
    h1: Health,
    dm0: DeviceMetrics,
    dm1: DeviceMetrics,
    step: PushStep,
    id: Seq<char>,
)
    requires
        PushLoop::served(
            before,
            after,
            cfg,
            ControlVerb::Pause,
            by,
            last,
            now,
            h0,
            h1,
            dm0,
            dm1,
            step,
        ),
    ensures
        after.engine.signal(id).batcher.buffer.len() == 0,
        after.engine.signal(id).baseline == before.engine.signal(id).baseline,
        after.engine.signal(id).pending is None || before.engine.signal(id).batcher.buffer.len() == 0,
        after.engine.signal(id).last_good == before.engine.signal(id).last_good,
{
}

/// The connection that comes up is online, with the intervals that were agreed; it is told with them, and
/// the alarm of an unreachable device is cleared.
pub proof fn a_connection_that_comes_up_is_told(
    before: PushLoop,
    after: PushLoop,
    cfg: DeviceConfig,
    adapter: Seq<char>,
    o2t_api_ms: u32,
    t2o_api_ms: u32,
    identity: Option<DeviceIdentity>,
    now: Instant,
    h0: Health,
    h1: Health,
    dm0: DeviceMetrics,
    dm1: DeviceMetrics,
    step: PushStep,
)
    requires
        PushLoop::up_to(
            before,
            after,
            cfg,
            adapter,
            o2t_api_ms,
            t2o_api_ms,
            identity,
            now,
            h0,
            h1,
            dm0,
            dm1,
            step,
        ),
    ensures
        h1.link == LinkState::Online,
        h1.paused == h0.paused,
        step.next == PushNext::Clock,
        step.reply is None,
        after.phase == PushPhase::Asking,
        after.engine == before.engine,
        step.notices@.len() == 2,
        step.notices@[0]@.name == "device-connected"@,
        step.notices@[0]@.message == Some("class-1 connection up to "@ + cfg.endpoint@),
        step.notices@[1]@ == reachable_again(),
        step.emit@.len() > 0,
        step.emit@[0]@.immediate,
        step.emit@[0]@.values == crate::emit::health_values(Health { link: LinkState::Online, ..h0 }),
{
    assert(notices(step.notices@).len() == step.notices@.len());
    assert(notices(step.notices@)[0] == step.notices@[0]@);
    assert(notices(step.notices@)[1] == step.notices@[1]@);
    assert(emissions(step.emit@).len() == step.emit@.len());
    assert(emissions(step.emit@)[0] == step.emit@[0]@);
}

/// A frame is one more frame consumed. While paused nothing of it is published or remembered. Otherwise,
/// without a window, every field of it that passes by its own verdict and is not too soon is queued to be
/// published, once and in order, and nothing else is. The places of those fields are returned.
pub proof fn a_frame_publishes_what_passes(
    before: PushLoop,
    after: PushLoop,
    f: Frame,
    h0: Health,
    h1: Health,
    dm0: DeviceMetrics,
    dm1: DeviceMetrics,
    step: PushStep,
) -> (places: Seq<int>)
    requires
        before.batch_ms == 0,
        distinct_fields(f.readings@),
        PushLoop::framed_to(before, after, f, h0, h1, dm0, dm1, step),
    ensures
        h1.frames_consumed == bumped(h0.frames_consumed, 1),
        before.paused ==> {
            &&& after.engine == before.engine
            &&& after.queue == before.queue
            &&& h1 == (Health { frames_consumed: bumped(h0.frames_consumed, 1), ..h0 })
            &&& step.next == PushNext::Clock
        },
        !before.paused ==> {
            &&& after.queue@.len() == places.len()
            &&& forall|i: int, j: int| 0 <= i < j < places.len() ==> places[i] < places[j]
            &&& forall|p: int| #[trigger]
                places.contains(p) <==> 0 <= p < f.readings@.len() && ({
                    let st = before.engine.signal(f.readings@[p].signal_id@);
                    &&& passes(
                        st.reference(),
                        f.readings@[p].value@,
                        f.readings@[p].quality,
                        before.mode,
                        f.moved@[p]@,
                    )
                    &&& f.readings@[p].quality != Quality::Good || st.last_eligible is None
                        || f.now.after(st.last_eligible->0) >= before.sample_ms * 1_000_000
                })
            &&& forall|j: int|
                0 <= j < places.len() ==> (#[trigger] after.queue@[j])@ == (PublishV {
                    signal_id: f.readings@[places[j]].signal_id@,
                    samples: seq![
                        SampleV {
                            value: f.readings@[places[j]].value@,
                            quality: f.readings@[places[j]].quality,
                            quality_raw: f.readings@[places[j]]@.quality_raw,
                            server_ts: Some(f.server_ts@),
                        },
                    ],
                })
            &&& after.queue@.len() > 0 ==> step.next == PushNext::Publish && after.phase
                == PushPhase::Publishing && after.done == 0
            &&& after.queue@.len() == 0 ==> step.next == PushNext::Clock && after.phase
                == PushPhase::Asking
        },
{
    if before.paused {
        Seq::empty()
    } else {
        let h = Health { frames_consumed: bumped(h0.frames_consumed, 1), ..h0 };
        let gate = GateV {
            mode: before.mode,
            batch_ms: before.batch_ms,
            now: f.now,
            server_ts: f.server_ts@,
        };
        let places = every_field_that_passes_is_published(
            before.engine,
            after.engine,
            f.readings@,
            gate,
            before.sample_ms,
            f.moved@,
            h,
            h1,
            publishes(after.queue@),
        );
        assert forall|j: int| 0 <= j < places.len() implies (#[trigger] after.queue@[j])@ == (PublishV {
            signal_id: f.readings@[places[j]].signal_id@,
            samples: seq![
                SampleV {
                    value: f.readings@[places[j]].value@,
                    quality: f.readings@[places[j]].quality,
                    quality_raw: f.readings@[places[j]]@.quality_raw,
                    server_ts: Some(f.server_ts@),
                },
            ],
        }) by {
            assert(publishes(after.queue@)[j] == after.queue@[j]@);
            assert(places.contains(places[j]));
        }
        lemma_gating_counts_no_frame(
            start_of(before.engine, h),
            f.readings@.len(),
            f.readings@,
            gate,
            before.sample_ms,
            f.moved@,
        );
        places
    }
}

/// Gating the fields of a frame counts samples and nothing else.
proof fn lemma_gating_counts_no_frame(
    start: GroupV,
    n: nat,
    readings: Seq<Reading>,
    gate: GateV,
    sample_ms: u64,
    moved: Seq<Vec<bool>>,
)
    ensures
        ({
            let h = frame_run(start, n, readings, gate, sample_ms, moved).health;
            &&& h.frames_consumed == start.health.frames_consumed
            &&& h.read_errors == start.health.read_errors
            &&& h.link == start.health.link
            &&& h.paused == start.health.paused
            &&& h.signals_published == start.health.signals_published
        }),
    decreases n,
{
    if n > 0 {
        lemma_gating_counts_no_frame(start, (n - 1) as nat, readings, gate, sample_ms, moved);
    }
}

/// A tick of a loop that runs flushes the windows that are due and publishes them first. Otherwise, when
/// the metrics are due, the fields that are stale by then are counted (none while paused) and the stack's
/// counters are asked for; when they are not, the loop waits.
pub proof fn a_tick_flushes_first_and_then_counts(
    before: PushLoop,
    after: PushLoop,
    now: Instant,
    h0: Health,
    h1: Health,
    step: PushStep,
)
    requires
        PushLoop::ticked_to(before, after, now, h0, h1, step),
    ensures
        is_silent(step),
        !before.paused ==> after.engine.drained_from(before.engine, now, before.batch_ms) && publishes(
            after.queue@,
        ) == flushes(before.engine.known(), before.engine, now, before.batch_ms),
        before.paused ==> after.engine == before.engine,
        !before.paused && after.queue@.len() > 0 ==> step.next == PushNext::Publish && after.phase
            == PushPhase::Flushing(now) && after.done == 0 && h1 == h0,
        before.paused || after.queue@.len() == 0 ==> {
            &&& now.after(before.since_health) >= before.metrics_secs * 1_000_000_000 ==> step.next
                == PushNext::Stats && after.phase == PushPhase::Counting(now)
            &&& now.after(before.since_health) < before.metrics_secs * 1_000_000_000 ==> step.next is Wait
                && after.phase == PushPhase::Waiting && h1 == h0
            &&& now.after(before.since_health) >= before.metrics_secs * 1_000_000_000 && before.paused
                ==> h1 == (Health { stale_signals: 0, ..h0 })
            &&& now.after(before.since_health) >= before.metrics_secs * 1_000_000_000 && !before.paused
                ==> h1 == (Health {
                stale_signals: stale_among(
                    texts(before.ids@),
                    after.engine,
                    before.stale_secs,
                    now,
                ) as u64,
                ..h0
            })
        },
        after.paused == before.paused,
        after.since_health == before.since_health,
{
}

/// A loop that waits wakes for whatever comes first: the metrics and, unless it is paused, a window that
/// closes. It wakes no later than any of them, and for one of them.
pub proof fn a_loop_wakes_for_what_comes_first(l: PushLoop, w: u128, k: Seq<char>)
    requires
        l.is_wake(w),
    ensures
        w <= l.since_health.nanos + l.metrics_secs * 1_000_000_000,
        l.paused ==> w == l.since_health.nanos + l.metrics_secs * 1_000_000_000,
        !l.paused ==> (l.engine.signal(k).batcher.window_open matches Some(t) ==> w <= t.nanos + l.batch_ms
            * 1_000_000),
        w == l.since_health.nanos + l.metrics_secs * 1_000_000_000 || exists|o: Seq<char>|
            (#[trigger] l.engine.signal(o)).batcher.window_open matches Some(t) && w == t.nanos + l.batch_ms
                * 1_000_000,
{
    if !l.paused {
        let close = choose|close: Option<u128>| #[trigger]
            l.engine.first_close(l.batch_ms, close) && w == (match close {
                Some(t) => least(l.metrics_due(), t as int),
                None => l.metrics_due(),
            });
        crate::engine::the_first_window_to_close(l.engine, l.batch_ms, close, k);
    }
}

/// A publish of a configured field that was confirmed counts its samples, and makes what was in flight
/// what later values are compared with. Every other one counts nothing there and forgets it. The update
/// is done with either way: the next one follows.
pub proof fn a_publish_is_accounted_and_settled(
    before: PushLoop,
    after: PushLoop,
    ok: bool,
    latency_ms: u64,
    h0: Health,
    h1: Health,
    dm0: DeviceMetrics,
    dm1: DeviceMetrics,
    step: PushStep,
    other: Seq<char>,
)
    requires
        before.done < before.queue@.len(),
        before.publishing(),
        PushLoop::published_to(before, after, ok, latency_ms, h0, h1, dm0, dm1, step),
    ensures
        ({
            let p = before.queue@[before.done as int];
            let id = p.signal_id@;
            let counts = ok && texts(before.ids@).contains(id);
            &&& after.engine.signal(id).pending is None
            &&& counts && before.engine.signal(id).pending is Some ==> after.engine.signal(id).baseline
                == before.engine.signal(id).pending
            &&& !counts ==> after.engine.signal(id).baseline == before.engine.signal(id).baseline
            &&& other != id ==> after.engine.signal(other) == before.engine.signal(other)
            &&& counts ==> h1.signals_published == bumped(
                h0.signals_published,
                p.samples@.len() as int % 0x1_0000_0000_0000_0000,
            ) && h1.publish_latency_ms == latency_ms
            &&& !counts ==> h1.signals_published == h0.signals_published && h1.publish_latency_ms
                == h0.publish_latency_ms
            &&& before.done + 1 < before.queue@.len() ==> step.next == PushNext::Publish && after.done
                == before.done + 1 && after.queue == before.queue && after.phase == before.phase
            &&& before.done + 1 == before.queue@.len() ==> step.next != PushNext::Publish
            &&& before.done + 1 == before.queue@.len() && before.phase is Publishing ==> step.next
                == PushNext::Clock
            &&& texts(before.ids@).contains(id) ==> dm1.publish_recorded_from(
                dm0,
                before.mode,
                p.samples@.len() as u64,
                before.phase is Flushing,
                latency_ms,
                ok,
            )
            &&& !texts(before.ids@).contains(id) ==> dm1 == dm0
        }),
{
    assert(before.queue.len() == before.queue@.len());
    let p = before.queue@[before.done as int];
    assert(p.samples.len() == p.samples@.len());
}

/// The stack's counters are folded in before the metrics go out, and the metrics count from then on. A
/// redirect is told exactly when more were refused than before.
pub proof fn the_stack_is_counted_before_the_metrics_go_out(
    before: PushLoop,
    after: PushLoop,
    now: Instant,
    stats: Option<IoLinkStats>,
    h0: Health,
    h1: Health,
    dm0: DeviceMetrics,
    dm1: DeviceMetrics,
    step: PushStep,
)
    requires
        before.phase == PushPhase::Counting(now),
        PushLoop::counted_to(before, after, stats, h0, h1, dm0, dm1, step),
    ensures
        after.since_health == now,
        step.next is Wait,
        step.reply is None,
        after.engine == before.engine,
        stats matches Some(s) ==> emissions(step.emit@) == (DeviceMetrics {
            io: dm0.io.folded(s),
            ..dm0
        }).periodic_emits(h0, now),
        stats is None ==> emissions(step.emit@) == dm0.periodic_emits(h0, now),
        stats is None ==> step.notices@.len() == 0,
        stats matches Some(s) ==> (step.notices@.len() == 1 <==> growth(
            dm0.io.last_stats.refused_redirects,
            s.refused_redirects,
        ) > 0),
        step.notices@.len() <= 1,
        step.notices@.len() == 1 ==> step.notices@[0]@.name == "io-redirect-refused"@,
{
    assert(notices(step.notices@).len() == step.notices@.len());
    if step.notices@.len() == 1 {
        assert(notices(step.notices@)[0] == step.notices@[0]@);
    }
}

/// A loop that starts has seen nothing and waits, under the settings of its connection.
pub proof fn a_loop_starts_with_its_settings(
    l: PushLoop,
    cfg: DeviceConfig,
    global: GlobalConfig,
    paused: bool,
    now: Instant,
    k: Seq<char>,
)
    requires
        l.starts(cfg, global, paused, now),
    ensures
        cfg.io is Some,
        l.sample_ms == cfg.io->0.sample_ms,
        texts(l.ids@) == cfg.io->0.input_ids(),
        l.paused == paused,
        l.phase == PushPhase::Waiting,
        l.engine.signal(k).baseline is None && l.engine.signal(k).pending is None,
        l.engine.signal(k).batcher.buffer.len() == 0 && l.engine.signal(k).last_good is None,
        l.engine.since() == now,
        l.since_health == now,
        global.metrics_interval_secs > 0 ==> l.metrics_secs == global.metrics_interval_secs,
        l.metrics_secs > 0,
        l.stale_secs == global.stale_signal_secs,
        l.queue@.len() == 0,
        cfg.defaults.publish_mode matches Some(m) ==> l.mode == m,
        cfg.defaults.publish_mode is None && global.defaults.publish_mode is Some ==> l.mode
            == global.defaults.publish_mode->0,
        cfg.defaults.publish_mode is None && global.defaults.publish_mode is None ==> l.mode
            == PublishMode::OnChange,
        cfg.defaults.batch_ms matches Some(ms) ==> l.batch_ms == ms,
        cfg.defaults.batch_ms is None && global.defaults.batch_ms is Some ==> l.batch_ms
            == global.defaults.batch_ms->0,
        cfg.defaults.batch_ms is None && global.defaults.batch_ms is None ==> l.batch_ms == 0,
{
}

/// A silent step answers nobody, emits nothing and tells nothing; a loop that waits does so until what
/// comes first.
pub proof fn a_silent_step_does_nothing(l: PushLoop, step: PushStep)
    ensures
        is_silent(step) <==> step.reply is None && step.emit@.len() == 0 && step.notices@.len() == 0,
        l.waits(step.next) ==> l.phase is Waiting && step.next is Wait && l.is_wake(step.next->Wait_0),
{
}

} // verus!
