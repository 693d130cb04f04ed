//! The reconnect ladder of one device: connect, run the loop of its mode, back off, connect again. The
//! caller connects, runs the loop and waits; what happens in between is decided here.

use vstd::prelude::*;

use crate::clock::Instant;
use crate::config::{
    DeviceConfig, DeviceMode, EipType, GlobalConfig, PollGroup, SignalSpec, Timeouts,
};
use crate::device::{
    put_identity, with_identity, DeviceError, DeviceIdentity, SecurityStatus, SecurityStatusV,
};
use crate::device_metrics::DeviceMetrics;
use crate::eip::tls::SecurityConfig;
use crate::emit::{emissions, health_emitted, health_values, Emission};
use crate::health::{bump, bumped, Health, LinkState};
use crate::json::{Json, JsonV, Object};
use crate::notice::{
    clear_unreachable, event, event_notice, notices, raise_unreachable, reachable_again,
    unreachable_alarm, Notice, NoticeKind, NoticeV, Severity,
};
use crate::pause::{apply_pause, asked_by, paused_to};
use crate::poll_driver::{at_least_one, one_or_more, ControlVerb};
use crate::status::{asks_for_tls, session_view};
use crate::step::{StepOrder, StepPart};
use crate::text::{join2, join3, owned, texts};

verus! {

// ---- backend selection ----

/// An adapter token that no backend implements. It is a defect of one instance, which is skipped; the
/// others are not touched.
#[derive(Clone, Debug)]
pub struct UnknownAdapter {
    pub instance: String,
    pub adapter: String,
}

impl UnknownAdapter {
    pub open spec fn text(self) -> Seq<char> {
        "device `"@ + self.instance@ + "`: unknown adapter `"@ + self.adapter@
            + "` (expected `ethernet-ip` or `sim`)"@
    }

    /// The message: the instance and the token an operator has to fix.
    pub fn message(&self) -> (r: String)
        ensures
            r@ == self.text(),
    {
        join3(
            join3("device `", self.instance.as_str(), "`: unknown adapter `").as_str(),
            self.adapter.as_str(),
            "` (expected `ethernet-ip` or `sim`)",
        )
    }
}

/// The backends there are.
#[derive(Clone, Copy, Debug, PartialEq, Eq, Structural)]
pub enum BackendKind {
    /// The in-process simulator.
    Sim,
    /// EtherNet/IP.
    EthernetIp,
}

impl BackendKind {
    pub open spec fn token(self) -> Seq<char> {
        match self {
            BackendKind::Sim => "sim"@,
            BackendKind::EthernetIp => "ethernet-ip"@,
        }
    }

    /// The adapter token.
    pub fn kind(self) -> (s: &'static str)
        ensures
            s@ == self.token(),
    {
        match self {
            BackendKind::Sim => "sim",
            BackendKind::EthernetIp => "ethernet-ip",
        }
    }
}

/// The backend of an adapter token, if there is one.
pub fn backend_for(adapter: &str) -> (r: Option<BackendKind>)
    ensures
        match r {
            Some(k) => k.token() == adapter@,
            None => adapter@ != "sim"@ && adapter@ != "ethernet-ip"@,
        },
{
    let token = owned(adapter);
    if token == owned("sim") {
        Some(BackendKind::Sim)
    } else if token == owned("ethernet-ip") {
        Some(BackendKind::EthernetIp)
    } else {
        None
    }
}

// ---- what is said at connect ----

/// The line of a connect: the endpoint, and the nameplate of a device that named itself.
pub open spec fn connect_text(endpoint: Seq<char>, identity: Option<DeviceIdentity>) -> Seq<char> {
    match identity {
        Some(id) => "connected to "@ + endpoint + " ("@ + id.summary_text() + ")"@,
        None => "connected to "@ + endpoint,
    }
}

/// The line of a connect: the endpoint, and the nameplate of a device that named itself.
pub fn connect_line(endpoint: &str, identity: Option<&DeviceIdentity>) -> (r: String)
    ensures
        r@ == connect_text(
            endpoint@,
            match identity {
                Some(id) => Some(*id),
                None => None,
            },
        ),
{
    match identity {
        Some(id) => join3(
            join3("connected to ", endpoint, " (").as_str(),
            id.summary().as_str(),
            ")",
        ),
        None => join2("connected to ", endpoint),
    }
}

/// Whether a signal uses a capability that is not established across controllers: an array of booleans.
pub open spec fn is_experimental(s: SignalSpec) -> bool {
    s.eip_type == EipType::Bool && s.array_count is Some
}

/// The names of the experimental ones among the first `n` signals of a group, after `before`.
pub open spec fn experimental_in(before: Seq<Seq<char>>, signals: Seq<SignalSpec>, n: nat) -> Seq<
    Seq<char>,
>
    decreases n,
{
    if n == 0 {
        before
    } else {
        let sofar = experimental_in(before, signals, (n - 1) as nat);
        if is_experimental(signals[n - 1]) {
            sofar.push(signals[n - 1].name@)
        } else {
            sofar
        }
    }
}

/// The names of the experimental signals of the first `n` groups.
pub open spec fn experimental_among(groups: Seq<PollGroup>, n: nat) -> Seq<Seq<char>>
    decreases n,
{
    if n == 0 {
        Seq::empty()
    } else {
        experimental_in(
            experimental_among(groups, (n - 1) as nat),
            groups[n - 1].signals@,
            groups[n - 1].signals@.len(),
        )
    }
}

/// The names of the experimental signals of a device, in the order they are configured.
pub fn experimental_signals(cfg: &DeviceConfig) -> (r: Vec<String>)
    ensures
        texts(r@) == experimental_among(cfg.poll_groups@, cfg.poll_groups@.len()),
{
    let mut out: Vec<String> = Vec::new();
    assert(texts(out@) =~= Seq::<Seq<char>>::empty());
    let mut g: usize = 0;
    while g < cfg.poll_groups.len()
        invariant
            g <= cfg.poll_groups@.len(),
            texts(out@) == experimental_among(cfg.poll_groups@, g as nat),
        decreases cfg.poll_groups@.len() - g,
    {
        let group = &cfg.poll_groups[g];
        let ghost before = texts(out@);
        let mut i: usize = 0;
        while i < group.signals.len()
            invariant
                i <= group.signals@.len(),
                texts(out@) == experimental_in(before, group.signals@, i as nat),
            decreases group.signals@.len() - i,
        {
            if group.signals[i].eip_type == EipType::Bool && group.signals[i].array_count.is_some() {
                let ghost had = out@;
                out.push(group.signals[i].name.clone());
                assert(texts(out@) =~= texts(had).push(
                    group.signals@[i as int].name@,
                ));
            }
            i = i + 1;
        }
        g = g + 1;
    }
    out
}

/// What is said of the experimental signals of a device that has just been connected to: nothing when it
/// has none.
#[derive(Clone, Debug)]
pub struct ExperimentalNote {
    /// Their names.
    pub signals: Vec<String>,
    /// The product they are read from.
    pub product: String,
    pub message: String,
}

/// What is said of the experimental signals of a device that has just been connected to: one note that
/// names them and the device, or nothing when it has none.
pub fn experimental_note(cfg: &DeviceConfig, identity: Option<&DeviceIdentity>) -> (r: Option<
    ExperimentalNote,
>)
    ensures
        ({
            let names = experimental_among(cfg.poll_groups@, cfg.poll_groups@.len());
            match r {
                None => names.len() == 0,
                Some(note) => {
                    &&& names.len() > 0
                    &&& texts(note.signals@) == names
                    &&& note.product@ == (match identity {
                        Some(id) => id.summary_text(),
                        None => "a device that did not identify itself"@,
                    })
                    &&& note.message@
                        == "this instance polls signals that use an EXPERIMENTAL capability (BOOL arrays, D-EIP-16); how they behave on this device is not established, so treat their readings as unvalidated and report what you observe"@
                },
            }
        }),
{
    let signals = experimental_signals(cfg);
    assert(texts(signals@).len() == signals@.len());
    if signals.len() == 0 {
        return None;
    }
    let product = match identity {
        Some(id) => id.summary(),
        None => owned("a device that did not identify itself"),
    };
    Some(
        ExperimentalNote {
            signals,
            product,
            message: owned(
                "this instance polls signals that use an EXPERIMENTAL capability (BOOL arrays, D-EIP-16); how they behave on this device is not established, so treat their readings as unvalidated and report what you observe",
            ),
        },
    )
}

// ---- the backoff ----

/// The rungs of the ladder.
#[derive(Clone, Copy, Debug, PartialEq, Eq, Structural)]
pub struct Backoff {
    pub base_ms: u64,
    pub max_ms: u64,
}

/// `base` doubled `attempt` times, but at most `max`.
pub open spec fn rung(base: u64, max: u64, attempt: nat) -> u64
    decreases attempt,
{
    if attempt == 0 {
        if base <= max {
            base
        } else {
            max
        }
    } else {
        let before = rung(base, max, (attempt - 1) as nat);
        if 2 * before <= max {
            (2 * before) as u64
        } else {
            max
        }
    }
}

impl Backoff {
    /// The rungs of the configured timeouts.
    pub fn from_timeouts(t: &Timeouts) -> (r: Backoff)
        ensures
            r.base_ms == t.reconnect_backoff_min_ms,
            r.max_ms == t.reconnect_backoff_max_ms,
    {
        Backoff { base_ms: t.reconnect_backoff_min_ms, max_ms: t.reconnect_backoff_max_ms }
    }

    /// The longest wait of an attempt.
    pub open spec fn cap_of(self, attempt: u32) -> u64 {
        rung(self.base_ms, self.max_ms, attempt as nat)
    }

    /// The longest wait of an attempt: the base doubled with each attempt, up to the ceiling.
    pub fn cap(&self, attempt: u32) -> (r: u64)
        ensures
            r == self.cap_of(attempt),
    {
        let mut r: u64 = if self.base_ms <= self.max_ms {
            self.base_ms
        } else {
            self.max_ms
        };
        let mut i: u32 = 0;
        while i < attempt
            invariant
                i <= attempt,
                r == rung(self.base_ms, self.max_ms, i as nat),
            decreases attempt - i,
        {
            if r == self.max_ms || r == 0 {
                proof {
                    lemma_rung_stays(self.base_ms, self.max_ms, i as nat, attempt as nat);
                }
                return r;
            }
            let ghost before = r;
            if r <= self.max_ms / 2 {
                r = 2 * r;
            } else {
                r = self.max_ms;
            }
            i = i + 1;
        }
        r
    }
}

proof fn lemma_rung_stays(base: u64, max: u64, i: nat, n: nat)
    requires
        i <= n,
        rung(base, max, i) == max || rung(base, max, i) == 0,
    ensures
        rung(base, max, n) == rung(base, max, i),
    decreases n - i,
{
    if i < n {
        lemma_rung_stays(base, max, i, (n - 1) as nat);
    }
}

/// A later attempt never waits less, and no attempt waits longer than the ceiling.
pub proof fn the_ladder_only_climbs(base: u64, max: u64, i: nat, n: nat)
    requires
        i <= n,
    ensures
        rung(base, max, i) <= rung(base, max, n) <= max,
    decreases n,
{
    if n > 0 {
        if i < n {
            the_ladder_only_climbs(base, max, i, (n - 1) as nat);
        } else {
            the_ladder_only_climbs(base, max, (n - 1) as nat, (n - 1) as nat);
        }
    }
}

/// As long as the ceiling is not reached, each attempt waits up to twice as long as the one before.
pub proof fn the_ladder_doubles(base: u64, max: u64, n: nat)
    requires
        base * vstd::arithmetic::power2::pow2(n) <= max,
    ensures
        rung(base, max, n) == base * vstd::arithmetic::power2::pow2(n),
    decreases n,
{
    if n == 0 {
        vstd::arithmetic::power2::lemma2_to64();
    } else {
        vstd::arithmetic::power2::lemma_pow2_unfold(n);
        vstd::arithmetic::power2::lemma_pow2_pos((n - 1) as nat);
        let half = vstd::arithmetic::power2::pow2((n - 1) as nat);
        assert(base * (2 * half) == 2 * (base * half)) by (nonlinear_arith);
        assert(base * half >= 0) by (nonlinear_arith)
            requires
                base >= 0,
                half >= 0,
        ;
        the_ladder_doubles(base, max, (n - 1) as nat);
    }
}

/// Whether a connect fails the same way again: `failure` is what refused it, or nothing when it timed out.
pub fn is_permanent(failure: &Option<DeviceError>) -> (r: bool)
    ensures
        r == (failure matches Some(e) && !(e is Transient)),
{
    match failure {
        Some(e) => !e.is_transient(),
        None => false,
    }
}

// ---- the ladder ----

/// What the ladder is in the middle of.
#[derive(Clone, Copy, Debug, PartialEq, Eq, Structural)]
pub enum LadderPhase {
    /// Connecting.
    Connecting,
    /// The loop of the device's mode runs.
    Running,
    /// Waiting before the next attempt.
    Waiting,
    /// The device was stopped.
    Done,
}

/// How a loop was left.
#[derive(Clone, Copy, Debug, PartialEq, Eq, Structural)]
pub enum LoopExit {
    LinkLost,
    Reconnect,
    Stopped,
}

/// How a wait between two attempts ended.
#[derive(Clone, Copy, Debug, PartialEq, Eq, Structural)]
pub enum WaitEnd {
    Elapsed,
    Reconnect,
    Stopped,
}

/// How long to wait before the next attempt.
#[derive(Clone, Copy, Debug, PartialEq, Eq, Structural)]
pub enum Pause {
    /// A random part of that many milliseconds.
    UpTo(u64),
    /// That many milliseconds.
    Exactly(u64),
}

/// What the caller is to do next.
#[derive(Clone, Copy, Debug, PartialEq, Eq, Structural)]
pub enum LadderNext {
    /// Begin an attempt with [`Ladder::connect`].
    Attempt,
    /// Connect within that many milliseconds.
    Connect(u64),
    /// Run the loop of the device's mode on the session.
    Run,
    /// Serve the control verbs of a disconnected device for that long.
    Wait(Pause),
    /// The device was stopped.
    Done,
}

/// The reconnect ladder of one device.
#[derive(Debug)]
pub struct Ladder {
    pub push: bool,
    /// Whether the device is reached over TLS.
    pub tls: bool,
    pub backoff: Backoff,
    pub connect_ms: u64,
    pub attempt: u32,
    /// A reconnect was asked for and is to be answered by the next attempt.
    pub asked: bool,
    pub phase: LadderPhase,
    /// What is known of the session that is up.
    pub security: Option<SecurityStatus>,
    pub identity: Option<DeviceIdentity>,
}

/// What one step of the ladder comes to.
#[derive(Debug)]
pub struct LadderStep {
    /// The answer to the reconnect that was asked for, if it is due.
    pub reply: Option<Result<(), String>>,
    /// The metrics to emit.
    pub emit: Vec<Emission>,
    pub notices: Vec<Notice>,
    pub order: StepOrder,
    pub next: LadderNext,
}

/// The answer to a control verb while the link is down.
#[derive(Clone, Copy, Debug, PartialEq, Eq, Structural)]
pub enum OfflineAnswer {
    /// Whether pausing or resuming changed anything.
    Changed(bool),
    /// The wait is over; the next attempt answers.
    Reconnect,
    /// It needs a session, and there is none.
    Refused,
}

/// What serving a control verb comes to while the link is down.
#[derive(Debug)]
pub struct OfflineStep {
    pub answer: OfflineAnswer,
    /// The metrics to emit.
    pub emit: Vec<Emission>,
    pub notices: Vec<Notice>,
    pub order: StepOrder,
}

/// The counters of an attempt. A push device shows that it is connecting.
pub open spec fn attempting(push: bool, h: Health) -> Health {
    if push {
        Health { link: LinkState::Connecting, ..h }
    } else {
        h
    }
}

/// One attempt more.
pub open spec fn one_more(attempt: u32) -> u32 {
    if attempt < u32::MAX {
        (attempt + 1) as u32
    } else {
        attempt
    }
}

/// What is told of a connect besides where to.
pub open spec fn connect_context(
    instance: Seq<char>,
    adapter: Seq<char>,
    identity: Option<DeviceIdentity>,
    security: Option<SecurityStatusV>,
) -> Map<Seq<char>, JsonV> {
    let m = with_identity(
        Map::empty().insert("instance"@, JsonV::Text(instance)).insert(
            "adapter"@,
            JsonV::Text(adapter),
        ),
        identity,
    );
    match security {
        Some(s) => m.insert(
            "security"@,
            JsonV::Text(
                if s.tls {
                    "tls"@
                } else {
                    "plaintext"@
                },
            ),
        ),
        None => m,
    }
}

/// A TLS session whose peer was not verified.
pub open spec fn unverified(security: Option<SecurityStatusV>) -> bool {
    security matches Some(s) && s.tls && !s.peer_verified
}

/// What is told of a polled device that was connected to: that its peer was not verified, if it was not;
/// that it is connected; and that it is not unreachable any more.
pub open spec fn connect_notices(
    cfg: DeviceConfig,
    adapter: Seq<char>,
    identity: Option<DeviceIdentity>,
    security: Option<SecurityStatusV>,
) -> Seq<NoticeV> {
    let warning = if unverified(security) {
        seq![
            event(
                Severity::Warning,
                "tls-peer-unverified"@,
                "connected to "@ + cfg.endpoint@
                    + " over TLS WITHOUT peer verification (verifyPeer:false)"@,
                Map::empty().insert("instance"@, JsonV::Text(cfg.id@)),
            ),
        ]
    } else {
        Seq::empty()
    };
    warning + seq![
        event(
            Severity::Info,
            "device-connected"@,
            "connected to "@ + cfg.endpoint@,
            connect_context(cfg.id@, adapter, identity, security),
        ),
        reachable_again(),
    ]
}

/// What is told of a handshake that failed.
pub open spec fn handshake_notice(cfg: DeviceConfig, reason: Seq<char>) -> NoticeV {
    event(
        Severity::Warning,
        "tls-handshake-failed"@,
        "TLS handshake to "@ + cfg.endpoint@ + " failed: "@ + reason,
        Map::empty().insert("instance"@, JsonV::Text(cfg.id@)).insert(
            "security"@,
            JsonV::Text("tls"@),
        ),
    )
}

/// What is told of a lost link.
pub open spec fn lost_notice(cfg: DeviceConfig, push: bool) -> NoticeV {
    unreachable_alarm(
        (if push {
            "lost the class-1 link to "@
        } else {
            "lost the link to "@
        }) + cfg.endpoint@,
        cfg.id@,
    )
}

/// The metrics once a connect succeeded; a push device opened its class-1 connection with it.
pub open spec fn metrics_connected(
    push: bool,
    dm: DeviceMetrics,
    latency_ms: u64,
    now: Instant,
) -> DeviceMetrics {
    DeviceMetrics {
        conn: dm.conn.opened(latency_ms, now),
        io: if push {
            dm.io.forward_opened(true)
        } else {
            dm.io
        },
        ..dm
    }
}

/// What a session says of the end of validity of the adapter's own certificate is counted at once; a
/// push session says nothing of it.
pub open spec fn metrics_expiry(
    push: bool,
    dm: DeviceMetrics,
    security: Option<SecurityStatus>,
) -> DeviceMetrics {
    match security {
        Some(s) => match s.client_cert_expiry_days {
            Some(d) => if push {
                dm
            } else {
                DeviceMetrics { conn: dm.conn.expiry_seen(d), ..dm }
            },
            None => dm,
        },
        None => dm,
    }
}

/// The metrics once a connect failed.
pub open spec fn metrics_refused(push: bool, dm: DeviceMetrics) -> DeviceMetrics {
    DeviceMetrics {
        conn: dm.conn.refused(),
        io: if push {
            dm.io.forward_opened(false)
        } else {
            dm.io
        },
        ..dm
    }
}

/// Nothing is to be emitted or told.
pub open spec fn is_silent(step: LadderStep) -> bool {
    step.emit@.len() == 0 && step.notices@.len() == 0
}

/// The answer to a reconnect that was asked for.
pub open spec fn answers(asked: bool, reply: Option<Result<(), String>>, failed: Option<Seq<char>>) -> bool {
    if asked {
        match failed {
            None => reply == Some(Ok::<(), String>(())),
            Some(reason) => reply matches Some(Err(e)) && e@ == reason,
        }
    } else {
        reply is None
    }
}

fn no_notices() -> (r: Vec<Notice>)
    ensures
        notices(r@) == Seq::<NoticeV>::empty(),
        r@.len() == 0,
{
    let r: Vec<Notice> = Vec::new();
    assert(notices(r@) =~= Seq::<NoticeV>::empty());
    r
}

impl Ladder {
    /// The ladder of a device before its first attempt, or none for a push device without a class-1
    /// connection.
    pub fn new(cfg: &DeviceConfig, global: &GlobalConfig, security: &Option<SecurityConfig>) -> (r:
        Option<Ladder>)
        ensures
            match r {
                None => cfg.mode == DeviceMode::Push && cfg.io is None,
                Some(l) => {
                    &&& !(cfg.mode == DeviceMode::Push && cfg.io is None)
                    &&& l.push == (cfg.mode == DeviceMode::Push)
                    &&& l.tls == asks_for_tls(*security)
                    &&& l.backoff.base_ms == global.timeouts.reconnect_backoff_min_ms
                    &&& l.backoff.max_ms == global.timeouts.reconnect_backoff_max_ms
                    &&& l.connect_ms == at_least_one(global.timeouts.connect_ms)
                    &&& l.attempt == 0
                    &&& !l.asked
                    &&& l.phase == LadderPhase::Connecting
                    &&& l.security is None
                    &&& l.identity is None
                },
            },
    {
        let push = cfg.mode == DeviceMode::Push;
        if push && cfg.io.is_none() {
            return None;
        }
        let tls = match security {
            Some(s) => s.is_tls(),
            None => false,
        };
        Some(
            Ladder {
                push,
                tls,
                backoff: Backoff::from_timeouts(&global.timeouts),
                connect_ms: one_or_more(global.timeouts.connect_ms),
                attempt: 0,
                asked: false,
                phase: LadderPhase::Connecting,
                security: None,
                identity: None,
            },
        )
    }

    /// An attempt is about to be made.
    pub fn connect(&mut self, health: &mut Health, dm: &mut DeviceMetrics) -> (step: LadderStep)
        requires
            old(self).phase == LadderPhase::Connecting,
        ensures
            *final(self) == *old(self),
            *final(health) == attempting(old(self).push, *old(health)),
            *final(dm) == (DeviceMetrics { conn: old(dm).conn.attempted(), ..*old(dm) }),
            is_silent(step),
            step.reply is None,
            step.next == LadderNext::Connect(old(self).connect_ms),
    {
        if self.push {
            health.link = LinkState::Connecting;
        }
        dm.on_connect_attempt();
        LadderStep {
            reply: None,
            emit: Vec::new(),
            notices: no_notices(),
            order: StepOrder::AnswerLast,
            next: LadderNext::Connect(self.connect_ms),
        }
    }

    /// Cancelled while connecting: there is nothing to close and nothing to tell.
    pub fn cancelled(&mut self) -> (step: LadderStep)
        requires
            old(self).phase == LadderPhase::Connecting,
        ensures
            *final(self) == (Ladder { phase: LadderPhase::Done, ..*old(self) }),
            is_silent(step),
            step.reply is None,
            step.next == LadderNext::Done,
    {
        self.phase = LadderPhase::Done;
        LadderStep {
            reply: None,
            emit: Vec::new(),
            notices: no_notices(),
            order: StepOrder::AnswerLast,
            next: LadderNext::Done,
        }
    }

    /// What a connect that succeeded comes to. The attempts start again, a reconnect that was asked for
    /// is answered once the connect was told, and what is known of the session is kept while it is up. A
    /// polled device is online at once, and says so; a push device is when its first update says so.
    pub open spec fn connected_to(
        before: Ladder,
        after: Ladder,
        cfg: DeviceConfig,
        adapter: Seq<char>,
        latency_ms: u64,
        now: Instant,
        security: Option<SecurityStatus>,
        identity: Option<DeviceIdentity>,
        h0: Health,
        h1: Health,
        dm0: DeviceMetrics,
        dm1: DeviceMetrics,
        step: LadderStep,
    ) -> bool {
        let dm = metrics_expiry(
            before.push,
            metrics_connected(before.push, dm0, latency_ms, now),
            security,
        );
        let h = Health { tls_handshake_failing: false, link: LinkState::Online, ..h0 };
        &&& after == (Ladder {
            attempt: 0,
            asked: false,
            phase: LadderPhase::Running,
            identity,
            security: if before.push {
                before.security
            } else {
                security
            },
            ..before
        })
        &&& step.next == LadderNext::Run
        &&& answers(before.asked, step.reply, None)
        &&& step.order == StepOrder::AnswerLast
        &&& if before.push {
            &&& is_silent(step)
            &&& h1 == h0
            &&& dm1 == dm
        } else {
            &&& h1 == health_emitted(h)
            &&& emissions(step.emit@) == dm.transition_emits(h, now)
            &&& dm1.transition_emitted_from(dm, now)
            &&& notices(step.notices@) == connect_notices(
                cfg,
                adapter,
                identity,
                session_view(security),
            )
        }
    }

    /// The connect succeeded.
    pub fn connected(
        &mut self,
        cfg: &DeviceConfig,
        adapter: &str,
        latency_ms: u64,
        now: Instant,
        security: Option<SecurityStatus>,
        identity: Option<DeviceIdentity>,
        health: &mut Health,
        dm: &mut DeviceMetrics,
    ) -> (step: LadderStep)
        requires
            old(self).phase == LadderPhase::Connecting,
        ensures
            Ladder::connected_to(
                *old(self),
                *final(self),
                *cfg,
                adapter@,
                latency_ms,
                now,
                security,
                identity,
                *old(health),
                *final(health),
                *old(dm),
                *final(dm),
                step,
            ),
    {
        self.attempt = 0;
        if self.push {
            dm.on_forward_open(true);
        }
        dm.on_connected(latency_ms, now);
        let reply: Option<Result<(), String>> = if self.asked {
            Some(Ok(()))
        } else {
            None
        };
        self.asked = false;
        self.phase = LadderPhase::Running;
        if self.push {
            self.identity = identity;
            return LadderStep {
                reply,
                emit: Vec::new(),
                notices: no_notices(),
                order: StepOrder::AnswerLast,
                next: LadderNext::Run,
            };
        }
        if let Some(s) = &security {
            if let Some(d) = s.client_cert_expiry_days {
                dm.set_cert_expiry_days(d);
            }
        }
        health.tls_handshake_failing = false;
        health.link = LinkState::Online;
        let emit = dm.emit_now(health, now);
        let mut told: Vec<Notice> = Vec::new();
        let mut context = Object::new();
        context.insert("instance", Json::of_text(cfg.id.as_str()));
        context.insert("adapter", Json::of_text(adapter));
        put_identity(&mut context, &identity);
        if let Some(s) = &security {
            if s.tls {
                context.insert("security", Json::of_text("tls"));
                if !s.peer_verified {
                    let mut alone = Object::new();
                    alone.insert("instance", Json::of_text(cfg.id.as_str()));
                    told.push(
                        event_notice(
                            Severity::Warning,
                            "tls-peer-unverified",
                            join3(
                                "connected to ",
                                cfg.endpoint.as_str(),
                                " over TLS WITHOUT peer verification (verifyPeer:false)",
                            ),
                            alone,
                        ),
                    );
                }
            } else {
                context.insert("security", Json::of_text("plaintext"));
            }
        }
        let ghost warned = told@;
        let announced = event_notice(
            Severity::Info,
            "device-connected",
            join2("connected to ", cfg.endpoint.as_str()),
            context,
        );
        let cleared = clear_unreachable();
        told.push(announced);
        told.push(cleared);
        assert(notices(told@) =~= notices(warned) + seq![announced@, cleared@]);
        assert(notices(told@) =~= connect_notices(*cfg, adapter@, identity, session_view(security)));
        self.security = security;
        self.identity = identity;
        LadderStep {
            reply,
            emit,
            notices: told,
            order: StepOrder::AnswerLast,
            next: LadderNext::Run,
        }
    }

    /// What a connect that failed comes to. A reconnect that was asked for is answered with the reason,
    /// before anything is emitted or told. A failure that will repeat itself waits out the ceiling; any other waits a part of its rung. On a
    /// TLS device the former is a handshake that failed, told once until a connect succeeds.
    pub open spec fn failed_to(
        before: Ladder,
        after: Ladder,
        cfg: DeviceConfig,
        permanent: bool,
        reason: Seq<char>,
        now: Instant,
        h0: Health,
        h1: Health,
        dm0: DeviceMetrics,
        dm1: DeviceMetrics,
        step: LadderStep,
    ) -> bool {
        let dm = metrics_refused(before.push, dm0);
        let h = Health { link: LinkState::Backoff, ..h0 };
        let handshake = before.tls && permanent && !before.push;
        &&& after == (Ladder {
            attempt: one_more(before.attempt),
            asked: false,
            phase: LadderPhase::Waiting,
            ..before
        })
        &&& answers(before.asked, step.reply, Some(reason))
        &&& step.order == StepOrder::AnswerFirst
        &&& step.next == LadderNext::Wait(
            if permanent {
                Pause::Exactly(before.backoff.max_ms)
            } else {
                Pause::UpTo(before.backoff.cap_of(before.attempt))
            },
        )
        &&& if handshake {
            let counted = DeviceMetrics { conn: dm.conn.handshake_failed(), ..dm };
            &&& emissions(step.emit@) == counted.transition_emits(h, now)
            &&& dm1.transition_emitted_from(counted, now)
            &&& h1 == (Health { tls_handshake_failing: true, ..health_emitted(h) })
            &&& notices(step.notices@) == (if h0.tls_handshake_failing {
                Seq::empty()
            } else {
                seq![handshake_notice(cfg, reason)]
            })
        } else {
            &&& is_silent(step)
            &&& h1 == h
            &&& dm1 == dm
        }
    }

    /// The connect failed, or timed out.
    pub fn failed(
        &mut self,
        cfg: &DeviceConfig,
        permanent: bool,
        reason: &str,
        now: Instant,
        health: &mut Health,
        dm: &mut DeviceMetrics,
    ) -> (step: LadderStep)
        requires
            old(self).phase == LadderPhase::Connecting,
        ensures
            Ladder::failed_to(
                *old(self),
                *final(self),
                *cfg,
                permanent,
                reason@,
                now,
                *old(health),
                *final(health),
                *old(dm),
                *final(dm),
                step,
            ),
    {
        if self.push {
            dm.on_forward_open(false);
        }
        dm.on_connect_failure();
        health.link = LinkState::Backoff;
        let reply: Option<Result<(), String>> = if self.asked {
            Some(Err(owned(reason)))
        } else {
            None
        };
        self.asked = false;
        let mut emit: Vec<Emission> = Vec::new();
        let mut told = no_notices();
        if self.tls && permanent && !self.push {
            dm.on_tls_handshake_failure();
            emit = dm.emit_now(health, now);
            let failing = health.tls_handshake_failing;
            health.tls_handshake_failing = true;
            if !failing {
                let mut context = Object::new();
                context.insert("instance", Json::of_text(cfg.id.as_str()));
                context.insert("security", Json::of_text("tls"));
                told.push(
                    event_notice(
                        Severity::Warning,
                        "tls-handshake-failed",
                        join2(
                            join3("TLS handshake to ", cfg.endpoint.as_str(), " failed: ").as_str(),
                            reason,
                        ),
                        context,
                    ),
                );
                assert(notices(told@) =~= seq![handshake_notice(*cfg, reason@)]);
            }
        }
        let pause = if permanent {
            Pause::Exactly(self.backoff.max_ms)
        } else {
            Pause::UpTo(self.backoff.cap(self.attempt))
        };
        self.attempt = self.attempt.saturating_add(1);
        self.phase = LadderPhase::Waiting;
        LadderStep {
            reply,
            emit,
            notices: told,
            order: StepOrder::AnswerFirst,
            next: LadderNext::Wait(pause),
        }
    }

    /// What leaving the loop comes to. What was known of the session goes with it. A stopped device is
    /// done; a lost link is told, counted and waited out; a reconnect that was asked for connects at once,
    /// and on a push device the stack's counters start again without a timeout being counted.
    pub open spec fn left_to(
        before: Ladder,
        after: Ladder,
        cfg: DeviceConfig,
        exit: LoopExit,
        now: Instant,
        h0: Health,
        h1: Health,
        dm0: DeviceMetrics,
        dm1: DeviceMetrics,
        step: LadderStep,
    ) -> bool {
        let dm = DeviceMetrics { conn: dm0.conn.dropped(now), ..dm0 };
        let gone = Ladder { security: None, identity: None, ..before };
        &&& step.reply is None
        &&& step.order == StepOrder::AnswerLast
        &&& match exit {
            LoopExit::Stopped => {
                &&& after == (Ladder { phase: LadderPhase::Done, ..gone })
                &&& step.next == LadderNext::Done
                &&& is_silent(step)
                &&& h1 == h0
                &&& dm1 == dm
            },
            LoopExit::LinkLost => {
                let h = Health {
                    link: LinkState::Backoff,
                    reconnects: bumped(h0.reconnects, 1),
                    ..h0
                };
                &&& after == (Ladder {
                    phase: LadderPhase::Waiting,
                    attempt: one_more(before.attempt),
                    ..gone
                })
                &&& step.next == LadderNext::Wait(
                    Pause::UpTo(before.backoff.cap_of(before.attempt)),
                )
                &&& h1 == health_emitted(h)
                &&& emissions(step.emit@) == dm.transition_emits(h, now)
                &&& dm1.transition_emitted_from(dm, now)
                &&& notices(step.notices@) == seq![lost_notice(cfg, before.push)]
            },
            LoopExit::Reconnect => {
                &&& after == (Ladder { phase: LadderPhase::Connecting, asked: true, ..gone })
                &&& step.next == LadderNext::Attempt
                &&& is_silent(step)
                &&& h1 == (Health { link: LinkState::Connecting, ..h0 })
                &&& dm1 == (DeviceMetrics {
                    io: if before.push {
                        dm.io.link_replaced()
                    } else {
                        dm.io
                    },
                    ..dm
                })
            },
        }
    }

    /// The loop was left, and the session is closed.
    pub fn left(
        &mut self,
        cfg: &DeviceConfig,
        exit: LoopExit,
        now: Instant,
        health: &mut Health,
        dm: &mut DeviceMetrics,
    ) -> (step: LadderStep)
        requires
            old(self).phase == LadderPhase::Running,
        ensures
            Ladder::left_to(
                *old(self),
                *final(self),
                *cfg,
                exit,
                now,
                *old(health),
                *final(health),
                *old(dm),
                *final(dm),
                step,
            ),
    {
        dm.on_connection_dropped(now);
        self.security = None;
        self.identity = None;
        match exit {
            LoopExit::Stopped => {
                self.phase = LadderPhase::Done;
                LadderStep {
                    reply: None,
                    emit: Vec::new(),
                    notices: no_notices(),
                    order: StepOrder::AnswerLast,
                    next: LadderNext::Done,
                }
            },
            LoopExit::LinkLost => {
                health.link = LinkState::Backoff;
                health.reconnects = bump(health.reconnects, 1);
                let emit = dm.emit_now(health, now);
                let mut told: Vec<Notice> = Vec::new();
                let what = if self.push {
                    "lost the class-1 link to "
                } else {
                    "lost the link to "
                };
                told.push(raise_unreachable(join2(what, cfg.endpoint.as_str()), cfg.id.as_str()));
                assert(notices(told@) =~= seq![lost_notice(*cfg, self.push)]);
                let pause = Pause::UpTo(self.backoff.cap(self.attempt));
                self.attempt = self.attempt.saturating_add(1);
                self.phase = LadderPhase::Waiting;
                LadderStep {
                    reply: None,
                    emit,
                    notices: told,
                    order: StepOrder::AnswerLast,
                    next: LadderNext::Wait(pause),
                }
            },
            LoopExit::Reconnect => {
                health.link = LinkState::Connecting;
                if self.push {
                    dm.on_io_link_replaced();
                }
                self.asked = true;
                self.phase = LadderPhase::Connecting;
                LadderStep {
                    reply: None,
                    emit: Vec::new(),
                    notices: no_notices(),
                    order: StepOrder::AnswerLast,
                    next: LadderNext::Attempt,
                }
            },
        }
    }

    /// What a control verb comes to while the link is down: a reconnect ends the wait, a pause or a resume
    /// takes effect at once, and everything that needs a session is refused.
    pub open spec fn served(
        cfg: DeviceConfig,
        verb: ControlVerb,
        by: Option<Seq<char>>,
        now: Instant,
        h0: Health,
        h1: Health,
        dm0: DeviceMetrics,
        dm1: DeviceMetrics,
        step: OfflineStep,
    ) -> bool {
        &&& step.order == StepOrder::AnswerLast
        &&& match verb {
            ControlVerb::Pause => {
                &&& step.answer == OfflineAnswer::Changed(!h0.paused)
                &&& paused_to(
                    true,
                    cfg.id@,
                    by,
                    now,
                    h0,
                    h1,
                    dm0,
                    dm1,
                    step.emit@,
                    step.notices@,
                )
            },
            ControlVerb::Resume => {
                &&& step.answer == OfflineAnswer::Changed(h0.paused)
                &&& paused_to(
                    false,
                    cfg.id@,
                    None,
                    now,
                    h0,
                    h1,
                    dm0,
                    dm1,
                    step.emit@,
                    step.notices@,
                )
            },
            _ => {
                &&& step.answer == (if verb is Reconnect {
                    OfflineAnswer::Reconnect
                } else {
                    OfflineAnswer::Refused
                })
                &&& step.emit@.len() == 0
                &&& step.notices@.len() == 0
                &&& h1 == h0
                &&& dm1 == dm0
            },
        }
    }

    /// Serve a control verb while waiting for the next attempt. `by` is who asked for a pause, if that is
    /// known.
    pub fn serve(
        &self,
        cfg: &DeviceConfig,
        verb: ControlVerb,
        by: Option<&str>,
        now: Instant,
        health: &mut Health,
        dm: &mut DeviceMetrics,
    ) -> (step: OfflineStep)
        requires
            self.phase == LadderPhase::Waiting,
        ensures
            Ladder::served(
                *cfg,
                verb,
                asked_by(by),
                now,
                *old(health),
                *final(health),
                *old(dm),
                *final(dm),
                step,
            ),
    {
        let answer = match verb {
            ControlVerb::Pause => {
                let p = apply_pause(cfg, health, dm, true, by, now);
                return OfflineStep {
                    answer: OfflineAnswer::Changed(p.changed),
                    emit: p.emit,
                    notices: p.notices,
                    order: StepOrder::AnswerLast,
                };
            },
            ControlVerb::Resume => {
                let p = apply_pause(cfg, health, dm, false, None, now);
                return OfflineStep {
                    answer: OfflineAnswer::Changed(p.changed),
                    emit: p.emit,
                    notices: p.notices,
                    order: StepOrder::AnswerLast,
                };
            },
            ControlVerb::Reconnect => OfflineAnswer::Reconnect,
            _ => OfflineAnswer::Refused,
        };
        OfflineStep { answer, emit: Vec::new(), notices: Vec::new(), order: StepOrder::AnswerLast }
    }

    /// The wait before the next attempt ended.
    pub fn waited(&mut self, end: WaitEnd) -> (step: LadderStep)
        requires
            old(self).phase == LadderPhase::Waiting,
        ensures
            *final(self) == (Ladder {
                phase: if end == WaitEnd::Stopped {
                    LadderPhase::Done
                } else {
                    LadderPhase::Connecting
                },
                asked: old(self).asked || end == WaitEnd::Reconnect,
                ..*old(self)
            }),
            is_silent(step),
            step.reply is None,
            step.next == (if end == WaitEnd::Stopped {
                LadderNext::Done
            } else {
                LadderNext::Attempt
            }),
    {
        let next = match end {
            WaitEnd::Stopped => {
                self.phase = LadderPhase::Done;
                LadderNext::Done
            },
            WaitEnd::Reconnect => {
                self.asked = true;
                self.phase = LadderPhase::Connecting;
                LadderNext::Attempt
            },
            WaitEnd::Elapsed => {
                self.phase = LadderPhase::Connecting;
                LadderNext::Attempt
            },
        };
        LadderStep {
            reply: None,
            emit: Vec::new(),
            notices: no_notices(),
            order: StepOrder::AnswerLast,
            next,
        }
    }
}

// ---- what the ladder keeps ----

/// After a connect that succeeded the next lost link waits on the lowest rung again.
pub proof fn a_connect_starts_the_ladder_again(
    before: Ladder,
    up: Ladder,
    after: Ladder,
    cfg: DeviceConfig,
    adapter: Seq<char>,
    latency_ms: u64,
    t0: Instant,
    t1: Instant,
    security: Option<SecurityStatus>,
    identity: Option<DeviceIdentity>,
    h0: Health,
    h1: Health,
    h2: Health,
    h3: Health,
    dm0: DeviceMetrics,
    dm1: DeviceMetrics,
    dm2: DeviceMetrics,
    dm3: DeviceMetrics,
    x: LadderStep,
    y: LadderStep,
)
    requires
        Ladder::connected_to(
            before,
            up,
            cfg,
            adapter,
            latency_ms,
            t0,
            security,
            identity,
            h0,
            h1,
            dm0,
            dm1,
            x,
        ),
        Ladder::left_to(up, after, cfg, LoopExit::LinkLost, t1, h2, h3, dm2, dm3, y),
    ensures
        y.next == LadderNext::Wait(Pause::UpTo(before.backoff.cap_of(0))),
{
}

/// A failure that will repeat itself waits out the whole ceiling, whatever attempt it is.
pub proof fn a_permanent_failure_waits_out_the_ceiling(
    before: Ladder,
    after: Ladder,
    cfg: DeviceConfig,
    reason: Seq<char>,
    now: Instant,
    h0: Health,
    h1: Health,
    dm0: DeviceMetrics,
    dm1: DeviceMetrics,
    step: LadderStep,
)
    requires
        Ladder::failed_to(before, after, cfg, true, reason, now, h0, h1, dm0, dm1, step),
    ensures
        step.next == LadderNext::Wait(Pause::Exactly(before.backoff.max_ms)),
{
}

/// A handshake that keeps failing is counted each time and told once.
pub proof fn a_failing_handshake_is_told_once(
    before: Ladder,
    after: Ladder,
    cfg: DeviceConfig,
    reason: Seq<char>,
    now: Instant,
    h0: Health,
    h1: Health,
    dm0: DeviceMetrics,
    dm1: DeviceMetrics,
    step: LadderStep,
)
    requires
        before.tls,
        !before.push,
        Ladder::failed_to(before, after, cfg, true, reason, now, h0, h1, dm0, dm1, step),
    ensures
        h1.tls_handshake_failing,
        dm1.conn.tls_handshake_failures.total == dm0.conn.tls_handshake_failures.plus(1).total,
        notices(step.notices@).len() == (if h0.tls_handshake_failing {
            0nat
        } else {
            1nat
        }),
{
}

/// A reconnect that was asked for is answered by the attempt that follows it, whether that succeeds or
/// fails, and only by that one: an attempt nobody asked for answers nothing. Who asked hears of a failure
/// before it is told, and of a success once it was.
pub proof fn a_reconnect_is_answered_once(
    before: Ladder,
    after: Ladder,
    cfg: DeviceConfig,
    adapter: Seq<char>,
    latency_ms: u64,
    security: Option<SecurityStatus>,
    identity: Option<DeviceIdentity>,
    permanent: bool,
    reason: Seq<char>,
    now: Instant,
    h0: Health,
    h1: Health,
    dm0: DeviceMetrics,
    dm1: DeviceMetrics,
    step: LadderStep,
)
    ensures
        Ladder::failed_to(before, after, cfg, permanent, reason, now, h0, h1, dm0, dm1, step) ==> {
            &&& !after.asked
            &&& step.order.sequence()[0] == StepPart::Answer
            &&& if before.asked {
                step.reply matches Some(Err(e)) && e@ == reason
            } else {
                step.reply is None
            }
        },
        Ladder::connected_to(
            before,
            after,
            cfg,
            adapter,
            latency_ms,
            now,
            security,
            identity,
            h0,
            h1,
            dm0,
            dm1,
            step,
        ) ==> {
            &&& !after.asked
            &&& step.order.sequence()[2] == StepPart::Answer
            &&& if before.asked {
                step.reply == Some(Ok::<(), String>(()))
            } else {
                step.reply is None
            }
        },
{
}

/// A stopped device tells nothing, raises no alarm and waits for nothing.
pub proof fn a_stop_is_no_alarm(
    before: Ladder,
    after: Ladder,
    cfg: DeviceConfig,
    now: Instant,
    h0: Health,
    h1: Health,
    dm0: DeviceMetrics,
    dm1: DeviceMetrics,
    step: LadderStep,
)
    requires
        Ladder::left_to(before, after, cfg, LoopExit::Stopped, now, h0, h1, dm0, dm1, step),
    ensures
        step.notices@.len() == 0,
        step.emit@.len() == 0,
        step.next == LadderNext::Done,
{
}

/// However a loop is left, nothing is known of the session any more: a nameplate belongs to a session,
/// not to an address.
pub proof fn a_nameplate_goes_with_its_session(
    before: Ladder,
    after: Ladder,
    cfg: DeviceConfig,
    exit: LoopExit,
    now: Instant,
    h0: Health,
    h1: Health,
    dm0: DeviceMetrics,
    dm1: DeviceMetrics,
    step: LadderStep,
)
    requires
        Ladder::left_to(before, after, cfg, exit, now, h0, h1, dm0, dm1, step),
    ensures
        after.identity is None,
        after.security is None,
{
}

/// A reconnect that was asked for on a push device counts no timeout, and a redirect that is refused
/// again on the new connection is told again.
pub proof fn a_requested_reconnect_is_no_timeout(
    before: Ladder,
    after: Ladder,
    cfg: DeviceConfig,
    now: Instant,
    h0: Health,
    h1: Health,
    dm0: DeviceMetrics,
    dm1: DeviceMetrics,
    step: LadderStep,
)
    requires
        before.push,
        Ladder::left_to(before, after, cfg, LoopExit::Reconnect, now, h0, h1, dm0, dm1, step),
    ensures
        dm1.io.io_timeouts == dm0.io.io_timeouts,
        dm1.io.last_stats.refused_redirects == 0,
        step.next is Attempt,
{
}

// ---- what each turn of the ladder comes to ----

/// A rung is the lowest one doubled with each attempt, and never above the ceiling: exactly that, for
/// every attempt.
pub proof fn a_rung_is_the_lowest_doubled_up_to_the_ceiling(base: u64, max: u64, n: nat)
    ensures
        base * vstd::arithmetic::power2::pow2(n) <= max ==> rung(base, max, n) == base
            * vstd::arithmetic::power2::pow2(n),
        base * vstd::arithmetic::power2::pow2(n) > max ==> rung(base, max, n) == max,
    decreases n,
{
    if n == 0 {
        vstd::arithmetic::power2::lemma2_to64();
    } else {
        a_rung_is_the_lowest_doubled_up_to_the_ceiling(base, max, (n - 1) as nat);
        vstd::arithmetic::power2::lemma_pow2_unfold(n);
        vstd::arithmetic::power2::lemma_pow2_pos((n - 1) as nat);
        let half = vstd::arithmetic::power2::pow2((n - 1) as nat);
        assert(base * (2 * half) == 2 * (base * half)) by (nonlinear_arith);
        assert(base * half >= 0) by (nonlinear_arith)
            requires
                base >= 0,
                half >= 0,
        ;
    }
}

/// A connect that failed is counted as a failure, leaves the device waiting one rung higher than before,
/// and waits no longer than its own rung, unless the failure will repeat itself: then for the whole
/// ceiling. Nothing is told but a handshake that failed for the first time.
pub proof fn a_failed_connect_waits_on_its_rung(
    before: Ladder,
    after: Ladder,
    cfg: DeviceConfig,
    permanent: bool,
    reason: Seq<char>,
    now: Instant,
    h0: Health,
    h1: Health,
    dm0: DeviceMetrics,
    dm1: DeviceMetrics,
    step: LadderStep,
)
    requires
        Ladder::failed_to(before, after, cfg, permanent, reason, now, h0, h1, dm0, dm1, step),
    ensures
        !permanent ==> step.next == LadderNext::Wait(
            Pause::UpTo(rung(before.backoff.base_ms, before.backoff.max_ms, before.attempt as nat)),
        ),
        permanent ==> step.next == LadderNext::Wait(Pause::Exactly(before.backoff.max_ms)),
        before.attempt < u32::MAX ==> after.attempt == before.attempt + 1,
        before.attempt == u32::MAX ==> after.attempt == u32::MAX,
        after.phase == LadderPhase::Waiting,
        after.backoff == before.backoff && after.push == before.push && after.tls == before.tls,
        h1.link == LinkState::Backoff,
        h1.paused == h0.paused,
        dm1.conn.connect_failures.total == dm0.conn.connect_failures.plus(1).total,
        before.push ==> dm1.io.forward_open_failures.total == dm0.io.forward_open_failures.plus(1).total,
        !before.push ==> dm1.io.forward_open_failures.total == dm0.io.forward_open_failures.total,
        before.tls && permanent && !before.push ==> h1.tls_handshake_failing && step.emit@.len() > 0 && (
        h0.tls_handshake_failing ==> step.notices@.len() == 0) && (!h0.tls_handshake_failing
            ==> step.notices@.len() == 1 && step.notices@[0]@.name == "tls-handshake-failed"@),
        !(before.tls && permanent && !before.push) ==> step.emit@.len() == 0 && step.notices@.len() == 0
            && h1.tls_handshake_failing == h0.tls_handshake_failing
            && dm1.conn.tls_handshake_failures == dm0.conn.tls_handshake_failures,
{
    assert(notices(step.notices@).len() == step.notices@.len());
    assert(emissions(step.emit@).len() == step.emit@.len());
    if step.notices@.len() == 1 {
        assert(notices(step.notices@)[0] == step.notices@[0]@);
    }
}

/// A connect that succeeded starts the attempts again and runs the loop. A polled device is online from
/// then on, its handshake fails no more, and it is told: first that its peer was not verified, if that is
/// so, then that it is connected, then that it is reachable. A push device tells nothing until its
/// connection is up.
pub proof fn a_connect_is_told_of_a_polled_device(
    before: Ladder,
    after: Ladder,
    cfg: DeviceConfig,
    adapter: Seq<char>,
    latency_ms: u64,
    now: Instant,
    security: Option<SecurityStatus>,
    identity: Option<DeviceIdentity>,
    h0: Health,
    h1: Health,
    dm0: DeviceMetrics,
    dm1: DeviceMetrics,
    step: LadderStep,
)
    requires
        Ladder::connected_to(
            before,
            after,
            cfg,
            adapter,
            latency_ms,
            now,
            security,
            identity,
            h0,
            h1,
            dm0,
            dm1,
            step,
        ),
    ensures
        step.next == LadderNext::Run,
        after.attempt == 0,
        after.phase == LadderPhase::Running,
        after.identity == identity,
        !before.push ==> after.security == security,
        dm1.conn.session_connected && dm1.conn.ever_connected,
        dm1.conn.connect_latency_ms == latency_ms,
        dm1.conn.connected_since == Some(now),
        dm0.conn.ever_connected ==> dm1.conn.reconnects.total == dm0.conn.reconnects.plus(1).total,
        !dm0.conn.ever_connected ==> dm1.conn.reconnects.total == dm0.conn.reconnects.total,
        before.push ==> h1 == h0 && step.notices@.len() == 0 && step.emit@.len() == 0
            && dm1.io.forward_opens == dm0.io.forward_opens.plus(1),
        !before.push ==> {
            let warned = security matches Some(s) && s.tls && !s.peer_verified;
            &&& h1.link == LinkState::Online
            &&& !h1.tls_handshake_failing
            &&& h1.paused == h0.paused
            &&& step.emit@.len() > 0 && step.emit@[0]@.immediate
            &&& step.notices@.len() == (if warned {
                3nat
            } else {
                2nat
            })
            &&& warned ==> step.notices@[0]@.name == "tls-peer-unverified"@
                && step.notices@[0]@.severity == Severity::Warning
            &&& step.notices@[step.notices@.len() - 2]@.name == "device-connected"@
            &&& step.notices@[step.notices@.len() - 2]@.message == Some("connected to "@ + cfg.endpoint@)
            &&& step.notices@[step.notices@.len() - 1]@ == reachable_again()
            &&& security is Some && (security->0).client_cert_expiry_days is Some
                ==> dm1.conn.cert_expiry_days == security->0.client_cert_expiry_days
        },
{
    assert(notices(step.notices@).len() == step.notices@.len());
    assert(emissions(step.emit@).len() == step.emit@.len());
    if !before.push {
        assert(emissions(step.emit@)[0] == step.emit@[0]@);
        let n = step.notices@.len() as int;
        assert(notices(step.notices@)[0] == step.notices@[0]@);
        assert(notices(step.notices@)[n - 2] == step.notices@[n - 2]@);
        assert(notices(step.notices@)[n - 1] == step.notices@[n - 1]@);
    }
}

/// A lost link is one more reconnect, is told as an alarm and waits on its rung; a requested reconnect
/// connects at once and is told of to nobody; a stop ends it. In every case the session is counted as
/// dropped.
pub proof fn a_loop_is_left_by_what_ended_it(
    before: Ladder,
    after: Ladder,
    cfg: DeviceConfig,
    exit: LoopExit,
    now: Instant,
    h0: Health,
    h1: Health,
    dm0: DeviceMetrics,
    dm1: DeviceMetrics,
    step: LadderStep,
)
    requires
        Ladder::left_to(before, after, cfg, exit, now, h0, h1, dm0, dm1, step),
    ensures
        step.reply is None,
        after.identity is None && after.security is None,
        !dm1.conn.session_connected,
        dm1.conn.connection_drops.total == dm0.conn.connection_drops.plus(1).total,
        dm1.conn.connected_since is None,
        exit == LoopExit::Stopped ==> step.next == LadderNext::Done && after.phase == LadderPhase::Done && h1
            == h0 && step.notices@.len() == 0 && step.emit@.len() == 0,
        exit == LoopExit::LinkLost ==> {
            &&& step.next == LadderNext::Wait(
                Pause::UpTo(rung(before.backoff.base_ms, before.backoff.max_ms, before.attempt as nat)),
            )
            &&& after.phase == LadderPhase::Waiting
            &&& before.attempt < u32::MAX ==> after.attempt == before.attempt + 1
            &&& h1.link == LinkState::Backoff
            &&& step.notices@.len() == 1
            &&& step.notices@[0]@.kind == NoticeKind::Raise
            &&& step.notices@[0]@.name == "device-unreachable"@
            &&& step.emit@.len() > 0 && step.emit@[0]@.immediate
            &&& step.emit@[0]@.values == health_values(
                Health {
                    link: LinkState::Backoff,
                    reconnects: bumped(h0.reconnects, 1),
                    ..h0
                },
            )
        },
        exit == LoopExit::Reconnect ==> {
            &&& step.next == LadderNext::Attempt
            &&& after.phase == LadderPhase::Connecting
            &&& after.asked
            &&& after.attempt == before.attempt
            &&& h1.link == LinkState::Connecting
            &&& h1.reconnects == h0.reconnects
            &&& step.notices@.len() == 0 && step.emit@.len() == 0
        },
{
    assert(notices(step.notices@).len() == step.notices@.len());
    assert(emissions(step.emit@).len() == step.emit@.len());
    if exit == LoopExit::LinkLost {
        assert(notices(step.notices@)[0] == step.notices@[0]@);
        assert(emissions(step.emit@)[0] == step.emit@[0]@);
    }
}

/// While the link is down a reconnect ends the wait, a pause and a resume take effect and are answered with
/// whether they changed anything, and everything else is refused and changes nothing.
pub proof fn a_verb_is_served_without_a_link(
    cfg: DeviceConfig,
    verb: ControlVerb,
    by: Option<Seq<char>>,
    now: Instant,
    h0: Health,
    h1: Health,
    dm0: DeviceMetrics,
    dm1: DeviceMetrics,
    step: OfflineStep,
)
    requires
        Ladder::served(cfg, verb, by, now, h0, h1, dm0, dm1, step),
    ensures
        verb == ControlVerb::Reconnect ==> step.answer == OfflineAnswer::Reconnect,
        verb == ControlVerb::Pause ==> step.answer == OfflineAnswer::Changed(!h0.paused) && h1.paused,
        verb == ControlVerb::Resume ==> step.answer == OfflineAnswer::Changed(h0.paused) && !h1.paused,
        !(verb is Reconnect || verb is Pause || verb is Resume) ==> step.answer == OfflineAnswer::Refused,
        !(verb is Pause || verb is Resume) ==> h1 == h0 && dm1 == dm0 && step.emit@.len() == 0
            && step.notices@.len() == 0,
        h1.link == h0.link,
{
}

/// The experimental signals of a device are its arrays of booleans, by their names, each once for each
/// time it is configured, in order, and no other signal. Where they are configured is returned.
pub proof fn boolean_arrays_are_experimental(groups: Seq<PollGroup>, n: nat) -> (places: Seq<(int, int)>)
    requires
        n <= groups.len(),
    ensures
        experimental_among(groups, n).len() == places.len(),
        forall|k: int|
            0 <= k < places.len() ==> ({
                let (g, i) = #[trigger] places[k];
                &&& 0 <= g < n
                &&& 0 <= i < groups[g].signals@.len()
                &&& groups[g].signals@[i].eip_type == EipType::Bool
                &&& groups[g].signals@[i].array_count is Some
                &&& experimental_among(groups, n)[k] == groups[g].signals@[i].name@
            }),
        forall|g: int, i: int|
            0 <= g < n && 0 <= i < groups[g].signals@.len() && (#[trigger] groups[g].signals@[i]).eip_type
                == EipType::Bool && groups[g].signals@[i].array_count is Some ==> places.contains((g, i)),
        forall|k: int, l: int|
            0 <= k < l < places.len() ==> places[k].0 < places[l].0 || (places[k].0 == places[l].0
                && places[k].1 < places[l].1),
    decreases n,
{
    if n == 0 {
        Seq::empty()
    } else {
        let m = (n - 1) as nat;
        let prev = boolean_arrays_are_experimental(groups, m);
        lemma_experimental_in(
            groups,
            m as int,
            experimental_among(groups, m),
            groups[m as int].signals@.len(),
            prev,
        )
    }
}

proof fn lemma_experimental_in(
    groups: Seq<PollGroup>,
    g: int,
    before: Seq<Seq<char>>,
    n: nat,
    prev: Seq<(int, int)>,
) -> (places: Seq<(int, int)>)
    requires
        0 <= g < groups.len(),
        n <= groups[g].signals@.len(),
        before.len() == prev.len(),
        forall|k: int|
            0 <= k < prev.len() ==> ({
                let (q, i) = #[trigger] prev[k];
                &&& 0 <= q < g
                &&& 0 <= i < groups[q].signals@.len()
                &&& groups[q].signals@[i].eip_type == EipType::Bool
                &&& groups[q].signals@[i].array_count is Some
                &&& before[k] == groups[q].signals@[i].name@
            }),
        forall|q: int, i: int|
            0 <= q < g && 0 <= i < groups[q].signals@.len() && (#[trigger] groups[q].signals@[i]).eip_type
                == EipType::Bool && groups[q].signals@[i].array_count is Some ==> prev.contains((q, i)),
        forall|k: int, l: int|
            0 <= k < l < prev.len() ==> prev[k].0 < prev[l].0 || (prev[k].0 == prev[l].0 && prev[k].1
                < prev[l].1),
    ensures
        ({
            let all = experimental_in(before, groups[g].signals@, n);
            &&& all.len() == places.len()
            &&& forall|k: int|
                0 <= k < places.len() ==> ({
                    let (q, i) = #[trigger] places[k];
                    &&& 0 <= q <= g
                    &&& 0 <= i < groups[q].signals@.len()
                    &&& q == g ==> i < n
                    &&& groups[q].signals@[i].eip_type == EipType::Bool
                    &&& groups[q].signals@[i].array_count is Some
                    &&& all[k] == groups[q].signals@[i].name@
                })
            &&& forall|q: int, i: int|
                (0 <= q < g && 0 <= i < groups[q].signals@.len() || q == g && 0 <= i < n) && (
                #[trigger] groups[q].signals@[i]).eip_type == EipType::Bool
                    && groups[q].signals@[i].array_count is Some ==> places.contains((q, i))
            &&& forall|k: int, l: int|
                0 <= k < l < places.len() ==> places[k].0 < places[l].0 || (places[k].0 == places[l].0
                    && places[k].1 < places[l].1)
        }),
    decreases n,
{
    if n == 0 {
        prev
    } else {
        let sofar = lemma_experimental_in(groups, g, before, (n - 1) as nat, prev);
        if is_experimental(groups[g].signals@[n - 1]) {
            let next = sofar.push((g, n - 1));
            assert forall|q: int, i: int|
                (0 <= q < g && 0 <= i < groups[q].signals@.len() || q == g && 0 <= i < n) && (
                #[trigger] groups[q].signals@[i]).eip_type == EipType::Bool
                    && groups[q].signals@[i].array_count is Some implies next.contains((q, i)) by {
                if q == g && i == n - 1 {
                    assert(next[sofar.len() as int] == (q, i));
                } else {
                    assert(sofar.contains((q, i)));
                    let k = choose|k: int| 0 <= k < sofar.len() && sofar[k] == (q, i);
                    assert(next[k] == (q, i));
                }
            }
            next
        } else {
            sofar
        }
    }
}

/// An attempt shows on a push device, and on it alone, and touches nothing else that is said of it; a
/// silent step emits and tells nothing; attempts are counted one by one.
pub proof fn an_attempt_shows_on_a_push_device(push: bool, h: Health, step: LadderStep, attempt: u32)
    ensures
        push ==> attempting(push, h).link is Connecting,
        !push ==> attempting(push, h) == h,
        attempting(push, h).paused == h.paused,
        attempting(push, h).read_errors == h.read_errors,
        attempting(push, h).write_errors == h.write_errors,
        attempting(push, h).reconnects == h.reconnects,
        is_silent(step) <==> step.emit@.len() == 0 && step.notices@.len() == 0,
        attempt < u32::MAX ==> one_more(attempt) == attempt + 1,
        attempt == u32::MAX ==> one_more(attempt) == attempt,
{
}

/// A reconnect that was asked for is answered, with the reason where it failed; one that nobody asked for is
/// not.
pub proof fn a_reconnect_is_answered_where_it_was_asked_for(
    asked: bool,
    reply: Option<Result<(), String>>,
    failed: Option<Seq<char>>,
)
    requires
        answers(asked, reply, failed),
    ensures
        reply is Some <==> asked,
        asked && failed is None ==> reply->0 is Ok,
        asked && failed is Some ==> reply->0 is Err && reply->0->Err_0@ == failed->0,
{
}

/// The refusal of an adapter names the device and the adapter that nobody implements.
pub proof fn an_unknown_adapter_is_named(u: UnknownAdapter)
    ensures
        u.text() == "device `"@ + u.instance@ + "`: unknown adapter `"@ + u.adapter@
            + "` (expected `ethernet-ip` or `sim`)"@,
        BackendKind::Sim.token() == "sim"@,
        BackendKind::EthernetIp.token() == "ethernet-ip"@,
{
}

} // verus!
