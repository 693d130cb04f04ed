//! Pausing and resuming a device, whether its link is up or down.

use vstd::prelude::*;

use crate::clock::Instant;
use crate::config::DeviceConfig;
use crate::device_metrics::DeviceMetrics;
use crate::emit::{emissions, health_emitted, Emission};
use crate::health::Health;
use crate::json::{Json, JsonV, Object};
use crate::notice::{event, event_notice, notices, Notice, NoticeV, Severity};
use crate::text::owned;

verus! {

/// What pausing or resuming a device comes to.
#[derive(Debug)]
pub struct PauseStep {
    /// Whether it changed anything.
    pub changed: bool,
    /// The metrics to emit.
    pub emit: Vec<Emission>,
    pub notices: Vec<Notice>,
}

/// What is told besides the message: the instance, and who asked, if that is known.
pub open spec fn pause_context(instance: Seq<char>, by: Option<Seq<char>>) -> Map<Seq<char>, JsonV> {
    let m = Map::empty().insert("instance"@, JsonV::Text(instance));
    match by {
        Some(who) => m.insert("by"@, JsonV::Text(who)),
        None => m,
    }
}

/// What is told of a device that was paused or resumed.
pub open spec fn pause_notice(paused: bool, instance: Seq<char>, by: Option<Seq<char>>) -> NoticeV {
    if paused {
        event(
            Severity::Info,
            "adapter-paused"@,
            "publishing is paused"@,
            pause_context(instance, by),
        )
    } else {
        event(
            Severity::Info,
            "adapter-resumed"@,
            "publishing is resumed"@,
            pause_context(instance, by),
        )
    }
}

/// What pausing or resuming comes to: nothing when the device is already so; otherwise the flag is set,
/// the metrics of the transition are emitted, and it is told.
pub open spec fn paused_to(
    paused: bool,
    instance: Seq<char>,
    by: Option<Seq<char>>,
    now: Instant,
    h0: Health,
    h1: Health,
    dm0: DeviceMetrics,
    dm1: DeviceMetrics,
    emit: Seq<Emission>,
    told: Seq<Notice>,
) -> bool {
    if h0.paused == paused {
        &&& h1 == h0
        &&& dm1 == dm0
        &&& emit.len() == 0
        &&& told.len() == 0
    } else {
        let h = Health { paused, ..h0 };
        &&& h1 == health_emitted(h)
        &&& emissions(emit) == dm0.transition_emits(h, now)
        &&& dm1.transition_emitted_from(dm0, now)
        &&& notices(told) == seq![pause_notice(paused, instance, by)]
    }
}

/// Who asked, as a text.
pub open spec fn asked_by(by: Option<&str>) -> Option<Seq<char>> {
    match by {
        Some(who) => Some(who@),
        None => None,
    }
}

/// Pause or resume a device.
pub fn apply_pause(
    cfg: &DeviceConfig,
    health: &mut Health,
    dm: &mut DeviceMetrics,
    paused: bool,
    by: Option<&str>,
    now: Instant,
) -> (step: PauseStep)
    ensures
        step.changed == (old(health).paused != paused),
        paused_to(
            paused,
            cfg.id@,
            asked_by(by),
            now,
            *old(health),
            *final(health),
            *old(dm),
            *final(dm),
            step.emit@,
            step.notices@,
        ),
{
    if health.paused == paused {
        return PauseStep { changed: false, emit: Vec::new(), notices: Vec::new() };
    }
    health.paused = paused;
    let emit = dm.emit_now(health, now);
    let mut context = Object::new();
    context.insert("instance", Json::of_text(cfg.id.as_str()));
    if let Some(who) = by {
        context.insert("by", Json::of_text(who));
    }
    let notice = if paused {
        event_notice(Severity::Info, "adapter-paused", owned("publishing is paused"), context)
    } else {
        event_notice(Severity::Info, "adapter-resumed", owned("publishing is resumed"), context)
    };
    let mut told: Vec<Notice> = Vec::new();
    told.push(notice);
    assert(notices(told@) =~= seq![pause_notice(paused, cfg.id@, asked_by(by))]);
    PauseStep { changed: true, emit, notices: told }
}

/// A pause is told once: pausing a paused device emits and tells nothing, and neither does resuming one
/// that runs.
pub proof fn a_pause_is_told_once(
    paused: bool,
    instance: Seq<char>,
    first_by: Option<Seq<char>>,
    second_by: Option<Seq<char>>,
    t0: Instant,
    t1: Instant,
    h0: Health,
    h1: Health,
    h2: Health,
    dm0: DeviceMetrics,
    dm1: DeviceMetrics,
    dm2: DeviceMetrics,
    x: PauseStep,
    y: PauseStep,
)
    requires
        paused_to(paused, instance, first_by, t0, h0, h1, dm0, dm1, x.emit@, x.notices@),
        paused_to(paused, instance, second_by, t1, h1, h2, dm1, dm2, y.emit@, y.notices@),
    ensures
        h1.paused == paused,
        h2 == h1,
        dm2 == dm1,
        y.emit@.len() == 0,
        y.notices@.len() == 0,
{
}

/// A pause shows in the metrics at once: the health that goes out with it says so.
pub proof fn a_pause_shows_at_once(
    paused: bool,
    instance: Seq<char>,
    by: Option<Seq<char>>,
    now: Instant,
    h0: Health,
    h1: Health,
    dm0: DeviceMetrics,
    dm1: DeviceMetrics,
    step: PauseStep,
)
    requires
        h0.paused != paused,
        paused_to(paused, instance, by, now, h0, h1, dm0, dm1, step.emit@, step.notices@),
    ensures
        step.emit@.len() > 0,
        step.emit@[0]@.immediate,
        step.emit@[0]@.family == crate::metrics::Family::Health,
        step.emit@[0]@.values == crate::emit::health_values(Health { paused, ..h0 }),
{
    assert(emissions(step.emit@).len() == step.emit@.len());
    assert(emissions(step.emit@)[0] == step.emit@[0]@);
}

/// What is told of a pause or a resume is an event that says which of the two it is, of which instance, and
/// who asked where that is known.
pub proof fn a_pause_says_what_and_who(paused: bool, instance: Seq<char>, by: Option<Seq<char>>)
    ensures
        ({
            let n = pause_notice(paused, instance, by);
            &&& n.kind is Event
            &&& n.severity is Info
            &&& paused ==> n.name == "adapter-paused"@
            &&& !paused ==> n.name == "adapter-resumed"@
            &&& n.context matches Some(JsonV::Object(c)) && {
                &&& c["instance"@] == JsonV::Text(instance)
                &&& c.dom().contains("by"@) <==> by is Some
                &&& by matches Some(who) ==> c["by"@] == JsonV::Text(who)
            }
        }),
{
    reveal_strlit("instance");
    reveal_strlit("by");
    assert("instance"@.len() == 8 && "by"@.len() == 2);
}

/// A pause or a resume sets the flag and touches nothing else that is said of the device's health but the
/// intervals that go out with it.
pub proof fn a_pause_changes_the_flag_alone(
    paused: bool,
    instance: Seq<char>,
    by: Option<Seq<char>>,
    now: Instant,
    h0: Health,
    h1: Health,
    dm0: DeviceMetrics,
    dm1: DeviceMetrics,
    step: PauseStep,
)
    requires
        paused_to(paused, instance, by, now, h0, h1, dm0, dm1, step.emit@, step.notices@),
    ensures
        h1.paused == paused,
        h1.link == h0.link,
        h1.tls_handshake_failing == h0.tls_handshake_failing,
        h0.paused == paused ==> h1 == h0 && step.notices@.len() == 0,
        h0.paused != paused ==> step.notices@.len() == 1 && step.notices@[0]@ == pause_notice(
            paused,
            instance,
            by,
        ),
{
    if h0.paused != paused {
        assert(notices(step.notices@).len() == step.notices@.len());
        assert(notices(step.notices@)[0] == step.notices@[0]@);
    }
}

} // verus!
