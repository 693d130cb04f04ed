//! What the event surface is told.

use vstd::prelude::*;

use crate::device::text_view;
use crate::json::{Json, JsonV, Object};
use crate::text::owned;

verus! {

/// How much a notice matters.
#[derive(Clone, Copy, Debug, PartialEq, Eq, Structural)]
pub enum Severity {
    Info,
    Warning,
    Critical,
}

/// What a notice is.
#[derive(Clone, Copy, Debug, PartialEq, Eq, Structural)]
pub enum NoticeKind {
    /// Something happened.
    Event,
    /// Something is wrong until it is cleared.
    Raise,
    /// What was wrong is not any more.
    Clear,
}

/// One notice to the event surface.
#[derive(Debug)]
pub struct Notice {
    pub kind: NoticeKind,
    pub severity: Severity,
    /// The type; an alarm is cleared under the type it was raised under.
    pub name: String,
    pub message: Option<String>,
    pub context: Option<Json>,
}

/// One notice to the event surface.
pub struct NoticeV {
    pub kind: NoticeKind,
    pub severity: Severity,
    pub name: Seq<char>,
    pub message: Option<Seq<char>>,
    pub context: Option<JsonV>,
}

impl View for Notice {
    type V = NoticeV;

    open spec fn view(&self) -> NoticeV {
        NoticeV {
            kind: self.kind,
            severity: self.severity,
            name: self.name@,
            message: text_view(self.message),
            context: match self.context {
                Some(c) => Some(c@),
                None => None,
            },
        }
    }
}

/// The notices of a list, in order.
pub open spec fn notices(s: Seq<Notice>) -> Seq<NoticeV> {
    Seq::new(s.len(), |i: int| s[i]@)
}

/// An event with a message and a context.
pub open spec fn event(
    severity: Severity,
    name: Seq<char>,
    message: Seq<char>,
    context: Map<Seq<char>, JsonV>,
) -> NoticeV {
    NoticeV {
        kind: NoticeKind::Event,
        severity,
        name,
        message: Some(message),
        context: Some(JsonV::Object(context)),
    }
}

/// The alarm of a device that cannot be reached.
pub open spec fn unreachable_alarm(message: Seq<char>, instance: Seq<char>) -> NoticeV {
    NoticeV {
        kind: NoticeKind::Raise,
        severity: Severity::Critical,
        name: "device-unreachable"@,
        message: Some(message),
        context: Some(JsonV::Object(Map::empty().insert("instance"@, JsonV::Text(instance)))),
    }
}

/// A device can be reached again.
pub open spec fn reachable_again() -> NoticeV {
    NoticeV {
        kind: NoticeKind::Clear,
        severity: Severity::Critical,
        name: "device-unreachable"@,
        message: None,
        context: None,
    }
}

/// An event with a message and a context.
pub fn event_notice(severity: Severity, name: &str, message: String, context: Object) -> (r: Notice)
    ensures
        r@ == event(severity, name@, message@, context@),
{
    Notice {
        kind: NoticeKind::Event,
        severity,
        name: owned(name),
        message: Some(message),
        context: Some(Json::of_object(context)),
    }
}

/// The alarm of a device that cannot be reached.
pub fn raise_unreachable(message: String, instance: &str) -> (r: Notice)
    ensures
        r@ == unreachable_alarm(message@, instance@),
{
    let mut o = Object::new();
    o.insert("instance", Json::of_text(instance));
    Notice {
        kind: NoticeKind::Raise,
        severity: Severity::Critical,
        name: owned("device-unreachable"),
        message: Some(message),
        context: Some(Json::of_object(o)),
    }
}

/// A device can be reached again.
pub fn clear_unreachable() -> (r: Notice)
    ensures
        r@ == reachable_again(),
{
    Notice {
        kind: NoticeKind::Clear,
        severity: Severity::Critical,
        name: owned("device-unreachable"),
        message: None,
        context: None,
    }
}

/// An alarm is cleared under the severity and the type it was raised under.
pub proof fn an_alarm_is_cleared_as_it_was_raised(message: Seq<char>, instance: Seq<char>)
    ensures
        reachable_again().name == unreachable_alarm(message, instance).name,
        reachable_again().severity == unreachable_alarm(message, instance).severity,
{
}

/// A device that cannot be reached raises a critical alarm that says why and names the instance; it is
/// cleared by a notice of another kind that says neither.
pub proof fn an_alarm_names_the_instance(message: Seq<char>, instance: Seq<char>)
    ensures
        unreachable_alarm(message, instance).kind is Raise,
        unreachable_alarm(message, instance).severity is Critical,
        unreachable_alarm(message, instance).message == Some(message),
        unreachable_alarm(message, instance).context matches Some(JsonV::Object(c)) && c["instance"@]
            == JsonV::Text(instance),
        reachable_again().kind is Clear,
        reachable_again().message is None,
        reachable_again().context is None,
{
}

/// An event says what it is given to say.
pub proof fn an_event_says_what_it_is_given(
    severity: Severity,
    name: Seq<char>,
    message: Seq<char>,
    context: Map<Seq<char>, JsonV>,
)
    ensures
        ({
            let n = event(severity, name, message, context);
            &&& n.kind is Event
            &&& n.severity == severity
            &&& n.name == name
            &&& n.message == Some(message)
            &&& n.context == Some(JsonV::Object(context))
        }),
{
}

} // verus!
