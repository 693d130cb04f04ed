//! In which order the parts of a step are carried out.

use vstd::prelude::*;

verus! {

/// One part of carrying out a step.
#[derive(Clone, Copy, Debug, PartialEq, Eq, Structural)]
pub enum StepPart {
    /// Answer the request that is due an answer, if there is one.
    Answer,
    /// Emit the metrics.
    Emit,
    /// Tell the notices.
    Tell,
}

/// In which order a step is carried out. What it does next comes after all of it.
#[derive(Clone, Copy, Debug, PartialEq, Eq, Structural)]
pub enum StepOrder {
    /// The answer does not wait for the metrics and the notices.
    AnswerFirst,
    /// The answer is given once the metrics and the notices are out.
    AnswerLast,
    /// The notices go out before the metrics that count what they tell of.
    NoticesFirst,
}

impl StepOrder {
    /// The parts, in order: each of them once.
    pub open spec fn sequence(self) -> Seq<StepPart> {
        match self {
            StepOrder::AnswerFirst => seq![StepPart::Answer, StepPart::Emit, StepPart::Tell],
            StepOrder::AnswerLast => seq![StepPart::Emit, StepPart::Tell, StepPart::Answer],
            StepOrder::NoticesFirst => seq![StepPart::Tell, StepPart::Emit, StepPart::Answer],
        }
    }

    /// The parts, in order: each of them once.
    pub fn parts(self) -> (r: Vec<StepPart>)
        ensures
            r@ == self.sequence(),
    {
        let r = match self {
            StepOrder::AnswerFirst => vec![StepPart::Answer, StepPart::Emit, StepPart::Tell],
            StepOrder::AnswerLast => vec![StepPart::Emit, StepPart::Tell, StepPart::Answer],
            StepOrder::NoticesFirst => vec![StepPart::Tell, StepPart::Emit, StepPart::Answer],
        };
        assert(r@ =~= self.sequence());
        r
    }
}

/// A step is carried out whole: each of its parts once, whatever the order. The answer comes first, or last,
/// as the order says, and the notices go before the metrics where it says that.
pub proof fn a_step_is_carried_out_whole(order: StepOrder, part: StepPart)
    ensures
        order.sequence().len() == 3,
        order.sequence().no_duplicates(),
        order.sequence().contains(part),
        order is AnswerFirst ==> order.sequence()[0] is Answer && order.sequence()[1] is Emit,
        order is AnswerLast ==> order.sequence()[2] is Answer && order.sequence()[0] is Emit,
        order is NoticesFirst ==> order.sequence()[0] is Tell && order.sequence()[1] is Emit,
{
    let s = order.sequence();
    assert(s[0] == part || s[1] == part || s[2] == part);
}

} // verus!
