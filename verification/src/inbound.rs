//! The inbound pump: from lines of the connection to notices for the user.
//!
//! The pump decides; its driver does the input and output. The driver reads a
//! line from the connection, hands the pump what came of it, and does what the
//! pump answers: it prints a notice, or stops.

use crate::codec::{decode_reply, record_reply};
use crate::message::{InboundReply, Reply};
use crate::outcome::{Failure, Outcome};
use vstd::prelude::*;
use vstd::string::StringExecFns;

verus! {

/// What the driver of the pump reports.
#[derive(Debug, Clone, PartialEq, Eq)]
pub enum NetworkEvent {
    /// A line from the connection, with or without its line ending.
    Line(String),
    /// The connection has ended.
    Closed,
    /// The connection could not be read.
    ReceiveFailed,
}

/// What the pump asks of its driver.
#[derive(Debug, Clone, PartialEq, Eq)]
pub enum InboundAction {
    /// Show this notice to the user.
    Display(String),
    /// Stop: the pump has ended.
    Stop(Outcome),
}

/// The mathematical value of a [`NetworkEvent`].
pub enum Arrival {
    Line(Seq<char>),
    Closed,
    ReceiveFailed,
}

/// The mathematical value of an [`InboundAction`].
pub enum Showing {
    Display(Seq<char>),
    Stop(Outcome),
}

impl View for NetworkEvent {
    type V = Arrival;

    open spec fn view(&self) -> Arrival {
        match self {
            NetworkEvent::Line(line) => Arrival::Line(line@),
            NetworkEvent::Closed => Arrival::Closed,
            NetworkEvent::ReceiveFailed => Arrival::ReceiveFailed,
        }
    }
}

impl View for InboundAction {
    type V = Showing;

    open spec fn view(&self) -> Showing {
        match self {
            InboundAction::Display(notice) => Showing::Display(notice@),
            InboundAction::Stop(outcome) => Showing::Stop(*outcome),
        }
    }
}

/// The notice shown for a reply: a message with its group, or the error that
/// the server reports.
pub open spec fn notice(reply: Reply) -> Seq<char> {
    match reply {
        Reply::Message { group_name, message } => "message posted to "@ + group_name + ": "@
            + message,
        Reply::Error { detail } => "error from server: "@ + detail,
    }
}

/// Writes the notice for a reply.
pub fn render(reply: &InboundReply) -> (text: String)
    ensures
        text@ == notice(reply@),
{
    match reply {
        InboundReply::Message { group_name, message } => {
            let mut text = "message posted to ".to_owned();
            text.append(group_name.as_str());
            text.append(": ");
            text.append(message.as_str());
            text
        },
        InboundReply::Error { detail } => {
            let mut text = "error from server: ".to_owned();
            text.append(detail.as_str());
            text
        },
    }
}

/// Whether `part` stands somewhere in `whole`.
pub open spec fn mentions(whole: Seq<char>, part: Seq<char>) -> bool {
    exists|i: int| 0 <= i <= whole.len() - part.len() && #[trigger] whole.subrange(
        i,
        i + part.len(),
    ) == part
}

/// The notice for a message names its group and holds the message, and the
/// notice for an error holds what the server reported.
pub proof fn law_notice_mentions(reply: Reply)
    ensures
        match reply {
            Reply::Message { group_name, message } => mentions(notice(reply), group_name)
                && mentions(notice(reply), message),
            Reply::Error { detail } => mentions(notice(reply), detail),
        },
{
    let whole = notice(reply);
    match reply {
        Reply::Message { group_name, message } => {
            let i = "message posted to "@.len() as int;
            let j = i + group_name.len() + ": "@.len();
            assert(whole.subrange(i, i + group_name.len()) =~= group_name);
            assert(whole.subrange(j, j + message.len()) =~= message);
        },
        Reply::Error { detail } => {
            let i = "error from server: "@.len() as int;
            assert(whole.subrange(i, i + detail.len()) =~= detail);
        },
    }
}

/// What the pump answers to a line: the notice of the reply that the line
/// holds. A line that holds no reply ends the pump.
pub open spec fn answer(line: Seq<char>) -> (Option<Outcome>, Showing) {
    match record_reply(line) {
        Some(reply) => (None, Showing::Display(notice(reply))),
        None => (
            Some(Outcome::Failure(Failure::Decode)),
            Showing::Stop(Outcome::Failure(Failure::Decode)),
        ),
    }
}

/// One step of the pump: the state after the event, and the action asked for.
/// The state is the outcome once the pump has ended, and `None` while it runs.
pub open spec fn step(state: Option<Outcome>, event: Arrival) -> (Option<Outcome>, Showing) {
    match state {
        Some(outcome) => (state, Showing::Stop(outcome)),
        None => match event {
            Arrival::Line(line) => answer(line),
            Arrival::Closed => (Some(Outcome::Success), Showing::Stop(Outcome::Success)),
            Arrival::ReceiveFailed => (
                Some(Outcome::Failure(Failure::Receive)),
                Showing::Stop(Outcome::Failure(Failure::Receive)),
            ),
        },
    }
}

/// The inbound pump.
#[derive(Debug, Clone, Copy, PartialEq, Eq)]
pub struct InboundPump {
    pub outcome: Option<Outcome>,
}

impl InboundPump {
    /// A pump that runs.
    pub fn new() -> (pump: InboundPump)
        ensures
            pump.outcome is None,
    {
        InboundPump { outcome: None }
    }

    /// Takes what the driver reports and answers what to do next.
    pub fn on_event(&mut self, event: NetworkEvent) -> (action: InboundAction)
        ensures
            (final(self).outcome, action@) == step(old(self).outcome, event@),
    {
        match self.outcome {
            Some(outcome) => InboundAction::Stop(outcome),
            None => match event {
                NetworkEvent::Line(line) => match decode_reply(line.as_str()) {
                    Some(reply) => InboundAction::Display(render(&reply)),
                    None => self.stop(Outcome::Failure(Failure::Decode)),
                },
                NetworkEvent::Closed => self.stop(Outcome::Success),
                NetworkEvent::ReceiveFailed => self.stop(Outcome::Failure(Failure::Receive)),
            },
        }
    }

    fn stop(&mut self, outcome: Outcome) -> (action: InboundAction)
        ensures
            final(self).outcome == Some(outcome),
            action@ == Showing::Stop(outcome),
    {
        self.outcome = Some(outcome);
        InboundAction::Stop(outcome)
    }
}

/// The notices that the pump has its driver show, in order, over a run of
/// events that starts in `state`.
pub open spec fn shown(state: Option<Outcome>, events: Seq<Arrival>) -> Seq<Seq<char>>
    decreases events.len(),
{
    if events.len() == 0 {
        Seq::empty()
    } else {
        let (next, action) = step(state, events[0]);
        let rest = shown(next, events.drop_first());
        match action {
            Showing::Display(text) => seq![text] + rest,
            _ => rest,
        }
    }
}

/// While every line holds a reply, the pump shows one notice for each line,
/// in the order in which the lines arrived.
pub proof fn law_shown_in_order(events: Seq<Arrival>, i: int)
    requires
        0 <= i < events.len(),
        forall|k: int|
            0 <= k <= i ==> (#[trigger] events[k] is Line) && record_reply(events[k]->Line_0)
                is Some,
    ensures
        i < shown(None, events).len(),
        shown(None, events)[i] == notice(record_reply(events[i]->Line_0)->0),
    decreases i,
{
    let tail = events.drop_first();
    assert(events[0] is Line);
    if i > 0 {
        assert forall|k: int| 0 <= k <= i - 1 implies (#[trigger] tail[k] is Line) && record_reply(
            tail[k]->Line_0,
        ) is Some by {
            assert(tail[k] == events[k + 1]);
        }
        assert(tail[i - 1] == events[i]);
        law_shown_in_order(tail, i - 1);
    }
}

/// A pump that has ended stays as it ended and shows nothing more.
pub proof fn law_ended_pump_is_silent(outcome: Outcome, events: Seq<Arrival>)
    ensures
        shown(Some(outcome), events) == Seq::<Seq<char>>::empty(),
    decreases events.len(),
{
    if events.len() > 0 {
        law_ended_pump_is_silent(outcome, events.drop_first());
    }
}

} // verus!
