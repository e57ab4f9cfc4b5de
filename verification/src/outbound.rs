//! The outbound pump: from lines of local input to requests on the
//! connection.
//!
//! The pump decides; its driver does the input and output. The driver reads a
//! line, hands the pump what came of it, and does what the pump answers: it
//! writes and flushes a line, prints a diagnostic, or stops. Where writing
//! fails, the driver says so and the pump stops.

use crate::codec::{encode_request, framed, request_record};
use crate::command::{
    command_of, ends_word, is_blank, is_word, join_word, law_unknown_command, post_word,
    read_command, Rejection,
};
use crate::outcome::{Failure, Outcome};
use vstd::prelude::*;
use vstd::string::StringExecFns;

verus! {

/// What the driver of the pump reports.
#[derive(Debug, Clone, PartialEq, Eq)]
pub enum InputEvent {
    /// A line of local input, without its line ending.
    Line(String),
    /// The local input has ended.
    EndOfInput,
    /// The local input could not be read.
    InputFailed,
    /// The line last handed out could not be written, or not flushed.
    SendFailed,
}

/// What the pump asks of its driver.
#[derive(Debug, Clone, PartialEq, Eq)]
pub enum OutboundAction {
    /// Write this line to the connection and flush.
    Send(String),
    /// Tell the user why the line was rejected.
    Report(String),
    /// Stop: the pump has ended.
    Stop(Outcome),
}

/// The mathematical value of an [`InputEvent`].
pub enum Input {
    Line(Seq<char>),
    EndOfInput,
    InputFailed,
    SendFailed,
}

/// The mathematical value of an [`OutboundAction`].
pub enum Output {
    Send(Seq<char>),
    Report(Seq<char>),
    Stop(Outcome),
}

impl View for InputEvent {
    type V = Input;

    open spec fn view(&self) -> Input {
        match self {
            InputEvent::Line(line) => Input::Line(line@),
            InputEvent::EndOfInput => Input::EndOfInput,
            InputEvent::InputFailed => Input::InputFailed,
            InputEvent::SendFailed => Input::SendFailed,
        }
    }
}

impl View for OutboundAction {
    type V = Output;

    open spec fn view(&self) -> Output {
        match self {
            OutboundAction::Send(line) => Output::Send(line@),
            OutboundAction::Report(text) => Output::Report(text@),
            OutboundAction::Stop(outcome) => Output::Stop(*outcome),
        }
    }
}

/// The reason given to the user for a rejection.
pub open spec fn reason(rejection: Rejection) -> Seq<char> {
    match rejection {
        Rejection::Blank => "no command"@,
        Rejection::UnknownCommand => "unknown command"@,
        Rejection::MissingGroup => "missing group name"@,
        Rejection::TrailingText => "unexpected text after the group name"@,
    }
}

/// The diagnostic for a rejected line: the reason, and the line as it was
/// typed.
pub open spec fn diagnostic(rejection: Rejection, line: Seq<char>) -> Seq<char> {
    reason(rejection) + ": "@ + line
}

/// What the pump answers to a line: the request's framed record to send, or
/// the diagnostic to report.
pub open spec fn answer(line: Seq<char>) -> Output {
    match command_of(line) {
        Ok(request) => Output::Send(framed(request_record(request))),
        Err(rejection) => Output::Report(diagnostic(rejection, line)),
    }
}

/// One step of the pump: the state after the event, and the action asked for.
/// The state is the outcome once the pump has ended, and `None` while it runs.
pub open spec fn step(state: Option<Outcome>, event: Input) -> (Option<Outcome>, Output) {
    match state {
        Some(outcome) => (state, Output::Stop(outcome)),
        None => match event {
            Input::Line(line) => (None, answer(line)),
            Input::EndOfInput => (Some(Outcome::Success), Output::Stop(Outcome::Success)),
            Input::InputFailed => (
                Some(Outcome::Failure(Failure::Input)),
                Output::Stop(Outcome::Failure(Failure::Input)),
            ),
            Input::SendFailed => (
                Some(Outcome::Failure(Failure::Send)),
                Output::Stop(Outcome::Failure(Failure::Send)),
            ),
        },
    }
}

/// The outbound pump.
#[derive(Debug, Clone, Copy, PartialEq, Eq)]
pub struct OutboundPump {
    pub outcome: Option<Outcome>,
}

impl OutboundPump {
    /// A pump that runs.
    pub fn new() -> (pump: OutboundPump)
        ensures
            pump.outcome is None,
    {
        OutboundPump { outcome: None }
    }

    /// Takes what the driver reports and answers what to do next.
    pub fn on_event(&mut self, event: InputEvent) -> (action: OutboundAction)
        ensures
            (final(self).outcome, action@) == step(old(self).outcome, event@),
    {
        match self.outcome {
            Some(outcome) => OutboundAction::Stop(outcome),
            None => match event {
                InputEvent::Line(line) => respond(line.as_str()),
                InputEvent::EndOfInput => self.stop(Outcome::Success),
                InputEvent::InputFailed => self.stop(Outcome::Failure(Failure::Input)),
                InputEvent::SendFailed => self.stop(Outcome::Failure(Failure::Send)),
            },
        }
    }

    fn stop(&mut self, outcome: Outcome) -> (action: OutboundAction)
        ensures
            final(self).outcome == Some(outcome),
            action@ == Output::Stop(outcome),
    {
        self.outcome = Some(outcome);
        OutboundAction::Stop(outcome)
    }
}

/// The text of [`reason`].
fn reason_text(rejection: Rejection) -> (text: &'static str)
    ensures
        text@ == reason(rejection),
{
    match rejection {
        Rejection::Blank => "no command",
        Rejection::UnknownCommand => "unknown command",
        Rejection::MissingGroup => "missing group name",
        Rejection::TrailingText => "unexpected text after the group name",
    }
}

/// What the pump answers to a line of input.
pub fn respond(line: &str) -> (action: OutboundAction)
    ensures
        action@ == answer(line@),
{
    match read_command(line) {
        Ok(request) => OutboundAction::Send(encode_request(&request)),
        Err(rejection) => {
            let mut text = reason_text(rejection).to_owned();
            text.append(": ");
            text.append(line);
            OutboundAction::Report(text)
        },
    }
}

/// An accepted line is sent as the framed record of its request, and the pump
/// goes on.
pub proof fn law_accepted_line_is_sent(line: Seq<char>)
    requires
        command_of(line) is Ok,
    ensures
        step(None, Input::Line(line)) == (
            None::<Outcome>,
            Output::Send(framed(request_record(command_of(line)->Ok_0))),
        ),
{
}

/// A rejected line is reported with its reason, nothing is sent for it, and
/// the pump goes on.
pub proof fn law_rejected_line_is_reported(line: Seq<char>)
    requires
        command_of(line) is Err,
    ensures
        step(None, Input::Line(line)) == (
            None::<Outcome>,
            Output::Report(diagnostic(command_of(line)->Err_0, line)),
        ),
        sent(None, seq![Input::Line(line)]) == Seq::<Seq<char>>::empty(),
{
    let events = seq![Input::Line(line)];
    assert(events[0] == Input::Line(line));
    assert(events.drop_first() =~= Seq::<Input>::empty());
    assert(sent(None, events.drop_first()) == Seq::<Seq<char>>::empty());
}

/// A line whose first word is neither `post` nor `join` is reported as an
/// unknown command, nothing is sent for it, and the pump goes on.
pub proof fn law_unknown_command_is_reported(lead: Seq<char>, word: Seq<char>, tail: Seq<char>)
    requires
        is_blank(lead),
        is_word(word),
        ends_word(tail),
        word != post_word(),
        word != join_word(),
    ensures
        step(None, Input::Line(lead + word + tail)) == (
            None::<Outcome>,
            Output::Report("unknown command"@ + ": "@ + (lead + word + tail)),
        ),
{
    law_unknown_command(lead, word, tail);
}

// ---------------------------------------------------------------- order

/// The lines that the pump has its driver send, in order, over a run of
/// events that starts in `state`.
pub open spec fn sent(state: Option<Outcome>, events: Seq<Input>) -> Seq<Seq<char>>
    decreases events.len(),
{
    if events.len() == 0 {
        Seq::empty()
    } else {
        let (next, action) = step(state, events[0]);
        let rest = sent(next, events.drop_first());
        match action {
            Output::Send(line) => seq![line] + rest,
            _ => rest,
        }
    }
}

/// Whether the event is a line that holds a command.
pub open spec fn accepted(event: Input) -> bool {
    match event {
        Input::Line(line) => command_of(line) is Ok,
        _ => false,
    }
}

/// The number of accepted lines among the first `n` events.
pub open spec fn accepted_before(events: Seq<Input>, n: int) -> nat
    decreases n,
{
    if n <= 0 {
        0
    } else {
        accepted_before(events, n - 1) + if accepted(events[n - 1]) {
            1nat
        } else {
            0nat
        }
    }
}

/// Counting accepted lines from the second event on.
proof fn lemma_accepted_before_tail(events: Seq<Input>, n: int)
    requires
        0 < n <= events.len(),
    ensures
        accepted_before(events, n) == accepted_before(events.drop_first(), n - 1) + if accepted(
            events[0],
        ) {
            1nat
        } else {
            0nat
        },
    decreases n,
{
    if n > 1 {
        lemma_accepted_before_tail(events, n - 1);
        assert(events.drop_first()[n - 2] == events[n - 1]);
    } else {
        assert(accepted_before(events, 0) == 0);
        assert(accepted_before(events.drop_first(), 0) == 0);
    }
}

/// The count of accepted lines does not fall as more events are counted.
proof fn lemma_accepted_before_grows(events: Seq<Input>, m: int, n: int)
    requires
        0 <= m <= n,
    ensures
        accepted_before(events, m) <= accepted_before(events, n),
    decreases n - m,
{
    if m < n {
        lemma_accepted_before_grows(events, m, n - 1);
    }
}

/// While only lines come in, an accepted line is sent as the framed record of
/// its request, after one sent line for each accepted line before it.
pub proof fn lemma_sent_at(events: Seq<Input>, i: int)
    requires
        0 <= i < events.len(),
        forall|k: int| 0 <= k <= i ==> #[trigger] events[k] is Line,
        accepted(events[i]),
    ensures
        accepted_before(events, i) < sent(None, events).len(),
        Output::Send(sent(None, events)[accepted_before(events, i) as int]) == answer(
            events[i]->Line_0,
        ),
    decreases i,
{
    let tail = events.drop_first();
    let (next, action) = step(None, events[0]);
    assert(events[0] is Line);
    assert(next is None);
    if i == 0 {
        assert(accepted_before(events, 0) == 0);
    } else {
        assert forall|k: int| 0 <= k <= i - 1 implies #[trigger] tail[k] is Line by {
            assert(tail[k] == events[k + 1]);
        }
        assert(tail[i - 1] == events[i]);
        lemma_sent_at(tail, i - 1);
        lemma_accepted_before_tail(events, i);
    }
}

/// Requests reach the connection in the order of their lines: of two accepted
/// lines, the earlier one's record is sent before the later one's, whatever
/// lines lie between them and whatever events follow.
pub proof fn law_order_kept(events: Seq<Input>, i: int, j: int)
    requires
        0 <= i < j < events.len(),
        forall|k: int| 0 <= k <= j ==> #[trigger] events[k] is Line,
        accepted(events[i]),
        accepted(events[j]),
    ensures
        ({
            let lines = sent(None, events);
            let p = accepted_before(events, i) as int;
            let q = accepted_before(events, j) as int;
            &&& 0 <= p < q < lines.len()
            &&& Output::Send(lines[p]) == answer(events[i]->Line_0)
            &&& Output::Send(lines[q]) == answer(events[j]->Line_0)
        }),
{
    lemma_sent_at(events, i);
    lemma_sent_at(events, j);
    lemma_accepted_before_grows(events, i + 1, j);
    assert(accepted_before(events, i + 1) == accepted_before(events, i) + 1);
}

/// A pump that has ended stays as it ended and sends nothing more.
pub proof fn law_ended_pump_is_silent(outcome: Outcome, events: Seq<Input>)
    ensures
        sent(Some(outcome), events) == Seq::<Seq<char>>::empty(),
    decreases events.len(),
{
    if events.len() > 0 {
        law_ended_pump_is_silent(outcome, events.drop_first());
    }
}

} // verus!
