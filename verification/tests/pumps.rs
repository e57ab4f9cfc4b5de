use chat_client::inbound::{render, InboundAction, InboundPump, NetworkEvent};
use chat_client::message::InboundReply;
use chat_client::outbound::{respond, InputEvent, OutboundAction, OutboundPump};
use chat_client::outcome::{exit_status, Failure, Outcome};
use chat_client::session::{Finish, Pump, Session};

fn line(text: &str) -> InputEvent {
    InputEvent::Line(text.to_string())
}

fn arrival(text: &str) -> NetworkEvent {
    NetworkEvent::Line(text.to_string())
}

#[test]
fn join_is_sent_and_the_pump_goes_on() {
    let mut pump = OutboundPump::new();
    assert_eq!(
        pump.on_event(line("join lobby")),
        OutboundAction::Send("{\"Join\":{\"group_name\":\"lobby\"}}\n".to_string())
    );
    assert_eq!(pump.outcome, None);
}

#[test]
fn post_is_sent_as_it_was_typed() {
    let mut pump = OutboundPump::new();
    assert_eq!(
        pump.on_event(line("post lobby hello world")),
        OutboundAction::Send(
            "{\"Post\":{\"group_name\":\"lobby\",\"message\":\"hello world\"}}\n".to_string()
        )
    );
    assert_eq!(pump.outcome, None);
}

#[test]
fn rejected_line_is_reported_and_the_next_line_is_taken() {
    let mut pump = OutboundPump::new();
    assert_eq!(
        pump.on_event(line("join lobby extra")),
        OutboundAction::Report(
            "unexpected text after the group name: join lobby extra".to_string()
        )
    );
    assert_eq!(pump.outcome, None);
    assert_eq!(
        pump.on_event(line("join lobby")),
        OutboundAction::Send("{\"Join\":{\"group_name\":\"lobby\"}}\n".to_string())
    );
}

#[test]
fn each_rejection_has_its_diagnostic() {
    assert_eq!(respond(""), OutboundAction::Report("no command: ".to_string()));
    assert_eq!(respond("  "), OutboundAction::Report("no command:   ".to_string()));
    assert_eq!(
        respond("leave lobby"),
        OutboundAction::Report("unknown command: leave lobby".to_string())
    );
    assert_eq!(respond("post"), OutboundAction::Report("missing group name: post".to_string()));
    assert_eq!(
        respond("join a b"),
        OutboundAction::Report("unexpected text after the group name: join a b".to_string())
    );
}

#[test]
fn requests_are_sent_in_the_order_of_their_lines() {
    let mut pump = OutboundPump::new();
    let mut sent: Vec<String> = Vec::new();
    for text in ["join a", "bogus", "post a one", "", "join b extra", "post b two", "join c"] {
        if let OutboundAction::Send(record) = pump.on_event(line(text)) {
            sent.push(record);
        }
    }
    assert_eq!(
        sent,
        vec![
            "{\"Join\":{\"group_name\":\"a\"}}\n".to_string(),
            "{\"Post\":{\"group_name\":\"a\",\"message\":\"one\"}}\n".to_string(),
            "{\"Post\":{\"group_name\":\"b\",\"message\":\"two\"}}\n".to_string(),
            "{\"Join\":{\"group_name\":\"c\"}}\n".to_string(),
        ]
    );
    assert_eq!(pump.outcome, None);
}

#[test]
fn end_of_input_ends_the_pump_with_success() {
    let mut pump = OutboundPump::new();
    pump.on_event(line("join lobby"));
    assert_eq!(pump.on_event(InputEvent::EndOfInput), OutboundAction::Stop(Outcome::Success));
    assert_eq!(pump.outcome, Some(Outcome::Success));
}

#[test]
fn failed_input_ends_the_pump_with_failure() {
    let mut pump = OutboundPump::new();
    assert_eq!(
        pump.on_event(InputEvent::InputFailed),
        OutboundAction::Stop(Outcome::Failure(Failure::Input))
    );
    assert_eq!(pump.outcome, Some(Outcome::Failure(Failure::Input)));
}

#[test]
fn failed_send_ends_the_pump_with_failure() {
    let mut pump = OutboundPump::new();
    pump.on_event(line("join lobby"));
    assert_eq!(
        pump.on_event(InputEvent::SendFailed),
        OutboundAction::Stop(Outcome::Failure(Failure::Send))
    );
    assert_eq!(pump.outcome, Some(Outcome::Failure(Failure::Send)));
}

#[test]
fn ended_outbound_pump_stays_ended() {
    let mut pump = OutboundPump::new();
    pump.on_event(InputEvent::SendFailed);
    let stop = OutboundAction::Stop(Outcome::Failure(Failure::Send));
    assert_eq!(pump.on_event(line("join lobby")), stop);
    assert_eq!(pump.on_event(InputEvent::EndOfInput), stop);
    assert_eq!(pump.on_event(InputEvent::InputFailed), stop);
    assert_eq!(pump.outcome, Some(Outcome::Failure(Failure::Send)));
}

#[test]
fn message_is_shown_and_the_pump_goes_on() {
    let mut pump = InboundPump::new();
    let action =
        pump.on_event(arrival("{\"Message\":{\"group_name\":\"lobby\",\"message\":\"hi\"}}"));
    match &action {
        InboundAction::Display(notice) => {
            assert!(notice.contains("lobby"));
            assert!(notice.contains("hi"));
        },
        InboundAction::Stop(_) => panic!("the pump stopped"),
    }
    assert_eq!(action, InboundAction::Display("message posted to lobby: hi".to_string()));
    assert_eq!(pump.outcome, None);
}

#[test]
fn server_error_is_shown_and_the_pump_goes_on() {
    let mut pump = InboundPump::new();
    assert_eq!(
        pump.on_event(arrival("{\"Error\":\"no such group\"}\n")),
        InboundAction::Display("error from server: no such group".to_string())
    );
    assert_eq!(pump.outcome, None);
    assert_eq!(
        pump.on_event(arrival("{\"Error\":\"again\"}")),
        InboundAction::Display("error from server: again".to_string())
    );
}

#[test]
fn notices_are_written_from_replies() {
    let reply = InboundReply::Message { group_name: "g".to_string(), message: "".to_string() };
    assert_eq!(render(&reply), "message posted to g: ".to_string());
    let reply = InboundReply::Error { detail: "\u{e9}\n".to_string() };
    assert_eq!(render(&reply), "error from server: \u{e9}\n".to_string());
}

#[test]
fn closed_connection_ends_the_pump_with_success() {
    let mut pump = InboundPump::new();
    assert_eq!(pump.on_event(NetworkEvent::Closed), InboundAction::Stop(Outcome::Success));
    assert_eq!(pump.outcome, Some(Outcome::Success));
}

#[test]
fn failed_read_ends_the_pump_with_failure() {
    let mut pump = InboundPump::new();
    pump.on_event(arrival("{\"Error\":\"x\"}"));
    assert_eq!(
        pump.on_event(NetworkEvent::ReceiveFailed),
        InboundAction::Stop(Outcome::Failure(Failure::Receive))
    );
    assert_eq!(pump.outcome, Some(Outcome::Failure(Failure::Receive)));
}

#[test]
fn malformed_record_ends_the_pump_with_failure() {
    let mut pump = InboundPump::new();
    assert_eq!(
        pump.on_event(arrival("{\"Message\":{\"group_name\":\"lobby\"}}")),
        InboundAction::Stop(Outcome::Failure(Failure::Decode))
    );
    assert_eq!(pump.outcome, Some(Outcome::Failure(Failure::Decode)));
}

#[test]
fn ended_inbound_pump_stays_ended() {
    let mut pump = InboundPump::new();
    pump.on_event(NetworkEvent::Closed);
    assert_eq!(pump.on_event(arrival("{\"Error\":\"x\"}")), InboundAction::Stop(Outcome::Success));
    assert_eq!(pump.on_event(NetworkEvent::ReceiveFailed), InboundAction::Stop(Outcome::Success));
    assert_eq!(pump.outcome, Some(Outcome::Success));
}

#[test]
fn session_takes_the_outcome_of_the_pump_that_ends_first() {
    let mut session = Session::new();
    assert!(!session.is_over());
    assert_eq!(session.finished(Pump::Outbound, Outcome::Success), Outcome::Success);
    assert!(session.is_over());
    assert_eq!(
        session.finished(Pump::Inbound, Outcome::Failure(Failure::Receive)),
        Outcome::Success
    );
    assert_eq!(session.first, Some(Finish { pump: Pump::Outbound, outcome: Outcome::Success }));
}

#[test]
fn session_fails_where_the_first_pump_failed() {
    let mut session = Session::new();
    let failure = Outcome::Failure(Failure::Receive);
    assert_eq!(session.finished(Pump::Inbound, failure), failure);
    assert_eq!(session.finished(Pump::Outbound, Outcome::Success), failure);
    assert_eq!(session.first, Some(Finish { pump: Pump::Inbound, outcome: failure }));
    assert_ne!(exit_status(failure), 0);
}

#[test]
fn exit_status_is_zero_for_success_alone() {
    assert_eq!(exit_status(Outcome::Success), 0);
    assert_eq!(exit_status(Outcome::Failure(Failure::Connect)), 1);
    assert_eq!(exit_status(Outcome::Failure(Failure::Input)), 1);
    assert_eq!(exit_status(Outcome::Failure(Failure::Send)), 1);
    assert_eq!(exit_status(Outcome::Failure(Failure::Receive)), 1);
    assert_eq!(exit_status(Outcome::Failure(Failure::Decode)), 1);
}

#[test]
fn session_needs_a_connection() {
    assert_eq!(Session::open(true), Ok(Session::new()));
    assert_eq!(Session::open(false), Err(Outcome::Failure(Failure::Connect)));
}
