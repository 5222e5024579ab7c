use grindr_mcp::json::Json;
use grindr_mcp::reply::ToolError;
use grindr_mcp::ws::{is_ack, Event, Exchange, Phase, WS_ACK_TIMEOUT, WS_CONNECT_TIMEOUT};

fn json(text: &str) -> Json {
    Json::parse(text.as_bytes()).unwrap()
}

fn start() -> Exchange {
    Exchange::with_ref_id("chat.v1.message.send", "r-1".to_owned(), json("{}"))
}

fn after(events: Vec<Event>) -> Phase {
    let mut exchange = start();
    for event in events {
        exchange.on_event(event);
    }
    assert_eq!(exchange.command.kind, "chat.v1.message.send");
    assert_eq!(exchange.command.ref_id, "r-1");
    assert_eq!(exchange.command.payload, json("{}"));
    exchange.phase
}

fn failed(reason: &str) -> Phase {
    Phase::Finished(Err(ToolError::Internal(reason.to_owned())))
}

fn sent() -> Vec<Event> {
    vec![Event::Session(true), Event::Connection(true), Event::Sent]
}

#[test]
fn nothing_is_done_without_a_session() {
    assert_eq!(after(vec![]), Phase::Unsent);
    assert_eq!(after(vec![Event::Session(false)]), failed("not logged in"));
    assert_eq!(after(vec![Event::Session(true)]), Phase::Opening);
}

#[test]
fn a_connected_websocket_is_used_at_once() {
    assert_eq!(after(vec![Event::Session(true), Event::Connection(true)]), Phase::Sending);
}

#[test]
fn a_connection_is_awaited() {
    let waiting = || vec![Event::Session(true), Event::Connection(false)];
    assert_eq!(after(waiting()), Phase::Connecting);
    let mut events = waiting();
    events.push(Event::Connection(false));
    assert_eq!(after(events), Phase::Connecting);
    let mut events = waiting();
    events.push(Event::Connection(true));
    assert_eq!(after(events), Phase::Sending);
    let mut events = waiting();
    events.push(Event::Closed);
    assert_eq!(after(events), failed("websocket closed before connecting"));
    let mut events = waiting();
    events.push(Event::TimedOut);
    assert_eq!(after(events), failed("websocket did not connect within 15s"));
}

#[test]
fn a_command_that_cannot_be_sent_fails() {
    assert_eq!(
        after(vec![
            Event::Session(true),
            Event::Connection(true),
            Event::SendFailed("channel closed".to_owned())
        ]),
        failed("websocket send failed: channel closed")
    );
}

#[test]
fn the_matching_event_is_the_answer() {
    let mut events = sent();
    events.push(Event::Received(json(r#"{"ref": "r-2"}"#)));
    events.push(Event::Lagged);
    events.push(Event::Received(json(r#"{"ref": 1}"#)));
    events.push(Event::Received(json(r#"{"ref": "r-1", "ok": true}"#)));
    assert_eq!(after(events), Phase::Finished(Ok(json(r#"{"ref": "r-1", "ok": true}"#))));
}

#[test]
fn other_events_are_no_answer() {
    let mut events = sent();
    events.push(Event::Received(json(r#"{"ref": "R-1"}"#)));
    events.push(Event::Received(json(r#"["r-1"]"#)));
    events.push(Event::Lagged);
    assert_eq!(after(events), Phase::AwaitingAck);
}

#[test]
fn a_missing_answer_is_told() {
    let mut events = sent();
    events.push(Event::TimedOut);
    assert_eq!(
        after(events),
        Phase::Finished(Ok(json(
            r#"{"acked": false,
                "note": "command dispatched but no ack within 12s; verify with grindr_get_messages"}"#
        )))
    );
}

#[test]
fn a_closed_websocket_ends_the_wait() {
    let mut events = sent();
    events.push(Event::Closed);
    assert_eq!(after(events), failed("websocket closed before the command was acked"));
}

#[test]
fn an_outcome_stays() {
    let mut events = sent();
    events.push(Event::Closed);
    events.push(Event::Received(json(r#"{"ref": "r-1"}"#)));
    events.push(Event::Session(true));
    events.push(Event::TimedOut);
    assert_eq!(after(events), failed("websocket closed before the command was acked"));
}

#[test]
fn events_that_do_not_fit_change_nothing() {
    assert_eq!(after(vec![Event::Sent, Event::Connection(true), Event::TimedOut]), Phase::Unsent);
    assert_eq!(
        after(vec![Event::Session(true), Event::TimedOut, Event::Sent]),
        Phase::Opening
    );
    assert_eq!(
        after(vec![Event::Session(true), Event::Connection(true), Event::Connection(false)]),
        Phase::Sending
    );
}

#[test]
fn acknowledgements_name_the_command() {
    assert!(is_ack(&json(r#"{"ref": "x"}"#), "x"));
    assert!(!is_ack(&json(r#"{"ref": "x"}"#), "y"));
    assert!(!is_ack(&json(r#"{"ref": null}"#), "x"));
    assert!(!is_ack(&json(r#""x""#), "x"));
}

#[test]
fn every_command_has_a_reference_of_its_own() {
    let first = Exchange::new("k", Json::Null);
    let second = Exchange::new("k", Json::Null);
    assert_ne!(first.command.ref_id, second.command.ref_id);
    assert_eq!(first.phase, Phase::Unsent);
    assert_eq!(first.command.kind, "k");
    for (i, c) in first.command.ref_id.chars().enumerate() {
        match i {
            8 | 13 | 18 | 23 => assert_eq!(c, '-'),
            14 => assert_eq!(c, '4'),
            19 => assert!("89ab".contains(c)),
            _ => assert!(c.is_ascii_digit() || ('a'..='f').contains(&c)),
        }
    }
    assert_eq!(first.command.ref_id.len(), 36);
}

#[test]
fn the_times_to_wait() {
    assert_eq!(WS_CONNECT_TIMEOUT, 15);
    assert_eq!(WS_ACK_TIMEOUT, 12);
}
