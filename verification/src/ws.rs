//! Commands over the realtime websocket.
//!
//! A command goes through the phases of an [`Exchange`]. The phase says what has to be
//! done next, and what came of it is handed back as an [`Event`], which leads to the
//! next phase.
use vstd::prelude::*;

use crate::json::{text_member, without_members, Json, JsonObject, JsonView};
use crate::reply::{ToolError, ToolErrorView};
use crate::text::same_text;

verus! {

/// How many seconds to wait for the websocket to connect.
pub const WS_CONNECT_TIMEOUT: u64 = 15;

/// How many seconds to wait for a command to be acknowledged.
pub const WS_ACK_TIMEOUT: u64 = 12;

/// A command.
#[derive(Debug, PartialEq)]
pub struct WsCommand {
    /// What kind of command it is, e.g. `chat.v1.message.send`.
    pub kind: String,
    /// The reference by which the server names the command when it answers.
    pub ref_id: String,
    /// What the command is about.
    pub payload: Json,
}

/// What a command says.
pub struct CommandView {
    pub kind: Seq<char>,
    pub ref_id: Seq<char>,
    pub payload: JsonView,
}

impl View for WsCommand {
    type V = CommandView;

    open spec fn view(&self) -> CommandView {
        CommandView { kind: self.kind@, ref_id: self.ref_id@, payload: self.payload@ }
    }
}

/// Whether a character is a hexadecimal digit, in small letters.
pub open spec fn is_small_hex(c: char) -> bool {
    ('0' <= c && c <= '9') || ('a' <= c && c <= 'f')
}

/// Whether a text is a random UUID: groups of hexadecimal digits with hyphens between
/// them, where one digit is 4, which says that it is random, and another is one of 8, 9,
/// a and b.
pub open spec fn is_random_uuid(s: Seq<char>) -> bool {
    &&& s.len() == 36
    &&& s[14] == '4'
    &&& s[19] == '8' || s[19] == '9' || s[19] == 'a' || s[19] == 'b'
    &&& forall|i: int|
        0 <= i < 36 ==> if i == 8 || i == 13 || i == 18 || i == 23 {
            #[trigger] s[i] == '-'
        } else {
            is_small_hex(s[i])
        }
}

/// `uuid::Uuid::new_v4`, displayed: a random UUID, about whose random digits nothing is
/// said. It panics where the operating system has no random numbers.
#[verifier::external_body]
fn new_ref_id() -> (r: String)
    ensures
        is_random_uuid(r@),
{
    uuid::Uuid::new_v4().to_string()
}

/// How far a command has got.
#[derive(Debug, PartialEq)]
pub enum Phase {
    /// Whether there is a session has to be found out.
    Unsent,
    /// The websocket has to be opened, and looked at.
    Opening,
    /// The websocket is not connected yet: the next change of its state has to be
    /// awaited, for [`WS_CONNECT_TIMEOUT`] seconds in this phase.
    Connecting,
    /// The events have to be subscribed to, and then the command has to be sent.
    Sending,
    /// The next event has to be awaited, for [`WS_ACK_TIMEOUT`] seconds in this phase.
    AwaitingAck,
    /// Nothing is left to be done.
    Finished(Result<Json, ToolError>),
}

/// What a phase says.
pub enum PhaseView {
    Unsent,
    Opening,
    Connecting,
    Sending,
    AwaitingAck,
    Finished(Result<JsonView, ToolErrorView>),
}

impl View for Phase {
    type V = PhaseView;

    open spec fn view(&self) -> PhaseView {
        match self {
            Phase::Unsent => PhaseView::Unsent,
            Phase::Opening => PhaseView::Opening,
            Phase::Connecting => PhaseView::Connecting,
            Phase::Sending => PhaseView::Sending,
            Phase::AwaitingAck => PhaseView::AwaitingAck,
            Phase::Finished(Ok(answer)) => PhaseView::Finished(Ok(answer@)),
            Phase::Finished(Err(e)) => PhaseView::Finished(Err(e@)),
        }
    }
}

/// What came of the thing that had to be done.
#[derive(Debug, PartialEq)]
pub enum Event {
    /// Whether there is a session.
    Session(bool),
    /// Whether the websocket is connected.
    Connection(bool),
    /// The command was sent.
    Sent,
    /// The command could not be sent.
    SendFailed(String),
    /// The websocket brought an event with this payload.
    Received(Json),
    /// Some events were missed.
    Lagged,
    /// There is nothing more to be awaited.
    Closed,
    /// The time to wait is over.
    TimedOut,
}

/// What an event says.
pub enum EventView {
    Session(bool),
    Connection(bool),
    Sent,
    SendFailed(Seq<char>),
    Received(JsonView),
    Lagged,
    Closed,
    TimedOut,
}

impl View for Event {
    type V = EventView;

    open spec fn view(&self) -> EventView {
        match self {
            Event::Session(active) => EventView::Session(*active),
            Event::Connection(connected) => EventView::Connection(*connected),
            Event::Sent => EventView::Sent,
            Event::SendFailed(reason) => EventView::SendFailed(reason@),
            Event::Received(payload) => EventView::Received(payload@),
            Event::Lagged => EventView::Lagged,
            Event::Closed => EventView::Closed,
            Event::TimedOut => EventView::TimedOut,
        }
    }
}

/// Whether a payload acknowledges the command with the given reference.
pub open spec fn acknowledges(payload: JsonView, ref_id: Seq<char>) -> bool {
    text_member(payload, "ref"@) == Some(ref_id)
}

/// The answer to a command that was sent and not acknowledged: that does not
/// necessarily mean failure.
pub open spec fn unacknowledged() -> JsonView {
    JsonView::Object(
        without_members().insert("acked"@, JsonView::Bool(false)).insert(
            "note"@,
            JsonView::Str(
                "command dispatched but no ack within 12s; verify with grindr_get_messages"@,
            ),
        ),
    )
}

/// The phase in which a command is given up.
pub open spec fn failed(reason: Seq<char>) -> PhaseView {
    PhaseView::Finished(Err(ToolErrorView::Internal(reason)))
}

/// The phase that an event leads to. An event that does not fit the phase changes
/// nothing.
pub open spec fn next_phase(phase: PhaseView, event: EventView, ref_id: Seq<char>) -> PhaseView {
    match (phase, event) {
        (PhaseView::Unsent, EventView::Session(true)) => PhaseView::Opening,
        (PhaseView::Unsent, EventView::Session(false)) => failed("not logged in"@),
        (PhaseView::Opening, EventView::Connection(true)) => PhaseView::Sending,
        (PhaseView::Opening, EventView::Connection(false)) => PhaseView::Connecting,
        (PhaseView::Connecting, EventView::Connection(true)) => PhaseView::Sending,
        (PhaseView::Connecting, EventView::Closed) => failed("websocket closed before connecting"@),
        (PhaseView::Connecting, EventView::TimedOut) => failed(
            "websocket did not connect within 15s"@,
        ),
        (PhaseView::Sending, EventView::Sent) => PhaseView::AwaitingAck,
        (PhaseView::Sending, EventView::SendFailed(reason)) => failed(
            "websocket send failed: "@ + reason,
        ),
        (PhaseView::AwaitingAck, EventView::Received(payload)) => if acknowledges(payload, ref_id) {
            PhaseView::Finished(Ok(payload))
        } else {
            PhaseView::AwaitingAck
        },
        (PhaseView::AwaitingAck, EventView::Closed) => failed(
            "websocket closed before the command was acked"@,
        ),
        (PhaseView::AwaitingAck, EventView::TimedOut) => PhaseView::Finished(Ok(unacknowledged())),
        _ => phase,
    }
}

/// A command on its way.
#[derive(Debug, PartialEq)]
pub struct Exchange {
    pub command: WsCommand,
    pub phase: Phase,
}

fn give_up(reason: &str) -> (r: Phase)
    ensures
        r@ == failed(reason@),
{
    Phase::Finished(Err(ToolError::Internal(reason.to_owned())))
}

fn no_ack() -> (r: Json)
    ensures
        r@ == unacknowledged(),
{
    let mut out = JsonObject::new();
    out.insert("acked".to_owned(), Json::Bool(false));
    out.insert(
        "note".to_owned(),
        Json::Str(
            "command dispatched but no ack within 12s; verify with grindr_get_messages".to_owned(),
        ),
    );
    Json::Object(out)
}

/// Whether a payload acknowledges the command with the given reference.
pub fn is_ack(payload: &Json, ref_id: &str) -> (r: bool)
    ensures
        r == acknowledges(payload@, ref_id@),
{
    match payload.text("ref") {
        Some(named) => same_text(named, ref_id),
        None => false,
    }
}

impl Exchange {
    /// A command that is still to be sent, with the given reference.
    pub fn with_ref_id(kind: &str, ref_id: String, payload: Json) -> (r: Exchange)
        ensures
            r.command@ == (CommandView { kind: kind@, ref_id: ref_id@, payload: payload@ }),
            r.phase@ == PhaseView::Unsent,
    {
        Exchange {
            command: WsCommand { kind: kind.to_owned(), ref_id, payload },
            phase: Phase::Unsent,
        }
    }

    /// A command that is still to be sent, with a reference of its own.
    pub fn new(kind: &str, payload: Json) -> (r: Exchange)
        ensures
            r.command@.kind == kind@,
            r.command@.payload == payload@,
            is_random_uuid(r.command@.ref_id),
            r.phase@ == PhaseView::Unsent,
    {
        Exchange::with_ref_id(kind, new_ref_id(), payload)
    }

    /// Goes on to the phase that an event leads to.
    pub fn on_event(&mut self, event: Event)
        ensures
            final(self).command@ == old(self).command@,
            final(self).phase@ == next_phase(old(self).phase@, event@, old(self).command@.ref_id),
    {
        let phase = match (&self.phase, event) {
            (Phase::Unsent, Event::Session(active)) => if active {
                Phase::Opening
            } else {
                give_up("not logged in")
            },
            (Phase::Opening, Event::Connection(connected)) => if connected {
                Phase::Sending
            } else {
                Phase::Connecting
            },
            (Phase::Connecting, Event::Connection(connected)) => if connected {
                Phase::Sending
            } else {
                return ;
            },
            (Phase::Connecting, Event::Closed) => give_up("websocket closed before connecting"),
            (Phase::Connecting, Event::TimedOut) => give_up("websocket did not connect within 15s"),
            (Phase::Sending, Event::Sent) => Phase::AwaitingAck,
            (Phase::Sending, Event::SendFailed(reason)) => {
                let reason = "websocket send failed: ".to_owned().concat(reason.as_str());
                give_up(reason.as_str())
            },
            (Phase::AwaitingAck, Event::Received(payload)) => if is_ack(
                &payload,
                self.command.ref_id.as_str(),
            ) {
                Phase::Finished(Ok(payload))
            } else {
                return ;
            },
            (Phase::AwaitingAck, Event::Closed) => give_up(
                "websocket closed before the command was acked",
            ),
            (Phase::AwaitingAck, Event::TimedOut) => Phase::Finished(Ok(no_ack())),
            _ => {
                return ;
            },
        };
        self.phase = phase;
    }
}

/// The phase that a run of events leads to, one after the other.
pub open spec fn phase_after(
    phase: PhaseView,
    events: Seq<EventView>,
    ref_id: Seq<char>,
) -> PhaseView
    decreases events.len(),
{
    if events.len() == 0 {
        phase
    } else {
        next_phase(phase_after(phase, events.drop_last(), ref_id), events.last(), ref_id)
    }
}

/// How far along a phase is.
pub open spec fn progress(phase: PhaseView) -> int {
    match phase {
        PhaseView::Unsent => 0,
        PhaseView::Opening => 1,
        PhaseView::Connecting => 2,
        PhaseView::Sending => 3,
        PhaseView::AwaitingAck => 4,
        PhaseView::Finished(_) => 5,
    }
}

/// Phases are never gone back to: in particular, once a command was sent, or could not
/// be sent, it is never sent again.
pub proof fn phases_go_forward(phase: PhaseView, events: Seq<EventView>, ref_id: Seq<char>)
    ensures
        progress(phase) <= progress(phase_after(phase, events, ref_id)),
        phase_after(phase, events, ref_id) == phase || progress(phase) < progress(
            phase_after(phase, events, ref_id),
        ),
    decreases events.len(),
{
    if events.len() > 0 {
        phases_go_forward(phase, events.drop_last(), ref_id);
    }
}

/// The outcome of a command stays what it is, whatever happens after it.
pub proof fn an_outcome_is_final(
    outcome: Result<JsonView, ToolErrorView>,
    events: Seq<EventView>,
    ref_id: Seq<char>,
)
    ensures
        phase_after(PhaseView::Finished(outcome), events, ref_id) == PhaseView::Finished(outcome),
    decreases events.len(),
{
    if events.len() > 0 {
        an_outcome_is_final(outcome, events.drop_last(), ref_id);
    }
}

/// A command is sent only with a session, and only over a connected websocket.
pub proof fn nothing_is_sent_unconnected(events: Seq<EventView>, ref_id: Seq<char>)
    requires
        phase_after(PhaseView::Unsent, events, ref_id) is Sending,
    ensures
        exists|i: int, j: int|
            0 <= i < j < events.len() && events[i] == EventView::Session(true) && events[j]
                == EventView::Connection(true),
    decreases events.len(),
{
    if events.len() > 0 {
        let before = events.drop_last();
        if phase_after(PhaseView::Unsent, before, ref_id) is Sending {
            nothing_is_sent_unconnected(before, ref_id);
            let (i, j) = choose|i: int, j: int|
                0 <= i < j < before.len() && before[i] == EventView::Session(true) && before[j]
                    == EventView::Connection(true);
            assert(events[i] == EventView::Session(true) && events[j] == EventView::Connection(
                true,
            ));
        } else {
            opening_needs_a_session(before, ref_id);
            let i = choose|i: int| 0 <= i < before.len() && before[i] == EventView::Session(true);
            assert(events[i] == EventView::Session(true));
            assert(events[events.len() - 1] == EventView::Connection(true));
        }
    }
}

/// The websocket is opened only with a session.
proof fn opening_needs_a_session(events: Seq<EventView>, ref_id: Seq<char>)
    requires
        1 <= progress(phase_after(PhaseView::Unsent, events, ref_id)) <= 4,
    ensures
        exists|i: int| 0 <= i < events.len() && events[i] == EventView::Session(true),
    decreases events.len(),
{
    if events.len() > 0 {
        let before = events.drop_last();
        if phase_after(PhaseView::Unsent, before, ref_id) is Unsent {
            assert(events[events.len() - 1] == EventView::Session(true));
        } else {
            opening_needs_a_session(before, ref_id);
            let i = choose|i: int| 0 <= i < before.len() && before[i] == EventView::Session(true);
            assert(events[i] == EventView::Session(true));
        }
    }
}

/// An acknowledgement is awaited only after the command was sent.
proof fn awaiting_needs_sending(events: Seq<EventView>, ref_id: Seq<char>)
    requires
        phase_after(PhaseView::Unsent, events, ref_id) is AwaitingAck,
    ensures
        exists|i: int| 0 <= i < events.len() && events[i] is Sent,
    decreases events.len(),
{
    if events.len() > 0 {
        let before = events.drop_last();
        if phase_after(PhaseView::Unsent, before, ref_id) is AwaitingAck {
            awaiting_needs_sending(before, ref_id);
            let i = choose|i: int| 0 <= i < before.len() && before[i] is Sent;
            assert(events[i] is Sent);
        } else {
            assert(events[events.len() - 1] is Sent);
        }
    }
}

/// A command succeeds only after it was sent: either with the payload of a later event
/// that names its reference, or, where none came in time, with the note that says so.
pub proof fn success_is_an_ack_or_a_timeout(
    events: Seq<EventView>,
    ref_id: Seq<char>,
    answer: JsonView,
)
    requires
        phase_after(PhaseView::Unsent, events, ref_id) == PhaseView::Finished(Ok(answer)),
    ensures
        exists|i: int, j: int|
            0 <= i < j < events.len() && events[i] is Sent && (events[j] == EventView::Received(
                answer,
            ) && acknowledges(answer, ref_id) || events[j] is TimedOut && answer
                == unacknowledged()),
    decreases events.len(),
{
    if events.len() > 0 {
        let before = events.drop_last();
        if phase_after(PhaseView::Unsent, before, ref_id) is AwaitingAck {
            awaiting_needs_sending(before, ref_id);
            let i = choose|i: int| 0 <= i < before.len() && before[i] is Sent;
            let j = events.len() - 1;
            assert(events[i] is Sent);
            assert(events[j] == EventView::Received(answer) && acknowledges(answer, ref_id)
                || events[j] is TimedOut && answer == unacknowledged());
        } else {
            success_is_an_ack_or_a_timeout(before, ref_id, answer);
            let (i, j) = choose|i: int, j: int|
                0 <= i < j < before.len() && before[i] is Sent && (before[j]
                    == EventView::Received(answer) && acknowledges(answer, ref_id)
                    || before[j] is TimedOut && answer == unacknowledged());
            assert(events[i] is Sent);
            assert(events[j] == before[j]);
        }
    }
}

/// Events that answer other commands, or that were missed, do not end the wait for an
/// acknowledgement.
pub proof fn other_events_are_passed_over(events: Seq<EventView>, ref_id: Seq<char>)
    requires
        forall|i: int|
            0 <= i < events.len() ==> match #[trigger] events[i] {
                EventView::Received(payload) => !acknowledges(payload, ref_id),
                EventView::Lagged => true,
                _ => false,
            },
    ensures
        phase_after(PhaseView::AwaitingAck, events, ref_id) is AwaitingAck,
    decreases events.len(),
{
    if events.len() > 0 {
        other_events_are_passed_over(events.drop_last(), ref_id);
        assert(events.last() == events[events.len() - 1]);
    }
}

/// What becomes of a command, event by event. Without a session nothing is sent; with one the
/// websocket is opened; the command is sent when the websocket is connected and not before;
/// the answer is the first payload that names the command by its `ref`, or a note where none
/// comes in time; and every failure is told for what it is.
pub proof fn a_command_runs_its_course(event: EventView, ref_id: Seq<char>)
    ensures
        ({
            let next = next_phase(PhaseView::Unsent, event, ref_id);
            &&& event == EventView::Session(true) ==> next == PhaseView::Opening
            &&& event == EventView::Session(false) ==> next == PhaseView::Finished(
                Err(ToolErrorView::Internal("not logged in"@)),
            )
            &&& !(event is Session) ==> next == PhaseView::Unsent
        }),
        ({
            let next = next_phase(PhaseView::Opening, event, ref_id);
            &&& event == EventView::Connection(true) ==> next == PhaseView::Sending
            &&& event == EventView::Connection(false) ==> next == PhaseView::Connecting
            &&& !(event is Connection) ==> next == PhaseView::Opening
        }),
        ({
            let next = next_phase(PhaseView::Connecting, event, ref_id);
            &&& event == EventView::Connection(true) ==> next == PhaseView::Sending
            &&& event is Closed ==> next == PhaseView::Finished(
                Err(ToolErrorView::Internal("websocket closed before connecting"@)),
            )
            &&& event is TimedOut ==> next == PhaseView::Finished(
                Err(ToolErrorView::Internal("websocket did not connect within 15s"@)),
            )
            &&& event != EventView::Connection(true) && !(event is Closed) && !(event is TimedOut)
                ==> next == PhaseView::Connecting
        }),
        ({
            let next = next_phase(PhaseView::Sending, event, ref_id);
            &&& event is Sent ==> next == PhaseView::AwaitingAck
            &&& event matches EventView::SendFailed(reason) ==> next == PhaseView::Finished(
                Err(ToolErrorView::Internal("websocket send failed: "@ + reason)),
            )
            &&& !(event is Sent) && !(event is SendFailed) ==> next == PhaseView::Sending
        }),
        ({
            let next = next_phase(PhaseView::AwaitingAck, event, ref_id);
            let named = |payload: JsonView|
                payload is Object && payload->Object_0.dom().contains("ref"@)
                    && payload->Object_0["ref"@] == JsonView::Str(ref_id);
            &&& event matches EventView::Received(payload) ==> (named(payload) ==> next
                == PhaseView::Finished(Ok(payload)))
            &&& event matches EventView::Received(payload) ==> (!named(payload) ==> next
                == PhaseView::AwaitingAck)
            &&& event is Closed ==> next == PhaseView::Finished(
                Err(ToolErrorView::Internal("websocket closed before the command was acked"@)),
            )
            &&& event is TimedOut ==> ({
                &&& next matches PhaseView::Finished(Ok(JsonView::Object(note)))
                &&& note.dom() =~= set!["acked"@, "note"@]
                &&& note["acked"@] == JsonView::Bool(false)
                &&& note["note"@] == JsonView::Str(
                    "command dispatched but no ack within 12s; verify with grindr_get_messages"@,
                )
            })
            &&& !(event is Received) && !(event is Closed) && !(event is TimedOut) ==> next
                == PhaseView::AwaitingAck
        }),
{
    reveal_strlit("acked");
    reveal_strlit("note");
    assert("acked"@.len() == 5);
    assert("note"@.len() == 4);
}

/// The times that are allowed are those that the messages tell, in seconds.
pub proof fn the_times_are_told()
    ensures
        WS_CONNECT_TIMEOUT == 15,
        WS_ACK_TIMEOUT == 12,
{
}

/// A payload is an answer exactly where it names the command, and a new command is not sent
/// yet and has the kind, the reference and the payload that are given.
pub proof fn exchanges_are_told(
    kind: &str,
    payload: &Json,
    ref_id: &str,
    truth: bool,
    named: String,
    given: Json,
    r: Exchange,
)
    ensures
        call_ensures(is_ack, (payload, ref_id), truth) ==> truth == (payload@ is Object
            && payload@->Object_0.dom().contains("ref"@) && payload@->Object_0["ref"@]
            == JsonView::Str(ref_id@)),
        call_ensures(Exchange::with_ref_id, (kind, named, given), r) ==> r.command.kind@ == kind@
            && r.command.ref_id@ == named@ && r.command.payload@ == given@ && r.phase@
            == PhaseView::Unsent,
        call_ensures(Exchange::new, (kind, given), r) ==> r.command.kind@ == kind@
            && r.command.payload@ == given@ && r.phase@ == PhaseView::Unsent
            && r.command.ref_id@.len() == 36,
{
}

/// An event leads to the next phase, and leaves the command as it is.
pub proof fn an_event_leads_on(exchange: &mut Exchange, event: Event)
    requires
        call_ensures(Exchange::on_event, (exchange, event), ()),
    ensures
        final(exchange).command@ == old(exchange).command@,
        final(exchange).phase@ == next_phase(
            old(exchange).phase@,
            event@,
            old(exchange).command@.ref_id,
        ),
{
}

}
