//! The per-consumer session: a duplex loop that echoes the consumer's
//! control traffic and forwards published records, written as a state
//! machine. The runtime waits on both sources, hands over whichever event
//! came first, performs the returned action and reports how delivery went.

use vstd::prelude::*;
use crate::fanout::Broadcaster;
use crate::message::CanMessage;

verus! {

/// The reason a consumer gave for closing its link.
#[derive(Debug, PartialEq, Eq)]
pub struct CloseReason {
    pub code: u16,
    pub description: Option<String>,
}

/// A frame received from the consumer.
#[derive(Debug, PartialEq, Eq)]
pub enum ClientFrame {
    /// Text payload, echoed back.
    Text(String),
    /// Binary payload, echoed back.
    Binary(Vec<u8>),
    /// Liveness probe, answered with the same bytes.
    Ping(Vec<u8>),
    /// Request to end the session.
    Close(Option<CloseReason>),
    /// Any other frame; it is ignored.
    Other,
}

/// Something that happened to a session.
#[derive(Debug, PartialEq, Eq)]
pub enum SessionEvent {
    /// The consumer sent a frame.
    Inbound(ClientFrame),
    /// The subscription yielded a record, already encoded for the
    /// transport; `None` when it could not be encoded.
    Published(Option<String>),
    /// The last action reached the consumer.
    Delivered,
    /// The last action could not be delivered.
    DeliveryFailed,
    /// Neither source can produce another event.
    SourcesClosed,
}

/// What the runtime has to do next.
#[derive(Debug, PartialEq, Eq)]
pub enum SessionAction {
    /// Send a text frame, then report delivery.
    SendText(String),
    /// Send a binary frame, then report delivery.
    SendBinary(Vec<u8>),
    /// Answer a ping, then report delivery.
    SendPong(Vec<u8>),
    /// Acknowledge the close request, then report delivery.
    SendClose(Option<CloseReason>),
    /// Nothing to send: wait for the next event.
    Wait,
    /// Leave the loop and release the subscription.
    Stop,
}

/// Where a session stands.
#[derive(Clone, Copy, Debug, PartialEq, Eq, Structural)]
pub enum SessionState {
    /// Serving both sources.
    Active,
    /// A close request was acknowledged; the session ends with the next event.
    Closing,
    /// The session is over.
    Terminated,
}

/// The state that follows `state` on `event`.
pub open spec fn next_state(state: SessionState, event: SessionEvent) -> SessionState {
    match state {
        SessionState::Active => match event {
            SessionEvent::Inbound(ClientFrame::Close(_)) => SessionState::Closing,
            SessionEvent::DeliveryFailed | SessionEvent::SourcesClosed => SessionState::Terminated,
            _ => SessionState::Active,
        },
        SessionState::Closing | SessionState::Terminated => SessionState::Terminated,
    }
}

/// The action that `event` calls for in `state`.
pub open spec fn action_for(state: SessionState, event: SessionEvent) -> SessionAction {
    match state {
        SessionState::Active => match event {
            SessionEvent::Inbound(ClientFrame::Text(text)) => SessionAction::SendText(text),
            SessionEvent::Inbound(ClientFrame::Binary(bytes)) => SessionAction::SendBinary(bytes),
            SessionEvent::Inbound(ClientFrame::Ping(bytes)) => SessionAction::SendPong(bytes),
            SessionEvent::Inbound(ClientFrame::Close(reason)) => SessionAction::SendClose(reason),
            SessionEvent::Inbound(ClientFrame::Other) => SessionAction::Wait,
            SessionEvent::Published(Some(text)) => SessionAction::SendText(text),
            SessionEvent::Published(None) => SessionAction::Wait,
            SessionEvent::Delivered => SessionAction::Wait,
            SessionEvent::DeliveryFailed | SessionEvent::SourcesClosed => SessionAction::Stop,
        },
        SessionState::Closing | SessionState::Terminated => SessionAction::Stop,
    }
}

/// Whether `action` sends something to the consumer.
pub open spec fn is_send(action: SessionAction) -> bool {
    !(action is Wait) && !(action is Stop)
}

/// The state a session starts in.
pub fn session_start() -> (s: SessionState)
    ensures
        s == SessionState::Active,
{
    SessionState::Active
}

/// One step of the session: the next state and the action to perform.
///
/// An active session echoes text and binary frames, answers a ping with the
/// same bytes, forwards an encoded record as text, acknowledges a close
/// request and ignores everything else. It ends when delivery fails, when
/// both sources are closed, or with the first event after a close request
/// was acknowledged. A payload is handed on untouched.
pub fn session_step(state: SessionState, event: SessionEvent) -> (r: (SessionState, SessionAction))
    ensures
        r.0 == next_state(state, event),
        r.1 == action_for(state, event),
        r.1 is Stop <==> r.0 == SessionState::Terminated,
{
    match state {
        SessionState::Active => match event {
            SessionEvent::Inbound(frame) => match frame {
                ClientFrame::Text(text) => (SessionState::Active, SessionAction::SendText(text)),
                ClientFrame::Binary(bytes) => (
                    SessionState::Active,
                    SessionAction::SendBinary(bytes),
                ),
                ClientFrame::Ping(bytes) => (SessionState::Active, SessionAction::SendPong(bytes)),
                ClientFrame::Close(reason) => (
                    SessionState::Closing,
                    SessionAction::SendClose(reason),
                ),
                ClientFrame::Other => (SessionState::Active, SessionAction::Wait),
            },
            SessionEvent::Published(encoded) => match encoded {
                Some(text) => (SessionState::Active, SessionAction::SendText(text)),
                None => (SessionState::Active, SessionAction::Wait),
            },
            SessionEvent::Delivered => (SessionState::Active, SessionAction::Wait),
            SessionEvent::DeliveryFailed => (SessionState::Terminated, SessionAction::Stop),
            SessionEvent::SourcesClosed => (SessionState::Terminated, SessionAction::Stop),
        },
        SessionState::Closing => (SessionState::Terminated, SessionAction::Stop),
        SessionState::Terminated => (SessionState::Terminated, SessionAction::Stop),
    }
}

/// One consumer's session: its place in the state machine and the
/// subscription it holds for as long as it has not ended.
#[derive(Debug)]
pub struct Session {
    handle: u64,
    state: SessionState,
}

impl Session {
    /// The handle of the session's subscription.
    pub closed spec fn handle_spec(&self) -> u64 {
        self.handle
    }

    /// Where the session stands.
    pub closed spec fn state_spec(&self) -> SessionState {
        self.state
    }

    /// Begins a session on `hub`: it subscribes and starts out active.
    /// Where no subscription can be had there is no session, and the
    /// broadcaster is as it was.
    pub fn attach(hub: &mut Broadcaster) -> (r: Option<Session>)
        ensures
            final(hub).capacity_spec() == old(hub).capacity_spec(),
            match r {
                Some(session) => {
                    &&& old(hub).issued_spec() < u64::MAX
                    &&& session.state_spec() == SessionState::Active
                    &&& session.handle_spec() == old(hub).issued_spec()
                    &&& !old(hub)@.dom().contains(session.handle_spec())
                    &&& final(hub)@ == old(hub)@.insert(session.handle_spec(), Seq::empty())
                    &&& final(hub).issued_spec() == old(hub).issued_spec() + 1
                },
                None => {
                    &&& old(hub).issued_spec() == u64::MAX
                    &&& final(hub)@ == old(hub)@
                    &&& final(hub).issued_spec() == old(hub).issued_spec()
                },
            },
    {
        match hub.subscribe() {
            Some(handle) => Some(Session { handle, state: SessionState::Active }),
            None => None,
        }
    }

    /// The handle of the session's subscription.
    pub fn handle(&self) -> (h: u64)
        ensures
            h == self.handle_spec(),
    {
        self.handle
    }

    /// Where the session stands.
    pub fn state(&self) -> (s: SessionState)
        ensures
            s == self.state_spec(),
    {
        self.state
    }

    /// Takes the oldest record that waits for this session, if any.
    pub fn next_record(&self, hub: &mut Broadcaster) -> (r: Option<CanMessage>)
        ensures
            final(hub).capacity_spec() == old(hub).capacity_spec(),
            final(hub).issued_spec() == old(hub).issued_spec(),
            match r {
                Some(record) => {
                    &&& old(hub)@.dom().contains(self.handle_spec())
                    &&& old(hub)@[self.handle_spec()].len() > 0
                    &&& record@ == old(hub)@[self.handle_spec()][0]
                    &&& final(hub)@ == old(hub)@.insert(
                        self.handle_spec(),
                        old(hub)@[self.handle_spec()].skip(1),
                    )
                },
                None => {
                    &&& !old(hub)@.dom().contains(self.handle_spec()) || old(
                        hub,
                    )@[self.handle_spec()].len() == 0
                    &&& final(hub)@ == old(hub)@
                },
            },
    {
        hub.receive(self.handle)
    }

    /// Takes one step on `event` and says what to do. The step that ends
    /// the session releases its subscription, and whatever was queued for
    /// it is gone; any other step leaves the broadcaster alone.
    pub fn on_event(&mut self, hub: &mut Broadcaster, event: SessionEvent) -> (action:
        SessionAction)
        ensures
            final(self).handle_spec() == old(self).handle_spec(),
            final(self).state_spec() == next_state(old(self).state_spec(), event),
            action == action_for(old(self).state_spec(), event),
            action is Stop <==> final(self).state_spec() == SessionState::Terminated,
            final(self).state_spec() == SessionState::Terminated ==> !final(hub)@.dom().contains(
                old(self).handle_spec(),
            ),
            final(hub).capacity_spec() == old(hub).capacity_spec(),
            final(hub).issued_spec() == old(hub).issued_spec(),
            final(hub)@ == if final(self).state_spec() == SessionState::Terminated {
                old(hub)@.remove(old(self).handle_spec())
            } else {
                old(hub)@
            },
    {
        let (next, action) = session_step(self.state, event);
        self.state = next;
        match next {
            SessionState::Terminated => {
                let _ = hub.unsubscribe(self.handle);
            },
            _ => {},
        }
        action
    }
}

/// The state reached from `state` after the events of `events`, in order.
pub open spec fn state_after(state: SessionState, events: Seq<SessionEvent>) -> SessionState
    decreases events.len(),
{
    if events.len() == 0 {
        state
    } else {
        next_state(state_after(state, events.drop_last()), events.last())
    }
}

/// A session that is over stays over, whatever happens next.
pub proof fn lemma_terminated_is_final(events: Seq<SessionEvent>)
    ensures
        state_after(SessionState::Terminated, events) == SessionState::Terminated,
    decreases events.len(),
{
    if events.len() > 0 {
        lemma_terminated_is_final(events.drop_last());
    }
}

/// A failed delivery ends the session in every state, and so does the
/// closing of both sources.
pub proof fn lemma_failure_terminates(state: SessionState, event: SessionEvent)
    requires
        event is DeliveryFailed || event is SourcesClosed,
    ensures
        next_state(state, event) == SessionState::Terminated,
        action_for(state, event) is Stop,
{
}

/// A close request is acknowledged with the consumer's own reason, and the
/// event that follows the acknowledgement ends the session.
pub proof fn lemma_close_terminates(reason: Option<CloseReason>, following: SessionEvent)
    ensures
        action_for(
            SessionState::Active,
            SessionEvent::Inbound(ClientFrame::Close(reason)),
        ) == SessionAction::SendClose(reason),
        next_state(
            next_state(SessionState::Active, SessionEvent::Inbound(ClientFrame::Close(reason))),
            following,
        ) == SessionState::Terminated,
{
}

/// Nothing is sent to the consumer once the session has left the active
/// state.
pub proof fn lemma_only_active_sends(state: SessionState, event: SessionEvent)
    requires
        is_send(action_for(state, event)),
    ensures
        state == SessionState::Active,
        event is Inbound || event is Published,
{
}

} // verus!
