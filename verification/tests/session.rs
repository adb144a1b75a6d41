use can_via_pi::session::{
    session_start, session_step, ClientFrame, CloseReason, SessionAction, SessionEvent,
    SessionState,
};

#[test]
fn session_starts_active() {
    assert_eq!(session_start(), SessionState::Active);
}

#[test]
fn text_is_echoed() {
    let (s, a) = session_step(
        SessionState::Active,
        SessionEvent::Inbound(ClientFrame::Text("hello".to_string())),
    );
    assert_eq!(s, SessionState::Active);
    assert_eq!(a, SessionAction::SendText("hello".to_string()));
}

#[test]
fn binary_is_echoed() {
    let (s, a) = session_step(
        SessionState::Active,
        SessionEvent::Inbound(ClientFrame::Binary(vec![0, 255, 7])),
    );
    assert_eq!(s, SessionState::Active);
    assert_eq!(a, SessionAction::SendBinary(vec![0, 255, 7]));
}

#[test]
fn ping_is_answered_with_its_own_bytes() {
    let (s, a) =
        session_step(SessionState::Active, SessionEvent::Inbound(ClientFrame::Ping(vec![9, 8])));
    assert_eq!(s, SessionState::Active);
    assert_eq!(a, SessionAction::SendPong(vec![9, 8]));
}

#[test]
fn other_frames_are_ignored() {
    let (s, a) = session_step(SessionState::Active, SessionEvent::Inbound(ClientFrame::Other));
    assert_eq!(s, SessionState::Active);
    assert_eq!(a, SessionAction::Wait);
}

#[test]
fn published_record_is_forwarded_as_text() {
    let json = "{\"id\":631}".to_string();
    let (s, a) = session_step(SessionState::Active, SessionEvent::Published(Some(json.clone())));
    assert_eq!(s, SessionState::Active);
    assert_eq!(a, SessionAction::SendText(json));
}

#[test]
fn record_that_could_not_be_encoded_is_passed_over() {
    let (s, a) = session_step(SessionState::Active, SessionEvent::Published(None));
    assert_eq!(s, SessionState::Active);
    assert_eq!(a, SessionAction::Wait);
}

#[test]
fn delivery_keeps_the_session_going() {
    let (s, a) = session_step(SessionState::Active, SessionEvent::Delivered);
    assert_eq!(s, SessionState::Active);
    assert_eq!(a, SessionAction::Wait);
}

#[test]
fn failed_delivery_ends_the_session() {
    for state in [SessionState::Active, SessionState::Closing, SessionState::Terminated] {
        let (s, a) = session_step(state, SessionEvent::DeliveryFailed);
        assert_eq!(s, SessionState::Terminated);
        assert_eq!(a, SessionAction::Stop);
    }
}

#[test]
fn closed_sources_end_the_session() {
    let (s, a) = session_step(SessionState::Active, SessionEvent::SourcesClosed);
    assert_eq!(s, SessionState::Terminated);
    assert_eq!(a, SessionAction::Stop);
}

#[test]
fn close_request_is_acknowledged_and_then_the_session_ends() {
    let reason = CloseReason { code: 1000, description: Some("bye".to_string()) };
    let (s, a) = session_step(
        SessionState::Active,
        SessionEvent::Inbound(ClientFrame::Close(Some(CloseReason {
            code: 1000,
            description: Some("bye".to_string()),
        }))),
    );
    assert_eq!(s, SessionState::Closing);
    assert_eq!(a, SessionAction::SendClose(Some(reason)));
    let (s, a) = session_step(s, SessionEvent::Delivered);
    assert_eq!(s, SessionState::Terminated);
    assert_eq!(a, SessionAction::Stop);
}

#[test]
fn close_request_without_reason() {
    let (s, a) =
        session_step(SessionState::Active, SessionEvent::Inbound(ClientFrame::Close(None)));
    assert_eq!(s, SessionState::Closing);
    assert_eq!(a, SessionAction::SendClose(None));
}

#[test]
fn nothing_is_sent_once_the_session_is_closing_or_over() {
    for state in [SessionState::Closing, SessionState::Terminated] {
        let (s, a) =
            session_step(state, SessionEvent::Inbound(ClientFrame::Text("late".to_string())));
        assert_eq!(s, SessionState::Terminated);
        assert_eq!(a, SessionAction::Stop);
        let (s, a) = session_step(state, SessionEvent::Published(Some("late".to_string())));
        assert_eq!(s, SessionState::Terminated);
        assert_eq!(a, SessionAction::Stop);
    }
}

fn record(id: u32) -> can_via_pi::message::CanMessage {
    can_via_pi::message::normalize(can_via_pi::message::RawFrame {
        id,
        data: vec![1],
        is_extended: false,
        is_error: false,
        is_rtr: false,
    })
    .unwrap()
}

#[test]
fn attached_session_is_subscribed_and_active() {
    let mut hub = can_via_pi::fanout::Broadcaster::new(4);
    let session = can_via_pi::session::Session::attach(&mut hub).unwrap();
    assert_eq!(session.state(), SessionState::Active);
    assert_eq!(hub.pending(session.handle()), Some(0));
    assert_eq!(hub.subscriber_count(), 1);
    hub.publish(&record(7));
    hub.publish(&record(8));
    assert_eq!(session.next_record(&mut hub).unwrap().id(), 7);
    assert_eq!(session.next_record(&mut hub).unwrap().id(), 8);
    assert!(session.next_record(&mut hub).is_none());
}

#[test]
fn session_releases_its_subscription_when_delivery_fails() {
    let mut hub = can_via_pi::fanout::Broadcaster::new(4);
    let mut first = can_via_pi::session::Session::attach(&mut hub).unwrap();
    let second = can_via_pi::session::Session::attach(&mut hub).unwrap();
    hub.publish(&record(1));
    let action = first.on_event(&mut hub, SessionEvent::Published(Some("{}".to_string())));
    assert_eq!(action, SessionAction::SendText("{}".to_string()));
    assert_eq!(hub.subscriber_count(), 2);
    let action = first.on_event(&mut hub, SessionEvent::DeliveryFailed);
    assert_eq!(action, SessionAction::Stop);
    assert_eq!(first.state(), SessionState::Terminated);
    assert_eq!(hub.pending(first.handle()), None);
    assert_eq!(hub.pending(second.handle()), Some(1));
    assert!(first.next_record(&mut hub).is_none());
}

#[test]
fn session_releases_its_subscription_after_a_close_request() {
    let mut hub = can_via_pi::fanout::Broadcaster::new(4);
    let mut session = can_via_pi::session::Session::attach(&mut hub).unwrap();
    let action = session.on_event(&mut hub, SessionEvent::Inbound(ClientFrame::Close(None)));
    assert_eq!(action, SessionAction::SendClose(None));
    assert_eq!(session.state(), SessionState::Closing);
    assert_eq!(hub.subscriber_count(), 1);
    let action = session.on_event(&mut hub, SessionEvent::Delivered);
    assert_eq!(action, SessionAction::Stop);
    assert_eq!(hub.subscriber_count(), 0);
    let action = session.on_event(&mut hub, SessionEvent::Delivered);
    assert_eq!(action, SessionAction::Stop);
    assert_eq!(hub.subscriber_count(), 0);
}

#[test]
fn sessions_get_different_handles() {
    let mut hub = can_via_pi::fanout::Broadcaster::new(1);
    let a = can_via_pi::session::Session::attach(&mut hub).unwrap();
    let b = can_via_pi::session::Session::attach(&mut hub).unwrap();
    assert_ne!(a.handle(), b.handle());
}
