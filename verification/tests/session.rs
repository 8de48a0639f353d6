use live_reload::session::{
    Broadcaster, ClientMessage, ReloadEvent, Session, SessionAction, SessionEvent, SessionState,
};

#[test]
fn reload_event_is_sent_as_the_word_reload() {
    assert_eq!(ReloadEvent::Reload.payload(), "reload");
}

#[test]
fn channel_hands_events_out_in_the_order_sent() {
    let mut channel = Broadcaster::new();
    assert_eq!(channel.len(), 0);
    assert_eq!(channel.recv(), None);
    channel.send(ReloadEvent::Reload);
    channel.send(ReloadEvent::Reload);
    channel.send(ReloadEvent::Reload);
    assert_eq!(channel.len(), 3);
    assert_eq!(channel.recv(), Some(ReloadEvent::Reload));
    assert_eq!(channel.len(), 2);
    assert_eq!(channel.recv(), Some(ReloadEvent::Reload));
    assert_eq!(channel.recv(), Some(ReloadEvent::Reload));
    assert_eq!(channel.recv(), None);
    assert_eq!(channel.len(), 0);
}

#[test]
fn channel_keeps_a_backlog_without_bound_or_merging() {
    let mut channel = Broadcaster::new();
    for _ in 0..1000 {
        channel.send(ReloadEvent::Reload);
    }
    assert_eq!(channel.len(), 1000);
    let mut received = 0;
    while let Some(_event) = channel.recv() {
        received += 1;
    }
    assert_eq!(received, 1000);
}

#[test]
fn channel_clear_drops_what_waits() {
    let mut channel = Broadcaster::new();
    channel.send(ReloadEvent::Reload);
    channel.send(ReloadEvent::Reload);
    channel.clear();
    assert_eq!(channel.len(), 0);
    assert_eq!(channel.recv(), None);
}

#[test]
fn new_session_is_connecting() {
    let session = Session::new();
    assert_eq!(session.state(), SessionState::Connecting);
    assert_eq!(session.backlog(), 0);
}

#[test]
fn accepting_sends_one_reload_first_and_starts_the_tasks() {
    let mut session = Session::new();
    let actions = session.step(SessionEvent::Accepted);
    assert_eq!(
        actions,
        vec![
            SessionAction::Send(ReloadEvent::Reload),
            SessionAction::StartForwarding,
            SessionAction::StartWatcher,
        ]
    );
    assert_eq!(session.state(), SessionState::Open);
    assert_eq!(session.step(SessionEvent::Accepted), vec![]);
}

#[test]
fn nothing_is_sent_before_the_accept() {
    let mut session = Session::new();
    assert_eq!(session.step(SessionEvent::Reload), vec![]);
    assert_eq!(session.step(SessionEvent::Writable), vec![]);
    assert_eq!(session.backlog(), 0);
    assert_eq!(session.step(SessionEvent::Disconnected), vec![]);
    assert_eq!(session.state(), SessionState::Connecting);
    let actions = session.step(SessionEvent::Accepted);
    assert_eq!(actions[0], SessionAction::Send(ReloadEvent::Reload));
    assert_eq!(session.step(SessionEvent::Writable), vec![]);
}

#[test]
fn build_reloads_follow_the_connect_reload_one_for_one() {
    let mut session = Session::new();
    let mut sent = 0;
    for action in session.step(SessionEvent::Accepted) {
        if action == SessionAction::Send(ReloadEvent::Reload) {
            sent += 1;
        }
    }
    assert_eq!(sent, 1);
    assert_eq!(session.step(SessionEvent::Reload), vec![]);
    assert_eq!(session.step(SessionEvent::Reload), vec![]);
    assert_eq!(session.backlog(), 2);
    assert_eq!(
        session.step(SessionEvent::Writable),
        vec![SessionAction::Send(ReloadEvent::Reload)]
    );
    assert_eq!(session.backlog(), 1);
    assert_eq!(
        session.step(SessionEvent::Writable),
        vec![SessionAction::Send(ReloadEvent::Reload)]
    );
    assert_eq!(session.step(SessionEvent::Writable), vec![]);
    assert_eq!(session.backlog(), 0);
}

#[test]
fn client_text_is_logged_and_nothing_else() {
    let mut session = Session::new();
    session.step(SessionEvent::Accepted);
    assert_eq!(
        session.step(SessionEvent::Message(ClientMessage::Text("build".to_string()))),
        vec![SessionAction::Log("build".to_string())]
    );
    assert_eq!(
        session.step(SessionEvent::Message(ClientMessage::Text("reload".to_string()))),
        vec![SessionAction::Log("reload".to_string())]
    );
    assert_eq!(session.step(SessionEvent::Message(ClientMessage::Other)), vec![]);
    assert_eq!(session.state(), SessionState::Open);
    assert_eq!(session.backlog(), 0);
}

#[test]
fn disconnect_stops_the_tasks() {
    let mut session = Session::new();
    session.step(SessionEvent::Accepted);
    session.step(SessionEvent::Reload);
    assert_eq!(
        session.step(SessionEvent::Disconnected),
        vec![SessionAction::StopWatcher, SessionAction::StopForwarding]
    );
    assert_eq!(session.state(), SessionState::Closed);
    assert_eq!(session.backlog(), 0);
}

#[test]
fn transport_error_is_logged_and_stops_the_tasks() {
    let mut session = Session::new();
    session.step(SessionEvent::Accepted);
    assert_eq!(
        session.step(SessionEvent::TransportError("connection reset".to_string())),
        vec![
            SessionAction::Log("connection reset".to_string()),
            SessionAction::StopWatcher,
            SessionAction::StopForwarding,
        ]
    );
    assert_eq!(session.state(), SessionState::Closed);
}

#[test]
fn closed_session_takes_nothing_more() {
    let mut session = Session::new();
    session.step(SessionEvent::Accepted);
    session.step(SessionEvent::Disconnected);
    assert_eq!(session.step(SessionEvent::Reload), vec![]);
    assert_eq!(session.backlog(), 0);
    assert_eq!(session.step(SessionEvent::Writable), vec![]);
    assert_eq!(session.step(SessionEvent::Accepted), vec![]);
    assert_eq!(session.step(SessionEvent::Message(ClientMessage::Text("x".to_string()))), vec![]);
    assert_eq!(session.step(SessionEvent::TransportError("late".to_string())), vec![]);
    assert_eq!(session.step(SessionEvent::Disconnected), vec![]);
    assert_eq!(session.state(), SessionState::Closed);
}
