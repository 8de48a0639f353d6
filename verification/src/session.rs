//! One client connection: the reload events that it is owed and the life of
//! the session from accept to teardown.
use std::collections::VecDeque;
use vstd::prelude::*;

verus! {

/// A notification to a connected client. There is one: refresh now.
#[derive(Clone, Copy, Debug, PartialEq, Eq, Structural)]
pub enum ReloadEvent {
    Reload,
}

/// The text that a reload event is sent as.
pub open spec fn reload_text() -> Seq<char> {
    "reload"@
}

impl ReloadEvent {
    /// The text frame that carries this event to the client.
    pub fn payload(&self) -> (text: String)
        ensures
            text@ == reload_text(),
    {
        "reload".to_owned()
    }
}

/// The outbound channel of one session: reload events in the order in which
/// they were sent, waiting to be written to the client.
///
/// The channel has no bound and no policy: every event that is sent is kept
/// until it is received, none is merged with another and none is dropped.
#[derive(Clone, Debug)]
pub struct Broadcaster {
    queue: VecDeque<ReloadEvent>,
}

impl View for Broadcaster {
    type V = Seq<ReloadEvent>;

    closed spec fn view(&self) -> Seq<ReloadEvent> {
        self.queue@
    }
}

impl Broadcaster {
    /// An empty channel.
    pub fn new() -> (channel: Broadcaster)
        ensures
            channel@ == Seq::<ReloadEvent>::empty(),
    {
        Broadcaster { queue: VecDeque::new() }
    }

    /// The number of events that wait.
    pub fn len(&self) -> (n: usize)
        ensures
            n == self@.len(),
    {
        self.queue.len()
    }

    /// The producer side: puts an event behind those that wait.
    pub fn send(&mut self, event: ReloadEvent)
        ensures
            final(self)@ == old(self)@.push(event),
    {
        self.queue.push_back(event);
    }

    /// The consumer side: takes the event that has waited longest.
    pub fn recv(&mut self) -> (event: Option<ReloadEvent>)
        ensures
            old(self)@.len() == 0 ==> event is None && final(self)@ == old(self)@,
            old(self)@.len() > 0 ==> event == Some(old(self)@[0]) && final(self)@ == old(
                self,
            )@.drop_first(),
    {
        let event = self.queue.pop_front();
        proof {
            if old(self)@.len() > 0 {
                assert(old(self)@.subrange(1, old(self)@.len() as int) =~= old(self)@.drop_first());
            }
        }
        event
    }

    /// Drops every event that waits.
    pub fn clear(&mut self)
        ensures
            final(self)@ == Seq::<ReloadEvent>::empty(),
    {
        self.queue.clear();
    }
}

/// Where a session stands.
#[derive(Clone, Copy, Debug, PartialEq, Eq, Structural)]
pub enum SessionState {
    /// The connection has not been accepted yet.
    Connecting,
    /// The connection is up; the forwarding task and the watcher run.
    Open,
    /// The connection is gone and the tasks of the session were stopped.
    Closed,
}

/// What a client sent.
#[derive(Clone, Debug, PartialEq, Eq)]
pub enum ClientMessage {
    /// A text frame.
    Text(String),
    /// Any other frame.
    Other,
}

/// What the surrounding program reports to a session.
#[derive(Clone, Debug, PartialEq, Eq)]
pub enum SessionEvent {
    /// The connection was accepted.
    Accepted,
    /// The watcher of the session emitted a reload event.
    Reload,
    /// The transport can take a message: the forwarding task is ready.
    Writable,
    /// The client sent a message.
    Message(ClientMessage),
    /// Reading from or writing to the client failed.
    TransportError(String),
    /// The client closed the connection.
    Disconnected,
}

/// The mathematical value of a [`SessionEvent`].
pub enum SessionEventView {
    Accepted,
    Reload,
    Writable,
    Text(Seq<char>),
    Other,
    TransportError(Seq<char>),
    Disconnected,
}

impl View for SessionEvent {
    type V = SessionEventView;

    open spec fn view(&self) -> SessionEventView {
        match self {
            SessionEvent::Accepted => SessionEventView::Accepted,
            SessionEvent::Reload => SessionEventView::Reload,
            SessionEvent::Writable => SessionEventView::Writable,
            SessionEvent::Message(ClientMessage::Text(text)) => SessionEventView::Text(text@),
            SessionEvent::Message(ClientMessage::Other) => SessionEventView::Other,
            SessionEvent::TransportError(reason) => SessionEventView::TransportError(reason@),
            SessionEvent::Disconnected => SessionEventView::Disconnected,
        }
    }
}

/// What a session asks the surrounding program to do.
#[derive(Clone, Debug, PartialEq, Eq)]
pub enum SessionAction {
    /// Write this event to the client.
    Send(ReloadEvent),
    /// Start the task that forwards the channel to the client.
    StartForwarding,
    /// Start the change watcher of this session.
    StartWatcher,
    /// Write this text to the log.
    Log(String),
    /// Stop the change watcher of this session.
    StopWatcher,
    /// Stop the forwarding task.
    StopForwarding,
}

/// The mathematical value of a [`SessionAction`].
pub enum SessionActionView {
    Send(ReloadEvent),
    StartForwarding,
    StartWatcher,
    Log(Seq<char>),
    StopWatcher,
    StopForwarding,
}

impl View for SessionAction {
    type V = SessionActionView;

    open spec fn view(&self) -> SessionActionView {
        match self {
            SessionAction::Send(event) => SessionActionView::Send(*event),
            SessionAction::StartForwarding => SessionActionView::StartForwarding,
            SessionAction::StartWatcher => SessionActionView::StartWatcher,
            SessionAction::Log(text) => SessionActionView::Log(text@),
            SessionAction::StopWatcher => SessionActionView::StopWatcher,
            SessionAction::StopForwarding => SessionActionView::StopForwarding,
        }
    }
}

/// The values of a list of actions.
pub open spec fn action_views(actions: Seq<SessionAction>) -> Seq<SessionActionView> {
    Seq::new(actions.len(), |i: int| actions[i]@)
}

/// The mathematical value of a [`Session`].
pub struct SessionView {
    pub state: SessionState,
    /// The events that wait in the channel, oldest first.
    pub backlog: Seq<ReloadEvent>,
}

impl SessionView {
    /// The state that a session starts in.
    pub open spec fn initial() -> SessionView {
        SessionView { state: SessionState::Connecting, backlog: Seq::empty() }
    }

    /// The session after teardown.
    pub open spec fn closed() -> SessionView {
        SessionView { state: SessionState::Closed, backlog: Seq::empty() }
    }

    /// The transition function of a session: the state after `event`, and
    /// the actions that the event calls for, in order.
    ///
    /// Accepting the connection sends one reload event at once and starts
    /// the two tasks. While the session is open, reload events from the
    /// watcher queue up and leave one by one as the transport takes them,
    /// and what the client sends is logged and nothing more. A transport
    /// error or the end of the connection stops the tasks. Before the accept
    /// and after the end nothing is sent.
    pub open spec fn step(self, event: SessionEventView) -> (SessionView, Seq<SessionActionView>) {
        match self.state {
            SessionState::Connecting => match event {
                SessionEventView::Accepted => (
                    SessionView { state: SessionState::Open, ..self },
                    seq![
                        SessionActionView::Send(ReloadEvent::Reload),
                        SessionActionView::StartForwarding,
                        SessionActionView::StartWatcher,
                    ],
                ),
                _ => (self, Seq::empty()),
            },
            SessionState::Open => match event {
                SessionEventView::Accepted => (self, Seq::empty()),
                SessionEventView::Reload => (
                    SessionView { backlog: self.backlog.push(ReloadEvent::Reload), ..self },
                    Seq::empty(),
                ),
                SessionEventView::Writable => if self.backlog.len() > 0 {
                    (
                        SessionView { backlog: self.backlog.drop_first(), ..self },
                        seq![SessionActionView::Send(self.backlog[0])],
                    )
                } else {
                    (self, Seq::empty())
                },
                SessionEventView::Text(text) => (self, seq![SessionActionView::Log(text)]),
                SessionEventView::Other => (self, Seq::empty()),
                SessionEventView::TransportError(reason) => (
                    SessionView::closed(),
                    seq![
                        SessionActionView::Log(reason),
                        SessionActionView::StopWatcher,
                        SessionActionView::StopForwarding,
                    ],
                ),
                SessionEventView::Disconnected => (
                    SessionView::closed(),
                    seq![SessionActionView::StopWatcher, SessionActionView::StopForwarding],
                ),
            },
            SessionState::Closed => (self, Seq::empty()),
        }
    }
}

/// One client connection.
#[derive(Clone, Debug)]
pub struct Session {
    state: SessionState,
    outbox: Broadcaster,
}

impl View for Session {
    type V = SessionView;

    closed spec fn view(&self) -> SessionView {
        SessionView { state: self.state, backlog: self.outbox@ }
    }
}

impl Session {
    /// A session whose connection has not been accepted yet.
    pub fn new() -> (session: Session)
        ensures
            session@ == SessionView::initial(),
    {
        Session { state: SessionState::Connecting, outbox: Broadcaster::new() }
    }

    /// Where the session stands.
    pub fn state(&self) -> (state: SessionState)
        ensures
            state == self@.state,
    {
        self.state
    }

    /// The number of reload events that wait to be written to the client.
    pub fn backlog(&self) -> (n: usize)
        ensures
            n == self@.backlog.len(),
    {
        self.outbox.len()
    }

    fn close(&mut self, actions: &mut Vec<SessionAction>)
        ensures
            final(self)@ == SessionView::closed(),
            final(actions)@ == old(actions)@.push(SessionAction::StopWatcher).push(
                SessionAction::StopForwarding,
            ),
    {
        self.state = SessionState::Closed;
        self.outbox.clear();
        actions.push(SessionAction::StopWatcher);
        actions.push(SessionAction::StopForwarding);
    }

    /// Takes one event and returns the actions that it calls for, in the
    /// order in which they are to be performed.
    pub fn step(&mut self, event: SessionEvent) -> (actions: Vec<SessionAction>)
        ensures
            final(self)@ == old(self)@.step(event@).0,
            action_views(actions@) == old(self)@.step(event@).1,
    {
        let mut actions: Vec<SessionAction> = Vec::new();
        match self.state {
            SessionState::Connecting => match event {
                SessionEvent::Accepted => {
                    self.state = SessionState::Open;
                    actions.push(SessionAction::Send(ReloadEvent::Reload));
                    actions.push(SessionAction::StartForwarding);
                    actions.push(SessionAction::StartWatcher);
                },
                _ => {},
            },
            SessionState::Open => match event {
                SessionEvent::Accepted => {},
                SessionEvent::Reload => {
                    self.outbox.send(ReloadEvent::Reload);
                },
                SessionEvent::Writable => {
                    if let Some(next) = self.outbox.recv() {
                        actions.push(SessionAction::Send(next));
                    }
                },
                SessionEvent::Message(ClientMessage::Text(text)) => {
                    actions.push(SessionAction::Log(text));
                },
                SessionEvent::Message(ClientMessage::Other) => {},
                SessionEvent::TransportError(reason) => {
                    actions.push(SessionAction::Log(reason));
                    self.close(&mut actions);
                },
                SessionEvent::Disconnected => {
                    self.close(&mut actions);
                },
            },
            SessionState::Closed => {},
        }
        assert(action_views(actions@) =~= old(self)@.step(event@).1);
        actions
    }
}

/// How many of the actions write an event to the client.
pub open spec fn sends(actions: Seq<SessionActionView>) -> nat
    decreases actions.len(),
{
    if actions.len() == 0 {
        0
    } else {
        sends(actions.drop_last()) + (if actions.last() is Send {
            1nat
        } else {
            0nat
        })
    }
}

/// A session together with an account of what it was sent and what it sent.
pub struct SessionHistory {
    pub session: SessionView,
    /// How many events were written to the client.
    pub sent: nat,
    /// How many reload events of the watcher the session took while open.
    pub queued: nat,
}

impl SessionHistory {
    /// The account of a session that has seen no event yet.
    pub open spec fn start() -> SessionHistory {
        SessionHistory { session: SessionView::initial(), sent: 0, queued: 0 }
    }

    /// The account after one event.
    pub open spec fn advance(self, event: SessionEventView) -> SessionHistory {
        SessionHistory {
            session: self.session.step(event).0,
            sent: self.sent + sends(self.session.step(event).1),
            queued: self.queued + (if event is Reload && self.session.state == SessionState::Open {
                1nat
            } else {
                0nat
            }),
        }
    }

    /// The account after a sequence of events.
    pub open spec fn replay(self, events: Seq<SessionEventView>) -> SessionHistory
        decreases events.len(),
    {
        if events.len() == 0 {
            self
        } else {
            self.replay(events.drop_last()).advance(events.last())
        }
    }

    /// What the account of every session satisfies.
    pub open spec fn sound(self) -> bool {
        match self.session.state {
            SessionState::Connecting => self.sent == 0 && self.queued == 0
                && self.session.backlog.len() == 0,
            SessionState::Open => self.sent >= 1 && self.sent + self.session.backlog.len() == 1
                + self.queued,
            SessionState::Closed => 1 <= self.sent <= 1 + self.queued
                && self.session.backlog.len() == 0,
        }
    }
}

proof fn lemma_sends_push(actions: Seq<SessionActionView>, action: SessionActionView)
    ensures
        sends(actions.push(action)) == sends(actions) + (if action is Send {
            1nat
        } else {
            0nat
        }),
{
    assert(actions.push(action).drop_last() =~= actions);
}

proof fn lemma_sends_of_step(s: SessionView, event: SessionEventView)
    ensures
        sends(s.step(event).1) == (if s.state == SessionState::Connecting && event is Accepted {
            1nat
        } else if s.state == SessionState::Open && event is Writable && s.backlog.len() > 0 {
            1nat
        } else {
            0nat
        }),
{
    let actions = s.step(event).1;
    let none = Seq::<SessionActionView>::empty();
    if actions.len() == 1 {
        assert(actions =~= none.push(actions[0]));
        lemma_sends_push(none, actions[0]);
    } else if actions.len() == 2 {
        assert(actions =~= none.push(actions[0]).push(actions[1]));
        lemma_sends_push(none, actions[0]);
        lemma_sends_push(none.push(actions[0]), actions[1]);
    } else if actions.len() == 3 {
        assert(actions =~= none.push(actions[0]).push(actions[1]).push(actions[2]));
        lemma_sends_push(none, actions[0]);
        lemma_sends_push(none.push(actions[0]), actions[1]);
        lemma_sends_push(none.push(actions[0]).push(actions[1]), actions[2]);
    }
}

proof fn lemma_session_sound(events: Seq<SessionEventView>)
    ensures
        SessionHistory::start().replay(events).sound(),
    decreases events.len(),
{
    if events.len() > 0 {
        lemma_session_sound(events.drop_last());
        lemma_sends_of_step(
            SessionHistory::start().replay(events.drop_last()).session,
            events.last(),
        );
    }
}

/// A session is sent exactly one reload event upon connecting, ahead of
/// every reload event that a build brings: nothing is written before the
/// connection is accepted, the accept writes one reload event as its first
/// action, and every later write takes one event of the watcher out of the
/// channel.
pub proof fn law_one_reload_on_connect(events: Seq<SessionEventView>)
    ensures
        ({
            let h = SessionHistory::start().replay(events);
            let accept = h.session.step(SessionEventView::Accepted);
            &&& h.session.state == SessionState::Connecting ==> {
                &&& h.sent == 0
                &&& h.queued == 0
                &&& accept.0.state == SessionState::Open
                &&& accept.1[0] == SessionActionView::Send(ReloadEvent::Reload)
                &&& sends(accept.1) == 1
            }
            &&& h.session.state != SessionState::Connecting ==> {
                &&& h.sent >= 1
                &&& sends(accept.1) == 0
            }
        }),
{
    lemma_session_sound(events);
    lemma_sends_of_step(
        SessionHistory::start().replay(events).session,
        SessionEventView::Accepted,
    );
}

/// The channel neither merges nor drops: while a session is open, the
/// events written to the client are the one of the accept and, one for one,
/// the reload events of the watcher that no longer wait. After the end of
/// the session nothing is written.
pub proof fn law_reloads_are_delivered_one_for_one(
    events: Seq<SessionEventView>,
    event: SessionEventView,
)
    ensures
        ({
            let h = SessionHistory::start().replay(events);
            &&& h.session.state == SessionState::Open ==> h.sent + h.session.backlog.len() == 1
                + h.queued
            &&& h.session.state == SessionState::Closed ==> {
                &&& h.advance(event).sent == h.sent
                &&& h.advance(event).session == h.session
            }
            &&& h.sent <= 1 + h.queued
        }),
{
    lemma_session_sound(events);
    lemma_sends_of_step(SessionHistory::start().replay(events).session, event);
}

/// The end of a connection, by error or by the client, stops the watcher
/// and the forwarding task of the session and leaves nothing in the
/// channel.
pub proof fn law_teardown_stops_the_tasks(s: SessionView, event: SessionEventView)
    requires
        s.state == SessionState::Open,
        event is Disconnected || event is TransportError,
    ensures
        s.step(event).0 == SessionView::closed(),
        s.step(event).1.contains(SessionActionView::StopWatcher),
        s.step(event).1.contains(SessionActionView::StopForwarding),
{
    let actions = s.step(event).1;
    if event is Disconnected {
        assert(actions[0] == SessionActionView::StopWatcher);
        assert(actions[1] == SessionActionView::StopForwarding);
    } else {
        assert(actions[1] == SessionActionView::StopWatcher);
        assert(actions[2] == SessionActionView::StopForwarding);
    }
}

} // verus!
