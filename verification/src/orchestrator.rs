//! The orchestrator of one session: the session, its change watcher and the
//! build run in flight, wired together.
//!
//! The surrounding program reports what happened on the transport, on the
//! poll timer, in the file system and in the process of the build tool, each
//! as an [`Input`], and performs the [`Effect`]s that come back, in order.
use crate::pipeline::{
    build_command, command_for, run_step, BuildCommand, BuildCommandView, BuildError,
    BuildMode, BuildRun, RunAction, RunActionView, RunEvent, RunEventView, RunState,
};
use crate::session::{
    action_views, ClientMessage, ReloadEvent, Session, SessionAction, SessionActionView,
    SessionEvent, SessionEventView, SessionState, SessionView,
};
use crate::snapshot::SnapshotStore;
use crate::tree::{Tree, TreeView};
use crate::watcher::{Action, Event, EventView, Phase, Watcher, WatcherView};
use vstd::prelude::*;

verus! {

/// What the surrounding program reports.
#[derive(Clone, Debug)]
pub enum Input {
    /// The connection was accepted.
    Accepted,
    /// The transport can take a message.
    Writable,
    /// The client sent a message.
    Message(ClientMessage),
    /// Reading from or writing to the client failed.
    TransportError(String),
    /// The client closed the connection.
    Disconnected,
    /// The poll interval has passed.
    Tick,
    /// The source tree was read, as asked by [`Effect::Observe`].
    Observed(Tree),
    /// The snapshot on disk could not be written or removed.
    SnapshotFailed,
    /// The build tool of this run was launched.
    Spawned(u64),
    /// The build tool of this run could not be launched.
    SpawnFailed(u64),
    /// The process of this run wrote one line to its standard output.
    Output(u64, String),
    /// The process of this run has ended, with this exit code if it ended
    /// with one.
    Exited(u64, Option<i32>),
}

/// The mathematical value of an [`Input`].
pub enum InputView {
    Accepted,
    Writable,
    Text(Seq<char>),
    OtherMessage,
    TransportError(Seq<char>),
    Disconnected,
    Tick,
    Observed(TreeView),
    SnapshotFailed,
    Spawned(u64),
    SpawnFailed(u64),
    Output(u64, Seq<char>),
    Exited(u64, Option<i32>),
}

impl View for Input {
    type V = InputView;

    open spec fn view(&self) -> InputView {
        match self {
            Input::Accepted => InputView::Accepted,
            Input::Writable => InputView::Writable,
            Input::Message(ClientMessage::Text(text)) => InputView::Text(text@),
            Input::Message(ClientMessage::Other) => InputView::OtherMessage,
            Input::TransportError(reason) => InputView::TransportError(reason@),
            Input::Disconnected => InputView::Disconnected,
            Input::Tick => InputView::Tick,
            Input::Observed(tree) => InputView::Observed(tree@),
            Input::SnapshotFailed => InputView::SnapshotFailed,
            Input::Spawned(run) => InputView::Spawned(*run),
            Input::SpawnFailed(run) => InputView::SpawnFailed(*run),
            Input::Output(run, line) => InputView::Output(*run, line@),
            Input::Exited(run, code) => InputView::Exited(*run, *code),
        }
    }
}

impl Input {
    /// The tree that an input carries is well formed.
    pub open spec fn wf(&self) -> bool {
        match self {
            Input::Observed(tree) => tree.wf(),
            _ => true,
        }
    }
}

/// What the surrounding program is asked to do.
#[derive(Clone, Debug, PartialEq, Eq)]
pub enum Effect {
    /// Write this event to the client.
    Send(ReloadEvent),
    /// Write this text to the log.
    Log(String),
    /// Log that a build failed.
    BuildFailed(BuildError),
    /// Start the task that tells when the transport can take a message.
    StartForwarding,
    /// Stop that task.
    StopForwarding,
    /// Start the poll timer.
    StartPolling,
    /// Stop the poll timer.
    StopPolling,
    /// Read the source tree and report it with [`Input::Observed`].
    Observe,
    /// Bring the snapshot on disk in line with [`Orchestrator::snapshot`].
    StoreSnapshot,
    /// Launch the build tool with this command as the run of this number.
    Spawn(u64, BuildCommand),
    /// Kill the process of this run, and report [`Input::Exited`] once it is
    /// gone.
    Kill(u64),
}

/// The mathematical value of an [`Effect`].
pub enum EffectView {
    Send(ReloadEvent),
    Log(Seq<char>),
    BuildFailed(BuildError),
    StartForwarding,
    StopForwarding,
    StartPolling,
    StopPolling,
    Observe,
    StoreSnapshot,
    Spawn(u64, BuildCommandView),
    Kill(u64),
}

impl View for Effect {
    type V = EffectView;

    open spec fn view(&self) -> EffectView {
        match self {
            Effect::Send(event) => EffectView::Send(*event),
            Effect::Log(text) => EffectView::Log(text@),
            Effect::BuildFailed(error) => EffectView::BuildFailed(*error),
            Effect::StartForwarding => EffectView::StartForwarding,
            Effect::StopForwarding => EffectView::StopForwarding,
            Effect::StartPolling => EffectView::StartPolling,
            Effect::StopPolling => EffectView::StopPolling,
            Effect::Observe => EffectView::Observe,
            Effect::StoreSnapshot => EffectView::StoreSnapshot,
            Effect::Spawn(run, command) => EffectView::Spawn(*run, command@),
            Effect::Kill(run) => EffectView::Kill(*run),
        }
    }
}

/// The values of a list of effects.
pub open spec fn effect_views(effects: Seq<Effect>) -> Seq<EffectView> {
    Seq::new(effects.len(), |i: int| effects[i]@)
}

/// The mathematical value of an [`Orchestrator`].
pub struct OrchestratorView {
    pub session: SessionView,
    pub watcher: WatcherView,
    /// Where the run that the watcher calls active stands.
    pub run: Option<RunState>,
    pub mode: BuildMode,
    /// The root of the frontend, where the build tool runs.
    pub root: Seq<char>,
}

impl OrchestratorView {
    /// The state that an orchestrator starts in.
    pub open spec fn initial(
        snapshot: Option<TreeView>,
        mode: BuildMode,
        root: Seq<char>,
    ) -> OrchestratorView {
        OrchestratorView {
            session: SessionView::initial(),
            watcher: WatcherView::initial(snapshot),
            run: None,
            mode,
            root,
        }
    }

    /// What one action of the watcher comes to.
    ///
    /// A build that the watcher starts becomes a run and a launch of the
    /// build tool. A build that it kills is cancelled, which asks for the
    /// process to be killed if there is one. A reload event goes into the
    /// channel of the session.
    pub open spec fn route_one(self, action: Action) -> (OrchestratorView, Seq<EffectView>) {
        match action {
            Action::Observe => (self, seq![EffectView::Observe]),
            Action::StoreSnapshot => (self, seq![EffectView::StoreSnapshot]),
            Action::ReportFailure(error) => (self, seq![EffectView::BuildFailed(error)]),
            Action::EmitReload => (
                OrchestratorView {
                    session: self.session.step(SessionEventView::Reload).0,
                    ..self
                },
                Seq::empty(),
            ),
            Action::StartBuild(run) => (
                OrchestratorView { run: Some(RunState::Spawning), ..self },
                seq![EffectView::Spawn(run, command_for(self.mode, self.root))],
            ),
            Action::KillBuild(run) => match self.run {
                Some(state) => (
                    OrchestratorView {
                        run: Some(run_step(state, RunEventView::Cancel).0),
                        ..self
                    },
                    if run_step(state, RunEventView::Cancel).1 == Some(RunActionView::Kill) {
                        seq![EffectView::Kill(run)]
                    } else {
                        Seq::empty()
                    },
                ),
                None => (self, Seq::empty()),
            },
        }
    }

    /// What a list of actions of the watcher comes to, taken in order.
    pub open spec fn route(self, actions: Seq<Action>) -> (OrchestratorView, Seq<EffectView>)
        decreases actions.len(),
    {
        if actions.len() == 0 {
            (self, Seq::empty())
        } else {
            let before = self.route(actions.drop_last());
            let last = before.0.route_one(actions.last());
            (last.0, before.1 + last.1)
        }
    }

    /// One event for the watcher: the watcher takes its step and its actions
    /// are routed.
    pub open spec fn watch(self, event: EventView) -> (OrchestratorView, Seq<EffectView>) {
        OrchestratorView { watcher: self.watcher.step(event).0, ..self }.route(
            self.watcher.step(event).1,
        )
    }

    /// What one action of the session comes to. Stopping the watcher stops
    /// the poll timer and whatever build is in flight.
    pub open spec fn serve_one(self, action: SessionActionView) -> (
        OrchestratorView,
        Seq<EffectView>,
    ) {
        match action {
            SessionActionView::Send(event) => (self, seq![EffectView::Send(event)]),
            SessionActionView::Log(text) => (self, seq![EffectView::Log(text)]),
            SessionActionView::StartForwarding => (self, seq![EffectView::StartForwarding]),
            SessionActionView::StopForwarding => (self, seq![EffectView::StopForwarding]),
            SessionActionView::StartWatcher => (self, seq![EffectView::StartPolling]),
            SessionActionView::StopWatcher => (
                self.watch(EventView::Stop).0,
                self.watch(EventView::Stop).1.push(EffectView::StopPolling),
            ),
        }
    }

    /// What a list of actions of the session comes to, taken in order.
    pub open spec fn serve(self, actions: Seq<SessionActionView>) -> (
        OrchestratorView,
        Seq<EffectView>,
    )
        decreases actions.len(),
    {
        if actions.len() == 0 {
            (self, Seq::empty())
        } else {
            let before = self.serve(actions.drop_last());
            let last = before.0.serve_one(actions.last());
            (last.0, before.1 + last.1)
        }
    }

    /// One event of the process of run `run`. Events of a run that is not
    /// the active one are dropped. The end of the run is handed to the
    /// watcher at once.
    pub open spec fn process(self, run: u64, event: RunEventView) -> (
        OrchestratorView,
        Seq<EffectView>,
    ) {
        if self.watcher.active == Some(run) && self.run is Some {
            let state = run_step(self.run.unwrap(), event).0;
            let moved = OrchestratorView { run: Some(state), ..self };
            match run_step(self.run.unwrap(), event).1 {
                None => (moved, Seq::empty()),
                Some(RunActionView::Log(line)) => (moved, seq![EffectView::Log(line)]),
                Some(RunActionView::Kill) => (moved, seq![EffectView::Kill(run)]),
                Some(RunActionView::Finish(outcome)) => OrchestratorView {
                    run: None,
                    ..self
                }.watch(EventView::BuildEnded(run, outcome)),
            }
        } else {
            (self, Seq::empty())
        }
    }

    /// One event of the session: the session takes its step and its actions
    /// are served.
    pub open spec fn session_event(self, event: SessionEventView) -> (
        OrchestratorView,
        Seq<EffectView>,
    ) {
        OrchestratorView { session: self.session.step(event).0, ..self }.serve(
            self.session.step(event).1,
        )
    }

    /// The transition function of the orchestrator: the state after
    /// `input`, and the effects that the input calls for, in the order in
    /// which they are to be performed.
    ///
    /// The watcher works only while the session is open. When the snapshot
    /// cannot be kept the watcher ends, and the poll timer with it.
    pub open spec fn step(self, input: InputView) -> (OrchestratorView, Seq<EffectView>) {
        match input {
            InputView::Accepted => self.session_event(SessionEventView::Accepted),
            InputView::Writable => self.session_event(SessionEventView::Writable),
            InputView::Text(text) => self.session_event(SessionEventView::Text(text)),
            InputView::OtherMessage => self.session_event(SessionEventView::Other),
            InputView::TransportError(reason) => self.session_event(
                SessionEventView::TransportError(reason),
            ),
            InputView::Disconnected => self.session_event(SessionEventView::Disconnected),
            InputView::Spawned(run) => self.process(run, RunEventView::Spawned),
            InputView::SpawnFailed(run) => self.process(run, RunEventView::SpawnFailed),
            InputView::Output(run, line) => self.process(run, RunEventView::Line(line)),
            InputView::Exited(run, code) => self.process(run, RunEventView::Exited(code)),
            InputView::Tick => if self.session.state == SessionState::Open {
                self.watch(EventView::Tick)
            } else {
                (self, Seq::empty())
            },
            InputView::Observed(tree) => if self.session.state == SessionState::Open {
                self.watch(EventView::Observed(tree))
            } else {
                (self, Seq::empty())
            },
            InputView::SnapshotFailed => if self.session.state == SessionState::Open
                && self.watcher.phase != Phase::Stopped {
                (
                    self.watch(EventView::SnapshotFailed).0,
                    self.watch(EventView::SnapshotFailed).1.push(EffectView::StopPolling),
                )
            } else {
                (self, Seq::empty())
            },
        }
    }
}

proof fn lemma_views_push(effects: Seq<Effect>, effect: Effect)
    ensures
        effect_views(effects.push(effect)) == effect_views(effects).push(effect@),
{
    assert(effect_views(effects.push(effect)) =~= effect_views(effects).push(effect@));
}

/// The orchestrator of one session.
#[derive(Clone, Debug)]
pub struct Orchestrator {
    session: Session,
    watcher: Watcher,
    run: Option<BuildRun>,
    mode: BuildMode,
    root: String,
}

impl View for Orchestrator {
    type V = OrchestratorView;

    closed spec fn view(&self) -> OrchestratorView {
        OrchestratorView {
            session: self.session@,
            watcher: self.watcher@,
            run: match self.run {
                Some(run) => Some(run@),
                None => None,
            },
            mode: self.mode,
            root: self.root@,
        }
    }
}

impl Orchestrator {
    /// The representation invariant: that of the watcher.
    pub closed spec fn wf(&self) -> bool {
        self.watcher.wf()
    }

    /// An orchestrator for a session that has not been accepted yet. The
    /// frontend at `root` is built in `mode`, and `store` holds the snapshot
    /// that was found, if any.
    pub fn new(store: SnapshotStore, mode: BuildMode, root: String) -> (orchestrator: Orchestrator)
        requires
            store.wf(),
        ensures
            orchestrator.wf(),
            orchestrator@ == OrchestratorView::initial(store@, mode, root@),
    {
        Orchestrator {
            session: Session::new(),
            watcher: Watcher::new(store),
            run: None,
            mode,
            root,
        }
    }

    /// Where the session stands.
    pub fn session_state(&self) -> (state: SessionState)
        ensures
            state == self@.session.state,
    {
        self.session.state()
    }

    /// The number of reload events that wait to be written to the client.
    pub fn backlog(&self) -> (n: usize)
        ensures
            n == self@.session.backlog.len(),
    {
        self.session.backlog()
    }

    /// The phase of the watcher.
    pub fn phase(&self) -> (phase: Phase)
        ensures
            phase == self@.watcher.phase,
    {
        self.watcher.phase()
    }

    /// The number of the run whose process may still be alive.
    pub fn active_run(&self) -> (run: Option<u64>)
        ensures
            run == self@.watcher.active,
    {
        self.watcher.active_run()
    }

    /// The baseline that the snapshot store holds.
    pub fn snapshot(&self) -> (tree: Option<&Tree>)
        requires
            self.wf(),
        ensures
            tree is Some <==> self@.watcher.snapshot is Some,
            tree is Some ==> tree.unwrap().wf() && tree.unwrap()@ == self@.watcher.snapshot.unwrap(),
    {
        self.watcher.snapshot()
    }

    fn route_one(&mut self, action: Action, effects: &mut Vec<Effect>)
        requires
            old(self).wf(),
        ensures
            final(self).wf(),
            final(self)@ == old(self)@.route_one(action).0,
            effect_views(final(effects)@) == effect_views(old(effects)@) + old(self)@.route_one(
                action,
            ).1,
    {
        let ghost before = effect_views(effects@);
        match action {
            Action::Observe => {
                proof {
                    lemma_views_push(effects@, Effect::Observe);
                }
                effects.push(Effect::Observe);
            },
            Action::StoreSnapshot => {
                proof {
                    lemma_views_push(effects@, Effect::StoreSnapshot);
                }
                effects.push(Effect::StoreSnapshot);
            },
            Action::ReportFailure(error) => {
                proof {
                    lemma_views_push(effects@, Effect::BuildFailed(error));
                }
                effects.push(Effect::BuildFailed(error));
            },
            Action::EmitReload => {
                let _ = self.session.step(SessionEvent::Reload);
            },
            Action::StartBuild(run) => {
                let command = build_command(self.mode, self.root.as_str());
                self.run = Some(BuildRun::new());
                proof {
                    lemma_views_push(effects@, Effect::Spawn(run, command));
                }
                effects.push(Effect::Spawn(run, command));
            },
            Action::KillBuild(run) => {
                if let Some(current) = self.run {
                    let mut current = current;
                    let asked = current.step(RunEvent::Cancel);
                    self.run = Some(current);
                    if let Some(RunAction::Kill) = asked {
                        proof {
                            lemma_views_push(effects@, Effect::Kill(run));
                        }
                        effects.push(Effect::Kill(run));
                    }
                }
            },
        }
        assert(effect_views(effects@) =~= before + old(self)@.route_one(action).1);
    }

    fn route(&mut self, actions: Vec<Action>, effects: &mut Vec<Effect>)
        requires
            old(self).wf(),
        ensures
            final(self).wf(),
            final(self)@ == old(self)@.route(actions@).0,
            effect_views(final(effects)@) == effect_views(old(effects)@) + old(self)@.route(
                actions@,
            ).1,
    {
        let ghost before = effect_views(effects@);
        let mut i: usize = 0;
        assert(actions@.take(0) =~= Seq::<Action>::empty());
        assert(before + Seq::<EffectView>::empty() =~= before);
        while i < actions.len()
            invariant
                i <= actions.len(),
                self.wf(),
                self@ == old(self)@.route(actions@.take(i as int)).0,
                effect_views(effects@) == before + old(self)@.route(actions@.take(i as int)).1,
            decreases actions.len() - i,
        {
            let ghost done = old(self)@.route(actions@.take(i as int));
            self.route_one(actions[i], effects);
            proof {
                let next = actions@.take(i as int + 1);
                assert(next.drop_last() =~= actions@.take(i as int));
                assert(next.last() == actions@[i as int]);
                assert(before + (done.1 + done.0.route_one(actions@[i as int]).1) =~= (before
                    + done.1) + done.0.route_one(actions@[i as int]).1);
            }
            i += 1;
        }
        assert(actions@.take(i as int) =~= actions@);
    }

    fn watch(&mut self, event: Event, effects: &mut Vec<Effect>)
        requires
            old(self).wf(),
            event.wf(),
        ensures
            final(self).wf(),
            final(self)@ == old(self)@.watch(event@).0,
            effect_views(final(effects)@) == effect_views(old(effects)@) + old(self)@.watch(
                event@,
            ).1,
    {
        let actions = self.watcher.step(event);
        self.route(actions, effects);
    }

    fn serve_one(&mut self, action: SessionAction, effects: &mut Vec<Effect>)
        requires
            old(self).wf(),
        ensures
            final(self).wf(),
            final(self)@ == old(self)@.serve_one(action@).0,
            effect_views(final(effects)@) == effect_views(old(effects)@) + old(self)@.serve_one(
                action@,
            ).1,
    {
        let ghost before = effect_views(effects@);
        match action {
            SessionAction::Send(event) => {
                proof {
                    lemma_views_push(effects@, Effect::Send(event));
                }
                effects.push(Effect::Send(event));
            },
            SessionAction::Log(text) => {
                proof {
                    lemma_views_push(effects@, Effect::Log(text));
                }
                effects.push(Effect::Log(text));
            },
            SessionAction::StartForwarding => {
                proof {
                    lemma_views_push(effects@, Effect::StartForwarding);
                }
                effects.push(Effect::StartForwarding);
            },
            SessionAction::StopForwarding => {
                proof {
                    lemma_views_push(effects@, Effect::StopForwarding);
                }
                effects.push(Effect::StopForwarding);
            },
            SessionAction::StartWatcher => {
                proof {
                    lemma_views_push(effects@, Effect::StartPolling);
                }
                effects.push(Effect::StartPolling);
            },
            SessionAction::StopWatcher => {
                self.watch(Event::Stop, effects);
                proof {
                    lemma_views_push(effects@, Effect::StopPolling);
                }
                effects.push(Effect::StopPolling);
            },
        }
        assert(effect_views(effects@) =~= before + old(self)@.serve_one(action@).1);
    }

    fn serve(&mut self, actions: Vec<SessionAction>, effects: &mut Vec<Effect>)
        requires
            old(self).wf(),
        ensures
            final(self).wf(),
            final(self)@ == old(self)@.serve(action_views(actions@)).0,
            effect_views(final(effects)@) == effect_views(old(effects)@) + old(self)@.serve(
                action_views(actions@),
            ).1,
    {
        let ghost before = effect_views(effects@);
        let ghost all = action_views(actions@);
        let mut actions = actions;
        let n = actions.len();
        let mut i: usize = 0;
        assert(all.take(0) =~= Seq::<SessionActionView>::empty());
        assert(before + Seq::<EffectView>::empty() =~= before);
        while i < n
            invariant
                i <= n,
                n == all.len(),
                actions@.len() == n - i,
                action_views(actions@) == all.skip(i as int),
                self.wf(),
                self@ == old(self)@.serve(all.take(i as int)).0,
                effect_views(effects@) == before + old(self)@.serve(all.take(i as int)).1,
            decreases n - i,
        {
            let ghost done = old(self)@.serve(all.take(i as int));
            let ghost rest = actions@;
            let action = actions.remove(0);
            proof {
                assert(action@ == action_views(rest)[0]);
                assert(action@ == all[i as int]);
                assert forall|j: int| 0 <= j < actions@.len() implies action_views(actions@)[j]
                    == all.skip(i as int + 1)[j] by {
                    assert(actions@[j] == rest[j + 1]);
                    assert(action_views(rest)[j + 1] == all.skip(i as int)[j + 1]);
                }
                assert(action_views(actions@) =~= all.skip(i as int + 1));
            }
            self.serve_one(action, effects);
            proof {
                let next = all.take(i as int + 1);
                assert(next.drop_last() =~= all.take(i as int));
                assert(next.last() == all[i as int]);
                assert(before + (done.1 + done.0.serve_one(all[i as int]).1) =~= (before + done.1)
                    + done.0.serve_one(all[i as int]).1);
            }
            i += 1;
        }
        assert(all.take(i as int) =~= all);
    }

    fn process(&mut self, run: u64, event: RunEvent, effects: &mut Vec<Effect>)
        requires
            old(self).wf(),
        ensures
            final(self).wf(),
            final(self)@ == old(self)@.process(run, event@).0,
            effect_views(final(effects)@) == effect_views(old(effects)@) + old(self)@.process(
                run,
                event@,
            ).1,
    {
        let ghost before = effect_views(effects@);
        let active = match self.watcher.active_run() {
            Some(active) => active == run,
            None => false,
        };
        if !active {
            assert(before + Seq::<EffectView>::empty() =~= before);
            return ;
        }
        if let Some(current) = self.run {
            let mut current = current;
            match current.step(event) {
                None => {
                    self.run = Some(current);
                },
                Some(RunAction::Log(line)) => {
                    self.run = Some(current);
                    proof {
                        lemma_views_push(effects@, Effect::Log(line));
                    }
                    effects.push(Effect::Log(line));
                },
                Some(RunAction::Kill) => {
                    self.run = Some(current);
                    proof {
                        lemma_views_push(effects@, Effect::Kill(run));
                    }
                    effects.push(Effect::Kill(run));
                },
                Some(RunAction::Finish(outcome)) => {
                    self.run = None;
                    self.watch(Event::BuildEnded(run, outcome), effects);
                },
            }
        }
        assert(effect_views(effects@) =~= before + old(self)@.process(run, event@).1);
    }

    fn session_event(&mut self, event: SessionEvent, effects: &mut Vec<Effect>)
        requires
            old(self).wf(),
        ensures
            final(self).wf(),
            final(self)@ == old(self)@.session_event(event@).0,
            effect_views(final(effects)@) == effect_views(old(effects)@) + old(
                self,
            )@.session_event(event@).1,
    {
        let actions = self.session.step(event);
        self.serve(actions, effects);
    }

    /// Takes one input and returns the effects that it calls for, in the
    /// order in which they are to be performed.
    pub fn step(&mut self, input: Input) -> (effects: Vec<Effect>)
        requires
            old(self).wf(),
            input.wf(),
        ensures
            final(self).wf(),
            final(self)@ == old(self)@.step(input@).0,
            effect_views(effects@) == old(self)@.step(input@).1,
    {
        let mut effects: Vec<Effect> = Vec::new();
        let open = self.session.state() == SessionState::Open;
        assert(effect_views(effects@) =~= Seq::<EffectView>::empty());
        let ghost spec_effects = old(self)@.step(input@).1;
        assert(Seq::<EffectView>::empty() + spec_effects =~= spec_effects);
        match input {
            Input::Accepted => self.session_event(SessionEvent::Accepted, &mut effects),
            Input::Writable => self.session_event(SessionEvent::Writable, &mut effects),
            Input::Message(message) => self.session_event(
                SessionEvent::Message(message),
                &mut effects,
            ),
            Input::TransportError(reason) => self.session_event(
                SessionEvent::TransportError(reason),
                &mut effects,
            ),
            Input::Disconnected => self.session_event(SessionEvent::Disconnected, &mut effects),
            Input::Tick => {
                if open {
                    self.watch(Event::Tick, &mut effects);
                }
            },
            Input::Observed(tree) => {
                if open {
                    self.watch(Event::Observed(tree), &mut effects);
                }
            },
            Input::SnapshotFailed => {
                if open && self.watcher.phase() != Phase::Stopped {
                    self.watch(Event::SnapshotFailed, &mut effects);
                    proof {
                        lemma_views_push(effects@, Effect::StopPolling);
                    }
                    effects.push(Effect::StopPolling);
                }
            },
            Input::Spawned(run) => self.process(run, RunEvent::Spawned, &mut effects),
            Input::SpawnFailed(run) => self.process(run, RunEvent::SpawnFailed, &mut effects),
            Input::Output(run, line) => self.process(run, RunEvent::Line(line), &mut effects),
            Input::Exited(run, code) => self.process(run, RunEvent::Exited(code), &mut effects),
        }
        effects
    }
}

/// An orchestrator together with an account of the processes that the
/// surrounding program was asked to launch.
pub struct Ledger {
    pub state: OrchestratorView,
    /// The runs whose launch was asked for and of which neither a failed
    /// launch nor the end of the process has been reported: the runs whose
    /// process may be alive.
    pub processes: Set<u64>,
    /// Whether a launch was ever asked for while a process was accounted for.
    pub overlapped: bool,
}

impl Ledger {
    /// The account of an orchestrator that has taken no input yet.
    pub open spec fn start(snapshot: Option<TreeView>, mode: BuildMode, root: Seq<char>) -> Ledger {
        Ledger {
            state: OrchestratorView::initial(snapshot, mode, root),
            processes: Set::empty(),
            overlapped: false,
        }
    }

    /// The account after the surrounding program has performed one effect.
    pub open spec fn perform_one(self, effect: EffectView) -> Ledger {
        match effect {
            EffectView::Spawn(run, _) => Ledger {
                processes: self.processes.insert(run),
                overlapped: self.overlapped || self.processes != Set::<u64>::empty(),
                ..self
            },
            _ => self,
        }
    }

    /// The account after a list of effects was performed in order.
    pub open spec fn perform(self, effects: Seq<EffectView>) -> Ledger
        decreases effects.len(),
    {
        if effects.len() == 0 {
            self
        } else {
            self.perform(effects.drop_last()).perform_one(effects.last())
        }
    }

    /// The account after one input: what the input says of a process is
    /// noted, the orchestrator takes its step, and the effects that it
    /// returns are performed.
    pub open spec fn advance(self, input: InputView) -> Ledger {
        Ledger {
            state: self.state.step(input).0,
            processes: match input {
                InputView::SpawnFailed(run) => self.processes.remove(run),
                InputView::Exited(run, _) => self.processes.remove(run),
                _ => self.processes,
            },
            ..self
        }.perform(self.state.step(input).1)
    }

    /// The account after a sequence of inputs.
    pub open spec fn replay(self, inputs: Seq<InputView>) -> Ledger
        decreases inputs.len(),
    {
        if inputs.len() == 0 {
            self
        } else {
            self.replay(inputs.drop_last()).advance(inputs.last())
        }
    }

    /// What the account of every life satisfies.
    pub open spec fn sound(self) -> bool {
        let watcher = self.state.watcher;
        &&& watcher.consistent()
        &&& self.state.run is Some <==> watcher.active is Some
        &&& match self.state.run {
            Some(state) => match watcher.phase {
                Phase::Building => state == RunState::Spawning || state == RunState::Running,
                _ => state == RunState::Withdrawn || state == RunState::Stopping,
            },
            None => true,
        }
        &&& self.processes == Set::<u64>::empty() || (watcher.active is Some && self.processes
            == Set::<u64>::empty().insert(watcher.active.unwrap()))
        &&& !self.overlapped
        &&& self.state.session.state == SessionState::Connecting ==> watcher.phase == Phase::Idle
        &&& self.state.session.state == SessionState::Closed ==> watcher.phase == Phase::Stopped
    }
}

/// Whether the effects hold a launch of the build tool.
pub open spec fn launches(effects: Seq<EffectView>) -> bool {
    exists|i: int| 0 <= i < effects.len() && (#[trigger] effects[i]) is Spawn
}

/// Whether the effects hold a write to the client.
pub open spec fn writes(effects: Seq<EffectView>) -> bool {
    exists|i: int| 0 <= i < effects.len() && (#[trigger] effects[i]) is Send
}

proof fn lemma_perform_quiet(ledger: Ledger, effects: Seq<EffectView>)
    requires
        !launches(effects),
    ensures
        ledger.perform(effects) == ledger,
    decreases effects.len(),
{
    if effects.len() > 0 {
        assert forall|i: int| 0 <= i < effects.drop_last().len() implies !((
        #[trigger] effects.drop_last()[i]) is Spawn) by {
            assert(!(effects[i] is Spawn));
        }
        lemma_perform_quiet(ledger, effects.drop_last());
        assert(!(effects[effects.len() - 1] is Spawn));
    }
}

proof fn lemma_perform_launch(ledger: Ledger, run: u64, command: BuildCommandView)
    ensures
        ledger.perform(seq![EffectView::Spawn(run, command)]) == ledger.perform_one(
            EffectView::Spawn(run, command),
        ),
{
    reveal_with_fuel(Ledger::perform, 2);
    assert(seq![EffectView::Spawn(run, command)].drop_last() =~= Seq::<EffectView>::empty());
}

proof fn lemma_route_short(s: OrchestratorView, actions: Seq<Action>)
    requires
        actions.len() <= 2,
    ensures
        actions.len() == 0 ==> s.route(actions) == (s, Seq::<EffectView>::empty()),
        actions.len() == 1 ==> s.route(actions) == s.route_one(actions[0]),
        actions.len() == 2 ==> s.route(actions) == (
            s.route_one(actions[0]).0.route_one(actions[1]).0,
            s.route_one(actions[0]).1 + s.route_one(actions[0]).0.route_one(actions[1]).1,
        ),
{
    reveal_with_fuel(OrchestratorView::route, 3);
    let none = Seq::<EffectView>::empty();
    if actions.len() == 1 {
        assert(actions.drop_last() =~= Seq::<Action>::empty());
        assert(none + s.route_one(actions[0]).1 =~= s.route_one(actions[0]).1);
    } else if actions.len() == 2 {
        assert(actions.drop_last().drop_last() =~= Seq::<Action>::empty());
        assert(actions.drop_last()[0] == actions[0]);
        assert(none + s.route_one(actions[0]).1 =~= s.route_one(actions[0]).1);
    }
}

/// What a step of the watcher comes to, case by case.
proof fn lemma_watch(s: OrchestratorView, event: EventView)
    requires
        s.watcher.consistent(),
    ensures
        ({
            let w = s.watcher;
            let next = w.step(event).0;
            let moved = OrchestratorView { watcher: next, ..s };
            let actions = w.step(event).1;
            let out = s.watch(event);
            &&& out.0.watcher == next
            &&& out.0.mode == s.mode
            &&& out.0.root == s.root
            &&& !writes(out.1)
            &&& actions.len() == 0 ==> out.1 == Seq::<EffectView>::empty()
            &&& if actions == seq![Action::StartBuild(w.next_run)] {
                &&& out.0.run == Some(RunState::Spawning)
                &&& out.0.session == s.session
                &&& out.1 == seq![EffectView::Spawn(w.next_run, command_for(s.mode, s.root))]
            } else if actions == seq![Action::StoreSnapshot, Action::EmitReload] {
                &&& out.0.run == s.run
                &&& out.0.session == s.session.step(SessionEventView::Reload).0
                &&& out.1 == seq![EffectView::StoreSnapshot]
            } else if w.active is Some && actions == seq![Action::KillBuild(w.active.unwrap())] {
                &&& out.0.session == s.session
                &&& out == moved.route_one(Action::KillBuild(w.active.unwrap()))
                &&& !launches(out.1)
            } else {
                &&& out.0.run == s.run
                &&& out.0.session == s.session
                &&& !launches(out.1)
                &&& out.1.len() <= 1
                &&& !out.1.contains(EffectView::StoreSnapshot) || actions == seq![
                    Action::StoreSnapshot,
                ]
            }
        }),
{
    let w = s.watcher;
    let moved = OrchestratorView { watcher: w.step(event).0, ..s };
    let actions = w.step(event).1;
    lemma_route_short(moved, actions);
    let out = s.watch(event);
    if actions.len() == 2 {
        assert(actions =~= seq![Action::StoreSnapshot, Action::EmitReload]);
        assert(out.1 =~= seq![EffectView::StoreSnapshot]);
    } else if actions.len() == 1 {
        assert(actions =~= seq![actions[0]]);
        match actions[0] {
            Action::StartBuild(run) => {
                assert(out.1 =~= seq![EffectView::Spawn(w.next_run, command_for(s.mode, s.root))]);
            },
            Action::KillBuild(run) => {
                assert(run == w.active.unwrap());
            },
            Action::StoreSnapshot => {
                assert(actions != seq![Action::StoreSnapshot, Action::EmitReload]);
            },
            _ => {
                assert(!out.1.contains(EffectView::StoreSnapshot)) by {
                    if out.1.contains(EffectView::StoreSnapshot) {
                        let i = choose|i: int|
                            0 <= i < out.1.len() && out.1[i] == EffectView::StoreSnapshot;
                        assert(out.1[i] == EffectView::StoreSnapshot);
                    }
                }
            },
        }
    }
}

proof fn lemma_quiet_concat(a: Seq<EffectView>, b: Seq<EffectView>)
    requires
        !launches(a),
        !launches(b),
    ensures
        !launches(a + b),
{
    if launches(a + b) {
        let i = choose|i: int| 0 <= i < (a + b).len() && (#[trigger] (a + b)[i]) is Spawn;
        if i < a.len() {
            assert(a[i] is Spawn);
        } else {
            assert(b[i - a.len()] is Spawn);
        }
    }
}

proof fn lemma_quiet_single(effect: EffectView)
    requires
        !(effect is Spawn),
    ensures
        !launches(seq![effect]),
        !launches(Seq::<EffectView>::empty()),
{
}

proof fn lemma_quiet_push(a: Seq<EffectView>, effect: EffectView)
    requires
        !launches(a),
        !(effect is Spawn),
    ensures
        !launches(a.push(effect)),
{
    lemma_quiet_single(effect);
    lemma_quiet_concat(a, seq![effect]);
    assert(a.push(effect) =~= a + seq![effect]);
}

/// What a step of the session comes to: the session moves, the watcher is
/// stopped when the session ends, and the build tool is never launched.
proof fn lemma_serve(s: OrchestratorView, event: SessionEventView)
    requires
        s.watcher.consistent(),
    ensures
        ({
            let out = s.session_event(event);
            let ends = s.session.state == SessionState::Open && (event is Disconnected
                || event is TransportError);
            &&& out.0.session == s.session.step(event).0
            &&& !launches(out.1)
            &&& !out.1.contains(EffectView::StoreSnapshot)
            &&& s.session.state == SessionState::Closed ==> out.1 == Seq::<EffectView>::empty()
            &&& if ends {
                &&& out.0.watcher == s.watcher.step(EventView::Stop).0
                &&& out.0.run == s.watch(EventView::Stop).0.run
            } else {
                &&& out.0.watcher == s.watcher
                &&& out.0.run == s.run
            }
        }),
{
    reveal_with_fuel(OrchestratorView::serve, 4);
    let actions = s.session.step(event).1;
    let moved = OrchestratorView { session: s.session.step(event).0, ..s };
    let out = s.session_event(event);
    let none = Seq::<EffectView>::empty();
    lemma_watch(moved, EventView::Stop);
    lemma_watch(s, EventView::Stop);
    let stop = moved.watch(EventView::Stop);
    lemma_quiet_push(stop.1, EffectView::StopPolling);
    assert(!stop.1.push(EffectView::StopPolling).contains(EffectView::StoreSnapshot)) by {
        let e = stop.1.push(EffectView::StopPolling);
        if e.contains(EffectView::StoreSnapshot) {
            let i = choose|i: int| 0 <= i < e.len() && e[i] == EffectView::StoreSnapshot;
            assert(stop.1[i] == EffectView::StoreSnapshot);
            assert(stop.1.contains(EffectView::StoreSnapshot));
        }
    }
    if actions.len() == 1 {
        assert(actions.drop_last() =~= Seq::<SessionActionView>::empty());
        let a = moved.serve_one(actions[0]);
        assert(none + a.1 =~= a.1);
        assert(!launches(a.1) && !a.1.contains(EffectView::StoreSnapshot)) by {
            if a.1.len() == 1 {
                assert(a.1 =~= seq![a.1[0]]);
            }
        }
    } else if actions.len() == 2 {
        // the end of the connection: stop the watcher, stop forwarding
        assert(actions.drop_last().drop_last() =~= Seq::<SessionActionView>::empty());
        assert(actions.drop_last()[0] == actions[0]);
        let a = moved.serve_one(actions[0]);
        let b = a.0.serve_one(actions[1]);
        assert(none + a.1 =~= a.1);
        assert(out.1 =~= a.1 + b.1);
        lemma_quiet_single(EffectView::StopForwarding);
        lemma_quiet_concat(a.1, b.1);
        assert(!out.1.contains(EffectView::StoreSnapshot)) by {
            if out.1.contains(EffectView::StoreSnapshot) {
                let i = choose|i: int| 0 <= i < out.1.len() && out.1[i] == EffectView::StoreSnapshot;
                if i < a.1.len() {
                    assert(a.1[i] == EffectView::StoreSnapshot);
                }
            }
        }
    } else if actions.len() == 3 {
        assert(actions.drop_last().drop_last().drop_last() =~= Seq::<SessionActionView>::empty());
        assert(actions.drop_last().drop_last()[0] == actions[0]);
        assert(actions.drop_last()[1] == actions[1]);
        let a = moved.serve_one(actions[0]);
        let b = a.0.serve_one(actions[1]);
        let c = b.0.serve_one(actions[2]);
        assert(none + a.1 =~= a.1);
        assert(out.1 =~= (a.1 + b.1) + c.1);
        if s.session.state == SessionState::Connecting {
            lemma_quiet_single(EffectView::Send(ReloadEvent::Reload));
            lemma_quiet_single(EffectView::StartForwarding);
            lemma_quiet_single(EffectView::StartPolling);
            lemma_quiet_concat(a.1, b.1);
            lemma_quiet_concat(a.1 + b.1, c.1);
            assert(!out.1.contains(EffectView::StoreSnapshot)) by {
                if out.1.contains(EffectView::StoreSnapshot) {
                    let i = choose|i: int|
                        0 <= i < out.1.len() && out.1[i] == EffectView::StoreSnapshot;
                    assert(out.1[i] == EffectView::StoreSnapshot);
                }
            }
        } else {
            let reason = event->TransportError_0;
            lemma_quiet_single(EffectView::Log(reason));
            lemma_quiet_single(EffectView::StopForwarding);
            lemma_quiet_concat(a.1, b.1);
            lemma_quiet_concat(a.1 + b.1, c.1);
            assert(!out.1.contains(EffectView::StoreSnapshot)) by {
                if out.1.contains(EffectView::StoreSnapshot) {
                    let i = choose|i: int|
                        0 <= i < out.1.len() && out.1[i] == EffectView::StoreSnapshot;
                    if 1 <= i < 1 + b.1.len() {
                        assert(b.1[i - 1] == EffectView::StoreSnapshot);
                    }
                }
            }
        }
    }
}

/// What a step on an event of a process comes to.
proof fn lemma_process(s: OrchestratorView, run: u64, event: RunEventView)
    requires
        s.watcher.consistent(),
        !(event is Cancel),
        s.run is Some ==> !(s.run.unwrap() is Done),
    ensures
        ({
            let out = s.process(run, event);
            let taken = s.watcher.active == Some(run) && s.run is Some;
            let moved = run_step(s.run.unwrap(), event);
            let ended = OrchestratorView { run: None, ..s };
            &&& !taken ==> out == (s, Seq::<EffectView>::empty())
            &&& !writes(out.1)
            &&& taken && !(moved.0 is Done) ==> {
                &&& out.0 == (OrchestratorView { run: Some(moved.0), ..s })
                &&& !launches(out.1)
                &&& !out.1.contains(EffectView::StoreSnapshot)
            }
            &&& taken && moved.0 is Done ==> {
                &&& event is SpawnFailed || event is Exited
                &&& out == ended.watch(EventView::BuildEnded(run, moved.0->Done_0))
            }
        }),
{
    let out = s.process(run, event);
    if s.watcher.active == Some(run) && s.run is Some {
        let moved = run_step(s.run.unwrap(), event);
        if moved.0 is Done {
            lemma_watch(
                OrchestratorView { run: None, ..s },
                EventView::BuildEnded(run, moved.0->Done_0),
            );
        }
        if !(moved.0 is Done) {
            if out.1.len() == 1 {
                assert(out.1 =~= seq![out.1[0]]);
                lemma_quiet_single(out.1[0]);
            }
            assert(!out.1.contains(EffectView::StoreSnapshot)) by {
                if out.1.contains(EffectView::StoreSnapshot) {
                    let i = choose|i: int|
                        0 <= i < out.1.len() && out.1[i] == EffectView::StoreSnapshot;
                    assert(out.1[i] == EffectView::StoreSnapshot);
                }
            }
        }
    }
}

proof fn lemma_advance_sound(ledger: Ledger, input: InputView)
    requires
        ledger.sound(),
    ensures
        ledger.advance(input).sound(),
{
    let s = ledger.state;
    let out = s.step(input);
    let noted = Ledger {
        state: out.0,
        processes: match input {
            InputView::SpawnFailed(run) => ledger.processes.remove(run),
            InputView::Exited(run, _) => ledger.processes.remove(run),
            _ => ledger.processes,
        },
        ..ledger
    };
    let none = Set::<u64>::empty();
    match input {
        InputView::Tick => {
            lemma_watch(s, EventView::Tick);
            lemma_perform_quiet(noted, out.1);
        },
        InputView::Observed(tree) => {
            lemma_watch(s, EventView::Observed(tree));
            if s.session.state == SessionState::Open && s.watcher.step(
                EventView::Observed(tree),
            ).1 == seq![Action::StartBuild(s.watcher.next_run)] {
                lemma_perform_launch(noted, s.watcher.next_run, command_for(s.mode, s.root));
            } else {
                lemma_perform_quiet(noted, out.1);
            }
        },
        InputView::SnapshotFailed => {
            lemma_watch(s, EventView::SnapshotFailed);
            if s.session.state == SessionState::Open && s.watcher.phase != Phase::Stopped {
                lemma_quiet_push(
                    s.watch(EventView::SnapshotFailed).1,
                    EffectView::StopPolling,
                );
            }
            lemma_perform_quiet(noted, out.1);
        },
        InputView::Spawned(run) => {
            lemma_process(s, run, RunEventView::Spawned);
            lemma_perform_quiet(noted, out.1);
        },
        InputView::Output(run, line) => {
            lemma_process(s, run, RunEventView::Line(line));
            lemma_perform_quiet(noted, out.1);
        },
        InputView::SpawnFailed(run) => {
            lemma_ended(ledger, run, RunEventView::SpawnFailed);
        },
        InputView::Exited(run, code) => {
            lemma_ended(ledger, run, RunEventView::Exited(code));
        },
        InputView::Accepted => {
            lemma_session(ledger, SessionEventView::Accepted);
        },
        InputView::Writable => {
            lemma_session(ledger, SessionEventView::Writable);
        },
        InputView::Text(text) => {
            lemma_session(ledger, SessionEventView::Text(text));
        },
        InputView::OtherMessage => {
            lemma_session(ledger, SessionEventView::Other);
        },
        InputView::TransportError(reason) => {
            lemma_session(ledger, SessionEventView::TransportError(reason));
        },
        InputView::Disconnected => {
            lemma_session(ledger, SessionEventView::Disconnected);
        },
    }
}

proof fn lemma_session(ledger: Ledger, event: SessionEventView)
    requires
        ledger.sound(),
        !(event is Reload),
    ensures
        (Ledger { state: ledger.state.session_event(event).0, ..ledger }).perform(
            ledger.state.session_event(event).1,
        ).sound(),
{
    let s = ledger.state;
    lemma_serve(s, event);
    lemma_watch(s, EventView::Stop);
    lemma_perform_quiet(
        Ledger { state: s.session_event(event).0, ..ledger },
        s.session_event(event).1,
    );
}

proof fn lemma_ended(ledger: Ledger, run: u64, event: RunEventView)
    requires
        ledger.sound(),
        event is SpawnFailed || event is Exited,
    ensures
        (Ledger {
            state: ledger.state.process(run, event).0,
            processes: ledger.processes.remove(run),
            ..ledger
        }).perform(ledger.state.process(run, event).1).sound(),
{
    let s = ledger.state;
    let out = s.process(run, event);
    let noted = Ledger { state: out.0, processes: ledger.processes.remove(run), ..ledger };
    let none = Set::<u64>::empty();
    lemma_process(s, run, event);
    if s.watcher.active == Some(run) {
        assert(noted.processes =~= none);
        let moved = run_step(s.run.unwrap(), event);
        if moved.0 is Done {
            let ended = OrchestratorView { run: None, ..s };
            let outcome = moved.0->Done_0;
            lemma_watch(ended, EventView::BuildEnded(run, outcome));
            if s.watcher.step(EventView::BuildEnded(run, outcome)).1 == seq![
                Action::StartBuild(s.watcher.next_run),
            ] {
                lemma_perform_launch(noted, s.watcher.next_run, command_for(s.mode, s.root));
            } else {
                lemma_perform_quiet(noted, out.1);
            }
        } else {
            lemma_perform_quiet(noted, out.1);
        }
    } else {
        assert(noted.processes =~= ledger.processes);
        lemma_perform_quiet(noted, out.1);
    }
}

/// Every account that starts fresh and follows the orchestrator is sound.
pub proof fn lemma_replay_sound(
    snapshot: Option<TreeView>,
    mode: BuildMode,
    root: Seq<char>,
    inputs: Seq<InputView>,
)
    ensures
        Ledger::start(snapshot, mode, root).replay(inputs).sound(),
    decreases inputs.len(),
{
    if inputs.len() > 0 {
        lemma_replay_sound(snapshot, mode, root, inputs.drop_last());
        lemma_advance_sound(
            Ledger::start(snapshot, mode, root).replay(inputs.drop_last()),
            inputs.last(),
        );
    }
}

/// At most one process of the build tool is alive at any time, and none is
/// ever launched while another may be alive: after every sequence of inputs
/// the processes accounted for are at most the one of the active run, and no
/// launch was asked for while a process was accounted for.
pub proof fn law_one_process_at_a_time(
    snapshot: Option<TreeView>,
    mode: BuildMode,
    root: Seq<char>,
    inputs: Seq<InputView>,
)
    ensures
        ({
            let ledger = Ledger::start(snapshot, mode, root).replay(inputs);
            &&& ledger.processes.finite()
            &&& ledger.processes.len() <= 1
            &&& forall|run: u64| #[trigger]
                ledger.processes.contains(run) ==> ledger.state.watcher.active == Some(run)
            &&& !ledger.overlapped
        }),
{
    lemma_replay_sound(snapshot, mode, root, inputs);
}

/// The build tool is launched in two situations only: when an observation
/// differs from the snapshot while nothing is being built, and when the
/// process of a cancelled run is reported gone. So the replacement of a
/// cancelled run never starts before the cancelled process has ended.
pub proof fn law_launch_follows_end(
    snapshot: Option<TreeView>,
    mode: BuildMode,
    root: Seq<char>,
    inputs: Seq<InputView>,
    input: InputView,
)
    ensures
        ({
            let ledger = Ledger::start(snapshot, mode, root).replay(inputs);
            let s = ledger.state;
            launches(s.step(input).1) ==> {
                &&& s.step(input).1 == seq![
                    EffectView::Spawn(s.watcher.next_run, command_for(mode, root)),
                ]
                &&& match input {
                    InputView::Observed(_) => s.watcher.phase == Phase::Comparing
                        && ledger.processes == Set::<u64>::empty(),
                    InputView::Exited(run, _) => s.watcher.phase == Phase::Cancelling
                        && s.watcher.active == Some(run),
                    InputView::SpawnFailed(run) => s.watcher.phase == Phase::Cancelling
                        && s.watcher.active == Some(run),
                    _ => false,
                }
            }
        }),
{
    lemma_replay_sound(snapshot, mode, root, inputs);
    lemma_replay_keeps_settings(snapshot, mode, root, inputs);
    let ledger = Ledger::start(snapshot, mode, root).replay(inputs);
    let s = ledger.state;
    match input {
        InputView::Tick => {
            lemma_watch(s, EventView::Tick);
        },
        InputView::Observed(tree) => {
            lemma_watch(s, EventView::Observed(tree));
        },
        InputView::SnapshotFailed => {
            lemma_watch(s, EventView::SnapshotFailed);
            if s.session.state == SessionState::Open && s.watcher.phase != Phase::Stopped {
                lemma_quiet_push(
                    s.watch(EventView::SnapshotFailed).1,
                    EffectView::StopPolling,
                );
            }
        },
        InputView::Spawned(run) => {
            lemma_process(s, run, RunEventView::Spawned);
        },
        InputView::Output(run, line) => {
            lemma_process(s, run, RunEventView::Line(line));
        },
        InputView::SpawnFailed(run) => {
            lemma_process(s, run, RunEventView::SpawnFailed);
            if s.watcher.active == Some(run) && s.run is Some {
                let moved = run_step(s.run.unwrap(), RunEventView::SpawnFailed);
                if moved.0 is Done {
                    lemma_watch(
                        OrchestratorView { run: None, ..s },
                        EventView::BuildEnded(run, moved.0->Done_0),
                    );
                }
            }
        },
        InputView::Exited(run, code) => {
            lemma_process(s, run, RunEventView::Exited(code));
            if s.watcher.active == Some(run) && s.run is Some {
                let moved = run_step(s.run.unwrap(), RunEventView::Exited(code));
                if moved.0 is Done {
                    lemma_watch(
                        OrchestratorView { run: None, ..s },
                        EventView::BuildEnded(run, moved.0->Done_0),
                    );
                }
            }
        },
        InputView::Accepted => {
            lemma_serve(s, SessionEventView::Accepted);
        },
        InputView::Writable => {
            lemma_serve(s, SessionEventView::Writable);
        },
        InputView::Text(text) => {
            lemma_serve(s, SessionEventView::Text(text));
        },
        InputView::OtherMessage => {
            lemma_serve(s, SessionEventView::Other);
        },
        InputView::TransportError(reason) => {
            lemma_serve(s, SessionEventView::TransportError(reason));
        },
        InputView::Disconnected => {
            lemma_serve(s, SessionEventView::Disconnected);
        },
    }
}

proof fn lemma_perform_keeps_state(ledger: Ledger, effects: Seq<EffectView>)
    ensures
        ledger.perform(effects).state == ledger.state,
    decreases effects.len(),
{
    if effects.len() > 0 {
        lemma_perform_keeps_state(ledger, effects.drop_last());
    }
}

proof fn lemma_step_keeps_settings(s: OrchestratorView, input: InputView)
    requires
        s.watcher.consistent(),
    ensures
        s.step(input).0.mode == s.mode,
        s.step(input).0.root == s.root,
{
    match input {
        InputView::Tick => {
            lemma_watch(s, EventView::Tick);
        },
        InputView::Observed(tree) => {
            lemma_watch(s, EventView::Observed(tree));
        },
        InputView::SnapshotFailed => {
            lemma_watch(s, EventView::SnapshotFailed);
        },
        InputView::Spawned(run) => {
            lemma_settings_of_process(s, run, RunEventView::Spawned);
        },
        InputView::Output(run, line) => {
            lemma_settings_of_process(s, run, RunEventView::Line(line));
        },
        InputView::SpawnFailed(run) => {
            lemma_settings_of_process(s, run, RunEventView::SpawnFailed);
        },
        InputView::Exited(run, code) => {
            lemma_settings_of_process(s, run, RunEventView::Exited(code));
        },
        InputView::Accepted => {
            lemma_settings_of_session(s, SessionEventView::Accepted);
        },
        InputView::Writable => {
            lemma_settings_of_session(s, SessionEventView::Writable);
        },
        InputView::Text(text) => {
            lemma_settings_of_session(s, SessionEventView::Text(text));
        },
        InputView::OtherMessage => {
            lemma_settings_of_session(s, SessionEventView::Other);
        },
        InputView::TransportError(reason) => {
            lemma_settings_of_session(s, SessionEventView::TransportError(reason));
        },
        InputView::Disconnected => {
            lemma_settings_of_session(s, SessionEventView::Disconnected);
        },
    }
}

proof fn lemma_settings_of_process(s: OrchestratorView, run: u64, event: RunEventView)
    requires
        s.watcher.consistent(),
    ensures
        s.process(run, event).0.mode == s.mode,
        s.process(run, event).0.root == s.root,
{
    if s.watcher.active == Some(run) && s.run is Some {
        let moved = run_step(s.run.unwrap(), event);
        if moved.0 is Done {
            lemma_watch(
                OrchestratorView { run: None, ..s },
                EventView::BuildEnded(run, moved.0->Done_0),
            );
        }
    }
}

proof fn lemma_settings_of_session(s: OrchestratorView, event: SessionEventView)
    requires
        s.watcher.consistent(),
    ensures
        s.session_event(event).0.mode == s.mode,
        s.session_event(event).0.root == s.root,
{
    reveal_with_fuel(OrchestratorView::serve, 4);
    let actions = s.session.step(event).1;
    let moved = OrchestratorView { session: s.session.step(event).0, ..s };
    lemma_watch(moved, EventView::Stop);
    if actions.len() == 1 {
        assert(actions.drop_last() =~= Seq::<SessionActionView>::empty());
    } else if actions.len() == 2 {
        assert(actions.drop_last().drop_last() =~= Seq::<SessionActionView>::empty());
        assert(actions.drop_last()[0] == actions[0]);
        lemma_watch(moved.serve_one(actions[0]).0, EventView::Stop);
    } else if actions.len() == 3 {
        assert(actions.drop_last().drop_last().drop_last() =~= Seq::<SessionActionView>::empty());
        assert(actions.drop_last().drop_last()[0] == actions[0]);
        assert(actions.drop_last()[1] == actions[1]);
        lemma_watch(moved.serve_one(actions[0]).0, EventView::Stop);
    }
}

proof fn lemma_replay_keeps_settings(
    snapshot: Option<TreeView>,
    mode: BuildMode,
    root: Seq<char>,
    inputs: Seq<InputView>,
)
    ensures
        Ledger::start(snapshot, mode, root).replay(inputs).state.mode == mode,
        Ledger::start(snapshot, mode, root).replay(inputs).state.root == root,
    decreases inputs.len(),
{
    if inputs.len() > 0 {
        let before = Ledger::start(snapshot, mode, root).replay(inputs.drop_last());
        lemma_replay_keeps_settings(snapshot, mode, root, inputs.drop_last());
        lemma_replay_sound(snapshot, mode, root, inputs.drop_last());
        lemma_step_keeps_settings(before.state, inputs.last());
        lemma_perform_keeps_state(
            Ledger {
                state: before.state.step(inputs.last()).0,
                processes: match inputs.last() {
                    InputView::SpawnFailed(run) => before.processes.remove(run),
                    InputView::Exited(run, _) => before.processes.remove(run),
                    _ => before.processes,
                },
                ..before
            },
            before.state.step(inputs.last()).1,
        );
    }
}

/// A build that is superseded is killed, not left behind: when an
/// observation during a build shows another tree, the watcher goes on to
/// cancelling and the process of the run, if it has been launched, is asked
/// to die in the same step. While the watcher is cancelling, the run has been
/// told to stop.
pub proof fn law_superseded_build_is_killed(
    snapshot: Option<TreeView>,
    mode: BuildMode,
    root: Seq<char>,
    inputs: Seq<InputView>,
    tree: TreeView,
)
    ensures
        ({
            let s = Ledger::start(snapshot, mode, root).replay(inputs).state;
            let out = s.step(InputView::Observed(tree));
            &&& s.watcher.phase == Phase::Cancelling ==> s.run == Some(RunState::Stopping)
                || s.run == Some(RunState::Withdrawn)
            &&& s.session.state == SessionState::Open && s.watcher.phase == Phase::Building
                && s.watcher.pending != Some(tree) ==> {
                &&& out.0.watcher.phase == Phase::Cancelling
                &&& s.run == Some(RunState::Running) ==> out.0.run == Some(RunState::Stopping)
                    && out.1 == seq![EffectView::Kill(s.watcher.active.unwrap())]
                &&& s.run == Some(RunState::Spawning) ==> out.0.run == Some(RunState::Withdrawn)
                    && out.1 == Seq::<EffectView>::empty()
            }
        }),
{
    lemma_replay_sound(snapshot, mode, root, inputs);
    let s = Ledger::start(snapshot, mode, root).replay(inputs).state;
    lemma_watch(s, EventView::Observed(tree));
}

/// A client is told to reload only after the snapshot of the build has been
/// stored: the one step that puts a reload event into the channel is the
/// step that takes the successful end of the active run, and that step asks
/// for the snapshot to be stored and writes nothing to the client.
pub proof fn law_reload_after_snapshot(
    snapshot: Option<TreeView>,
    mode: BuildMode,
    root: Seq<char>,
    inputs: Seq<InputView>,
    input: InputView,
)
    ensures
        ({
            let s = Ledger::start(snapshot, mode, root).replay(inputs).state;
            let out = s.step(input);
            out.0.session.backlog.len() > s.session.backlog.len() ==> {
                &&& out.1 == seq![EffectView::StoreSnapshot]
                &&& out.0.session.backlog == s.session.backlog.push(ReloadEvent::Reload)
                &&& out.0.watcher.snapshot == s.watcher.pending
                &&& s.watcher.phase == Phase::Building
                &&& input == InputView::Exited(s.watcher.active.unwrap(), Some(0i32))
            }
        }),
{
    lemma_replay_sound(snapshot, mode, root, inputs);
    let s = Ledger::start(snapshot, mode, root).replay(inputs).state;
    match input {
        InputView::Tick => {
            lemma_watch(s, EventView::Tick);
        },
        InputView::Observed(tree) => {
            lemma_watch(s, EventView::Observed(tree));
        },
        InputView::SnapshotFailed => {
            lemma_watch(s, EventView::SnapshotFailed);
        },
        InputView::Spawned(run) => {
            lemma_process(s, run, RunEventView::Spawned);
        },
        InputView::Output(run, line) => {
            lemma_process(s, run, RunEventView::Line(line));
        },
        InputView::SpawnFailed(run) => {
            lemma_process(s, run, RunEventView::SpawnFailed);
            if s.watcher.active == Some(run) && s.run is Some {
                let moved = run_step(s.run.unwrap(), RunEventView::SpawnFailed);
                if moved.0 is Done {
                    lemma_watch(
                        OrchestratorView { run: None, ..s },
                        EventView::BuildEnded(run, moved.0->Done_0),
                    );
                }
            }
        },
        InputView::Exited(run, code) => {
            lemma_process(s, run, RunEventView::Exited(code));
            if s.watcher.active == Some(run) && s.run is Some {
                let moved = run_step(s.run.unwrap(), RunEventView::Exited(code));
                if moved.0 is Done {
                    lemma_watch(
                        OrchestratorView { run: None, ..s },
                        EventView::BuildEnded(run, moved.0->Done_0),
                    );
                }
            }
        },
        InputView::Accepted => {
            lemma_serve(s, SessionEventView::Accepted);
        },
        InputView::Writable => {
            lemma_serve(s, SessionEventView::Writable);
        },
        InputView::Text(text) => {
            lemma_serve(s, SessionEventView::Text(text));
        },
        InputView::OtherMessage => {
            lemma_serve(s, SessionEventView::Other);
        },
        InputView::TransportError(reason) => {
            lemma_serve(s, SessionEventView::TransportError(reason));
        },
        InputView::Disconnected => {
            lemma_serve(s, SessionEventView::Disconnected);
        },
    }
}

/// The end of a session leaves nothing behind: the watcher is stopped, the
/// run in flight has been told to stop, and from then on no input launches
/// the build tool or writes to the client. Once the process of that run is
/// reported gone, no run is left.
pub proof fn law_ended_session_leaves_nothing(
    snapshot: Option<TreeView>,
    mode: BuildMode,
    root: Seq<char>,
    inputs: Seq<InputView>,
    input: InputView,
)
    requires
        Ledger::start(snapshot, mode, root).replay(inputs).state.session.state
            == SessionState::Closed,
    ensures
        ({
            let s = Ledger::start(snapshot, mode, root).replay(inputs).state;
            let out = s.step(input);
            &&& s.watcher.phase == Phase::Stopped
            &&& s.run is Some ==> s.run == Some(RunState::Stopping) || s.run == Some(
                RunState::Withdrawn,
            )
            &&& out.0.session == s.session
            &&& out.0.watcher.phase == Phase::Stopped
            &&& !launches(out.1)
            &&& !writes(out.1)
            &&& s.run == Some(RunState::Stopping) && input is Exited && input->Exited_0
                == s.watcher.active.unwrap() ==> out.0.run is None && out.0.watcher.active is None
        }),
{
    lemma_replay_sound(snapshot, mode, root, inputs);
    law_launch_follows_end(snapshot, mode, root, inputs, input);
    let s = Ledger::start(snapshot, mode, root).replay(inputs).state;
    match input {
        InputView::Spawned(run) => {
            lemma_process(s, run, RunEventView::Spawned);
        },
        InputView::Output(run, line) => {
            lemma_process(s, run, RunEventView::Line(line));
        },
        InputView::SpawnFailed(run) => {
            lemma_process(s, run, RunEventView::SpawnFailed);
        },
        InputView::Exited(run, code) => {
            lemma_process(s, run, RunEventView::Exited(code));
        },
        InputView::Accepted => {
            lemma_serve(s, SessionEventView::Accepted);
        },
        InputView::Writable => {
            lemma_serve(s, SessionEventView::Writable);
        },
        InputView::Text(text) => {
            lemma_serve(s, SessionEventView::Text(text));
        },
        InputView::OtherMessage => {
            lemma_serve(s, SessionEventView::Other);
        },
        InputView::TransportError(reason) => {
            lemma_serve(s, SessionEventView::TransportError(reason));
        },
        InputView::Disconnected => {
            lemma_serve(s, SessionEventView::Disconnected);
        },
        _ => {},
    }
}

} // verus!
