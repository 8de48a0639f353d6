//! The change watcher: one state machine per session.
//!
//! The watcher never performs anything itself. It is told what happened (an
//! [`Event`]) and answers with what is to be done (a list of [`Action`]s, to
//! be performed in order). The surrounding program owns the poll timer, reads
//! the source tree, runs the build tool and writes the snapshot to disk.
use crate::pipeline::{BuildError, BuildOutcome};
use crate::snapshot::{is_change, Comparison, SnapshotStore};
use crate::tree::{has_changed, Tree, TreeView};
use vstd::prelude::*;

verus! {

/// The time between two poll ticks, in milliseconds.
pub const POLL_INTERVAL_MS: u64 = 2000;

/// Where the watcher stands.
#[derive(Clone, Copy, Debug, PartialEq, Eq, Structural)]
pub enum Phase {
    /// Waiting for the next poll tick.
    Idle,
    /// An observation of the source tree has been asked for.
    Comparing,
    /// A build run is in flight.
    Building,
    /// The run in flight has been told to stop; its replacement starts as
    /// soon as the run has ended.
    Cancelling,
    /// The watcher has ended, by request or because the snapshot could not be
    /// kept. It starts nothing any more.
    Stopped,
}

/// What the surrounding program reports to the watcher.
#[derive(Clone, Debug)]
pub enum Event {
    /// The poll interval has passed.
    Tick,
    /// The source tree was read, as asked by [`Action::Observe`].
    Observed(Tree),
    /// The build run with this number has ended and its process is gone.
    /// Reported exactly once for every [`Action::StartBuild`].
    BuildEnded(u64, BuildOutcome),
    /// The snapshot on disk could not be written or removed.
    SnapshotFailed,
    /// The session that owns the watcher is being torn down.
    Stop,
}

/// The mathematical value of an [`Event`].
pub enum EventView {
    Tick,
    Observed(TreeView),
    BuildEnded(u64, BuildOutcome),
    SnapshotFailed,
    Stop,
}

impl View for Event {
    type V = EventView;

    open spec fn view(&self) -> EventView {
        match self {
            Event::Tick => EventView::Tick,
            Event::Observed(tree) => EventView::Observed(tree@),
            Event::BuildEnded(run, outcome) => EventView::BuildEnded(*run, *outcome),
            Event::SnapshotFailed => EventView::SnapshotFailed,
            Event::Stop => EventView::Stop,
        }
    }
}

impl Event {
    /// The tree that an event carries is well formed.
    pub open spec fn wf(&self) -> bool {
        match self {
            Event::Observed(tree) => tree.wf(),
            _ => true,
        }
    }
}

/// What the watcher asks the surrounding program to do.
#[derive(Clone, Copy, Debug, PartialEq, Eq, Structural)]
pub enum Action {
    /// Read the source tree and report it with [`Event::Observed`].
    Observe,
    /// Start a build run under this number.
    StartBuild(u64),
    /// Kill the process of this run, and report [`Event::BuildEnded`] once it
    /// is gone.
    KillBuild(u64),
    /// Bring the snapshot on disk in line with [`Watcher::snapshot`].
    StoreSnapshot,
    /// Send a reload event to the session.
    EmitReload,
    /// Log that a build failed.
    ReportFailure(BuildError),
}

/// The mathematical value of a [`Watcher`].
pub struct WatcherView {
    pub phase: Phase,
    /// The baseline of the snapshot store.
    pub snapshot: Option<TreeView>,
    /// The tree that the run in flight, or its replacement, is built from.
    pub pending: Option<TreeView>,
    /// The number of the run whose process may be alive.
    pub active: Option<u64>,
    /// The number that the next run gets.
    pub next_run: u64,
}

/// The number after `run`; the numbers wrap around.
pub open spec fn run_after(run: u64) -> u64 {
    if run == u64::MAX {
        0
    } else {
        (run + 1) as u64
    }
}

impl WatcherView {
    /// The state that a watcher starts in.
    pub open spec fn initial(snapshot: Option<TreeView>) -> WatcherView {
        WatcherView { phase: Phase::Idle, snapshot, pending: None, active: None, next_run: 0 }
    }

    /// What every state that a watcher reaches satisfies: there is a run
    /// exactly while building or cancelling, and a tree to build from with it.
    pub open spec fn consistent(self) -> bool {
        match self.phase {
            Phase::Idle | Phase::Comparing => self.active is None && self.pending is None,
            Phase::Building | Phase::Cancelling => self.active is Some && self.pending is Some,
            Phase::Stopped => self.pending is None,
        }
    }

    /// A poll tick: when idle an observation is asked for and compared, and
    /// while a run is in flight the tree is observed as well.
    pub open spec fn on_tick(self) -> (WatcherView, Seq<Action>) {
        match self.phase {
            Phase::Idle => (WatcherView { phase: Phase::Comparing, ..self }, seq![Action::Observe]),
            Phase::Building | Phase::Cancelling => (self, seq![Action::Observe]),
            _ => (self, Seq::empty()),
        }
    }

    /// The state in which a new run has been started from `tree`.
    pub open spec fn building(self, tree: TreeView) -> WatcherView {
        WatcherView {
            phase: Phase::Building,
            pending: Some(tree),
            active: Some(self.next_run),
            next_run: run_after(self.next_run),
            ..self
        }
    }

    /// An observation of the source tree.
    pub open spec fn on_observed(self, tree: TreeView) -> (WatcherView, Seq<Action>) {
        match self.phase {
            Phase::Comparing => {
                if self.snapshot is None {
                    (
                        WatcherView { phase: Phase::Idle, snapshot: Some(tree), ..self },
                        seq![Action::StoreSnapshot],
                    )
                } else if is_change(self.snapshot, tree) {
                    (self.building(tree), seq![Action::StartBuild(self.next_run)])
                } else {
                    (WatcherView { phase: Phase::Idle, ..self }, Seq::empty())
                }
            },
            Phase::Building => {
                if self.pending != Some(tree) && self.active is Some {
                    (
                        WatcherView { phase: Phase::Cancelling, pending: Some(tree), ..self },
                        seq![Action::KillBuild(self.active.unwrap())],
                    )
                } else {
                    (self, Seq::empty())
                }
            },
            Phase::Cancelling => (WatcherView { pending: Some(tree), ..self }, Seq::empty()),
            _ => (self, Seq::empty()),
        }
    }

    /// The end of the run numbered `run`. The end of any other run changes
    /// nothing.
    pub open spec fn on_build_ended(self, run: u64, outcome: BuildOutcome) -> (
        WatcherView,
        Seq<Action>,
    ) {
        if self.active != Some(run) {
            (self, Seq::empty())
        } else {
            let idle = WatcherView { phase: Phase::Idle, pending: None, active: None, ..self };
            match self.phase {
                Phase::Building => match outcome {
                    BuildOutcome::Success => (
                        WatcherView { snapshot: self.pending, ..idle },
                        seq![Action::StoreSnapshot, Action::EmitReload],
                    ),
                    BuildOutcome::Failed(error) => (idle, seq![Action::ReportFailure(error)]),
                    BuildOutcome::Cancelled => (idle, Seq::empty()),
                },
                Phase::Cancelling => match self.pending {
                    Some(tree) => (self.building(tree), seq![Action::StartBuild(self.next_run)]),
                    None => (idle, Seq::empty()),
                },
                Phase::Stopped => (WatcherView { active: None, ..self }, Seq::empty()),
                _ => (self, Seq::empty()),
            }
        }
    }

    /// The end of the watcher. A run that has not been told to stop yet is
    /// killed.
    pub open spec fn on_stop(self) -> (WatcherView, Seq<Action>) {
        let stopped = WatcherView { phase: Phase::Stopped, pending: None, ..self };
        match self.phase {
            Phase::Building if self.active is Some => (
                stopped,
                seq![Action::KillBuild(self.active.unwrap())],
            ),
            _ => (stopped, Seq::empty()),
        }
    }

    /// The transition function of the watcher: the state after `event`, and
    /// the actions that the event calls for, in the order in which they are
    /// to be performed.
    pub open spec fn step(self, event: EventView) -> (WatcherView, Seq<Action>) {
        match event {
            EventView::BuildEnded(run, outcome) => self.on_build_ended(run, outcome),
            _ => if self.phase == Phase::Stopped {
                (self, Seq::empty())
            } else {
                match event {
                    EventView::Tick => self.on_tick(),
                    EventView::Observed(tree) => self.on_observed(tree),
                    _ => self.on_stop(),
                }
            },
        }
    }
}

/// The change watcher of one session.
#[derive(Clone, Debug)]
pub struct Watcher {
    phase: Phase,
    store: SnapshotStore,
    pending: Option<Tree>,
    active: Option<u64>,
    next_run: u64,
}

impl View for Watcher {
    type V = WatcherView;

    closed spec fn view(&self) -> WatcherView {
        WatcherView {
            phase: self.phase,
            snapshot: self.store@,
            pending: match self.pending {
                Some(tree) => Some(tree@),
                None => None,
            },
            active: self.active,
            next_run: self.next_run,
        }
    }
}

impl Watcher {
    /// The representation invariant: the trees held are well formed and the
    /// state is consistent.
    pub closed spec fn wf(&self) -> bool {
        &&& self.store.wf()
        &&& match self.pending {
            Some(tree) => tree.wf(),
            None => true,
        }
        &&& self@.consistent()
    }

    /// Every well-formed watcher is in a consistent state.
    pub proof fn lemma_wf_consistent(&self)
        requires
            self.wf(),
        ensures
            self@.consistent(),
    {
    }

    /// A watcher over `store`, idle, with no run in flight.
    pub fn new(store: SnapshotStore) -> (watcher: Watcher)
        requires
            store.wf(),
        ensures
            watcher.wf(),
            watcher@ == WatcherView::initial(store@),
    {
        Watcher { phase: Phase::Idle, store, pending: None, active: None, next_run: 0 }
    }

    /// The phase that the watcher is in.
    pub fn phase(&self) -> (phase: Phase)
        ensures
            phase == self@.phase,
    {
        self.phase
    }

    /// The number of the run whose process may still be alive.
    pub fn active_run(&self) -> (run: Option<u64>)
        ensures
            run == self@.active,
    {
        self.active
    }

    /// The baseline that the snapshot store holds.
    pub fn snapshot(&self) -> (tree: Option<&Tree>)
        requires
            self.wf(),
        ensures
            tree is Some <==> self@.snapshot is Some,
            tree is Some ==> tree.unwrap().wf() && tree.unwrap()@ == self@.snapshot.unwrap(),
    {
        self.store.baseline()
    }

    fn begin_run(&mut self, tree: Tree) -> (run: u64)
        requires
            old(self).store.wf(),
            tree.wf(),
        ensures
            final(self).wf(),
            final(self)@ == old(self)@.building(tree@),
            run == old(self)@.next_run,
    {
        let run = self.next_run;
        self.phase = Phase::Building;
        self.pending = Some(tree);
        self.active = Some(run);
        self.next_run = if run == u64::MAX {
            0
        } else {
            run + 1
        };
        run
    }

    fn tick(&mut self) -> (actions: Vec<Action>)
        requires
            old(self).wf(),
        ensures
            final(self).wf(),
            final(self)@ == old(self)@.on_tick().0,
            actions@ == old(self)@.on_tick().1,
    {
        let mut actions: Vec<Action> = Vec::new();
        match self.phase {
            Phase::Idle => {
                self.phase = Phase::Comparing;
                actions.push(Action::Observe);
            },
            Phase::Building | Phase::Cancelling => {
                actions.push(Action::Observe);
            },
            _ => {},
        }
        assert(actions@ =~= old(self)@.on_tick().1);
        actions
    }

    fn observed(&mut self, tree: Tree) -> (actions: Vec<Action>)
        requires
            old(self).wf(),
            tree.wf(),
        ensures
            final(self).wf(),
            final(self)@ == old(self)@.on_observed(tree@).0,
            actions@ == old(self)@.on_observed(tree@).1,
    {
        let mut actions: Vec<Action> = Vec::new();
        match self.phase {
            Phase::Comparing => {
                match self.store.compare(tree) {
                    Comparison::Adopted => {
                        self.phase = Phase::Idle;
                        actions.push(Action::StoreSnapshot);
                    },
                    Comparison::Changed(tree) => {
                        let run = self.begin_run(tree);
                        actions.push(Action::StartBuild(run));
                    },
                    Comparison::Unchanged => {
                        self.phase = Phase::Idle;
                    },
                }
            },
            Phase::Building => {
                let changed = match &self.pending {
                    Some(built) => has_changed(&tree, built),
                    None => false,
                };
                if changed {
                    if let Some(run) = self.active {
                        self.phase = Phase::Cancelling;
                        self.pending = Some(tree);
                        actions.push(Action::KillBuild(run));
                    }
                }
            },
            Phase::Cancelling => {
                self.pending = Some(tree);
            },
            _ => {},
        }
        assert(actions@ =~= old(self)@.on_observed(tree@).1);
        actions
    }

    fn build_ended(&mut self, run: u64, outcome: BuildOutcome) -> (actions: Vec<Action>)
        requires
            old(self).wf(),
        ensures
            final(self).wf(),
            final(self)@ == old(self)@.on_build_ended(run, outcome).0,
            actions@ == old(self)@.on_build_ended(run, outcome).1,
    {
        let mut actions: Vec<Action> = Vec::new();
        let current = match self.active {
            Some(active) => active == run,
            None => false,
        };
        if current {
            match self.phase {
                Phase::Building => {
                    self.phase = Phase::Idle;
                    self.active = None;
                    let built = self.pending.take();
                    match outcome {
                        BuildOutcome::Success => {
                            if let Some(tree) = built {
                                self.store.refresh(tree);
                            }
                            actions.push(Action::StoreSnapshot);
                            actions.push(Action::EmitReload);
                        },
                        BuildOutcome::Failed(error) => {
                            actions.push(Action::ReportFailure(error));
                        },
                        BuildOutcome::Cancelled => {},
                    }
                },
                Phase::Cancelling => {
                    if let Some(tree) = self.pending.take() {
                        let next = self.begin_run(tree);
                        actions.push(Action::StartBuild(next));
                    }
                },
                Phase::Stopped => {
                    self.active = None;
                },
                _ => {},
            }
        }
        assert(actions@ =~= old(self)@.on_build_ended(run, outcome).1);
        actions
    }

    fn stop(&mut self) -> (actions: Vec<Action>)
        requires
            old(self).wf(),
        ensures
            final(self).wf(),
            final(self)@ == old(self)@.on_stop().0,
            actions@ == old(self)@.on_stop().1,
    {
        let mut actions: Vec<Action> = Vec::new();
        if self.phase == Phase::Building {
            if let Some(run) = self.active {
                actions.push(Action::KillBuild(run));
            }
        }
        self.phase = Phase::Stopped;
        self.pending = None;
        assert(actions@ =~= old(self)@.on_stop().1);
        actions
    }

    /// Takes one event and returns the actions that it calls for, in the
    /// order in which they are to be performed.
    pub fn step(&mut self, event: Event) -> (actions: Vec<Action>)
        requires
            old(self).wf(),
            event.wf(),
        ensures
            final(self).wf(),
            final(self)@ == old(self)@.step(event@).0,
            actions@ == old(self)@.step(event@).1,
    {
        match event {
            Event::BuildEnded(run, outcome) => self.build_ended(run, outcome),
            Event::Tick => if self.phase == Phase::Stopped {
                Vec::new()
            } else {
                self.tick()
            },
            Event::Observed(tree) => if self.phase == Phase::Stopped {
                Vec::new()
            } else {
                self.observed(tree)
            },
            Event::SnapshotFailed | Event::Stop => if self.phase == Phase::Stopped {
                Vec::new()
            } else {
                self.stop()
            },
        }
    }
}

} // verus!
