//! What holds of every life of a watcher.
//!
//! A [`History`] follows a watcher through a sequence of events and keeps,
//! beside the watcher's own state, an account of what the surrounding program
//! has been asked to do: which build runs have been started and have not
//! ended yet, which tree each run was started from, how many reload events
//! were emitted. The laws below are stated over that account and hold for
//! every sequence of events.
use crate::pipeline::BuildOutcome;
use crate::tree::TreeView;
use crate::watcher::{Action, EventView, Phase, WatcherView};
use vstd::prelude::*;

verus! {

/// A watcher together with the account of its life so far.
pub struct History {
    pub watcher: WatcherView,
    /// The runs that were started and whose end has not been reported: the
    /// runs whose process may be alive.
    pub live: Set<u64>,
    /// Whether a run was ever started while another one was live.
    pub overlapped: bool,
    /// The tree of the latest observation.
    pub seen: Option<TreeView>,
    /// The tree of the latest observation at the moment when the latest run
    /// was started.
    pub built_from: Option<TreeView>,
    /// How many runs were started.
    pub started: nat,
    /// How many reload events were emitted.
    pub reloads: nat,
}

impl History {
    /// The account of a watcher that has seen no event yet.
    pub open spec fn start(snapshot: Option<TreeView>) -> History {
        History {
            watcher: WatcherView::initial(snapshot),
            live: Set::empty(),
            overlapped: false,
            seen: None,
            built_from: None,
            started: 0,
            reloads: 0,
        }
    }

    /// The account after the surrounding program has performed one action.
    pub open spec fn perform_one(self, action: Action) -> History {
        match action {
            Action::StartBuild(run) => History {
                live: self.live.insert(run),
                overlapped: self.overlapped || self.live != Set::<u64>::empty(),
                built_from: self.seen,
                started: self.started + 1,
                ..self
            },
            Action::EmitReload => History { reloads: self.reloads + 1, ..self },
            _ => self,
        }
    }

    /// The account after a list of actions was performed in order.
    pub open spec fn perform(self, actions: Seq<Action>) -> History
        decreases actions.len(),
    {
        if actions.len() == 0 {
            self
        } else {
            self.perform(actions.drop_last()).perform_one(actions.last())
        }
    }

    /// The account after one event: the event is noted, the watcher takes its
    /// step, and the actions that it returns are performed.
    pub open spec fn advance(self, event: EventView) -> History {
        let noted = History {
            watcher: self.watcher.step(event).0,
            live: match event {
                EventView::BuildEnded(run, _) => self.live.remove(run),
                _ => self.live,
            },
            seen: match event {
                EventView::Observed(tree) => Some(tree),
                _ => self.seen,
            },
            ..self
        };
        noted.perform(self.watcher.step(event).1)
    }

    /// The account after a sequence of events.
    pub open spec fn replay(self, events: Seq<EventView>) -> History
        decreases events.len(),
    {
        if events.len() == 0 {
            self
        } else {
            self.replay(events.drop_last()).advance(events.last())
        }
    }

    /// What the account of every life satisfies.
    pub open spec fn sound(self) -> bool {
        &&& self.watcher.consistent()
        &&& self.live == match self.watcher.active {
            Some(run) => Set::<u64>::empty().insert(run),
            None => Set::<u64>::empty(),
        }
        &&& !self.overlapped
        &&& (self.watcher.phase == Phase::Building || self.watcher.phase == Phase::Cancelling)
            ==> self.watcher.pending == self.seen
        &&& self.watcher.phase == Phase::Building ==> self.built_from == self.watcher.pending
    }
}

proof fn lemma_perform_none(h: History)
    ensures
        h.perform(Seq::empty()) == h,
{
}

proof fn lemma_perform_single(h: History, a: Action)
    ensures
        h.perform(seq![a]) == h.perform_one(a),
{
    reveal_with_fuel(History::perform, 2);
    assert(seq![a].drop_last() =~= Seq::<Action>::empty());
}

proof fn lemma_perform_pair(h: History, a: Action, b: Action)
    ensures
        h.perform(seq![a, b]) == h.perform_one(a).perform_one(b),
{
    assert(seq![a, b].drop_last() =~= seq![a]);
    lemma_perform_single(h, a);
}

proof fn lemma_perform_keeps_watcher(h: History, actions: Seq<Action>)
    ensures
        h.perform(actions).watcher == h.watcher,
        h.perform(actions).seen == h.seen,
    decreases actions.len(),
{
    if actions.len() > 0 {
        lemma_perform_keeps_watcher(h, actions.drop_last());
    }
}

proof fn lemma_advance_watcher(h: History, event: EventView)
    ensures
        h.advance(event).watcher == h.watcher.step(event).0,
{
    let noted = History {
        watcher: h.watcher.step(event).0,
        live: match event {
            EventView::BuildEnded(run, _) => h.live.remove(run),
            _ => h.live,
        },
        seen: match event {
            EventView::Observed(tree) => Some(tree),
            _ => h.seen,
        },
        ..h
    };
    lemma_perform_keeps_watcher(noted, h.watcher.step(event).1);
}

proof fn lemma_live_count(h: History)
    requires
        h.sound(),
    ensures
        h.live.finite(),
        h.live.len() == (if h.watcher.active is Some {
            1nat
        } else {
            0nat
        }),
{
}

proof fn lemma_advance_sound(h: History, event: EventView)
    requires
        h.sound(),
    ensures
        h.advance(event).sound(),
{
    let w = h.watcher;
    let next = w.step(event).0;
    let actions = w.step(event).1;
    let noted = History {
        watcher: next,
        live: match event {
            EventView::BuildEnded(run, _) => h.live.remove(run),
            _ => h.live,
        },
        seen: match event {
            EventView::Observed(tree) => Some(tree),
            _ => h.seen,
        },
        ..h
    };
    lemma_perform_none(noted);
    let none = Set::<u64>::empty();
    match event {
        EventView::BuildEnded(run, outcome) => {
            if w.active == Some(run) {
                assert(noted.live =~= none);
                match w.phase {
                    Phase::Building => match outcome {
                        BuildOutcome::Success => {
                            lemma_perform_pair(noted, Action::StoreSnapshot, Action::EmitReload);
                        },
                        BuildOutcome::Failed(error) => {
                            lemma_perform_single(noted, Action::ReportFailure(error));
                        },
                        BuildOutcome::Cancelled => {},
                    },
                    Phase::Cancelling => {
                        lemma_perform_single(noted, Action::StartBuild(w.next_run));
                    },
                    _ => {},
                }
            } else {
                assert(noted.live =~= h.live);
            }
        },
        EventView::Tick => {
            lemma_perform_single(noted, Action::Observe);
        },
        EventView::Observed(tree) => {
            match w.phase {
                Phase::Comparing => {
                    lemma_perform_single(noted, Action::StoreSnapshot);
                    lemma_perform_single(noted, Action::StartBuild(w.next_run));
                },
                Phase::Building => {
                    if w.active is Some {
                        lemma_perform_single(noted, Action::KillBuild(w.active.unwrap()));
                    }
                },
                _ => {},
            }
        },
        _ => {
            if w.active is Some {
                lemma_perform_single(noted, Action::KillBuild(w.active.unwrap()));
            }
        },
    }
}

/// Every account that starts fresh and follows the watcher is sound.
pub proof fn lemma_replay_sound(snapshot: Option<TreeView>, events: Seq<EventView>)
    ensures
        History::start(snapshot).replay(events).sound(),
    decreases events.len(),
{
    if events.len() > 0 {
        lemma_replay_sound(snapshot, events.drop_last());
        lemma_advance_sound(History::start(snapshot).replay(events.drop_last()), events.last());
    }
}

/// At most one build run is alive at any time, whatever happens and in
/// whatever order: after every sequence of events the set of live runs has at
/// most one member, which is the run that the watcher calls active, and no
/// run was ever started while another one was alive.
pub proof fn law_one_run_at_a_time(snapshot: Option<TreeView>, events: Seq<EventView>)
    ensures
        ({
            let h = History::start(snapshot).replay(events);
            &&& h.live.finite()
            &&& h.live.len() <= 1
            &&& forall|run: u64| h.live.contains(run) <==> h.watcher.active == Some(run)
            &&& !h.overlapped
        }),
{
    lemma_replay_sound(snapshot, events);
}

/// A replacement run starts only in the step that takes the end of the run
/// it replaces: whenever a step starts a run, no run is alive at that moment,
/// and while cancelling the only event that starts a run is the end of the
/// active run.
pub proof fn law_no_start_before_end(
    snapshot: Option<TreeView>,
    events: Seq<EventView>,
    event: EventView,
)
    ensures
        ({
            let h = History::start(snapshot).replay(events);
            let next = h.advance(event);
            &&& next.started <= h.started + 1
            &&& next.started == h.started + 1 ==> {
                &&& next.live == Set::<u64>::empty().insert(h.watcher.next_run)
                &&& match event {
                    EventView::BuildEnded(run, _) => h.watcher.phase == Phase::Cancelling
                        && h.live == Set::<u64>::empty().insert(run),
                    EventView::Observed(_) => h.watcher.phase == Phase::Comparing && h.live
                        == Set::<u64>::empty(),
                    _ => false,
                }
            }
        }),
{
    lemma_replay_sound(snapshot, events);
    let h = History::start(snapshot).replay(events);
    lemma_advance_sound(h, event);
    lemma_advance_counts(h, event);
}

/// What one step adds to the counts of an account.
proof fn lemma_advance_counts(h: History, event: EventView)
    requires
        h.sound(),
    ensures
        ({
            let actions = h.watcher.step(event).1;
            let next = h.advance(event);
            &&& next.started == h.started + (if exists|run: u64|
                actions.contains(Action::StartBuild(run)) {
                1nat
            } else {
                0nat
            })
            &&& next.reloads == h.reloads + (if actions.contains(Action::EmitReload) {
                1nat
            } else {
                0nat
            })
            &&& forall|run: u64| #[trigger]
                actions.contains(Action::StartBuild(run)) ==> run == h.watcher.next_run
        }),
{
    let w = h.watcher;
    let actions = w.step(event).1;
    let noted = History {
        watcher: w.step(event).0,
        live: match event {
            EventView::BuildEnded(run, _) => h.live.remove(run),
            _ => h.live,
        },
        seen: match event {
            EventView::Observed(tree) => Some(tree),
            _ => h.seen,
        },
        ..h
    };
    lemma_perform_none(noted);
    if actions.len() == 1 {
        assert(actions =~= seq![actions[0]]);
        lemma_perform_single(noted, actions[0]);
        if let Action::StartBuild(run) = actions[0] {
            assert(actions.contains(Action::StartBuild(run)));
        }
        if actions[0] == Action::EmitReload {
            assert(actions.contains(Action::EmitReload));
        }
    } else if actions.len() == 2 {
        assert(actions =~= seq![Action::StoreSnapshot, Action::EmitReload]);
        lemma_perform_pair(noted, Action::StoreSnapshot, Action::EmitReload);
        assert(actions[1] == Action::EmitReload);
    }
}

/// After a successful build the snapshot is the source tree as it was
/// observed when that build was started: not an earlier observation, and not
/// one that came in while the build ran.
pub proof fn law_snapshot_is_tree_at_build_start(
    snapshot: Option<TreeView>,
    events: Seq<EventView>,
    run: u64,
)
    requires
        History::start(snapshot).replay(events).watcher.phase == Phase::Building,
        History::start(snapshot).replay(events).watcher.active == Some(run),
    ensures
        ({
            let h = History::start(snapshot).replay(events);
            let next = h.advance(EventView::BuildEnded(run, BuildOutcome::Success));
            &&& h.built_from is Some
            &&& next.watcher.snapshot == h.built_from
            &&& next.watcher.phase == Phase::Idle
        }),
{
    lemma_replay_sound(snapshot, events);
    lemma_advance_watcher(
        History::start(snapshot).replay(events),
        EventView::BuildEnded(run, BuildOutcome::Success),
    );
}

/// The snapshot changes in two steps only: when the first observation is
/// adopted because there was no baseline, and when the active run ends with
/// success. A failed or cancelled build, and every other event, leaves it as
/// it was.
pub proof fn law_snapshot_kept(w: WatcherView, event: EventView)
    requires
        w.consistent(),
    ensures
        w.step(event).0.snapshot != w.snapshot ==> match event {
            EventView::Observed(tree) => w.phase == Phase::Comparing && w.snapshot is None
                && w.step(event).0.snapshot == Some(tree),
            EventView::BuildEnded(run, outcome) => w.phase == Phase::Building && w.active
                == Some(run) && outcome == BuildOutcome::Success,
            _ => false,
        },
{
}

/// A reload event is emitted exactly when the active run ends with success
/// while building, and then as the last action, after the snapshot has been
/// stored.
pub proof fn law_reload_follows_success(w: WatcherView, event: EventView)
    requires
        w.consistent(),
    ensures
        w.step(event).1.contains(Action::EmitReload) <==> (w.phase == Phase::Building && exists|
            run: u64,
        |
            w.active == Some(run) && event == EventView::BuildEnded(run, BuildOutcome::Success)),
        w.step(event).1.contains(Action::EmitReload) ==> w.step(event).1 == seq![
            Action::StoreSnapshot,
            Action::EmitReload,
        ],
{
    let actions = w.step(event).1;
    if w.phase == Phase::Building && w.active is Some && event == EventView::BuildEnded(
        w.active.unwrap(),
        BuildOutcome::Success,
    ) {
        assert(actions[1] == Action::EmitReload);
    }
    if actions.contains(Action::EmitReload) {
        let i = choose|i: int| 0 <= i < actions.len() && actions[i] == Action::EmitReload;
        assert(actions[i] == Action::EmitReload);
    }
}

/// While the source tree is observed unchanged, nothing is built and nothing
/// is reloaded: an observation that equals the baseline brings the watcher
/// back to idle with no action at all.
pub proof fn law_unchanged_tree_is_quiet(w: WatcherView, tree: TreeView)
    requires
        w.consistent(),
        w.phase == Phase::Comparing,
        w.snapshot == Some(tree),
    ensures
        w.step(EventView::Observed(tree)).1 == Seq::<Action>::empty(),
        w.step(EventView::Observed(tree)).0 == (WatcherView { phase: Phase::Idle, ..w }),
{
}

/// The number of reload events never exceeds the number of runs started.
pub proof fn law_reloads_bounded(snapshot: Option<TreeView>, events: Seq<EventView>)
    ensures
        ({
            let h = History::start(snapshot).replay(events);
            h.reloads + h.live.len() <= h.started
        }),
    decreases events.len(),
{
    lemma_replay_sound(snapshot, events);
    if events.len() > 0 {
        let before = History::start(snapshot).replay(events.drop_last());
        law_reloads_bounded(snapshot, events.drop_last());
        lemma_replay_sound(snapshot, events.drop_last());
        lemma_advance_sound(before, events.last());
        lemma_advance_counts(before, events.last());
        lemma_advance_watcher(before, events.last());
        lemma_live_count(before);
        lemma_live_count(before.advance(events.last()));
        law_reload_follows_success(before.watcher, events.last());
        let actions = before.watcher.step(events.last()).1;
        let after = before.watcher.step(events.last()).0;
        if after.active is Some && before.watcher.active is None {
            assert(actions[0] == Action::StartBuild(before.watcher.next_run));
            assert(actions.contains(Action::StartBuild(before.watcher.next_run)));
        }
        if actions.contains(Action::EmitReload) {
            assert(!exists|run: u64| actions.contains(Action::StartBuild(run))) by {
                if exists|run: u64| actions.contains(Action::StartBuild(run)) {
                    let run = choose|run: u64| actions.contains(Action::StartBuild(run));
                    let i = choose|i: int|
                        0 <= i < actions.len() && actions[i] == Action::StartBuild(run);
                    assert(actions[i] == Action::StartBuild(run));
                }
            }
        }
    }
}

} // verus!
