use live_reload::pipeline::{BuildError, BuildOutcome};
use live_reload::snapshot::SnapshotStore;
use live_reload::tree::{has_changed, Node, Tree};
use live_reload::watcher::{Action, Event, Phase, Watcher, POLL_INTERVAL_MS};

fn sources(lib: &str) -> Tree {
    let mut tree = Tree::new();
    tree.insert(b"lib.rs".to_vec(), Node::File(lib.as_bytes().to_vec()));
    tree.insert(b"pages".to_vec(), Node::Dir);
    tree.insert(b"pages/home.rs".to_vec(), Node::File(b"pub struct Home;".to_vec()));
    tree
}

fn watcher_over(lib: &str) -> Watcher {
    Watcher::new(SnapshotStore::with_baseline(sources(lib)))
}

fn snapshot_is(watcher: &Watcher, lib: &str) -> bool {
    match watcher.snapshot() {
        Some(tree) => !has_changed(tree, &sources(lib)),
        None => false,
    }
}

#[test]
fn poll_interval_is_two_seconds() {
    assert_eq!(POLL_INTERVAL_MS, 2000);
}

#[test]
fn new_watcher_is_idle() {
    let watcher = watcher_over("v1");
    assert_eq!(watcher.phase(), Phase::Idle);
    assert_eq!(watcher.active_run(), None);
    assert!(snapshot_is(&watcher, "v1"));
}

#[test]
fn unchanged_tree_across_three_ticks_builds_nothing() {
    let mut watcher = watcher_over("v1");
    let mut builds = 0;
    let mut reloads = 0;
    for _ in 0..3 {
        assert_eq!(watcher.step(Event::Tick), vec![Action::Observe]);
        assert_eq!(watcher.phase(), Phase::Comparing);
        let actions = watcher.step(Event::Observed(sources("v1")));
        for action in &actions {
            match action {
                Action::StartBuild(_) => builds += 1,
                Action::EmitReload => reloads += 1,
                _ => {}
            }
        }
        assert_eq!(actions, vec![]);
        assert_eq!(watcher.phase(), Phase::Idle);
    }
    assert_eq!(builds, 0);
    assert_eq!(reloads, 0);
    assert!(snapshot_is(&watcher, "v1"));
}

#[test]
fn first_observation_becomes_the_snapshot_and_is_no_change() {
    let mut watcher = Watcher::new(SnapshotStore::new());
    assert!(watcher.snapshot().is_none());
    assert_eq!(watcher.step(Event::Tick), vec![Action::Observe]);
    assert_eq!(watcher.step(Event::Observed(sources("v1"))), vec![Action::StoreSnapshot]);
    assert_eq!(watcher.phase(), Phase::Idle);
    assert_eq!(watcher.active_run(), None);
    assert!(snapshot_is(&watcher, "v1"));
    assert_eq!(watcher.step(Event::Tick), vec![Action::Observe]);
    assert_eq!(watcher.step(Event::Observed(sources("v1"))), vec![]);
}

#[test]
fn one_change_gives_one_build_and_one_reload() {
    let mut watcher = watcher_over("v1");
    assert_eq!(watcher.step(Event::Tick), vec![Action::Observe]);
    assert_eq!(watcher.step(Event::Observed(sources("v2"))), vec![Action::StartBuild(0)]);
    assert_eq!(watcher.phase(), Phase::Building);
    assert_eq!(watcher.active_run(), Some(0));
    assert!(snapshot_is(&watcher, "v1"));
    assert_eq!(
        watcher.step(Event::BuildEnded(0, BuildOutcome::Success)),
        vec![Action::StoreSnapshot, Action::EmitReload]
    );
    assert_eq!(watcher.phase(), Phase::Idle);
    assert_eq!(watcher.active_run(), None);
    assert!(snapshot_is(&watcher, "v2"));
    assert_eq!(watcher.step(Event::Tick), vec![Action::Observe]);
    assert_eq!(watcher.step(Event::Observed(sources("v2"))), vec![]);
}

#[test]
fn two_changes_within_one_build_cancel_the_first_run() {
    let mut watcher = watcher_over("v1");
    let mut reloads = 0;
    watcher.step(Event::Tick);
    assert_eq!(watcher.step(Event::Observed(sources("v2"))), vec![Action::StartBuild(0)]);
    assert_eq!(watcher.step(Event::Tick), vec![Action::Observe]);
    assert_eq!(watcher.step(Event::Observed(sources("v3"))), vec![Action::KillBuild(0)]);
    assert_eq!(watcher.phase(), Phase::Cancelling);
    assert_eq!(watcher.active_run(), Some(0));
    assert_eq!(
        watcher.step(Event::BuildEnded(0, BuildOutcome::Cancelled)),
        vec![Action::StartBuild(1)]
    );
    assert_eq!(watcher.phase(), Phase::Building);
    assert_eq!(watcher.active_run(), Some(1));
    assert!(snapshot_is(&watcher, "v1"));
    for action in watcher.step(Event::BuildEnded(1, BuildOutcome::Success)) {
        if action == Action::EmitReload {
            reloads += 1;
        }
    }
    assert_eq!(reloads, 1);
    assert_eq!(watcher.phase(), Phase::Idle);
    assert!(snapshot_is(&watcher, "v3"));
}

#[test]
fn a_superseded_run_that_ended_well_is_still_replaced() {
    let mut watcher = watcher_over("v1");
    watcher.step(Event::Tick);
    watcher.step(Event::Observed(sources("v2")));
    watcher.step(Event::Tick);
    assert_eq!(watcher.step(Event::Observed(sources("v3"))), vec![Action::KillBuild(0)]);
    assert_eq!(
        watcher.step(Event::BuildEnded(0, BuildOutcome::Success)),
        vec![Action::StartBuild(1)]
    );
    assert!(snapshot_is(&watcher, "v1"));
}

#[test]
fn the_latest_change_replaces_the_one_that_waits() {
    let mut watcher = watcher_over("v1");
    watcher.step(Event::Tick);
    watcher.step(Event::Observed(sources("v2")));
    watcher.step(Event::Tick);
    assert_eq!(watcher.step(Event::Observed(sources("v3"))), vec![Action::KillBuild(0)]);
    assert_eq!(watcher.step(Event::Tick), vec![Action::Observe]);
    assert_eq!(watcher.step(Event::Observed(sources("v4"))), vec![]);
    assert_eq!(watcher.phase(), Phase::Cancelling);
    assert_eq!(
        watcher.step(Event::BuildEnded(0, BuildOutcome::Cancelled)),
        vec![Action::StartBuild(1)]
    );
    assert_eq!(
        watcher.step(Event::BuildEnded(1, BuildOutcome::Success)),
        vec![Action::StoreSnapshot, Action::EmitReload]
    );
    assert!(snapshot_is(&watcher, "v4"));
}

#[test]
fn the_same_tree_seen_again_during_a_build_cancels_nothing() {
    let mut watcher = watcher_over("v1");
    watcher.step(Event::Tick);
    watcher.step(Event::Observed(sources("v2")));
    assert_eq!(watcher.step(Event::Tick), vec![Action::Observe]);
    assert_eq!(watcher.step(Event::Observed(sources("v2"))), vec![]);
    assert_eq!(watcher.phase(), Phase::Building);
    assert_eq!(watcher.active_run(), Some(0));
}

#[test]
fn failed_build_emits_no_reload_and_keeps_the_snapshot() {
    let mut watcher = watcher_over("v1");
    watcher.step(Event::Tick);
    assert_eq!(watcher.step(Event::Observed(sources("v2"))), vec![Action::StartBuild(0)]);
    assert_eq!(
        watcher.step(Event::BuildEnded(0, BuildOutcome::Failed(BuildError::NonZeroExit))),
        vec![Action::ReportFailure(BuildError::NonZeroExit)]
    );
    assert_eq!(watcher.phase(), Phase::Idle);
    assert_eq!(watcher.active_run(), None);
    assert!(snapshot_is(&watcher, "v1"));
    assert_eq!(watcher.step(Event::Tick), vec![Action::Observe]);
    assert_eq!(watcher.step(Event::Observed(sources("v2"))), vec![Action::StartBuild(1)]);
}

#[test]
fn a_build_that_cannot_be_launched_is_reported() {
    let mut watcher = watcher_over("v1");
    watcher.step(Event::Tick);
    watcher.step(Event::Observed(sources("v2")));
    assert_eq!(
        watcher.step(Event::BuildEnded(0, BuildOutcome::Failed(BuildError::SpawnFailed))),
        vec![Action::ReportFailure(BuildError::SpawnFailed)]
    );
    assert_eq!(watcher.phase(), Phase::Idle);
    assert!(snapshot_is(&watcher, "v1"));
}

#[test]
fn a_build_cancelled_from_outside_reports_nothing() {
    let mut watcher = watcher_over("v1");
    watcher.step(Event::Tick);
    watcher.step(Event::Observed(sources("v2")));
    assert_eq!(watcher.step(Event::BuildEnded(0, BuildOutcome::Cancelled)), vec![]);
    assert_eq!(watcher.phase(), Phase::Idle);
    assert!(snapshot_is(&watcher, "v1"));
}

#[test]
fn the_end_of_another_run_changes_nothing() {
    let mut watcher = watcher_over("v1");
    assert_eq!(watcher.step(Event::BuildEnded(0, BuildOutcome::Success)), vec![]);
    assert_eq!(watcher.phase(), Phase::Idle);
    watcher.step(Event::Tick);
    watcher.step(Event::Observed(sources("v2")));
    assert_eq!(watcher.step(Event::BuildEnded(7, BuildOutcome::Success)), vec![]);
    assert_eq!(watcher.phase(), Phase::Building);
    assert_eq!(watcher.active_run(), Some(0));
    assert!(snapshot_is(&watcher, "v1"));
}

#[test]
fn a_tick_while_comparing_asks_for_nothing() {
    let mut watcher = watcher_over("v1");
    assert_eq!(watcher.step(Event::Tick), vec![Action::Observe]);
    assert_eq!(watcher.step(Event::Tick), vec![]);
    assert_eq!(watcher.phase(), Phase::Comparing);
}

#[test]
fn an_observation_that_was_not_asked_for_is_dropped() {
    let mut watcher = watcher_over("v1");
    assert_eq!(watcher.step(Event::Observed(sources("v2"))), vec![]);
    assert_eq!(watcher.phase(), Phase::Idle);
    assert!(snapshot_is(&watcher, "v1"));
}

#[test]
fn stopping_during_a_build_kills_it() {
    let mut watcher = watcher_over("v1");
    watcher.step(Event::Tick);
    watcher.step(Event::Observed(sources("v2")));
    assert_eq!(watcher.step(Event::Stop), vec![Action::KillBuild(0)]);
    assert_eq!(watcher.phase(), Phase::Stopped);
    assert_eq!(watcher.active_run(), Some(0));
    assert_eq!(watcher.step(Event::Stop), vec![]);
    assert_eq!(watcher.step(Event::Tick), vec![]);
    assert_eq!(watcher.step(Event::Observed(sources("v3"))), vec![]);
    assert_eq!(watcher.step(Event::BuildEnded(0, BuildOutcome::Cancelled)), vec![]);
    assert_eq!(watcher.active_run(), None);
    assert_eq!(watcher.phase(), Phase::Stopped);
    assert!(snapshot_is(&watcher, "v1"));
}

#[test]
fn stopping_while_cancelling_does_not_kill_twice() {
    let mut watcher = watcher_over("v1");
    watcher.step(Event::Tick);
    watcher.step(Event::Observed(sources("v2")));
    watcher.step(Event::Tick);
    assert_eq!(watcher.step(Event::Observed(sources("v3"))), vec![Action::KillBuild(0)]);
    assert_eq!(watcher.step(Event::Stop), vec![]);
    assert_eq!(watcher.phase(), Phase::Stopped);
    assert_eq!(watcher.step(Event::BuildEnded(0, BuildOutcome::Cancelled)), vec![]);
    assert_eq!(watcher.active_run(), None);
}

#[test]
fn stopping_an_idle_watcher_asks_for_nothing() {
    let mut watcher = watcher_over("v1");
    assert_eq!(watcher.step(Event::Stop), vec![]);
    assert_eq!(watcher.phase(), Phase::Stopped);
    assert_eq!(watcher.step(Event::Tick), vec![]);
}

#[test]
fn a_snapshot_that_cannot_be_kept_ends_the_watcher() {
    let mut watcher = Watcher::new(SnapshotStore::new());
    watcher.step(Event::Tick);
    assert_eq!(watcher.step(Event::Observed(sources("v1"))), vec![Action::StoreSnapshot]);
    assert_eq!(watcher.step(Event::SnapshotFailed), vec![]);
    assert_eq!(watcher.phase(), Phase::Stopped);
    assert_eq!(watcher.step(Event::Tick), vec![]);
    assert_eq!(watcher.step(Event::Observed(sources("v2"))), vec![]);
}

#[test]
fn runs_are_numbered_in_order() {
    let mut watcher = watcher_over("v0");
    for run in 0..5u64 {
        watcher.step(Event::Tick);
        let next = format!("v{}", run + 1);
        assert_eq!(watcher.step(Event::Observed(sources(&next))), vec![Action::StartBuild(run)]);
        assert_eq!(
            watcher.step(Event::BuildEnded(run, BuildOutcome::Success)),
            vec![Action::StoreSnapshot, Action::EmitReload]
        );
    }
    assert!(snapshot_is(&watcher, "v5"));
}
