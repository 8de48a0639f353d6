use live_reload::orchestrator::{Effect, Input, Orchestrator};
use live_reload::pipeline::{build_command, BuildCommand, BuildError, BuildMode};
use live_reload::session::{ClientMessage, ReloadEvent, SessionState};
use live_reload::snapshot::SnapshotStore;
use live_reload::tree::{has_changed, Node, Tree};
use live_reload::watcher::Phase;

fn sources(lib: &str) -> Tree {
    let mut tree = Tree::new();
    tree.insert(b"lib.rs".to_vec(), Node::File(lib.as_bytes().to_vec()));
    tree.insert(b"app.rs".to_vec(), Node::File(b"pub struct App;".to_vec()));
    tree
}

fn command() -> BuildCommand {
    build_command(BuildMode::Debug, "app")
}

fn connected(lib: &str) -> Orchestrator {
    let store = SnapshotStore::with_baseline(sources(lib));
    let mut orchestrator = Orchestrator::new(store, BuildMode::Debug, "app".to_string());
    orchestrator.step(Input::Accepted);
    orchestrator
}

fn snapshot_is(orchestrator: &Orchestrator, lib: &str) -> bool {
    match orchestrator.snapshot() {
        Some(tree) => !has_changed(tree, &sources(lib)),
        None => false,
    }
}

fn count_sends(effects: &[Effect]) -> usize {
    effects.iter().filter(|effect| matches!(effect, Effect::Send(_))).count()
}

fn count_spawns(effects: &[Effect]) -> usize {
    effects.iter().filter(|effect| matches!(effect, Effect::Spawn(_, _))).count()
}

fn drain(orchestrator: &mut Orchestrator) -> usize {
    let mut delivered = 0;
    while orchestrator.backlog() > 0 {
        delivered += count_sends(&orchestrator.step(Input::Writable));
    }
    delivered
}

#[test]
fn session_gets_one_reload_upon_connecting() {
    let store = SnapshotStore::with_baseline(sources("v1"));
    let mut orchestrator = Orchestrator::new(store, BuildMode::Debug, "app".to_string());
    assert_eq!(orchestrator.session_state(), SessionState::Connecting);
    let effects = orchestrator.step(Input::Accepted);
    assert_eq!(
        effects,
        vec![Effect::Send(ReloadEvent::Reload), Effect::StartForwarding, Effect::StartPolling]
    );
    assert_eq!(count_sends(&effects), 1);
    assert_eq!(orchestrator.session_state(), SessionState::Open);
    assert_eq!(orchestrator.backlog(), 0);
    assert_eq!(orchestrator.step(Input::Writable), vec![]);
}

#[test]
fn nothing_happens_before_the_connection_is_accepted() {
    let store = SnapshotStore::with_baseline(sources("v1"));
    let mut orchestrator = Orchestrator::new(store, BuildMode::Debug, "app".to_string());
    assert_eq!(orchestrator.step(Input::Tick), vec![]);
    assert_eq!(orchestrator.step(Input::Observed(sources("v2"))), vec![]);
    assert_eq!(orchestrator.step(Input::Writable), vec![]);
    assert_eq!(orchestrator.step(Input::SnapshotFailed), vec![]);
    assert_eq!(orchestrator.phase(), Phase::Idle);
    assert_eq!(orchestrator.active_run(), None);
}

#[test]
fn scenario_unchanged_tree_three_ticks_no_build_no_reload() {
    let mut orchestrator = connected("v1");
    let mut spawns = 0;
    let mut sends = 0;
    for _ in 0..3 {
        let asked = orchestrator.step(Input::Tick);
        assert_eq!(asked, vec![Effect::Observe]);
        let effects = orchestrator.step(Input::Observed(sources("v1")));
        spawns += count_spawns(&asked) + count_spawns(&effects);
        sends += count_sends(&asked) + count_sends(&effects);
        assert_eq!(effects, vec![]);
        sends += drain(&mut orchestrator);
    }
    assert_eq!(spawns, 0);
    assert_eq!(sends, 0);
    assert_eq!(orchestrator.phase(), Phase::Idle);
    assert!(snapshot_is(&orchestrator, "v1"));
}

#[test]
fn scenario_one_change_one_successful_build_one_reload() {
    let mut orchestrator = connected("v1");
    assert_eq!(orchestrator.step(Input::Tick), vec![Effect::Observe]);
    assert_eq!(
        orchestrator.step(Input::Observed(sources("v2"))),
        vec![Effect::Spawn(0, command())]
    );
    assert_eq!(orchestrator.phase(), Phase::Building);
    assert_eq!(orchestrator.step(Input::Spawned(0)), vec![]);
    assert_eq!(
        orchestrator.step(Input::Output(0, "[INFO]: Compiling to Wasm...".to_string())),
        vec![Effect::Log("[INFO]: Compiling to Wasm...".to_string())]
    );
    assert_eq!(orchestrator.backlog(), 0);
    assert_eq!(orchestrator.step(Input::Exited(0, Some(0))), vec![Effect::StoreSnapshot]);
    assert_eq!(orchestrator.phase(), Phase::Idle);
    assert_eq!(orchestrator.active_run(), None);
    assert!(snapshot_is(&orchestrator, "v2"));
    assert_eq!(orchestrator.backlog(), 1);
    assert_eq!(orchestrator.step(Input::Writable), vec![Effect::Send(ReloadEvent::Reload)]);
    assert_eq!(drain(&mut orchestrator), 0);
    assert_eq!(orchestrator.step(Input::Tick), vec![Effect::Observe]);
    assert_eq!(orchestrator.step(Input::Observed(sources("v2"))), vec![]);
    assert_eq!(drain(&mut orchestrator), 0);
}

#[test]
fn scenario_two_changes_within_one_build_one_reload() {
    let mut orchestrator = connected("v1");
    let mut delivered = 0;
    orchestrator.step(Input::Tick);
    assert_eq!(
        orchestrator.step(Input::Observed(sources("v2"))),
        vec![Effect::Spawn(0, command())]
    );
    assert_eq!(orchestrator.step(Input::Spawned(0)), vec![]);
    assert_eq!(orchestrator.step(Input::Tick), vec![Effect::Observe]);
    assert_eq!(orchestrator.step(Input::Observed(sources("v3"))), vec![Effect::Kill(0)]);
    assert_eq!(orchestrator.phase(), Phase::Cancelling);
    delivered += drain(&mut orchestrator);
    assert_eq!(orchestrator.step(Input::Exited(0, None)), vec![Effect::Spawn(1, command())]);
    assert_eq!(orchestrator.phase(), Phase::Building);
    assert_eq!(orchestrator.active_run(), Some(1));
    assert!(snapshot_is(&orchestrator, "v1"));
    delivered += drain(&mut orchestrator);
    assert_eq!(orchestrator.step(Input::Spawned(1)), vec![]);
    assert_eq!(orchestrator.step(Input::Exited(1, Some(0))), vec![Effect::StoreSnapshot]);
    delivered += drain(&mut orchestrator);
    assert_eq!(delivered, 1);
    assert!(snapshot_is(&orchestrator, "v3"));
    assert_eq!(orchestrator.phase(), Phase::Idle);
}

#[test]
fn scenario_failing_build_no_reload_snapshot_kept_polling_goes_on() {
    let mut orchestrator = connected("v1");
    orchestrator.step(Input::Tick);
    assert_eq!(
        orchestrator.step(Input::Observed(sources("v2"))),
        vec![Effect::Spawn(0, command())]
    );
    orchestrator.step(Input::Spawned(0));
    assert_eq!(
        orchestrator.step(Input::Output(0, "error: could not compile".to_string())),
        vec![Effect::Log("error: could not compile".to_string())]
    );
    assert_eq!(
        orchestrator.step(Input::Exited(0, Some(1))),
        vec![Effect::BuildFailed(BuildError::NonZeroExit)]
    );
    assert_eq!(orchestrator.backlog(), 0);
    assert_eq!(drain(&mut orchestrator), 0);
    assert!(snapshot_is(&orchestrator, "v1"));
    assert_eq!(orchestrator.phase(), Phase::Idle);
    assert_eq!(orchestrator.step(Input::Tick), vec![Effect::Observe]);
    assert_eq!(
        orchestrator.step(Input::Observed(sources("v2"))),
        vec![Effect::Spawn(1, command())]
    );
}

#[test]
fn a_build_tool_that_cannot_be_launched_is_reported() {
    let mut orchestrator = connected("v1");
    orchestrator.step(Input::Tick);
    orchestrator.step(Input::Observed(sources("v2")));
    assert_eq!(
        orchestrator.step(Input::SpawnFailed(0)),
        vec![Effect::BuildFailed(BuildError::SpawnFailed)]
    );
    assert_eq!(orchestrator.phase(), Phase::Idle);
    assert_eq!(orchestrator.backlog(), 0);
    assert!(snapshot_is(&orchestrator, "v1"));
}

#[test]
fn a_release_build_is_launched_with_the_release_flag() {
    let store = SnapshotStore::with_baseline(sources("v1"));
    let mut orchestrator = Orchestrator::new(store, BuildMode::Release, "frontend".to_string());
    orchestrator.step(Input::Accepted);
    orchestrator.step(Input::Tick);
    let effects = orchestrator.step(Input::Observed(sources("v2")));
    assert_eq!(
        effects,
        vec![Effect::Spawn(
            0,
            BuildCommand {
                program: "wasm-pack".to_string(),
                args: vec![
                    "build".to_string(),
                    "--release".to_string(),
                    "--target".to_string(),
                    "web".to_string(),
                ],
                working_dir: "frontend".to_string(),
            }
        )]
    );
}

#[test]
fn a_change_before_the_launch_is_answered_kills_once_launched() {
    let mut orchestrator = connected("v1");
    orchestrator.step(Input::Tick);
    orchestrator.step(Input::Observed(sources("v2")));
    orchestrator.step(Input::Tick);
    assert_eq!(orchestrator.step(Input::Observed(sources("v3"))), vec![]);
    assert_eq!(orchestrator.phase(), Phase::Cancelling);
    assert_eq!(orchestrator.step(Input::Spawned(0)), vec![Effect::Kill(0)]);
    assert_eq!(orchestrator.step(Input::Exited(0, None)), vec![Effect::Spawn(1, command())]);
}

#[test]
fn events_of_a_run_that_is_not_active_are_dropped() {
    let mut orchestrator = connected("v1");
    assert_eq!(orchestrator.step(Input::Exited(0, Some(0))), vec![]);
    assert_eq!(orchestrator.step(Input::Output(3, "stray".to_string())), vec![]);
    orchestrator.step(Input::Tick);
    orchestrator.step(Input::Observed(sources("v2")));
    orchestrator.step(Input::Spawned(0));
    assert_eq!(orchestrator.step(Input::Exited(5, Some(0))), vec![]);
    assert_eq!(orchestrator.step(Input::Output(1, "stray".to_string())), vec![]);
    assert_eq!(orchestrator.phase(), Phase::Building);
    assert_eq!(orchestrator.active_run(), Some(0));
    assert_eq!(orchestrator.backlog(), 0);
    assert!(snapshot_is(&orchestrator, "v1"));
}

#[test]
fn first_observation_without_snapshot_stores_it_and_builds_nothing() {
    let mut orchestrator =
        Orchestrator::new(SnapshotStore::new(), BuildMode::Debug, "app".to_string());
    orchestrator.step(Input::Accepted);
    assert!(orchestrator.snapshot().is_none());
    assert_eq!(orchestrator.step(Input::Tick), vec![Effect::Observe]);
    assert_eq!(orchestrator.step(Input::Observed(sources("v1"))), vec![Effect::StoreSnapshot]);
    assert!(snapshot_is(&orchestrator, "v1"));
    assert_eq!(orchestrator.backlog(), 0);
    assert_eq!(orchestrator.phase(), Phase::Idle);
}

#[test]
fn client_messages_are_logged_only() {
    let mut orchestrator = connected("v1");
    assert_eq!(
        orchestrator.step(Input::Message(ClientMessage::Text("rebuild now".to_string()))),
        vec![Effect::Log("rebuild now".to_string())]
    );
    assert_eq!(orchestrator.step(Input::Message(ClientMessage::Other)), vec![]);
    assert_eq!(orchestrator.phase(), Phase::Idle);
    assert_eq!(orchestrator.active_run(), None);
    assert_eq!(orchestrator.backlog(), 0);
}

#[test]
fn disconnect_during_a_build_kills_it_and_stops_the_tasks() {
    let mut orchestrator = connected("v1");
    orchestrator.step(Input::Tick);
    orchestrator.step(Input::Observed(sources("v2")));
    orchestrator.step(Input::Spawned(0));
    assert_eq!(
        orchestrator.step(Input::Disconnected),
        vec![Effect::Kill(0), Effect::StopPolling, Effect::StopForwarding]
    );
    assert_eq!(orchestrator.session_state(), SessionState::Closed);
    assert_eq!(orchestrator.phase(), Phase::Stopped);
    assert_eq!(orchestrator.active_run(), Some(0));
    assert_eq!(orchestrator.step(Input::Tick), vec![]);
    assert_eq!(orchestrator.step(Input::Observed(sources("v3"))), vec![]);
    assert_eq!(orchestrator.step(Input::Exited(0, None)), vec![]);
    assert_eq!(orchestrator.active_run(), None);
    assert_eq!(orchestrator.backlog(), 0);
    assert!(snapshot_is(&orchestrator, "v1"));
}

#[test]
fn transport_error_is_logged_and_tears_the_session_down() {
    let mut orchestrator = connected("v1");
    assert_eq!(
        orchestrator.step(Input::TransportError("broken pipe".to_string())),
        vec![
            Effect::Log("broken pipe".to_string()),
            Effect::StopPolling,
            Effect::StopForwarding,
        ]
    );
    assert_eq!(orchestrator.session_state(), SessionState::Closed);
    assert_eq!(orchestrator.phase(), Phase::Stopped);
    assert_eq!(orchestrator.step(Input::Writable), vec![]);
}

#[test]
fn a_reload_that_waits_is_dropped_when_the_client_is_gone() {
    let mut orchestrator = connected("v1");
    orchestrator.step(Input::Tick);
    orchestrator.step(Input::Observed(sources("v2")));
    orchestrator.step(Input::Spawned(0));
    orchestrator.step(Input::Exited(0, Some(0)));
    assert_eq!(orchestrator.backlog(), 1);
    orchestrator.step(Input::Disconnected);
    assert_eq!(orchestrator.backlog(), 0);
    assert_eq!(orchestrator.step(Input::Writable), vec![]);
}

#[test]
fn a_snapshot_that_cannot_be_kept_ends_the_watcher_only() {
    let mut orchestrator = connected("v1");
    orchestrator.step(Input::Tick);
    orchestrator.step(Input::Observed(sources("v2")));
    orchestrator.step(Input::Spawned(0));
    assert_eq!(
        orchestrator.step(Input::SnapshotFailed),
        vec![Effect::Kill(0), Effect::StopPolling]
    );
    assert_eq!(orchestrator.phase(), Phase::Stopped);
    assert_eq!(orchestrator.session_state(), SessionState::Open);
    assert_eq!(orchestrator.step(Input::SnapshotFailed), vec![]);
    assert_eq!(orchestrator.step(Input::Tick), vec![]);
    assert_eq!(orchestrator.step(Input::Exited(0, Some(0))), vec![]);
    assert_eq!(orchestrator.active_run(), None);
    assert_eq!(orchestrator.backlog(), 0);
    assert_eq!(
        orchestrator.step(Input::Disconnected),
        vec![Effect::StopPolling, Effect::StopForwarding]
    );
}

#[test]
fn never_more_than_one_process_under_rapid_changes() {
    let mut orchestrator = connected("v0");
    let mut alive: Vec<u64> = Vec::new();
    let mut most = 0;
    let mut version = 0;
    for round in 0..40u32 {
        version += 1;
        let mut effects = orchestrator.step(Input::Tick);
        effects.extend(orchestrator.step(Input::Observed(sources(&format!("v{}", version)))));
        if round % 3 == 0 {
            if let Some(run) = orchestrator.active_run() {
                effects.extend(orchestrator.step(Input::Spawned(run)));
            }
        }
        if round % 4 == 3 {
            if let Some(run) = alive.first().copied() {
                alive.retain(|other| *other != run);
                effects.extend(orchestrator.step(Input::Exited(run, None)));
            }
        }
        for effect in effects {
            if let Effect::Spawn(run, _) = effect {
                assert!(alive.is_empty());
                alive.push(run);
            }
        }
        most = most.max(alive.len());
    }
    assert_eq!(most, 1);
}
