//! The build pipeline: the command that is run, what its end means, and the
//! life of one run from spawn to exit.
//!
//! Spawning, reading the output and killing the process are done by the
//! surrounding program. A [`BuildRun`] tells it what to do next.
use vstd::prelude::*;

verus! {

/// Whether the frontend is built for development or for production.
#[derive(Clone, Copy, Debug, PartialEq, Eq, Structural)]
pub enum BuildMode {
    Debug,
    Release,
}

/// Why a build did not succeed.
#[derive(Clone, Copy, Debug, PartialEq, Eq, Structural)]
pub enum BuildError {
    /// The build tool could not be launched.
    SpawnFailed,
    /// The build tool ran and ended with a failure status.
    NonZeroExit,
}

/// How one run of the build tool ended.
#[derive(Clone, Copy, Debug, PartialEq, Eq, Structural)]
pub enum BuildOutcome {
    Success,
    Failed(BuildError),
    /// The run was stopped on request; this is neither success nor failure.
    Cancelled,
}

/// The flag that the build tool takes for a mode.
pub open spec fn flag_for(mode: BuildMode) -> Seq<char> {
    match mode {
        BuildMode::Debug => "--dev"@,
        BuildMode::Release => "--release"@,
    }
}

impl BuildMode {
    /// The flag that the build tool takes for this mode.
    pub fn flag(&self) -> (flag: String)
        ensures
            flag@ == flag_for(*self),
    {
        match self {
            BuildMode::Debug => "--dev".to_owned(),
            BuildMode::Release => "--release".to_owned(),
        }
    }
}

/// What the build tool is run with.
#[derive(Clone, Debug, PartialEq, Eq)]
pub struct BuildCommand {
    pub program: String,
    pub args: Vec<String>,
    /// The directory that the tool runs in: the root of the frontend.
    pub working_dir: String,
}

/// The mathematical value of a [`BuildCommand`].
pub struct BuildCommandView {
    pub program: Seq<char>,
    pub args: Seq<Seq<char>>,
    pub working_dir: Seq<char>,
}

impl View for BuildCommand {
    type V = BuildCommandView;

    open spec fn view(&self) -> BuildCommandView {
        BuildCommandView {
            program: self.program@,
            args: Seq::new(self.args@.len(), |i: int| self.args@[i]@),
            working_dir: self.working_dir@,
        }
    }
}

/// The command of a build in `mode` of the frontend at `root`.
pub open spec fn command_for(mode: BuildMode, root: Seq<char>) -> BuildCommandView {
    BuildCommandView {
        program: "wasm-pack"@,
        args: seq!["build"@, flag_for(mode), "--target"@, "web"@],
        working_dir: root,
    }
}

/// The command that builds the frontend at `root` in `mode`.
pub fn build_command(mode: BuildMode, root: &str) -> (command: BuildCommand)
    ensures
        command@ == command_for(mode, root@),
{
    let mut args: Vec<String> = Vec::new();
    args.push("build".to_owned());
    args.push(mode.flag());
    args.push("--target".to_owned());
    args.push("web".to_owned());
    let command = BuildCommand {
        program: "wasm-pack".to_owned(),
        args,
        working_dir: root.to_owned(),
    };
    assert(command@.args =~= command_for(mode, root@).args);
    command
}

/// What the end of the build tool's process means: success for exit code 0,
/// a failure for every other code and for an end without a code.
pub open spec fn exit_outcome(code: Option<i32>) -> BuildOutcome {
    if code == Some(0i32) {
        BuildOutcome::Success
    } else {
        BuildOutcome::Failed(BuildError::NonZeroExit)
    }
}

/// The result of a build that was not cancelled. `spawned` says whether the
/// tool could be launched, `code` is the exit code of its process, if it
/// ended with one.
pub fn build_result(spawned: bool, code: Option<i32>) -> (result: Result<(), BuildError>)
    ensures
        result is Ok <==> spawned && code == Some(0i32),
        result == Err::<(), BuildError>(BuildError::SpawnFailed) <==> !spawned,
        result == Err::<(), BuildError>(BuildError::NonZeroExit) <==> spawned && code != Some(
            0i32,
        ),
{
    if !spawned {
        return Err(BuildError::SpawnFailed);
    }
    match code {
        Some(0) => Ok(()),
        _ => Err(BuildError::NonZeroExit),
    }
}

/// Where one run of the build tool stands.
#[derive(Clone, Copy, Debug, PartialEq, Eq, Structural)]
pub enum RunState {
    /// The launch has been asked for and not answered yet.
    Spawning,
    /// The run was cancelled before its launch was answered.
    Withdrawn,
    /// The process is alive and its output is being read.
    Running,
    /// The process has been told to die and has not ended yet.
    Stopping,
    /// The run has ended.
    Done(BuildOutcome),
}

/// What the surrounding program reports about the process of a run.
#[derive(Clone, Debug, PartialEq, Eq)]
pub enum RunEvent {
    /// The build tool was launched.
    Spawned,
    /// The build tool could not be launched.
    SpawnFailed,
    /// The process wrote one line to its standard output.
    Line(String),
    /// The process has ended, with this exit code if it ended with one.
    Exited(Option<i32>),
    /// The owner of the run wants it stopped.
    Cancel,
}

/// The mathematical value of a [`RunEvent`].
pub enum RunEventView {
    Spawned,
    SpawnFailed,
    Line(Seq<char>),
    Exited(Option<i32>),
    Cancel,
}

impl View for RunEvent {
    type V = RunEventView;

    open spec fn view(&self) -> RunEventView {
        match self {
            RunEvent::Spawned => RunEventView::Spawned,
            RunEvent::SpawnFailed => RunEventView::SpawnFailed,
            RunEvent::Line(line) => RunEventView::Line(line@),
            RunEvent::Exited(code) => RunEventView::Exited(*code),
            RunEvent::Cancel => RunEventView::Cancel,
        }
    }
}

/// What a run asks the surrounding program to do.
#[derive(Clone, Debug, PartialEq, Eq)]
pub enum RunAction {
    /// Write this line of the tool's output to the log.
    Log(String),
    /// Kill the process, and report [`RunEvent::Exited`] once it is gone.
    Kill,
    /// Tell the owner of the run how it ended.
    Finish(BuildOutcome),
}

/// The mathematical value of a [`RunAction`].
pub enum RunActionView {
    Log(Seq<char>),
    Kill,
    Finish(BuildOutcome),
}

impl View for RunAction {
    type V = RunActionView;

    open spec fn view(&self) -> RunActionView {
        match self {
            RunAction::Log(line) => RunActionView::Log(line@),
            RunAction::Kill => RunActionView::Kill,
            RunAction::Finish(outcome) => RunActionView::Finish(*outcome),
        }
    }
}

/// The view of an optional action.
pub open spec fn action_view(action: Option<RunAction>) -> Option<RunActionView> {
    match action {
        Some(action) => Some(action@),
        None => None,
    }
}

/// The state in which a run has ended with `outcome`, and the action that
/// reports it.
pub open spec fn finish(outcome: BuildOutcome) -> (RunState, Option<RunActionView>) {
    (RunState::Done(outcome), Some(RunActionView::Finish(outcome)))
}

/// The transition function of a run: the state after `event`, and the
/// action that the event calls for, if any.
///
/// Every line of output is handed on in the step that takes it. A cancelled
/// run asks for its process to be killed and ends only when the process is
/// reported gone; how the process ended is then of no account.
pub open spec fn run_step(state: RunState, event: RunEventView) -> (
    RunState,
    Option<RunActionView>,
) {
    match state {
        RunState::Spawning => match event {
            RunEventView::Spawned => (RunState::Running, None),
            RunEventView::SpawnFailed => finish(BuildOutcome::Failed(BuildError::SpawnFailed)),
            RunEventView::Cancel => (RunState::Withdrawn, None),
            _ => (state, None),
        },
        RunState::Withdrawn => match event {
            RunEventView::Spawned => (RunState::Stopping, Some(RunActionView::Kill)),
            RunEventView::SpawnFailed => finish(BuildOutcome::Cancelled),
            _ => (state, None),
        },
        RunState::Running => match event {
            RunEventView::Line(line) => (state, Some(RunActionView::Log(line))),
            RunEventView::Exited(code) => finish(exit_outcome(code)),
            RunEventView::Cancel => (RunState::Stopping, Some(RunActionView::Kill)),
            _ => (state, None),
        },
        RunState::Stopping => match event {
            RunEventView::Line(line) => (state, Some(RunActionView::Log(line))),
            RunEventView::Exited(_) => finish(BuildOutcome::Cancelled),
            _ => (state, None),
        },
        RunState::Done(_) => (state, None),
    }
}

/// One run of the build tool.
#[derive(Clone, Copy, Debug)]
pub struct BuildRun {
    state: RunState,
}

impl View for BuildRun {
    type V = RunState;

    closed spec fn view(&self) -> RunState {
        self.state
    }
}

impl BuildRun {
    /// A run whose launch has just been asked for.
    pub fn new() -> (run: BuildRun)
        ensures
            run@ == RunState::Spawning,
    {
        BuildRun { state: RunState::Spawning }
    }

    /// Where the run stands.
    pub fn state(&self) -> (state: RunState)
        ensures
            state == self@,
    {
        self.state
    }

    /// How the run ended, once it has.
    pub fn outcome(&self) -> (outcome: Option<BuildOutcome>)
        ensures
            outcome == match self@ {
                RunState::Done(outcome) => Some(outcome),
                _ => None::<BuildOutcome>,
            },
    {
        match self.state {
            RunState::Done(outcome) => Some(outcome),
            _ => None,
        }
    }

    fn end(&mut self, outcome: BuildOutcome) -> (action: Option<RunAction>)
        ensures
            (final(self)@, action_view(action)) == finish(outcome),
    {
        self.state = RunState::Done(outcome);
        Some(RunAction::Finish(outcome))
    }

    /// Takes one event and returns the action that it calls for, if any.
    pub fn step(&mut self, event: RunEvent) -> (action: Option<RunAction>)
        ensures
            final(self)@ == run_step(old(self)@, event@).0,
            action_view(action) == run_step(old(self)@, event@).1,
    {
        match self.state {
            RunState::Spawning => match event {
                RunEvent::Spawned => {
                    self.state = RunState::Running;
                    None
                },
                RunEvent::SpawnFailed => self.end(BuildOutcome::Failed(BuildError::SpawnFailed)),
                RunEvent::Cancel => {
                    self.state = RunState::Withdrawn;
                    None
                },
                _ => None,
            },
            RunState::Withdrawn => match event {
                RunEvent::Spawned => {
                    self.state = RunState::Stopping;
                    Some(RunAction::Kill)
                },
                RunEvent::SpawnFailed => self.end(BuildOutcome::Cancelled),
                _ => None,
            },
            RunState::Running => match event {
                RunEvent::Line(line) => Some(RunAction::Log(line)),
                RunEvent::Exited(code) => {
                    let outcome = match code {
                        Some(0) => BuildOutcome::Success,
                        _ => BuildOutcome::Failed(BuildError::NonZeroExit),
                    };
                    self.end(outcome)
                },
                RunEvent::Cancel => {
                    self.state = RunState::Stopping;
                    Some(RunAction::Kill)
                },
                _ => None,
            },
            RunState::Stopping => match event {
                RunEvent::Line(line) => Some(RunAction::Log(line)),
                RunEvent::Exited(_) => self.end(BuildOutcome::Cancelled),
                _ => None,
            },
            RunState::Done(_) => None,
        }
    }
}

/// A run together with an account of its process.
pub struct RunHistory {
    pub state: RunState,
    /// Whether the process of the run has been launched and has not ended.
    pub alive: bool,
    /// How often the process was asked to be killed.
    pub kills: nat,
    /// How often the end of the run was reported to its owner.
    pub finishes: nat,
    /// How many lines of output were taken, and how many were handed on.
    pub lines_in: nat,
    pub lines_out: nat,
}

impl RunHistory {
    /// The account of a run that has seen no event yet.
    pub open spec fn start() -> RunHistory {
        RunHistory {
            state: RunState::Spawning,
            alive: false,
            kills: 0,
            finishes: 0,
            lines_in: 0,
            lines_out: 0,
        }
    }

    /// The account after one event.
    pub open spec fn advance(self, event: RunEventView) -> RunHistory {
        let (state, action) = run_step(self.state, event);
        RunHistory {
            state,
            alive: match event {
                RunEventView::Spawned => self.alive || self.state == RunState::Spawning
                    || self.state == RunState::Withdrawn,
                RunEventView::Exited(_) => false,
                _ => self.alive,
            },
            kills: self.kills + (if action == Some(RunActionView::Kill) {
                1nat
            } else {
                0nat
            }),
            finishes: self.finishes + (if action is Some && action.unwrap() is Finish {
                1nat
            } else {
                0nat
            }),
            lines_in: self.lines_in + (if event is Line && self.alive {
                1nat
            } else {
                0nat
            }),
            lines_out: self.lines_out + (if action is Some && action.unwrap() is Log {
                1nat
            } else {
                0nat
            }),
        }
    }

    /// The account after a sequence of events.
    pub open spec fn replay(self, events: Seq<RunEventView>) -> RunHistory
        decreases events.len(),
    {
        if events.len() == 0 {
            self
        } else {
            self.replay(events.drop_last()).advance(events.last())
        }
    }

    /// What the account of every run satisfies.
    pub open spec fn sound(self) -> bool {
        &&& self.alive <==> (self.state == RunState::Running || self.state == RunState::Stopping)
        &&& self.finishes == (if self.state is Done {
            1nat
        } else {
            0nat
        })
        &&& match self.state {
            RunState::Stopping => self.kills == 1,
            RunState::Done(_) => self.kills <= 1,
            _ => self.kills == 0,
        }
        &&& self.lines_out == self.lines_in
    }
}

proof fn lemma_run_sound(events: Seq<RunEventView>)
    ensures
        RunHistory::start().replay(events).sound(),
    decreases events.len(),
{
    if events.len() > 0 {
        lemma_run_sound(events.drop_last());
    }
}

/// A run that has ended has no process left: the end of a run, cancelled or
/// not, is reported only after its process is gone or was never launched.
/// The end is reported once, and the process is asked to die at most once.
pub proof fn law_ended_run_is_gone(events: Seq<RunEventView>)
    ensures
        ({
            let h = RunHistory::start().replay(events);
            &&& h.state is Done ==> !h.alive
            &&& h.finishes <= 1
            &&& h.finishes == 1 <==> h.state is Done
            &&& h.kills <= 1
        }),
{
    lemma_run_sound(events);
}

/// Every line that a living process writes is handed on to the log in the
/// step that takes it: nothing is held back.
pub proof fn law_output_is_streamed(events: Seq<RunEventView>, line: Seq<char>)
    ensures
        ({
            let h = RunHistory::start().replay(events);
            &&& h.lines_out == h.lines_in
            &&& h.alive ==> run_step(h.state, RunEventView::Line(line)).1 == Some(
                RunActionView::Log(line),
            )
        }),
{
    lemma_run_sound(events);
}

/// Cancelling a run whose process is alive asks for the process to be
/// killed, and whatever the process then ends with, the run ends as
/// cancelled.
pub proof fn law_cancel_is_a_kill(events: Seq<RunEventView>, code: Option<i32>)
    requires
        RunHistory::start().replay(events).alive,
        RunHistory::start().replay(events).kills == 0,
    ensures
        ({
            let h = RunHistory::start().replay(events);
            let cancelled = h.advance(RunEventView::Cancel);
            &&& run_step(h.state, RunEventView::Cancel).1 == Some(RunActionView::Kill)
            &&& cancelled.alive
            &&& !(cancelled.state is Done)
            &&& cancelled.advance(RunEventView::Exited(code)).state == RunState::Done(
                BuildOutcome::Cancelled,
            )
        }),
{
    lemma_run_sound(events);
}

} // verus!
