//! An experiment run: the files it writes and the order of its stages.
//!
//! A run creates its directory, saves its parameters and starts its
//! temperature log, configures and enables the TEC, runs the fan, brings the
//! stage to the rest temperature, starts the camera and the logger, records
//! at rest, jumps to the snap temperature, holds it, returns to rest, records
//! the cooling, stops the fan and disables the TEC. The caller carries out
//! each stage and reports how it went; [`ExperimentRun`] decides what comes
//! next.

use vstd::prelude::*;
use crate::text::{decimal, u64_to_decimal};

verus! {

/// The directory under which every experiment gets its own directory.
pub fn experiments_root() -> (r: &'static str)
    ensures
        r@ == "experiments"@,
{
    "experiments"
}

/// The directory of the experiment started at `timestamp_ms` (milliseconds
/// since the Unix epoch).
pub open spec fn experiment_dir_for(timestamp_ms: nat) -> Seq<char> {
    "experiments/experiment_"@ + decimal(timestamp_ms)
}

/// The directory of the experiment started at `timestamp_ms`.
pub fn experiment_dir_name(timestamp_ms: u64) -> (d: String)
    ensures
        d@ == experiment_dir_for(timestamp_ms as nat),
{
    let mut d = String::new();
    d.append("experiments/experiment_");
    let n = u64_to_decimal(timestamp_ms);
    d.append(n.as_str());
    d
}

/// The parameter file of the experiment in `dir`.
pub open spec fn parameters_file(dir: Seq<char>) -> Seq<char> {
    dir + "/parameters.yaml"@
}

/// The temperature log of the experiment in `dir`.
pub open spec fn temperature_log_file(dir: Seq<char>) -> Seq<char> {
    dir + "/temperature_log.csv"@
}

/// The parameter file of the experiment in `dir`.
pub fn parameters_path(dir: &str) -> (p: String)
    ensures
        p@ == parameters_file(dir@),
{
    let mut p = String::from_str(dir);
    p.append("/parameters.yaml");
    p
}

/// The temperature log of the experiment in `dir`.
pub fn temperature_log_path(dir: &str) -> (p: String)
    ensures
        p@ == temperature_log_file(dir@),
{
    let mut p = String::from_str(dir);
    p.append("/temperature_log.csv");
    p
}

/// The header line of the temperature log.
pub fn log_header() -> (h: &'static str)
    ensures
        h@ == "timestamp_ms,T_setpoint,P,I,D,T_min,T_max,T_measured,OC,PWM\n"@,
{
    "timestamp_ms,T_setpoint,P,I,D,T_min,T_max,T_measured,OC,PWM\n"
}

/// The stages of a run, in order.
#[derive(Clone, Copy, PartialEq, Eq, Structural, Debug)]
pub enum Stage {
    CreateDirectory,
    SaveParameters,
    InitializeLog,
    ConfigureTec,
    EnableTec,
    FanFull,
    SetRestTemperature,
    WaitForRest,
    StartVideo,
    StartLogging,
    PreRecord,
    SetSnapTemperature,
    WaitForSnap,
    HoldSnap,
    ReturnToRest,
    PostRecord,
    FanOff,
    DisableTec,
}

/// The number of stages.
pub open spec fn stage_count() -> nat {
    18
}

/// The position of `s` in a run.
pub open spec fn stage_index(s: Stage) -> nat {
    match s {
        Stage::CreateDirectory => 0,
        Stage::SaveParameters => 1,
        Stage::InitializeLog => 2,
        Stage::ConfigureTec => 3,
        Stage::EnableTec => 4,
        Stage::FanFull => 5,
        Stage::SetRestTemperature => 6,
        Stage::WaitForRest => 7,
        Stage::StartVideo => 8,
        Stage::StartLogging => 9,
        Stage::PreRecord => 10,
        Stage::SetSnapTemperature => 11,
        Stage::WaitForSnap => 12,
        Stage::HoldSnap => 13,
        Stage::ReturnToRest => 14,
        Stage::PostRecord => 15,
        Stage::FanOff => 16,
        Stage::DisableTec => 17,
    }
}

/// The stage at position `i` (`i < 18`).
pub open spec fn stage_at(i: nat) -> Stage {
    if i == 0 {
        Stage::CreateDirectory
    } else if i == 1 {
        Stage::SaveParameters
    } else if i == 2 {
        Stage::InitializeLog
    } else if i == 3 {
        Stage::ConfigureTec
    } else if i == 4 {
        Stage::EnableTec
    } else if i == 5 {
        Stage::FanFull
    } else if i == 6 {
        Stage::SetRestTemperature
    } else if i == 7 {
        Stage::WaitForRest
    } else if i == 8 {
        Stage::StartVideo
    } else if i == 9 {
        Stage::StartLogging
    } else if i == 10 {
        Stage::PreRecord
    } else if i == 11 {
        Stage::SetSnapTemperature
    } else if i == 12 {
        Stage::WaitForSnap
    } else if i == 13 {
        Stage::HoldSnap
    } else if i == 14 {
        Stage::ReturnToRest
    } else if i == 15 {
        Stage::PostRecord
    } else if i == 16 {
        Stage::FanOff
    } else {
        Stage::DisableTec
    }
}

/// Whether a failure of `s` ends the run with an error. The other stages
/// cannot fail, or their failure is only reported: running the fan,
/// setting a temperature, stopping the fan, disabling the TEC.
pub open spec fn aborts_on_failure(s: Stage) -> bool {
    match s {
        Stage::CreateDirectory | Stage::SaveParameters | Stage::InitializeLog
        | Stage::ConfigureTec | Stage::EnableTec | Stage::WaitForRest | Stage::StartVideo
        | Stage::WaitForSnap => true,
        _ => false,
    }
}

/// How a stage went.
#[derive(Clone, Copy, PartialEq, Eq, Structural, Debug)]
pub enum Outcome {
    Done,
    Failed,
}

/// Where a run stands.
#[derive(Clone, Copy, PartialEq, Eq, Structural, Debug)]
pub enum RunState {
    /// The stage to carry out next.
    Running(Stage),
    /// Every stage was carried out.
    Succeeded,
    /// The run ended with the failure of this stage.
    Failed(Stage),
}

/// Where a run stands after the current stage went as `outcome`.
pub open spec fn advance(state: RunState, outcome: Outcome) -> RunState {
    match state {
        RunState::Running(s) => if outcome == Outcome::Failed && aborts_on_failure(s) {
            RunState::Failed(s)
        } else if s == Stage::DisableTec {
            RunState::Succeeded
        } else {
            RunState::Running(stage_at(stage_index(s) + 1))
        },
        _ => state,
    }
}

/// Where a run stands after its stages went as `outcomes`, one report each.
pub open spec fn run_after(outcomes: Seq<Outcome>) -> RunState
    decreases outcomes.len(),
{
    if outcomes.len() == 0 {
        RunState::Running(Stage::CreateDirectory)
    } else {
        advance(run_after(outcomes.drop_last()), outcomes.last())
    }
}

fn next_stage(s: Stage) -> (n: Stage)
    requires
        s != Stage::DisableTec,
    ensures
        n == stage_at(stage_index(s) + 1),
{
    match s {
        Stage::CreateDirectory => Stage::SaveParameters,
        Stage::SaveParameters => Stage::InitializeLog,
        Stage::InitializeLog => Stage::ConfigureTec,
        Stage::ConfigureTec => Stage::EnableTec,
        Stage::EnableTec => Stage::FanFull,
        Stage::FanFull => Stage::SetRestTemperature,
        Stage::SetRestTemperature => Stage::WaitForRest,
        Stage::WaitForRest => Stage::StartVideo,
        Stage::StartVideo => Stage::StartLogging,
        Stage::StartLogging => Stage::PreRecord,
        Stage::PreRecord => Stage::SetSnapTemperature,
        Stage::SetSnapTemperature => Stage::WaitForSnap,
        Stage::WaitForSnap => Stage::HoldSnap,
        Stage::HoldSnap => Stage::ReturnToRest,
        Stage::ReturnToRest => Stage::PostRecord,
        Stage::PostRecord => Stage::FanOff,
        Stage::FanOff => Stage::DisableTec,
        Stage::DisableTec => Stage::DisableTec,
    }
}

/// Whether a failure of `s` ends the run.
pub fn stage_aborts_on_failure(s: Stage) -> (r: bool)
    ensures
        r == aborts_on_failure(s),
{
    match s {
        Stage::CreateDirectory | Stage::SaveParameters | Stage::InitializeLog
        | Stage::ConfigureTec | Stage::EnableTec | Stage::WaitForRest | Stage::StartVideo
        | Stage::WaitForSnap => true,
        _ => false,
    }
}

/// The order of an experiment run.
pub struct ExperimentRun {
    state: RunState,
}

impl View for ExperimentRun {
    type V = RunState;

    closed spec fn view(&self) -> RunState {
        self.state
    }
}

impl ExperimentRun {
    /// A run about to create its directory.
    pub fn new() -> (r: ExperimentRun)
        ensures
            r@ == RunState::Running(Stage::CreateDirectory),
    {
        ExperimentRun { state: RunState::Running(Stage::CreateDirectory) }
    }

    /// Where the run stands.
    pub fn state(&self) -> (s: RunState)
        ensures
            s == self@,
    {
        self.state
    }

    /// Takes the report of the current stage and moves to what comes next.
    pub fn report(&mut self, outcome: Outcome)
        ensures
            final(self)@ == advance(old(self)@, outcome),
    {
        match self.state {
            RunState::Running(s) => {
                if outcome == Outcome::Failed && stage_aborts_on_failure(s) {
                    self.state = RunState::Failed(s);
                } else if s == Stage::DisableTec {
                    self.state = RunState::Succeeded;
                } else {
                    self.state = RunState::Running(next_stage(s));
                }
            },
            _ => {},
        }
    }
}

/// What to do next while waiting for a temperature.
#[derive(Clone, Copy, PartialEq, Eq, Structural, Debug)]
pub enum WaitStep {
    /// The wait took longer than allowed: the run fails.
    TimedOut,
    /// The temperature is within tolerance: the wait is over.
    Reached,
    /// Sleep a second and look again.
    Retry,
}

/// The decision of one round of waiting: first the time limit, then the
/// reading (`Some(within)` if a readout came, telling whether the measured
/// temperature is within tolerance of the target; `None` if none came).
pub open spec fn wait_decision(over_time: bool, reading: Option<bool>) -> WaitStep {
    if over_time {
        WaitStep::TimedOut
    } else if reading == Some(true) {
        WaitStep::Reached
    } else {
        WaitStep::Retry
    }
}

/// One round of waiting for a temperature.
pub fn wait_step(over_time: bool, reading: Option<bool>) -> (w: WaitStep)
    ensures
        w == wait_decision(over_time, reading),
{
    if over_time {
        WaitStep::TimedOut
    } else {
        match reading {
            Some(true) => WaitStep::Reached,
            _ => WaitStep::Retry,
        }
    }
}

// ------------------------------------------------------------------- laws

/// A run whose stages all go well carries them out in order, one report
/// each, and succeeds after the eighteenth.
pub proof fn lemma_all_done_runs_in_order(outcomes: Seq<Outcome>)
    requires
        outcomes.len() <= stage_count(),
        forall|k: int| 0 <= k < outcomes.len() ==> outcomes[k] == Outcome::Done,
    ensures
        outcomes.len() < stage_count() ==> run_after(outcomes) == RunState::Running(
            stage_at(outcomes.len()),
        ),
        outcomes.len() == stage_count() ==> run_after(outcomes) == RunState::Succeeded,
    decreases outcomes.len(),
{
    if outcomes.len() > 0 {
        lemma_all_done_runs_in_order(outcomes.drop_last());
    }
}

/// A finished run stays finished, whatever is reported.
pub proof fn lemma_finished_runs_stay(state: RunState, outcome: Outcome)
    requires
        !(state is Running),
    ensures
        advance(state, outcome) == state,
{
}

/// A stage whose failure ends the run ends it, with that stage named.
pub proof fn lemma_failure_ends_run(s: Stage)
    requires
        aborts_on_failure(s),
    ensures
        advance(RunState::Running(s), Outcome::Failed) == RunState::Failed(s),
{
}

/// Every report moves a run forward: to a later stage, or to its end.
pub proof fn lemma_runs_move_forward(s: Stage, outcome: Outcome)
    ensures
        advance(RunState::Running(s), outcome) matches RunState::Running(n) ==> stage_index(n)
            > stage_index(s),
{
}

/// A run succeeds only right after disabling the TEC.
pub proof fn lemma_success_follows_disable(state: RunState, outcome: Outcome)
    requires
        state is Running,
        advance(state, outcome) == RunState::Succeeded,
    ensures
        state == RunState::Running(Stage::DisableTec),
{
}

/// Waiting ends in a timeout once the time limit has passed, whatever the
/// reading; before that it ends only on a reading within tolerance.
pub proof fn lemma_wait_decision(over_time: bool, reading: Option<bool>)
    ensures
        over_time ==> wait_decision(over_time, reading) == WaitStep::TimedOut,
        !over_time ==> (wait_decision(over_time, reading) == WaitStep::Reached <==> reading
            == Some(true)),
{
}

} // verus!
