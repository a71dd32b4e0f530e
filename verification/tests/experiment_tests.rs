use glow_station::camera::{recording_program, Camera};
use glow_station::experiment::{
    experiment_dir_name, experiments_root, log_header, parameters_path, temperature_log_path,
    wait_step, ExperimentRun, Outcome, RunState, Stage, WaitStep,
};

const ORDER: [Stage; 18] = [
    Stage::CreateDirectory,
    Stage::SaveParameters,
    Stage::InitializeLog,
    Stage::ConfigureTec,
    Stage::EnableTec,
    Stage::FanFull,
    Stage::SetRestTemperature,
    Stage::WaitForRest,
    Stage::StartVideo,
    Stage::StartLogging,
    Stage::PreRecord,
    Stage::SetSnapTemperature,
    Stage::WaitForSnap,
    Stage::HoldSnap,
    Stage::ReturnToRest,
    Stage::PostRecord,
    Stage::FanOff,
    Stage::DisableTec,
];

#[test]
fn a_good_run_visits_every_stage_in_order() {
    let mut run = ExperimentRun::new();
    for stage in ORDER {
        assert_eq!(run.state(), RunState::Running(stage));
        run.report(Outcome::Done);
    }
    assert_eq!(run.state(), RunState::Succeeded);
    run.report(Outcome::Failed);
    assert_eq!(run.state(), RunState::Succeeded);
}

#[test]
fn failures_that_end_the_run() {
    for stop in [
        Stage::CreateDirectory,
        Stage::SaveParameters,
        Stage::InitializeLog,
        Stage::ConfigureTec,
        Stage::EnableTec,
        Stage::WaitForRest,
        Stage::StartVideo,
        Stage::WaitForSnap,
    ] {
        let mut run = ExperimentRun::new();
        while run.state() != RunState::Running(stop) {
            run.report(Outcome::Done);
        }
        run.report(Outcome::Failed);
        assert_eq!(run.state(), RunState::Failed(stop));
        run.report(Outcome::Done);
        assert_eq!(run.state(), RunState::Failed(stop));
    }
}

#[test]
fn failures_that_are_only_reported() {
    let mut run = ExperimentRun::new();
    for stage in ORDER {
        let soft = matches!(
            stage,
            Stage::FanFull
                | Stage::SetRestTemperature
                | Stage::StartLogging
                | Stage::PreRecord
                | Stage::SetSnapTemperature
                | Stage::HoldSnap
                | Stage::ReturnToRest
                | Stage::PostRecord
                | Stage::FanOff
                | Stage::DisableTec
        );
        run.report(if soft { Outcome::Failed } else { Outcome::Done });
    }
    assert_eq!(run.state(), RunState::Succeeded);
}

#[test]
fn waiting_for_temperature() {
    assert_eq!(wait_step(true, Some(true)), WaitStep::TimedOut);
    assert_eq!(wait_step(false, Some(true)), WaitStep::Reached);
    assert_eq!(wait_step(false, Some(false)), WaitStep::Retry);
    assert_eq!(wait_step(false, None), WaitStep::Retry);
}

#[test]
fn experiment_files() {
    assert_eq!(experiments_root(), "experiments");
    let dir = experiment_dir_name(1_725_029_869_123);
    assert_eq!(dir, "experiments/experiment_1725029869123");
    assert_eq!(parameters_path(&dir), "experiments/experiment_1725029869123/parameters.yaml");
    assert_eq!(
        temperature_log_path(&dir),
        "experiments/experiment_1725029869123/temperature_log.csv"
    );
    assert_eq!(log_header(), "timestamp_ms,T_setpoint,P,I,D,T_min,T_max,T_measured,OC,PWM\n");
}

#[test]
fn camera_records_into_the_experiment() {
    let cam = Camera::new("experiments/experiment_7");
    assert_eq!(cam.video_path(), "experiments/experiment_7/video.h264");
    assert_eq!(cam.pts_path(), "experiments/experiment_7/timestamps.txt");
    assert_eq!(recording_program(), "rpicam-vid");
    assert_eq!(
        cam.recording_args(),
        vec![
            "-o",
            "experiments/experiment_7/video.h264",
            "-t",
            "0",
            "--save-pts",
            "experiments/experiment_7/timestamps.txt",
            "--flush",
            "--nopreview",
            "--mode",
            "1920:1080:10:P",
        ]
    );
}
