use mmstack_setup::pipeline::{
    command_failure_message, pipeline_steps, spawn_failure_message, step_failure_message,
    step_is_verbose, step_name, stream_output, OutputMode, Step, StepRunner,
};
use mmstack_setup::text::{format_elapsed, step_label};

fn run_with(total: usize, fail_at: Option<usize>) -> (usize, i32, StepRunner) {
    let mut runner = StepRunner::new(total);
    let mut executed = 0usize;
    while let Some(index) = runner.next_step() {
        executed += 1;
        runner.record(Some(index) != fail_at);
    }
    let code = runner.exit_code();
    (executed, code, runner)
}

#[test]
fn failing_step_stops_the_run() {
    let (executed, code, runner) = run_with(8, Some(3));
    assert_eq!(executed, 3);
    assert_eq!(code, 1);
    assert_eq!(runner.failed, Some(3));
    assert_eq!(runner.completed, 2);
    assert_eq!(runner.next_step(), None);
}

#[test]
fn failing_first_step_runs_nothing_else() {
    let (executed, code, _) = run_with(9, Some(1));
    assert_eq!(executed, 1);
    assert_eq!(code, 1);
}

#[test]
fn successful_run_completes_every_step() {
    let (executed, code, runner) = run_with(8, None);
    assert_eq!(executed, 8);
    assert_eq!(code, 0);
    assert_eq!(runner.completed, 8);
}

#[test]
fn purge_adds_a_first_step() {
    let with = pipeline_steps(true);
    let without = pipeline_steps(false);
    assert_eq!(with.len(), 9);
    assert_eq!(without.len(), 8);
    assert_eq!(with[0], Step::Purge);
    assert_eq!(&with[1..], &without[..]);
    assert_eq!(without[0], Step::EnsureWheelhouse);
    assert_eq!(without[7], Step::Sync);
    assert_eq!(without[4], Step::BuildMmcv);
    assert_eq!(without[5], Step::BuildMmaction2);
    assert_eq!(without[6], Step::BuildMmengine);
}

#[test]
fn step_names() {
    assert_eq!(step_name(Step::Purge), "Purging mmaction cache directories");
    assert_eq!(step_name(Step::BuildMmaction2), "Building/installing mmaction2");
    assert_eq!(step_name(Step::Sync), "Running uv sync");
}

#[test]
fn sync_always_streams() {
    assert!(step_is_verbose(Step::Sync, false));
    assert!(!step_is_verbose(Step::BuildMmcv, false));
    assert!(step_is_verbose(Step::BuildMmcv, true));
}

#[test]
fn verbose_mode_overrides_quiet_commands() {
    assert!(stream_output(true, OutputMode::Quiet));
    assert!(stream_output(false, OutputMode::Stream));
    assert!(!stream_output(false, OutputMode::Quiet));
}

#[test]
fn error_messages() {
    assert_eq!(spawn_failure_message("clone mmcv"), "failed to spawn command: clone mmcv");
    assert_eq!(
        command_failure_message("uv sync", "exit status: 2"),
        "command failed (uv sync) with status exit status: 2"
    );
    assert_eq!(step_failure_message("Running uv sync"), "step failed: Running uv sync");
}

#[test]
fn elapsed_under_a_minute() {
    assert_eq!(format_elapsed(4, 200_000_000), "4.2s");
    assert_eq!(format_elapsed(0, 0), "0.0s");
    assert_eq!(format_elapsed(0, 49_999_999), "0.0s");
    assert_eq!(format_elapsed(0, 50_000_000), "0.1s");
    assert_eq!(format_elapsed(12, 340_000_000), "12.3s");
    assert_eq!(format_elapsed(59, 960_000_000), "60.0s");
}

#[test]
fn elapsed_of_minutes() {
    assert_eq!(format_elapsed(60, 0), "1m 0s");
    assert_eq!(format_elapsed(125, 900_000_000), "2m 5s");
    assert_eq!(format_elapsed(3725, 0), "62m 5s");
}

#[test]
fn step_labels() {
    assert_eq!(step_label(3, 8), "[3/8]");
    assert_eq!(step_label(10, 12), "[10/12]");
}
