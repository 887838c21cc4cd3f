//! Exit codes, statuses, failures and results.

use forge::clock::Elapsed;
use forge::result::{
    ExecutionStatus, ExitCode, FailureReason, OutputFormat, PipelineResult, StageResult, StepResult,
};
use std::str::FromStr;

fn seconds(d: Elapsed) -> f64 {
    d.secs() as f64 + d.nanos() as f64 / 1_000_000_000.0
}

#[test]
fn exit_code_values_are_stable() {
    assert_eq!(ExitCode::Success.as_i32(), 0);
    assert_eq!(ExitCode::PipelineFailure.as_i32(), 1);
    assert_eq!(ExitCode::ConfigError.as_i32(), 2);
    assert_eq!(ExitCode::RuntimeError.as_i32(), 3);
    assert_eq!(ExitCode::Cancelled.as_i32(), 4);
    assert_eq!(ExitCode::Timeout.as_i32(), 5);
}

#[test]
fn exit_code_from_failure_reason_maps_correctly() {
    assert_eq!(
        ExitCode::from_failure_reason(&FailureReason::StepFailed {
            stage: "test".into(),
            step: "cargo-test".into(),
            exit_code: 101,
        }),
        ExitCode::PipelineFailure
    );
    assert_eq!(
        ExitCode::from_failure_reason(&FailureReason::ConfigError {
            message: "bad yaml".into()
        }),
        ExitCode::ConfigError
    );
    assert_eq!(
        ExitCode::from_failure_reason(&FailureReason::DockerError {
            message: "daemon down".into()
        }),
        ExitCode::RuntimeError
    );
    assert_eq!(
        ExitCode::from_failure_reason(&FailureReason::Cancelled),
        ExitCode::Cancelled
    );
    assert_eq!(
        ExitCode::from_failure_reason(&FailureReason::Timeout {
            stage: "test".into(),
            step: "cargo-test".into()
        }),
        ExitCode::Timeout
    );
}

#[test]
fn remaining_failures_map_to_their_codes() {
    let runtime = FailureReason::RuntimeError { message: "disk".into() };
    let step = FailureReason::StepError {
        stage: "s".into(),
        step: "t".into(),
        message: "m".into(),
    };
    assert_eq!(ExitCode::from_failure_reason(&runtime), ExitCode::RuntimeError);
    assert_eq!(ExitCode::from_failure_reason(&step), ExitCode::PipelineFailure);
}

#[test]
fn execution_status_symbols() {
    assert_eq!(ExecutionStatus::Success.symbol(), "✓");
    assert_eq!(ExecutionStatus::Failed.symbol(), "✗");
    assert_eq!(ExecutionStatus::Skipped.symbol(), "-");
    assert_eq!(ExecutionStatus::Cancelled.symbol(), "⊘");
    assert_eq!(ExecutionStatus::Timeout.symbol(), "⏱");
}

#[test]
fn execution_status_is_success() {
    assert!(ExecutionStatus::Success.is_success());
    assert!(!ExecutionStatus::Failed.is_success());
    assert!(!ExecutionStatus::Skipped.is_success());
}

#[test]
fn parse_exit_code_from_message() {
    let msg = "Step 'cargo-test' failed with exit code 101\nHint: Check command output";
    assert_eq!(FailureReason::parse_exit_code_from_message(msg), Some(101));

    let msg2 = "Step 'build' failed with exit code 2";
    assert_eq!(FailureReason::parse_exit_code_from_message(msg2), Some(2));

    let msg3 = "Docker daemon unreachable";
    assert_eq!(FailureReason::parse_exit_code_from_message(msg3), None);
}

#[test]
fn exit_codes_at_the_limits() {
    let parse = FailureReason::parse_exit_code_from_message;
    assert_eq!(parse("exit code 2147483647"), Some(i32::MAX));
    assert_eq!(parse("exit code 2147483648"), None);
    assert_eq!(parse("exit code 99999999999999999999"), None);
    assert_eq!(parse("exit code 007x"), Some(7));
    assert_eq!(parse("exit code -1"), None);
    assert_eq!(parse("exit code "), None);
    assert_eq!(parse("exit code x, exit code 3"), None);
    assert_eq!(parse("exit code 4, exit code 3"), Some(4));
    assert_eq!(parse(""), None);
}

#[test]
fn failure_reason_short_description() {
    let r = FailureReason::StepFailed {
        stage: "test".into(),
        step: "cargo-test".into(),
        exit_code: 101,
    };
    assert_eq!(r.short_description(), "test / cargo-test (exit 101)");

    let r2 = FailureReason::Cancelled;
    assert_eq!(r2.short_description(), "cancelled by user");
}

#[test]
fn every_failure_has_a_description() {
    let negative = FailureReason::StepFailed { stage: "a".into(), step: "b".into(), exit_code: -9 };
    assert_eq!(negative.short_description(), "a / b (exit -9)");
    let error = FailureReason::StepError {
        stage: "a".into(),
        step: "b".into(),
        message: "m".into(),
    };
    assert_eq!(error.short_description(), "a / b");
    let config = FailureReason::ConfigError { message: "m".into() };
    assert_eq!(config.short_description(), "config error: m");
    let docker = FailureReason::DockerError { message: "m".into() };
    assert_eq!(docker.short_description(), "docker error: m");
    let runtime = FailureReason::RuntimeError { message: "m".into() };
    assert_eq!(runtime.short_description(), "runtime error: m");
    let timeout = FailureReason::Timeout { stage: "a".into(), step: "b".into() };
    assert_eq!(timeout.short_description(), "a / b (timeout)");
}

#[test]
fn step_result_success() {
    let r = StepResult::success("build", Elapsed::from_millis(1234));
    assert_eq!(r.status, ExecutionStatus::Success);
    assert_eq!(r.exit_code, Some(0));
    assert!(r.error.is_none());
    let d = seconds(r.duration_secs.unwrap());
    assert!((d - 1.234).abs() < 0.001);
}

#[test]
fn step_result_failed() {
    let r = StepResult::failed("test", Elapsed::from_secs(5), Some(101), "tests failed");
    assert_eq!(r.status, ExecutionStatus::Failed);
    assert_eq!(r.exit_code, Some(101));
    assert_eq!(r.error.as_deref(), Some("tests failed"));
}

#[test]
fn step_result_skipped() {
    let r = StepResult::skipped("lint");
    assert_eq!(r.status, ExecutionStatus::Skipped);
    assert!(r.duration_secs.is_none());
    assert!(r.exit_code.is_none());
}

#[test]
fn stage_result_derives_failed_from_steps() {
    let steps = vec![
        StepResult::success("build", Elapsed::from_secs(1)),
        StepResult::failed("test", Elapsed::from_secs(2), Some(1), "oops"),
    ];
    let stage = StageResult::from_steps("ci", false, Elapsed::from_secs(3), steps);
    assert_eq!(stage.status, ExecutionStatus::Failed);
}

#[test]
fn stage_result_derives_success_from_steps() {
    let steps = vec![
        StepResult::success("build", Elapsed::from_secs(1)),
        StepResult::success("test", Elapsed::from_secs(2)),
    ];
    let stage = StageResult::from_steps("ci", false, Elapsed::from_secs(3), steps);
    assert_eq!(stage.status, ExecutionStatus::Success);
}

#[test]
fn stage_result_skipped() {
    let s = StageResult::skipped("deploy", false);
    assert_eq!(s.status, ExecutionStatus::Skipped);
    assert!(s.steps.is_empty());
    assert!(s.duration_secs.is_none());
}

#[test]
fn stage_of_skipped_steps_is_skipped() {
    let all = vec![StepResult::skipped("a"), StepResult::skipped("b")];
    let stage = StageResult::from_steps("s", true, Elapsed::zero(), all);
    assert_eq!(stage.status, ExecutionStatus::Skipped);
    assert!(stage.duration_secs.is_none());
    let some = vec![StepResult::skipped("a"), StepResult::success("b", Elapsed::zero())];
    let stage = StageResult::from_steps("s", true, Elapsed::zero(), some);
    assert_eq!(stage.status, ExecutionStatus::Success);
    assert_eq!(stage.duration_secs, Some(Elapsed::zero()));
}

#[test]
fn output_format_parse() {
    assert_eq!(
        OutputFormat::from_str("human").unwrap(),
        OutputFormat::Human
    );
    assert_eq!(OutputFormat::from_str("json").unwrap(), OutputFormat::Json);
    assert_eq!(
        OutputFormat::from_str("junit").unwrap(),
        OutputFormat::Junit
    );
    assert_eq!(
        OutputFormat::from_str("HUMAN").unwrap(),
        OutputFormat::Human
    );
    assert!(OutputFormat::from_str("xml").is_err());
}

#[test]
fn unknown_format_is_named() {
    assert_eq!(
        OutputFormat::parse("XML").unwrap_err(),
        "unknown format 'xml'; valid values: human, json, junit"
    );
}

#[test]
fn first_failure_is_found() {
    let mut result = PipelineResult {
        run_id: "r".into(),
        started_at: "2024-01-01T00:00:00Z".into(),
        completed_at: "2024-01-01T00:00:01Z".into(),
        duration_secs: Elapsed::from_secs(1),
        status: ExecutionStatus::Failed,
        failure: Some(FailureReason::Cancelled),
        stages: vec![
            StageResult::from_steps(
                "one",
                false,
                Elapsed::zero(),
                vec![StepResult::success("a", Elapsed::zero())],
            ),
            StageResult::from_steps(
                "two",
                false,
                Elapsed::zero(),
                vec![
                    StepResult::success("b", Elapsed::zero()),
                    StepResult::failed("c", Elapsed::zero(), None, "first"),
                    StepResult::failed("d", Elapsed::zero(), None, "second"),
                ],
            ),
        ],
        forge_version: "v".into(),
    };
    let (stage, step) = result.first_failure().unwrap();
    assert_eq!(stage.name, "two");
    assert_eq!(step.name, "c");
    assert_eq!(result.exit_code(), ExitCode::Cancelled);
    assert!(!result.is_success());
    result.failure = None;
    result.status = ExecutionStatus::Success;
    result.stages.truncate(1);
    assert!(result.first_failure().is_none());
    assert_eq!(result.exit_code(), ExitCode::Success);
    assert!(result.is_success());
}

#[test]
fn milliseconds_are_split() {
    let d = Elapsed::from_millis(2_345);
    assert_eq!((d.secs(), d.nanos()), (2, 345_000_000));
    let d = Elapsed::from_millis(999);
    assert_eq!((d.secs(), d.nanos()), (0, 999_000_000));
}
