//! Steps, stages and whole runs.

use forge::clock::Elapsed;
use forge::config::{CacheConfig, Stage, Step};
use forge::container::{container_setup, ContainerRuntimeContext, ContainerSetup};
use forge::env::EnvMap;
use forge::execution::{parallel_step_results, PipelineRun, SequentialStage, StepFailure};
use forge::result::{ExecutionStatus, ExitCode, FailureReason, StepResult};
use forge::runner::{
    announce_step_dir, collect_parallel_results, image_lock_error, run_command_in_container,
    run_step_parallel, step_temp_dir, ParallelResults, StepAction, StepEvent, StepPhase,
    TaskOutcome,
};
use std::sync::{Arc, Mutex};
use std::time::Duration;
use tokio::task::JoinHandle;

fn step(name: &str) -> Step {
    Step {
        name: name.to_string(),
        command: "true".to_string(),
        image: "img".to_string(),
        working_dir: String::new(),
        env: EnvMap::new(),
        depends_on: vec![],
    }
}

fn stage(name: &str, parallel: bool, steps: &[&str]) -> Stage {
    Stage {
        name: name.to_string(),
        steps: steps.iter().map(|s| step(s)).collect(),
        parallel,
        depends_on: vec![],
    }
}

fn setup() -> ContainerSetup {
    let secrets = EnvMap::new();
    let ctx = ContainerRuntimeContext { workspace_dir: "/w", cache_dir: "/c", secrets_env: &secrets };
    container_setup(&step("build"), &CacheConfig::default(), "/t", &ctx, "n".to_string())
}

fn told(actions: &[StepAction<String>]) -> Vec<String> {
    actions.iter().map(|a| format!("{a:?}")).collect()
}

#[test]
fn a_sequential_step_cleans_up_after_itself() {
    let (phase, actions) =
        run_command_in_container(StepPhase::Preparing, StepEvent::Prepared(Ok(setup())));
    assert_eq!(told(&actions), vec!["NotifyStart { step: \"build\", image: \"img\" }", "Start"]);
    let (phase, actions) =
        run_command_in_container(phase, StepEvent::Started(Ok("id".to_string())));
    assert_eq!(
        told(&actions),
        vec!["NotifyCreated(\"id\")", "FollowLogs(\"id\")", "Wait(\"id\")"]
    );
    let (phase, actions) =
        run_command_in_container(phase, StepEvent::Ended(Err("boom".to_string())));
    assert_eq!(
        told(&actions),
        vec![
            "JoinLogs",
            "Cleanup(\"id\")",
            "NotifyDestroyed(\"id\")",
            "NotifyComplete { step: \"build\", success: false }",
            "Finish(Err(\"boom\"))",
        ]
    );
    assert!(matches!(phase, StepPhase::Done));
    let (phase, actions) = run_command_in_container(phase, StepEvent::Ended(Ok(())));
    assert!(matches!(phase, StepPhase::Done));
    assert!(actions.is_empty());
}

#[test]
fn a_parallel_step_is_tracked() {
    let (phase, actions) = run_step_parallel(StepPhase::Preparing, StepEvent::Prepared(Ok(setup())));
    assert_eq!(told(&actions)[0], "ReleaseImage");
    let (phase, actions) = run_step_parallel(phase, StepEvent::Started(Ok("id".to_string())));
    assert_eq!(
        told(&actions),
        vec!["NotifyCreated(\"id\")", "Track(\"id\")", "FollowLogs(\"id\")", "Wait(\"id\")"]
    );
    let (_, actions) = run_step_parallel(phase, StepEvent::Ended(Ok(())));
    assert_eq!(
        told(&actions),
        vec![
            "JoinLogs",
            "NotifyComplete { step: \"build\", success: true }",
            "Finish(Ok(()))",
        ]
    );
}

#[test]
fn steps_that_never_start() {
    let (phase, actions) =
        run_command_in_container(StepPhase::Preparing, StepEvent::Prepared(Err("no".to_string())));
    assert_eq!(told(&actions), vec!["Finish(Err(\"no\"))"]);
    assert!(matches!(phase, StepPhase::Done));
    let (phase, actions) =
        run_step_parallel(StepPhase::Preparing, StepEvent::Prepared(Err("no".to_string())));
    assert_eq!(told(&actions), vec!["ReleaseImage", "Finish(Err(\"no\"))"]);
    assert!(matches!(phase, StepPhase::Done));
    let starting = StepPhase::Starting { step: "build".to_string() };
    let (phase, actions) = run_step_parallel(starting, StepEvent::Started(Err("e".to_string())));
    assert_eq!(told(&actions), vec!["Finish(Err(\"e\"))"]);
    assert!(matches!(phase, StepPhase::Done));
}

#[test]
fn events_out_of_place_change_nothing() {
    let (phase, actions) = run_command_in_container(StepPhase::Preparing, StepEvent::Ended(Ok(())));
    assert!(matches!(phase, StepPhase::Preparing));
    assert!(actions.is_empty());
}

#[test]
fn parallel_steps_have_their_own_directories() {
    assert_eq!(step_temp_dir("/tmp/f", 0), "/tmp/f/step-0");
    assert_eq!(step_temp_dir("/tmp/f", 12), "/tmp/f/step-12");
    assert_ne!(step_temp_dir("/tmp/f", 1), step_temp_dir("/tmp/f", 11));
    let line = announce_step_dir("/d", true).unwrap();
    assert_eq!(line.spans[0].text, "  Created isolated temp directory: /d");
    assert!(announce_step_dir("/d", false).is_none());
    assert_eq!(
        image_lock_error(),
        "Image pull lock closed unexpectedly during parallel execution"
    );
}

/// Awaits tasks in order, as a parallel stage does.
async fn collect(handles: Vec<JoinHandle<Result<(), String>>>) -> Result<(), StepFailure> {
    let mut results = ParallelResults::new();
    for (index, handle) in handles.into_iter().enumerate() {
        if results.must_abort() {
            handle.abort();
        }
        let outcome = match handle.await {
            Ok(Ok(())) => TaskOutcome::Succeeded,
            Ok(Err(e)) => TaskOutcome::Failed(e),
            Err(e) if e.is_cancelled() => TaskOutcome::Cancelled,
            Err(e) => TaskOutcome::Broken(e.to_string()),
        };
        results.record(index, outcome);
    }
    results.finish()
}

fn one_thread() -> tokio::runtime::Runtime {
    tokio::runtime::Builder::new_current_thread().enable_all().build().unwrap()
}

#[test]
fn collect_parallel_results_succeeds_when_all_tasks_ok() {
    one_thread().block_on(async {
        let handles: Vec<JoinHandle<Result<(), String>>> =
            vec![tokio::spawn(async { Ok(()) }), tokio::spawn(async { Ok(()) })];
        collect(handles).await.expect("all tasks should succeed");
    });
}

#[test]
fn collect_parallel_results_aborts_remaining_tasks_on_failure() {
    one_thread().block_on(async {
        let started = Arc::new(Mutex::new(0));
        let finished = Arc::new(Mutex::new(0));
        let started_fail = Arc::clone(&started);
        let handles: Vec<JoinHandle<Result<(), String>>> = vec![
            tokio::spawn(async move {
                *started_fail.lock().unwrap() += 1;
                Err("step failed".to_string())
            }),
            tokio::spawn({
                let started = Arc::clone(&started);
                let finished = Arc::clone(&finished);
                async move {
                    *started.lock().unwrap() += 1;
                    tokio::time::sleep(Duration::from_millis(500)).await;
                    *finished.lock().unwrap() += 1;
                    Ok(())
                }
            }),
        ];
        let err = collect(handles).await.expect_err("first failing task should fail the stage");
        assert!(err.error.contains("step failed"));
        assert_eq!(err.step, 0);
        assert_eq!(*started.lock().unwrap(), 2);
        assert_eq!(*finished.lock().unwrap(), 0);
    });
}

#[test]
fn all_tasks_succeed() {
    assert!(collect_parallel_results(vec![TaskOutcome::Succeeded, TaskOutcome::Succeeded]).is_ok());
    assert!(collect_parallel_results(vec![]).is_ok());
    assert!(collect_parallel_results(vec![TaskOutcome::Cancelled]).is_ok());
}

#[test]
fn the_first_error_wins() {
    let outcomes = vec![
        TaskOutcome::Succeeded,
        TaskOutcome::Failed("step failed".to_string()),
        TaskOutcome::Broken("panic".to_string()),
        TaskOutcome::Failed("later".to_string()),
    ];
    let failure = collect_parallel_results(outcomes).unwrap_err();
    assert_eq!((failure.step, failure.error.as_str()), (1, "step failed"));
    let broken = vec![TaskOutcome::Broken("panic".to_string()), TaskOutcome::Succeeded];
    let failure = collect_parallel_results(broken).unwrap_err();
    assert_eq!(
        (failure.step, failure.error.as_str()),
        (0, "Parallel step task panicked or was cancelled: panic")
    );
}

#[test]
fn siblings_of_a_failed_task_are_aborted() {
    let mut results = ParallelResults::new();
    assert!(!results.must_abort());
    results.record(0, TaskOutcome::Succeeded);
    assert!(!results.must_abort());
    results.record(1, TaskOutcome::Failed("x".to_string()));
    assert!(results.must_abort());
    results.record(2, TaskOutcome::Cancelled);
    assert!(results.must_abort());
    let failure = results.finish().unwrap_err();
    assert_eq!((failure.step, failure.error.as_str()), (1, "x"));
}

#[test]
fn a_failed_step_skips_the_rest() {
    let mut run = SequentialStage::new(&stage("s", false, &["a", "", "c"]));
    assert_eq!(run.next(), Some(0));
    run.record(Elapsed::from_secs(1), Ok(()));
    assert_eq!(run.next(), Some(1));
    run.record(
        Elapsed::from_secs(2),
        Err("Step 'unnamed step' failed with exit code 7\nHint".to_string()),
    );
    assert_eq!(run.next(), None);
    let (outcome, results) = run.finish();
    let failure = outcome.unwrap_err();
    assert_eq!(failure.step, 1);
    assert!(failure.error.contains("exit code 7"));
    let seen: Vec<(&str, ExecutionStatus, Option<i32>)> =
        results.iter().map(|r| (r.name.as_str(), r.status, r.exit_code)).collect();
    assert_eq!(
        seen,
        vec![
            ("a", ExecutionStatus::Success, Some(0)),
            ("unnamed", ExecutionStatus::Failed, Some(7)),
            ("c", ExecutionStatus::Skipped, None),
        ]
    );
    assert_eq!(results[1].duration_secs, Some(Elapsed::from_secs(2)));
}

#[test]
fn a_stage_without_failures() {
    let mut run = SequentialStage::new(&stage("s", false, &["a", "b"]));
    run.record(Elapsed::zero(), Ok(()));
    run.record(Elapsed::zero(), Ok(()));
    assert_eq!(run.next(), None);
    let (outcome, results) = run.finish();
    assert!(outcome.is_ok());
    assert!(results.iter().all(|r| r.status == ExecutionStatus::Success));
    let empty = SequentialStage::new(&stage("s", false, &[]));
    assert_eq!(empty.next(), None);
    assert!(empty.finish().0.is_ok());
}

#[test]
fn parallel_steps_share_their_outcome() {
    let s = stage("p", true, &["a", ""]);
    let good = parallel_step_results(&s, true);
    assert_eq!(good[1].name, "unnamed");
    assert!(good.iter().all(|r| r.status == ExecutionStatus::Success));
    let bad = parallel_step_results(&s, false);
    assert!(bad.iter().all(|r| r.status == ExecutionStatus::Failed && r.exit_code.is_none()));
    assert_eq!(bad[0].error.as_deref(), Some("parallel stage failed"));
    assert_eq!(bad[0].duration_secs, Some(Elapsed::zero()));
}

fn ok_steps(names: &[&str]) -> Vec<StepResult> {
    names.iter().map(|n| StepResult::success(n, Elapsed::zero())).collect()
}

fn failed_at(step: usize, error: &str) -> Result<(), StepFailure> {
    Err(StepFailure { step, error: error.to_string() })
}

#[test]
fn the_step_that_failed_is_named() {
    let s = stage("build", false, &["a", "b", "c"]);
    let mut steps = SequentialStage::new(&s);
    steps.record(Elapsed::from_secs(1), Ok(()));
    steps.record(Elapsed::from_secs(1), Err("Step 'b' failed with exit code 7".to_string()));
    let (outcome, results) = steps.finish();
    let mut run = PipelineRun::new(vec![s]);
    run.complete_stage(Elapsed::from_secs(2), results, outcome);
    let result = run.finish(
        "id".to_string(),
        "start".to_string(),
        "end".to_string(),
        Elapsed::from_secs(2),
        "v1".to_string(),
    );
    match result.failure.unwrap() {
        FailureReason::StepFailed { stage, step, exit_code } => {
            assert_eq!((stage.as_str(), step.as_str(), exit_code), ("build", "b", 7));
        }
        other => panic!("{other:?}"),
    }
}

#[test]
fn the_failed_step_is_named_as_it_is_configured() {
    let s = stage("build", false, &["a", ""]);
    let mut steps = SequentialStage::new(&s);
    steps.record(Elapsed::from_secs(1), Ok(()));
    steps.record(
        Elapsed::from_secs(1),
        Err("Step 'unnamed step' failed with exit code 7".to_string()),
    );
    let (outcome, results) = steps.finish();
    assert_eq!(results[1].name, "unnamed");
    let mut run = PipelineRun::new(vec![s]);
    run.complete_stage(Elapsed::from_secs(2), results, outcome);
    let result = run.finish(
        String::new(),
        String::new(),
        String::new(),
        Elapsed::zero(),
        String::new(),
    );
    match result.failure.unwrap() {
        FailureReason::StepFailed { step, exit_code, .. } => {
            assert_eq!((step.as_str(), exit_code), ("", 7));
        }
        other => panic!("{other:?}"),
    }
}

#[test]
fn a_run_ends_with_its_first_failure() {
    let mut run = PipelineRun::new(vec![
        stage("one", false, &["a"]),
        stage("two", true, &["b", "c"]),
        stage("three", false, &["d"]),
        stage("four", true, &["e", "f"]),
    ]);
    assert_eq!(run.next().unwrap().name, "one");
    run.complete_stage(Elapsed::from_secs(1), ok_steps(&["a"]), Ok(()));
    assert_eq!(run.next().unwrap().name, "two");
    let failed = parallel_step_results(&stage("two", true, &["b", "c"]), false);
    run.complete_stage(
        Elapsed::from_secs(2),
        failed,
        Err(StepFailure {
            step: 1,
            error: "Step 'c' failed with exit code 42\nHint".to_string(),
        }),
    );
    assert!(run.next().is_none());
    let result = run.finish(
        "id".to_string(),
        "start".to_string(),
        "end".to_string(),
        Elapsed::from_secs(3),
        "v1".to_string(),
    );
    assert_eq!(result.status, ExecutionStatus::Failed);
    assert_eq!(result.exit_code(), ExitCode::PipelineFailure);
    match result.failure.as_ref().unwrap() {
        FailureReason::StepFailed { stage, step, exit_code } => {
            assert_eq!((stage.as_str(), step.as_str(), *exit_code), ("two", "c", 42));
        }
        other => panic!("{other:?}"),
    }
    let seen: Vec<(&str, ExecutionStatus, bool)> =
        result.stages.iter().map(|s| (s.name.as_str(), s.status, s.parallel)).collect();
    assert_eq!(
        seen,
        vec![
            ("one", ExecutionStatus::Success, false),
            ("two", ExecutionStatus::Failed, true),
            ("three", ExecutionStatus::Skipped, false),
            ("four", ExecutionStatus::Skipped, true),
        ]
    );
    assert_eq!(result.run_id, "id");
    assert_eq!(result.forge_version, "v1");
}

#[test]
fn a_run_without_failures() {
    let mut run = PipelineRun::new(vec![stage("one", false, &["a"])]);
    run.complete_stage(Elapsed::from_secs(1), ok_steps(&["a"]), Ok(()));
    assert!(run.next().is_none());
    let result = run.finish(
        "id".to_string(),
        "start".to_string(),
        "end".to_string(),
        Elapsed::from_secs(1),
        "v1".to_string(),
    );
    assert_eq!(result.status, ExecutionStatus::Success);
    assert_eq!(result.exit_code(), ExitCode::Success);
    assert!(result.failure.is_none());
}

#[test]
fn a_stage_without_steps_blames_nobody() {
    let mut run = PipelineRun::new(vec![stage("empty", true, &[])]);
    run.complete_stage(Elapsed::zero(), vec![], failed_at(0, "odd"));
    let result = run.finish(
        String::new(),
        String::new(),
        String::new(),
        Elapsed::zero(),
        String::new(),
    );
    match result.failure.unwrap() {
        FailureReason::StepError { step, message, .. } => {
            assert_eq!((step.as_str(), message.as_str()), ("unknown", "odd"));
        }
        other => panic!("{other:?}"),
    }
}
