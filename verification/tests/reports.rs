//! The human summary and the JUnit report.

use forge::clock::Elapsed;
use forge::output::{write_human_summary, write_junit, xml_escape};
use forge::result::{ExecutionStatus, FailureReason, PipelineResult, StageResult, StepResult};

fn success_result() -> PipelineResult {
    PipelineResult {
        run_id: "test-run".into(),
        started_at: "2024-05-01T10:00:00Z".into(),
        completed_at: "2024-05-01T10:00:21Z".into(),
        duration_secs: Elapsed::from_millis(21100),
        status: ExecutionStatus::Success,
        failure: None,
        stages: vec![
            StageResult::from_steps(
                "build",
                false,
                Elapsed::from_millis(12400),
                vec![StepResult::success("compile", Elapsed::from_millis(12400))],
            ),
            StageResult::from_steps(
                "lint",
                false,
                Elapsed::from_millis(8700),
                vec![StepResult::success("clippy", Elapsed::from_millis(8700))],
            ),
        ],
        forge_version: "v1.2.0".into(),
    }
}

fn failed_result() -> PipelineResult {
    PipelineResult {
        run_id: "test-fail".into(),
        started_at: "2024-05-01T10:00:00Z".into(),
        completed_at: "2024-05-01T10:00:21Z".into(),
        duration_secs: Elapsed::from_millis(21100),
        status: ExecutionStatus::Failed,
        failure: Some(FailureReason::StepFailed {
            stage: "test".into(),
            step: "cargo-test".into(),
            exit_code: 101,
        }),
        stages: vec![
            StageResult::from_steps(
                "build",
                false,
                Elapsed::from_millis(12400),
                vec![StepResult::success("compile", Elapsed::from_millis(12400))],
            ),
            StageResult::from_steps(
                "test",
                false,
                Elapsed::from_millis(8700),
                vec![StepResult::failed(
                    "cargo-test",
                    Elapsed::from_millis(8700),
                    Some(101),
                    "test suite failed",
                )],
            ),
            StageResult::skipped("deploy", false),
        ],
        forge_version: "v1.2.0".into(),
    }
}

fn summary(result: &PipelineResult) -> String {
    let mut out = String::new();
    write_human_summary(result, &mut out);
    out
}

fn junit(result: &PipelineResult) -> String {
    let mut out = String::new();
    write_junit(result, &mut out);
    out
}

#[test]
fn human_summary_success() {
    let s = summary(&success_result());
    assert!(s.contains("FORGE PIPELINE SUMMARY"));
    assert!(s.contains("build"));
    assert!(s.contains("✓"));
    assert!(s.contains("SUCCESS"));
    assert!(!s.contains("Failed:"));
}

#[test]
fn human_summary_failure_shows_step() {
    let s = summary(&failed_result());
    assert!(s.contains("FAILED"));
    assert!(s.contains("test / cargo-test"));
    assert!(s.contains("101"));
}

#[test]
fn human_summary_skipped_stage_shows_dash() {
    let s = summary(&failed_result());
    assert!(s.contains("deploy"));
    assert!(s.contains("-"));
}

#[test]
fn durations_are_rounded_as_seconds() {
    assert_eq!(Elapsed::from_millis(12400).seconds(1), "12.4");
    assert_eq!(Elapsed::from_millis(1234).seconds(2), "1.23");
    assert_eq!(Elapsed::from_millis(500).seconds(3), "0.500");
    assert_eq!(Elapsed::new(3, 999_999_999).seconds(2), "4.00");
    assert_eq!(Elapsed::zero().seconds(0), "0");
    assert_eq!(Elapsed::from_secs(7).seconds(2), "7.00");
}

#[test]
fn elapsed_time_never_goes_back() {
    let a = Elapsed::new(5, 100);
    let b = Elapsed::new(3, 200);
    let d = a.since(&b);
    assert_eq!((d.secs(), d.nanos()), (1, 999_999_900));
    let none = b.since(&a);
    assert_eq!((none.secs(), none.nanos()), (0, 0));
    let same = a.since(&a);
    assert_eq!((same.secs(), same.nanos()), (0, 0));
}

#[test]
fn summary_is_appended() {
    let mut out = String::from("before\n");
    write_human_summary(&success_result(), &mut out);
    assert!(out.starts_with("before\n"));
    assert_eq!(out["before\n".len()..], summary(&success_result()));
}

#[test]
fn junit_is_well_formed_xml() {
    let s = junit(&success_result());
    assert!(s.starts_with(r#"<?xml version="1.0" encoding="UTF-8"?>"#));
    assert!(s.contains("<testsuites"));
    assert!(s.contains("</testsuites>"));
    assert!(s.contains("<testsuite"));
    assert!(s.contains("</testsuite>"));
}

#[test]
fn junit_failed_step_has_failure_element() {
    let s = junit(&failed_result());
    assert!(s.contains("<failure"));
    assert!(s.contains("test suite failed"));
}

#[test]
fn junit_skipped_step_has_skipped_element() {
    let result = PipelineResult {
        run_id: "s".into(),
        started_at: "2024-05-01T10:00:00Z".into(),
        completed_at: "2024-05-01T10:00:01Z".into(),
        duration_secs: Elapsed::from_secs(1),
        status: ExecutionStatus::Success,
        failure: None,
        stages: vec![StageResult::from_steps(
            "test",
            false,
            Elapsed::from_secs(1),
            vec![
                StepResult::success("unit", Elapsed::from_millis(500)),
                StepResult::skipped("integration"),
            ],
        )],
        forge_version: "v1.2.0".into(),
    };
    assert!(junit(&result).contains("<skipped/>"));
}

#[test]
fn junit_xml_entities_are_escaped() {
    let result = PipelineResult {
        run_id: "e".into(),
        started_at: "2024-05-01T10:00:00Z".into(),
        completed_at: "2024-05-01T10:00:01Z".into(),
        duration_secs: Elapsed::from_secs(1),
        status: ExecutionStatus::Failed,
        failure: None,
        stages: vec![StageResult::from_steps(
            "test & validate",
            false,
            Elapsed::from_secs(1),
            vec![StepResult::failed(
                "check <output>",
                Elapsed::from_millis(500),
                Some(1),
                r#"error: "quotes" & <tags>"#,
            )],
        )],
        forge_version: "v1.2.0".into(),
    };
    let s = junit(&result);
    assert!(s.contains("test &amp; validate"));
    assert!(s.contains("check &lt;output&gt;"));
}

#[test]
fn xml_escape_all_entities() {
    assert_eq!(xml_escape("&"), "&amp;");
    assert_eq!(xml_escape("<foo>"), "&lt;foo&gt;");
    assert_eq!(xml_escape(r#"""#), "&quot;");
    assert_eq!(xml_escape("'"), "&apos;");
    assert_eq!(xml_escape("plain"), "plain");
}

#[test]
fn escaping_is_inert_and_loses_nothing() {
    let nasty = r#"<a href="x">&amp; 'é'</a>"#;
    let safe = xml_escape(nasty);
    assert!(!safe.contains('<') && !safe.contains('>'));
    assert!(!safe.contains('"') && !safe.contains('\''));
    assert_ne!(xml_escape("&"), xml_escape("&amp;"));
    assert_eq!(xml_escape("&amp;"), "&amp;amp;");
}
