//! Output of containers on its way to the terminal.

use forge::clock::Elapsed;
use forge::config::{Stage, Step};
use forge::env::EnvMap;
use forge::logger::{
    log_entry, print_synchronized_logs, store_logs, stream_goes_on, stream_logs_buffered,
    stream_logs_immediate, stream_logs_to_monitor, LogBuffer, LogEntry, LogEvent, Timer,
};
use forge::monitor::StdoutMonitor;
use forge::paint::{Paint, Print};

fn text(p: &Print) -> String {
    p.spans.iter().map(|s| s.text.as_str()).collect()
}

fn lines(prints: &[Print]) -> Vec<String> {
    prints.iter().map(text).collect()
}

fn step(name: &str) -> Step {
    Step {
        name: name.to_string(),
        command: "true".to_string(),
        image: String::new(),
        working_dir: String::new(),
        env: EnvMap::new(),
        depends_on: vec![],
    }
}

fn stage(name: &str, parallel: bool, steps: &[&str]) -> Stage {
    Stage {
        name: name.to_string(),
        steps: steps.iter().map(|s| step(s)).collect(),
        parallel,
        depends_on: vec![],
    }
}

#[test]
fn bytes_become_text() {
    assert!(matches!(
        log_entry(LogEvent::StdOut("grün\n".as_bytes().to_vec())),
        Some(LogEntry::StdOut(s)) if s == "grün\n"
    ));
    assert!(matches!(
        log_entry(LogEvent::StdErr(vec![b'a', 0xff, b'b'])),
        Some(LogEntry::StdErr(s)) if s == "a\u{fffd}b"
    ));
    assert!(log_entry(LogEvent::Other).is_none());
    assert!(matches!(
        log_entry(LogEvent::Failed("eof".to_string())),
        Some(LogEntry::Error(s)) if s == "Error streaming logs: eof"
    ));
}

#[test]
fn a_broken_stream_ends() {
    assert!(stream_goes_on(&LogEvent::StdOut(vec![])));
    assert!(stream_goes_on(&LogEvent::Other));
    assert!(!stream_goes_on(&LogEvent::Failed("x".to_string())));
}

#[test]
fn output_is_printed_as_it_arrives() {
    let out = stream_logs_immediate(LogEvent::StdOut(b"hi".to_vec())).unwrap();
    assert_eq!((text(&out).as_str(), out.to_stderr, out.newline), ("hi", false, false));
    let err = stream_logs_immediate(LogEvent::StdErr(b"oh".to_vec())).unwrap();
    assert_eq!((text(&err).as_str(), err.to_stderr, err.newline), ("oh", true, false));
    assert_eq!(err.spans[0].paint, Paint::Red);
    let broken = stream_logs_immediate(LogEvent::Failed("x".to_string())).unwrap();
    assert_eq!(text(&broken), "Error streaming logs: x");
    assert!(broken.to_stderr && broken.newline);
    assert!(stream_logs_immediate(LogEvent::Other).is_none());
}

#[test]
fn monitors_are_told_of_output() {
    assert_eq!(
        stream_logs_to_monitor(LogEvent::StdOut(b"a".to_vec())),
        Some(("a".to_string(), false))
    );
    assert_eq!(
        stream_logs_to_monitor(LogEvent::StdErr(b"b".to_vec())),
        Some(("b".to_string(), true))
    );
    assert_eq!(
        stream_logs_to_monitor(LogEvent::Failed("c".to_string())),
        Some(("Error streaming logs: c".to_string(), true))
    );
    assert_eq!(stream_logs_to_monitor(LogEvent::Other), None);
}

#[test]
fn buffered_logs_come_out_in_step_order() {
    let mut buffer: LogBuffer = vec![None, None, None];
    let mut entries = Vec::new();
    stream_logs_buffered(&mut entries, LogEvent::StdOut(b"two\n".to_vec()));
    stream_logs_buffered(&mut entries, LogEvent::Other);
    stream_logs_buffered(&mut entries, LogEvent::Failed("eof".to_string()));
    store_logs(&mut buffer, 2, "second".to_string(), entries);
    store_logs(&mut buffer, 0, "first".to_string(), vec![LogEntry::StdErr("one\n".to_string())]);
    let out = print_synchronized_logs(&buffer);
    assert_eq!(
        lines(&out),
        vec![
            "\n=== Logs for step: first ===",
            "one\n",
            "\n=== Logs for step: second ===",
            "two\n",
            "Error streaming logs: eof",
        ]
    );
    assert_eq!(out[4].spans[0].paint, Paint::RedBold);
}

#[test]
fn timers_tell_the_duration() {
    let quiet = Timer::new("Work", false, Elapsed::zero());
    assert!(quiet.log_if_verbose(Elapsed::from_secs(1)).is_none());
    let timer = Timer::new("Work", true, Elapsed::from_millis(500));
    let line = timer.log_if_verbose(Elapsed::from_millis(2000)).unwrap();
    assert_eq!(text(&line), "  Work completed in 1.50s");
    assert_eq!(timer.elapsed(Elapsed::from_millis(750)).nanos(), 250_000_000);
}

#[test]
fn sequential_output_appears_at_once() {
    let mut monitor = StdoutMonitor::new();
    monitor.on_pipeline_start(&[stage("one", false, &["a"]), stage("two", false, &["b"])]);
    let start = monitor.on_stage_start("two", false);
    assert_eq!(text(&start), "\n>>> Stage 2/2: two");
    assert_eq!(text(&monitor.on_step_start("b").unwrap()), "Running step: b");
    let line = monitor.on_step_log("b", "out", false).unwrap();
    assert_eq!((text(&line).as_str(), line.to_stderr), ("out", false));
    let line = monitor.on_step_log("b", "err", true).unwrap();
    assert_eq!((text(&line).as_str(), line.to_stderr), ("err", true));
    assert_eq!(text(&monitor.on_step_complete("b", true).unwrap()), "[OK] Step: b");
    assert_eq!(text(&monitor.on_step_complete("b", false).unwrap()), "[FAIL] Step: b");
    assert!(monitor.on_stage_complete("two").is_empty());
}

#[test]
fn an_unknown_stage_is_numbered_first() {
    let mut monitor = StdoutMonitor::new();
    monitor.on_pipeline_start(&[stage("one", false, &[])]);
    assert_eq!(text(&monitor.on_stage_start("x", true)), "\n>>> Stage 1/1: x [parallel]");
}

fn parallel_run(arrivals: &[(&str, &str)]) -> Vec<String> {
    let mut monitor = StdoutMonitor::new();
    monitor.on_pipeline_start(&[stage("p", true, &["A", "B", "C"])]);
    let _ = monitor.on_stage_start("p", true);
    for (step, line) in arrivals {
        assert!(monitor.on_step_start(step).is_none());
        assert!(monitor.on_step_log(step, line, false).is_none());
        assert!(monitor.on_step_complete(step, true).is_none());
    }
    let out = lines(&monitor.on_stage_complete("p"));
    assert!(monitor.on_stage_complete("p").is_empty());
    out
}

#[test]
fn parallel_output_appears_in_definition_order() {
    let expected = vec![
        "\n=== Logs for step: A ===",
        "a1",
        "a2",
        "\n=== Logs for step: C ===",
        "c1",
    ];
    assert_eq!(parallel_run(&[("C", "c1"), ("A", "a1"), ("A", "a2")]), expected);
    assert_eq!(parallel_run(&[("A", "a1"), ("C", "c1"), ("A", "a2")]), expected);
}

#[test]
fn output_of_other_steps_is_kept() {
    let mut monitor = StdoutMonitor::new();
    monitor.on_pipeline_start(&[stage("p", true, &["A", "A"]), stage("q", true, &["B", "Z"])]);
    let _ = monitor.on_stage_start("p", true);
    let _ = monitor.on_step_log("B", "later", true);
    let _ = monitor.on_step_log("A", "now", false);
    assert_eq!(
        lines(&monitor.on_stage_complete("p")),
        vec!["\n=== Logs for step: A ===", "now"]
    );
    assert!(monitor.on_stage_complete("unknown").is_empty());
    let out = monitor.on_stage_complete("q");
    assert_eq!(lines(&out), vec!["\n=== Logs for step: B ===", "later"]);
    assert!(out[1].to_stderr);
}

#[test]
fn the_end_of_a_run_is_told() {
    let monitor = StdoutMonitor::new();
    assert_eq!(
        lines(&monitor.on_pipeline_complete(true, Elapsed::from_millis(15450))),
        vec!["\n[OK] Pipeline completed successfully!", "    Total duration: 15.45s"]
    );
    assert_eq!(
        lines(&monitor.on_pipeline_complete(false, Elapsed::zero())),
        vec!["\n[FAIL] Pipeline execution failed.", "    Total duration: 0.00s"]
    );
}
