//! The dashboard: events, keys and what is shown.

use forge::clock::Elapsed;
use forge::config::{Stage, Step};
use forge::env::EnvMap;
use forge::paint::{Paint, Span};
use forge::screen::{draw_ui, ListEntry};
use forge::tui::{ActivePanel, Key, Status, TuiMonitor, TuiState};

fn step(name: &str) -> Step {
    Step {
        name: name.to_string(),
        command: "true".to_string(),
        image: "alpine".to_string(),
        working_dir: String::new(),
        env: EnvMap::new(),
        depends_on: vec![],
    }
}

fn stage(name: &str, parallel: bool, steps: &[&str]) -> Stage {
    Stage {
        name: name.to_string(),
        steps: steps.iter().map(|s| step(s)).collect(),
        parallel,
        depends_on: vec![],
    }
}

fn monitor() -> TuiMonitor {
    let mut m = TuiMonitor::new(TuiState::new(Elapsed::zero()));
    m.on_pipeline_start(&[stage("one", false, &["a", "b"]), stage("two", true, &["c", "d"])]);
    m
}

fn line(spans: &[Span]) -> String {
    spans.iter().map(|s| s.text.as_str()).collect()
}

fn items(list: &[ListEntry]) -> Vec<(String, bool)> {
    list.iter().map(|e| (line(&e.spans), e.selected)).collect()
}

#[test]
fn a_new_dashboard_is_empty() {
    let s = TuiState::new(Elapsed::from_secs(3));
    assert!(s.get_flat_steps().is_empty());
    assert!(s.get_selected_step().is_none());
    assert!(s.auto_scroll && s.auto_focus && !s.should_quit);
    assert_eq!(s.active_panel, ActivePanel::StagesList);
}

#[test]
fn steps_are_listed_stage_by_stage() {
    let m = monitor();
    assert_eq!(m.state.get_flat_steps(), vec![(0, 0), (0, 1), (1, 0), (1, 1)]);
    assert_eq!(m.state.get_selected_step().unwrap().name, "a");
    assert_eq!(m.state.stages[1].steps[0].image, "alpine");
    assert!(m.state.stages[1].parallel);
}

#[test]
fn stages_are_timed() {
    let mut m = monitor();
    m.on_stage_start("two", Elapsed::from_secs(2));
    assert_eq!(m.state.stages[1].status, Status::Running);
    m.on_stage_complete("two", false, Elapsed::from_secs(5));
    assert_eq!(m.state.stages[1].status, Status::Failed);
    assert_eq!(m.state.stages[1].duration.unwrap().secs(), 3);
    m.on_stage_complete("one", true, Elapsed::from_secs(6));
    assert_eq!(m.state.stages[0].status, Status::Succeeded);
    assert!(m.state.stages[0].duration.is_none());
    m.on_stage_start("unknown", Elapsed::from_secs(7));
    assert_eq!(m.state.stages.len(), 2);
}

#[test]
fn the_running_step_is_focused() {
    let mut m = monitor();
    m.on_step_start("c", Elapsed::from_secs(1));
    assert_eq!(m.state.selected_step_idx, 2);
    assert_eq!(m.state.stages[1].steps[0].status, Status::Running);
    m.on_step_log("c", "hello\n", false);
    m.on_step_log("c", "oops\n", true);
    assert_eq!(m.state.stages[1].steps[0].logs.len(), 2);
    m.on_step_complete("c", true, Elapsed::from_millis(3500));
    assert_eq!(m.state.stages[1].steps[0].status, Status::Succeeded);
    assert_eq!(m.state.stages[1].steps[0].duration.unwrap().seconds(1), "2.5");
    assert_eq!(m.state.stages[1].steps[1].status, Status::Pending);
    m.state.auto_focus = false;
    m.on_step_start("a", Elapsed::from_secs(4));
    assert_eq!(m.state.selected_step_idx, 2);
    m.on_step_start("nobody", Elapsed::from_secs(4));
    assert_eq!(m.state.get_flat_steps().len(), 4);
}

#[test]
fn steps_of_one_name_change_together() {
    let mut m = TuiMonitor::new(TuiState::new(Elapsed::zero()));
    m.on_pipeline_start(&[stage("one", false, &["x", "y"]), stage("two", false, &["x"])]);
    m.on_step_start("x", Elapsed::zero());
    assert_eq!(m.state.stages[0].steps[0].status, Status::Running);
    assert_eq!(m.state.stages[1].steps[0].status, Status::Running);
    assert_eq!(m.state.selected_step_idx, 2);
    m.on_step_complete("x", false, Elapsed::zero());
    assert_eq!(m.state.stages[0].steps[0].status, Status::Failed);
}

#[test]
fn containers_are_tracked() {
    let mut m = monitor();
    m.on_container_created("i");
    m.on_container_created("j");
    m.on_container_created("i");
    assert_eq!(m.state.active_containers, vec!["i", "j"]);
    m.on_container_destroyed("i");
    assert_eq!(m.state.active_containers, vec!["j"]);
    m.on_container_destroyed("unknown");
    assert_eq!(m.state.active_containers, vec!["j"]);
}

#[test]
fn quitting() {
    let mut s = monitor().state;
    assert!(!s.handle_key(Key::Other));
    assert!(!s.should_quit);
    assert!(s.handle_key(Key::Char('Q')));
    assert!(s.should_quit);
    let mut s = monitor().state;
    assert!(s.handle_key(Key::Char('q')));
}

#[test]
fn up_and_down_go_round() {
    let mut s = monitor().state;
    s.handle_key(Key::Up);
    assert_eq!(s.selected_step_idx, 3);
    assert!(!s.auto_focus);
    s.handle_key(Key::Down);
    assert_eq!(s.selected_step_idx, 0);
    s.handle_key(Key::Down);
    s.handle_key(Key::Down);
    assert_eq!(s.selected_step_idx, 2);
    s.handle_key(Key::Up);
    assert_eq!(s.selected_step_idx, 1);
    let mut empty = TuiState::new(Elapsed::zero());
    empty.handle_key(Key::Down);
    empty.handle_key(Key::Up);
    assert_eq!(empty.selected_step_idx, 0);
    assert!(empty.auto_focus);
}

#[test]
fn keys_go_to_the_active_panel() {
    let mut s = monitor().state;
    s.handle_key(Key::PageDown);
    assert_eq!((s.log_scroll, s.auto_scroll), (0, true));
    s.handle_key(Key::Tab);
    assert_eq!(s.active_panel, ActivePanel::LogsBlock);
    s.handle_key(Key::PageDown);
    s.handle_key(Key::Down);
    assert_eq!((s.log_scroll, s.auto_scroll), (11, false));
    s.handle_key(Key::PageUp);
    s.handle_key(Key::Up);
    assert_eq!(s.log_scroll, 0);
    s.handle_key(Key::Up);
    s.handle_key(Key::PageUp);
    assert_eq!(s.log_scroll, 0);
    assert_eq!(s.selected_step_idx, 0);
    s.handle_key(Key::Tab);
    assert_eq!(s.active_panel, ActivePanel::StagesList);
}

#[test]
fn automatic_scrolling_is_switched() {
    let mut s = monitor().state;
    s.auto_focus = false;
    s.handle_key(Key::Char('a'));
    assert!(!s.auto_scroll && !s.auto_focus);
    s.handle_key(Key::Char('A'));
    assert!(s.auto_scroll && s.auto_focus);
}

#[test]
fn the_whole_screen() {
    let mut m = monitor();
    m.on_stage_start("one", Elapsed::from_secs(1));
    m.on_step_start("a", Elapsed::from_secs(1));
    m.on_step_complete("a", true, Elapsed::from_millis(2500));
    m.on_step_start("b", Elapsed::from_secs(3));
    m.on_step_complete("b", false, Elapsed::from_secs(4));
    m.on_step_log("b", "one\ntwo\n", false);
    m.on_step_log("b", "bad", true);
    let screen = draw_ui(&mut m.state, Elapsed::from_secs(125), 10);
    assert_eq!(
        line(&screen.header),
        " FORGE LOCAL CI/CD  |  Status: RUNNING  |  Duration: 02:05s  |  Steps: 1/4 Succeeded | 1 Failed"
    );
    assert_eq!(screen.header[1].paint, Paint::CyanBold);
    assert_eq!(
        items(&screen.items),
        vec![
            ("▶ Stage: one".to_string(), false),
            ("  ├─   ✔ a (1.5s)".to_string(), false),
            ("  ├─ > ✘ b (1.0s)".to_string(), true),
            ("─ Stage: two [parallel]".to_string(), false),
            ("  ├─   ─ c".to_string(), false),
            ("  ├─   ─ d".to_string(), false),
        ]
    );
    assert!(screen.stages_active && !screen.logs_active);
    assert_eq!(screen.logs_title, " Logs: b ");
    let shown: Vec<(&str, Paint)> =
        screen.log_lines.iter().map(|s| (s.text.as_str(), s.paint)).collect();
    assert_eq!(
        shown,
        vec![("one", Paint::Plain), ("two", Paint::Plain), ("bad", Paint::Red)]
    );
    assert_eq!(
        line(&screen.footer),
        " [q] Quit  |  [Tab] Switch Panel (STAGES)  |  [↑/↓] Navigate  |  [a] Auto-Scroll (ON)"
    );
}

#[test]
fn a_run_that_has_ended() {
    let mut m = monitor();
    m.on_pipeline_complete(true, Elapsed::from_secs(61));
    let screen = draw_ui(&mut m.state, Elapsed::from_secs(9999), 10);
    assert!(line(&screen.header).contains("Status: SUCCESS  |  Duration: 01:01s"));
    m.on_pipeline_complete(false, Elapsed::from_secs(6000));
    let screen = draw_ui(&mut m.state, Elapsed::from_secs(9999), 10);
    assert!(line(&screen.header).contains("Status: FAILED  |  Duration: 100:00s"));
}

#[test]
fn logs_scroll_within_bounds() {
    let mut m = monitor();
    let all: Vec<String> = (0..20).map(|i| format!("l{i}")).collect();
    m.on_step_log("a", &all.join("\n"), false);
    let show = |s: &mut TuiState| -> Vec<String> {
        draw_ui(s, Elapsed::zero(), 7).log_lines.iter().map(|l| l.text.clone()).collect()
    };
    assert_eq!(show(&mut m.state), all[15..20].to_vec());
    assert_eq!(m.state.log_scroll, 15);
    assert_eq!(show(&mut m.state), all[15..20].to_vec());
    m.state.handle_key(Key::Tab);
    m.state.handle_key(Key::PageUp);
    assert_eq!(show(&mut m.state), all[5..10].to_vec());
    m.state.handle_key(Key::PageDown);
    m.state.handle_key(Key::PageDown);
    assert_eq!(show(&mut m.state), all[15..20].to_vec());
    assert_eq!(m.state.log_scroll, 15);
    let tiny = draw_ui(&mut m.state, Elapsed::zero(), 1);
    assert!(tiny.log_lines.is_empty());
}

#[test]
fn nothing_is_selected() {
    let mut s = TuiState::new(Elapsed::zero());
    let screen = draw_ui(&mut s, Elapsed::zero(), 10);
    assert_eq!(screen.logs_title, " Logs ");
    assert!(screen.items.is_empty() && screen.log_lines.is_empty());
    s.handle_key(Key::Tab);
    s.handle_key(Key::Char('a'));
    let screen = draw_ui(&mut s, Elapsed::zero(), 10);
    assert!(line(&screen.footer).contains("(LOGS)"));
    assert!(line(&screen.footer).ends_with("Auto-Scroll (OFF)"));
    assert!(screen.logs_active);
}
