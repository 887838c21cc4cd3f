//! Which stages run.

use forge::config::{CacheConfig, ForgeConfig, Stage, Step};
use forge::cli::{plan_stages, Fatal};
use forge::env::EnvMap;
use forge::resolve::resolve_stage_dependencies;
use forge::result::ExitCode;
use forge::select::{names_of_stages, schedule_stages, select_stages, stages_with_default};

fn step(name: &str) -> Step {
    Step {
        name: name.to_string(),
        command: "true".to_string(),
        image: String::new(),
        working_dir: String::new(),
        env: EnvMap::new(),
        depends_on: vec![],
    }
}

fn stage(name: &str, depends_on: &[&str]) -> Stage {
    Stage {
        name: name.to_string(),
        steps: vec![step("s")],
        parallel: false,
        depends_on: depends_on.iter().map(|d| d.to_string()).collect(),
    }
}

fn config(stages: Vec<Stage>, steps: Vec<Step>) -> ForgeConfig {
    ForgeConfig {
        version: "1.0".to_string(),
        stages,
        steps,
        cache: CacheConfig::default(),
        secrets: vec![],
    }
}

fn pipeline() -> Vec<Stage> {
    vec![
        stage("lint", &[]),
        stage("setup", &[]),
        stage("deploy", &["test", "build"]),
        stage("build", &["setup"]),
        stage("test", &["build"]),
    ]
}

#[test]
fn a_stage_runs_with_what_it_needs() {
    let names = |n: &str| names_of_stages(&select_stages(&pipeline(), n).unwrap());
    assert_eq!(names("build"), vec!["setup", "build"]);
    assert_eq!(names("lint"), vec!["lint"]);
    assert_eq!(names("deploy"), vec!["setup", "deploy", "build", "test"]);
    let chosen = select_stages(&pipeline(), "test").unwrap();
    assert_eq!(resolve_stage_dependencies(&chosen).unwrap(), vec!["setup", "build", "test"]);
}

#[test]
fn cycles_do_not_stop_the_search() {
    let stages = vec![stage("a", &["b"]), stage("b", &["a"]), stage("c", &[])];
    assert_eq!(names_of_stages(&select_stages(&stages, "a").unwrap()), vec!["a", "b"]);
}

#[test]
fn undefined_needs_are_told() {
    let stages = vec![stage("a", &["b"]), stage("b", &["x", "y"])];
    let problem = select_stages(&stages, "a").unwrap_err();
    assert_eq!(
        problem.message(),
        "Stage 'a' depends on 'y', but 'y' is not defined.\nAvailable stages: a, b"
    );
    let fatal = plan_stages(&config(stages, vec![]), Some("a")).unwrap_err();
    assert_eq!(fatal.exit_code(), ExitCode::ConfigError);
}

#[test]
fn unknown_stages_are_told() {
    let problem = select_stages(&pipeline(), "nope").unwrap_err();
    assert_eq!(
        problem.message(),
        "Stage 'nope' not found. Available: lint, setup, deploy, build, test"
    );
    assert_eq!(select_stages(&[], "x").unwrap_err().message(), "Stage 'x' not found. Available: none");
}

#[test]
fn the_last_definition_counts() {
    let stages = vec![stage("a", &["x"]), stage("b", &[]), stage("a", &["b"])];
    assert_eq!(names_of_stages(&select_stages(&stages, "a").unwrap()), vec!["a", "b", "a"]);
    let order = vec!["a".to_string(), "gone".to_string(), "b".to_string()];
    let scheduled = schedule_stages(&stages, &order);
    assert_eq!(names_of_stages(&scheduled), vec!["a", "b"]);
    assert_eq!(scheduled[0].depends_on, vec!["b"]);
}

#[test]
fn every_stage_is_scheduled() {
    let stages = pipeline();
    let order = resolve_stage_dependencies(&stages).unwrap();
    let scheduled = schedule_stages(&stages, &order);
    assert_eq!(names_of_stages(&scheduled), order);
    assert_eq!(scheduled.len(), stages.len());
}

#[test]
fn steps_without_stages_are_one_stage() {
    let made = stages_with_default(&[], &[step("x"), step("y")]);
    assert_eq!(made.len(), 1);
    assert_eq!(made[0].name, "default");
    assert_eq!(made[0].steps.len(), 2);
    assert!(!made[0].parallel && made[0].depends_on.is_empty());
    let kept = stages_with_default(&pipeline(), &[step("x")]);
    assert_eq!(kept.len(), 5);
    assert!(stages_with_default(&[], &[]).is_empty());
}

#[test]
fn plans() {
    let all = plan_stages(&config(pipeline(), vec![]), None).unwrap();
    assert_eq!(all.len(), 5);
    let one = plan_stages(&config(pipeline(), vec![]), Some("build")).unwrap();
    assert_eq!(names_of_stages(&one), vec!["setup", "build"]);
    let steps = plan_stages(&config(vec![], vec![step("x")]), Some("default")).unwrap();
    assert_eq!(names_of_stages(&steps), vec!["default"]);
    let nothing = plan_stages(&config(vec![], vec![]), None).unwrap_err();
    assert!(matches!(nothing, Fatal::NothingToRun));
    let unknown = plan_stages(&config(pipeline(), vec![]), Some("zzz")).unwrap_err();
    assert!(matches!(unknown, Fatal::UnknownStage { .. }));
}

#[test]
fn every_selection_of_ordered_stages_has_an_order() {
    let stages = pipeline();
    for name in names_of_stages(&stages) {
        let chosen = select_stages(&stages, &name).unwrap();
        let order = resolve_stage_dependencies(&chosen).unwrap();
        assert_eq!(order.len(), chosen.len());
        assert_eq!(order.last(), Some(&name));
    }
}
