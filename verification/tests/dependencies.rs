//! The order in which stages run.

use forge::config::Stage;
use forge::resolve::resolve_stage_dependencies;
use std::collections::HashMap;

fn stage(name: &str, depends_on: &[&str]) -> Stage {
    Stage {
        name: name.to_string(),
        steps: vec![],
        parallel: false,
        depends_on: depends_on.iter().map(|d| d.to_string()).collect(),
    }
}

fn positions(order: &[String]) -> HashMap<&str, usize> {
    order.iter().enumerate().map(|(i, s)| (s.as_str(), i)).collect()
}

#[test]
fn test_simple_dependency_chain() {
    let stages = vec![stage("setup", &[]), stage("build", &["setup"]), stage("test", &["build"])];
    let result = resolve_stage_dependencies(&stages).unwrap();
    assert_eq!(result, vec!["setup", "build", "test"]);
}

#[test]
fn test_complex_dependency_chain() {
    let stages = vec![
        stage("setup", &[]),
        stage("build", &["setup"]),
        stage("test", &["build"]),
        stage("package", &["build", "test"]),
        stage("deploy", &["package"]),
    ];
    let result = resolve_stage_dependencies(&stages).unwrap();

    let pos = positions(&result);
    assert!(pos["setup"] < pos["build"]);
    assert!(pos["build"] < pos["test"]);
    assert!(pos["build"] < pos["package"]);
    assert!(pos["test"] < pos["package"]);
    assert!(pos["package"] < pos["deploy"]);
}

#[test]
fn test_circular_dependency() {
    let stages = vec![stage("build", &["test"]), stage("test", &["build"])];
    let result = resolve_stage_dependencies(&stages);
    assert!(result.is_err());
    assert!(result.unwrap_err().summary().contains("Circular"));
}

#[test]
fn test_self_dependency() {
    let stages = vec![stage("build", &["build"])];
    let result = resolve_stage_dependencies(&stages);
    assert!(result.is_err());
    assert!(result.unwrap_err().summary().contains("Self dependency"));
}

#[test]
fn test_missing_dependency() {
    let stages = vec![stage("build", &["nonexistent"])];
    let result = resolve_stage_dependencies(&stages);
    assert!(result.is_err());
    assert!(result.unwrap_err().summary().contains("Missing dependency"));
}

#[test]
fn test_no_dependencies() {
    let stages = vec![stage("a", &[]), stage("b", &[]), stage("c", &[])];
    let result = resolve_stage_dependencies(&stages).unwrap();
    assert_eq!(result.len(), 3);
}

#[test]
fn test_diamond_dependency() {
    let stages = vec![
        stage("a", &[]),
        stage("b", &["a"]),
        stage("c", &["a"]),
        stage("d", &["b", "c"]),
    ];
    let result = resolve_stage_dependencies(&stages).unwrap();

    let pos = positions(&result);
    assert!(pos["a"] < pos["b"]);
    assert!(pos["a"] < pos["c"]);
    assert!(pos["b"] < pos["d"]);
    assert!(pos["c"] < pos["d"]);
}

#[test]
fn test_three_way_circular() {
    let stages = vec![stage("a", &["c"]), stage("b", &["a"]), stage("c", &["b"])];
    let result = resolve_stage_dependencies(&stages);
    assert!(result.is_err());
}

#[test]
fn the_last_name_runs_first() {
    let stages = vec![stage("a", &[]), stage("c", &[]), stage("b", &[])];
    assert_eq!(resolve_stage_dependencies(&stages).unwrap(), vec!["c", "b", "a"]);
    let other = vec![stage("b", &[]), stage("a", &[]), stage("c", &[])];
    assert_eq!(resolve_stage_dependencies(&other).unwrap(), vec!["c", "b", "a"]);
}

#[test]
fn nothing_has_an_order() {
    assert!(resolve_stage_dependencies(&[]).unwrap().is_empty());
}

#[test]
fn repeated_dependencies_count_once() {
    let stages = vec![stage("a", &["b", "b"]), stage("b", &[])];
    assert_eq!(resolve_stage_dependencies(&stages).unwrap(), vec!["b", "a"]);
}

#[test]
fn two_stages_of_one_name_have_no_order() {
    let stages = vec![stage("a", &[]), stage("a", &[])];
    let error = resolve_stage_dependencies(&stages).unwrap_err();
    assert_eq!(error.summary(), "Circular dependency detected");
}

#[test]
fn dependency_messages() {
    let own = resolve_stage_dependencies(&[stage("x", &["x"])]).unwrap_err();
    assert_eq!(
        own.message(),
        "Stage 'x' cannot depend on itself.\nRemove 'x' from its own depends_on list."
    );
    assert_eq!(own.summary(), "Self dependency: x");
    let missing = resolve_stage_dependencies(&[stage("x", &["y"]), stage("z", &[])]).unwrap_err();
    assert_eq!(
        missing.message(),
        "Stage 'x' depends on 'y', but 'y' is not defined.\nAvailable stages: x, z"
    );
    assert_eq!(missing.summary(), "Missing dependency: x -> y");
    let circle = resolve_stage_dependencies(&[stage("p", &["q"]), stage("q", &["p"])]).unwrap_err();
    assert_eq!(
        circle.message(),
        "Circular dependency detected in stages: p -> q\nThese stages form a dependency cycle and cannot be resolved.\nHint: Remove one of the dependencies to break the cycle."
    );
}

#[test]
fn the_listing_does_not_matter() {
    let listed = vec![
        stage("lint", &[]),
        stage("build", &["setup"]),
        stage("setup", &[]),
        stage("test", &["build", "lint"]),
    ];
    let mut other = listed.clone();
    other.reverse();
    other[0].parallel = true;
    assert_eq!(
        resolve_stage_dependencies(&listed).unwrap(),
        resolve_stage_dependencies(&other).unwrap()
    );
    let cycle = vec![stage("a", &["b"]), stage("b", &["a"]), stage("c", &[])];
    let mut other = cycle.clone();
    other.swap(0, 2);
    assert!(resolve_stage_dependencies(&cycle).is_err());
    assert!(resolve_stage_dependencies(&other).is_err());
}
