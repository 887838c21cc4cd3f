//! Checks of a configuration, and what is said of one that passes.

use forge::config::{default_version, validate_parallel_stages, CacheConfig, ForgeConfig, Secret, Stage, Step};
use forge::env::EnvMap;
use forge::init::create_example_config;
use forge::paint::Print;
use forge::resolve::resolve_stage_dependencies;
use forge::validate::{validate_config, validation_report};

fn step(name: &str, command: &str) -> Step {
    Step {
        name: name.to_string(),
        command: command.to_string(),
        image: "alpine:latest".to_string(),
        working_dir: String::new(),
        env: EnvMap::new(),
        depends_on: vec![],
    }
}

fn stage(name: &str, parallel: bool, steps: Vec<Step>) -> Stage {
    Stage { name: name.to_string(), steps, parallel, depends_on: vec![] }
}

fn config(stages: Vec<Stage>) -> ForgeConfig {
    ForgeConfig {
        version: default_version(),
        stages,
        steps: vec![],
        cache: CacheConfig::default(),
        secrets: vec![],
    }
}

fn refusal(stages: Vec<Stage>) -> String {
    validate_config(&config(stages)).unwrap_err().message()
}

fn lines(prints: &[Print]) -> Vec<String> {
    prints.iter().map(|p| p.spans.iter().map(|s| s.text.as_str()).collect()).collect()
}

#[test]
fn test_validation_rejects_single_step_parallel() {
    let error = refusal(vec![stage("invalid-parallel", true, vec![step("Only One", "echo \"test\"")])]);
    assert!(
        error.contains("at least 2 steps") || error.contains("only 1 step"),
        "Should mention step count requirement"
    );
}

#[test]
fn test_validation_rejects_parallel_with_dependencies() {
    let mut second = step("Task 2", "echo \"test2\"");
    second.depends_on = vec!["Task 1".to_string()];
    let error =
        refusal(vec![stage("invalid-deps", true, vec![step("Task 1", "echo \"test1\""), second])]);
    assert!(
        error.contains("depends_on") || error.contains("dependencies"),
        "Should mention dependency conflict"
    );
}

#[test]
fn test_validation_rejects_duplicate_step_names() {
    let error = refusal(vec![stage(
        "duplicate-names",
        true,
        vec![step("Task", "echo \"test1\""), step("Task", "echo \"test2\"")],
    )]);
    assert!(
        error.contains("Duplicate") || error.contains("duplicate") || error.contains("unique"),
        "Should mention duplicate names"
    );
}

#[test]
fn test_validation_rejects_unnamed_steps() {
    let error = refusal(vec![stage(
        "unnamed-steps",
        true,
        vec![step("Task 1", "echo \"test1\""), step("", "echo \"test2\"")],
    )]);
    assert!(
        error.contains("name") || error.contains("unnamed"),
        "Should mention missing name"
    );
}

#[test]
fn parallel_problems_are_told_exactly() {
    let told = |s: Stage| validate_parallel_stages(&config(vec![s])).unwrap_err().message();
    assert_eq!(
        told(stage("p", true, vec![])),
        "Parallel stage 'p' has only 0 step. Parallel execution requires at least 2 steps."
    );
    assert_eq!(
        told(stage("p", true, vec![step("a", "x"), step("b", " \t\n")])),
        "Step #2 in parallel stage 'p' has an empty command"
    );
    assert_eq!(
        told(stage("p", true, vec![step("  ", "x"), step("b", "y")])),
        "Step #1 in parallel stage 'p' must have a name for log identification"
    );
    assert_eq!(
        told(stage("p", true, vec![step("a", "x"), step("b", "y"), step("a", "z")])),
        "Duplicate step name 'a' in parallel stage 'p'. Each step must have a unique name."
    );
    let mut dependent = step("b", "y");
    dependent.depends_on.push("a".to_string());
    assert_eq!(
        told(stage("p", true, vec![step("a", "x"), dependent])),
        "Step 'b' in parallel stage 'p' has dependencies. Steps in parallel stages cannot have 'depends_on' - they all run simultaneously."
    );
}

#[test]
fn sequential_stages_keep_no_such_rules() {
    let odd = stage("s", false, vec![step("", "x"), step("", "y")]);
    assert!(validate_parallel_stages(&config(vec![odd])).is_ok());
    let good = stage("p", true, vec![step("a", "x"), step("b", "y")]);
    assert!(validate_parallel_stages(&config(vec![good])).is_ok());
}

#[test]
fn other_refusals() {
    assert_eq!(refusal(vec![]), "Configuration validation failed: No stages or steps defined");
    assert_eq!(
        refusal(vec![stage("a", false, vec![step("x", "y")]), stage("b", true, vec![])]),
        "Configuration validation failed: Stage 'b' has no steps"
    );
    assert_eq!(
        refusal(vec![stage("a", false, vec![step("x", "y"), step("z", "  ")])]),
        "Configuration validation failed: Step 2 in stage 'a' has empty command"
    );
    let mut circular = stage("a", false, vec![step("x", "y")]);
    circular.depends_on = vec!["a".to_string()];
    assert!(refusal(vec![circular]).starts_with("Stage 'a' cannot depend on itself."));
}

#[test]
fn steps_alone_are_enough() {
    let mut c = config(vec![]);
    c.steps = vec![step("", "x")];
    assert!(validate_config(&c).is_ok());
    assert_eq!(
        lines(&validation_report(&c)),
        vec!["Configuration is valid!", "Steps: 1", "Cache: Disabled"]
    );
}

#[test]
fn a_valid_configuration_is_described() {
    let mut c = config(vec![
        stage("build", false, vec![step("a", "x")]),
        stage("test", true, vec![step("b", "y"), step("c", "z")]),
    ]);
    c.cache = CacheConfig { directories: vec!["/w/a".to_string(), "/w/b".to_string()], enabled: true };
    c.secrets = vec![Secret { name: "API".to_string(), env_var: "FORGE_API".to_string() }];
    assert!(validate_config(&c).is_ok());
    assert_eq!(
        lines(&validation_report(&c)),
        vec![
            "Configuration is valid!",
            "Stages:",
            "  - build (1 steps)",
            "  - test (2 steps)",
            "Cache: Enabled",
            "  - /w/a",
            "  - /w/b",
            "Secrets:",
            "  - API (from FORGE_API)",
        ]
    );
}

fn text(v: &serde_yaml::Value, key: &str) -> String {
    v.get(key).and_then(|x| x.as_str()).unwrap_or("").to_string()
}

fn list(v: &serde_yaml::Value, key: &str) -> Vec<serde_yaml::Value> {
    v.get(key).and_then(|x| x.as_sequence()).cloned().unwrap_or_default()
}

#[test]
fn the_example_is_valid() {
    let contents = create_example_config("forge.yaml", false, false).unwrap();
    let value: serde_yaml::Value = serde_yaml::from_str(&contents).unwrap();
    let stages: Vec<Stage> = list(&value, "stages")
        .iter()
        .map(|s| Stage {
            name: text(s, "name"),
            steps: list(s, "steps").iter().map(|t| step(&text(t, "name"), &text(t, "command"))).collect(),
            parallel: s.get("parallel").and_then(|p| p.as_bool()).unwrap_or(false),
            depends_on: list(s, "depends_on")
                .iter()
                .map(|d| d.as_str().unwrap().to_string())
                .collect(),
        })
        .collect();
    assert_eq!(text(&value, "version"), default_version());
    assert_eq!(resolve_stage_dependencies(&stages).unwrap(), vec!["setup", "test", "build"]);
    assert!(validate_config(&config(stages)).is_ok());
}
