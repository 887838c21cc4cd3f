//! The commands, from the command line to a run.

use forge::cli::{
    banner, cache_enabled, config_not_found, dashboard_exit, execution_order_line, is_silent,
    no_command_error, read_forge_config_error, stage_operation, version_lines, ConfigFault, Fatal,
};
use forge::clock::Elapsed;
use forge::config::{CacheConfig, ForgeConfig, Secret, Stage, Step};
use forge::docker::{
    announce_image, cleanup_step_container, removed_container, stopped_container,
};
use forge::env::EnvMap;
use forge::init::{create_example_config, create_failed, created_lines, write_failed};
use forge::launch::{start_run, AwaitingDocker, DockerReply, Planned, RunRequest};
use forge::paint::{Paint, Print};
use forge::result::{ExecutionStatus, ExitCode, FailureReason, OutputFormat, PipelineResult};
use forge::validate::validate_config;

fn text(p: &Print) -> String {
    p.spans.iter().map(|s| s.text.as_str()).collect()
}

fn lines(prints: &[Print]) -> Vec<String> {
    prints.iter().map(text).collect()
}

fn step(name: &str, command: &str) -> Step {
    Step {
        name: name.to_string(),
        command: command.to_string(),
        image: String::new(),
        working_dir: String::new(),
        env: EnvMap::new(),
        depends_on: vec![],
    }
}

fn stage(name: &str, parallel: bool, depends_on: &[&str], steps: Vec<Step>) -> Stage {
    Stage {
        name: name.to_string(),
        steps,
        parallel,
        depends_on: depends_on.iter().map(|d| d.to_string()).collect(),
    }
}

fn config(stages: Vec<Stage>) -> ForgeConfig {
    ForgeConfig {
        version: "1.0".to_string(),
        stages,
        steps: vec![],
        cache: CacheConfig::default(),
        secrets: vec![],
    }
}

fn request() -> RunRequest {
    RunRequest {
        file: "forge.yaml".to_string(),
        verbose: true,
        cache: false,
        no_cache: false,
        stage: None,
        dry_run: false,
        tui: false,
        format: "human".to_string(),
    }
}

fn awaiting_docker(request: RunRequest, config: ForgeConfig) -> AwaitingDocker {
    let secrets = vec![Some("value".to_string()); config.secrets.len()];
    let (file, _) = start_run(request).unwrap();
    file.file_checked(true).unwrap().config_read(Ok(config)).unwrap().secrets_read(secrets).unwrap()
}

fn planned(request: RunRequest, config: ForgeConfig) -> Planned {
    awaiting_docker(request, config).docker_checked(DockerReply::Answered).unwrap()
}

fn pipeline() -> Vec<Stage> {
    vec![
        stage("setup", false, &[], vec![step("a", "one")]),
        stage("test", true, &["setup"], vec![step("b", "two"), step("c", "three")]),
    ]
}

#[test]
fn fatal_errors_have_lines_and_codes() {
    let told = |f: Fatal| (text(&f.line()), f.exit_code());
    assert_eq!(
        told(Fatal::ConfigNotFound { file: "f".to_string() }),
        (
            "Error: config error: Configuration file not found: 'f'\nHint: Run 'forge init' to create an example config".to_string(),
            ExitCode::ConfigError
        )
    );
    assert_eq!(
        told(Fatal::BadConfig { message: "m".to_string() }),
        ("Error: m".to_string(), ExitCode::ConfigError)
    );
    assert_eq!(
        told(Fatal::DockerConnection { error: "e".to_string() }),
        ("Error: e".to_string(), ExitCode::RuntimeError)
    );
    assert_eq!(
        told(Fatal::DockerSilent { error: "e".to_string() }),
        ("Error: e".to_string(), ExitCode::RuntimeError)
    );
    assert_eq!(
        told(Fatal::UnknownStage { message: "m".to_string() }),
        ("Error: config error: m".to_string(), ExitCode::ConfigError)
    );
    assert_eq!(
        told(Fatal::NothingToRun),
        (
            "Error: config error: No stages or steps found in configuration".to_string(),
            ExitCode::ConfigError
        )
    );
    assert_eq!(
        told(Fatal::TempDir { error: "e".to_string() }),
        ("Error: e".to_string(), ExitCode::RuntimeError)
    );
    assert_eq!(
        told(Fatal::Other { message: "m".to_string() }),
        ("Error: m".to_string(), ExitCode::PipelineFailure)
    );
    let line = Fatal::NothingToRun.line();
    assert!(line.to_stderr && line.newline);
    assert_eq!(line.spans[0].paint, Paint::RedBold);
    assert!(matches!(
        Fatal::DockerConnection { error: "e".to_string() }.reason(),
        Some(FailureReason::DockerError { message }) if message == "Failed to connect to Docker: e"
    ));
    assert!(Fatal::Other { message: String::new() }.reason().is_none());
    assert_eq!(
        config_not_found("x"),
        "Configuration file not found: 'x'\nHint: Run 'forge init' to create an example config"
    );
}

#[test]
fn leaving_the_dashboard() {
    let ended = |status: ExecutionStatus, failure: Option<FailureReason>| {
        dashboard_exit(&Some(PipelineResult {
            run_id: "id".to_string(),
            started_at: "start".to_string(),
            completed_at: "end".to_string(),
            duration_secs: Elapsed::from_secs(1),
            status,
            failure,
            stages: vec![],
            forge_version: "v1".to_string(),
        }))
    };
    assert_eq!(ended(ExecutionStatus::Success, None), ExitCode::Success);
    let step = FailureReason::StepFailed {
        stage: "s".to_string(),
        step: "a".to_string(),
        exit_code: 2,
    };
    assert_eq!(ended(ExecutionStatus::Failed, Some(step)), ExitCode::PipelineFailure);
    let docker = FailureReason::DockerError { message: "gone".to_string() };
    assert_eq!(ended(ExecutionStatus::Failed, Some(docker)), ExitCode::RuntimeError);
    assert_eq!(dashboard_exit(&None), ExitCode::Cancelled);
}

#[test]
fn small_decisions() {
    assert!(!is_silent(OutputFormat::Human));
    assert!(is_silent(OutputFormat::Json) && is_silent(OutputFormat::Junit));
    assert!(cache_enabled(true, false, false) && cache_enabled(false, true, false));
    assert!(!cache_enabled(true, true, true) && !cache_enabled(false, false, false));
    assert_eq!(text(&banner(false, false, true).unwrap()), "FORGE Pipeline Runner (DRY RUN MODE)");
    assert!(banner(true, false, false).is_none() && banner(false, true, false).is_none());
    assert_eq!(stage_operation("build"), "Stage 'build'");
    let order = vec!["a".to_string(), "b".to_string()];
    assert_eq!(text(&execution_order_line(&order)), "[INFO] Execution order: a -> b");
    assert_eq!(
        lines(&version_lines("v1", "abc", "today")),
        vec!["FORGE v1", "  Commit: abc", "  Built:  today"]
    );
    assert!(no_command_error().starts_with("No command provided\nAvailable commands:\n• forge run "));
    assert!(no_command_error().contains("help\n\nHint: Start with"));
}

#[test]
fn unreadable_configurations() {
    assert_eq!(
        read_forge_config_error(ConfigFault::Open, "f", "e"),
        "Failed to open configuration file 'f': e\nHint: Run 'forge init' to create an example config, or check if the file path is correct"
    );
    assert_eq!(
        read_forge_config_error(ConfigFault::Read, "f", "e"),
        "Failed to read configuration file 'f': e\nHint: Check file permissions and ensure the file is not corrupted"
    );
    assert!(read_forge_config_error(ConfigFault::Parse, "f", "e")
        .starts_with("Invalid YAML configuration in 'f': e\nHint: Check your YAML syntax"));
}

#[test]
fn an_example_is_written_with_care() {
    assert!(create_example_config("f", false, false).is_ok());
    assert!(create_example_config("f", true, true).is_ok());
    assert_eq!(
        create_example_config("f", true, false).unwrap_err(),
        "Configuration file 'f' already exists\nHint: Use --force to overwrite, or choose a different filename with --file"
    );
    assert!(create_failed("f", "e").starts_with("Failed to create configuration file 'f': e\n"));
    assert!(write_failed("f", "e").starts_with("Failed to write to configuration file 'f': e\n"));
    assert_eq!(
        lines(&created_lines("f")),
        vec![
            "Created example configuration file: f",
            "Edit this file to configure your pipeline.",
        ]
    );
}

#[test]
fn an_unknown_format_ends_it_at_once() {
    let mut r = request();
    r.format = "xml".to_string();
    let fatal = start_run(r).err().unwrap();
    assert_eq!(
        text(&fatal.line()),
        "Error: unknown format 'xml'; valid values: human, json, junit"
    );
    assert_eq!(fatal.exit_code(), ExitCode::PipelineFailure);
    let (file, line) = start_run(request()).ok().unwrap();
    assert_eq!(text(&line.unwrap()), "FORGE Pipeline Runner");
    assert!(file.options.details());
    let mut r = request();
    r.format = "JSON".to_string();
    let (file, line) = start_run(r).ok().unwrap();
    assert!(line.is_none() && file.options.silent() && !file.options.details());
}

#[test]
fn missing_and_broken_files() {
    let (file, _) = start_run(request()).ok().unwrap();
    let fatal = file.file_checked(false).err().unwrap();
    assert!(matches!(fatal, Fatal::ConfigNotFound { file } if file == "forge.yaml"));
    let (file, _) = start_run(request()).ok().unwrap();
    let fatal =
        file.file_checked(true).ok().unwrap().config_read(Err("bad".to_string())).err().unwrap();
    assert!(matches!(fatal, Fatal::BadConfig { message } if message == "bad"));
}

#[test]
fn secrets_come_before_parallel_rules() {
    let broken = || {
        let mut c = config(vec![stage("p", true, &[], vec![step("a", "x")])]);
        c.secrets = vec![Secret { name: "A".to_string(), env_var: "FORGE_A".to_string() }];
        c
    };
    let waiting = || {
        let (file, _) = start_run(request()).ok().unwrap();
        file.file_checked(true).ok().unwrap().config_read(Ok(broken())).ok().unwrap()
    };
    let fatal = waiting().secrets_read(vec![None]).err().unwrap();
    assert_eq!(
        text(&fatal.line()),
        "Error: Secret 'A' is configured to come from env var 'FORGE_A', but it is not set\nHint: export FORGE_A=<value> before running forge"
    );
    assert_eq!(fatal.exit_code(), ExitCode::ConfigError);
    let fatal = waiting().secrets_read(vec![Some("v".to_string())]).err().unwrap();
    assert_eq!(fatal.exit_code(), ExitCode::ConfigError);
    assert!(text(&fatal.line()).contains("at least 2 steps"));
}

#[test]
fn cache_switches_are_applied() {
    let mut c = config(pipeline());
    c.cache.enabled = true;
    let mut r = request();
    r.no_cache = true;
    assert!(!awaiting_docker(r, c).config.cache.enabled);
    let mut r = request();
    r.cache = true;
    assert!(awaiting_docker(r, config(pipeline())).config.cache.enabled);
}

#[test]
fn docker_has_to_answer() {
    let waiting = || awaiting_docker(request(), config(pipeline()));
    let fatal = waiting().docker_checked(DockerReply::NoConnection("e".to_string())).err().unwrap();
    assert_eq!(fatal.exit_code(), ExitCode::RuntimeError);
    let fatal = waiting().docker_checked(DockerReply::NoAnswer("e".to_string())).err().unwrap();
    assert!(matches!(fatal, Fatal::DockerSilent { .. }));
    let empty = awaiting_docker(request(), config(vec![]));
    let fatal = empty.docker_checked(DockerReply::Answered).err().unwrap();
    assert!(matches!(fatal, Fatal::NothingToRun));
}

#[test]
fn dry_runs() {
    let (out, end) = planned(request(), config(pipeline())).dry_run();
    assert!(end.is_ok());
    assert_eq!(
        lines(&out),
        vec![
            "[OK] Configuration validated: forge.yaml",
            "[OK] Docker connection verified",
            "[OK] 2 stages, 3 steps",
            "\nExecution order:",
            "  1. setup",
            "     [1] one",
            "  2. test [parallel] (after: setup)",
            "     [1] two",
            "     [2] three",
            "\n[OK] Pipeline validation completed!",
        ]
    );
    let mut r = request();
    r.format = "junit".to_string();
    assert!(planned(r, config(pipeline())).dry_run().0.is_empty());
    let blank = config(vec![stage("s", false, &[], vec![step("", "  ")])]);
    assert_eq!(lines(&planned(request(), blank).dry_run().0)[5], "     [1] <no command>");
}

#[test]
fn circular_stages_are_a_config_error() {
    let circular = || {
        config(vec![
            stage("a", false, &["b"], vec![step("", "x")]),
            stage("b", false, &["a"], vec![step("", "x")]),
        ])
    };
    let (out, end) = planned(request(), circular()).dry_run();
    assert_eq!(out.len(), 2);
    assert_eq!(end.unwrap_err().exit_code(), ExitCode::ConfigError);
    let fatal = planned(request(), circular()).temp_dir_made(Ok(())).err().unwrap();
    assert_eq!(fatal.exit_code(), ExitCode::ConfigError);
    assert!(text(&fatal.line()).starts_with("Error: Circular dependency detected"));
}

#[test]
fn a_run_gets_ready() {
    let fatal =
        planned(request(), config(pipeline())).temp_dir_made(Err("full".to_string())).err().unwrap();
    assert!(matches!(fatal, Fatal::TempDir { .. }));
    let ready = planned(request(), config(pipeline())).temp_dir_made(Ok(())).ok().unwrap();
    let names: Vec<&str> = ready.stages.iter().map(|s| s.name.as_str()).collect();
    assert_eq!(names, vec!["setup", "test"]);
    assert_eq!(text(&ready.order_line.unwrap()), "[INFO] Execution order: setup -> test");
    let mut r = request();
    r.tui = true;
    assert!(planned(r, config(pipeline())).temp_dir_made(Ok(())).ok().unwrap().order_line.is_none());
    let mut r = request();
    r.stage = Some("setup".to_string());
    let ready = planned(r, config(pipeline())).temp_dir_made(Ok(())).ok().unwrap();
    assert_eq!(ready.stages.len(), 1);
}

#[test]
fn valid_configurations_are_not_refused() {
    let whole = config(pipeline());
    assert!(validate_config(&whole).is_ok());
    assert!(planned(request(), config(pipeline())).temp_dir_made(Ok(())).is_ok());
    for stage in pipeline() {
        let mut asked = request();
        asked.stage = Some(stage.name);
        assert!(planned(asked, config(pipeline())).temp_dir_made(Ok(())).is_ok());
    }
    let mut steps_only = config(vec![]);
    steps_only.steps = vec![step("one", "true")];
    assert!(validate_config(&steps_only).is_ok());
    assert!(planned(request(), steps_only).temp_dir_made(Ok(())).is_ok());
}

#[test]
fn reports_have_standard_output_to_themselves() {
    let mut asked = request();
    asked.format = "json".to_string();
    asked.verbose = true;
    let (awaiting, line) = start_run(asked).unwrap();
    assert!(line.is_none());
    let (quiet, verbose) = (awaiting.options.silent(), awaiting.options.details());
    assert!(quiet && !verbose);
    let mut said = announce_image("img", true, quiet);
    said.extend(announce_image("img", false, quiet));
    let failed: Result<(), String> = Err("gone".to_string());
    said.extend(cleanup_step_container("c", &Ok(()), &Ok(()), verbose));
    said.extend(cleanup_step_container("c", &failed, &failed, verbose));
    said.extend(stopped_container("c", &failed));
    said.extend(removed_container("c", &failed));
    assert_eq!(said.len(), 4);
    assert!(said.iter().all(|p| p.to_stderr));
}
