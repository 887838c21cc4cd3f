//! What a container is given, and what Docker's answers mean.

use forge::config::{CacheConfig, Step};
use forge::container::{
    announce_step, build_command_with_cache, container_setup, is_cache_in_use, prepare_container,
    step_image, ContainerRuntimeContext,
};
use forge::docker::{
    announce_image, cleanup_container, cleanup_containers, cleanup_step_container,
    created_container, pull_image, removed_container, started_container, stopped_container,
    wait_for_container, CleanupAction, PullAction, PullEvent, WaitReply,
};
use forge::env::EnvMap;
use forge::execution::classify_error;
use forge::ident::{fresh_name, fresh_run_id};
use forge::paint::{Paint, Print};
use forge::result::FailureReason;

fn step(name: &str, command: &str, image: &str) -> Step {
    Step {
        name: name.to_string(),
        command: command.to_string(),
        image: image.to_string(),
        working_dir: String::new(),
        env: EnvMap::new(),
        depends_on: vec![],
    }
}

fn env(pairs: &[(&str, &str)]) -> EnvMap {
    let mut e = EnvMap::new();
    for (k, v) in pairs {
        e.insert(k.to_string(), v.to_string());
    }
    e
}

fn text(p: &Print) -> String {
    p.spans.iter().map(|s| s.text.as_str()).collect()
}

fn lines(prints: &[Print]) -> Vec<String> {
    prints.iter().map(text).collect()
}

fn no_cache() -> CacheConfig {
    CacheConfig::default()
}

fn cache(dirs: &[&str], enabled: bool) -> CacheConfig {
    CacheConfig { directories: dirs.iter().map(|d| d.to_string()).collect(), enabled }
}

#[test]
fn command_without_cache_is_unchanged() {
    assert_eq!(build_command_with_cache("make", &no_cache()), "make");
    assert_eq!(build_command_with_cache("make", &cache(&["/a"], false)), "make");
    assert_eq!(build_command_with_cache("make", &cache(&[], true)), "make");
    assert!(!is_cache_in_use(&cache(&[], true)));
    assert!(is_cache_in_use(&cache(&["/a"], true)));
}

#[test]
fn command_with_cache_restores_and_saves() {
    let script = build_command_with_cache("make", &cache(&["/w/a", "/w/b"], true));
    let expected = "#!/bin/sh\n\n# Cache setup\n\
mkdir -p /forge-cache/w/a\nmkdir -p /w/a\n\
if [ -d /forge-cache/w/a ] && [ \"$(ls -A /forge-cache/w/a)\" ]; then cp -a /forge-cache/w/a/. /w/a/ 2>/dev/null || true; fi\n\
mkdir -p /forge-cache/w/b\nmkdir -p /w/b\n\
if [ -d /forge-cache/w/b ] && [ \"$(ls -A /forge-cache/w/b)\" ]; then cp -a /forge-cache/w/b/. /w/b/ 2>/dev/null || true; fi\n\
\n# Main command\nmake\nstatus=$?\n\n# Cache teardown\n\
mkdir -p /forge-cache/w/a\n\
if [ -d /w/a ] && [ \"$(ls -A /w/a)\" ]; then cp -a /w/a/. /forge-cache/w/a/ 2>/dev/null || true; fi\n\
mkdir -p /forge-cache/w/b\n\
if [ -d /w/b ] && [ \"$(ls -A /w/b)\" ]; then cp -a /w/b/. /forge-cache/w/b/ 2>/dev/null || true; fi\n\
\n\n# Exit with the status of the main command\nexit $status";
    assert_eq!(script, expected);
}

#[test]
fn container_defaults() {
    let secrets = EnvMap::new();
    let ctx = ContainerRuntimeContext {
        workspace_dir: "/src",
        cache_dir: "/src/.forge/cache/k",
        secrets_env: &secrets,
    };
    let setup = container_setup(&step("", "ls", ""), &no_cache(), "/tmp/t", &ctx, "n".to_string());
    assert_eq!(setup.name, "n");
    assert_eq!(setup.image, "alpine:latest");
    assert_eq!(setup.step_name, "unnamed step");
    assert_eq!(setup.config.image, "alpine:latest");
    assert_eq!(setup.config.working_dir, "/workspace");
    assert_eq!(setup.config.cmd, vec!["/bin/sh", "-c", "ls"]);
    assert!(setup.config.env.is_empty());
    assert!(!setup.config.auto_remove);
    let mounts: Vec<(&str, &str)> =
        setup.config.mounts.iter().map(|m| (m.target.as_str(), m.source.as_str())).collect();
    assert_eq!(mounts, vec![("/forge-shared", "/tmp/t"), ("/workspace", "/src")]);
    assert_eq!(step_image(&step("", "ls", "rust:1")), "rust:1");
}

#[test]
fn container_with_cache_and_secrets() {
    let secrets = env(&[("TOKEN", "secret"), ("EXTRA", "x")]);
    let ctx = ContainerRuntimeContext {
        workspace_dir: "/src",
        cache_dir: "/cache",
        secrets_env: &secrets,
    };
    let mut s = step("build", "make", "rust:1");
    s.env = env(&[("TOKEN", "public"), ("A", "1")]);
    s.working_dir = "/w".to_string();
    let setup = container_setup(&s, &cache(&["/d"], true), "/tmp/t", &ctx, "n".to_string());
    assert_eq!(setup.config.env, vec!["TOKEN=secret", "A=1", "EXTRA=x"]);
    assert_eq!(setup.config.working_dir, "/w");
    assert_eq!(setup.config.mounts.len(), 3);
    assert_eq!(setup.config.mounts[2].target, "/forge-cache");
    assert_eq!(setup.config.mounts[2].source, "/cache");
    assert_eq!(setup.step_name, "build");
}

#[test]
fn secret_values_are_masked() {
    let mut s = step("build", "make", "rust:1");
    s.env = env(&[("Z", "1"), ("TOKEN", "public"), ("A", "2")]);
    s.working_dir = "/w".to_string();
    let one = announce_step(&s, &env(&[("TOKEN", "hunter2")]));
    let other = announce_step(&s, &env(&[("TOKEN", "correct horse")]));
    assert_eq!(
        lines(&one),
        vec![
            "Running step: build",
            "  Command: make",
            "  Image: rust:1",
            "  Working directory: /w",
            "  Environment variables:",
            "    A=2",
            "    TOKEN=********",
            "    Z=1",
        ]
    );
    assert_eq!(lines(&one), lines(&other));
    assert_eq!(one[0].spans[0].paint, Paint::YellowBold);
    assert!(one.iter().all(|p| p.newline && !p.to_stderr));
}

#[test]
fn announcement_without_details() {
    let out = announce_step(&step("", "ls", ""), &EnvMap::new());
    assert_eq!(
        lines(&out),
        vec!["Running step: unnamed step", "  Command: ls", "  Image: alpine:latest"]
    );
}

fn is_uuid(id: &str) -> bool {
    let chars: Vec<char> = id.chars().collect();
    chars.len() == 36
        && chars.iter().enumerate().all(|(i, c)| match i {
            8 | 13 | 18 | 23 => *c == '-',
            14 => *c == '4',
            19 => "89ab".contains(*c),
            _ => c.is_ascii_digit() || ('a'..='f').contains(c),
        })
}

#[test]
fn names_are_fresh() {
    let id = fresh_run_id();
    assert!(is_uuid(&id), "{id}");
    assert_ne!(id, fresh_run_id());
    let name = fresh_name();
    assert!(is_uuid(name.strip_prefix("forge-").unwrap()), "{name}");
    let secrets = EnvMap::new();
    let ctx = ContainerRuntimeContext { workspace_dir: "/s", cache_dir: "/c", secrets_env: &secrets };
    let setup = prepare_container(&step("a", "b", "c"), &no_cache(), "/t", &ctx);
    assert!(is_uuid(setup.name.strip_prefix("forge-").unwrap()));
    assert_eq!(setup.config.cmd[2], "b");
}

#[test]
fn images_are_announced() {
    assert_eq!(lines(&announce_image("i", true, false)), vec!["  [OK] Image ready: i"]);
    assert_eq!(lines(&announce_image("i", false, false)), vec!["  [..] Pulling image: i"]);
    assert!(announce_image("i", true, true).is_empty());
}

#[test]
fn pulling_an_image() {
    assert!(matches!(
        pull_image("i", PullEvent::Info(Some("Extracting".to_string()))),
        PullAction::Show(m) if m == "i: Extracting"
    ));
    assert!(matches!(pull_image("i", PullEvent::Info(None)), PullAction::Wait));
    assert!(matches!(
        pull_image("i", PullEvent::End),
        PullAction::Ready(m) if m == "[OK] Image ready: i"
    ));
    match pull_image("i", PullEvent::Failed("no route".to_string())) {
        PullAction::Fail { message, error } => {
            assert_eq!(message, "Failed to pull image: i");
            assert_eq!(
                error,
                "Failed to pull Docker image 'i': no route\nPossible causes:\n• Image name is incorrect or doesn't exist\n• No internet connection\n• Docker registry is unreachable\n• Authentication required for private images\nHint: Try 'docker pull i' manually to test connectivity"
            );
        }
        other => panic!("{other:?}"),
    }
}

#[test]
fn creating_and_starting() {
    let secrets = EnvMap::new();
    let ctx = ContainerRuntimeContext { workspace_dir: "/s", cache_dir: "/c", secrets_env: &secrets };
    let setup =
        container_setup(&step("build", "make", "rust:1"), &no_cache(), "/t", &ctx, "n".to_string());
    assert_eq!(created_container(&setup, Ok("id".to_string())).unwrap(), "id");
    let error = created_container(&setup, Err("full".to_string())).unwrap_err();
    assert!(error.starts_with("Failed to create Docker container for step 'build': full\n"));
    assert!(error.contains("• Docker image 'rust:1' is corrupted\n"));
    assert_eq!(started_container(&setup, "id".to_string(), Ok(())).unwrap(), "id");
    let error = started_container(&setup, "id".to_string(), Err("busy".to_string())).unwrap_err();
    assert!(error.starts_with("Failed to start Docker container 'id' for step 'build': busy\n"));
    assert!(error.ends_with("Hint: Check Docker daemon status with 'docker info'"));
}

#[test]
fn waiting_for_a_container() {
    assert_eq!(wait_for_container("s", WaitReply::Exited(0)), Ok(true));
    assert_eq!(
        wait_for_container("s", WaitReply::Exited(2)).unwrap_err(),
        "Step 's' failed with exit code 2\nHint: Check the command output above for error details. \nYou can run with --verbose for more detailed logging"
    );
    assert!(wait_for_container("s", WaitReply::Failed("gone".to_string()))
        .unwrap_err()
        .starts_with("Error waiting for container: gone\nPossible causes:\n• Docker daemon crashed"));
    assert!(wait_for_container("s", WaitReply::Nothing)
        .unwrap_err()
        .starts_with("Container exited without providing a status code\n"));
}

#[test]
fn exit_codes_are_read_back() {
    for code in [1i64, 2, 101, 137, 255, i32::MAX as i64] {
        let message = wait_for_container("cargo test", WaitReply::Exited(code)).unwrap_err();
        assert_eq!(
            FailureReason::parse_exit_code_from_message(&message),
            Some(code as i32)
        );
        match classify_error(&message, "ci", "cargo test") {
            FailureReason::StepFailed { stage, step, exit_code } => {
                assert_eq!((stage.as_str(), step.as_str()), ("ci", "cargo test"));
                assert_eq!(exit_code, code as i32);
            }
            other => panic!("{other:?}"),
        }
    }
    for code in [-1i64, i32::MAX as i64 + 1, i64::MIN, i64::MAX] {
        let message = wait_for_container("x", WaitReply::Exited(code)).unwrap_err();
        assert_eq!(FailureReason::parse_exit_code_from_message(&message), None);
    }
    let misleading = wait_for_container("exit code 9", WaitReply::Exited(3)).unwrap_err();
    assert_eq!(FailureReason::parse_exit_code_from_message(&misleading), Some(9));
}

#[test]
fn errors_are_classified() {
    let docker = "Failed to pull Docker image 'x': y\nmore";
    assert!(matches!(
        classify_error(docker, "s", "t"),
        FailureReason::DockerError { message } if message == "Failed to pull Docker image 'x': y"
    ));
    for word in ["a DAEMON b", "the Container", "bad image"] {
        assert!(matches!(classify_error(word, "s", "t"), FailureReason::DockerError { .. }));
    }
    match classify_error("something broke\r\nsecond", "s", "t") {
        FailureReason::StepError { stage, step, message } => {
            assert_eq!((stage.as_str(), step.as_str()), ("s", "t"));
            assert_eq!(message, "something broke");
        }
        other => panic!("{other:?}"),
    }
    assert!(matches!(
        classify_error("", "s", "t"),
        FailureReason::StepError { message, .. } if message.is_empty()
    ));
}

#[test]
fn cleaning_up() {
    let fine: Result<(), String> = Ok(());
    let stopped: Result<(), String> = Err("status 304".to_string());
    let broken: Result<(), String> = Err("no such container".to_string());
    assert_eq!(lines(&cleanup_container("id", &stopped, &fine)), vec!["Container removed: id"]);
    assert!(!cleanup_container("id", &fine, &fine)[0].to_stderr);
    assert!(cleanup_step_container("id", &fine, &fine, false).is_empty());
    assert_eq!(
        lines(&cleanup_step_container("id", &stopped, &fine, true)),
        vec!["Container removed: id"]
    );
    assert_eq!(
        lines(&cleanup_step_container("id", &broken, &fine, false)),
        vec!["Warning: Failed to stop container id: no such container"]
    );
    let out = cleanup_step_container("id", &broken, &broken, false);
    assert_eq!(lines(&out), lines(&cleanup_container("id", &broken, &broken)));
    assert_eq!(
        lines(&out),
        vec![
            "Warning: Failed to stop container id: no such container",
            "Failed to remove container: no such container",
        ]
    );
    assert!(out.iter().all(|p| p.to_stderr));
    assert!(stopped_container("id", &stopped).is_empty());
    assert_eq!(
        lines(&removed_container("id", &broken)),
        vec!["Warning: Failed to remove container id: no such container"]
    );
    let plan = cleanup_containers(&["a".to_string(), "b".to_string()]);
    let told: Vec<String> = plan
        .iter()
        .map(|a| match a {
            CleanupAction::Stop(id) => format!("stop {id}"),
            CleanupAction::Remove(id) => format!("remove {id}"),
        })
        .collect();
    assert_eq!(told, vec!["stop a", "stop b", "remove a", "remove b"]);
}
