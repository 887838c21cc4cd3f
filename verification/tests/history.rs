//! What is stored of a run.

use forge::persist::{git_queries, persist_run, read_git_info, run_dir, PersistAction};
use std::collections::HashMap;

#[test]
fn run_dir_path_is_correct() {
    let p = run_dir("/workspace", "my-run-id");
    assert_eq!(p, "/workspace/.forge/runs/my-run-id");
}

#[test]
fn a_run_is_stored_in_order() {
    let plan = persist_run("/w", "abc-123");
    let told: Vec<String> = plan
        .iter()
        .map(|a| match a {
            PersistAction::CreateDir(p) => format!("mkdir {p}"),
            PersistAction::WriteResult(p) => format!("result {p}"),
            PersistAction::WriteMetadata(p) => format!("metadata {p}"),
        })
        .collect();
    assert_eq!(
        told,
        vec![
            "mkdir /w/.forge/runs/abc-123",
            "result /w/.forge/runs/abc-123/result.json",
            "metadata /w/.forge/runs/abc-123/metadata.json",
            "mkdir /w/.forge/runs/abc-123/logs",
        ]
    );
    assert!(told.iter().all(|t| t.contains(&run_dir("/w", "abc-123"))));
}

#[test]
fn a_run_can_be_stored_twice() {
    let mut files: HashMap<String, Option<&str>> = HashMap::new();
    let mut store = || {
        for action in persist_run("/w", "abc-123") {
            match action {
                PersistAction::CreateDir(p) => {
                    files.entry(p).or_insert(None);
                }
                PersistAction::WriteResult(p) => {
                    files.insert(p, Some("r"));
                }
                PersistAction::WriteMetadata(p) => {
                    files.insert(p, Some("m"));
                }
            }
        }
        files.clone()
    };
    let once = store();
    assert_eq!(once, store());
    let dir = run_dir("/w", "abc-123");
    assert_eq!(once.len(), 4);
    assert_eq!(once[&dir], None);
    assert_eq!(once[&format!("{dir}/result.json")], Some("r"));
    assert_eq!(once[&format!("{dir}/metadata.json")], Some("m"));
    assert_eq!(once[&format!("{dir}/logs")], None);
}

#[test]
fn git_answers_are_trimmed() {
    let answer = |success: bool, bytes: &[u8]| read_git_info(Some((success, bytes.to_vec())));
    assert_eq!(answer(true, b"deadbeef\n").as_deref(), Some("deadbeef"));
    assert_eq!(answer(true, " größe \r\n".as_bytes()).as_deref(), Some("größe"));
    assert_eq!(answer(true, b"").as_deref(), Some(""));
    assert_eq!(answer(false, b"deadbeef\n"), None);
    assert_eq!(answer(true, &[0xff, 0xfe]), None);
    assert_eq!(read_git_info(None), None);
}

#[test]
fn git_is_asked_for_commit_and_branch() {
    let (commit, branch) = git_queries();
    assert_eq!(commit, vec!["rev-parse", "HEAD"]);
    assert_eq!(branch, vec!["rev-parse", "--abbrev-ref", "HEAD"]);
}
