//! The cache, its key, and keeping it out of version control.

use forge::cache::{
    collect_lockfiles, compute_cache_key, default_cache_dir, ensure_git_excludes_forge_dir,
    exclude_path, lockfile_candidates, resolve_git_dir, DotGit, Lockfile,
};
use forge::paths::join_path;
use std::collections::hash_map::DefaultHasher;
use std::hash::{Hash, Hasher};

fn file(name: &str, contents: Option<&[u8]>) -> Lockfile {
    Lockfile { name: name.to_string(), contents: contents.map(|c| c.to_vec()) }
}

fn names(list: &[&str]) -> Vec<String> {
    list.iter().map(|n| n.to_string()).collect()
}

#[test]
fn paths_are_joined() {
    assert_eq!(join_path("/a", "b"), "/a/b");
    assert_eq!(join_path("/a/", "b"), "/a/b");
    assert_eq!(join_path("/", "b"), "/b");
    assert_eq!(join_path("", "b"), "b");
    assert_eq!(join_path("/a", "/b"), "/b");
    for (base, part) in [("/a", "b"), ("/a/", "b/c"), ("", "x"), ("r", "/abs"), ("a", "")] {
        let std = std::path::Path::new(base).join(part);
        assert_eq!(join_path(base, part), std.to_str().unwrap());
    }
    assert_eq!(default_cache_dir("/w"), "/w/.forge/cache");
}

#[test]
fn git_directories_are_found() {
    assert_eq!(resolve_git_dir("/w", &DotGit::Directory).unwrap(), "/w/.git");
    let pointer = DotGit::File(Some("  gitdir: ../main/.git/worktrees/w\n".to_string()));
    assert_eq!(resolve_git_dir("/w", &pointer).unwrap(), "/w/../main/.git/worktrees/w");
    let absolute = DotGit::File(Some("gitdir:/g".to_string()));
    assert_eq!(resolve_git_dir("/w", &absolute).unwrap(), "/g");
    assert!(resolve_git_dir("/w", &DotGit::File(Some("nothing".to_string()))).is_none());
    assert!(resolve_git_dir("/w", &DotGit::File(None)).is_none());
    assert!(resolve_git_dir("/w", &DotGit::Missing).is_none());
    assert_eq!(exclude_path("/w/.git"), "/w/.git/info/exclude");
}

#[test]
fn the_directory_is_excluded_once() {
    for existing in ["", "# comments\n", "target", "a\nb\n\n", "forge/\n"] {
        let added = ensure_git_excludes_forge_dir(existing).unwrap();
        let after = format!("{existing}{added}");
        assert!(after.ends_with(".forge/\n"));
        assert!(after.lines().any(|l| l == ".forge/"));
        assert!(ensure_git_excludes_forge_dir(&after).is_none());
    }
    assert_eq!(ensure_git_excludes_forge_dir("x").unwrap(), "\n.forge/\n");
    assert_eq!(ensure_git_excludes_forge_dir("x\n").unwrap(), ".forge/\n");
    assert_eq!(ensure_git_excludes_forge_dir("").unwrap(), ".forge/\n");
    for present in [".forge", "a\n  .forge/  \r\nb", ".forge/\n"] {
        assert!(ensure_git_excludes_forge_dir(present).is_none());
    }
}

#[test]
fn lockfiles_are_collected_in_order() {
    let listed = names(&[
        "README.md",
        "requirements.txt",
        "requirements-dev.txt",
        "my-requirements.txt",
        "requirements.in",
        "yarn.lock",
    ]);
    let present = names(&["yarn.lock", "Cargo.lock", "unrelated.lock"]);
    assert_eq!(
        collect_lockfiles(&present, &listed),
        vec!["Cargo.lock", "requirements-dev.txt", "requirements.txt", "yarn.lock"]
    );
    assert!(collect_lockfiles(&[], &names(&["a", "b"])).is_empty());
    assert_eq!(lockfile_candidates().len(), 10);
    assert_eq!(lockfile_candidates()[5], "poetry.lock");
}

#[test]
fn no_lockfiles_have_the_default_key() {
    assert_eq!(compute_cache_key(&[]), "default");
}

#[test]
fn keys_are_hashes_of_names_and_contents() {
    let files = vec![
        file("Cargo.lock", Some(b"version = 3\n")),
        file("gone.txt", None),
        file("größe", Some(b"")),
    ];
    let mut hasher = DefaultHasher::new();
    "forge-cache-key-v1".hash(&mut hasher);
    for f in &files {
        f.name.as_str().hash(&mut hasher);
        if let Some(bytes) = &f.contents {
            bytes.hash(&mut hasher);
        }
    }
    assert_eq!(compute_cache_key(&files), format!("{:016x}", hasher.finish()));
}

#[test]
fn other_files_have_other_keys() {
    let key = compute_cache_key(&[file("a", Some(b"1"))]);
    assert_eq!(key.len(), 16);
    assert_eq!(key, compute_cache_key(&[file("a", Some(b"1"))]));
    assert_ne!(key, compute_cache_key(&[file("a", Some(b"2"))]));
    assert_ne!(key, compute_cache_key(&[file("b", Some(b"1"))]));
    assert_ne!(key, compute_cache_key(&[file("a", None)]));
    let two = compute_cache_key(&[file("a", Some(b"1")), file("b", Some(b"2"))]);
    let swapped = compute_cache_key(&[file("b", Some(b"2")), file("a", Some(b"1"))]);
    assert_ne!(two, swapped);
}
