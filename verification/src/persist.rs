//! Run history: what is written under `.forge/runs/<run-id>/` after every run.
//!
//! Secrets must never reach this module. Callers see to it that no secret value
//! appears in a result or in metadata.

use crate::paths::{is_absolute, join_path, law_joining_paths, lemma_join_extends, path_join};
use crate::text::{begins_with, trim, trimmed};
use vstd::prelude::*;
use vstd::string::*;
use vstd::utf8::*;

verus! {

/// Metadata stored next to a result. Only the fields listed here are written;
/// the environment never is.
#[derive(Debug, Clone)]
pub struct RunMetadata {
    pub run_id: String,
    /// RFC 3339 time of the start
    pub started_at: String,
    pub forge_version: String,
    /// Absolute path to the configuration file that was executed.
    pub config_path: String,
    /// Git commit hash if available.
    pub git_commit: Option<String>,
    /// Git branch if available.
    pub git_branch: Option<String>,
    /// Operating system name.
    pub os: String,
}

/// The directory of a run: `<workspace>/.forge/runs/<run-id>`.
pub open spec fn run_path(workspace_dir: Seq<char>, run_id: Seq<char>) -> Seq<char> {
    path_join(path_join(path_join(workspace_dir, ".forge"@), "runs"@), run_id)
}

/// The directory of a run: `<workspace>/.forge/runs/<run-id>`.
pub fn run_dir(workspace_dir: &str, run_id: &str) -> (r: String)
    ensures
        r@ == run_path(workspace_dir@, run_id@),
{
    join_path(
        join_path(join_path(workspace_dir, ".forge").as_str(), "runs").as_str(),
        run_id,
    )
}

/// One thing to do when a run is stored.
#[derive(Debug)]
pub enum PersistAction<T> {
    /// Create a directory with its parents; an existing one is left alone.
    CreateDir(T),
    /// Write the result, replacing an earlier one.
    WriteResult(T),
    /// Write the metadata, replacing earlier ones.
    WriteMetadata(T),
}

impl View for PersistAction<String> {
    type V = PersistAction<Seq<char>>;

    open spec fn view(&self) -> PersistAction<Seq<char>> {
        match self {
            PersistAction::CreateDir(path) => PersistAction::CreateDir(path@),
            PersistAction::WriteResult(path) => PersistAction::WriteResult(path@),
            PersistAction::WriteMetadata(path) => PersistAction::WriteMetadata(path@),
        }
    }
}

/// What a list of actions holds.
pub open spec fn persist_actions(list: Seq<PersistAction<String>>) -> Seq<PersistAction<Seq<char>>> {
    list.map_values(|a: PersistAction<String>| a@)
}

/// What is done, in order, to store a run: its directory, the result, the
/// metadata, and an empty directory for logs.
pub open spec fn persist_plan(workspace_dir: Seq<char>, run_id: Seq<char>) -> Seq<
    PersistAction<Seq<char>>,
> {
    let dir = run_path(workspace_dir, run_id);
    seq![
        PersistAction::CreateDir(dir),
        PersistAction::WriteResult(path_join(dir, "result.json"@)),
        PersistAction::WriteMetadata(path_join(dir, "metadata.json"@)),
        PersistAction::CreateDir(path_join(dir, "logs"@)),
    ]
}

/// What is done, in order, to store a run. The first failure ends it.
pub fn persist_run(workspace_dir: &str, run_id: &str) -> (r: Vec<PersistAction<String>>)
    ensures
        persist_actions(r@) == persist_plan(workspace_dir@, run_id@),
{
    let dir = run_dir(workspace_dir, run_id);
    let result = join_path(dir.as_str(), "result.json");
    let metadata = join_path(dir.as_str(), "metadata.json");
    let logs = join_path(dir.as_str(), "logs");
    let r = vec![
        PersistAction::CreateDir(dir),
        PersistAction::WriteResult(result),
        PersistAction::WriteMetadata(metadata),
        PersistAction::CreateDir(logs),
    ];
    assert(persist_actions(r@) =~= persist_plan(workspace_dir@, run_id@));
    r
}

/// `String::from_utf8`, without the error's details: bytes are a text if and
/// only if they are UTF-8, and then it is the text that they encode.
#[verifier::external_body]
fn text_of_bytes(bytes: Vec<u8>) -> (r: Option<String>)
    ensures
        r is Some <==> valid_utf8(bytes@),
        r matches Some(s) ==> s@ == decode_utf8(bytes@),
{
    String::from_utf8(bytes).ok()
}

/// The arguments with which git tells the commit, and those for the branch.
pub fn git_queries() -> (r: (Vec<&'static str>, Vec<&'static str>))
    ensures
        r.0@.map_values(|s: &'static str| s@) == seq!["rev-parse"@, "HEAD"@],
        r.1@.map_values(|s: &'static str| s@) == seq!["rev-parse"@, "--abbrev-ref"@, "HEAD"@],
{
    let commit: Vec<&'static str> = vec!["rev-parse", "HEAD"];
    let branch: Vec<&'static str> = vec!["rev-parse", "--abbrev-ref", "HEAD"];
    assert(commit@.map_values(|s: &'static str| s@) =~= seq!["rev-parse"@, "HEAD"@]);
    assert(branch@.map_values(|s: &'static str| s@) =~= seq![
        "rev-parse"@,
        "--abbrev-ref"@,
        "HEAD"@,
    ]);
    (commit, branch)
}

/// What a call of git answered: its output without the space around it, if the
/// call could be made, succeeded and printed text.
pub open spec fn git_answer(output: Option<(bool, Vec<u8>)>) -> Option<Seq<char>> {
    match output {
        Some((true, stdout)) if valid_utf8(stdout@) => Some(trimmed(decode_utf8(stdout@))),
        _ => None,
    }
}

/// What a call of git answered, given whether it succeeded and what it printed.
pub fn read_git_info(output: Option<(bool, Vec<u8>)>) -> (r: Option<String>)
    ensures
        r is Some <==> git_answer(output) is Some,
        r matches Some(s) ==> s@ == git_answer(output)->0,
{
    match output {
        Some((success, stdout)) => {
            if !success {
                return None;
            }
            match text_of_bytes(stdout) {
                Some(s) => Some(trim(s.as_str())),
                None => None,
            }
        },
        None => None,
    }
}

/// The path that an action is about.
pub open spec fn persist_target(action: PersistAction<Seq<char>>) -> Seq<char> {
    match action {
        PersistAction::CreateDir(path) => path,
        PersistAction::WriteResult(path) => path,
        PersistAction::WriteMetadata(path) => path,
    }
}

// ---------------------------------------------------------------------------
// Laws
// ---------------------------------------------------------------------------
/// What stands at a path.
pub enum Entry {
    Directory,
    File(Seq<u8>),
}

/// What stands at each path.
pub type Files = Map<Seq<char>, Entry>;

/// Whether `dir` is a directory on the way to `path`.
pub open spec fn is_above(dir: Seq<char>, path: Seq<char>) -> bool {
    0 < dir.len() < path.len() && path.take(dir.len() as int) == dir && path[dir.len() as int]
        == '/'
}

/// Whether a directory stands at `path`.
pub open spec fn is_dir(files: Files, path: Seq<char>) -> bool {
    files.dom().contains(path) && files[path] is Directory
}

/// Whether a file with these contents stands at `path`.
pub open spec fn is_file(files: Files, path: Seq<char>, contents: Seq<u8>) -> bool {
    files.dom().contains(path) && files[path] == Entry::File(contents)
}

/// The files after the directory `path` has been created with its parents; what
/// stands there is left alone. `None` if a file is in the way.
pub open spec fn dir_created(files: Files, path: Seq<char>) -> Option<Files> {
    let wanted = |p: Seq<char>| p == path || is_above(p, path);
    if forall|p: Seq<char>| #[trigger]
        files.dom().contains(p) && wanted(p) ==> files[p] is Directory {
        Some(
            Map::new(
                |p: Seq<char>| files.dom().contains(p) || wanted(p),
                |p: Seq<char>|
                    if files.dom().contains(p) {
                        files[p]
                    } else {
                        Entry::Directory
                    },
            ),
        )
    } else {
        None
    }
}

/// The files after `contents` have been written to `path`, replacing what the
/// file held. `None` if a directory stands there or one on the way is missing.
pub open spec fn file_written(files: Files, path: Seq<char>, contents: Seq<u8>) -> Option<Files> {
    if !is_dir(files, path) && forall|p: Seq<char>| #[trigger]
        is_above(p, path) ==> is_dir(files, p) {
        Some(files.insert(path, Entry::File(contents)))
    } else {
        None
    }
}

/// The files after one action; `None` if it fails.
pub open spec fn carried_out_one(
    files: Files,
    action: PersistAction<Seq<char>>,
    result: Seq<u8>,
    metadata: Seq<u8>,
) -> Option<Files> {
    match action {
        PersistAction::CreateDir(path) => dir_created(files, path),
        PersistAction::WriteResult(path) => file_written(files, path, result),
        PersistAction::WriteMetadata(path) => file_written(files, path, metadata),
    }
}

/// The files after a list of actions, of which the first failure ends it: `None`
/// if one fails.
pub open spec fn carried_out(
    files: Files,
    actions: Seq<PersistAction<Seq<char>>>,
    result: Seq<u8>,
    metadata: Seq<u8>,
) -> Option<Files>
    decreases actions.len(),
{
    if actions.len() == 0 {
        Some(files)
    } else {
        match carried_out(files, actions.drop_last(), result, metadata) {
            Some(before) => carried_out_one(before, actions.last(), result, metadata),
            None => None,
        }
    }
}

/// Creating a directory that stands, with all on the way to it, changes nothing.
proof fn lemma_dir_stands(files: Files, path: Seq<char>)
    requires
        is_dir(files, path),
        forall|p: Seq<char>| #[trigger] is_above(p, path) ==> is_dir(files, p),
    ensures
        dir_created(files, path) == Some(files),
{
    let wanted = |p: Seq<char>| p == path || is_above(p, path);
    assert forall|p: Seq<char>| #[trigger]
        files.dom().contains(p) && wanted(p) implies files[p] is Directory by {
        if p != path {
            assert(is_above(p, path));
        }
    }
    let after = dir_created(files, path)->0;
    assert forall|p: Seq<char>| after.dom().contains(p) implies files.dom().contains(p) by {
        if is_above(p, path) {
            assert(is_dir(files, p));
        }
    }
    assert(after =~= files);
}

/// Creating a directory makes it and all on the way to it stand, and leaves what
/// stood alone.
proof fn lemma_dir_created(files: Files, path: Seq<char>)
    requires
        dir_created(files, path) is Some,
    ensures
        is_dir(dir_created(files, path)->0, path),
        forall|p: Seq<char>| #[trigger]
            is_above(p, path) ==> is_dir(dir_created(files, path)->0, p),
        forall|p: Seq<char>| #[trigger]
            files.dom().contains(p) ==> dir_created(files, path)->0.dom().contains(p)
                && dir_created(files, path)->0[p] == files[p],
{
    let wanted = |p: Seq<char>| p == path || is_above(p, path);
    assert forall|p: Seq<char>| p == path || #[trigger] is_above(p, path) implies is_dir(
        dir_created(files, path)->0,
        p,
    ) by {
        if files.dom().contains(p) {
            assert(wanted(p));
        }
    }
    assert(is_dir(dir_created(files, path)->0, path)) by {
        if files.dom().contains(path) {
            assert(wanted(path));
        }
    }
}

/// Storing a run that could be stored leaves its result, its metadata and the
/// directory for its logs in the directory of the run; and storing it a second
/// time succeeds and leaves everything as the first time left it.
pub proof fn law_storing_twice_is_storing_once(
    files: Files,
    workspace_dir: Seq<char>,
    run_id: Seq<char>,
    result: Seq<u8>,
    metadata: Seq<u8>,
)
    requires
        carried_out(files, persist_plan(workspace_dir, run_id), result, metadata) is Some,
    ensures
        ({
            let plan = persist_plan(workspace_dir, run_id);
            let dir = run_path(workspace_dir, run_id);
            let once = carried_out(files, plan, result, metadata)->0;
            &&& is_dir(once, dir)
            &&& is_file(once, path_join(dir, "result.json"@), result)
            &&& is_file(once, path_join(dir, "metadata.json"@), metadata)
            &&& is_dir(once, path_join(dir, "logs"@))
            &&& carried_out(once, plan, result, metadata) == Some(once)
        }),
{
    let plan = persist_plan(workspace_dir, run_id);
    let dir = run_path(workspace_dir, run_id);
    let (r, m, l) = (
        path_join(dir, "result.json"@),
        path_join(dir, "metadata.json"@),
        path_join(dir, "logs"@),
    );
    lemma_four_steps(files, plan, result, metadata);
    let f1 = dir_created(files, dir)->0;
    let f2 = file_written(f1, r, result)->0;
    let f3 = file_written(f2, m, metadata)->0;
    let f4 = dir_created(f3, l)->0;
    reveal_strlit("/");
    reveal_strlit("result.json");
    reveal_strlit("metadata.json");
    reveal_strlit("logs");
    assert(!is_absolute("result.json"@)) by {
        assert("result.json"@.take(1)[0] == 'r');
    }
    assert(!is_absolute("metadata.json"@)) by {
        assert("metadata.json"@.take(1)[0] == 'm');
    }
    assert(!is_absolute("logs"@)) by {
        assert("logs"@.take(1)[0] == 'l');
    }
    assert(dir.len() <= l.len() < r.len() < m.len());
    lemma_dir_created(files, dir);
    lemma_dir_created(f3, l);
    assert forall|p: Seq<char>| is_dir(f1, p) implies #[trigger] is_dir(f4, p) by {
        assert(is_dir(f2, p));
        assert(is_dir(f3, p));
        assert(f3.dom().contains(p));
    }
    assert(f3.dom().contains(r) && f3.dom().contains(m));
    assert(is_file(f4, r, result));
    assert(is_file(f4, m, metadata));
    lemma_dir_stands(f4, dir);
    assert forall|p: Seq<char>| #[trigger] is_above(p, r) implies is_dir(f4, p) by {
        assert(is_dir(f1, p));
    }
    assert forall|p: Seq<char>| #[trigger] is_above(p, m) implies is_dir(f4, p) by {
        assert(is_dir(f2, p));
        assert(is_dir(f3, p));
        assert(f3.dom().contains(p));
    }
    assert(f4.insert(r, Entry::File(result)) =~= f4);
    assert(f4.insert(m, Entry::File(metadata)) =~= f4);
    lemma_dir_stands(f4, l);
    lemma_four_steps(f4, plan, result, metadata);
}

/// A run can be stored where nothing is in the way: no file where a directory is
/// to be, and no directory where a file is to be.
pub proof fn law_storing_succeeds(
    files: Files,
    workspace_dir: Seq<char>,
    run_id: Seq<char>,
    result: Seq<u8>,
    metadata: Seq<u8>,
)
    requires
        ({
            let dir = run_path(workspace_dir, run_id);
            let logs = path_join(dir, "logs"@);
            &&& forall|p: Seq<char>| #[trigger]
                files.dom().contains(p) && (p == dir || is_above(p, dir) || p == logs)
                    ==> files[p] is Directory
            &&& !is_dir(files, path_join(dir, "result.json"@))
            &&& !is_dir(files, path_join(dir, "metadata.json"@))
        }),
    ensures
        carried_out(files, persist_plan(workspace_dir, run_id), result, metadata) is Some,
{
    let plan = persist_plan(workspace_dir, run_id);
    let dir = run_path(workspace_dir, run_id);
    let (r, m, l) = (
        path_join(dir, "result.json"@),
        path_join(dir, "metadata.json"@),
        path_join(dir, "logs"@),
    );
    lemma_four_steps(files, plan, result, metadata);
    reveal_strlit("result.json");
    reveal_strlit("metadata.json");
    reveal_strlit("logs");
    lemma_above_in_dir(dir, "result.json"@);
    lemma_above_in_dir(dir, "metadata.json"@);
    lemma_above_in_dir(dir, "logs"@);
    let wanted = |p: Seq<char>| p == dir || is_above(p, dir);
    assert(forall|p: Seq<char>| #[trigger]
        files.dom().contains(p) && wanted(p) ==> files[p] is Directory);
    let f1 = dir_created(files, dir)->0;
    lemma_dir_created(files, dir);
    assert(!is_above(r, dir) && !is_above(m, dir));
    assert(file_written(f1, r, result) is Some);
    let f2 = file_written(f1, r, result)->0;
    assert(!is_above(r, m));
    assert(file_written(f2, m, metadata) is Some);
    let f3 = file_written(f2, m, metadata)->0;
    let wanted_logs = |p: Seq<char>| p == l || is_above(p, l);
    assert forall|p: Seq<char>| #[trigger]
        f3.dom().contains(p) && wanted_logs(p) implies f3[p] is Directory by {
        if p == l {
            assert(f3.dom().contains(l) ==> f1.dom().contains(l));
        } else {
            assert(is_above(p, l));
            assert(is_dir(f1, p));
        }
    }
}

/// The directories on the way to a name in a directory are the directory and
/// those on the way to it.
proof fn lemma_above_in_dir(dir: Seq<char>, name: Seq<char>)
    requires
        name.len() > 0,
        !name.contains('/'),
    ensures
        path_join(dir, name).len() >= dir.len() + name.len(),
        forall|p: Seq<char>| #[trigger]
            is_above(p, path_join(dir, name)) ==> p == dir || is_above(p, dir),
{
    let path = path_join(dir, name);
    reveal_strlit("/");
    assert(!is_absolute(name)) by {
        assert(name.contains(name[0]));
        assert(name.take(1)[0] == name[0]);
    }
    assert forall|p: Seq<char>| #[trigger] is_above(p, path) implies p == dir || is_above(p, dir) by {
        let n = p.len() as int;
        if n > path.len() - name.len() - 1 {
            assert(path[n] == name[n - (path.len() - name.len())]);
            assert(name.contains(path[n]));
        }
        if n < dir.len() {
            assert(path[n] == dir[n]);
        }
        assert(path.take(n) =~= dir.take(n));
    }
}

/// A list of four actions is carried out one after the other.
proof fn lemma_four_steps(
    files: Files,
    plan: Seq<PersistAction<Seq<char>>>,
    result: Seq<u8>,
    metadata: Seq<u8>,
)
    requires
        plan.len() == 4,
    ensures
        carried_out(files, plan, result, metadata) == match carried_out_one(
            files,
            plan[0],
            result,
            metadata,
        ) {
            Some(f1) => match carried_out_one(f1, plan[1], result, metadata) {
                Some(f2) => match carried_out_one(f2, plan[2], result, metadata) {
                    Some(f3) => carried_out_one(f3, plan[3], result, metadata),
                    None => None,
                },
                None => None,
            },
            None => None,
        },
{
    reveal_with_fuel(carried_out, 5);
    let p3 = plan.drop_last();
    let p2 = p3.drop_last();
    let p1 = p2.drop_last();
    assert(p1.drop_last().len() == 0);
    assert(p1.last() == plan[0] && p2.last() == plan[1] && p3.last() == plan[2]);
}

/// Every path that storing a run touches is the directory of the run or begins
/// with it.
pub proof fn law_a_run_is_stored_in_its_directory(
    workspace_dir: Seq<char>,
    run_id: Seq<char>,
    i: int,
)
    requires
        0 <= i < persist_plan(workspace_dir, run_id).len(),
    ensures
        begins_with(
            persist_target(persist_plan(workspace_dir, run_id)[i]),
            run_path(workspace_dir, run_id),
        ),
{
    let dir = run_path(workspace_dir, run_id);
    reveal_strlit("/");
    reveal_strlit("result.json");
    reveal_strlit("metadata.json");
    reveal_strlit("logs");
    lemma_join_extends(dir, "result.json"@);
    lemma_join_extends(dir, "metadata.json"@);
    lemma_join_extends(dir, "logs"@);
    assert(dir.take(dir.len() as int) =~= dir);
}

/// The history of a run lies in the workspace, under the identifier of the run:
/// its result, its metadata and its logs, each written once.
#[verifier::spinoff_prover]
pub proof fn law_where_the_history_lies(workspace_dir: Seq<char>, run_id: Seq<char>)
    requires
        workspace_dir.len() > 0,
        workspace_dir.last() != '/',
        run_id.len() > 0,
        run_id[0] != '/',
        run_id.last() != '/',
    ensures
        ({
            let dir = workspace_dir + "/.forge/runs/"@ + run_id;
            &&& run_path(workspace_dir, run_id) == dir
            &&& persist_plan(workspace_dir, run_id) == seq![
                PersistAction::CreateDir(dir),
                PersistAction::WriteResult(dir + "/result.json"@),
                PersistAction::WriteMetadata(dir + "/metadata.json"@),
                PersistAction::CreateDir(dir + "/logs"@),
            ]
        }),
{
    reveal_strlit(".forge");
    reveal_strlit("runs");
    reveal_strlit("/.forge/runs/");
    reveal_strlit("result.json");
    reveal_strlit("metadata.json");
    reveal_strlit("logs");
    reveal_strlit("/result.json");
    reveal_strlit("/metadata.json");
    reveal_strlit("/logs");
    let forge = workspace_dir.push('/') + ".forge"@;
    let runs = forge.push('/') + "runs"@;
    let dir = workspace_dir + "/.forge/runs/"@ + run_id;
    law_joining_paths(workspace_dir, ".forge"@);
    law_joining_paths(forge, "runs"@);
    law_joining_paths(runs, run_id);
    assert(runs.push('/') + run_id =~= dir);
    law_joining_paths(dir, "result.json"@);
    law_joining_paths(dir, "metadata.json"@);
    law_joining_paths(dir, "logs"@);
    assert(dir.push('/') + "result.json"@ =~= dir + "/result.json"@);
    assert(dir.push('/') + "metadata.json"@ =~= dir + "/metadata.json"@);
    assert(dir.push('/') + "logs"@ =~= dir + "/logs"@);
}

/// Runs with different identifiers are stored in different places.
pub proof fn law_runs_are_stored_apart(workspace_dir: Seq<char>, a: Seq<char>, b: Seq<char>)
    requires
        workspace_dir.len() > 0,
        workspace_dir.last() != '/',
        a.len() > 0 && a[0] != '/' && a.last() != '/',
        b.len() > 0 && b[0] != '/' && b.last() != '/',
        a != b,
    ensures
        run_path(workspace_dir, a) != run_path(workspace_dir, b),
{
    law_where_the_history_lies(workspace_dir, a);
    law_where_the_history_lies(workspace_dir, b);
    let head = workspace_dir + "/.forge/runs/"@;
    assert((head + a).skip(head.len() as int) =~= a);
    assert((head + b).skip(head.len() as int) =~= b);
}

/// What git printed is taken without the space around it, if git could be asked,
/// succeeded and printed text; otherwise nothing is known.
pub proof fn law_what_git_says(success: bool, stdout: Vec<u8>)
    ensures
        git_answer(None) is None,
        git_answer(Some((success, stdout))) is Some <==> success && valid_utf8(stdout@),
        git_answer(Some((success, stdout))) matches Some(answer) ==> answer == trimmed(
            decode_utf8(stdout@),
        ),
{
}

/// What is stored of a run is stored in its directory, wherever that is: first the
/// directory is made, then the result and the metadata are written, then the place
/// for the logs is made.
pub proof fn law_what_is_stored(workspace_dir: Seq<char>, run_id: Seq<char>)
    ensures
        ({
            let dir = run_path(workspace_dir, run_id);
            let plan = persist_plan(workspace_dir, run_id);
            &&& plan.len() == 4
            &&& plan[0] == PersistAction::CreateDir(dir)
            &&& plan[1] == PersistAction::WriteResult(path_join(dir, "result.json"@))
            &&& plan[2] == PersistAction::WriteMetadata(path_join(dir, "metadata.json"@))
            &&& plan[3] == PersistAction::CreateDir(path_join(dir, "logs"@))
        }),
{
}

/// What is known of a plan is all of it.
pub proof fn law_model_of_a_plan(list: Seq<PersistAction<String>>, i: int)
    requires
        0 <= i < list.len(),
    ensures
        persist_actions(list).len() == list.len(),
        list[i] matches PersistAction::CreateDir(path) ==> persist_actions(list)[i]
            == PersistAction::CreateDir(path@),
        list[i] matches PersistAction::WriteResult(path) ==> persist_actions(list)[i]
            == PersistAction::WriteResult(path@),
        list[i] matches PersistAction::WriteMetadata(path) ==> persist_actions(list)[i]
            == PersistAction::WriteMetadata(path@),
{
}

} // verus!
