//! The build cache: where it lies, how it is kept out of version control and
//! under which key a project's dependencies are cached.

use crate::numbers::{hex_digits, hex_range, hex_text, lemma_hex_digits_differ};
use crate::order::{law_sorting, lex_le, sorted, sorted_texts};
use crate::paths::{join_path, path_join};
use crate::scan::{concatenated, lemma_concatenated_step, lemma_filter_keeps};
use crate::text::{
    after_prefix, begins_with, blank, finishes_with, has_prefix, has_suffix, is_space,
    lemma_one_piece, lemma_pieces_joined, lemma_trimmed_is, list_has, pieces, same_text,
    split_at_char, texts, trim, trim_end, trim_start, trimmed,
};
use std::collections::hash_map::DefaultHasher;
use std::hash::Hasher;
use vstd::prelude::*;
use vstd::std_specs::hash::*;
use vstd::string::*;
use vstd::utf8::*;

verus! {

// ---------------------------------------------------------------------------
// Version control
// ---------------------------------------------------------------------------
/// What stands at `.git` in a workspace.
#[derive(Debug)]
pub enum DotGit {
    Directory,
    /// A file, with its contents if it can be read as text
    File(Option<String>),
    Missing,
}

/// The directory that the contents of a `.git` file point to.
pub open spec fn pointed_git_dir(workspace_dir: Seq<char>, contents: Seq<char>) -> Option<Seq<char>> {
    let line = trimmed(contents);
    if begins_with(line, "gitdir:"@) {
        Some(path_join(workspace_dir, trimmed(line.skip("gitdir:"@.len() as int))))
    } else {
        None
    }
}

/// The git directory of a workspace.
pub open spec fn git_dir(workspace_dir: Seq<char>, dot_git: DotGit) -> Option<Seq<char>> {
    match dot_git {
        DotGit::Directory => Some(path_join(workspace_dir, ".git"@)),
        DotGit::File(Some(contents)) => pointed_git_dir(workspace_dir, contents@),
        DotGit::File(None) => None,
        DotGit::Missing => None,
    }
}

/// The git directory of a workspace, given what stands at `.git` in it.
pub fn resolve_git_dir(workspace_dir: &str, dot_git: &DotGit) -> (r: Option<String>)
    ensures
        r is Some <==> git_dir(workspace_dir@, *dot_git) is Some,
        r matches Some(dir) ==> dir@ == git_dir(workspace_dir@, *dot_git)->0,
{
    match dot_git {
        DotGit::Directory => Some(join_path(workspace_dir, ".git")),
        DotGit::File(Some(contents)) => {
            let line = trim(contents.as_str());
            match after_prefix(line.as_str(), "gitdir:") {
                Some(dir) => Some(join_path(workspace_dir, trim(dir.as_str()).as_str())),
                None => None,
            }
        },
        DotGit::File(None) => None,
        DotGit::Missing => None,
    }
}

/// The file of a git directory that lists what is not tracked.
pub fn exclude_path(git_dir: &str) -> (r: String)
    ensures
        r@ == path_join(path_join(git_dir@, "info"@), "exclude"@),
{
    join_path(join_path(git_dir, "info").as_str(), "exclude")
}

/// Whether a line excludes the runner's directory.
pub open spec fn excludes_forge(line: Seq<char>) -> bool {
    trimmed(line) == ".forge/"@ || trimmed(line) == ".forge"@
}

/// Whether some line excludes the runner's directory.
pub open spec fn is_excluded(existing: Seq<char>) -> bool {
    exists|i: int|
        0 <= i < pieces(existing, '\n').len() && excludes_forge(#[trigger] pieces(existing, '\n')[i])
}

/// What is appended to a list so that the runner's directory is excluded: a
/// line of its own.
pub open spec fn exclusion(existing: Seq<char>) -> Seq<char> {
    if existing.len() > 0 && !finishes_with(existing, "\n"@) {
        "\n.forge/\n"@
    } else {
        ".forge/\n"@
    }
}

/// What to append to the list `existing` so that the runner's directory is
/// excluded; `None` if it is already.
pub fn ensure_git_excludes_forge_dir(existing: &str) -> (r: Option<String>)
    ensures
        r is None <==> is_excluded(existing@),
        r matches Some(text) ==> text@ == exclusion(existing@),
{
    let lines = split_at_char(existing, '\n');
    let mut i: usize = 0;
    while i < lines.len()
        invariant
            i <= lines@.len(),
            texts(lines@) == pieces(existing@, '\n'),
            forall|k: int| 0 <= k < i ==> !excludes_forge(#[trigger] pieces(existing@, '\n')[k]),
        decreases lines@.len() - i,
    {
        let line = trim(lines[i].as_str());
        assert(texts(lines@)[i as int] == lines@[i as int]@);
        if same_text(line.as_str(), ".forge/") || same_text(line.as_str(), ".forge") {
            assert(excludes_forge(pieces(existing@, '\n')[i as int]));
            return None;
        }
        i += 1;
    }
    if existing.unicode_len() > 0 && !has_suffix(existing, "\n") {
        Some("\n.forge/\n".to_string())
    } else {
        Some(".forge/\n".to_string())
    }
}

// ---------------------------------------------------------------------------
// Location and key
// ---------------------------------------------------------------------------
/// The directory of the cache in a workspace.
pub fn default_cache_dir(workspace_dir: &str) -> (r: String)
    ensures
        r@ == path_join(path_join(workspace_dir@, ".forge"@), "cache"@),
{
    join_path(join_path(workspace_dir, ".forge").as_str(), "cache")
}

/// The files with fixed names that pin a project's dependencies.
pub open spec fn lockfile_names() -> Seq<Seq<char>> {
    seq![
        "Cargo.lock"@,
        "package-lock.json"@,
        "pnpm-lock.yaml"@,
        "yarn.lock"@,
        "go.sum"@,
        "poetry.lock"@,
        "Pipfile.lock"@,
        "composer.lock"@,
        "Gemfile.lock"@,
        "uv.lock"@,
    ]
}

/// The files with fixed names that pin a project's dependencies.
pub fn lockfile_candidates() -> (r: Vec<String>)
    ensures
        texts(r@) == lockfile_names(),
{
    let r = vec![
        "Cargo.lock".to_string(),
        "package-lock.json".to_string(),
        "pnpm-lock.yaml".to_string(),
        "yarn.lock".to_string(),
        "go.sum".to_string(),
        "poetry.lock".to_string(),
        "Pipfile.lock".to_string(),
        "composer.lock".to_string(),
        "Gemfile.lock".to_string(),
        "uv.lock".to_string(),
    ];
    assert(texts(r@) =~= lockfile_names());
    r
}

/// Whether a file lists Python requirements.
pub open spec fn is_requirements(name: Seq<char>) -> bool {
    begins_with(name, "requirements"@) && finishes_with(name, ".txt"@)
}

/// The files that pin the dependencies of a workspace: those of the fixed names
/// that are `present`, and the requirements among the files `listed` in it, in
/// order.
pub open spec fn lockfiles(present: Seq<Seq<char>>, listed: Seq<Seq<char>>) -> Seq<Seq<char>> {
    sorted_texts(
        lockfile_names().filter(|n: Seq<char>| present.contains(n)) + listed.filter(
            |n: Seq<char>| is_requirements(n),
        ),
    )
}

/// The names of the files that pin the dependencies of a workspace, given which
/// of the candidates are files in it and the names of all files in it.
pub fn collect_lockfiles(present: &[String], listed: &[String]) -> (r: Vec<String>)
    ensures
        texts(r@) == lockfiles(texts(present@), texts(listed@)),
{
    let candidates = lockfile_candidates();
    let ghost fixed = |n: Seq<char>| texts(present@).contains(n);
    let ghost wanted = |n: Seq<char>| is_requirements(n);
    let ghost names = lockfile_names();
    let ghost files = texts(listed@);
    let mut out: Vec<String> = Vec::new();
    let mut i: usize = 0;
    proof {
        reveal(Seq::filter);
        assert(texts(out@) =~= names.take(0).filter(fixed));
    }
    while i < candidates.len()
        invariant
            i <= candidates@.len(),
            texts(candidates@) == names,
            fixed == (|n: Seq<char>| texts(present@).contains(n)),
            texts(out@) == names.take(i as int).filter(fixed),
        decreases candidates@.len() - i,
    {
        let ghost before = out@;
        proof {
            reveal(Seq::filter);
            assert(names.take(i + 1).drop_last() =~= names.take(i as int));
            assert(names[i as int] == candidates@[i as int]@);
        }
        if list_has(present, candidates[i].as_str()) {
            out.push(candidates[i].clone());
            assert(texts(out@) =~= texts(before).push(names[i as int]));
        }
        i += 1;
    }
    assert(names.take(i as int) =~= names);
    let ghost head = names.filter(fixed);
    let mut j: usize = 0;
    proof {
        reveal(Seq::filter);
        assert(head + files.take(0).filter(wanted) =~= head);
    }
    while j < listed.len()
        invariant
            j <= listed@.len(),
            files == texts(listed@),
            wanted == (|n: Seq<char>| is_requirements(n)),
            texts(out@) == head + files.take(j as int).filter(wanted),
        decreases listed@.len() - j,
    {
        let ghost before = out@;
        proof {
            reveal(Seq::filter);
            assert(files.take(j + 1).drop_last() =~= files.take(j as int));
            assert(files[j as int] == listed@[j as int]@);
        }
        if has_prefix(listed[j].as_str(), "requirements") && has_suffix(
            listed[j].as_str(),
            ".txt",
        ) {
            out.push(listed[j].clone());
            assert(texts(out@) =~= texts(before).push(files[j as int]));
            assert(texts(out@) =~= head + files.take(j + 1).filter(wanted));
        }
        j += 1;
    }
    assert(files.take(j as int) =~= files);
    sorted(out.as_slice())
}

/// A file that pins dependencies, with its contents if they can be read.
#[derive(Debug)]
pub struct Lockfile {
    pub name: String,
    pub contents: Option<Vec<u8>>,
}

/// What a `Lockfile` holds.
pub struct LockfileModel {
    pub name: Seq<char>,
    pub contents: Option<Seq<u8>>,
}

impl View for Lockfile {
    type V = LockfileModel;

    open spec fn view(&self) -> LockfileModel {
        LockfileModel {
            name: self.name@,
            contents: match self.contents {
                Some(bytes) => Some(bytes@),
                None => None,
            },
        }
    }
}

/// What a list of files holds.
pub open spec fn lockfile_models(files: Seq<Lockfile>) -> Seq<LockfileModel> {
    files.map_values(|f: Lockfile| f@)
}

/// The byte number `i` of `n`, the lowest first.
pub open spec fn byte_of(n: nat, i: nat) -> u8
    decreases i,
{
    if i == 0 {
        (n % 256) as u8
    } else {
        byte_of(n / 256, (i - 1) as nat)
    }
}

/// A length as eight bytes, the lowest first.
pub open spec fn length_bytes(n: nat) -> Seq<u8> {
    Seq::new(8, |i: int| byte_of(n, i as nat))
}

/// What is hashed of a text: its UTF-8 bytes and a byte that ends them.
pub open spec fn text_chunks(s: Seq<char>) -> Seq<Seq<u8>> {
    seq![encode_utf8(s), seq![0xffu8]]
}

/// What is hashed of a file: its name and, if they can be read, the length and
/// the bytes of its contents.
pub open spec fn file_chunks(file: LockfileModel) -> Seq<Seq<u8>> {
    match file.contents {
        Some(bytes) => text_chunks(file.name) + seq![length_bytes(bytes.len()), bytes],
        None => text_chunks(file.name),
    }
}

/// Everything that is hashed, write by write.
pub open spec fn key_chunks(files: Seq<LockfileModel>) -> Seq<Seq<u8>> {
    text_chunks("forge-cache-key-v1"@) + concatenated(
        files.map_values(|f: LockfileModel| file_chunks(f)),
    )
}

/// The key under which the dependencies that `files` pin are cached.
pub open spec fn cache_key(files: Seq<LockfileModel>) -> Seq<char> {
    if files.len() == 0 {
        "default"@
    } else {
        hex_digits(DefaultHasher::spec_finish(key_chunks(files)) as nat, 16)
    }
}

/// A length as eight bytes, the lowest first.
fn length_to_bytes(n: usize) -> (r: Vec<u8>)
    ensures
        r@ == length_bytes(n as nat),
{
    let mut r: Vec<u8> = Vec::new();
    let mut rest: u64 = n as u64;
    let mut i: usize = 0;
    while i < 8
        invariant
            i <= 8,
            r@.len() == i,
            forall|k: int| 0 <= k < i ==> r@[k] == byte_of(n as nat, k as nat),
            forall|k: nat| #[trigger] byte_of(rest as nat, k) == byte_of(n as nat, (k + i) as nat),
        decreases 8 - i,
    {
        assert(byte_of(rest as nat, 0) == byte_of(n as nat, i as nat));
        r.push((rest % 256) as u8);
        let ghost before = rest as nat;
        rest = rest / 256;
        assert forall|k: nat| #[trigger] byte_of(rest as nat, k) == byte_of(
            n as nat,
            (k + (i + 1)) as nat,
        ) by {
            assert(byte_of(before, k + 1) == byte_of(rest as nat, k));
            assert(byte_of(before, k + 1) == byte_of(n as nat, ((k + 1) + i) as nat));
        }
        i += 1;
    }
    assert(r@ =~= length_bytes(n as nat));
    r
}

/// Hashes a text.
fn hash_text(hasher: &mut DefaultHasher, s: &str)
    ensures
        final(hasher)@ == old(hasher)@ + text_chunks(s@),
{
    let end: [u8; 1] = [0xff];
    hasher.write(s.as_bytes());
    hasher.write(end.as_slice());
    assert(end@ =~= seq![0xffu8]);
    assert(hasher@ =~= old(hasher)@ + text_chunks(s@));
}

/// Hashes a file.
fn hash_file(hasher: &mut DefaultHasher, file: &Lockfile)
    ensures
        final(hasher)@ == old(hasher)@ + file_chunks(file@),
{
    hash_text(hasher, file.name.as_str());
    if let Some(bytes) = &file.contents {
        let ghost before = hasher@;
        hasher.write(length_to_bytes(bytes.len()).as_slice());
        hasher.write(bytes.as_slice());
        assert(hasher@ =~= before + seq![length_bytes(bytes@.len()), bytes@]);
        assert(hasher@ =~= old(hasher)@ + file_chunks(file@));
    }
}

/// The key under which the dependencies that `files` pin are cached.
pub fn compute_cache_key(files: &[Lockfile]) -> (r: String)
    ensures
        r@ == cache_key(lockfile_models(files@)),
{
    if files.len() == 0 {
        return "default".to_string();
    }
    let ghost parts = lockfile_models(files@).map_values(|f: LockfileModel| file_chunks(f));
    let ghost head = text_chunks("forge-cache-key-v1"@);
    let mut hasher = DefaultHasher::new();
    hash_text(&mut hasher, "forge-cache-key-v1");
    let mut i: usize = 0;
    assert(hasher@ =~= head + concatenated(parts.take(0)));
    while i < files.len()
        invariant
            i <= files@.len(),
            parts == lockfile_models(files@).map_values(|f: LockfileModel| file_chunks(f)),
            hasher@ == head + concatenated(parts.take(i as int)),
        decreases files@.len() - i,
    {
        proof {
            lemma_concatenated_step(parts, i as int);
            assert(lockfile_models(files@)[i as int] == files@[i as int]@);
        }
        let ghost before = concatenated(parts.take(i as int));
        hash_file(&mut hasher, &files[i]);
        i += 1;
        assert(hasher@ =~= head + (before + parts[i - 1]));
    }
    assert(parts.take(i as int) =~= parts);
    hex_text(hasher.finish(), 16)
}

// ---------------------------------------------------------------------------
// Laws
// ---------------------------------------------------------------------------
/// The line that excludes the runner's directory does so.
proof fn lemma_exclusion_line()
    ensures
        pieces(".forge/\n"@, '\n').len() == 2,
        excludes_forge(pieces(".forge/\n"@, '\n')[0]),
{
    reveal_strlit(".forge/\n");
    reveal_strlit(".forge/");
    let line = ".forge/"@;
    let none = Seq::<char>::empty();
    assert(".forge/\n"@ =~= line.push('\n') + none);
    lemma_pieces_joined(line, none, '\n');
    lemma_one_piece(line, '\n');
    assert(trim_start(line) == line);
    assert(trim_end(line) == line);
}

/// Once the runner's directory has been excluded, it is excluded: doing it a
/// second time appends nothing.
pub proof fn law_exclusion_is_done_once(existing: Seq<char>)
    ensures
        is_excluded(existing + exclusion(existing)),
{
    lemma_exclusion_line();
    let line = ".forge/\n"@;
    let after = existing + exclusion(existing);
    reveal_strlit("\n");
    if existing.len() == 0 {
        assert(after =~= line);
        assert(excludes_forge(pieces(after, '\n')[0]));
    } else {
        let head = if finishes_with(existing, "\n"@) {
            existing.drop_last()
        } else {
            existing
        };
        if finishes_with(existing, "\n"@) {
            assert(existing.skip(existing.len() - 1)[0] == '\n');
            assert(existing.last() == '\n');
            assert(after =~= head.push('\n') + line);
        } else {
            assert("\n.forge/\n"@ =~= seq!['\n'] + line) by {
                reveal_strlit("\n.forge/\n");
                reveal_strlit(".forge/\n");
            }
            assert(after =~= head.push('\n') + line);
        }
        lemma_pieces_joined(head, line, '\n');
        let at = pieces(head, '\n').len() as int;
        assert(pieces(after, '\n')[at] == pieces(line, '\n')[0]);
        assert(excludes_forge(pieces(after, '\n')[at]));
    }
}

/// What is hashed pins down the files: as long as their contents can be read,
/// other names or other contents are hashed differently.
pub proof fn law_hashed_data_pins_the_files(a: Seq<LockfileModel>, b: Seq<LockfileModel>)
    requires
        forall|i: int| 0 <= i < a.len() ==> (#[trigger] a[i]).contents is Some,
        forall|i: int| 0 <= i < b.len() ==> (#[trigger] b[i]).contents is Some,
        key_chunks(a) == key_chunks(b),
    ensures
        a == b,
    decreases a.len(),
{
    let head = text_chunks("forge-cache-key-v1"@);
    let pa = a.map_values(|f: LockfileModel| file_chunks(f));
    let pb = b.map_values(|f: LockfileModel| file_chunks(f));
    lemma_chunk_count(a);
    lemma_chunk_count(b);
    assert(key_chunks(a).len() == 2 + 4 * a.len());
    assert(key_chunks(b).len() == 2 + 4 * b.len());
    assert(concatenated(pa) =~= key_chunks(a).skip(2));
    assert(concatenated(pb) =~= key_chunks(b).skip(2));
    if a.len() > 0 {
        let (a0, b0) = (a.drop_last(), b.drop_last());
        lemma_chunk_count(a0);
        lemma_chunk_count(b0);
        assert(pa.drop_last() =~= a0.map_values(|f: LockfileModel| file_chunks(f)));
        assert(pb.drop_last() =~= b0.map_values(|f: LockfileModel| file_chunks(f)));
        let n: int = 4 * a0.len() as int;
        assert(key_chunks(a0) =~= key_chunks(a).take(2 + n));
        assert(key_chunks(b0) =~= key_chunks(b).take(2 + n));
        law_hashed_data_pins_the_files(a0, b0);
        let (x, y) = (a.last(), b.last());
        assert(file_chunks(x)[0] == key_chunks(a)[2 + n]);
        assert(file_chunks(y)[0] == key_chunks(b)[2 + n]);
        assert(file_chunks(x)[3] == key_chunks(a)[2 + n + 3]);
        assert(file_chunks(y)[3] == key_chunks(b)[2 + n + 3]);
        encode_utf8_decode_utf8(x.name);
        encode_utf8_decode_utf8(y.name);
        assert(a =~= a0.push(x));
        assert(b =~= b0.push(y));
    } else {
        assert(a =~= b);
    }
}

/// Each readable file is hashed in four writes.
proof fn lemma_chunk_count(files: Seq<LockfileModel>)
    requires
        forall|i: int| 0 <= i < files.len() ==> (#[trigger] files[i]).contents is Some,
    ensures
        concatenated(files.map_values(|f: LockfileModel| file_chunks(f))).len() == 4 * files.len(),
    decreases files.len(),
{
    let parts = files.map_values(|f: LockfileModel| file_chunks(f));
    if files.len() > 0 {
        lemma_chunk_count(files.drop_last());
        assert(parts.drop_last() =~= files.drop_last().map_values(
            |f: LockfileModel| file_chunks(f),
        ));
        assert(files.last() == files[files.len() - 1]);
        assert(parts.last().len() == 4);
    }
}

/// Whether the bytes that are hashed for the cache, write by write, hold the
/// files: for each file in turn its name and a byte that ends it, and then, if
/// the file can be read, the number of its bytes and all of its bytes.
pub open spec fn holds_the_files(
    written: Seq<Seq<u8>>,
    files: Seq<LockfileModel>,
    starts: Seq<int>,
) -> bool {
    &&& starts.len() == files.len() + 1
    &&& starts[0] == 2
    &&& starts[files.len() as int] == written.len()
    &&& forall|k: int|
        #![trigger files[k]]
        0 <= k < files.len() ==> {
            &&& written[starts[k]] == encode_utf8(files[k].name)
            &&& written[starts[k] + 1] == seq![0xffu8]
            &&& files[k].contents matches Some(bytes) ==> {
                &&& starts[k + 1] == starts[k] + 4
                &&& written[starts[k] + 2] == length_bytes(bytes.len())
                &&& written[starts[k] + 3] == bytes
            }
            &&& files[k].contents is None ==> starts[k + 1] == starts[k] + 2
        }
}

/// The key is the hash of the files themselves: what is hashed holds the name and
/// the whole contents of every file, one file after the other, and nothing else
/// but a fixed beginning. Without files the key is fixed.
pub proof fn law_the_key_is_of_the_whole_files(files: Seq<LockfileModel>) -> (r: (
    Seq<Seq<u8>>,
    Seq<int>,
))
    ensures
        files.len() == 0 ==> cache_key(files) == "default"@,
        files.len() > 0 ==> cache_key(files) == hex_digits(
            DefaultHasher::spec_finish(r.0) as nat,
            16,
        ),
        holds_the_files(r.0, files, r.1),
        r.0[0] == encode_utf8("forge-cache-key-v1"@),
        r.0[1] == seq![0xffu8],
{
    (key_chunks(files), lemma_what_is_hashed(files))
}

/// What is hashed holds the files.
#[verifier::spinoff_prover]
proof fn lemma_what_is_hashed(files: Seq<LockfileModel>) -> (starts: Seq<int>)
    ensures
        holds_the_files(key_chunks(files), files, starts),
        key_chunks(files).len() >= 2,
        key_chunks(files)[0] == encode_utf8("forge-cache-key-v1"@),
        key_chunks(files)[1] == seq![0xffu8],
    decreases files.len(),
{
    let parts = files.map_values(|f: LockfileModel| file_chunks(f));
    let head = text_chunks("forge-cache-key-v1"@);
    let written = key_chunks(files);
    if files.len() == 0 {
        assert(parts =~= Seq::<Seq<Seq<u8>>>::empty());
        assert(written =~= head);
        seq![2int]
    } else {
        let starts = lemma_what_is_hashed(files.drop_last());
        let earlier = key_chunks(files.drop_last());
        let from = starts.last();
        assert(parts.drop_last() =~= files.drop_last().map_values(
            |f: LockfileModel| file_chunks(f),
        ));
        assert(written =~= earlier + file_chunks(files.last()));
        let all = starts.push(from + file_chunks(files.last()).len());
        assert forall|k: int| #![trigger files[k]] 0 <= k < files.len() implies {
            &&& written[all[k]] == encode_utf8(files[k].name)
            &&& written[all[k] + 1] == seq![0xffu8]
            &&& files[k].contents matches Some(bytes) ==> {
                &&& all[k + 1] == all[k] + 4
                &&& written[all[k] + 2] == length_bytes(bytes.len())
                &&& written[all[k] + 3] == bytes
            }
            &&& files[k].contents is None ==> all[k + 1] == all[k] + 2
        } by {
            if k < files.len() - 1 {
                assert(files.drop_last()[k] == files[k]);
                lemma_starts(earlier, files.drop_last(), starts, k);
            } else {
                assert(all[k] == earlier.len());
                assert(forall|i: int|
                    0 <= i < file_chunks(files.last()).len() ==> written[earlier.len() + i]
                        == #[trigger] file_chunks(files.last())[i]);
                assert(file_chunks(files.last())[0] == encode_utf8(files[k].name));
                assert(file_chunks(files.last())[1] == seq![0xffu8]);
                if let Some(bytes) = files[k].contents {
                    assert(file_chunks(files.last())[2] == length_bytes(bytes.len()));
                    assert(file_chunks(files.last())[3] == bytes);
                }
            }
        }
        assert(written[0] == earlier[0] && written[1] == earlier[1]);
        all
    }
}

/// The places of a file lie within what is hashed.
proof fn lemma_starts(
    written: Seq<Seq<u8>>,
    files: Seq<LockfileModel>,
    starts: Seq<int>,
    k: int,
)
    requires
        holds_the_files(written, files, starts),
        0 <= k < files.len(),
    ensures
        2 <= starts[k],
        starts[k + 1] <= written.len(),
{
    lemma_starts_grow(written, files, starts, 0, k);
    lemma_starts_grow(written, files, starts, k + 1, files.len() as int);
}

/// Later files stand later.
proof fn lemma_starts_grow(
    written: Seq<Seq<u8>>,
    files: Seq<LockfileModel>,
    starts: Seq<int>,
    i: int,
    j: int,
)
    requires
        holds_the_files(written, files, starts),
        0 <= i <= j <= files.len(),
    ensures
        starts[i] <= starts[j],
    decreases j - i,
{
    if i < j {
        lemma_starts_grow(written, files, starts, i, j - 1);
        assert(files[j - 1].contents is Some || files[j - 1].contents is None);
    }
}

/// Other files are hashed from other bytes: two lists of files whose keys are the
/// hashes of the same bytes are the same files, as long as they can be read.
pub proof fn law_other_files_are_hashed_from_other_bytes(
    a: Seq<LockfileModel>,
    b: Seq<LockfileModel>,
    written: Seq<Seq<u8>>,
    starts_a: Seq<int>,
    starts_b: Seq<int>,
)
    requires
        holds_the_files(written, a, starts_a),
        holds_the_files(written, b, starts_b),
        forall|i: int| 0 <= i < a.len() ==> (#[trigger] a[i]).contents is Some,
        forall|i: int| 0 <= i < b.len() ==> (#[trigger] b[i]).contents is Some,
    ensures
        a == b,
{
    lemma_readable_starts(written, a, starts_a, a.len() as int);
    lemma_readable_starts(written, b, starts_b, b.len() as int);
    assert(a.len() == b.len());
    assert forall|k: int| 0 <= k < a.len() implies a[k] == b[k] by {
        lemma_readable_starts(written, a, starts_a, k);
        lemma_readable_starts(written, b, starts_b, k);
        assert(a[k].contents is Some && b[k].contents is Some);
        encode_utf8_decode_utf8(a[k].name);
        encode_utf8_decode_utf8(b[k].name);
    }
    assert(a =~= b);
}

/// Each readable file takes four writes.
proof fn lemma_readable_starts(
    written: Seq<Seq<u8>>,
    files: Seq<LockfileModel>,
    starts: Seq<int>,
    k: int,
)
    requires
        holds_the_files(written, files, starts),
        forall|i: int| 0 <= i < files.len() ==> (#[trigger] files[i]).contents is Some,
        0 <= k <= files.len(),
    ensures
        starts[k] == 2 + 4 * k,
    decreases k,
{
    if k > 0 {
        lemma_readable_starts(written, files, starts, k - 1);
        assert(files[k - 1].contents is Some);
    }
}

/// Different hashes have different keys, and every key has sixteen digits.
pub proof fn law_the_key_tells_the_hash(a: u64, b: u64)
    ensures
        hex_digits(a as nat, 16).len() == 16,
        hex_digits(a as nat, 16) == hex_digits(b as nat, 16) ==> a == b,
{
    lemma_hex_digits_differ(a as nat, b as nat, 16);
    assert(hex_range(16) == 0x1_0000_0000_0000_0000) by {
        reveal_with_fuel(hex_range, 17);
    }
}

/// A file counts if and only if it is one of the known lock files and there, or a
/// list of requirements among the files of the workspace. The files come in the
/// order of their names, each once if it is listed once.
#[verifier::spinoff_prover]
pub proof fn law_which_files_count(
    present: Seq<Seq<char>>,
    listed: Seq<Seq<char>>,
    name: Seq<char>,
)
    ensures
        lockfiles(present, listed).contains(name) <==> {
            ||| present.contains(name) && (name == "Cargo.lock"@ || name == "package-lock.json"@
                || name == "pnpm-lock.yaml"@ || name == "yarn.lock"@ || name == "go.sum"@ || name
                == "poetry.lock"@ || name == "Pipfile.lock"@ || name == "composer.lock"@ || name
                == "Gemfile.lock"@ || name == "uv.lock"@)
            ||| listed.contains(name) && name.len() >= 12 && name.len() >= 4 && name.take(12)
                == "requirements"@ && name.skip(name.len() - 4) == ".txt"@
        },
        forall|i: int, j: int|
            0 <= i <= j < lockfiles(present, listed).len() ==> lex_le(
                #[trigger] lockfiles(present, listed)[i],
                #[trigger] lockfiles(present, listed)[j],
            ),
        listed.no_duplicates() ==> lockfiles(present, listed).no_duplicates(),
{
    let fixed = |n: Seq<char>| present.contains(n);
    let wanted = |n: Seq<char>| is_requirements(n);
    let names = lockfile_names();
    let (a, b) = (names.filter(fixed), listed.filter(wanted));
    lemma_filter_keeps(names, fixed);
    lemma_filter_keeps(listed, wanted);
    law_sorting(a + b);
    if listed.no_duplicates() {
        lemma_lockfile_names();
        assert forall|i: int, j: int| 0 <= i < a.len() && 0 <= j < b.len() implies a[i] != b[j] by {
            assert(a.contains(a[i]));
            assert(b.contains(b[j]));
        }
    }
    reveal_strlit("requirements");
    reveal_strlit(".txt");
    assert((a + b).contains(name) <==> a.contains(name) || b.contains(name)) by {
        if a.contains(name) {
            let i = choose|i: int| 0 <= i < a.len() && a[i] == name;
            assert((a + b)[i] == name);
        }
        if b.contains(name) {
            let i = choose|i: int| 0 <= i < b.len() && b[i] == name;
            assert((a + b)[a.len() + i] == name);
        }
        if (a + b).contains(name) {
            let i = choose|i: int| 0 <= i < (a + b).len() && (a + b)[i] == name;
            if i < a.len() {
                assert(a[i] == name);
            } else {
                assert(b[i - a.len()] == name);
            }
        }
    }
    assert(names.contains(name) <==> (name == "Cargo.lock"@ || name == "package-lock.json"@ || name
        == "pnpm-lock.yaml"@ || name == "yarn.lock"@ || name == "go.sum"@ || name
        == "poetry.lock"@ || name == "Pipfile.lock"@ || name == "composer.lock"@ || name
        == "Gemfile.lock"@ || name == "uv.lock"@)) by {
        assert(names[0] == "Cargo.lock"@);
        assert(names[1] == "package-lock.json"@);
        assert(names[2] == "pnpm-lock.yaml"@);
        assert(names[3] == "yarn.lock"@);
        assert(names[4] == "go.sum"@);
        assert(names[5] == "poetry.lock"@);
        assert(names[6] == "Pipfile.lock"@);
        assert(names[7] == "composer.lock"@);
        assert(names[8] == "Gemfile.lock"@);
        assert(names[9] == "uv.lock"@);
    }
}

/// Excluding the runner's directory adds one line and keeps the others: the lines
/// that were there, then the exclusion.
#[verifier::spinoff_prover]
pub proof fn law_exclusion_adds_one_line(existing: Seq<char>)
    ensures
        ({
            let after = pieces(existing + exclusion(existing), '\n');
            let before = if existing.len() == 0 || existing.last() == '\n' {
                pieces(existing, '\n').drop_last()
            } else {
                pieces(existing, '\n')
            };
            after == before + seq![".forge/"@, ""@]
        }),
{
    reveal_strlit(".forge/\n");
    reveal_strlit("\n.forge/\n");
    reveal_strlit(".forge/");
    reveal_strlit("\n");
    reveal_strlit("");
    let none = Seq::<char>::empty();
    let line = ".forge/"@;
    assert(""@ =~= none);
    assert(".forge/\n"@ =~= line.push('\n') + none);
    lemma_pieces_joined(line, none, '\n');
    lemma_one_piece(line, '\n');
    assert(pieces(".forge/\n"@, '\n') =~= seq![line, none]);
    let after = existing + exclusion(existing);
    if existing.len() == 0 {
        assert(after =~= ".forge/\n"@);
        assert(pieces(existing, '\n').drop_last() + seq![line, none] =~= seq![line, none]);
    } else {
        assert(finishes_with(existing, "\n"@) <==> existing.last() == '\n') by {
            let end = existing.skip(existing.len() - 1);
            assert(end[0] == existing.last());
            if existing.last() == '\n' {
                assert(end =~= "\n"@);
            }
        }
        if existing.last() == '\n' {
            let head = existing.drop_last();
            assert(after =~= head.push('\n') + ".forge/\n"@);
            lemma_pieces_joined(head, ".forge/\n"@, '\n');
            assert(pieces(existing, '\n').drop_last() =~= pieces(head, '\n'));
        } else {
            assert("\n.forge/\n"@ =~= seq!['\n'] + ".forge/\n"@);
            assert(after =~= existing.push('\n') + ".forge/\n"@);
            lemma_pieces_joined(existing, ".forge/\n"@, '\n');
        }
    }
}

/// The runner's directory counts as excluded if and only if a line says so, on its
/// own but for the space around it.
pub proof fn law_what_excludes(existing: Seq<char>)
    ensures
        is_excluded(existing) <==> exists|i: int|
            {
                &&& 0 <= i < pieces(existing, '\n').len()
                &&& trimmed(#[trigger] pieces(existing, '\n')[i]) == ".forge"@ || trimmed(
                    pieces(existing, '\n')[i],
                ) == ".forge/"@
            },
{
    if is_excluded(existing) {
        let i = choose|i: int|
            0 <= i < pieces(existing, '\n').len() && excludes_forge(
                #[trigger] pieces(existing, '\n')[i],
            );
        assert(excludes_forge(pieces(existing, '\n')[i]));
    }
    if exists|i: int|
        {
            &&& 0 <= i < pieces(existing, '\n').len()
            &&& trimmed(#[trigger] pieces(existing, '\n')[i]) == ".forge"@ || trimmed(
                pieces(existing, '\n')[i],
            ) == ".forge/"@
        } {
        let i = choose|i: int|
            {
                &&& 0 <= i < pieces(existing, '\n').len()
                &&& trimmed(#[trigger] pieces(existing, '\n')[i]) == ".forge"@ || trimmed(
                    pieces(existing, '\n')[i],
                ) == ".forge/"@
            };
        assert(excludes_forge(pieces(existing, '\n')[i]));
    }
}

/// The known lock files have different names, and none is a list of requirements.
#[verifier::spinoff_prover]
proof fn lemma_lockfile_names()
    ensures
        lockfile_names().no_duplicates(),
        forall|n: Seq<char>| #[trigger] lockfile_names().contains(n) ==> !is_requirements(n),
{
    reveal_strlit("Cargo.lock");
    reveal_strlit("package-lock.json");
    reveal_strlit("pnpm-lock.yaml");
    reveal_strlit("yarn.lock");
    reveal_strlit("go.sum");
    reveal_strlit("poetry.lock");
    reveal_strlit("Pipfile.lock");
    reveal_strlit("composer.lock");
    reveal_strlit("Gemfile.lock");
    reveal_strlit("uv.lock");
    reveal_strlit("requirements");
    let names = lockfile_names();
    assert forall|i: int| 0 <= i < 10 implies (#[trigger] names[i])[0] != 'r' by {}
    assert forall|i: int, j: int| 0 <= i < j < 10 implies names[i].len() != names[j].len()
        || names[i][0] != names[j][0] by {}
    assert forall|n: Seq<char>| #[trigger] names.contains(n) implies !is_requirements(n) by {
        let i = choose|i: int| 0 <= i < names.len() && names[i] == n;
        if is_requirements(n) {
            assert(n.take(12)[0] == 'r');
        }
    }
}

/// A `.git` directory is the git directory; a `.git` file names it after
/// `gitdir:`, with any space around the word and the name left out, as a path
/// that is taken from the workspace unless it is absolute.
#[verifier::spinoff_prover]
pub proof fn law_where_git_is(
    workspace_dir: Seq<char>,
    contents: String,
    before: Seq<char>,
    between: Seq<char>,
    dir: Seq<char>,
    behind: Seq<char>,
)
    requires
        blank(before),
        blank(between),
        blank(behind),
        dir.len() > 0,
        !is_space(dir[0]),
        !is_space(dir.last()),
    ensures
        git_dir(workspace_dir, DotGit::Directory) == Some(path_join(workspace_dir, ".git"@)),
        git_dir(workspace_dir, DotGit::Missing) is None,
        git_dir(workspace_dir, DotGit::File(None)) is None,
        contents@ == before + "gitdir:"@ + between + dir + behind ==> git_dir(
            workspace_dir,
            DotGit::File(Some(contents)),
        ) == Some(path_join(workspace_dir, dir)),
        !begins_with(trimmed(contents@), "gitdir:"@) ==> git_dir(
            workspace_dir,
            DotGit::File(Some(contents)),
        ) is None,
{
    if contents@ == before + "gitdir:"@ + between + dir + behind {
        reveal_strlit("gitdir:");
        let line = "gitdir:"@ + between + dir;
        assert(contents@ =~= before + line + behind);
        assert(line.last() == dir.last());
        lemma_trimmed_is(contents@, before, line, behind);
        assert(line.take(7) =~= "gitdir:"@);
        let rest = line.skip(7);
        let none = Seq::<char>::empty();
        assert(rest =~= between + dir + none);
        lemma_trimmed_is(rest, between, dir, none);
    }
}

/// What is known of a lock file is all of it: its name and, if it can be read, every
/// byte of its contents.
pub proof fn law_model_of_lockfiles(files: Seq<Lockfile>, i: int)
    requires
        0 <= i < files.len(),
    ensures
        lockfile_models(files).len() == files.len(),
        lockfile_models(files)[i].name == files[i].name@,
        files[i].contents matches Some(bytes) ==> lockfile_models(files)[i].contents == Some(
            bytes@,
        ),
        files[i].contents is None ==> lockfile_models(files)[i].contents is None,
{
}

/// Different lengths are written differently.
pub proof fn law_lengths_are_told_apart(a: nat, b: nat)
    requires
        a < 0x1_0000_0000_0000_0000,
        b < 0x1_0000_0000_0000_0000,
        length_bytes(a) == length_bytes(b),
    ensures
        a == b,
{
    assert forall|i: nat| i < 8 implies #[trigger] byte_of(a, i) == byte_of(b, i) by {
        let at = i as int;
        assert(length_bytes(a)[at] == byte_of(a, at as nat));
        assert(length_bytes(b)[at] == byte_of(b, at as nat));
    }
    assert(byte_range(8) == 0x1_0000_0000_0000_0000) by {
        reveal_with_fuel(byte_range, 9);
    }
    lemma_bytes_differ(a, b, 8);
}

/// How many numbers `k` bytes can tell apart.
pub open spec fn byte_range(k: nat) -> nat
    decreases k,
{
    if k == 0 {
        1
    } else {
        256 * byte_range((k - 1) as nat)
    }
}

/// Numbers with the same bytes are the same.
proof fn lemma_bytes_differ(a: nat, b: nat, k: nat)
    requires
        a < byte_range(k),
        b < byte_range(k),
        forall|i: nat| i < k ==> #[trigger] byte_of(a, i) == byte_of(b, i),
    ensures
        a == b,
    decreases k,
{
    if k > 0 {
        let j = (k - 1) as nat;
        assert(byte_of(a, 0) == byte_of(b, 0));
        assert forall|i: nat| i < j implies #[trigger] byte_of(a / 256, i) == byte_of(
            b / 256,
            i,
        ) by {
            assert(byte_of(a, i + 1) == byte_of(b, i + 1));
        }
        lemma_bytes_differ(a / 256, b / 256, j);
    }
}

} // verus!
