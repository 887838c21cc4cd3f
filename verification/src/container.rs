//! What a container is given: its command, environment, mounts and name, and
//! what the runner says about it beforehand.

use crate::config::{CacheConfig, Step, StepModel};
use crate::env::{
    distinct, lemma_position, lemma_position_is, lemma_with_vars, position, value_of, with_vars,
    EnvMap, Vars,
};
use crate::ident::{fresh_name, is_uuid_text};
use crate::order::{law_sorting, sorted, sorted_texts};
use crate::paint::{lemma_prints_push, out_text_line, print_text, prints, Paint, Print, PrintModel};
use crate::text::{flattened, texts};
use vstd::prelude::*;
use vstd::string::*;

verus! {

// ---------------------------------------------------------------------------
// Command
// ---------------------------------------------------------------------------
/// Whether directories are kept between runs.
pub open spec fn cache_in_use(cache: CacheConfig) -> bool {
    cache.enabled && cache.directories@.len() > 0
}

/// Whether directories are kept between runs.
pub fn is_cache_in_use(cache: &CacheConfig) -> (r: bool)
    ensures
        r == cache_in_use(*cache),
{
    cache.enabled && cache.directories.len() > 0
}

/// The commands that restore the directory `dir` from the cache.
pub open spec fn restore_script(dir: Seq<char>) -> Seq<char> {
    "mkdir -p /forge-cache"@ + dir + "\nmkdir -p "@ + dir + "\nif [ -d /forge-cache"@ + dir
        + " ] && [ \"$(ls -A /forge-cache"@ + dir + ")\" ]; then cp -a /forge-cache"@ + dir
        + "/. "@ + dir + "/ 2>/dev/null || true; fi\n"@
}

/// The commands that save the directory `dir` to the cache.
pub open spec fn save_script(dir: Seq<char>) -> Seq<char> {
    "mkdir -p /forge-cache"@ + dir + "\nif [ -d "@ + dir + " ] && [ \"$(ls -A "@ + dir
        + ")\" ]; then cp -a "@ + dir + "/. /forge-cache"@ + dir
        + "/ 2>/dev/null || true; fi\n"@
}

/// The command of a step together with the handling of the cache: first every
/// directory is restored, then the command runs, then every directory is saved.
/// The status of the command is kept as soon as it has ended, and the script
/// ends with it.
pub open spec fn command_with_cache(command: Seq<char>, cache: CacheConfig) -> Seq<char> {
    if cache_in_use(cache) {
        let dirs = texts(cache.directories@);
        "#!/bin/sh\n\n# Cache setup\n"@ + flattened(dirs.map_values(|d: Seq<char>| restore_script(d)))
            + "\n# Main command\n"@ + command + "\nstatus=$?\n\n# Cache teardown\n"@ + flattened(
            dirs.map_values(|d: Seq<char>| save_script(d)),
        ) + "\n\n# Exit with the status of the main command\nexit $status"@
    } else {
        command
    }
}

/// The commands that restore `dir`.
fn restore_text(dir: &str) -> (r: String)
    ensures
        r@ == restore_script(dir@),
{
    "mkdir -p /forge-cache".to_string().concat(dir).concat("\nmkdir -p ").concat(dir).concat(
        "\nif [ -d /forge-cache",
    ).concat(dir).concat(" ] && [ \"$(ls -A /forge-cache").concat(dir).concat(
        ")\" ]; then cp -a /forge-cache",
    ).concat(dir).concat("/. ").concat(dir).concat("/ 2>/dev/null || true; fi\n")
}

/// The commands that save `dir`.
fn save_text(dir: &str) -> (r: String)
    ensures
        r@ == save_script(dir@),
{
    "mkdir -p /forge-cache".to_string().concat(dir).concat("\nif [ -d ").concat(dir).concat(
        " ] && [ \"$(ls -A ",
    ).concat(dir).concat(")\" ]; then cp -a ").concat(dir).concat("/. /forge-cache").concat(
        dir,
    ).concat("/ 2>/dev/null || true; fi\n")
}

/// The script that runs `base_command` and keeps the cached directories.
pub fn build_command_with_cache(base_command: &str, cache_config: &CacheConfig) -> (r: String)
    ensures
        r@ == command_with_cache(base_command@, *cache_config),
{
    if !is_cache_in_use(cache_config) {
        return base_command.to_string();
    }
    let ghost dirs = texts(cache_config.directories@);
    let ghost restores = dirs.map_values(|d: Seq<char>| restore_script(d));
    let ghost saves = dirs.map_values(|d: Seq<char>| save_script(d));
    let mut setup = String::new();
    let mut teardown = String::new();
    let mut i: usize = 0;
    assert(setup@ =~= flattened(restores.take(0)));
    assert(teardown@ =~= flattened(saves.take(0)));
    while i < cache_config.directories.len()
        invariant
            i <= cache_config.directories@.len(),
            dirs == texts(cache_config.directories@),
            restores == dirs.map_values(|d: Seq<char>| restore_script(d)),
            saves == dirs.map_values(|d: Seq<char>| save_script(d)),
            setup@ == flattened(restores.take(i as int)),
            teardown@ == flattened(saves.take(i as int)),
        decreases cache_config.directories@.len() - i,
    {
        let dir = cache_config.directories[i].as_str();
        setup.append(restore_text(dir).as_str());
        teardown.append(save_text(dir).as_str());
        i += 1;
        assert(restores.take(i as int).drop_last() =~= restores.take(i - 1));
        assert(saves.take(i as int).drop_last() =~= saves.take(i - 1));
    }
    assert(restores.take(i as int) =~= restores);
    assert(saves.take(i as int) =~= saves);
    "#!/bin/sh\n\n# Cache setup\n".to_string().concat(setup.as_str()).concat(
        "\n# Main command\n",
    ).concat(base_command).concat("\nstatus=$?\n\n# Cache teardown\n").concat(
        teardown.as_str(),
    ).concat("\n\n# Exit with the status of the main command\nexit $status")
}

// ---------------------------------------------------------------------------
// Environment
// ---------------------------------------------------------------------------
/// The variables of a step's container: those of the step, then the secrets. A
/// secret replaces a variable of its name.
pub open spec fn container_env(step: StepModel, secrets: Vars) -> Vars {
    with_vars(step.env, secrets)
}

/// The variables as `NAME=value`.
pub open spec fn env_list(vars: Vars) -> Seq<Seq<char>> {
    vars.map_values(|v: (Seq<char>, Seq<char>)| v.0 + "="@ + v.1)
}

/// The names of variables.
pub open spec fn names_of(vars: Vars) -> Seq<Seq<char>> {
    vars.map_values(|v: (Seq<char>, Seq<char>)| v.0)
}

/// The variables of a step's container.
fn merged_env(step: &Step, secrets: &EnvMap) -> (r: EnvMap)
    ensures
        r@ == container_env(step@, secrets@),
{
    let mut env = step.env.clone();
    env.extend(secrets);
    env
}

/// The variables as `NAME=value`.
fn env_entries(env: &EnvMap) -> (r: Vec<String>)
    ensures
        texts(r@) == env_list(env@),
{
    let mut r: Vec<String> = Vec::new();
    let n: usize = env.len();
    let mut i: usize = 0;
    assert(texts(r@) =~= env_list(env@).take(0));
    while i < n
        invariant
            i <= n,
            n == env@.len(),
            texts(r@) == env_list(env@).take(i as int),
        decreases n - i,
    {
        let ghost before = texts(r@);
        r.push(env.name(i).clone().concat("=").concat(env.value(i).as_str()));
        i += 1;
        assert(texts(r@) =~= before.push(env_list(env@)[i - 1]));
        assert(texts(r@) =~= env_list(env@).take(i as int));
    }
    assert(texts(r@) =~= env_list(env@));
    r
}

/// The names of the variables.
fn env_names(env: &EnvMap) -> (r: Vec<String>)
    ensures
        texts(r@) == names_of(env@),
{
    let mut r: Vec<String> = Vec::new();
    let n: usize = env.len();
    let mut i: usize = 0;
    assert(texts(r@) =~= names_of(env@).take(0));
    while i < n
        invariant
            i <= n,
            n == env@.len(),
            texts(r@) == names_of(env@).take(i as int),
        decreases n - i,
    {
        let ghost before = texts(r@);
        r.push(env.name(i).clone());
        i += 1;
        assert(texts(r@) =~= before.push(names_of(env@)[i - 1]));
        assert(texts(r@) =~= names_of(env@).take(i as int));
    }
    assert(texts(r@) =~= names_of(env@));
    r
}

// ---------------------------------------------------------------------------
// Setup
// ---------------------------------------------------------------------------
/// A host directory that a container sees.
#[derive(Debug, Clone)]
pub struct Mount {
    /// Path inside the container
    pub target: String,
    /// Path on the host
    pub source: String,
}

/// What a list of mounts holds: target and source of each.
pub open spec fn mount_list(mounts: Seq<Mount>) -> Seq<(Seq<char>, Seq<char>)> {
    mounts.map_values(|m: Mount| (m.target@, m.source@))
}

/// The configuration of a container.
#[derive(Debug, Clone)]
pub struct ContainerConfig {
    pub image: String,
    pub cmd: Vec<String>,
    pub env: Vec<String>,
    pub working_dir: String,
    pub mounts: Vec<Mount>,
    pub auto_remove: bool,
}

/// What a `ContainerConfig` holds.
pub struct ContainerModel {
    pub image: Seq<char>,
    pub cmd: Seq<Seq<char>>,
    pub env: Seq<Seq<char>>,
    pub working_dir: Seq<char>,
    pub mounts: Seq<(Seq<char>, Seq<char>)>,
    pub auto_remove: bool,
}

impl View for ContainerConfig {
    type V = ContainerModel;

    open spec fn view(&self) -> ContainerModel {
        ContainerModel {
            image: self.image@,
            cmd: texts(self.cmd@),
            env: texts(self.env@),
            working_dir: self.working_dir@,
            mounts: mount_list(self.mounts@),
            auto_remove: self.auto_remove,
        }
    }
}

/// A container that is ready to be created.
#[derive(Debug, Clone)]
pub struct ContainerSetup {
    pub name: String,
    pub config: ContainerConfig,
    pub image: String,
    pub step_name: String,
}

/// The directories and secrets of a run.
pub struct ContainerRuntimeContext<'a> {
    pub workspace_dir: &'a str,
    pub cache_dir: &'a str,
    pub secrets_env: &'a EnvMap,
}

/// The image of a step.
pub open spec fn image_of(step: StepModel) -> Seq<char> {
    if step.image.len() == 0 {
        "alpine:latest"@
    } else {
        step.image
    }
}

/// The name under which a step is announced.
pub open spec fn label_of(step: StepModel) -> Seq<char> {
    if step.name.len() == 0 {
        "unnamed step"@
    } else {
        step.name
    }
}

/// The configuration of a step's container.
pub open spec fn container_for(
    step: StepModel,
    cache: CacheConfig,
    temp_dir: Seq<char>,
    ctx: ContainerRuntimeContext,
) -> ContainerModel {
    let shared = seq![("/forge-shared"@, temp_dir), ("/workspace"@, ctx.workspace_dir@)];
    ContainerModel {
        image: image_of(step),
        cmd: seq!["/bin/sh"@, "-c"@, command_with_cache(step.command, cache)],
        env: env_list(container_env(step, ctx.secrets_env@)),
        working_dir: if step.working_dir.len() == 0 {
            "/workspace"@
        } else {
            step.working_dir
        },
        mounts: if cache_in_use(cache) {
            shared.push(("/forge-cache"@, ctx.cache_dir@))
        } else {
            shared
        },
        auto_remove: false,
    }
}

/// The text `s`, or `other` if it is empty.
fn or_default(s: &String, other: &str) -> (r: String)
    ensures
        r@ == if s@.len() == 0 {
            other@
        } else {
            s@
        },
{
    if s.as_str().unicode_len() == 0 {
        other.to_string()
    } else {
        s.clone()
    }
}

/// The image of a step, which has to be present before its container is made.
pub fn step_image(step: &Step) -> (r: String)
    ensures
        r@ == image_of(step@),
{
    or_default(&step.image, "alpine:latest")
}

/// The container of a step, under a given name.
pub fn container_setup(
    step: &Step,
    cache_config: &CacheConfig,
    temp_dir: &str,
    ctx: &ContainerRuntimeContext<'_>,
    name: String,
) -> (r: ContainerSetup)
    ensures
        r.name@ == name@,
        r.config@ == container_for(step@, *cache_config, temp_dir@, *ctx),
        r.image@ == image_of(step@),
        r.image@ == r.config.image@,
        r.step_name@ == label_of(step@),
{
    let env = merged_env(step, ctx.secrets_env);
    let mut mounts: Vec<Mount> = vec![
        Mount { target: "/forge-shared".to_string(), source: temp_dir.to_string() },
        Mount { target: "/workspace".to_string(), source: ctx.workspace_dir.to_string() },
    ];
    let ghost shared = seq![("/forge-shared"@, temp_dir@), ("/workspace"@, ctx.workspace_dir@)];
    assert(mount_list(mounts@) =~= shared);
    if is_cache_in_use(cache_config) {
        mounts.push(
            Mount { target: "/forge-cache".to_string(), source: ctx.cache_dir.to_string() },
        );
        assert(mount_list(mounts@) =~= shared.push(("/forge-cache"@, ctx.cache_dir@)));
    }
    let command = build_command_with_cache(step.command.as_str(), cache_config);
    let cmd: Vec<String> = vec!["/bin/sh".to_string(), "-c".to_string(), command];
    assert(texts(cmd@) =~= seq![
        "/bin/sh"@,
        "-c"@,
        command_with_cache(step@.command, *cache_config),
    ]);
    ContainerSetup {
        name,
        config: ContainerConfig {
            image: step_image(step),
            cmd,
            env: env_entries(&env),
            working_dir: or_default(&step.working_dir, "/workspace"),
            mounts,
            auto_remove: false,
        },
        image: step_image(step),
        step_name: or_default(&step.name, "unnamed step"),
    }
}

/// The container of a step, under a fresh random name.
pub fn prepare_container(
    step: &Step,
    cache_config: &CacheConfig,
    temp_dir: &str,
    ctx: &ContainerRuntimeContext<'_>,
) -> (r: ContainerSetup)
    ensures
        exists|id: Seq<char>| r.name@ == "forge-"@ + id && #[trigger] is_uuid_text(id),
        r.config@ == container_for(step@, *cache_config, temp_dir@, *ctx),
        r.image@ == image_of(step@),
        r.image@ == r.config.image@,
        r.step_name@ == label_of(step@),
{
    let name = fresh_name();
    container_setup(step, cache_config, temp_dir, ctx, name)
}

// ---------------------------------------------------------------------------
// Announcement
// ---------------------------------------------------------------------------
/// The line of the variable `name` in the listing: the value of a secret is
/// masked.
pub open spec fn variable_line(vars: Vars, secrets: Vars, name: Seq<char>) -> PrintModel {
    out_text_line(
        if value_of(secrets, name) is Some {
            "    "@ + name + "=********"@
        } else {
            "    "@ + name + "="@ + match value_of(vars, name) {
                Some(value) => value,
                None => ""@,
            }
        },
        Paint::Plain,
    )
}

/// The lines of all variables, in the order of their names.
pub open spec fn variable_lines(vars: Vars, secrets: Vars) -> Seq<PrintModel> {
    sorted_texts(names_of(vars)).map_values(|name: Seq<char>| variable_line(vars, secrets, name))
}

/// What is printed of a step before it runs, when details are asked for.
pub open spec fn announcement(step: StepModel, secrets: Vars) -> Seq<PrintModel> {
    let vars = container_env(step, secrets);
    seq![
        out_text_line("Running step: "@ + label_of(step), Paint::YellowBold),
        out_text_line("  Command: "@ + step.command, Paint::Plain),
        out_text_line("  Image: "@ + image_of(step), Paint::Plain),
    ] + (if step.working_dir.len() == 0 {
        seq![]
    } else {
        seq![out_text_line("  Working directory: "@ + step.working_dir, Paint::Plain)]
    }) + (if vars.len() == 0 {
        seq![]
    } else {
        seq![out_text_line("  Environment variables:"@, Paint::Plain)] + variable_lines(
            vars,
            secrets,
        )
    })
}

/// The line of one variable.
fn variable_print(env: &EnvMap, secrets: &EnvMap, name: &String) -> (r: Print)
    ensures
        r@ == variable_line(env@, secrets@, name@),
{
    let text = if secrets.get(name.as_str()).is_some() {
        "    ".to_string().concat(name.as_str()).concat("=********")
    } else {
        let start = "    ".to_string().concat(name.as_str()).concat("=");
        match env.get(name.as_str()) {
            Some(value) => start.concat(value.as_str()),
            None => start.concat(""),
        }
    };
    print_text(text, Paint::Plain)
}

/// What is printed of a step before it runs, when details are asked for.
pub fn announce_step(step: &Step, secrets: &EnvMap) -> (r: Vec<Print>)
    ensures
        prints(r@) == announcement(step@, secrets@),
{
    let env = merged_env(step, secrets);
    let mut r: Vec<Print> = vec![
        print_text(
            "Running step: ".to_string().concat(or_default(&step.name, "unnamed step").as_str()),
            Paint::YellowBold,
        ),
        print_text("  Command: ".to_string().concat(step.command.as_str()), Paint::Plain),
        print_text("  Image: ".to_string().concat(step_image(step).as_str()), Paint::Plain),
    ];
    let ghost head = seq![
        out_text_line("Running step: "@ + label_of(step@), Paint::YellowBold),
        out_text_line("  Command: "@ + step@.command, Paint::Plain),
        out_text_line("  Image: "@ + image_of(step@), Paint::Plain),
    ];
    assert(prints(r@) =~= head);
    let ghost dir_line = if step@.working_dir.len() == 0 {
        seq![]
    } else {
        seq![out_text_line("  Working directory: "@ + step@.working_dir, Paint::Plain)]
    };
    if step.working_dir.as_str().unicode_len() > 0 {
        r.push(
            print_text(
                "  Working directory: ".to_string().concat(step.working_dir.as_str()),
                Paint::Plain,
            ),
        );
    }
    assert(prints(r@) =~= head + dir_line);
    if env.len() > 0 {
        r.push(print_text("  Environment variables:".to_string(), Paint::Plain));
        let ghost title = seq![out_text_line("  Environment variables:"@, Paint::Plain)];
        assert(prints(r@) =~= head + dir_line + title);
        let keys = sorted(env_names(&env).as_slice());
        let ghost lines = variable_lines(env@, secrets@);
        let mut i: usize = 0;
        assert(head + dir_line + title + lines.take(0) =~= head + dir_line + title);
        while i < keys.len()
            invariant
                i <= keys@.len(),
                texts(keys@) == sorted_texts(names_of(env@)),
                lines == variable_lines(env@, secrets@),
                prints(r@) == head + dir_line + title + lines.take(i as int),
            decreases keys@.len() - i,
        {
            let line = variable_print(&env, secrets, &keys[i]);
            proof {
                lemma_prints_push(r@, line);
                assert(texts(keys@)[i as int] == keys@[i as int]@);
                assert(line@ == lines[i as int]);
                assert(head + dir_line + title + lines.take(i + 1) =~= (head + dir_line + title
                    + lines.take(i as int)).push(line@));
            }
            r.push(line);
            i += 1;
        }
        assert(lines.take(i as int) =~= lines);
        assert(head + dir_line + title + lines =~= head + dir_line + (title + lines));
    } else {
        assert(head + dir_line + seq![] =~= head + dir_line);
    }
    r
}

// ---------------------------------------------------------------------------
// Laws
// ---------------------------------------------------------------------------
/// Where a variable stands depends on the names alone.
proof fn lemma_same_position(a: Vars, b: Vars, name: Seq<char>)
    requires
        names_of(a) == names_of(b),
    ensures
        position(a, name) == position(b, name),
{
    lemma_position(a, name);
    let p = position(a, name);
    assert(a.len() == names_of(a).len() && b.len() == names_of(b).len());
    if p < a.len() {
        assert(names_of(a)[p] == names_of(b)[p]);
    }
    assert forall|i: int| 0 <= i < p implies #[trigger] b[i].0 != name by {
        assert(names_of(a)[i] == names_of(b)[i]);
        assert(a[i].0 != name);
    }
    lemma_position_is(b, name, p);
}

/// The names that come of setting variables depend on their names alone.
proof fn lemma_same_names(vars: Vars, a: Vars, b: Vars)
    requires
        names_of(a) == names_of(b),
    ensures
        names_of(with_vars(vars, a)) == names_of(with_vars(vars, b)),
    decreases a.len(),
{
    assert(a.len() == names_of(a).len() && b.len() == names_of(b).len());
    if a.len() > 0 {
        let (a0, b0) = (a.drop_last(), b.drop_last());
        assert(names_of(a)[a.len() - 1] == names_of(b)[a.len() - 1]);
        assert(names_of(a0) =~= names_of(a).drop_last());
        assert(names_of(b0) =~= names_of(b).drop_last());
        lemma_same_names(vars, a0, b0);
        let (x, y) = (with_vars(vars, a0), with_vars(vars, b0));
        let name = a.last().0;
        lemma_same_position(x, y, name);
        lemma_position(x, name);
        assert(x.len() == names_of(x).len() && y.len() == names_of(y).len());
        let (x1, y1) = (with_vars(vars, a), with_vars(vars, b));
        assert forall|i: int| 0 <= i < x1.len() implies #[trigger] names_of(x1)[i] == names_of(
            y1,
        )[i] by {
            if i < x.len() {
                assert(names_of(x)[i] == names_of(y)[i]);
            }
        }
        assert(names_of(x1) =~= names_of(y1));
    }
}

/// A variable of a container has the value of the secret of that name if there
/// is one, and its value in the step otherwise; no variable is given twice.
pub proof fn law_secrets_reach_the_container(step: StepModel, secrets: Vars, name: Seq<char>)
    requires
        distinct(step.env),
        distinct(secrets),
    ensures
        distinct(container_env(step, secrets)),
        value_of(container_env(step, secrets), name) == match value_of(secrets, name) {
            Some(value) => Some(value),
            None => value_of(step.env, name),
        },
{
    lemma_with_vars(step.env, secrets, name);
}

/// What is printed of a step does not depend on the values of the secrets: any
/// other values under the same names give the same output.
pub proof fn law_secret_values_are_not_printed(step: StepModel, secrets: Vars, others: Vars)
    requires
        distinct(step.env),
        distinct(secrets),
        distinct(others),
        names_of(secrets) == names_of(others),
    ensures
        announcement(step, secrets) == announcement(step, others),
{
    let (a, b) = (container_env(step, secrets), container_env(step, others));
    lemma_same_names(step.env, secrets, others);
    assert(a.len() == names_of(a).len() && b.len() == names_of(b).len());
    assert forall|name: Seq<char>|
        variable_line(a, secrets, name) == #[trigger] variable_line(b, others, name) by {
        lemma_same_position(secrets, others, name);
        assert(secrets.len() == names_of(secrets).len() && others.len() == names_of(others).len());
        lemma_with_vars(step.env, secrets, name);
        lemma_with_vars(step.env, others, name);
    }
    assert(variable_lines(a, secrets) =~= variable_lines(b, others));
}

/// The container of a step is made from the image that the step names, and from
/// `alpine:latest` only if it names none; it runs in the directory that the step
/// names, and in the workspace only if it names none; and the daemon is not asked
/// to remove it.
pub proof fn law_container_is_the_one_of_the_step(
    step: StepModel,
    cache: CacheConfig,
    temp_dir: Seq<char>,
    ctx: ContainerRuntimeContext,
)
    ensures
        ({
            let made = container_for(step, cache, temp_dir, ctx);
            &&& step.image.len() > 0 ==> made.image == step.image
            &&& step.image.len() == 0 ==> made.image == "alpine:latest"@
            &&& made.image == image_of(step)
            &&& step.working_dir.len() > 0 ==> made.working_dir == step.working_dir
            &&& step.working_dir.len() == 0 ==> made.working_dir == "/workspace"@
            &&& !made.auto_remove
        }),
{
}

/// A container sees the workspace and the directory that the steps share, and
/// the cache if and only if directories are kept, each of them once and nothing
/// else of the host.
pub proof fn law_what_a_container_sees(
    step: StepModel,
    cache: CacheConfig,
    temp_dir: Seq<char>,
    ctx: ContainerRuntimeContext,
    target: Seq<char>,
    source: Seq<char>,
)
    ensures
        ({
            let seen = container_for(step, cache, temp_dir, ctx).mounts;
            &&& seen.contains((target, source)) <==> {
                ||| target == "/workspace"@ && source == ctx.workspace_dir@
                ||| target == "/forge-shared"@ && source == temp_dir
                ||| target == "/forge-cache"@ && source == ctx.cache_dir@ && cache.enabled
                    && cache.directories@.len() > 0
            }
            &&& seen.len() == if cache.enabled && cache.directories@.len() > 0 {
                3int
            } else {
                2
            }
            &&& seen.no_duplicates()
        }),
{
    reveal_strlit("/workspace");
    reveal_strlit("/forge-shared");
    reveal_strlit("/forge-cache");
    let seen = container_for(step, cache, temp_dir, ctx).mounts;
    assert("/workspace"@.len() == 10 && "/forge-shared"@.len() == 13 && "/forge-cache"@.len() == 12);
    assert(seen[0] == ("/forge-shared"@, temp_dir));
    assert(seen[1] == ("/workspace"@, ctx.workspace_dir@));
    if cache.enabled && cache.directories@.len() > 0 {
        assert(seen[2] == ("/forge-cache"@, ctx.cache_dir@));
    }
}

/// A container is given a variable with a value if and only if that is what the
/// variable is to be: the value of the secret of that name, or the step's own
/// value if there is no such secret.
pub proof fn law_variables_of_a_container(
    step: StepModel,
    cache: CacheConfig,
    temp_dir: Seq<char>,
    ctx: ContainerRuntimeContext,
    k: int,
    name: Seq<char>,
)
    requires
        distinct(step.env),
        distinct(ctx.secrets_env@),
    ensures
        ({
            let given = container_for(step, cache, temp_dir, ctx).env;
            let secrets = ctx.secrets_env@;
            &&& value_of(secrets, name) matches Some(value) ==> given.contains(
                name + "="@ + value,
            )
            &&& value_of(secrets, name) is None ==> (value_of(step.env, name) matches Some(value)
                ==> given.contains(name + "="@ + value))
            &&& 0 <= k < given.len() ==> exists|n: Seq<char>, v: Seq<char>|
                {
                    &&& given[k] == #[trigger] (n + "="@ + v)
                    &&& value_of(secrets, n) == Some(v) || (value_of(secrets, n) is None
                        && value_of(step.env, n) == Some(v))
                }
        }),
{
    let given = container_for(step, cache, temp_dir, ctx).env;
    let secrets = ctx.secrets_env@;
    let vars = container_env(step, secrets);
    lemma_with_vars(step.env, secrets, name);
    lemma_position(vars, name);
    let p = position(vars, name);
    if p < vars.len() {
        assert(given[p] == name + "="@ + vars[p].1);
    }
    if 0 <= k < given.len() {
        let (n, v) = vars[k];
        lemma_with_vars(step.env, secrets, n);
        lemma_position(vars, n);
        let q = position(vars, n);
        if q < k {
            assert(vars[q].0 != vars[k].0);
        }
        assert(q == k);
        assert(given[k] == n + "="@ + v);
    }
}

/// The container runs the command of the step with a shell: as it is if no
/// directory is kept, and otherwise as part of a script that first restores every
/// directory from the cache, in order, then runs the command, takes down its status
/// at once, saves every directory and ends with that status. A directory is copied
/// only from where it is and holds something, and a copy that fails stops nothing.
#[verifier::spinoff_prover]
pub proof fn law_container_runs_the_command(
    step: StepModel,
    cache: CacheConfig,
    temp_dir: Seq<char>,
    ctx: ContainerRuntimeContext,
) -> (parts: (Seq<Seq<char>>, Seq<Seq<char>>))
    ensures
        ({
            let cmd = container_for(step, cache, temp_dir, ctx).cmd;
            let dirs = cache.directories@;
            &&& cmd.len() == 3
            &&& cmd[0] == "/bin/sh"@
            &&& cmd[1] == "-c"@
            &&& !cache.enabled || dirs.len() == 0 ==> cmd[2] == step.command
            &&& cache.enabled && dirs.len() > 0 ==> cmd[2] == "#!/bin/sh\n\n# Cache setup\n"@
                + flattened(parts.0) + "\n# Main command\n"@ + step.command
                + "\nstatus=$?\n\n# Cache teardown\n"@ + flattened(parts.1)
                + "\n\n# Exit with the status of the main command\nexit $status"@
            &&& parts.0.len() == dirs.len()
            &&& parts.1.len() == dirs.len()
            &&& forall|k: int|
                #![trigger dirs[k]]
                0 <= k < dirs.len() ==> {
                    let here = dirs[k]@;
                    let kept = "/forge-cache"@ + here;
                    &&& parts.0[k] == "mkdir -p "@ + kept + ("\nmkdir -p "@ + here + "\n"@)
                        + copies_if_any(kept, here)
                    &&& parts.1[k] == "mkdir -p "@ + kept + "\n"@ + copies_if_any(here, kept)
                }
        }),
{
    let dirs = texts(cache.directories@);
    let restored = dirs.map_values(|d: Seq<char>| restore_script(d));
    let saved = dirs.map_values(|d: Seq<char>| save_script(d));
    assert forall|k: int| #![trigger cache.directories@[k]] 0 <= k < cache.directories@.len() implies {
        let here = cache.directories@[k]@;
        let kept = "/forge-cache"@ + here;
        &&& restored[k] == "mkdir -p "@ + kept + ("\nmkdir -p "@ + here + "\n"@) + copies_if_any(
            kept,
            here,
        )
        &&& saved[k] == "mkdir -p "@ + kept + "\n"@ + copies_if_any(here, kept)
    } by {
        lemma_scripts(cache.directories@[k]@);
    }
    (restored, saved)
}

/// The command that copies what a directory holds to another, if it is there and
/// holds anything.
pub open spec fn copies_if_any(from: Seq<char>, to: Seq<char>) -> Seq<char> {
    "if [ -d "@ + from + " ] && [ \"$(ls -A "@ + from + ")\" ]; then cp -a "@ + from + "/. "@ + to
        + "/ 2>/dev/null || true; fi\n"@
}

/// The commands for one directory make it on both sides and copy it.
#[verifier::spinoff_prover]
proof fn lemma_scripts(here: Seq<char>)
    ensures
        restore_script(here) == "mkdir -p "@ + ("/forge-cache"@ + here) + ("\nmkdir -p "@ + here
            + "\n"@) + copies_if_any("/forge-cache"@ + here, here),
        save_script(here) == "mkdir -p "@ + ("/forge-cache"@ + here) + "\n"@ + copies_if_any(
            here,
            "/forge-cache"@ + here,
        ),
{
    let f = "/forge-cache"@;
    assert("mkdir -p /forge-cache"@ =~= "mkdir -p "@ + f) by {
        reveal_strlit("mkdir -p /forge-cache");
        reveal_strlit("mkdir -p ");
        reveal_strlit("/forge-cache");
    }
    assert("\nif [ -d /forge-cache"@ =~= "\n"@ + "if [ -d "@ + f) by {
        reveal_strlit("\nif [ -d /forge-cache");
        reveal_strlit("\n");
        reveal_strlit("if [ -d ");
        reveal_strlit("/forge-cache");
    }
    assert("\nif [ -d "@ =~= "\n"@ + "if [ -d "@) by {
        reveal_strlit("\nif [ -d ");
        reveal_strlit("\n");
        reveal_strlit("if [ -d ");
    }
    assert(" ] && [ \"$(ls -A /forge-cache"@ =~= " ] && [ \"$(ls -A "@ + f) by {
        reveal_strlit(" ] && [ \"$(ls -A /forge-cache");
        reveal_strlit(" ] && [ \"$(ls -A ");
        reveal_strlit("/forge-cache");
    }
    assert(")\" ]; then cp -a /forge-cache"@ =~= ")\" ]; then cp -a "@ + f) by {
        reveal_strlit(")\" ]; then cp -a /forge-cache");
        reveal_strlit(")\" ]; then cp -a ");
        reveal_strlit("/forge-cache");
    }
    assert("/. /forge-cache"@ =~= "/. "@ + f) by {
        reveal_strlit("/. /forge-cache");
        reveal_strlit("/. ");
        reveal_strlit("/forge-cache");
    }
    assert(restore_script(here) =~= "mkdir -p "@ + (f + here) + ("\nmkdir -p "@ + here + "\n"@)
        + copies_if_any(f + here, here));
    assert(save_script(here) =~= "mkdir -p "@ + (f + here) + "\n"@ + copies_if_any(here, f + here));
}

/// What is printed of a step before it runs starts with its name, its command and
/// its image, each whole; then come its directory, if it names one, and all of its
/// variables in the order of their names, each with its value unless it is a
/// secret.
#[verifier::spinoff_prover]
pub proof fn law_a_step_is_announced(step: StepModel, secrets: Vars, name: Seq<char>)
    requires
        distinct(step.env),
        distinct(secrets),
    ensures
        ({
            let said = announcement(step, secrets);
            &&& said[0].spans[0].0 == "Running step: "@ + (if step.name.len() == 0 {
                "unnamed step"@
            } else {
                step.name
            })
            &&& said[1].spans[0].0 == "  Command: "@ + step.command
            &&& said[2].spans[0].0 == "  Image: "@ + (if step.image.len() == 0 {
                "alpine:latest"@
            } else {
                step.image
            })
            &&& step.working_dir.len() > 0 ==> said[3].spans[0].0 == "  Working directory: "@
                + step.working_dir
            &&& value_of(secrets, name) is Some ==> says(said, "    "@ + name + "=********"@)
            &&& value_of(secrets, name) is None ==> (value_of(step.env, name) matches Some(value)
                ==> says(said, "    "@ + name + "="@ + value))
        }),
{
    let vars = container_env(step, secrets);
    let said = announcement(step, secrets);
    lemma_with_vars(step.env, secrets, name);
    lemma_position(vars, name);
    let p = position(vars, name);
    if p < vars.len() {
        let names = names_of(vars);
        law_sorting(names);
        assert(names[p] == name);
        assert(names.contains(name));
        assert(sorted_texts(names).contains(name));
        let k = choose|k: int|
            0 <= k < sorted_texts(names).len() && sorted_texts(names)[k] == name;
        let line = variable_line(vars, secrets, name);
        assert(variable_lines(vars, secrets)[k] == line);
        let from = said.len() - variable_lines(vars, secrets).len();
        assert(said[from + k] == line);
    }
}

/// Whether one of the lines is this text.
pub open spec fn says(lines: Seq<PrintModel>, text: Seq<char>) -> bool {
    exists|k: int|
        0 <= k < lines.len() && (#[trigger] lines[k]).spans.len() == 1 && lines[k].spans[0].0
            == text
}

/// A step is called by its name, and unnamed only if it has none.
pub proof fn law_name_of_a_step(step: StepModel)
    ensures
        step.name.len() > 0 ==> label_of(step) == step.name,
        step.name.len() == 0 ==> label_of(step) == "unnamed step"@,
{
}

/// What is known of a container's configuration is all of it.
pub proof fn law_model_of_a_container(config: ContainerConfig, i: int)
    ensures
        config@.image == config.image@,
        config@.working_dir == config.working_dir@,
        config@.auto_remove == config.auto_remove,
        config@.cmd.len() == config.cmd@.len(),
        0 <= i < config.cmd@.len() ==> config@.cmd[i] == config.cmd@[i]@,
        config@.env.len() == config.env@.len(),
        0 <= i < config.env@.len() ==> config@.env[i] == config.env@[i]@,
        config@.mounts.len() == config.mounts@.len(),
        0 <= i < config.mounts@.len() ==> config@.mounts[i] == (
            config.mounts@[i].target@,
            config.mounts@[i].source@,
        ),
{
}

/// Directories are kept if and only if the cache is on and names some.
pub proof fn law_when_directories_are_kept(cache: CacheConfig)
    ensures
        cache_in_use(cache) <==> cache.enabled && cache.directories@.len() > 0,
{
}

/// The variables of a step are listed last, under a heading, one line for each and
/// in the order of their names; without variables there is no list.
pub proof fn law_variables_are_listed_in_order(step: StepModel, secrets: Vars)
    ensures
        ({
            let said = announcement(step, secrets);
            let names = sorted_texts(names_of(container_env(step, secrets)));
            let from = if step.working_dir.len() > 0 {
                4int
            } else {
                3
            };
            &&& names.len() == 0 ==> said.len() == from
            &&& names.len() > 0 ==> {
                &&& said.len() == from + 1 + names.len()
                &&& said[from].spans[0].0 == "  Environment variables:"@
                &&& forall|k: int|
                    #![trigger names[k]]
                    0 <= k < names.len() ==> starts_so(
                        said[from + 1 + k].spans[0].0,
                        "    "@ + names[k] + "="@,
                    )
            }
        }),
{
    let vars = container_env(step, secrets);
    let said = announcement(step, secrets);
    let names = sorted_texts(names_of(vars));
    law_sorting(names_of(vars));
    let from = if step.working_dir.len() > 0 {
        4int
    } else {
        3
    };
    if vars.len() > 0 {
        let lines = variable_lines(vars, secrets);
        assert forall|k: int| #![trigger names[k]] 0 <= k < names.len() implies starts_so(
            said[from + 1 + k].spans[0].0,
            "    "@ + names[k] + "="@,
        ) by {
            let line = variable_line(vars, secrets, names[k]);
            assert(lines[k] == line);
            assert(said[from + 1 + k] == lines[k]);
            reveal_strlit("=********");
            reveal_strlit("=");
            let head = "    "@ + names[k] + "="@;
            assert("=********"@ =~= "="@ + "=********"@.skip(1));
            assert("    "@ + names[k] + "=********"@ =~= head + "=********"@.skip(1));
        }
    }
}

/// Whether a text starts with another.
pub open spec fn starts_so(text: Seq<char>, start: Seq<char>) -> bool {
    exists|rest: Seq<char>| text == #[trigger] (start + rest)
}

/// The names of variables are those of all of them, in order.
pub proof fn law_names_of_variables(vars: Vars, i: int)
    requires
        0 <= i < vars.len(),
    ensures
        names_of(vars).len() == vars.len(),
        names_of(vars)[i] == vars[i].0,
{
}

} // verus!
