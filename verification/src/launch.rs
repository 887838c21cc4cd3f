//! From the command line to a run, step by step. Each state waits for one thing
//! from outside; what comes of it is the next state, or the end of the program.

use crate::cli::{
    banner, cache_enabled, dry_run_intro, dry_run_lines, dry_run_report, execution_order_line,
    is_silent, ok_line, plan_stages, planned_stages, Fatal,
};
use crate::config::{
    parallel_problem_text, parallel_problems, stage_models, step_models, validate_parallel_stages,
    ForgeConfig, Stage, StageModel, StepModel,
};
use crate::docker::{image_prints, remove_warning, step_cleanup_prints, stop_warning};
use crate::env::EnvMap;
use crate::paint::{out_line, out_text_line, prints, Paint, Print, PrintModel};
use crate::resolve::{dependency_problem_text, resolve_stage_dependencies};
use crate::result::{format_named, OutputFormat};
use crate::scan::first_some;
use crate::schedule::{
    is_order, law_an_order_is_found, law_schedule_is_an_order, order_problem, precedes, schedule,
    stage_names,
};
use crate::secrets::{collect_secrets_env, missing_secret_text, missing_secrets, secrets_env};
use crate::select::{
    default_stage, effective_stages, law_every_stage_is_scheduled, law_selection_has_an_order,
    schedule_stages,
    scheduled_stages, selection_problem, selection_problem_text, SelectionProblem,
};
use crate::text::{joined, lowercase};
use crate::validate::config_problem;
use vstd::prelude::*;
use vstd::string::*;

verus! {

/// What the user asks for.
#[derive(Debug)]
pub struct RunRequest {
    pub file: String,
    pub verbose: bool,
    pub cache: bool,
    pub no_cache: bool,
    pub stage: Option<String>,
    pub dry_run: bool,
    pub tui: bool,
    pub format: String,
}

/// What the user asks for, with the format understood.
#[derive(Debug)]
pub struct RunOptions {
    pub file: String,
    pub verbose: bool,
    pub cache: bool,
    pub no_cache: bool,
    pub stage: Option<String>,
    pub dry_run: bool,
    pub tui: bool,
    pub format: OutputFormat,
}

impl RunOptions {
    /// Whether standard output is kept free for a report.
    pub open spec fn spec_silent(self) -> bool {
        self.format == OutputFormat::Json || self.format == OutputFormat::Junit
    }

    /// Whether standard output is kept free for a report.
    pub fn silent(&self) -> (r: bool)
        ensures
            r == self.spec_silent(),
    {
        is_silent(self.format)
    }

    /// Whether details are printed.
    pub fn details(&self) -> (r: bool)
        ensures
            r == (self.verbose && !self.spec_silent()),
    {
        self.verbose && !self.silent()
    }
}

/// Waits for whether the configuration file exists.
#[derive(Debug)]
pub struct AwaitingFile {
    pub options: RunOptions,
}

/// Waits for the configuration.
#[derive(Debug)]
pub struct AwaitingConfig {
    pub options: RunOptions,
}

/// Waits for the values of the secrets.
#[derive(Debug)]
pub struct AwaitingSecrets {
    pub options: RunOptions,
    pub config: ForgeConfig,
}

/// Waits for Docker.
#[derive(Debug)]
pub struct AwaitingDocker {
    pub options: RunOptions,
    pub config: ForgeConfig,
    pub secrets: EnvMap,
}

/// Knows which stages are to run, and waits for the temporary directory.
#[derive(Debug)]
pub struct Planned {
    pub options: RunOptions,
    pub config: ForgeConfig,
    pub secrets: EnvMap,
    pub stages: Vec<Stage>,
}

/// Can run.
#[derive(Debug)]
pub struct Ready {
    pub options: RunOptions,
    pub config: ForgeConfig,
    pub secrets: EnvMap,
    /// The stages in the order in which they run
    pub stages: Vec<Stage>,
    /// The line that tells the order
    pub order_line: Option<Print>,
}

/// What Docker answered.
#[derive(Debug)]
pub enum DockerReply {
    Answered,
    NoConnection(String),
    NoAnswer(String),
}

/// Whether the end is for no particular reason, with this message.
pub open spec fn ends_with(fatal: Fatal, message: Seq<char>) -> bool {
    fatal matches Fatal::Other { message: m } && m@ == message
}

/// Whether the end is for a bad configuration, with this message.
pub open spec fn refuses_config(fatal: Fatal, message: Seq<char>) -> bool {
    fatal matches Fatal::BadConfig { message: m } && m@ == message
}

/// Begins a run. A format that is not known ends it before anything is looked
/// at.
pub fn start_run(request: RunRequest) -> (r: Result<(AwaitingFile, Option<Print>), Fatal>)
    ensures
        match format_named(request.format@) {
            Some(format) => {
                &&& r is Ok
                &&& r->Ok_0.0.options == (RunOptions {
                    file: request.file,
                    verbose: request.verbose,
                    cache: request.cache,
                    no_cache: request.no_cache,
                    stage: request.stage,
                    dry_run: request.dry_run,
                    tui: request.tui,
                    format,
                })
                &&& r->Ok_0.1 is Some <==> !request.tui && format == OutputFormat::Human
                &&& r->Ok_0.1 matches Some(p) ==> p@ == out_text_line(
                    if request.dry_run {
                        "FORGE Pipeline Runner (DRY RUN MODE)"@
                    } else {
                        "FORGE Pipeline Runner"@
                    },
                    Paint::CyanBold,
                )
            },
            None => r is Err && ends_with(
                r->Err_0,
                "unknown format '"@ + lowercase(request.format@)
                    + "'; valid values: human, json, junit"@,
            ),
        },
{
    match OutputFormat::parse(request.format.as_str()) {
        Ok(format) => {
            let line = banner(request.tui, is_silent(format), request.dry_run);
            let options = RunOptions {
                file: request.file,
                verbose: request.verbose,
                cache: request.cache,
                no_cache: request.no_cache,
                stage: request.stage,
                dry_run: request.dry_run,
                tui: request.tui,
                format,
            };
            Ok((AwaitingFile { options }, line))
        },
        Err(message) => Err(Fatal::Other { message }),
    }
}

impl AwaitingFile {
    /// It is known whether the configuration file exists.
    pub fn file_checked(self, exists: bool) -> (r: Result<AwaitingConfig, Fatal>)
        ensures
            r is Ok <==> exists,
            r matches Ok(next) ==> next.options == self.options,
            r matches Err(fatal) ==> fatal matches Fatal::ConfigNotFound { file } && file
                == self.options.file,
    {
        if exists {
            Ok(AwaitingConfig { options: self.options })
        } else {
            Err(Fatal::ConfigNotFound { file: self.options.file })
        }
    }
}

impl AwaitingConfig {
    /// The configuration was read, or could not be.
    pub fn config_read(self, config: Result<ForgeConfig, String>) -> (r: Result<
        AwaitingSecrets,
        Fatal,
    >)
        ensures
            r is Ok <==> config is Ok,
            r matches Ok(next) ==> next.options == self.options && next.config == config->Ok_0,
            r matches Err(fatal) ==> refuses_config(fatal, config->Err_0@),
    {
        match config {
            Ok(config) => Ok(AwaitingSecrets { options: self.options, config }),
            Err(message) => Err(Fatal::BadConfig { message }),
        }
    }
}

/// A configuration with the cache turned on or off.
pub open spec fn with_cache(config: ForgeConfig, enabled: bool) -> ForgeConfig {
    ForgeConfig {
        cache: crate::config::CacheConfig { enabled, ..config.cache },
        ..config
    }
}

impl AwaitingSecrets {
    /// The values of the secrets are known, each by the variable that holds it.
    /// A secret that is not set ends the run, and so does a parallel stage that
    /// breaks its rules.
    pub fn secrets_read(self, values: Vec<Option<String>>) -> (r: Result<AwaitingDocker, Fatal>)
        requires
            values@.len() == self.config.secrets@.len(),
        ensures
            ({
                let missing = first_some(missing_secrets(self.config.secrets@, values@));
                let broken = first_some(parallel_problems(stage_models(self.config.stages@)));
                match (missing, broken) {
                    (Some(secret), _) => r is Err && refuses_config(
                        r->Err_0,
                        missing_secret_text(secret),
                    ),
                    (None, Some(problem)) => r is Err && refuses_config(
                        r->Err_0,
                        parallel_problem_text(problem),
                    ),
                    (None, None) => {
                        &&& r is Ok
                        &&& r->Ok_0.options == self.options
                        &&& r->Ok_0.config == with_cache(
                            self.config,
                            !self.options.no_cache && (self.options.cache
                                || self.config.cache.enabled),
                        )
                        &&& r->Ok_0.secrets@ == secrets_env(self.config.secrets@, values@)
                    },
                }
            }),
    {
        let secrets = match collect_secrets_env(
            self.config.secrets.as_slice(),
            values.as_slice(),
        ) {
            Ok(secrets) => secrets,
            Err(missing) => {
                return Err(Fatal::BadConfig { message: missing.message() });
            },
        };
        let enabled = cache_enabled(
            self.config.cache.enabled,
            self.options.cache,
            self.options.no_cache,
        );
        let mut config = self.config;
        config.cache.enabled = enabled;
        if let Err(problem) = validate_parallel_stages(&config) {
            return Err(Fatal::BadConfig { message: problem.message() });
        }
        Ok(AwaitingDocker { options: self.options, config, secrets })
    }
}

/// The name of the selected stage.
pub open spec fn selected(options: RunOptions) -> Option<Seq<char>> {
    match options.stage {
        Some(name) => Some(name@),
        None => None,
    }
}

impl AwaitingDocker {
    /// Docker has answered, or not. If it has, the stages to run are picked.
    pub fn docker_checked(self, reply: DockerReply) -> (r: Result<Planned, Fatal>)
        ensures
            match reply {
                DockerReply::NoConnection(e) => r matches Err(Fatal::DockerConnection { error })
                    && error == e,
                DockerReply::NoAnswer(e) => r matches Err(Fatal::DockerSilent { error }) && error
                    == e,
                DockerReply::Answered => {
                    let stages = stage_models(self.config.stages@);
                    let steps = step_models(self.config.steps@);
                    let all = effective_stages(stages, steps);
                    match (selected(self.options), r) {
                        (_, Ok(next)) => {
                            &&& next.options == self.options
                            &&& next.config == self.config
                            &&& next.secrets == self.secrets
                            &&& stage_models(next.stages@) == planned_stages(
                                stages,
                                steps,
                                selected(self.options),
                            )
                            &&& match selected(self.options) {
                                Some(name) => selection_problem(all, name) is None,
                                None => all.len() > 0,
                            }
                        },
                        (Some(name), Err(fatal)) => match selection_problem(all, name) {
                            Some(problem) => match problem {
                                SelectionProblem::Unknown { .. } => fatal
                                    matches Fatal::UnknownStage { message } && message@
                                    == selection_problem_text(problem),
                                SelectionProblem::Undefined { .. } => refuses_config(
                                    fatal,
                                    selection_problem_text(problem),
                                ),
                            },
                            None => false,
                        },
                        (None, Err(fatal)) => all.len() == 0 && fatal is NothingToRun,
                    }
                },
            },
    {
        match reply {
            DockerReply::NoConnection(error) => Err(Fatal::DockerConnection { error }),
            DockerReply::NoAnswer(error) => Err(Fatal::DockerSilent { error }),
            DockerReply::Answered => {
                let planned = match &self.options.stage {
                    Some(name) => plan_stages(&self.config, Some(name.as_str())),
                    None => plan_stages(&self.config, None),
                };
                match planned {
                    Ok(stages) => Ok(
                        Planned {
                            options: self.options,
                            config: self.config,
                            secrets: self.secrets,
                            stages,
                        },
                    ),
                    Err(fatal) => Err(fatal),
                }
            },
        }
    }
}

impl Planned {
    /// What a dry run prints, and how it ends.
    pub fn dry_run(&self) -> (r: (Vec<Print>, Result<(), Fatal>))
        ensures
            ({
                let stages = stage_models(self.stages@);
                let intro = seq![
                    ok_line(" Configuration validated: "@ + self.options.file@),
                    ok_line(" Docker connection verified"@),
                ];
                match order_problem(stages) {
                    None => {
                        &&& r.1 is Ok
                        &&& prints(r.0@) == if self.options.spec_silent() {
                            seq![]
                        } else {
                            intro + dry_run_lines(
                                stages,
                                scheduled_stages(stages, schedule(stages)),
                            )
                        }
                    },
                    Some(problem) => {
                        &&& r.1 is Err
                        &&& refuses_config(r.1->Err_0, dependency_problem_text(problem))
                        &&& prints(r.0@) == if self.options.spec_silent() {
                            seq![]
                        } else {
                            intro
                        }
                    },
                }
            }),
    {
        let silent = self.options.silent();
        let mut out: Vec<Print> = Vec::new();
        assert(prints(out@) =~= seq![]);
        if !silent {
            out = dry_run_intro(self.options.file.as_str());
        }
        match resolve_stage_dependencies(self.stages.as_slice()) {
            Err(problem) => (out, Err(Fatal::BadConfig { message: problem.message() })),
            Ok(order) => {
                if !silent {
                    let scheduled = schedule_stages(self.stages.as_slice(), order.as_slice());
                    let mut report = dry_run_report(self.stages.as_slice(), scheduled.as_slice());
                    let ghost (a, b) = (out@, report@);
                    out.append(&mut report);
                    assert(prints(out@) =~= prints(a) + prints(b));
                }
                (out, Ok(()))
            },
        }
    }

    /// The temporary directory was made, or could not be. The stages are put in
    /// order.
    pub fn temp_dir_made(self, made: Result<(), String>) -> (r: Result<Ready, Fatal>)
        ensures
            ({
                let stages = stage_models(self.stages@);
                match made {
                    Err(e) => r matches Err(Fatal::TempDir { error }) && error == e,
                    Ok(_) => match order_problem(stages) {
                        Some(problem) => r is Err && refuses_config(
                            r->Err_0,
                            dependency_problem_text(problem),
                        ),
                        None => {
                            &&& r is Ok
                            &&& r->Ok_0.options == self.options
                            &&& r->Ok_0.config == self.config
                            &&& r->Ok_0.secrets == self.secrets
                            &&& stage_models(r->Ok_0.stages@) == scheduled_stages(
                                stages,
                                schedule(stages),
                            )
                            &&& r->Ok_0.order_line is Some <==> self.options.verbose
                                && !self.options.tui && !self.options.spec_silent()
                            &&& r->Ok_0.order_line matches Some(p) ==> p@ == out_line(
                                seq![
                                    ("[INFO]"@, Paint::Blue),
                                    (
                                        " Execution order: "@ + joined(schedule(stages), " -> "@),
                                        Paint::Plain,
                                    ),
                                ],
                            )
                        },
                    },
                }
            }),
    {
        if let Err(error) = made {
            return Err(Fatal::TempDir { error });
        }
        match resolve_stage_dependencies(self.stages.as_slice()) {
            Err(problem) => Err(Fatal::BadConfig { message: problem.message() }),
            Ok(order) => {
                let stages = schedule_stages(self.stages.as_slice(), order.as_slice());
                let order_line = if self.options.details() && !self.options.tui {
                    Some(execution_order_line(order.as_slice()))
                } else {
                    None
                };
                Ok(
                    Ready {
                        options: self.options,
                        config: self.config,
                        secrets: self.secrets,
                        stages,
                        order_line,
                    },
                )
            },
        }
    }
}

// ---------------------------------------------------------------------------
// Laws
// ---------------------------------------------------------------------------
/// The steps of a configuration without stages have an order.
proof fn lemma_default_stage_has_an_order(steps: Seq<StepModel>)
    ensures
        order_problem(seq![default_stage(steps)]) is None,
{
    let stages = seq![default_stage(steps)];
    let t = seq![default_stage(steps).name];
    assert(stage_names(stages)[0] == t[0]);
    assert(is_order(stages, t));
    law_an_order_is_found(stages, t);
}

/// A configuration that passes its check is not refused by a run, neither as a
/// whole nor with one of its stages selected: its parallel stages keep their
/// rules, there is something to run, and the stages to run have an order.
pub proof fn law_a_valid_config_is_not_refused(
    stages: Seq<StageModel>,
    steps: Seq<StepModel>,
    stage: Option<Seq<char>>,
)
    requires
        config_problem(stages, steps) is None,
        stage matches Some(name) ==> stage_names(effective_stages(stages, steps)).contains(name),
    ensures
        first_some(parallel_problems(stages)) is None,
        effective_stages(stages, steps).len() > 0,
        stage matches Some(name) ==> selection_problem(
            effective_stages(stages, steps),
            name,
        ) is None,
        order_problem(planned_stages(stages, steps, stage)) is None,
{
    let all = effective_stages(stages, steps);
    if stages.len() == 0 {
        lemma_default_stage_has_an_order(steps);
    }
    assert(order_problem(all) is None);
    if let Some(name) = stage {
        law_selection_has_an_order(all, name);
    }
}

/// Whether everything goes to standard error.
pub open spec fn on_stderr(list: Seq<PrintModel>) -> bool {
    forall|i: int| 0 <= i < list.len() ==> (#[trigger] list[i]).to_stderr
}

/// Where standard output is kept free for a report, nothing that is said of
/// images and containers goes there, whatever the daemon answers.
pub proof fn law_reports_have_stdout_to_themselves(
    options: RunOptions,
    image: Seq<char>,
    present: bool,
    id: Seq<char>,
    stop: Result<(), String>,
    remove: Result<(), String>,
)
    requires
        options.spec_silent(),
    ensures
        on_stderr(image_prints(image, present, options.spec_silent())),
        on_stderr(
            step_cleanup_prints(id, stop, remove, options.verbose && !options.spec_silent()),
        ),
        on_stderr(stop_warning(id, stop)),
        on_stderr(remove_warning(id, remove)),
{
}

/// The switches on the command line decide about the cache, and change nothing
/// else of the configuration.
pub proof fn law_the_cache_switch(config: ForgeConfig, enabled: bool)
    ensures
        with_cache(config, enabled).cache.enabled == enabled,
        with_cache(config, enabled).cache.directories == config.cache.directories,
        with_cache(config, enabled).version == config.version,
        with_cache(config, enabled).stages == config.stages,
        with_cache(config, enabled).steps == config.steps,
        with_cache(config, enabled).secrets == config.secrets,
{
}

/// The stages of a run are those of the plan, all of them, each once and each after
/// what it depends on.
pub proof fn law_the_plan_is_run(stages: Seq<StageModel>, i: int, j: int)
    requires
        order_problem(stages) is None,
        0 <= i < stages.len(),
        0 <= j < stages[i].depends_on.len(),
    ensures
        ({
            let run = scheduled_stages(stages, schedule(stages));
            &&& run.len() == stages.len()
            &&& run.contains(stages[i])
            &&& exists|p: int, q: int|
                {
                    &&& 0 <= p < q < run.len()
                    &&& (#[trigger] run[p]).name == stages[i].depends_on[j]
                    &&& (#[trigger] run[q]).name == stages[i].name
                }
        }),
{
    let order = schedule(stages);
    let run = scheduled_stages(stages, order);
    law_every_stage_is_scheduled(stages, i);
    law_schedule_is_an_order(stages);
    assert(stage_names(run) == order);
    assert(stage_names(run).len() == run.len());
    assert(precedes(order, stages[i].depends_on[j], stages[i].name));
    let (p, q) = choose|p: int, q: int|
        0 <= p < q < order.len() && #[trigger] order[p] == stages[i].depends_on[j]
            && #[trigger] order[q] == stages[i].name;
    assert(stage_names(run)[p] == run[p].name);
    assert(stage_names(run)[q] == run[q].name);
}

/// The stage to run is the one that was asked for, and standard output is left to
/// the report if and only if one was asked for that a program reads.
pub proof fn law_what_was_asked_for(options: RunOptions)
    ensures
        options.stage matches Some(name) ==> selected(options) == Some(name@),
        options.stage is None ==> selected(options) is None,
        options.spec_silent() <==> options.format != OutputFormat::Human,
{
}

/// A configuration is refused with the message that says why.
pub proof fn law_refusals(fatal: Fatal, message: Seq<char>)
    ensures
        refuses_config(fatal, message) <==> (fatal matches Fatal::BadConfig { message: m } && m@
            == message),
        ends_with(fatal, message) <==> (fatal matches Fatal::Other { message: m } && m@
            == message),
{
}

} // verus!
