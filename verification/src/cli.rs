//! The commands: what they refuse, what they say, and how the program ends.

use crate::config::{stage_models, step_models, ForgeConfig, Stage, StageModel, StepModel};
use crate::numbers::{count_text, decimal, number_text};
use crate::paint::{
    err_text_line, lemma_prints_push, out_line, out_text_line, print_error, print_line, print_text,
    prints, span, spans, Paint, Print, PrintModel,
};
use crate::result::{
    exit_code_for, exit_number, result_code, ExitCode, FailureModel, FailureReason, OutputFormat,
    PipelineResult,
};
use crate::scan::{concatenated, lemma_concatenated_step};
use crate::select::{
    effective_stages, select_stages, selection, selection_problem, selection_problem_text,
    stages_with_default, SelectionProblem,
};
use crate::text::{blank, is_blank, join, joined, lemma_found_within, occurs, texts};
use vstd::prelude::*;
use vstd::string::*;

verus! {

// ---------------------------------------------------------------------------
// How the program ends early
// ---------------------------------------------------------------------------
/// Why the program ends before a run.
#[derive(Debug)]
pub enum Fatal {
    /// The configuration file does not exist.
    ConfigNotFound { file: String },
    /// The configuration cannot be read, breaks a rule or lacks a secret.
    BadConfig { message: String },
    /// Docker cannot be reached.
    DockerConnection { error: String },
    /// Docker does not answer.
    DockerSilent { error: String },
    /// The selected stage does not exist.
    UnknownStage { message: String },
    /// There is nothing to run.
    NothingToRun,
    /// The temporary directory cannot be created.
    TempDir { error: String },
    /// Anything else.
    Other { message: String },
}

/// The error for a configuration file that does not exist.
pub open spec fn config_not_found_text(file: Seq<char>) -> Seq<char> {
    "Configuration file not found: '"@ + file
        + "'\nHint: Run 'forge init' to create an example config"@
}

/// The error for a configuration file that does not exist.
pub fn config_not_found(file: &str) -> (r: String)
    ensures
        r@ == config_not_found_text(file@),
{
    "Configuration file not found: '".to_string().concat(file).concat(
        "'\nHint: Run 'forge init' to create an example config",
    )
}

/// What kind of failure it is; `None` if it is of no particular kind.
pub open spec fn fatal_failure(fatal: Fatal) -> Option<FailureModel> {
    match fatal {
        Fatal::ConfigNotFound { file } => Some(
            FailureModel::ConfigError { message: config_not_found_text(file@) },
        ),
        Fatal::BadConfig { message } => Some(FailureModel::ConfigError { message: message@ }),
        Fatal::DockerConnection { error } => Some(
            FailureModel::DockerError { message: "Failed to connect to Docker: "@ + error@ },
        ),
        Fatal::DockerSilent { error } => Some(
            FailureModel::DockerError { message: "Docker daemon is not responding: "@ + error@ },
        ),
        Fatal::UnknownStage { message } => Some(FailureModel::ConfigError { message: message@ }),
        Fatal::NothingToRun => Some(
            FailureModel::ConfigError { message: "No stages or steps found in configuration"@ },
        ),
        Fatal::TempDir { error } => Some(
            FailureModel::RuntimeError {
                message: "Failed to create temp directory: "@ + error@,
            },
        ),
        Fatal::Other { .. } => None,
    }
}

/// What the user is told.
pub open spec fn fatal_text(fatal: Fatal) -> Seq<char> {
    match fatal {
        Fatal::ConfigNotFound { file } => "config error: "@ + config_not_found_text(file@),
        Fatal::BadConfig { message } => message@,
        Fatal::DockerConnection { error } => error@,
        Fatal::DockerSilent { error } => error@,
        Fatal::UnknownStage { message } => "config error: "@ + message@,
        Fatal::NothingToRun => "config error: "@ + "No stages or steps found in configuration"@,
        Fatal::TempDir { error } => error@,
        Fatal::Other { message } => message@,
    }
}

/// The exit code: that of the kind of failure, and that of a failed run where it
/// is of no particular kind.
pub open spec fn fatal_code(fatal: Fatal) -> ExitCode {
    match fatal {
        Fatal::ConfigNotFound { .. } => ExitCode::ConfigError,
        Fatal::BadConfig { .. } => ExitCode::ConfigError,
        Fatal::DockerConnection { .. } => ExitCode::RuntimeError,
        Fatal::DockerSilent { .. } => ExitCode::RuntimeError,
        Fatal::UnknownStage { .. } => ExitCode::ConfigError,
        Fatal::NothingToRun => ExitCode::ConfigError,
        Fatal::TempDir { .. } => ExitCode::RuntimeError,
        Fatal::Other { .. } => ExitCode::PipelineFailure,
    }
}

impl Fatal {
    /// What kind of failure it is; `None` if it is of no particular kind.
    pub fn reason(&self) -> (r: Option<FailureReason>)
        ensures
            r is Some <==> fatal_failure(*self) is Some,
            r matches Some(reason) ==> Some(reason@) == fatal_failure(*self) && exit_code_for(
                reason,
            ) == fatal_code(*self),
    {
        match self {
            Fatal::ConfigNotFound { file } => Some(
                FailureReason::ConfigError { message: config_not_found(file.as_str()) },
            ),
            Fatal::BadConfig { message } => Some(
                FailureReason::ConfigError { message: message.clone() },
            ),
            Fatal::DockerConnection { error } => Some(
                FailureReason::DockerError {
                    message: "Failed to connect to Docker: ".to_string().concat(error.as_str()),
                },
            ),
            Fatal::DockerSilent { error } => Some(
                FailureReason::DockerError {
                    message: "Docker daemon is not responding: ".to_string().concat(
                        error.as_str(),
                    ),
                },
            ),
            Fatal::UnknownStage { message } => Some(
                FailureReason::ConfigError { message: message.clone() },
            ),
            Fatal::NothingToRun => Some(
                FailureReason::ConfigError {
                    message: "No stages or steps found in configuration".to_string(),
                },
            ),
            Fatal::TempDir { error } => Some(
                FailureReason::RuntimeError {
                    message: "Failed to create temp directory: ".to_string().concat(
                        error.as_str(),
                    ),
                },
            ),
            Fatal::Other { .. } => None,
        }
    }

    /// The line that tells the user.
    pub fn line(&self) -> (r: Print)
        ensures
            r@ == err_text_line("Error: "@ + fatal_text(*self), Paint::RedBold),
    {
        let text = match self {
            Fatal::ConfigNotFound { file } => "config error: ".to_string().concat(
                config_not_found(file.as_str()).as_str(),
            ),
            Fatal::BadConfig { message } => message.clone(),
            Fatal::DockerConnection { error } => error.clone(),
            Fatal::DockerSilent { error } => error.clone(),
            Fatal::UnknownStage { message } => "config error: ".to_string().concat(
                message.as_str(),
            ),
            Fatal::NothingToRun => "config error: ".to_string().concat(
                "No stages or steps found in configuration",
            ),
            Fatal::TempDir { error } => error.clone(),
            Fatal::Other { message } => message.clone(),
        };
        print_error("Error: ".to_string().concat(text.as_str()), Paint::RedBold)
    }

    /// The exit code.
    pub fn exit_code(&self) -> (r: ExitCode)
        ensures
            r == fatal_code(*self),
    {
        match self.reason() {
            Some(reason) => ExitCode::from_failure_reason(&reason),
            None => ExitCode::PipelineFailure,
        }
    }
}

/// The exit code of a run on the dashboard: that of its result, as everywhere. A
/// run that has no result when the dashboard is left was cancelled.
pub open spec fn dashboard_code(result: Option<PipelineResult>) -> ExitCode {
    match result {
        Some(result) => result_code(result),
        None => ExitCode::Cancelled,
    }
}

/// The exit code of a run on the dashboard.
pub fn dashboard_exit(result: &Option<PipelineResult>) -> (r: ExitCode)
    ensures
        r == dashboard_code(*result),
{
    match result {
        Some(result) => result.exit_code(),
        None => ExitCode::Cancelled,
    }
}

// ---------------------------------------------------------------------------
// What runs
// ---------------------------------------------------------------------------
/// Whether standard output is kept free for a report.
pub fn is_silent(format: OutputFormat) -> (r: bool)
    ensures
        r == (format == OutputFormat::Json || format == OutputFormat::Junit),
{
    format == OutputFormat::Json || format == OutputFormat::Junit
}

/// Whether the cache is used, given the switches of the command line: the one
/// that turns it off wins.
pub fn cache_enabled(configured: bool, cache: bool, no_cache: bool) -> (r: bool)
    ensures
        r == (!no_cache && (cache || configured)),
{
    if no_cache {
        false
    } else {
        cache || configured
    }
}

/// The stages that a configuration makes, or those of them that are selected.
pub open spec fn planned_stages(
    stages: Seq<StageModel>,
    steps: Seq<StepModel>,
    stage: Option<Seq<char>>,
) -> Seq<StageModel> {
    match stage {
        Some(name) => selection(effective_stages(stages, steps), name),
        None => effective_stages(stages, steps),
    }
}

/// The stages to run: those of the configuration, or the selected one and all
/// that it needs.
pub fn plan_stages(config: &ForgeConfig, stage: Option<&str>) -> (r: Result<Vec<Stage>, Fatal>)
    ensures
        ({
            let stages = stage_models(config.stages@);
            let steps = step_models(config.steps@);
            let all = effective_stages(stages, steps);
            match stage {
                Some(name) => match selection_problem(all, name@) {
                    None => r matches Ok(list) && stage_models(list@) == planned_stages(
                        stages,
                        steps,
                        Some(name@),
                    ),
                    Some(problem) => r matches Err(fatal) && match problem {
                        SelectionProblem::Unknown { .. } => fatal matches Fatal::UnknownStage {
                            message,
                        } && message@ == selection_problem_text(problem),
                        SelectionProblem::Undefined { .. } => fatal matches Fatal::BadConfig {
                            message,
                        } && message@ == selection_problem_text(problem),
                    },
                },
                None => if all.len() == 0 {
                    r matches Err(fatal) && fatal is NothingToRun
                } else {
                    r matches Ok(list) && stage_models(list@) == planned_stages(
                        stages,
                        steps,
                        None,
                    )
                },
            }
        }),
{
    let all = stages_with_default(config.stages.as_slice(), config.steps.as_slice());
    assert(stage_models(all@).len() == all@.len());
    match stage {
        Some(name) => match select_stages(all.as_slice(), name) {
            Ok(list) => Ok(list),
            Err(problem) => {
                let message = problem.message();
                match problem {
                    SelectionProblem::Unknown { .. } => Err(Fatal::UnknownStage { message }),
                    SelectionProblem::Undefined { .. } => Err(Fatal::BadConfig { message }),
                }
            },
        },
        None => if all.len() == 0 {
            Err(Fatal::NothingToRun)
        } else {
            Ok(all)
        },
    }
}

// ---------------------------------------------------------------------------
// What a run says
// ---------------------------------------------------------------------------
/// The first line of a run; none on the dashboard or where standard output is
/// kept free.
pub fn banner(tui: bool, silent: bool, dry_run: bool) -> (r: Option<Print>)
    ensures
        r is Some <==> !tui && !silent,
        r matches Some(p) ==> p@ == out_text_line(
            if dry_run {
                "FORGE Pipeline Runner (DRY RUN MODE)"@
            } else {
                "FORGE Pipeline Runner"@
            },
            Paint::CyanBold,
        ),
{
    if tui || silent {
        None
    } else if dry_run {
        Some(print_text("FORGE Pipeline Runner (DRY RUN MODE)".to_string(), Paint::CyanBold))
    } else {
        Some(print_text("FORGE Pipeline Runner".to_string(), Paint::CyanBold))
    }
}

/// The line that tells the order of the stages, when details are asked for.
pub fn execution_order_line(order: &[String]) -> (r: Print)
    ensures
        r@ == out_line(
            seq![
                ("[INFO]"@, Paint::Blue),
                (" Execution order: "@ + joined(texts(order@), " -> "@), Paint::Plain),
            ],
        ),
{
    let list = vec![
        span("[INFO]".to_string(), Paint::Blue),
        span(
            " Execution order: ".to_string().concat(join(order, " -> ").as_str()),
            Paint::Plain,
        ),
    ];
    assert(spans(list@) =~= seq![
        ("[INFO]"@, Paint::Blue),
        (" Execution order: "@ + joined(texts(order@), " -> "@), Paint::Plain),
    ]);
    print_line(list)
}

/// What is being timed while a stage runs.
pub fn stage_operation(stage_name: &str) -> (r: String)
    ensures
        r@ == "Stage '"@ + stage_name@ + "'"@,
{
    "Stage '".to_string().concat(stage_name).concat("'")
}

/// The lines about the version.
pub fn version_lines(version: &str, commit: &str, built: &str) -> (r: Vec<Print>)
    ensures
        prints(r@) == seq![
            out_line(
                seq![
                    ("FORGE"@, Paint::CyanBold),
                    (" "@, Paint::Plain),
                    (version@, Paint::Green),
                ],
            ),
            out_text_line("  Commit: "@ + commit@, Paint::Plain),
            out_text_line("  Built:  "@ + built@, Paint::Plain),
        ],
{
    let list = vec![
        span("FORGE".to_string(), Paint::CyanBold),
        span(" ".to_string(), Paint::Plain),
        span(version.to_string(), Paint::Green),
    ];
    assert(spans(list@) =~= seq![
        ("FORGE"@, Paint::CyanBold),
        (" "@, Paint::Plain),
        (version@, Paint::Green),
    ]);
    let r = vec![
        print_line(list),
        print_text("  Commit: ".to_string().concat(commit), Paint::Plain),
        print_text("  Built:  ".to_string().concat(built), Paint::Plain),
    ];
    assert(prints(r@) =~= seq![
        out_line(
            seq![("FORGE"@, Paint::CyanBold), (" "@, Paint::Plain), (version@, Paint::Green)],
        ),
        out_text_line("  Commit: "@ + commit@, Paint::Plain),
        out_text_line("  Built:  "@ + built@, Paint::Plain),
    ]);
    r
}

/// The error where no command is given.
pub fn no_command_error() -> (r: String)
    ensures
        r@
            == "No command provided\nAvailable commands:\n• forge run      - Execute the pipeline\n• forge init     - Create example config\n• forge validate - Check config syntax\n• forge --help   - Show detailed help\n\nHint: Start with 'forge init' to create your first pipeline"@,
{
    "No command provided\nAvailable commands:\n• forge run      - Execute the pipeline\n• forge init     - Create example config\n• forge validate - Check config syntax\n• forge --help   - Show detailed help\n\nHint: Start with 'forge init' to create your first pipeline".to_string()
}

// ---------------------------------------------------------------------------
// Reading the configuration
// ---------------------------------------------------------------------------
/// What went wrong with a configuration file.
#[derive(Debug, Clone, Copy)]
pub enum ConfigFault {
    /// It cannot be opened.
    Open,
    /// It cannot be read.
    Read,
    /// It is not a configuration.
    Parse,
}

/// The error for a configuration file.
pub open spec fn config_fault_text(fault: ConfigFault, path: Seq<char>, error: Seq<char>) -> Seq<
    char,
> {
    match fault {
        ConfigFault::Open => "Failed to open configuration file '"@ + path + "': "@ + error
            + "\nHint: Run 'forge init' to create an example config, or check if the file path is correct"@,
        ConfigFault::Read => "Failed to read configuration file '"@ + path + "': "@ + error
            + "\nHint: Check file permissions and ensure the file is not corrupted"@,
        ConfigFault::Parse => "Invalid YAML configuration in '"@ + path + "': "@ + error
            + "\nHint: Check your YAML syntax - common issues include incorrect indentation, \nmissing colons, or invalid field names. Run 'forge validate' for detailed validation"@,
    }
}

/// The error for a configuration file.
pub fn read_forge_config_error(fault: ConfigFault, path: &str, error: &str) -> (r: String)
    ensures
        r@ == config_fault_text(fault, path@, error@),
{
    match fault {
        ConfigFault::Open => "Failed to open configuration file '".to_string().concat(path).concat(
            "': ",
        ).concat(error).concat(
            "\nHint: Run 'forge init' to create an example config, or check if the file path is correct",
        ),
        ConfigFault::Read => "Failed to read configuration file '".to_string().concat(path).concat(
            "': ",
        ).concat(error).concat(
            "\nHint: Check file permissions and ensure the file is not corrupted",
        ),
        ConfigFault::Parse => "Invalid YAML configuration in '".to_string().concat(path).concat(
            "': ",
        ).concat(error).concat(
            "\nHint: Check your YAML syntax - common issues include incorrect indentation, \nmissing colons, or invalid field names. Run 'forge validate' for detailed validation",
        ),
    }
}

// ---------------------------------------------------------------------------
// Dry run
// ---------------------------------------------------------------------------
/// A line that starts with a green `[OK]`.
pub open spec fn ok_line(text: Seq<char>) -> PrintModel {
    out_line(seq![("[OK]"@, Paint::Green), (text, Paint::Plain)])
}

/// A line that starts with a green `[OK]`.
fn print_ok(text: String) -> (r: Print)
    ensures
        r@ == ok_line(text@),
{
    let list = vec![span("[OK]".to_string(), Paint::Green), span(text, Paint::Plain)];
    assert(spans(list@) =~= seq![("[OK]"@, Paint::Green), (text@, Paint::Plain)]);
    print_line(list)
}

/// The first lines of a dry run.
pub fn dry_run_intro(file: &str) -> (r: Vec<Print>)
    ensures
        prints(r@) == seq![
            ok_line(" Configuration validated: "@ + file@),
            ok_line(" Docker connection verified"@),
        ],
{
    let r = vec![
        print_ok(" Configuration validated: ".to_string().concat(file)),
        print_ok(" Docker connection verified".to_string()),
    ];
    assert(prints(r@) =~= seq![
        ok_line(" Configuration validated: "@ + file@),
        ok_line(" Docker connection verified"@),
    ]);
    r
}

/// The number of steps of all stages.
pub open spec fn total_steps(stages: Seq<StageModel>) -> nat
    decreases stages.len(),
{
    if stages.len() == 0 {
        0
    } else {
        total_steps(stages.drop_last()) + stages.last().steps.len()
    }
}

/// The line of stage number `i` of the order.
pub open spec fn order_line(stage: StageModel, i: int) -> PrintModel {
    out_line(
        seq![
            ("  "@ + decimal((i + 1) as nat) + ". "@, Paint::Plain),
            (stage.name, Paint::Cyan),
            (
                if stage.parallel {
                    " [parallel]"@
                } else {
                    ""@
                },
                Paint::Yellow,
            ),
            (
                if stage.depends_on.len() == 0 {
                    ""@
                } else {
                    " (after: "@ + joined(stage.depends_on, ", "@) + ")"@
                },
                Paint::Dim,
            ),
        ],
    )
}

/// The line of step number `j` of a stage.
pub open spec fn command_line(step: StepModel, j: int) -> PrintModel {
    out_line(
        seq![
            ("     "@, Paint::Plain),
            ("["@ + decimal((j + 1) as nat) + "]"@, Paint::Dim),
            (
                " "@ + (if blank(step.command) {
                    "<no command>"@
                } else {
                    step.command
                }),
                Paint::Plain,
            ),
        ],
    )
}

/// The lines of stage number `i` of the order and of its steps.
pub open spec fn order_lines(stages: Seq<StageModel>, i: int) -> Seq<PrintModel> {
    seq![order_line(stages[i], i)] + Seq::new(
        stages[i].steps.len(),
        |j: int| command_line(stages[i].steps[j], j),
    )
}

/// What a dry run says of the stages, in the order in which they would run.
pub open spec fn dry_run_lines(stages: Seq<StageModel>, scheduled: Seq<StageModel>) -> Seq<
    PrintModel,
> {
    seq![
        ok_line(
            " "@ + decimal(stages.len()) + " stages, "@ + decimal(total_steps(stages))
                + " steps"@,
        ),
        out_line(seq![("\n"@, Paint::Plain), ("Execution order:"@, Paint::CyanBold)]),
    ] + concatenated(Seq::new(scheduled.len(), |i: int| order_lines(scheduled, i))) + seq![
        out_line(
            seq![
                ("\n"@, Paint::Plain),
                ("[OK]"@, Paint::GreenBold),
                (" "@, Paint::Plain),
                ("Pipeline validation completed!"@, Paint::Green),
            ],
        ),
    ]
}

/// The number of steps of all stages.
fn count_all_steps(stages: &[Stage]) -> (r: u128)
    ensures
        r == total_steps(stage_models(stages@)),
{
    let ghost models = stage_models(stages@);
    let n: usize = stages.len();
    let mut total: u128 = 0;
    let mut i: usize = 0;
    assert(models.take(0) =~= Seq::<StageModel>::empty());
    while i < n
        invariant
            i <= n,
            n == stages@.len(),
            models == stage_models(stages@),
            total == total_steps(models.take(i as int)),
            total <= i * 0xffff_ffff_ffff_ffff,
        decreases n - i,
    {
        assert(models.take(i + 1).drop_last() =~= models.take(i as int));
        assert(models.take(i + 1).last() == stages@[i as int]@);
        let more: usize = stages[i].steps.len();
        assert(stages@[i as int]@.steps.len() == more);
        total = total + more as u128;
        i += 1;
    }
    assert(models.take(n as int) =~= models);
    total
}

/// The line of a stage of the order.
fn print_order_line(stage: &Stage, i: usize) -> (r: Print)
    requires
        i < usize::MAX,
    ensures
        r@ == order_line(stage@, i as int),
{
    let tag = if stage.parallel {
        " [parallel]"
    } else {
        ""
    };
    let after = if stage.depends_on.len() == 0 {
        "".to_string()
    } else {
        " (after: ".to_string().concat(join(stage.depends_on.as_slice(), ", ").as_str()).concat(
            ")",
        )
    };
    assert(stage@.depends_on.len() == stage.depends_on@.len());
    let list = vec![
        span("  ".to_string().concat(count_text(i + 1).as_str()).concat(". "), Paint::Plain),
        span(stage.name.clone(), Paint::Cyan),
        span(tag.to_string(), Paint::Yellow),
        span(after, Paint::Dim),
    ];
    assert(spans(list@) =~= order_line(stage@, i as int).spans);
    print_line(list)
}

/// Appends the lines of a stage of the order and of its steps.
fn print_order(stage: &Stage, i: usize, out: &mut Vec<Print>)
    requires
        i < usize::MAX,
    ensures
        prints(final(out)@) == prints(old(out)@) + (seq![order_line(stage@, i as int)] + Seq::new(
            stage@.steps.len(),
            |j: int| command_line(stage@.steps[j], j),
        )),
{
    let ghost start = prints(out@);
    let ghost head = seq![order_line(stage@, i as int)];
    let ghost body = Seq::new(stage@.steps.len(), |j: int| command_line(stage@.steps[j], j));
    out.push(print_order_line(stage, i));
    assert(prints(out@) =~= start + (head + body.take(0)));
    let n: usize = stage.steps.len();
    let mut j: usize = 0;
    while j < n
        invariant
            j <= n,
            n == stage.steps@.len(),
            body == Seq::new(stage@.steps.len(), |j: int| command_line(stage@.steps[j], j)),
            prints(out@) == start + (head + body.take(j as int)),
        decreases n - j,
    {
        assert(stage@.steps[j as int] == stage.steps@[j as int]@);
        let command = if is_blank(stage.steps[j].command.as_str()) {
            " ".to_string().concat("<no command>")
        } else {
            " ".to_string().concat(stage.steps[j].command.as_str())
        };
        let list = vec![
            span("     ".to_string(), Paint::Plain),
            span("[".to_string().concat(count_text(j + 1).as_str()).concat("]"), Paint::Dim),
            span(command, Paint::Plain),
        ];
        assert(spans(list@) =~= command_line(stage@.steps[j as int], j as int).spans);
        let line = print_line(list);
        proof {
            assert(line@ == body[j as int]);
            lemma_prints_push(out@, line);
            assert(start + (head + body.take(j + 1)) =~= (start + (head + body.take(
                j as int,
            ))).push(line@));
        }
        out.push(line);
        j += 1;
    }
    assert(body.take(j as int) =~= body);
}

/// What a dry run says of the stages, in the order in which they would run.
pub fn dry_run_report(stages: &[Stage], scheduled: &[Stage]) -> (r: Vec<Print>)
    ensures
        prints(r@) == dry_run_lines(stage_models(stages@), stage_models(scheduled@)),
{
    let ghost models = stage_models(scheduled@);
    let ghost parts = Seq::new(models.len(), |i: int| order_lines(models, i));
    let figures = " ".to_string().concat(count_text(stages.len()).as_str()).concat(
        " stages, ",
    ).concat(number_text(count_all_steps(stages)).as_str()).concat(" steps");
    let title = vec![
        span("\n".to_string(), Paint::Plain),
        span("Execution order:".to_string(), Paint::CyanBold),
    ];
    assert(spans(title@) =~= seq![("\n"@, Paint::Plain), ("Execution order:"@, Paint::CyanBold)]);
    let mut r = vec![print_ok(figures), print_line(title)];
    let ghost head = seq![
        ok_line(
            " "@ + decimal(stages@.len()) + " stages, "@ + decimal(
                total_steps(stage_models(stages@)),
            ) + " steps"@,
        ),
        out_line(seq![("\n"@, Paint::Plain), ("Execution order:"@, Paint::CyanBold)]),
    ];
    assert(prints(r@) =~= head);
    assert(head + concatenated(parts.take(0)) =~= head);
    let n: usize = scheduled.len();
    let mut i: usize = 0;
    while i < n
        invariant
            i <= n,
            n == scheduled@.len(),
            models == stage_models(scheduled@),
            parts == Seq::new(models.len(), |i: int| order_lines(models, i)),
            prints(r@) == head + concatenated(parts.take(i as int)),
        decreases n - i,
    {
        proof {
            lemma_concatenated_step(parts, i as int);
            assert(models[i as int] == scheduled@[i as int]@);
        }
        let ghost before = concatenated(parts.take(i as int));
        print_order(&scheduled[i], i, &mut r);
        i += 1;
        assert(prints(r@) =~= head + (before + parts[i - 1]));
    }
    assert(parts.take(n as int) =~= parts);
    let end = vec![
        span("\n".to_string(), Paint::Plain),
        span("[OK]".to_string(), Paint::GreenBold),
        span(" ".to_string(), Paint::Plain),
        span("Pipeline validation completed!".to_string(), Paint::Green),
    ];
    assert(spans(end@) =~= seq![
        ("\n"@, Paint::Plain),
        ("[OK]"@, Paint::GreenBold),
        (" "@, Paint::Plain),
        ("Pipeline validation completed!"@, Paint::Green),
    ]);
    let line = print_line(end);
    proof {
        lemma_prints_push(r@, line);
        assert(prints(r@).push(line@) =~= prints(r@) + seq![line@]);
    }
    r.push(line);
    r
}

// ---------------------------------------------------------------------------
// Laws
// ---------------------------------------------------------------------------
/// How a program that ends early ends: with two if the configuration is at fault,
/// with three if Docker or the machine is, and with one otherwise; never with zero.
pub proof fn law_number_of_an_early_end(fatal: Fatal)
    ensures
        exit_number(fatal_code(fatal)) == 2 <==> fatal is ConfigNotFound || fatal is BadConfig
            || fatal is UnknownStage || fatal is NothingToRun,
        exit_number(fatal_code(fatal)) == 3 <==> fatal is DockerConnection || fatal is DockerSilent
            || fatal is TempDir,
        exit_number(fatal_code(fatal)) == 1 <==> fatal is Other,
{
}

/// What is said at an early end holds what is known of the reason.
pub proof fn law_an_early_end_is_explained(fatal: Fatal)
    ensures
        match fatal {
            Fatal::ConfigNotFound { file } => occurs(fatal_text(fatal), file@),
            Fatal::BadConfig { message } => fatal_text(fatal) == message@,
            Fatal::DockerConnection { error } => fatal_text(fatal) == error@,
            Fatal::DockerSilent { error } => fatal_text(fatal) == error@,
            Fatal::UnknownStage { message } => occurs(fatal_text(fatal), message@),
            Fatal::NothingToRun => occurs(
                fatal_text(fatal),
                "No stages or steps found in configuration"@,
            ),
            Fatal::TempDir { error } => fatal_text(fatal) == error@,
            Fatal::Other { message } => fatal_text(fatal) == message@,
        },
{
    let none = Seq::<char>::empty();
    let head = "config error: "@;
    match fatal {
        Fatal::ConfigNotFound { file } => {
            let a = head + "Configuration file not found: '"@;
            let b = "'\nHint: Run 'forge init' to create an example config"@;
            assert(fatal_text(fatal) =~= a + file@ + b);
            lemma_found_within(a, file@, b);
        },
        Fatal::UnknownStage { message } => {
            assert(fatal_text(fatal) =~= head + message@ + none);
            lemma_found_within(head, message@, none);
        },
        Fatal::NothingToRun => {
            let text = "No stages or steps found in configuration"@;
            assert(fatal_text(fatal) =~= head + text + none);
            lemma_found_within(head, text, none);
        },
        _ => {},
    }
}

/// A run on the dashboard ends with zero if and only if it has a result without a
/// failure, as its result says if it has one, and with four if it has none yet.
pub proof fn law_how_the_dashboard_ends(result: Option<PipelineResult>)
    ensures
        exit_number(dashboard_code(result)) == 0 <==> (result matches Some(r) && r.failure is None),
        result is None ==> exit_number(dashboard_code(result)) == 4,
        result matches Some(r) ==> dashboard_code(result) == result_code(r),
{
}

/// Without a selection everything runs, and with one what the selected stage needs.
pub proof fn law_what_is_planned(
    stages: Seq<StageModel>,
    steps: Seq<StepModel>,
    name: Seq<char>,
)
    ensures
        stages.len() > 0 ==> planned_stages(stages, steps, None) == stages,
        stages.len() > 0 ==> planned_stages(stages, steps, Some(name)) == selection(stages, name),
        stages.len() == 0 && steps.len() > 0 ==> {
            let all = planned_stages(stages, steps, None);
            &&& all.len() == 1
            &&& all[0].steps == steps
        },
{
}

/// Counting the steps of all stages is counting the steps.
proof fn lemma_total_steps(stages: Seq<StageModel>)
    ensures
        total_steps(stages) == concatenated(stages.map_values(|s: StageModel| s.steps)).len(),
    decreases stages.len(),
{
    if stages.len() > 0 {
        lemma_total_steps(stages.drop_last());
        let parts = stages.map_values(|s: StageModel| s.steps);
        assert(parts.drop_last() =~= stages.drop_last().map_values(|s: StageModel| s.steps));
    }
}

/// A dry run tells how many stages and steps there are and then, in the order in
/// which they would run, every stage with its number, its name, whether it is
/// parallel and what it waits for, and below it the command of every step.
#[verifier::spinoff_prover]
pub proof fn law_a_dry_run_tells_everything(
    stages: Seq<StageModel>,
    scheduled: Seq<StageModel>,
) -> (parts: Seq<Seq<PrintModel>>)
    ensures
        ({
            let lines = dry_run_lines(stages, scheduled);
            let n = concatenated(stages.map_values(|s: StageModel| s.steps)).len();
            &&& parts.len() == scheduled.len()
            &&& lines.len() == concatenated(parts).len() + 3
            &&& lines[0].spans[1].0 == " "@ + decimal(stages.len()) + " stages, "@ + decimal(n)
                + " steps"@
            &&& lines[0].spans[0].0 == "[OK]"@
            &&& lines[1].spans[1].0 == "Execution order:"@
            &&& lines.last().spans[3].0 == "Pipeline validation completed!"@
            &&& forall|k: int| 0 <= k < lines.len() ==> !(#[trigger] lines[k]).to_stderr
            &&& lines.subrange(2, lines.len() - 1) == concatenated(parts)
            &&& forall|i: int|
                #![trigger parts[i]]
                0 <= i < scheduled.len() ==> {
                    &&& parts[i].len() == 1 + scheduled[i].steps.len()
                    &&& parts[i][0].spans.len() == 4
                    &&& parts[i][0].spans[0].0 == "  "@ + decimal((i + 1) as nat) + ". "@
                    &&& parts[i][0].spans[1].0 == scheduled[i].name
                    &&& parts[i][0].spans[2].0 == if scheduled[i].parallel {
                        " [parallel]"@
                    } else {
                        ""@
                    }
                    &&& parts[i][0].spans[3].0 == if scheduled[i].depends_on.len() == 0 {
                        ""@
                    } else {
                        " (after: "@ + joined(scheduled[i].depends_on, ", "@) + ")"@
                    }
                }
            &&& forall|i: int, j: int|
                #![trigger parts[i][1 + j]]
                0 <= i < scheduled.len() && 0 <= j < scheduled[i].steps.len() ==> {
                    let step = scheduled[i].steps[j];
                    &&& parts[i][1 + j].spans[1].0 == "["@ + decimal((j + 1) as nat) + "]"@
                    &&& parts[i][1 + j].spans[2].0 == " "@ + (if blank(step.command) {
                        "<no command>"@
                    } else {
                        step.command
                    })
                }
        }),
{
    let parts = Seq::new(scheduled.len(), |i: int| order_lines(scheduled, i));
    let lines = dry_run_lines(stages, scheduled);
    lemma_total_steps(stages);
    assert(lines.subrange(2, lines.len() - 1) =~= concatenated(parts));
    assert forall|k: int| 0 <= k < lines.len() implies !(#[trigger] lines[k]).to_stderr by {
        if 2 <= k < lines.len() - 1 {
            assert(parts.take(scheduled.len() as int) =~= parts);
            lemma_order_lines_on_stdout(scheduled, scheduled.len() as int, k - 2);
            assert(lines[k] == concatenated(parts)[k - 2]);
        }
    }
    parts
}

/// The reason of an early end is of the kind that its number stands for, and holds
/// what is known.
pub proof fn law_reason_of_an_early_end(fatal: Fatal)
    ensures
        fatal_failure(fatal) is None <==> fatal is Other,
        fatal_failure(fatal) matches Some(reason) ==> {
            &&& reason is ConfigError <==> fatal is ConfigNotFound || fatal is BadConfig
                || fatal is UnknownStage || fatal is NothingToRun
            &&& reason is DockerError <==> fatal is DockerConnection || fatal is DockerSilent
            &&& reason is RuntimeError <==> fatal is TempDir
            &&& fatal matches Fatal::BadConfig { message: m } ==> reason
                == (FailureModel::ConfigError { message: m@ })
            &&& fatal matches Fatal::UnknownStage { message: m } ==> reason
                == (FailureModel::ConfigError { message: m@ })
            &&& fatal matches Fatal::DockerConnection { error } ==> reason
                == (FailureModel::DockerError {
                message: "Failed to connect to Docker: "@ + error@,
            })
            &&& fatal matches Fatal::DockerSilent { error } ==> reason
                == (FailureModel::DockerError {
                message: "Docker daemon is not responding: "@ + error@,
            })
            &&& fatal matches Fatal::TempDir { error } ==> reason == (FailureModel::RuntimeError {
                message: "Failed to create temp directory: "@ + error@,
            })
            &&& fatal matches Fatal::ConfigNotFound { file } ==> reason
                == (FailureModel::ConfigError { message: config_not_found_text(file@) })
        },
{
}

/// What is said of a configuration that cannot be read names the file and the error.
#[verifier::spinoff_prover]
pub proof fn law_a_bad_file_is_named(fault: ConfigFault, path: Seq<char>, error: Seq<char>)
    ensures
        occurs(config_fault_text(fault, path, error), "'"@ + path + "': "@ + error),
{
    let part = "'"@ + path + "': "@ + error;
    reveal_strlit("'");
    let (head, tail) = match fault {
        ConfigFault::Open => (
            "Failed to open configuration file "@,
            "\nHint: Run 'forge init' to create an example config, or check if the file path is correct"@,
        ),
        ConfigFault::Read => (
            "Failed to read configuration file "@,
            "\nHint: Check file permissions and ensure the file is not corrupted"@,
        ),
        ConfigFault::Parse => (
            "Invalid YAML configuration in "@,
            "\nHint: Check your YAML syntax - common issues include incorrect indentation, \nmissing colons, or invalid field names. Run 'forge validate' for detailed validation"@,
        ),
    };
    assert("Failed to open configuration file '"@ =~= "Failed to open configuration file "@ + "'"@)
        by {
        reveal_strlit("Failed to open configuration file '");
        reveal_strlit("Failed to open configuration file ");
    }
    assert("Failed to read configuration file '"@ =~= "Failed to read configuration file "@ + "'"@)
        by {
        reveal_strlit("Failed to read configuration file '");
        reveal_strlit("Failed to read configuration file ");
    }
    assert("Invalid YAML configuration in '"@ =~= "Invalid YAML configuration in "@ + "'"@) by {
        reveal_strlit("Invalid YAML configuration in '");
        reveal_strlit("Invalid YAML configuration in ");
    }
    assert(config_fault_text(fault, path, error) =~= head + part + tail);
    lemma_found_within(head, part, tail);
}

/// The lines about the stages go to standard output.
proof fn lemma_order_lines_on_stdout(scheduled: Seq<StageModel>, n: int, k: int)
    requires
        0 <= n <= scheduled.len(),
        ({
            let parts = Seq::new(scheduled.len(), |i: int| order_lines(scheduled, i));
            0 <= k < concatenated(parts.take(n)).len()
        }),
    ensures
        ({
            let parts = Seq::new(scheduled.len(), |i: int| order_lines(scheduled, i));
            !concatenated(parts.take(n))[k].to_stderr
        }),
    decreases n,
{
    let parts = Seq::new(scheduled.len(), |i: int| order_lines(scheduled, i));
    if n > 0 {
        lemma_concatenated_step(parts, n - 1);
        let before = concatenated(parts.take(n - 1));
        if k < before.len() {
            lemma_order_lines_on_stdout(scheduled, n - 1, k);
        } else {
            let line = order_lines(scheduled, n - 1)[k - before.len()];
            assert(concatenated(parts.take(n))[k] == line);
        }
    }
}

} // verus!
