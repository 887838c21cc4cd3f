//! Structured execution results.
//!
//! These types are the contract between the executor and everything that reads
//! its outcome: summaries, reports and run history. All status values are typed
//! enums, and secret values never appear in them; callers see to that.

use crate::clock::Elapsed;
use crate::numbers::{
    decimal, leading_number, lemma_number_read_back, number_at, signed_decimal, signed_text,
};
use crate::text::{
    chars_of, find, first_occurrence, law_small_letters, lemma_first_occurrence,
    lemma_found_within, lowercase, occurs, occurs_at, same_text, to_lowercase,
};
use vstd::prelude::*;
use vstd::string::*;

verus! {

// ---------------------------------------------------------------------------
// Exit codes
// ---------------------------------------------------------------------------
/// Canonical exit codes of the command-line program.
///
/// ```text
/// 0 = success
/// 1 = pipeline execution failure (a step or stage returned non-zero)
/// 2 = config / validation error (bad YAML, missing field, circular dep)
/// 3 = Docker / runtime error (daemon unreachable, image pull failed)
/// 4 = cancelled (user interrupted with Ctrl-C or TUI quit)
/// 5 = timeout (step exceeded timeout)
/// ```
#[derive(Debug, Clone, Copy, PartialEq, Eq, Structural)]
pub enum ExitCode {
    Success,
    PipelineFailure,
    ConfigError,
    RuntimeError,
    Cancelled,
    Timeout,
}

/// The number of an exit code.
pub open spec fn exit_number(code: ExitCode) -> i32 {
    match code {
        ExitCode::Success => 0,
        ExitCode::PipelineFailure => 1,
        ExitCode::ConfigError => 2,
        ExitCode::RuntimeError => 3,
        ExitCode::Cancelled => 4,
        ExitCode::Timeout => 5,
    }
}

/// The exit code for a failure.
pub open spec fn exit_code_for(reason: FailureReason) -> ExitCode {
    match reason {
        FailureReason::StepFailed { .. } => ExitCode::PipelineFailure,
        FailureReason::StepError { .. } => ExitCode::PipelineFailure,
        FailureReason::ConfigError { .. } => ExitCode::ConfigError,
        FailureReason::DockerError { .. } => ExitCode::RuntimeError,
        FailureReason::RuntimeError { .. } => ExitCode::RuntimeError,
        FailureReason::Cancelled => ExitCode::Cancelled,
        FailureReason::Timeout { .. } => ExitCode::Timeout,
    }
}

impl ExitCode {
    /// The numeric code for the process.
    pub fn as_i32(self) -> (r: i32)
        ensures
            r == exit_number(self),
    {
        match self {
            ExitCode::Success => 0,
            ExitCode::PipelineFailure => 1,
            ExitCode::ConfigError => 2,
            ExitCode::RuntimeError => 3,
            ExitCode::Cancelled => 4,
            ExitCode::Timeout => 5,
        }
    }

    /// The exit code for a failure.
    pub fn from_failure_reason(reason: &FailureReason) -> (r: ExitCode)
        ensures
            r == exit_code_for(*reason),
    {
        match reason {
            FailureReason::StepFailed { .. } => ExitCode::PipelineFailure,
            FailureReason::StepError { .. } => ExitCode::PipelineFailure,
            FailureReason::ConfigError { .. } => ExitCode::ConfigError,
            FailureReason::DockerError { .. } => ExitCode::RuntimeError,
            FailureReason::RuntimeError { .. } => ExitCode::RuntimeError,
            FailureReason::Cancelled => ExitCode::Cancelled,
            FailureReason::Timeout { .. } => ExitCode::Timeout,
        }
    }
}

/// The process ends with zero if and only if nothing failed, and different exit
/// codes have different numbers.
pub proof fn law_exit_codes(reason: FailureReason, a: ExitCode, b: ExitCode)
    ensures
        exit_number(exit_code_for(reason)) != 0,
        exit_number(ExitCode::Success) == 0,
        exit_number(a) == exit_number(b) ==> a == b,
        0 <= exit_number(a) <= 5,
{
}

// ---------------------------------------------------------------------------
// Execution status
// ---------------------------------------------------------------------------
/// Execution status of a pipeline, stage, or step.
#[derive(Debug, Clone, Copy, PartialEq, Eq, Structural)]
pub enum ExecutionStatus {
    /// Completed without error.
    Success,
    /// Completed with an error or non-zero exit code.
    Failed,
    /// Was not run because an earlier dependency failed.
    Skipped,
    /// Was aborted by user or by a sibling-failure abort signal.
    Cancelled,
    /// Exceeded the configured timeout.
    Timeout,
}

/// The symbol of a status in the human summary.
pub open spec fn status_symbol(status: ExecutionStatus) -> Seq<char> {
    match status {
        ExecutionStatus::Success => "✓"@,
        ExecutionStatus::Failed => "✗"@,
        ExecutionStatus::Skipped => "-"@,
        ExecutionStatus::Cancelled => "⊘"@,
        ExecutionStatus::Timeout => "⏱"@,
    }
}

impl ExecutionStatus {
    /// Whether the status represents a successful outcome.
    pub fn is_success(&self) -> (r: bool)
        ensures
            r == (*self == ExecutionStatus::Success),
    {
        *self == ExecutionStatus::Success
    }

    /// A short display symbol for the human summary.
    pub fn symbol(&self) -> (r: &'static str)
        ensures
            r@ == status_symbol(*self),
    {
        match self {
            ExecutionStatus::Success => "✓",
            ExecutionStatus::Failed => "✗",
            ExecutionStatus::Skipped => "-",
            ExecutionStatus::Cancelled => "⊘",
            ExecutionStatus::Timeout => "⏱",
        }
    }
}

// ---------------------------------------------------------------------------
// Failure reason
// ---------------------------------------------------------------------------
/// Structured reason for a pipeline or step failure.
///
/// It drives both the exit code and the failure description in the summary.
#[derive(Debug, Clone)]
pub enum FailureReason {
    /// A step's command returned a non-zero exit code.
    StepFailed { stage: String, step: String, exit_code: i32 },
    /// A step encountered an unexpected execution error that is not simply a
    /// non-zero command exit code.
    StepError { stage: String, step: String, message: String },
    /// The pipeline configuration is invalid.
    ConfigError { message: String },
    /// Docker is unavailable or a Docker call failed.
    DockerError { message: String },
    /// A runtime error that does not fit the categories above.
    RuntimeError { message: String },
    /// The pipeline was cancelled by the user.
    Cancelled,
    /// A step exceeded its timeout.
    Timeout { stage: String, step: String },
}

/// The short description of a failure.
pub open spec fn failure_text(reason: FailureReason) -> Seq<char> {
    match reason {
        FailureReason::StepFailed { stage, step, exit_code } => stage@ + " / "@ + step@ + " (exit "@
            + signed_decimal(exit_code as int) + ")"@,
        FailureReason::StepError { stage, step, .. } => stage@ + " / "@ + step@,
        FailureReason::ConfigError { message } => "config error: "@ + message@,
        FailureReason::DockerError { message } => "docker error: "@ + message@,
        FailureReason::RuntimeError { message } => "runtime error: "@ + message@,
        FailureReason::Cancelled => "cancelled by user"@,
        FailureReason::Timeout { stage, step } => stage@ + " / "@ + step@ + " (timeout)"@,
    }
}

/// What a `FailureReason` holds.
pub enum FailureModel {
    StepFailed { stage: Seq<char>, step: Seq<char>, exit_code: i32 },
    StepError { stage: Seq<char>, step: Seq<char>, message: Seq<char> },
    ConfigError { message: Seq<char> },
    DockerError { message: Seq<char> },
    RuntimeError { message: Seq<char> },
    Cancelled,
    Timeout { stage: Seq<char>, step: Seq<char> },
}

impl View for FailureReason {
    type V = FailureModel;

    open spec fn view(&self) -> FailureModel {
        match self {
            FailureReason::StepFailed { stage, step, exit_code } => FailureModel::StepFailed {
                stage: stage@,
                step: step@,
                exit_code: *exit_code,
            },
            FailureReason::StepError { stage, step, message } => FailureModel::StepError {
                stage: stage@,
                step: step@,
                message: message@,
            },
            FailureReason::ConfigError { message } => FailureModel::ConfigError {
                message: message@,
            },
            FailureReason::DockerError { message } => FailureModel::DockerError {
                message: message@,
            },
            FailureReason::RuntimeError { message } => FailureModel::RuntimeError {
                message: message@,
            },
            FailureReason::Cancelled => FailureModel::Cancelled,
            FailureReason::Timeout { stage, step } => FailureModel::Timeout {
                stage: stage@,
                step: step@,
            },
        }
    }
}

/// The exit code that a message names: the number after the first `exit code `.
pub open spec fn exit_code_in(msg: Seq<char>) -> Option<i32> {
    if occurs(msg, "exit code "@) {
        leading_number(msg.skip(first_occurrence(msg, "exit code "@) + "exit code "@.len()))
    } else {
        None
    }
}

impl FailureReason {
    /// A short human-readable description used in the summary line.
    pub fn short_description(&self) -> (r: String)
        ensures
            r@ == failure_text(*self),
    {
        match self {
            FailureReason::StepFailed { stage, step, exit_code } => stage.clone().concat(
                " / ",
            ).concat(step.as_str()).concat(" (exit ").concat(
                signed_text(*exit_code as i64).as_str(),
            ).concat(")"),
            FailureReason::StepError { stage, step, .. } => stage.clone().concat(" / ").concat(
                step.as_str(),
            ),
            FailureReason::ConfigError { message } => "config error: ".to_string().concat(
                message.as_str(),
            ),
            FailureReason::DockerError { message } => "docker error: ".to_string().concat(
                message.as_str(),
            ),
            FailureReason::RuntimeError { message } => "runtime error: ".to_string().concat(
                message.as_str(),
            ),
            FailureReason::Cancelled => "cancelled by user".to_string(),
            FailureReason::Timeout { stage, step } => stage.clone().concat(" / ").concat(
                step.as_str(),
            ).concat(" (timeout)"),
        }
    }

    /// The exit code that a failed step's message names, if it names one.
    pub fn parse_exit_code_from_message(msg: &str) -> (r: Option<i32>)
        ensures
            r == exit_code_in(msg@),
    {
        let chars = chars_of(msg);
        let prefix = chars_of("exit code ");
        let n: usize = chars.len();
        match find(chars.as_slice(), prefix.as_slice()) {
            Some(i) => {
                proof {
                    lemma_first_occurrence(msg@, "exit code "@, i as int);
                    assert(i + prefix@.len() <= n);
                }
                number_at(chars.as_slice(), i + prefix.len())
            },
            None => None,
        }
    }
}

// ---------------------------------------------------------------------------
// Step result
// ---------------------------------------------------------------------------
/// Execution result for a single pipeline step.
#[derive(Debug, Clone)]
pub struct StepResult {
    /// Step name as configured.
    pub name: String,
    /// Final status of this step.
    pub status: ExecutionStatus,
    /// Wall-clock duration (`None` if the step never started).
    pub duration_secs: Option<Elapsed>,
    /// Container exit code (`None` if not applicable or not available).
    pub exit_code: Option<i32>,
    /// Error or failure message (`None` on success).
    pub error: Option<String>,
}

/// What a `StepResult` holds.
#[verifier::ext_equal]
pub struct StepReport {
    pub name: Seq<char>,
    pub status: ExecutionStatus,
    pub duration: Option<Elapsed>,
    pub exit_code: Option<i32>,
    pub error: Option<Seq<char>>,
}

impl View for StepResult {
    type V = StepReport;

    open spec fn view(&self) -> StepReport {
        StepReport {
            name: self.name@,
            status: self.status,
            duration: self.duration_secs,
            exit_code: self.exit_code,
            error: match self.error {
                Some(error) => Some(error@),
                None => None,
            },
        }
    }
}

/// What a list of step results holds.
pub open spec fn step_reports(steps: Seq<StepResult>) -> Seq<StepReport> {
    steps.map_values(|s: StepResult| s@)
}

/// The report of a step that succeeded.
pub open spec fn success_report(name: Seq<char>, duration: Elapsed) -> StepReport {
    StepReport {
        name,
        status: ExecutionStatus::Success,
        duration: Some(duration),
        exit_code: Some(0i32),
        error: None,
    }
}

/// The report of a step that failed.
pub open spec fn failed_report(
    name: Seq<char>,
    duration: Elapsed,
    exit_code: Option<i32>,
    error: Seq<char>,
) -> StepReport {
    StepReport {
        name,
        status: ExecutionStatus::Failed,
        duration: Some(duration),
        exit_code,
        error: Some(error),
    }
}

/// The report of a step that never started.
pub open spec fn skipped_report(name: Seq<char>) -> StepReport {
    StepReport {
        name,
        status: ExecutionStatus::Skipped,
        duration: None,
        exit_code: None,
        error: None,
    }
}

impl StepResult {
    /// A step that succeeded.
    pub fn success(name: &str, duration: Elapsed) -> (r: StepResult)
        ensures
            r@ == success_report(name@, duration),
            r.name@ == name@,
            r.status == ExecutionStatus::Success,
            r.duration_secs == Some(duration),
            r.exit_code == Some(0i32),
            r.error is None,
    {
        StepResult {
            name: name.to_string(),
            status: ExecutionStatus::Success,
            duration_secs: Some(duration),
            exit_code: Some(0),
            error: None,
        }
    }

    /// A step that failed.
    pub fn failed(name: &str, duration: Elapsed, exit_code: Option<i32>, error: &str) -> (r:
        StepResult)
        ensures
            r@ == failed_report(name@, duration, exit_code, error@),
            r.name@ == name@,
            r.status == ExecutionStatus::Failed,
            r.duration_secs == Some(duration),
            r.exit_code == exit_code,
            r.error is Some,
            r.error->0@ == error@,
    {
        StepResult {
            name: name.to_string(),
            status: ExecutionStatus::Failed,
            duration_secs: Some(duration),
            exit_code,
            error: Some(error.to_string()),
        }
    }

    /// A step that never started.
    pub fn skipped(name: &str) -> (r: StepResult)
        ensures
            r@ == skipped_report(name@),
            r.name@ == name@,
            r.status == ExecutionStatus::Skipped,
            r.duration_secs is None,
            r.exit_code is None,
            r.error is None,
    {
        StepResult {
            name: name.to_string(),
            status: ExecutionStatus::Skipped,
            duration_secs: None,
            exit_code: None,
            error: None,
        }
    }
}

// ---------------------------------------------------------------------------
// Stage result
// ---------------------------------------------------------------------------
/// Execution result for a pipeline stage.
#[derive(Debug, Clone)]
pub struct StageResult {
    /// Stage name as configured.
    pub name: String,
    /// Final status of this stage.
    pub status: ExecutionStatus,
    /// Wall-clock duration (`None` if the stage never started).
    pub duration_secs: Option<Elapsed>,
    /// Whether this stage was configured as `parallel: true`.
    pub parallel: bool,
    /// Results for each step within this stage.
    pub steps: Vec<StepResult>,
}

/// What a `StageResult` holds.
#[verifier::ext_equal]
pub struct StageReport {
    pub name: Seq<char>,
    pub status: ExecutionStatus,
    pub duration: Option<Elapsed>,
    pub parallel: bool,
    pub steps: Seq<StepReport>,
}

impl View for StageResult {
    type V = StageReport;

    open spec fn view(&self) -> StageReport {
        StageReport {
            name: self.name@,
            status: self.status,
            duration: self.duration_secs,
            parallel: self.parallel,
            steps: step_reports(self.steps@),
        }
    }
}

/// What a list of stage results holds.
pub open spec fn stage_reports(stages: Seq<StageResult>) -> Seq<StageReport> {
    stages.map_values(|s: StageResult| s@)
}

/// The status of a stage with these steps: failed if some step failed, skipped
/// if all steps were skipped.
pub open spec fn report_status(steps: Seq<StepReport>) -> ExecutionStatus {
    if exists|i: int|
        0 <= i < steps.len() && (#[trigger] steps[i]).status == ExecutionStatus::Failed {
        ExecutionStatus::Failed
    } else if forall|i: int|
        0 <= i < steps.len() ==> (#[trigger] steps[i]).status == ExecutionStatus::Skipped {
        ExecutionStatus::Skipped
    } else {
        ExecutionStatus::Success
    }
}

/// The duration of a stage with this status: a stage that was skipped never
/// started and has none.
pub open spec fn stage_duration(status: ExecutionStatus, duration: Elapsed) -> Option<Elapsed> {
    if status == ExecutionStatus::Skipped {
        None
    } else {
        Some(duration)
    }
}

/// The report of a stage whose steps have ended.
pub open spec fn stage_report(
    name: Seq<char>,
    parallel: bool,
    duration: Elapsed,
    steps: Seq<StepReport>,
) -> StageReport {
    StageReport {
        name,
        status: report_status(steps),
        duration: stage_duration(report_status(steps), duration),
        parallel,
        steps,
    }
}

/// The report of a stage that never started.
pub open spec fn skipped_stage_report(name: Seq<char>, parallel: bool) -> StageReport {
    StageReport {
        name,
        status: ExecutionStatus::Skipped,
        duration: None,
        parallel,
        steps: Seq::empty(),
    }
}

/// Whether some step has this status.
pub open spec fn some_step_is(steps: Seq<StepResult>, status: ExecutionStatus) -> bool {
    exists|i: int| 0 <= i < steps.len() && (#[trigger] steps[i]).status == status
}

/// Whether every step has this status.
pub open spec fn every_step_is(steps: Seq<StepResult>, status: ExecutionStatus) -> bool {
    forall|i: int| 0 <= i < steps.len() ==> (#[trigger] steps[i]).status == status
}

/// The status of a stage with these steps: failed if some step failed, skipped
/// if all steps were skipped.
pub open spec fn stage_status(steps: Seq<StepResult>) -> ExecutionStatus {
    if some_step_is(steps, ExecutionStatus::Failed) {
        ExecutionStatus::Failed
    } else if every_step_is(steps, ExecutionStatus::Skipped) {
        ExecutionStatus::Skipped
    } else {
        ExecutionStatus::Success
    }
}

/// The status depends on the reports of the steps alone.
proof fn lemma_report_status(steps: Seq<StepResult>)
    ensures
        report_status(step_reports(steps)) == stage_status(steps),
{
    let reports = step_reports(steps);
    assert forall|i: int| 0 <= i < steps.len() implies (#[trigger] reports[i]).status
        == steps[i].status by {}
    if some_step_is(steps, ExecutionStatus::Failed) {
        let i = choose|i: int|
            0 <= i < steps.len() && (#[trigger] steps[i]).status == ExecutionStatus::Failed;
        assert(reports[i].status == ExecutionStatus::Failed);
    }
    assert forall|i: int|
        0 <= i < steps.len() && (#[trigger] steps[i]).status
            != ExecutionStatus::Skipped implies reports[i].status
        != ExecutionStatus::Skipped by {}
}

/// Whether some step has this status.
fn any_step(steps: &[StepResult], status: ExecutionStatus) -> (r: bool)
    ensures
        r == some_step_is(steps@, status),
{
    let mut i: usize = 0;
    while i < steps.len()
        invariant
            i <= steps@.len(),
            forall|k: int| 0 <= k < i ==> (#[trigger] steps@[k]).status != status,
        decreases steps@.len() - i,
    {
        if steps[i].status == status {
            return true;
        }
        i += 1;
    }
    false
}

/// Whether every step has this status.
fn all_steps(steps: &[StepResult], status: ExecutionStatus) -> (r: bool)
    ensures
        r == every_step_is(steps@, status),
{
    let mut i: usize = 0;
    while i < steps.len()
        invariant
            i <= steps@.len(),
            forall|k: int| 0 <= k < i ==> (#[trigger] steps@[k]).status == status,
        decreases steps@.len() - i,
    {
        if steps[i].status != status {
            return false;
        }
        i += 1;
    }
    true
}

impl StageResult {
    /// A stage whose status is derived from its steps. One that never started has
    /// no duration.
    pub fn from_steps(
        name: &str,
        parallel: bool,
        duration: Elapsed,
        steps: Vec<StepResult>,
    ) -> (r: StageResult)
        ensures
            r.name@ == name@,
            r.status == stage_status(steps@),
            r.duration_secs == stage_duration(r.status, duration),
            r.parallel == parallel,
            r.steps == steps,
            r@ == stage_report(name@, parallel, duration, step_reports(steps@)),
    {
        proof {
            lemma_report_status(steps@);
        }
        let status = if any_step(steps.as_slice(), ExecutionStatus::Failed) {
            ExecutionStatus::Failed
        } else if all_steps(steps.as_slice(), ExecutionStatus::Skipped) {
            ExecutionStatus::Skipped
        } else {
            ExecutionStatus::Success
        };
        let duration_secs = if status == ExecutionStatus::Skipped {
            None
        } else {
            Some(duration)
        };
        StageResult {
            name: name.to_string(),
            status,
            duration_secs,
            parallel,
            steps,
        }
    }

    /// A stage that never started.
    pub fn skipped(name: &str, parallel: bool) -> (r: StageResult)
        ensures
            r.name@ == name@,
            r.status == ExecutionStatus::Skipped,
            r.duration_secs is None,
            r.parallel == parallel,
            r.steps@ == Seq::<StepResult>::empty(),
            r@ == skipped_stage_report(name@, parallel),
    {
        assert(step_reports(Seq::<StepResult>::empty()) =~= Seq::<StepReport>::empty());
        StageResult {
            name: name.to_string(),
            status: ExecutionStatus::Skipped,
            duration_secs: None,
            parallel,
            steps: Vec::new(),
        }
    }
}

// ---------------------------------------------------------------------------
// Pipeline result
// ---------------------------------------------------------------------------
/// Complete execution result for a pipeline run.
#[derive(Debug, Clone)]
pub struct PipelineResult {
    /// Unique run identifier (UUIDv4).
    pub run_id: String,
    /// RFC 3339 timestamp of when the pipeline started.
    pub started_at: String,
    /// RFC 3339 timestamp of when the pipeline completed.
    pub completed_at: String,
    /// Total wall-clock duration.
    pub duration_secs: Elapsed,
    /// Overall pipeline status.
    pub status: ExecutionStatus,
    /// Structured failure reason (`None` on success).
    pub failure: Option<FailureReason>,
    /// Results for each stage that was scheduled to run.
    pub stages: Vec<StageResult>,
    /// Version of the program that produced this result.
    pub forge_version: String,
}

/// Whether step `j` of stage `i` failed.
pub open spec fn failed_at(stages: Seq<StageResult>, i: int, j: int) -> bool {
    &&& 0 <= i < stages.len()
    &&& 0 <= j < stages[i].steps@.len()
    &&& stages[i].steps@[j].status == ExecutionStatus::Failed
}

/// Whether place `(i, j)` comes before place `(k, l)`.
pub open spec fn earlier(i: int, j: int, k: int, l: int) -> bool {
    i < k || (i == k && j < l)
}

/// The exit code for a result.
pub open spec fn result_code(result: PipelineResult) -> ExitCode {
    match result.failure {
        None => ExitCode::Success,
        Some(reason) => exit_code_for(reason),
    }
}

impl PipelineResult {
    /// The exit code for the process.
    pub fn exit_code(&self) -> (r: ExitCode)
        ensures
            r == result_code(*self),
    {
        match &self.failure {
            None => ExitCode::Success,
            Some(reason) => ExitCode::from_failure_reason(reason),
        }
    }

    /// Whether the overall pipeline succeeded.
    pub fn is_success(&self) -> (r: bool)
        ensures
            r == (self.status == ExecutionStatus::Success),
    {
        self.status.is_success()
    }

    /// The first failed step across all stages, with its stage.
    pub fn first_failure(&self) -> (r: Option<(&StageResult, &StepResult)>)
        ensures
            r is None ==> forall|i: int, j: int| !(#[trigger] failed_at(self.stages@, i, j)),
            r matches Some((stage, step)) ==> exists|i: int, j: int|
                {
                    &&& #[trigger] failed_at(self.stages@, i, j)
                    &&& *stage == self.stages@[i]
                    &&& *step == self.stages@[i].steps@[j]
                    &&& forall|k: int, l: int|
                        earlier(k, l, i, j) ==> !(#[trigger] failed_at(self.stages@, k, l))
                },
    {
        let mut i: usize = 0;
        while i < self.stages.len()
            invariant
                i <= self.stages@.len(),
                forall|k: int, l: int| k < i ==> !(#[trigger] failed_at(self.stages@, k, l)),
            decreases self.stages@.len() - i,
        {
            let stage = &self.stages[i];
            let mut j: usize = 0;
            while j < stage.steps.len()
                invariant
                    i < self.stages@.len(),
                    *stage == self.stages@[i as int],
                    j <= stage.steps@.len(),
                    forall|k: int, l: int|
                        earlier(k, l, i as int, j as int) ==> !(#[trigger] failed_at(
                            self.stages@,
                            k,
                            l,
                        )),
                decreases stage.steps@.len() - j,
            {
                let step = &stage.steps[j];
                if step.status == ExecutionStatus::Failed {
                    assert(failed_at(self.stages@, i as int, j as int));
                    return Some((stage, step));
                }
                j += 1;
            }
            i += 1;
        }
        None
    }
}

// ---------------------------------------------------------------------------
// Output format
// ---------------------------------------------------------------------------
/// Output format requested by the user.
#[derive(Debug, Clone, Copy, PartialEq, Eq, Structural)]
pub enum OutputFormat {
    /// Default colored human-readable output with pipeline summary.
    Human,
    /// Machine-readable JSON on stdout; diagnostics on stderr.
    Json,
    /// JUnit XML suitable for CI test reporting.
    Junit,
}

/// The format that a word names, whatever its letter case.
pub open spec fn format_named(word: Seq<char>) -> Option<OutputFormat> {
    if lowercase(word) == "human"@ {
        Some(OutputFormat::Human)
    } else if lowercase(word) == "json"@ {
        Some(OutputFormat::Json)
    } else if lowercase(word) == "junit"@ {
        Some(OutputFormat::Junit)
    } else {
        None
    }
}

impl OutputFormat {
    /// The format that a word names.
    pub fn parse(s: &str) -> (r: Result<OutputFormat, String>)
        ensures
            r is Ok <==> format_named(s@) is Some,
            r matches Ok(format) ==> format_named(s@) == Some(format),
            r matches Err(e) ==> e@ == "unknown format '"@ + lowercase(s@)
                + "'; valid values: human, json, junit"@,
    {
        let word = to_lowercase(s);
        if same_text(word.as_str(), "human") {
            Ok(OutputFormat::Human)
        } else if same_text(word.as_str(), "json") {
            Ok(OutputFormat::Json)
        } else if same_text(word.as_str(), "junit") {
            Ok(OutputFormat::Junit)
        } else {
            Err(
                "unknown format '".to_string().concat(word.as_str()).concat(
                    "'; valid values: human, json, junit",
                ),
            )
        }
    }
}

impl std::str::FromStr for OutputFormat {
    type Err = String;

    /// The format that a word names.
    fn from_str(s: &str) -> (r: Result<OutputFormat, String>)
        ensures
            r is Ok <==> format_named(s@) is Some,
            r matches Ok(format) ==> format_named(s@) == Some(format),
            r matches Err(e) ==> e@ == "unknown format '"@ + lowercase(s@)
                + "'; valid values: human, json, junit"@,
    {
        OutputFormat::parse(s)
    }
}

// ---------------------------------------------------------------------------
// Laws
// ---------------------------------------------------------------------------
/// Every kind of failure has its number: one for a step, two for the
/// configuration, three for Docker and what else the run needs, four for a run
/// that was cancelled and five for a step that took too long.
pub proof fn law_number_of_each_failure(reason: FailureReason)
    ensures
        exit_number(exit_code_for(reason)) == 1 <==> reason is StepFailed || reason is StepError,
        exit_number(exit_code_for(reason)) == 2 <==> reason is ConfigError,
        exit_number(exit_code_for(reason)) == 3 <==> reason is DockerError
            || reason is RuntimeError,
        exit_number(exit_code_for(reason)) == 4 <==> reason is Cancelled,
        exit_number(exit_code_for(reason)) == 5 <==> reason is Timeout,
        exit_number(ExitCode::Success) == 0,
{
}

/// A result without a failure ends the process with zero, and one with a failure
/// with the number of the failure.
pub proof fn law_number_of_a_result(result: PipelineResult)
    ensures
        result.failure is None <==> exit_number(result_code(result)) == 0,
        result.failure matches Some(reason) ==> result_code(result) == exit_code_for(reason),
{
}

/// What is said of a failure names what is at fault: the stage and the step, with
/// the exit code if there is one, or the message.
pub proof fn law_a_failure_is_described(reason: FailureReason)
    ensures
        match reason {
            FailureReason::StepFailed { stage, step, exit_code } => failure_text(reason) == stage@
                + (" / "@ + (step@ + (" (exit "@ + (signed_decimal(exit_code as int) + ")"@)))),
            FailureReason::StepError { stage, step, .. } => failure_text(reason) == stage@ + (" / "@
                + step@),
            FailureReason::Timeout { stage, step } => failure_text(reason) == stage@ + (" / "@ + (
            step@ + " (timeout)"@)),
            FailureReason::ConfigError { message } => occurs(failure_text(reason), message@)
                && failure_text(reason).take(14) == "config error: "@,
            FailureReason::DockerError { message } => occurs(failure_text(reason), message@)
                && failure_text(reason).take(14) == "docker error: "@,
            FailureReason::RuntimeError { message } => occurs(failure_text(reason), message@)
                && failure_text(reason).take(15) == "runtime error: "@,
            FailureReason::Cancelled => failure_text(reason) == "cancelled by user"@,
        },
{
    let none = Seq::<char>::empty();
    reveal_strlit("config error: ");
    reveal_strlit("docker error: ");
    reveal_strlit("runtime error: ");
    match reason {
        FailureReason::ConfigError { message } => {
            assert(failure_text(reason) =~= "config error: "@ + message@ + none);
            lemma_found_within("config error: "@, message@, none);
            assert(failure_text(reason).take(14) =~= "config error: "@);
        },
        FailureReason::DockerError { message } => {
            assert(failure_text(reason) =~= "docker error: "@ + message@ + none);
            lemma_found_within("docker error: "@, message@, none);
            assert(failure_text(reason).take(14) =~= "docker error: "@);
        },
        FailureReason::RuntimeError { message } => {
            assert(failure_text(reason) =~= "runtime error: "@ + message@ + none);
            lemma_found_within("runtime error: "@, message@, none);
            assert(failure_text(reason).take(15) =~= "runtime error: "@);
        },
        FailureReason::StepFailed { stage, step, exit_code } => {
            assert(failure_text(reason) =~= stage@ + (" / "@ + (step@ + (" (exit "@ + (
            signed_decimal(exit_code as int) + ")"@)))));
        },
        FailureReason::StepError { stage, step, .. } => {
            assert(failure_text(reason) =~= stage@ + (" / "@ + step@));
        },
        FailureReason::Timeout { stage, step } => {
            assert(failure_text(reason) =~= stage@ + (" / "@ + (step@ + " (timeout)"@)));
        },
        FailureReason::Cancelled => {},
    }
}

/// A message names an exit code if a number that fits follows the first place
/// where it speaks of one; the whole number is taken. One that speaks of none
/// names none.
pub proof fn law_exit_code_of_a_message(before: Seq<char>, n: nat, rest: Seq<char>)
    requires
        rest.len() > 0 ==> !('0' <= rest[0] <= '9'),
        forall|j: int|
            j < before.len() ==> !(#[trigger] occurs_at(
                before + "exit code "@ + decimal(n) + rest,
                "exit code "@,
                j,
            )),
    ensures
        exit_code_in(before + "exit code "@ + decimal(n) + rest) == if n <= i32::MAX {
            Some(n as i32)
        } else {
            None
        },
        !occurs(rest, "exit code "@) ==> exit_code_in(rest) is None,
{
    let pat = "exit code "@;
    let msg = before + pat + decimal(n) + rest;
    let at = before.len() as int;
    assert(msg.subrange(at, at + pat.len()) =~= pat);
    assert(occurs_at(msg, pat, at));
    lemma_first_occurrence(msg, pat, at);
    assert(msg.skip(at + pat.len()) =~= decimal(n) + rest);
    lemma_number_read_back(n, rest);
}

/// The result of a stage tells its steps: it failed if and only if one of them
/// did, was skipped if and only if all were, and succeeded otherwise.
pub proof fn law_status_of_a_stage(steps: Seq<StepResult>)
    ensures
        stage_status(steps) == ExecutionStatus::Failed <==> exists|i: int|
            0 <= i < steps.len() && (#[trigger] steps[i]).status == ExecutionStatus::Failed,
        stage_status(steps) == ExecutionStatus::Skipped <==> forall|i: int|
            0 <= i < steps.len() ==> (#[trigger] steps[i]).status == ExecutionStatus::Skipped,
        stage_status(steps) == ExecutionStatus::Failed || stage_status(steps)
            == ExecutionStatus::Skipped || stage_status(steps) == ExecutionStatus::Success,
        report_status(step_reports(steps)) == stage_status(steps),
{
    lemma_report_status(steps);
    if some_step_is(steps, ExecutionStatus::Failed) {
        let i = choose|i: int|
            0 <= i < steps.len() && (#[trigger] steps[i]).status == ExecutionStatus::Failed;
        assert(steps[i].status != ExecutionStatus::Skipped);
    }
}

/// The report of a stage keeps its name, its steps and whether it was parallel,
/// and has a duration if and only if it was not skipped.
pub proof fn law_report_of_a_stage(
    name: Seq<char>,
    parallel: bool,
    duration: Elapsed,
    steps: Seq<StepReport>,
)
    ensures
        ({
            let report = stage_report(name, parallel, duration, steps);
            &&& report.name == name
            &&& report.parallel == parallel
            &&& report.steps == steps
            &&& report.duration == if report.status == ExecutionStatus::Skipped {
                None
            } else {
                Some(duration)
            }
            &&& report.status == report_status(steps)
        }),
{
}

/// A word names a format whatever its letter case, and only these three do.
pub proof fn law_words_for_formats(word: Seq<char>)
    ensures
        format_named(word) == Some(OutputFormat::Human) <==> lowercase(word) == "human"@,
        format_named(word) == Some(OutputFormat::Json) <==> lowercase(word) == "json"@,
        format_named(word) == Some(OutputFormat::Junit) <==> lowercase(word) == "junit"@,
        format_named(word) == format_named(lowercase(word)),
{
    reveal_strlit("human");
    reveal_strlit("json");
    reveal_strlit("junit");
    assert("human"@[0] == 'h' && "json"@.len() == 4 && "junit"@[0] == 'j');
    if word.len() > 0 {
        law_small_letters(word, 0);
    } else {
        assert(lowercase(lowercase(word)) =~= lowercase(word));
    }
}

/// What is known of a result is all of it: every stage with every step, and of each
/// every field.
pub proof fn law_model_of_a_result(stages: Seq<StageResult>, i: int, j: int)
    requires
        0 <= i < stages.len(),
        0 <= j < stages[i].steps@.len(),
    ensures
        ({
            let stage = stage_reports(stages)[i];
            let step = stage.steps[j];
            let given = stages[i].steps@[j];
            &&& stage_reports(stages).len() == stages.len()
            &&& stage.name == stages[i].name@
            &&& stage.status == stages[i].status
            &&& stage.duration == stages[i].duration_secs
            &&& stage.parallel == stages[i].parallel
            &&& stage.steps.len() == stages[i].steps@.len()
            &&& step.name == given.name@
            &&& step.status == given.status
            &&& step.duration == given.duration_secs
            &&& step.exit_code == given.exit_code
            &&& step.error is Some <==> given.error is Some
            &&& given.error matches Some(e) ==> step.error == Some(e@)
        }),
{
}

/// The report of a step tells how it ended: success with code zero, a failure with
/// its code and its error, and one that never started with nothing.
pub proof fn law_report_of_a_step(
    name: Seq<char>,
    duration: Elapsed,
    code: Option<i32>,
    error: Seq<char>,
)
    ensures
        success_report(name, duration) == (StepReport {
            name,
            status: ExecutionStatus::Success,
            duration: Some(duration),
            exit_code: Some(0i32),
            error: None,
        }),
        failed_report(name, duration, code, error) == (StepReport {
            name,
            status: ExecutionStatus::Failed,
            duration: Some(duration),
            exit_code: code,
            error: Some(error),
        }),
        skipped_report(name) == (StepReport {
            name,
            status: ExecutionStatus::Skipped,
            duration: None,
            exit_code: None,
            error: None,
        }),
{
}

/// The signs of the different ways to end differ.
pub proof fn law_signs_of_the_statuses(a: ExecutionStatus, b: ExecutionStatus)
    ensures
        status_symbol(a) == status_symbol(b) ==> a == b,
        status_symbol(a).len() == 1,
{
    reveal_strlit("✓");
    reveal_strlit("✗");
    reveal_strlit("-");
    reveal_strlit("⊘");
    reveal_strlit("⏱");
    assert(status_symbol(a)[0] == match a {
        ExecutionStatus::Success => '✓',
        ExecutionStatus::Failed => '✗',
        ExecutionStatus::Skipped => '-',
        ExecutionStatus::Cancelled => '⊘',
        ExecutionStatus::Timeout => '⏱',
    });
    assert(status_symbol(b)[0] == match b {
        ExecutionStatus::Success => '✓',
        ExecutionStatus::Failed => '✗',
        ExecutionStatus::Skipped => '-',
        ExecutionStatus::Cancelled => '⊘',
        ExecutionStatus::Timeout => '⏱',
    });
}

/// What is known of a failure is all of it.
pub proof fn law_model_of_a_failure(reason: FailureReason)
    ensures
        match reason {
            FailureReason::StepFailed { stage, step, exit_code } => reason@
                == (FailureModel::StepFailed { stage: stage@, step: step@, exit_code }),
            FailureReason::StepError { stage, step, message } => reason@
                == (FailureModel::StepError { stage: stage@, step: step@, message: message@ }),
            FailureReason::ConfigError { message } => reason@ == (FailureModel::ConfigError {
                message: message@,
            }),
            FailureReason::DockerError { message } => reason@ == (FailureModel::DockerError {
                message: message@,
            }),
            FailureReason::RuntimeError { message } => reason@ == (FailureModel::RuntimeError {
                message: message@,
            }),
            FailureReason::Cancelled => reason@ is Cancelled,
            FailureReason::Timeout { stage, step } => reason@ == (FailureModel::Timeout {
                stage: stage@,
                step: step@,
            }),
        },
{
}

/// A step is found to have failed if and only if its status says so, and steps come
/// one after the other within a stage, and stage after stage.
pub proof fn law_which_steps_failed(stages: Seq<StageResult>, i: int, j: int, k: int, l: int)
    requires
        0 <= i < stages.len(),
        0 <= j < stages[i].steps@.len(),
    ensures
        failed_at(stages, i, j) <==> stages[i].steps@[j].status == ExecutionStatus::Failed,
        earlier(k, l, i, j) <==> k < i || (k == i && l < j),
{
}

/// A stage that never started is reported under its name, as skipped, without a
/// duration and without steps.
pub proof fn law_report_of_a_stage_that_never_started(name: Seq<char>, parallel: bool)
    ensures
        ({
            let report = skipped_stage_report(name, parallel);
            &&& report.name == name
            &&& report.parallel == parallel
            &&& report.status == ExecutionStatus::Skipped
            &&& report.duration is None
            &&& report.steps.len() == 0
        }),
{
}

/// A message that speaks of an exit code but gives no number names none.
pub proof fn law_no_number_no_exit_code(before: Seq<char>, rest: Seq<char>)
    requires
        rest.len() > 0 ==> !('0' <= rest[0] <= '9'),
        forall|j: int|
            j < before.len() ==> !(#[trigger] occurs_at(
                before + "exit code "@ + rest,
                "exit code "@,
                j,
            )),
    ensures
        exit_code_in(before + "exit code "@ + rest) is None,
{
    let pat = "exit code "@;
    let msg = before + pat + rest;
    let at = before.len() as int;
    assert(msg.subrange(at, at + pat.len()) =~= pat);
    assert(occurs_at(msg, pat, at));
    lemma_first_occurrence(msg, pat, at);
    assert(msg.skip(at + pat.len()) =~= rest);
}

} // verus!
