//! How the outcomes of steps make up the results of stages and of a run.

use crate::clock::Elapsed;
use crate::config::{stage_models, step_models, Stage, StageModel, Step, StepModel};
use crate::docker::{exit_error, law_exit_code_is_read_back};
use crate::result::{
    exit_code_in, exit_number, failed_report, report_status, result_code, skipped_report,
    skipped_stage_report, stage_report, stage_reports, step_reports, success_report,
    ExecutionStatus, FailureModel, FailureReason, PipelineResult, StageReport, StageResult,
    StepReport, StepResult,
};
use crate::text::{
    contains_text, head_line, headline, lowercase, occurs, texts, to_lowercase,
};
use vstd::prelude::*;
use vstd::string::*;

verus! {

// ---------------------------------------------------------------------------
// Classification of errors
// ---------------------------------------------------------------------------
/// Whether a message speaks of Docker.
pub open spec fn speaks_of_docker(message: Seq<char>) -> bool {
    let lower = lowercase(message);
    ||| occurs(lower, "docker"@)
    ||| occurs(lower, "daemon"@)
    ||| occurs(lower, "container"@)
    ||| occurs(lower, "image"@)
}

/// What an error of a step means: a failed command if it names an exit code, a
/// failure of Docker if it speaks of it, some other failure otherwise.
pub open spec fn classified(err: Seq<char>, stage: Seq<char>, step: Seq<char>) -> FailureModel {
    match exit_code_in(err) {
        Some(exit_code) => FailureModel::StepFailed { stage, step, exit_code },
        None => if speaks_of_docker(err) {
            FailureModel::DockerError { message: headline(err) }
        } else {
            FailureModel::StepError { stage, step, message: headline(err) }
        },
    }
}

/// What an error of a step means.
pub fn classify_error(err: &str, stage_name: &str, step_name: &str) -> (r: FailureReason)
    ensures
        r@ == classified(err@, stage_name@, step_name@),
{
    if let Some(exit_code) = FailureReason::parse_exit_code_from_message(err) {
        return FailureReason::StepFailed {
            stage: stage_name.to_string(),
            step: step_name.to_string(),
            exit_code,
        };
    }
    let lower = to_lowercase(err);
    if contains_text(lower.as_str(), "docker") || contains_text(lower.as_str(), "daemon")
        || contains_text(lower.as_str(), "container") || contains_text(lower.as_str(), "image") {
        return FailureReason::DockerError { message: head_line(err) };
    }
    FailureReason::StepError {
        stage: stage_name.to_string(),
        step: step_name.to_string(),
        message: head_line(err),
    }
}

// ---------------------------------------------------------------------------
// A stage whose steps run one after the other
// ---------------------------------------------------------------------------
/// The name of a step in a result.
pub open spec fn result_name(step: StepModel) -> Seq<char> {
    if step.name.len() == 0 {
        "unnamed"@
    } else {
        step.name
    }
}

/// The names of steps in results.
pub open spec fn result_names(steps: Seq<StepModel>) -> Seq<Seq<char>> {
    steps.map_values(|s: StepModel| result_name(s))
}

/// The names of steps in results.
fn names_for_results(steps: &Vec<Step>) -> (r: Vec<String>)
    ensures
        texts(r@) == result_names(step_models(steps@)),
{
    let ghost names = result_names(step_models(steps@));
    let mut r: Vec<String> = Vec::new();
    let mut i: usize = 0;
    while i < steps.len()
        invariant
            i <= steps@.len(),
            names == result_names(step_models(steps@)),
            texts(r@) == names.take(i as int),
        decreases steps@.len() - i,
    {
        let ghost now = texts(r@);
        assert(step_models(steps@)[i as int] == steps@[i as int]@);
        if steps[i].name.as_str().unicode_len() == 0 {
            r.push("unnamed".to_string());
        } else {
            r.push(steps[i].name.clone());
        }
        i += 1;
        assert(texts(r@) =~= now.push(names[i - 1]));
        assert(texts(r@) =~= names.take(i as int));
    }
    assert(texts(r@) =~= names);
    r
}

/// The failure of a stage: the error, and the number of the step whose error it
/// is.
#[derive(Debug)]
pub struct StepFailure {
    pub step: usize,
    pub error: String,
}

/// What a `StepFailure` holds.
pub struct FailureAt {
    pub step: nat,
    pub error: Seq<char>,
}

impl View for StepFailure {
    type V = FailureAt;

    open spec fn view(&self) -> FailureAt {
        FailureAt { step: self.step as nat, error: self.error@ }
    }
}

/// What the outcome of a stage holds.
pub open spec fn stage_outcome(outcome: Result<(), StepFailure>) -> Result<(), FailureAt> {
    match outcome {
        Ok(_) => Ok(()),
        Err(failure) => Err(failure@),
    }
}

/// The progress of a sequential stage.
pub struct SequentialStage {
    names: Vec<String>,
    results: Vec<StepResult>,
    failure: Option<StepFailure>,
}

/// What a `SequentialStage` holds.
#[verifier::ext_equal]
pub struct SequentialModel {
    /// The names of the steps
    pub names: Seq<Seq<char>>,
    /// The reports so far
    pub reports: Seq<StepReport>,
    /// The step that failed, with its error
    pub failure: Option<FailureAt>,
}

/// Whether step number `f` failed with the error `e`, the steps before it
/// succeeded and those after it were skipped.
pub open spec fn fails_at(reports: Seq<StepReport>, f: int, e: Seq<char>) -> bool {
    &&& 0 <= f < reports.len()
    &&& reports[f].status == ExecutionStatus::Failed
    &&& reports[f].error == Some(e)
    &&& reports[f].exit_code == exit_code_in(e)
    &&& forall|i: int| 0 <= i < f ==> (#[trigger] reports[i]).status == ExecutionStatus::Success
    &&& forall|i: int|
        f < i < reports.len() ==> #[trigger] reports[i] == skipped_report(reports[i].name)
}

/// What holds of a sequential stage at all times: there are reports for the
/// first steps, in order; without a failure they succeeded, and with one there
/// are reports for all, and the step that failed is the one named.
pub open spec fn sequential_wf(m: SequentialModel) -> bool {
    &&& m.reports.len() <= m.names.len()
    &&& forall|i: int| 0 <= i < m.reports.len() ==> (#[trigger] m.reports[i]).name == m.names[i]
    &&& match m.failure {
        None => forall|i: int|
            0 <= i < m.reports.len() ==> (#[trigger] m.reports[i]).status
                == ExecutionStatus::Success,
        Some(f) => m.reports.len() == m.names.len() && fails_at(
            m.reports,
            f.step as int,
            f.error,
        ),
    }
}

/// The reports of steps that never started.
pub open spec fn skipped_reports(names: Seq<Seq<char>>) -> Seq<StepReport> {
    names.map_values(|n: Seq<char>| skipped_report(n))
}

/// The stage after the next step has ended.
pub open spec fn after_step(
    m: SequentialModel,
    duration: Elapsed,
    outcome: Result<(), Seq<char>>,
) -> SequentialModel {
    let name = m.names[m.reports.len() as int];
    match outcome {
        Ok(_) => SequentialModel { reports: m.reports.push(success_report(name, duration)), ..m },
        Err(e) => SequentialModel {
            reports: m.reports.push(failed_report(name, duration, exit_code_in(e), e))
                + skipped_reports(m.names.skip(m.reports.len() as int + 1)),
            failure: Some(FailureAt { step: m.reports.len(), error: e }),
            ..m
        },
    }
}

/// What an outcome holds.
pub open spec fn outcome_model(outcome: Result<(), String>) -> Result<(), Seq<char>> {
    match outcome {
        Ok(_) => Ok(()),
        Err(e) => Err(e@),
    }
}

/// A step that ends keeps the stage in good order: once a step has failed, no
/// later one runs.
pub proof fn law_sequential_stage(
    m: SequentialModel,
    duration: Elapsed,
    outcome: Result<(), Seq<char>>,
)
    requires
        sequential_wf(m),
        m.reports.len() < m.names.len(),
    ensures
        sequential_wf(after_step(m, duration, outcome)),
        after_step(m, duration, outcome).failure is Some <==> outcome is Err,
        outcome is Err ==> after_step(m, duration, outcome).reports.len() == m.names.len(),
        outcome is Ok ==> after_step(m, duration, outcome).reports.len() == m.reports.len() + 1,
{
    let after = after_step(m, duration, outcome);
    let n = m.reports.len() as int;
    assert(m.failure is None);
    assert forall|i: int| 0 <= i < n implies #[trigger] after.reports[i] == m.reports[i] by {}
    match outcome {
        Ok(_) => {
            assert forall|i: int| 0 <= i < after.reports.len() implies (
            #[trigger] after.reports[i]).name == after.names[i] && after.reports[i].status
                == ExecutionStatus::Success by {
                if i < n {
                    assert(m.reports[i].name == m.names[i]);
                }
            }
        },
        Err(e) => {
            assert forall|i: int| n < i < after.reports.len() implies #[trigger] after.reports[i]
                == skipped_report(m.names[i]) by {
                assert(m.names.skip(n + 1)[i - n - 1] == m.names[i]);
            }
            assert forall|i: int| 0 <= i < after.reports.len() implies (
            #[trigger] after.reports[i]).name == after.names[i] by {
                if i < n {
                    assert(m.reports[i].name == m.names[i]);
                }
            }
            assert(fails_at(after.reports, n, e));
        },
    }
}

impl View for SequentialStage {
    type V = SequentialModel;

    closed spec fn view(&self) -> SequentialModel {
        SequentialModel {
            names: texts(self.names@),
            reports: step_reports(self.results@),
            failure: match self.failure {
                Some(failure) => Some(failure@),
                None => None,
            },
        }
    }
}

impl SequentialStage {
    #[verifier::type_invariant]
    spec fn in_good_order(self) -> bool {
        sequential_wf(self@)
    }

    /// A stage of which no step has run.
    pub fn new(stage: &Stage) -> (r: SequentialStage)
        ensures
            r@.names == result_names(stage@.steps),
            r@.reports == Seq::<StepReport>::empty(),
            r@.failure is None,
    {
        let names = names_for_results(&stage.steps);
        let results: Vec<StepResult> = Vec::new();
        assert(step_reports(results@) =~= Seq::<StepReport>::empty());
        SequentialStage { names, results, failure: None }
    }

    /// The number of the step to run next; `None` if the stage has ended.
    pub fn next(&self) -> (r: Option<usize>)
        ensures
            sequential_wf(self@),
            r is Some <==> self@.reports.len() < self@.names.len(),
            r matches Some(i) ==> i == self@.reports.len() && self@.failure is None,
    {
        proof {
            use_type_invariant(self);
        }
        assert(self@.reports.len() == self.results@.len());
        if self.results.len() < self.names.len() {
            Some(self.results.len())
        } else {
            None
        }
    }

    /// The next step has ended. If it failed, the rest is skipped.
    pub fn record(&mut self, duration: Elapsed, outcome: Result<(), String>)
        requires
            old(self)@.reports.len() < old(self)@.names.len(),
        ensures
            final(self)@ == after_step(old(self)@, duration, outcome_model(outcome)),
    {
        proof {
            use_type_invariant(&*self);
            law_sequential_stage(self@, duration, outcome_model(outcome));
        }
        let mut next = SequentialStage { names: Vec::new(), results: Vec::new(), failure: None };
        std::mem::swap(&mut next, self);
        let SequentialStage { names, mut results, failure } = next;
        let at: usize = results.len();
        let total: usize = names.len();
        assert(texts(names@)[at as int] == names@[at as int]@);
        match outcome {
            Ok(_) => {
                let ghost now = step_reports(results@);
                results.push(StepResult::success(names[at].as_str(), duration));
                assert(step_reports(results@) =~= now.push(success_report(names@[at as int]@, duration)));
                *self = SequentialStage { names, results, failure };
            },
            Err(e) => {
                let code = FailureReason::parse_exit_code_from_message(e.as_str());
                let ghost now = step_reports(results@);
                results.push(StepResult::failed(names[at].as_str(), duration, code, e.as_str()));
                let ghost failed = now.push(
                    failed_report(names@[at as int]@, duration, exit_code_in(e@), e@),
                );
                assert(step_reports(results@) =~= failed);
                let ghost rest = skipped_reports(texts(names@).skip(at + 1));
                let mut i: usize = at + 1;
                assert(failed + rest.take(0) =~= failed);
                while i < total
                    invariant
                        at < i <= total,
                        total == names@.len(),
                        rest == skipped_reports(texts(names@).skip(at + 1)),
                        step_reports(results@) == failed + rest.take(i - at - 1),
                    decreases total - i,
                {
                    let ghost so_far = step_reports(results@);
                    assert(texts(names@).skip(at + 1)[i - at - 1] == names@[i as int]@);
                    results.push(StepResult::skipped(names[i].as_str()));
                    i += 1;
                    assert(step_reports(results@) =~= so_far.push(rest[i - at - 2]));
                    assert(step_reports(results@) =~= failed + rest.take(i - at - 1));
                }
                assert(rest.take(i - at - 1) =~= rest);
                *self = SequentialStage {
                    names,
                    results,
                    failure: Some(StepFailure { step: at, error: e }),
                };
            },
        }
    }

    /// The outcome of a stage that has ended, and the results of its steps.
    pub fn finish(self) -> (r: (Result<(), StepFailure>, Vec<StepResult>))
        ensures
            sequential_wf(self@),
            step_reports(r.1@) == self@.reports,
            r.0 is Ok <==> self@.failure is None,
            r.0 matches Err(failure) ==> self@.failure == Some(failure@),
    {
        proof {
            use_type_invariant(&self);
        }
        let SequentialStage { names: _, results, failure } = self;
        match failure {
            Some(failure) => (Err(failure), results),
            None => (Ok(()), results),
        }
    }
}

// ---------------------------------------------------------------------------
// A stage whose steps run at the same time
// ---------------------------------------------------------------------------
/// The report of a step of a parallel stage. The stage as a whole succeeded or
/// not; which step failed is not known, and no step is timed.
pub open spec fn parallel_report(name: Seq<char>, success: bool) -> StepReport {
    if success {
        success_report(name, Elapsed::spec_zero())
    } else {
        failed_report(name, Elapsed::spec_zero(), None, "parallel stage failed"@)
    }
}

/// The results of the steps of a parallel stage.
pub fn parallel_step_results(stage: &Stage, success: bool) -> (r: Vec<StepResult>)
    ensures
        step_reports(r@) == result_names(stage@.steps).map_values(
            |n: Seq<char>| parallel_report(n, success),
        ),
{
    let names = names_for_results(&stage.steps);
    let ghost target = texts(names@).map_values(|n: Seq<char>| parallel_report(n, success));
    let mut r: Vec<StepResult> = Vec::new();
    let mut i: usize = 0;
    while i < names.len()
        invariant
            i <= names@.len(),
            target == texts(names@).map_values(|n: Seq<char>| parallel_report(n, success)),
            step_reports(r@) == target.take(i as int),
        decreases names@.len() - i,
    {
        let ghost now = step_reports(r@);
        let result = if success {
            StepResult::success(names[i].as_str(), Elapsed::zero())
        } else {
            StepResult::failed(names[i].as_str(), Elapsed::zero(), None, "parallel stage failed")
        };
        assert(texts(names@)[i as int] == names@[i as int]@);
        assert(result@ == target[i as int]);
        r.push(result);
        i += 1;
        assert(step_reports(r@) =~= now.push(target[i - 1]));
        assert(step_reports(r@) =~= target.take(i as int));
    }
    assert(step_reports(r@) =~= target);
    r
}

/// A stage that ran has failed if and only if its outcome is an error, as long
/// as it has steps at all; this holds of sequential and of parallel stages.
pub proof fn law_stage_status_follows_the_outcome(m: SequentialModel, names: Seq<Seq<char>>)
    requires
        sequential_wf(m),
        m.reports.len() == m.names.len(),
        m.names.len() > 0,
        names.len() > 0,
    ensures
        m.failure is Some ==> report_status(m.reports) == ExecutionStatus::Failed,
        m.failure is None ==> report_status(m.reports) == ExecutionStatus::Success,
        report_status(names.map_values(|n: Seq<char>| parallel_report(n, true)))
            == ExecutionStatus::Success,
        report_status(names.map_values(|n: Seq<char>| parallel_report(n, false)))
            == ExecutionStatus::Failed,
{
    if let Some(f) = m.failure {
        assert(m.reports[f.step as int].status == ExecutionStatus::Failed);
    } else {
        assert(m.reports[0].status == ExecutionStatus::Success);
    }
    let good = names.map_values(|n: Seq<char>| parallel_report(n, true));
    let bad = names.map_values(|n: Seq<char>| parallel_report(n, false));
    assert(good[0].status == ExecutionStatus::Success);
    assert(bad[0].status == ExecutionStatus::Failed);
}

// ---------------------------------------------------------------------------
// A run
// ---------------------------------------------------------------------------
/// The configured name of the step that failed, number `step` of its stage.
pub open spec fn failed_step(steps: Seq<StepModel>, step: nat) -> Seq<char> {
    if step < steps.len() {
        steps[step as int].name
    } else {
        "unknown"@
    }
}

/// The progress of a run.
pub struct PipelineRun {
    stages: Vec<Stage>,
    results: Vec<StageResult>,
    failure: Option<FailureReason>,
}

/// What a `PipelineRun` holds.
#[verifier::ext_equal]
pub struct RunModel {
    /// The stages in the order in which they run
    pub stages: Seq<StageModel>,
    /// The reports so far
    pub reports: Seq<StageReport>,
    /// The failure that ended the run
    pub failure: Option<FailureModel>,
}

/// Whether a report has a duration if and only if the stage started.
pub open spec fn well_timed(report: StageReport) -> bool {
    report.duration is None <==> report.status == ExecutionStatus::Skipped
}

/// Whether all stages after stage number `f` were skipped.
pub open spec fn skipped_after(reports: Seq<StageReport>, f: int) -> bool {
    &&& 0 <= f < reports.len()
    &&& forall|i: int|
        f < i < reports.len() ==> #[trigger] reports[i] == skipped_stage_report(
            reports[i].name,
            reports[i].parallel,
        )
}

/// Whether some stage ran last and all later ones were skipped.
pub open spec fn ended_early(reports: Seq<StageReport>) -> bool {
    exists|f: int| skipped_after(reports, f)
}

/// What holds of a run at all times: there are reports for the first stages, in
/// order, and those that never started have no duration; with a failure there
/// are reports for all stages, skipped from some stage on.
pub open spec fn run_wf(m: RunModel) -> bool {
    &&& m.reports.len() <= m.stages.len()
    &&& forall|i: int|
        0 <= i < m.reports.len() ==> (#[trigger] m.reports[i]).name == m.stages[i].name
            && m.reports[i].parallel == m.stages[i].parallel && well_timed(m.reports[i])
    &&& m.failure is Some ==> m.reports.len() == m.stages.len() && ended_early(m.reports)
}

/// The reports of stages that never started.
pub open spec fn skipped_stages(stages: Seq<StageModel>) -> Seq<StageReport> {
    stages.map_values(|s: StageModel| skipped_stage_report(s.name, s.parallel))
}

/// The run after its next stage has ended, with the results of its steps. A
/// failed stage ends the run: all later stages are skipped.
pub open spec fn after_stage(
    m: RunModel,
    duration: Elapsed,
    steps: Seq<StepReport>,
    outcome: Result<(), FailureAt>,
) -> RunModel {
    let stage = m.stages[m.reports.len() as int];
    let reports = m.reports.push(stage_report(stage.name, stage.parallel, duration, steps));
    match outcome {
        Ok(_) => RunModel { reports, ..m },
        Err(f) => RunModel {
            reports: reports + skipped_stages(m.stages.skip(m.reports.len() as int + 1)),
            failure: Some(classified(f.error, stage.name, failed_step(stage.steps, f.step))),
            ..m
        },
    }
}

/// A stage that ends keeps the run in good order: once a stage has failed, no
/// later one runs, and every stage has exactly one report.
pub proof fn law_pipeline_run(
    m: RunModel,
    duration: Elapsed,
    steps: Seq<StepReport>,
    outcome: Result<(), FailureAt>,
)
    requires
        run_wf(m),
        m.reports.len() < m.stages.len(),
    ensures
        run_wf(after_stage(m, duration, steps, outcome)),
        after_stage(m, duration, steps, outcome).failure is Some <==> outcome is Err,
        outcome is Err ==> after_stage(m, duration, steps, outcome).reports.len()
            == m.stages.len(),
        outcome is Ok ==> after_stage(m, duration, steps, outcome).reports.len()
            == m.reports.len() + 1,
{
    let after = after_stage(m, duration, steps, outcome);
    let n = m.reports.len() as int;
    assert forall|i: int| 0 <= i < n implies #[trigger] after.reports[i] == m.reports[i] by {}
    match outcome {
        Ok(_) => {
            assert forall|i: int| 0 <= i < after.reports.len() implies (
            #[trigger] after.reports[i]).name == after.stages[i].name && after.reports[i].parallel
                == after.stages[i].parallel && well_timed(after.reports[i]) by {
                if i < n {
                    assert(m.reports[i].name == m.stages[i].name);
                }
            }
        },
        Err(_) => {
            assert forall|i: int| n < i < after.reports.len() implies #[trigger] after.reports[i]
                == skipped_stage_report(m.stages[i].name, m.stages[i].parallel) by {
                assert(m.stages.skip(n + 1)[i - n - 1] == m.stages[i]);
            }
            assert forall|i: int| 0 <= i < after.reports.len() implies (
            #[trigger] after.reports[i]).name == after.stages[i].name && after.reports[i].parallel
                == after.stages[i].parallel && well_timed(after.reports[i]) by {
                if i < n {
                    assert(m.reports[i].name == m.stages[i].name);
                }
            }
            assert(skipped_after(after.reports, n));
            assert(ended_early(after.reports));
        },
    }
}

/// The status of a run that has ended.
pub open spec fn run_status(success: bool) -> ExecutionStatus {
    if success {
        ExecutionStatus::Success
    } else {
        ExecutionStatus::Failed
    }
}

impl View for PipelineRun {
    type V = RunModel;

    closed spec fn view(&self) -> RunModel {
        RunModel {
            stages: stage_models(self.stages@),
            reports: stage_reports(self.results@),
            failure: match self.failure {
                Some(reason) => Some(reason@),
                None => None,
            },
        }
    }
}

impl PipelineRun {
    #[verifier::type_invariant]
    spec fn in_good_order(self) -> bool {
        run_wf(self@)
    }

    /// A run of the given stages, in the order given, before any has run.
    pub fn new(stages: Vec<Stage>) -> (r: PipelineRun)
        ensures
            r@.stages == stage_models(stages@),
            r@.reports == Seq::<StageReport>::empty(),
            r@.failure is None,
    {
        let results: Vec<StageResult> = Vec::new();
        assert(stage_reports(results@) =~= Seq::<StageReport>::empty());
        PipelineRun { stages, results, failure: None }
    }

    /// The stage to run next; `None` if the run has ended.
    pub fn next(&self) -> (r: Option<&Stage>)
        ensures
            run_wf(self@),
            r is Some <==> self@.reports.len() < self@.stages.len(),
            r matches Some(stage) ==> stage@ == self@.stages[self@.reports.len() as int]
                && self@.failure is None,
    {
        proof {
            use_type_invariant(self);
        }
        let at: usize = self.results.len();
        assert(self@.reports.len() == at);
        if at < self.stages.len() {
            assert(self@.stages[at as int] == self.stages@[at as int]@);
            Some(&self.stages[at])
        } else {
            None
        }
    }

    /// The next stage has ended. If it failed, all later stages are skipped.
    pub fn complete_stage(
        &mut self,
        duration: Elapsed,
        steps: Vec<StepResult>,
        outcome: Result<(), StepFailure>,
    )
        requires
            old(self)@.reports.len() < old(self)@.stages.len(),
        ensures
            final(self)@ == after_stage(
                old(self)@,
                duration,
                step_reports(steps@),
                stage_outcome(outcome),
            ),
    {
        proof {
            use_type_invariant(&*self);
            law_pipeline_run(self@, duration, step_reports(steps@), stage_outcome(outcome));
        }
        let mut taken = PipelineRun { stages: Vec::new(), results: Vec::new(), failure: None };
        std::mem::swap(&mut taken, self);
        let PipelineRun { stages, mut results, failure } = taken;
        let at: usize = results.len();
        let total: usize = stages.len();
        let ghost models = stage_models(stages@);
        assert(models[at as int] == stages@[at as int]@);
        let ghost now = stage_reports(results@);
        let ghost report = stage_report(
            models[at as int].name,
            models[at as int].parallel,
            duration,
            step_reports(steps@),
        );
        results.push(
            StageResult::from_steps(
                stages[at].name.as_str(),
                stages[at].parallel,
                duration,
                steps,
            ),
        );
        assert(stage_reports(results@) =~= now.push(report));
        match outcome {
            Ok(_) => {
                *self = PipelineRun { stages, results, failure };
            },
            Err(f) => {
                let failed = if f.step < stages[at].steps.len() {
                    stages[at].steps[f.step].name.as_str()
                } else {
                    "unknown"
                };
                let reason = classify_error(
                    f.error.as_str(),
                    stages[at].name.as_str(),
                    failed,
                );
                let ghost ran = stage_reports(results@);
                let ghost rest = skipped_stages(models.skip(at + 1));
                let mut i: usize = at + 1;
                assert(ran + rest.take(0) =~= ran);
                while i < total
                    invariant
                        at < i <= total,
                        total == stages@.len(),
                        models == stage_models(stages@),
                        rest == skipped_stages(models.skip(at + 1)),
                        stage_reports(results@) == ran + rest.take(i - at - 1),
                    decreases total - i,
                {
                    let ghost so_far = stage_reports(results@);
                    assert(models.skip(at + 1)[i - at - 1] == stages@[i as int]@);
                    results.push(StageResult::skipped(stages[i].name.as_str(), stages[i].parallel));
                    i += 1;
                    assert(stage_reports(results@) =~= so_far.push(rest[i - at - 2]));
                    assert(stage_reports(results@) =~= ran + rest.take(i - at - 1));
                }
                assert(rest.take(i - at - 1) =~= rest);
                *self = PipelineRun { stages, results, failure: Some(reason) };
            },
        }
    }

    /// The result of a run that has ended.
    pub fn finish(
        self,
        run_id: String,
        started_at: String,
        completed_at: String,
        duration: Elapsed,
        forge_version: String,
    ) -> (r: PipelineResult)
        ensures
            run_wf(self@),
            r.run_id == run_id,
            r.started_at == started_at,
            r.completed_at == completed_at,
            r.duration_secs == duration,
            r.forge_version == forge_version,
            stage_reports(r.stages@) == self@.reports,
            r.failure is Some <==> self@.failure is Some,
            r.failure matches Some(reason) ==> self@.failure == Some(reason@),
            r.status == run_status(self@.failure is None),
    {
        proof {
            use_type_invariant(&self);
        }
        let PipelineRun { stages: _, results, failure } = self;
        let status = if failure.is_none() {
            ExecutionStatus::Success
        } else {
            ExecutionStatus::Failed
        };
        PipelineResult {
            run_id,
            started_at,
            completed_at,
            duration_secs: duration,
            status,
            failure,
            stages: results,
            forge_version,
        }
    }
}

/// The failure of a stage names the step that failed, as it is configured: of a
/// sequential stage the one step whose report says so, and of a parallel stage,
/// all of whose steps are reported as failed, the step whose error it is.
pub proof fn law_the_failed_step_is_named(
    run: RunModel,
    duration: Elapsed,
    m: SequentialModel,
    f: FailureAt,
    g: FailureAt,
)
    requires
        run.reports.len() < run.stages.len(),
        sequential_wf(m),
        m.names == result_names(run.stages[run.reports.len() as int].steps),
        m.failure == Some(f),
        g.step < m.names.len(),
    ensures
        ({
            let stage = run.stages[run.reports.len() as int];
            let parallel = m.names.map_values(|n: Seq<char>| parallel_report(n, false));
            &&& f.step < stage.steps.len()
            &&& forall|k: int|
                0 <= k < m.reports.len() ==> ((#[trigger] m.reports[k]).status
                    == ExecutionStatus::Failed <==> k == f.step)
            &&& after_stage(run, duration, m.reports, Err(f)).failure == Some(
                classified(f.error, stage.name, stage.steps[f.step as int].name),
            )
            &&& after_stage(run, duration, parallel, Err(g)).failure == Some(
                classified(g.error, stage.name, stage.steps[g.step as int].name),
            )
        }),
{
}

/// The process ends with zero if and only if the run succeeded.
pub proof fn law_exit_code_tells_success(result: PipelineResult)
    requires
        result.status == run_status(result.failure is None),
    ensures
        exit_number(result_code(result)) == 0 <==> result.status == ExecutionStatus::Success,
{
}

/// The exit code with which a command ended is the one that the result of the
/// run reports, as long as the name of the step does not itself announce a code.
pub proof fn law_exit_code_reaches_the_result(
    label: Seq<char>,
    code: int,
    stage: Seq<char>,
    step: Seq<char>,
)
    requires
        !occurs(label, "exit code "@),
        0 < code <= i32::MAX,
    ensures
        classified(exit_error(label, code), stage, step) == (FailureModel::StepFailed {
            stage,
            step,
            exit_code: code as i32,
        }),
{
    law_exit_code_is_read_back(label, code);
}

/// A stage that has ended is reported as it was: under its name, with exactly the
/// results of its steps, as failed if and only if a step failed, and with its
/// duration unless every step was skipped. What was reported before stays, and
/// after a failure every later stage is reported as skipped, with no steps.
pub proof fn law_a_stage_is_reported_as_it_ended(
    m: RunModel,
    duration: Elapsed,
    steps: Seq<StepReport>,
    outcome: Result<(), FailureAt>,
)
    requires
        m.reports.len() < m.stages.len(),
    ensures
        ({
            let after = after_stage(m, duration, steps, outcome);
            let n = m.reports.len() as int;
            let here = after.reports[n];
            &&& after.stages == m.stages
            &&& forall|i: int| 0 <= i < n ==> #[trigger] after.reports[i] == m.reports[i]
            &&& here.name == m.stages[n].name
            &&& here.parallel == m.stages[n].parallel
            &&& here.steps == steps
            &&& here.status == ExecutionStatus::Failed <==> exists|i: int|
                0 <= i < steps.len() && (#[trigger] steps[i]).status == ExecutionStatus::Failed
            &&& here.status == ExecutionStatus::Skipped <==> forall|i: int|
                0 <= i < steps.len() ==> (#[trigger] steps[i]).status == ExecutionStatus::Skipped
            &&& here.status == ExecutionStatus::Failed || here.status == ExecutionStatus::Skipped
                || here.status == ExecutionStatus::Success
            &&& here.status == ExecutionStatus::Skipped ==> here.duration is None
            &&& here.status != ExecutionStatus::Skipped ==> here.duration == Some(duration)
            &&& outcome is Ok ==> after.reports.len() == n + 1 && after.failure == m.failure
            &&& outcome is Err ==> {
                &&& after.failure is Some
                &&& after.reports.len() == m.stages.len()
                &&& forall|i: int|
                    n < i < m.stages.len() ==> {
                        &&& (#[trigger] after.reports[i]).name == m.stages[i].name
                        &&& after.reports[i].parallel == m.stages[i].parallel
                        &&& after.reports[i].status == ExecutionStatus::Skipped
                        &&& after.reports[i].duration is None
                        &&& after.reports[i].steps.len() == 0
                    }
            }
        }),
{
    let n = m.reports.len() as int;
    let after = after_stage(m, duration, steps, outcome);
    if outcome is Err {
        let rest = skipped_stages(m.stages.skip(n + 1));
        assert(rest.len() == m.stages.len() - n - 1);
        assert forall|i: int| n < i < m.stages.len() implies {
            &&& (#[trigger] after.reports[i]).name == m.stages[i].name
            &&& after.reports[i].parallel == m.stages[i].parallel
            &&& after.reports[i].status == ExecutionStatus::Skipped
            &&& after.reports[i].duration is None
            &&& after.reports[i].steps.len() == 0
        } by {
            assert(after.reports[i] == rest[i - n - 1]);
            assert(m.stages.skip(n + 1)[i - n - 1] == m.stages[i]);
        }
    }
    if exists|i: int|
        0 <= i < steps.len() && (#[trigger] steps[i]).status == ExecutionStatus::Failed {
        let i = choose|i: int|
            0 <= i < steps.len() && (#[trigger] steps[i]).status == ExecutionStatus::Failed;
        assert(steps[i].status != ExecutionStatus::Skipped);
    }
}

/// A run whose stage failed reports that stage as failed, if the results of the
/// steps agree with the outcome; and a run whose stage succeeded does not.
pub proof fn law_a_failed_stage_is_reported_as_failed(
    m: RunModel,
    duration: Elapsed,
    steps: Seq<StepReport>,
    outcome: Result<(), FailureAt>,
)
    requires
        m.reports.len() < m.stages.len(),
        outcome is Err <==> exists|i: int|
            0 <= i < steps.len() && (#[trigger] steps[i]).status == ExecutionStatus::Failed,
    ensures
        after_stage(m, duration, steps, outcome).reports[m.reports.len() as int].status
            == ExecutionStatus::Failed <==> outcome is Err,
{
    law_a_stage_is_reported_as_it_ended(m, duration, steps, outcome);
}

/// A step that has ended is reported as it was: under its name, with its duration
/// and, if it failed, with its error and the exit code that the error names. What
/// was reported before stays, and after a failure every later step is reported as
/// skipped.
pub proof fn law_a_step_is_reported_as_it_ended(
    m: SequentialModel,
    duration: Elapsed,
    outcome: Result<(), Seq<char>>,
)
    requires
        m.reports.len() < m.names.len(),
    ensures
        ({
            let after = after_step(m, duration, outcome);
            let n = m.reports.len() as int;
            let here = after.reports[n];
            &&& after.names == m.names
            &&& forall|i: int| 0 <= i < n ==> #[trigger] after.reports[i] == m.reports[i]
            &&& here.name == m.names[n]
            &&& here.duration == Some(duration)
            &&& outcome is Ok ==> {
                &&& after.reports.len() == n + 1
                &&& here.status == ExecutionStatus::Success
                &&& here.exit_code == Some(0i32)
                &&& here.error is None
                &&& after.failure == m.failure
            }
            &&& outcome matches Err(e) ==> {
                &&& after.reports.len() == m.names.len()
                &&& here.status == ExecutionStatus::Failed
                &&& here.exit_code == exit_code_in(e)
                &&& here.error == Some(e)
                &&& after.failure == Some(FailureAt { step: m.reports.len(), error: e })
                &&& forall|i: int|
                    n < i < m.names.len() ==> {
                        &&& (#[trigger] after.reports[i]).name == m.names[i]
                        &&& after.reports[i].status == ExecutionStatus::Skipped
                        &&& after.reports[i].duration is None
                        &&& after.reports[i].exit_code is None
                        &&& after.reports[i].error is None
                    }
            }
        }),
{
    let n = m.reports.len() as int;
    let after = after_step(m, duration, outcome);
    if outcome is Err {
        let rest = skipped_reports(m.names.skip(n + 1));
        assert forall|i: int| n < i < m.names.len() implies {
            &&& (#[trigger] after.reports[i]).name == m.names[i]
            &&& after.reports[i].status == ExecutionStatus::Skipped
            &&& after.reports[i].duration is None
            &&& after.reports[i].exit_code is None
            &&& after.reports[i].error is None
        } by {
            assert(after.reports[i] == rest[i - n - 1]);
            assert(m.names.skip(n + 1)[i - n - 1] == m.names[i]);
        }
    }
}

/// The steps of a parallel stage are all reported, in order, and all as the
/// stage itself ended.
pub proof fn law_parallel_steps_are_reported(steps: Seq<StepModel>, success: bool, k: int)
    requires
        0 <= k < steps.len(),
    ensures
        ({
            let reports = result_names(steps).map_values(
                |n: Seq<char>| parallel_report(n, success),
            );
            &&& reports.len() == steps.len()
            &&& steps[k].name.len() > 0 ==> reports[k].name == steps[k].name
            &&& steps[k].name.len() == 0 ==> reports[k].name == "unnamed"@
            &&& reports[k].status == if success {
                ExecutionStatus::Success
            } else {
                ExecutionStatus::Failed
            }
            &&& reports[k].exit_code == if success {
                Some(0i32)
            } else {
                None
            }
            &&& success ==> reports[k].error is None
            &&& !success ==> reports[k].error == Some("parallel stage failed"@)
            &&& reports[k].duration == Some(Elapsed::spec_zero())
        }),
{
}

/// The steps of a stage are reported under their names, in order; one without a
/// name is called unnamed.
pub proof fn law_steps_keep_their_names(steps: Seq<StepModel>, k: int)
    requires
        0 <= k < steps.len(),
    ensures
        result_names(steps).len() == steps.len(),
        steps[k].name.len() > 0 ==> result_names(steps)[k] == steps[k].name,
        steps[k].name.len() == 0 ==> result_names(steps)[k] == "unnamed"@,
{
}

/// What ends a run is what its error says: a command that failed if the error
/// names an exit code, Docker if it speaks of it in whatever letter case, and some
/// other error of the step otherwise. The stage and the step are the ones at fault.
pub proof fn law_errors_are_told_apart(err: Seq<char>, stage: Seq<char>, step: Seq<char>)
    ensures
        ({
            let told = classified(err, stage, step);
            let small = lowercase(err);
            let docker = occurs(small, "docker"@) || occurs(small, "daemon"@) || occurs(
                small,
                "container"@,
            ) || occurs(small, "image"@);
            &&& exit_code_in(err) matches Some(code) ==> told == (FailureModel::StepFailed {
                stage,
                step,
                exit_code: code,
            })
            &&& exit_code_in(err) is None && docker ==> (told matches FailureModel::DockerError {
                message,
            } && message == headline(err))
            &&& exit_code_in(err) is None && !docker ==> told == (FailureModel::StepError {
                stage,
                step,
                message: headline(err),
            })
        }),
{
}

/// The failure of a run is that of the stage that ended it, under the name of the
/// stage and of the step at fault.
pub proof fn law_the_failure_of_a_run(
    m: RunModel,
    duration: Elapsed,
    steps: Seq<StepReport>,
    f: FailureAt,
)
    requires
        m.reports.len() < m.stages.len(),
        f.step < m.stages[m.reports.len() as int].steps.len(),
    ensures
        ({
            let stage = m.stages[m.reports.len() as int];
            let failure = after_stage(m, duration, steps, Err(f)).failure;
            &&& exit_code_in(f.error) matches Some(code) ==> failure == Some(
                FailureModel::StepFailed {
                    stage: stage.name,
                    step: stage.steps[f.step as int].name,
                    exit_code: code,
                },
            )
            &&& exit_code_in(f.error) is None ==> (failure is Some && (failure->0 is DockerError
                || failure == Some(
                FailureModel::StepError {
                    stage: stage.name,
                    step: stage.steps[f.step as int].name,
                    message: headline(f.error),
                },
            )))
        }),
{
}

/// A run succeeds if and only if it ends without a failure, and fails otherwise.
pub proof fn law_status_of_a_run(success: bool)
    ensures
        run_status(success) == ExecutionStatus::Success <==> success,
        run_status(success) == ExecutionStatus::Failed <==> !success,
{
}

/// An outcome is taken as it is: what succeeded succeeded, and what failed failed
/// with its error, at its step.
pub proof fn law_outcomes_are_taken_as_they_are(
    step: Result<(), String>,
    stage: Result<(), StepFailure>,
)
    ensures
        outcome_model(step) is Ok <==> step is Ok,
        step matches Err(e) ==> outcome_model(step) == Err::<(), Seq<char>>(e@),
        stage_outcome(stage) is Ok <==> stage is Ok,
        stage matches Err(f) ==> stage_outcome(stage) == Err::<(), FailureAt>(
            FailureAt { step: f.step as nat, error: f.error@ },
        ),
{
}

/// A failure that is put down to no step of the stage is put down to an unknown one.
pub proof fn law_a_failure_of_no_step(steps: Seq<StepModel>, step: nat)
    ensures
        step < steps.len() ==> failed_step(steps, step) == steps[step as int].name,
        step >= steps.len() ==> failed_step(steps, step) == "unknown"@,
{
}

} // verus!
