//! Running the steps of a stage: what is done, in which order, and what becomes
//! of the outcomes.

use crate::container::ContainerSetup;
use crate::docker::{cleanup_plan, CleanupAction};
use crate::env::EnvMap;
use crate::execution::{outcome_model, FailureAt, StepFailure};
use crate::numbers::{count_text, decimal, decimal_value, lemma_decimal_digits};
use crate::paint::{out_text_line, print_text, Paint, Print};
use crate::paths::{is_absolute, join_path, law_joining_paths, path_join};
use crate::text::finishes_with;
use vstd::prelude::*;
use vstd::string::*;

verus! {

/// The directories and secrets of a run.
#[derive(Clone)]
pub struct PipelineRuntimeContext {
    pub workspace_dir: String,
    pub cache_dir: String,
    pub secrets_env: EnvMap,
}

// ---------------------------------------------------------------------------
// One step
// ---------------------------------------------------------------------------
/// Whether a step runs alone or together with others.
#[derive(Debug, Clone, Copy, PartialEq, Eq, Structural)]
pub enum StepKind {
    Sequential,
    Parallel,
}

/// How far a step has come: `T` is a text.
#[derive(Debug)]
pub enum StepPhase<T> {
    /// Its image and container are being prepared.
    Preparing,
    /// Its container is being created and started.
    Starting { step: T },
    /// Its container is running.
    Waiting { step: T, container: T },
    /// It has ended.
    Done,
}

/// What happened to a step.
#[derive(Debug)]
pub enum StepEvent {
    Prepared(Result<ContainerSetup, String>),
    Started(Result<String, String>),
    Ended(Result<(), String>),
}

/// What to do about it: `T` is a text.
#[derive(Debug)]
pub enum StepAction<T> {
    /// Let other steps pull the image.
    ReleaseImage,
    /// Tell the monitor that the step begins.
    NotifyStart { step: T, image: T },
    /// Create and start the container.
    Start,
    /// Tell the monitor that the container exists.
    NotifyCreated(T),
    /// Remember the container so that it is removed when the stage ends.
    Track(T),
    /// Pass the container's output to the monitor from now on.
    FollowLogs(T),
    /// Wait for the container to end.
    Wait(T),
    /// Wait for the last output.
    JoinLogs,
    /// Stop and remove the container.
    Cleanup(T),
    /// Tell the monitor that the container is gone.
    NotifyDestroyed(T),
    /// Tell the monitor that the step has ended.
    NotifyComplete { step: T, success: bool },
    /// The step is over, with this outcome.
    Finish(Result<(), T>),
}

impl View for StepPhase<String> {
    type V = StepPhase<Seq<char>>;

    open spec fn view(&self) -> StepPhase<Seq<char>> {
        match self {
            StepPhase::Preparing => StepPhase::Preparing,
            StepPhase::Starting { step } => StepPhase::Starting { step: step@ },
            StepPhase::Waiting { step, container } => StepPhase::Waiting {
                step: step@,
                container: container@,
            },
            StepPhase::Done => StepPhase::Done,
        }
    }
}

impl View for StepAction<String> {
    type V = StepAction<Seq<char>>;

    open spec fn view(&self) -> StepAction<Seq<char>> {
        match self {
            StepAction::ReleaseImage => StepAction::ReleaseImage,
            StepAction::NotifyStart { step, image } => StepAction::NotifyStart {
                step: step@,
                image: image@,
            },
            StepAction::Start => StepAction::Start,
            StepAction::NotifyCreated(id) => StepAction::NotifyCreated(id@),
            StepAction::Track(id) => StepAction::Track(id@),
            StepAction::FollowLogs(id) => StepAction::FollowLogs(id@),
            StepAction::Wait(id) => StepAction::Wait(id@),
            StepAction::JoinLogs => StepAction::JoinLogs,
            StepAction::Cleanup(id) => StepAction::Cleanup(id@),
            StepAction::NotifyDestroyed(id) => StepAction::NotifyDestroyed(id@),
            StepAction::NotifyComplete { step, success } => StepAction::NotifyComplete {
                step: step@,
                success: *success,
            },
            StepAction::Finish(Ok(_)) => StepAction::Finish(Ok(())),
            StepAction::Finish(Err(e)) => StepAction::Finish(Err(e@)),
        }
    }
}

/// What a list of actions holds.
pub open spec fn step_actions(list: Seq<StepAction<String>>) -> Seq<StepAction<Seq<char>>> {
    list.map_values(|a: StepAction<String>| a@)
}

/// The phase after an event. An event that does not belong to the phase changes
/// nothing.
pub open spec fn next_phase(phase: StepPhase<Seq<char>>, event: StepEvent) -> StepPhase<
    Seq<char>,
> {
    match (phase, event) {
        (StepPhase::Preparing, StepEvent::Prepared(Ok(setup))) => StepPhase::Starting {
            step: setup.step_name@,
        },
        (StepPhase::Preparing, StepEvent::Prepared(Err(_))) => StepPhase::Done,
        (StepPhase::Starting { step }, StepEvent::Started(Ok(id))) => StepPhase::Waiting {
            step,
            container: id@,
        },
        (StepPhase::Starting { .. }, StepEvent::Started(Err(_))) => StepPhase::Done,
        (StepPhase::Waiting { .. }, StepEvent::Ended(_)) => StepPhase::Done,
        (phase, _) => phase,
    }
}

/// What is done about an event.
pub open spec fn reaction(
    kind: StepKind,
    phase: StepPhase<Seq<char>>,
    event: StepEvent,
) -> Seq<StepAction<Seq<char>>> {
    let parallel = kind == StepKind::Parallel;
    let released: Seq<StepAction<Seq<char>>> = if parallel {
        seq![StepAction::ReleaseImage]
    } else {
        seq![]
    };
    match (phase, event) {
        (StepPhase::Preparing, StepEvent::Prepared(Ok(setup))) => released + seq![
            StepAction::NotifyStart { step: setup.step_name@, image: setup.image@ },
            StepAction::Start,
        ],
        (StepPhase::Preparing, StepEvent::Prepared(Err(e))) => released + seq![
            StepAction::Finish(Err(e@)),
        ],
        (StepPhase::Starting { step }, StepEvent::Started(Ok(id))) => seq![
            StepAction::NotifyCreated(id@),
        ] + (if parallel {
            seq![StepAction::Track(id@)]
        } else {
            seq![]
        }) + seq![StepAction::FollowLogs(id@), StepAction::Wait(id@)],
        (StepPhase::Starting { step }, StepEvent::Started(Err(e))) => seq![
            StepAction::Finish(Err(e@)),
        ],
        (StepPhase::Waiting { step, container }, StepEvent::Ended(result)) => seq![
            StepAction::JoinLogs,
        ] + (if parallel {
            seq![]
        } else {
            seq![StepAction::Cleanup(container), StepAction::NotifyDestroyed(container)]
        }) + seq![
            StepAction::NotifyComplete { step, success: result is Ok },
            StepAction::Finish(outcome_model(result)),
        ],
        _ => seq![],
    }
}

/// Handles an event of a step.
fn handle(kind: StepKind, phase: StepPhase<String>, event: StepEvent) -> (r: (
    StepPhase<String>,
    Vec<StepAction<String>>,
))
    ensures
        r.0@ == next_phase(phase@, event),
        step_actions(r.1@) == reaction(kind, phase@, event),
{
    let parallel = kind == StepKind::Parallel;
    let mut actions: Vec<StepAction<String>> = Vec::new();
    let next = match (phase, event) {
        (StepPhase::Preparing, StepEvent::Prepared(prepared)) => {
            if parallel {
                actions.push(StepAction::ReleaseImage);
            }
            match prepared {
                Ok(setup) => {
                    actions.push(
                        StepAction::NotifyStart {
                            step: setup.step_name.clone(),
                            image: setup.image.clone(),
                        },
                    );
                    actions.push(StepAction::Start);
                    StepPhase::Starting { step: setup.step_name }
                },
                Err(e) => {
                    actions.push(StepAction::Finish(Err(e)));
                    StepPhase::Done
                },
            }
        },
        (StepPhase::Starting { step }, StepEvent::Started(started)) => match started {
            Ok(id) => {
                actions.push(StepAction::NotifyCreated(id.clone()));
                if parallel {
                    actions.push(StepAction::Track(id.clone()));
                }
                actions.push(StepAction::FollowLogs(id.clone()));
                actions.push(StepAction::Wait(id.clone()));
                StepPhase::Waiting { step, container: id }
            },
            Err(e) => {
                actions.push(StepAction::Finish(Err(e)));
                StepPhase::Done
            },
        },
        (StepPhase::Waiting { step, container }, StepEvent::Ended(result)) => {
            actions.push(StepAction::JoinLogs);
            if !parallel {
                actions.push(StepAction::Cleanup(container.clone()));
                actions.push(StepAction::NotifyDestroyed(container));
            }
            actions.push(StepAction::NotifyComplete { step, success: result.is_ok() });
            actions.push(StepAction::Finish(result));
            StepPhase::Done
        },
        (phase, _) => phase,
    };
    proof {
        let made = step_actions(actions@);
        assert(made.len() == reaction(kind, phase@, event).len());
        assert(made =~= reaction(kind, phase@, event));
    }
    (next, actions)
}

/// Handles an event of a step that runs alone: its container is removed as soon
/// as it has ended.
pub fn run_command_in_container(phase: StepPhase<String>, event: StepEvent) -> (r: (
    StepPhase<String>,
    Vec<StepAction<String>>,
))
    ensures
        r.0@ == next_phase(phase@, event),
        step_actions(r.1@) == reaction(StepKind::Sequential, phase@, event),
{
    handle(StepKind::Sequential, phase, event)
}

/// Handles an event of a step that runs together with others: its container is
/// tracked, and removed when the stage ends.
pub fn run_step_parallel(phase: StepPhase<String>, event: StepEvent) -> (r: (
    StepPhase<String>,
    Vec<StepAction<String>>,
))
    ensures
        r.0@ == next_phase(phase@, event),
        step_actions(r.1@) == reaction(StepKind::Parallel, phase@, event),
{
    handle(StepKind::Parallel, phase, event)
}

/// The directory that only step number `index` of a parallel stage sees.
pub open spec fn step_dir(temp_dir: Seq<char>, index: nat) -> Seq<char> {
    path_join(temp_dir, "step-"@ + decimal(index))
}

/// The directory that only step number `index` of a parallel stage sees.
pub fn step_temp_dir(temp_dir: &str, index: usize) -> (r: String)
    ensures
        r@ == step_dir(temp_dir@, index as nat),
{
    join_path(temp_dir, "step-".to_string().concat(count_text(index).as_str()).as_str())
}

/// The line that tells of a step's own directory, if details are asked for.
pub fn announce_step_dir(dir: &str, verbose: bool) -> (r: Option<Print>)
    ensures
        r is Some <==> verbose,
        r matches Some(p) ==> p@ == out_text_line(
            "  Created isolated temp directory: "@ + dir@,
            Paint::Plain,
        ),
{
    if verbose {
        Some(
            print_text(
                "  Created isolated temp directory: ".to_string().concat(dir),
                Paint::Plain,
            ),
        )
    } else {
        None
    }
}

/// The error for a step that cannot wait for its image any more.
pub fn image_lock_error() -> (r: String)
    ensures
        r@ == "Image pull lock closed unexpectedly during parallel execution"@,
{
    "Image pull lock closed unexpectedly during parallel execution".to_string()
}

// ---------------------------------------------------------------------------
// Several steps
// ---------------------------------------------------------------------------
/// How the task of a parallel step ended: `T` is a text.
#[derive(Debug)]
pub enum TaskOutcome<T> {
    Succeeded,
    Failed(T),
    /// It was aborted because another step had failed.
    Cancelled,
    /// It ended abnormally.
    Broken(T),
}

impl View for TaskOutcome<String> {
    type V = TaskOutcome<Seq<char>>;

    open spec fn view(&self) -> TaskOutcome<Seq<char>> {
        match self {
            TaskOutcome::Succeeded => TaskOutcome::Succeeded,
            TaskOutcome::Failed(e) => TaskOutcome::Failed(e@),
            TaskOutcome::Cancelled => TaskOutcome::Cancelled,
            TaskOutcome::Broken(e) => TaskOutcome::Broken(e@),
        }
    }
}

/// The error that a task's end makes, if it makes one.
pub open spec fn task_error(outcome: TaskOutcome<Seq<char>>) -> Option<Seq<char>> {
    match outcome {
        TaskOutcome::Succeeded => None,
        TaskOutcome::Failed(e) => Some(e),
        TaskOutcome::Cancelled => None,
        TaskOutcome::Broken(e) => Some("Parallel step task panicked or was cancelled: "@ + e),
    }
}

/// The failure of a stage after the task of step number `step` has ended, too:
/// the first one stays.
pub open spec fn failure_after(
    failure: Option<FailureAt>,
    step: nat,
    outcome: TaskOutcome<Seq<char>>,
) -> Option<FailureAt> {
    match (failure, task_error(outcome)) {
        (Some(f), _) => Some(f),
        (None, Some(error)) => Some(FailureAt { step, error }),
        (None, None) => None,
    }
}

/// The failure of a stage after all tasks, taken one after the other.
pub open spec fn failure_of_all(outcomes: Seq<TaskOutcome<Seq<char>>>) -> Option<FailureAt>
    decreases outcomes.len(),
{
    if outcomes.len() == 0 {
        None
    } else {
        let before = outcomes.drop_last();
        failure_after(failure_of_all(before), before.len(), outcomes.last())
    }
}

/// Collects how the tasks of a parallel stage end, in the order of the steps.
#[derive(Debug)]
pub struct ParallelResults {
    pub failure: Option<StepFailure>,
}

impl View for ParallelResults {
    type V = Option<FailureAt>;

    open spec fn view(&self) -> Option<FailureAt> {
        match self.failure {
            Some(failure) => Some(failure@),
            None => None,
        }
    }
}

impl ParallelResults {
    /// Before any task has ended.
    pub fn new() -> (r: ParallelResults)
        ensures
            r@ is None,
    {
        ParallelResults { failure: None }
    }

    /// Whether the next task is aborted: some task before it has failed.
    pub fn must_abort(&self) -> (r: bool)
        ensures
            r == self@ is Some,
    {
        self.failure.is_some()
    }

    /// The task of step number `step` has ended.
    pub fn record(&mut self, step: usize, outcome: TaskOutcome<String>)
        ensures
            final(self)@ == failure_after(old(self)@, step as nat, outcome@),
    {
        if self.failure.is_none() {
            match outcome {
                TaskOutcome::Succeeded => {},
                TaskOutcome::Failed(error) => {
                    self.failure = Some(StepFailure { step, error });
                },
                TaskOutcome::Cancelled => {},
                TaskOutcome::Broken(e) => {
                    let error = "Parallel step task panicked or was cancelled: ".to_string().concat(
                        e.as_str(),
                    );
                    self.failure = Some(StepFailure { step, error });
                },
            }
        }
    }

    /// The outcome of the stage.
    pub fn finish(self) -> (r: Result<(), StepFailure>)
        ensures
            r is Ok <==> self@ is None,
            r matches Err(failure) ==> self@ == Some(failure@),
    {
        match self.failure {
            Some(failure) => Err(failure),
            None => Ok(()),
        }
    }
}

/// The outcome of a parallel stage whose tasks ended like this, in the order of
/// the steps.
pub fn collect_parallel_results(outcomes: Vec<TaskOutcome<String>>) -> (r: Result<
    (),
    StepFailure,
>)
    ensures
        r is Ok <==> failure_of_all(task_models(outcomes@)) is None,
        r matches Err(failure) ==> failure_of_all(task_models(outcomes@)) == Some(failure@),
{
    let ghost models = task_models(outcomes@);
    let mut results = ParallelResults::new();
    let mut rest = outcomes;
    let n: usize = rest.len();
    let mut i: usize = 0;
    assert(models.skip(0) =~= models);
    while i < n
        invariant
            i <= n,
            n == models.len(),
            task_models(rest@) == models.skip(i as int),
            results@ == failure_of_all(models.take(i as int)),
        decreases n - i,
    {
        assert(task_models(rest@).len() == rest@.len());
        let ghost before = rest@;
        let outcome = rest.remove(0);
        proof {
            assert(task_models(before)[0] == outcome@);
            assert(models.skip(i as int)[0] == models[i as int]);
            assert(task_models(rest@) =~= task_models(before).skip(1));
            assert(models.skip(i as int).skip(1) =~= models.skip(i + 1));
            assert(models.take(i + 1).drop_last() =~= models.take(i as int));
            assert(models.take(i + 1).last() == models[i as int]);
        }
        results.record(i, outcome);
        i += 1;
    }
    assert(models.take(n as int) =~= models);
    results.finish()
}

/// What a list of outcomes holds.
pub open spec fn task_models(outcomes: Seq<TaskOutcome<String>>) -> Seq<TaskOutcome<Seq<char>>> {
    outcomes.map_values(|o: TaskOutcome<String>| o@)
}

// ---------------------------------------------------------------------------
// Laws
// ---------------------------------------------------------------------------
/// A step ends exactly when it says so: an event that leads to the end is
/// answered with the outcome as the last action, no other event is answered with
/// an outcome, and after the end nothing happens any more.
pub proof fn law_a_step_finishes_once(kind: StepKind, phase: StepPhase<Seq<char>>, event: StepEvent)
    ensures
        phase is Done ==> next_phase(phase, event) is Done && reaction(kind, phase, event).len()
            == 0,
        phase !is Done ==> (next_phase(phase, event) is Done <==> reaction(
            kind,
            phase,
            event,
        ).len() > 0 && reaction(kind, phase, event).last() is Finish),
        forall|i: int|
            0 <= i < reaction(kind, phase, event).len() - 1 ==> !((#[trigger] reaction(
                kind,
                phase,
                event,
            )[i]) is Finish),
{
}

/// No container of a step that runs alone is left behind: when a container has
/// ended, in whatever way, it is removed and the monitor is told so, before the
/// step finishes.
pub proof fn law_a_container_is_cleaned_up(
    step: Seq<char>,
    container: Seq<char>,
    result: Result<(), String>,
)
    ensures
        ({
            let done = reaction(
                StepKind::Sequential,
                StepPhase::Waiting { step, container },
                StepEvent::Ended(result),
            );
            &&& done[1] == StepAction::Cleanup(container)
            &&& done[2] == StepAction::NotifyDestroyed(container)
            &&& done.len() == 5
            &&& done[3] == (StepAction::NotifyComplete { step, success: result is Ok })
            &&& done[4] == StepAction::Finish(outcome_model(result))
        }),
{
}

/// No container of a parallel stage is left behind: a container is tracked as
/// soon as it exists, before anything waits for it, and every tracked container
/// is stopped and removed when the stage ends.
pub proof fn law_tracked_containers_are_removed(
    step: Seq<char>,
    id: String,
    ids: Seq<Seq<char>>,
    k: int,
)
    requires
        0 <= k < ids.len(),
    ensures
        ({
            let done = reaction(
                StepKind::Parallel,
                StepPhase::Starting { step },
                StepEvent::Started(Ok(id)),
            );
            &&& done[1] == StepAction::Track(id@)
            &&& done[3] == StepAction::Wait(id@)
        }),
        cleanup_plan(ids)[k] == CleanupAction::Stop(ids[k]),
        cleanup_plan(ids)[ids.len() + k] == CleanupAction::Remove(ids[k]),
        cleanup_plan(ids).len() == 2 * ids.len(),
{
}

/// A parallel stage fails with the first error in the order of its steps, put
/// down to the step whose task it came from, and succeeds if there is none.
pub proof fn law_first_error_wins(outcomes: Seq<TaskOutcome<Seq<char>>>)
    ensures
        match failure_of_all(outcomes) {
            Some(f) => {
                &&& f.step < outcomes.len()
                &&& task_error(outcomes[f.step as int]) == Some(f.error)
                &&& forall|i: int| 0 <= i < f.step ==> task_error(#[trigger] outcomes[i]) is None
            },
            None => forall|i: int|
                0 <= i < outcomes.len() ==> task_error(#[trigger] outcomes[i]) is None,
        },
    decreases outcomes.len(),
{
    if outcomes.len() > 0 {
        let before = outcomes.drop_last();
        law_first_error_wins(before);
        assert forall|i: int| 0 <= i < before.len() implies #[trigger] outcomes[i]
            == before[i] by {}
    }
}

/// Steps of a parallel stage never share a directory.
pub proof fn law_step_directories_differ(temp_dir: Seq<char>, i: nat, j: nat)
    requires
        i != j,
    ensures
        step_dir(temp_dir, i) != step_dir(temp_dir, j),
{
    reveal_strlit("step-");
    reveal_strlit("/");
    let a = "step-"@ + decimal(i);
    let b = "step-"@ + decimal(j);
    lemma_decimal_digits(i);
    lemma_decimal_digits(j);
    assert(!is_absolute(a)) by {
        assert(a.take(1)[0] == 's');
    }
    assert(!is_absolute(b)) by {
        assert(b.take(1)[0] == 's');
    }
    assert(a.skip(5) =~= decimal(i));
    assert(b.skip(5) =~= decimal(j));
    let head = if temp_dir.len() == 0 || finishes_with(temp_dir, "/"@) {
        temp_dir
    } else {
        temp_dir + "/"@
    };
    assert(step_dir(temp_dir, i) =~= head + a);
    assert(step_dir(temp_dir, j) =~= head + b);
    if step_dir(temp_dir, i) == step_dir(temp_dir, j) {
        assert((head + a).skip(head.len() as int) =~= a);
        assert((head + b).skip(head.len() as int) =~= b);
        assert(decimal_value(decimal(i)) == decimal_value(decimal(j)));
    }
}

/// A parallel stage fails if and only if one of its tasks failed or broke down,
/// and with the error of the first of them; a task that was only cancelled does
/// not make it fail.
pub proof fn law_when_a_parallel_stage_fails(outcomes: Seq<TaskOutcome<Seq<char>>>)
    ensures
        failure_of_all(outcomes) is Some <==> exists|i: int|
            0 <= i < outcomes.len() && ((#[trigger] outcomes[i]) is Failed || outcomes[i] is Broken),
        failure_of_all(outcomes) matches Some(f) ==> {
            &&& f.step < outcomes.len()
            &&& forall|i: int|
                0 <= i < f.step ==> (#[trigger] outcomes[i]) is Succeeded
                    || outcomes[i] is Cancelled
            &&& outcomes[f.step as int] matches TaskOutcome::Failed(e) ==> f.error == e
            &&& outcomes[f.step as int] matches TaskOutcome::Broken(e) ==> f.error
                == "Parallel step task panicked or was cancelled: "@ + e
        },
{
    law_first_error_wins(outcomes);
    if let Some(f) = failure_of_all(outcomes) {
        assert(outcomes[f.step as int] is Failed || outcomes[f.step as int] is Broken);
        assert forall|i: int| 0 <= i < f.step implies (#[trigger] outcomes[i]) is Succeeded
            || outcomes[i] is Cancelled by {
            assert(task_error(outcomes[i]) is None);
        }
    } else {
        assert forall|i: int| 0 <= i < outcomes.len() implies !((#[trigger] outcomes[i]) is Failed)
            && !(outcomes[i] is Broken) by {
            assert(task_error(outcomes[i]) is None);
        }
    }
}

/// Results that are recorded one by one, in order, add up: an error that is
/// recorded stays, and until then the first error is taken.
pub proof fn law_recording_outcomes(
    failure: Option<FailureAt>,
    step: nat,
    outcome: TaskOutcome<Seq<char>>,
)
    ensures
        failure is Some ==> failure_after(failure, step, outcome) == failure,
        failure is None && (outcome is Succeeded || outcome is Cancelled) ==> failure_after(
            failure,
            step,
            outcome,
        ) is None,
        failure is None ==> (outcome matches TaskOutcome::Failed(e) ==> failure_after(
            failure,
            step,
            outcome,
        ) == Some(FailureAt { step, error: e })),
        failure is None ==> (outcome matches TaskOutcome::Broken(e) ==> failure_after(
            failure,
            step,
            outcome,
        ) == Some(
            FailureAt { step, error: "Parallel step task panicked or was cancelled: "@ + e },
        )),
{
}

/// A step that is prepared is announced with its name and its image and then
/// started; a step that cannot be prepared, or whose container does not start,
/// finishes with that error.
pub proof fn law_how_a_step_begins(
    kind: StepKind,
    setup: ContainerSetup,
    step: Seq<char>,
    error: String,
)
    ensures
        ({
            let event = StepEvent::Prepared(Ok(setup));
            let said = reaction(kind, StepPhase::Preparing, event);
            let n = said.len() as int;
            &&& next_phase(StepPhase::Preparing, event) == (StepPhase::Starting {
                step: setup.step_name@,
            })
            &&& n == if kind == StepKind::Parallel {
                3int
            } else {
                2
            }
            &&& kind == StepKind::Parallel ==> said[0] is ReleaseImage
            &&& said[n - 2] == (StepAction::NotifyStart {
                step: setup.step_name@,
                image: setup.image@,
            })
            &&& said[n - 1] is Start
        }),
        ({
            let event = StepEvent::Prepared(Err(error));
            let said = reaction(kind, StepPhase::Preparing, event);
            &&& next_phase(StepPhase::Preparing, event) is Done
            &&& said.last() == StepAction::Finish(Err(error@))
            &&& said.len() == if kind == StepKind::Parallel {
                2int
            } else {
                1
            }
        }),
        ({
            let event = StepEvent::Started(Err(error));
            &&& next_phase(StepPhase::Starting { step }, event) is Done
            &&& reaction(kind, StepPhase::Starting { step }, event) == seq![
                StepAction::<Seq<char>>::Finish(Err(error@)),
            ]
        }),
{
}

/// A container that has started is told to the monitor, its logs are followed and
/// its end is awaited, in this order; of a parallel stage it is tracked as well.
/// When it has ended, its logs are read to the end before anything else, and the
/// step finishes with what the container ended with; only that of a step that runs
/// alone is removed at once.
pub proof fn law_how_a_step_ends(
    kind: StepKind,
    step: Seq<char>,
    id: String,
    container: Seq<char>,
    result: Result<(), String>,
)
    ensures
        ({
            let event = StepEvent::Started(Ok(id));
            let said = reaction(kind, StepPhase::Starting { step }, event);
            let n = said.len() as int;
            &&& next_phase(StepPhase::Starting { step }, event) == (StepPhase::Waiting {
                step,
                container: id@,
            })
            &&& said[0] == StepAction::NotifyCreated(id@)
            &&& said[n - 2] == StepAction::FollowLogs(id@)
            &&& said[n - 1] == StepAction::Wait(id@)
            &&& said.contains(StepAction::Track(id@)) <==> kind == StepKind::Parallel
            &&& n == if kind == StepKind::Parallel {
                4int
            } else {
                3
            }
        }),
        ({
            let event = StepEvent::Ended(result);
            let phase = StepPhase::Waiting { step, container };
            let said = reaction(kind, phase, event);
            let n = said.len() as int;
            &&& next_phase(phase, event) is Done
            &&& said[0] is JoinLogs
            &&& said[n - 2] == (StepAction::NotifyComplete { step, success: result is Ok })
            &&& result is Ok ==> said[n - 1] == StepAction::<Seq<char>>::Finish(Ok(()))
            &&& result matches Err(e) ==> said[n - 1] == StepAction::Finish(Err(e@))
            &&& n == if kind == StepKind::Parallel {
                3int
            } else {
                5
            }
        }),
{
    let said = reaction(kind, StepPhase::Starting { step }, StepEvent::Started(Ok(id)));
    if kind == StepKind::Parallel {
        assert(said[1] == StepAction::Track(id@));
    }
}

/// An event that a step does not wait for changes nothing.
pub proof fn law_events_out_of_place(
    kind: StepKind,
    step: Seq<char>,
    container: Seq<char>,
    event: StepEvent,
)
    ensures
        !(event is Prepared) ==> next_phase(StepPhase::Preparing, event) is Preparing && reaction(
            kind,
            StepPhase::Preparing,
            event,
        ).len() == 0,
        !(event is Started) ==> next_phase(StepPhase::Starting { step }, event)
            == (StepPhase::Starting { step }) && reaction(
            kind,
            StepPhase::Starting { step },
            event,
        ).len() == 0,
        !(event is Ended) ==> next_phase(StepPhase::Waiting { step, container }, event)
            == (StepPhase::Waiting { step, container }) && reaction(
            kind,
            StepPhase::Waiting { step, container },
            event,
        ).len() == 0,
{
}

/// The directory of a step lies in the temporary directory.
pub proof fn law_step_directories_lie_in_the_temporary_one(temp_dir: Seq<char>, index: nat)
    requires
        temp_dir.len() > 0,
        temp_dir.last() != '/',
    ensures
        step_dir(temp_dir, index) == temp_dir.push('/') + ("step-"@ + decimal(index)),
{
    reveal_strlit("step-");
    law_joining_paths(temp_dir, "step-"@ + decimal(index));
}

/// The outcome of a task is taken as it is.
pub proof fn law_tasks_are_taken_as_they_are(outcomes: Seq<TaskOutcome<String>>, i: int)
    requires
        0 <= i < outcomes.len(),
    ensures
        task_models(outcomes).len() == outcomes.len(),
        outcomes[i] is Succeeded <==> task_models(outcomes)[i] is Succeeded,
        outcomes[i] is Cancelled <==> task_models(outcomes)[i] is Cancelled,
        outcomes[i] matches TaskOutcome::Failed(e) ==> task_models(outcomes)[i]
            == TaskOutcome::Failed(e@),
        outcomes[i] matches TaskOutcome::Broken(e) ==> task_models(outcomes)[i]
            == TaskOutcome::Broken(e@),
{
}

/// What is known of actions and phases is all of it.
pub proof fn law_model_of_actions(list: Seq<StepAction<String>>, i: int, phase: StepPhase<String>)
    requires
        0 <= i < list.len(),
    ensures
        step_actions(list).len() == list.len(),
        match list[i] {
            StepAction::ReleaseImage => step_actions(list)[i] is ReleaseImage,
            StepAction::NotifyStart { step, image } => step_actions(list)[i]
                == (StepAction::NotifyStart { step: step@, image: image@ }),
            StepAction::Start => step_actions(list)[i] is Start,
            StepAction::NotifyCreated(id) => step_actions(list)[i] == StepAction::NotifyCreated(
                id@,
            ),
            StepAction::Track(id) => step_actions(list)[i] == StepAction::Track(id@),
            StepAction::FollowLogs(id) => step_actions(list)[i] == StepAction::FollowLogs(id@),
            StepAction::Wait(id) => step_actions(list)[i] == StepAction::Wait(id@),
            StepAction::JoinLogs => step_actions(list)[i] is JoinLogs,
            StepAction::Cleanup(id) => step_actions(list)[i] == StepAction::Cleanup(id@),
            StepAction::NotifyDestroyed(id) => step_actions(list)[i]
                == StepAction::NotifyDestroyed(id@),
            StepAction::NotifyComplete { step, success } => step_actions(list)[i]
                == (StepAction::NotifyComplete { step: step@, success }),
            StepAction::Finish(Ok(_)) => step_actions(list)[i] == StepAction::<Seq<char>>::Finish(
                Ok(()),
            ),
            StepAction::Finish(Err(e)) => step_actions(list)[i] == StepAction::Finish(Err(e@)),
        },
        match phase {
            StepPhase::Preparing => phase@ is Preparing,
            StepPhase::Starting { step } => phase@ == (StepPhase::Starting { step: step@ }),
            StepPhase::Waiting { step, container } => phase@ == (StepPhase::Waiting {
                step: step@,
                container: container@,
            }),
            StepPhase::Done => phase@ is Done,
        },
{
}

/// What is known of the results so far is the failure with its step and its error.
pub proof fn law_model_of_parallel_results(results: ParallelResults)
    ensures
        results.failure is None <==> results@ is None,
        results.failure matches Some(f) ==> results@ == Some(
            FailureAt { step: f.step as nat, error: f.error@ },
        ),
{
}

} // verus!
