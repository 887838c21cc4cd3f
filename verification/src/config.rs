//! The pipeline configuration and the rules for parallel stages.

use crate::env::{EnvMap, Vars};
use crate::numbers::{count_text, decimal};
use crate::scan::{first_some, lemma_first_some, lemma_first_some_found, lemma_no_some};
use crate::text::{
    blank, copy_list, is_blank, is_space, lemma_found_within, occurs, same_text, texts,
};
use vstd::prelude::*;
use vstd::string::*;

verus! {

// ---------------------------------------------------------------------------
// Configuration
// ---------------------------------------------------------------------------
/// One command of a stage.
#[derive(Debug)]
pub struct Step {
    pub name: String,
    /// Command to run inside the container
    pub command: String,
    pub image: String,
    pub working_dir: String,
    pub env: EnvMap,
    pub depends_on: Vec<String>,
}

/// What a `Step` holds.
pub struct StepModel {
    pub name: Seq<char>,
    pub command: Seq<char>,
    pub image: Seq<char>,
    pub working_dir: Seq<char>,
    pub env: Vars,
    pub depends_on: Seq<Seq<char>>,
}

impl View for Step {
    type V = StepModel;

    open spec fn view(&self) -> StepModel {
        StepModel {
            name: self.name@,
            command: self.command@,
            image: self.image@,
            working_dir: self.working_dir@,
            env: self.env@,
            depends_on: texts(self.depends_on@),
        }
    }
}

impl Clone for Step {
    fn clone(&self) -> (r: Step)
        ensures
            r@ == self@,
    {
        Step {
            name: self.name.clone(),
            command: self.command.clone(),
            image: self.image.clone(),
            working_dir: self.working_dir.clone(),
            env: self.env.clone(),
            depends_on: copy_list(self.depends_on.as_slice()),
        }
    }
}

/// A group of steps.
#[derive(Debug)]
pub struct Stage {
    /// Stage name
    pub name: String,
    /// Steps in this stage
    pub steps: Vec<Step>,
    pub parallel: bool,
    pub depends_on: Vec<String>,
}

/// What a `Stage` holds.
pub struct StageModel {
    pub name: Seq<char>,
    pub steps: Seq<StepModel>,
    pub parallel: bool,
    pub depends_on: Seq<Seq<char>>,
}

/// What a list of steps holds.
pub open spec fn step_models(steps: Seq<Step>) -> Seq<StepModel> {
    steps.map_values(|s: Step| s@)
}

impl View for Stage {
    type V = StageModel;

    open spec fn view(&self) -> StageModel {
        StageModel {
            name: self.name@,
            steps: step_models(self.steps@),
            parallel: self.parallel,
            depends_on: texts(self.depends_on@),
        }
    }
}

/// What a list of stages holds.
pub open spec fn stage_models(stages: Seq<Stage>) -> Seq<StageModel> {
    stages.map_values(|s: Stage| s@)
}

/// A list with the same steps as `steps`.
pub fn copy_steps(steps: &[Step]) -> (r: Vec<Step>)
    ensures
        step_models(r@) == step_models(steps@),
{
    let mut r: Vec<Step> = Vec::new();
    let mut i: usize = 0;
    while i < steps.len()
        invariant
            i <= steps@.len(),
            step_models(r@) == step_models(steps@).take(i as int),
        decreases steps@.len() - i,
    {
        let ghost before = step_models(r@);
        r.push(steps[i].clone());
        assert(step_models(r@) =~= before.push(step_models(steps@)[i as int]));
        i += 1;
        assert(step_models(r@) =~= step_models(steps@).take(i as int));
    }
    assert(step_models(r@) =~= step_models(steps@));
    r
}

impl Clone for Stage {
    fn clone(&self) -> (r: Stage)
        ensures
            r@ == self@,
    {
        Stage {
            name: self.name.clone(),
            steps: copy_steps(self.steps.as_slice()),
            parallel: self.parallel,
            depends_on: copy_list(self.depends_on.as_slice()),
        }
    }
}

/// A list with the same stages as `stages`.
pub fn copy_stages(stages: &[Stage]) -> (r: Vec<Stage>)
    ensures
        stage_models(r@) == stage_models(stages@),
{
    let mut r: Vec<Stage> = Vec::new();
    let mut i: usize = 0;
    while i < stages.len()
        invariant
            i <= stages@.len(),
            stage_models(r@) == stage_models(stages@).take(i as int),
        decreases stages@.len() - i,
    {
        let ghost before = stage_models(r@);
        r.push(stages[i].clone());
        assert(stage_models(r@) =~= before.push(stage_models(stages@)[i as int]));
        i += 1;
        assert(stage_models(r@) =~= stage_models(stages@).take(i as int));
    }
    assert(stage_models(r@) =~= stage_models(stages@));
    r
}

/// Which directories are kept between runs.
#[derive(Debug)]
pub struct CacheConfig {
    pub directories: Vec<String>,
    pub enabled: bool,
}

impl Default for CacheConfig {
    fn default() -> (r: CacheConfig)
        ensures
            r.directories@ == Seq::<String>::empty(),
            !r.enabled,
    {
        CacheConfig { directories: Vec::new(), enabled: false }
    }
}

impl Clone for CacheConfig {
    fn clone(&self) -> (r: CacheConfig)
        ensures
            r.directories@ == self.directories@,
            r.enabled == self.enabled,
    {
        CacheConfig {
            directories: copy_list(self.directories.as_slice()),
            enabled: self.enabled,
        }
    }
}

/// A value that is taken from the host's environment.
#[derive(Debug)]
pub struct Secret {
    /// Secret name
    pub name: String,
    /// Name of the environment variable on the host containing the secret value
    pub env_var: String,
}

/// A whole configuration file.
#[derive(Debug)]
pub struct ForgeConfig {
    pub version: String,
    pub stages: Vec<Stage>,
    pub steps: Vec<Step>,
    pub cache: CacheConfig,
    pub secrets: Vec<Secret>,
}

/// The version of a configuration that names none.
pub fn default_version() -> (r: String)
    ensures
        r@ == "1.0"@,
{
    "1.0".to_string()
}

// ---------------------------------------------------------------------------
// Parallel stages
// ---------------------------------------------------------------------------
/// Why a parallel stage is refused. Steps are numbered from one.
#[derive(Debug)]
pub enum ParallelProblem<T> {
    TooFewSteps { stage: T, steps: usize },
    EmptyCommand { stage: T, number: usize },
    Unnamed { stage: T, number: usize },
    DuplicateName { stage: T, step: T },
    HasDependencies { stage: T, step: T },
}

impl View for ParallelProblem<String> {
    type V = ParallelProblem<Seq<char>>;

    open spec fn view(&self) -> ParallelProblem<Seq<char>> {
        match self {
            ParallelProblem::TooFewSteps { stage, steps } => ParallelProblem::TooFewSteps {
                stage: stage@,
                steps: *steps,
            },
            ParallelProblem::EmptyCommand { stage, number } => ParallelProblem::EmptyCommand {
                stage: stage@,
                number: *number,
            },
            ParallelProblem::Unnamed { stage, number } => ParallelProblem::Unnamed {
                stage: stage@,
                number: *number,
            },
            ParallelProblem::DuplicateName { stage, step } => ParallelProblem::DuplicateName {
                stage: stage@,
                step: step@,
            },
            ParallelProblem::HasDependencies { stage, step } => ParallelProblem::HasDependencies {
                stage: stage@,
                step: step@,
            },
        }
    }
}

/// Whether an earlier step of the stage has the name of step `k`.
pub open spec fn name_taken(stage: StageModel, k: int) -> bool {
    exists|j: int| 0 <= j < k && #[trigger] stage.steps[j].name == stage.steps[k].name
}

/// What is wrong with step `k` of a parallel stage. The command is looked at
/// first, then the name, then whether the name is taken, then the dependencies.
pub open spec fn parallel_step_problem(stage: StageModel, k: int) -> Option<
    ParallelProblem<Seq<char>>,
> {
    let step = stage.steps[k];
    if blank(step.command) {
        Some(ParallelProblem::EmptyCommand { stage: stage.name, number: (k + 1) as usize })
    } else if blank(step.name) {
        Some(ParallelProblem::Unnamed { stage: stage.name, number: (k + 1) as usize })
    } else if name_taken(stage, k) {
        Some(ParallelProblem::DuplicateName { stage: stage.name, step: step.name })
    } else if step.depends_on.len() > 0 {
        Some(ParallelProblem::HasDependencies { stage: stage.name, step: step.name })
    } else {
        None
    }
}

/// What is wrong with each step of a parallel stage.
pub open spec fn parallel_step_problems(stage: StageModel) -> Seq<
    Option<ParallelProblem<Seq<char>>>,
> {
    Seq::new(stage.steps.len(), |k: int| parallel_step_problem(stage, k))
}

/// What is wrong with a stage as far as parallel execution goes. A stage that
/// is not parallel is never at fault.
pub open spec fn parallel_stage_problem(stage: StageModel) -> Option<ParallelProblem<Seq<char>>> {
    if !stage.parallel {
        None
    } else if stage.steps.len() < 2 {
        Some(ParallelProblem::TooFewSteps { stage: stage.name, steps: stage.steps.len() as usize })
    } else {
        first_some(parallel_step_problems(stage))
    }
}

/// What is wrong with each stage as far as parallel execution goes.
pub open spec fn parallel_problems(stages: Seq<StageModel>) -> Seq<
    Option<ParallelProblem<Seq<char>>>,
> {
    stages.map_values(|s: StageModel| parallel_stage_problem(s))
}

/// Whether an earlier step has the name of step `k`.
fn is_name_taken(stage: &Stage, k: usize) -> (r: bool)
    requires
        k < stage.steps@.len(),
    ensures
        r == name_taken(stage@, k as int),
{
    let mut j: usize = 0;
    while j < k
        invariant
            j <= k,
            k < stage.steps@.len(),
            forall|i: int|
                0 <= i < j ==> #[trigger] stage@.steps[i].name != stage@.steps[k as int].name,
        decreases k - j,
    {
        if same_text(stage.steps[j].name.as_str(), stage.steps[k].name.as_str()) {
            assert(stage@.steps[j as int].name == stage@.steps[k as int].name);
            return true;
        }
        j += 1;
    }
    false
}

/// Looks at step `k` of a parallel stage.
fn check_parallel_step(stage: &Stage, k: usize) -> (r: Option<ParallelProblem<String>>)
    requires
        k < stage.steps@.len(),
    ensures
        r is Some <==> parallel_step_problem(stage@, k as int) is Some,
        r matches Some(p) ==> Some(p@) == parallel_step_problem(stage@, k as int),
{
    let n: usize = stage.steps.len();
    assert(k + 1 <= n);
    let step = &stage.steps[k];
    assert(step@ == stage@.steps[k as int]);
    if is_blank(step.command.as_str()) {
        Some(ParallelProblem::EmptyCommand { stage: stage.name.clone(), number: k + 1 })
    } else if is_blank(step.name.as_str()) {
        Some(ParallelProblem::Unnamed { stage: stage.name.clone(), number: k + 1 })
    } else if is_name_taken(stage, k) {
        Some(ParallelProblem::DuplicateName { stage: stage.name.clone(), step: step.name.clone() })
    } else if step.depends_on.len() > 0 {
        Some(
            ParallelProblem::HasDependencies { stage: stage.name.clone(), step: step.name.clone() },
        )
    } else {
        None
    }
}

/// Looks at one stage.
fn check_parallel_stage(stage: &Stage) -> (r: Option<ParallelProblem<String>>)
    ensures
        r is Some <==> parallel_stage_problem(stage@) is Some,
        r matches Some(p) ==> Some(p@) == parallel_stage_problem(stage@),
{
    if !stage.parallel {
        return None;
    }
    if stage.steps.len() < 2 {
        return Some(
            ParallelProblem::TooFewSteps { stage: stage.name.clone(), steps: stage.steps.len() },
        );
    }
    let ghost problems = parallel_step_problems(stage@);
    let mut k: usize = 0;
    while k < stage.steps.len()
        invariant
            k <= stage.steps@.len(),
            problems == parallel_step_problems(stage@),
            forall|j: int| 0 <= j < k ==> problems[j] is None,
            stage@.parallel,
            stage@.steps.len() >= 2,
        decreases stage.steps@.len() - k,
    {
        let found = check_parallel_step(stage, k);
        assert(problems[k as int] == parallel_step_problem(stage@, k as int));
        if found.is_some() {
            proof {
                lemma_first_some(problems, k as int);
            }
            return found;
        }
        k += 1;
    }
    proof {
        lemma_no_some(problems);
    }
    None
}

/// Holds every parallel stage to its rules: at least two steps, and each step
/// with a command, a name of its own and no dependencies. The first problem in
/// the order of the configuration is the one reported.
pub fn validate_parallel_stages(config: &ForgeConfig) -> (r: Result<(), ParallelProblem<String>>)
    ensures
        r is Ok <==> first_some(parallel_problems(stage_models(config.stages@))) is None,
        r matches Err(p) ==> Some(p@) == first_some(
            parallel_problems(stage_models(config.stages@)),
        ),
{
    let ghost problems = parallel_problems(stage_models(config.stages@));
    let mut i: usize = 0;
    while i < config.stages.len()
        invariant
            i <= config.stages@.len(),
            problems == parallel_problems(stage_models(config.stages@)),
            forall|j: int| 0 <= j < i ==> problems[j] is None,
        decreases config.stages@.len() - i,
    {
        let found = check_parallel_stage(&config.stages[i]);
        assert(problems[i as int] == parallel_stage_problem(config.stages@[i as int]@));
        match found {
            Some(problem) => {
                proof {
                    lemma_first_some(problems, i as int);
                }
                return Err(problem);
            },
            None => {},
        }
        i += 1;
    }
    proof {
        lemma_no_some(problems);
    }
    Ok(())
}

/// What the user is told about a problem with a parallel stage.
pub open spec fn parallel_problem_text(p: ParallelProblem<Seq<char>>) -> Seq<char> {
    match p {
        ParallelProblem::TooFewSteps { stage, steps } => "Parallel stage '"@ + stage
            + "' has only "@ + decimal(steps as nat)
            + " step. Parallel execution requires at least 2 steps."@,
        ParallelProblem::EmptyCommand { stage, number } => "Step #"@ + decimal(number as nat)
            + " in parallel stage '"@ + stage + "' has an empty command"@,
        ParallelProblem::Unnamed { stage, number } => "Step #"@ + decimal(number as nat)
            + " in parallel stage '"@ + stage + "' must have a name for log identification"@,
        ParallelProblem::DuplicateName { stage, step } => "Duplicate step name '"@ + step
            + "' in parallel stage '"@ + stage + "'. Each step must have a unique name."@,
        ParallelProblem::HasDependencies { stage, step } => "Step '"@ + step
            + "' in parallel stage '"@ + stage
            + "' has dependencies. Steps in parallel stages cannot have 'depends_on' - they all run simultaneously."@,
    }
}

impl ParallelProblem<String> {
    /// What the user is told.
    pub fn message(&self) -> (r: String)
        ensures
            r@ == parallel_problem_text(self@),
    {
        match self {
            ParallelProblem::TooFewSteps { stage, steps } => "Parallel stage '".to_string().concat(
                stage.as_str(),
            ).concat("' has only ").concat(count_text(*steps).as_str()).concat(
                " step. Parallel execution requires at least 2 steps.",
            ),
            ParallelProblem::EmptyCommand { stage, number } => "Step #".to_string().concat(
                count_text(*number).as_str(),
            ).concat(" in parallel stage '").concat(stage.as_str()).concat(
                "' has an empty command",
            ),
            ParallelProblem::Unnamed { stage, number } => "Step #".to_string().concat(
                count_text(*number).as_str(),
            ).concat(" in parallel stage '").concat(stage.as_str()).concat(
                "' must have a name for log identification",
            ),
            ParallelProblem::DuplicateName { stage, step } => "Duplicate step name '".to_string().concat(
                step.as_str()).concat("' in parallel stage '").concat(stage.as_str()).concat(
                "'. Each step must have a unique name.",
            ),
            ParallelProblem::HasDependencies { stage, step } => "Step '".to_string().concat(
                step.as_str(),
            ).concat("' in parallel stage '").concat(stage.as_str()).concat(
                "' has dependencies. Steps in parallel stages cannot have 'depends_on' - they all run simultaneously.",
            ),
        }
    }
}

/// A parallel stage that passes has at least two steps, and each step has a
/// command, a name of its own and no dependencies.
pub proof fn law_parallel_stage_rules(stage: StageModel)
    requires
        stage.parallel,
        parallel_stage_problem(stage) is None,
    ensures
        stage.steps.len() >= 2,
        forall|k: int|
            0 <= k < stage.steps.len() ==> !blank((#[trigger] stage.steps[k]).command) && !blank(
                stage.steps[k].name,
            ) && stage.steps[k].depends_on.len() == 0,
        forall|j: int, k: int|
            0 <= j < k < stage.steps.len() ==> (#[trigger] stage.steps[j]).name != (
            #[trigger] stage.steps[k]).name,
{
    let problems = parallel_step_problems(stage);
    lemma_first_some_found(problems);
    assert forall|k: int| 0 <= k < stage.steps.len() implies parallel_step_problem(
        stage,
        k,
    ) is None by {
        assert(problems[k] is None);
    }
    assert forall|k: int| 0 <= k < stage.steps.len() implies !blank(
        (#[trigger] stage.steps[k]).command,
    ) && !blank(stage.steps[k].name) && stage.steps[k].depends_on.len() == 0 by {
        assert(parallel_step_problem(stage, k) is None);
    }
    assert forall|j: int, k: int| 0 <= j < k < stage.steps.len() implies (
    #[trigger] stage.steps[j]).name != (#[trigger] stage.steps[k]).name by {
        assert(parallel_step_problem(stage, k) is None);
        assert(!name_taken(stage, k));
    }
}

/// Whether step `k` of a stage may run at the same time as the others: it has a
/// command, a name that no earlier step has, and no dependencies.
pub open spec fn may_run_in_parallel(stage: StageModel, k: int) -> bool {
    let step = stage.steps[k];
    &&& exists|c: int| 0 <= c < step.command.len() && !is_space(#[trigger] step.command[c])
    &&& exists|c: int| 0 <= c < step.name.len() && !is_space(#[trigger] step.name[c])
    &&& forall|j: int| 0 <= j < k ==> (#[trigger] stage.steps[j]).name != step.name
    &&& step.depends_on.len() == 0
}

/// Whether a stage keeps the rules: unless it is parallel there are none.
pub open spec fn keeps_the_rules(stage: StageModel) -> bool {
    stage.parallel ==> {
        &&& stage.steps.len() >= 2
        &&& forall|k: int| 0 <= k < stage.steps.len() ==> #[trigger] may_run_in_parallel(stage, k)
    }
}

/// A step is refused if and only if it may not run at the same time as others.
proof fn lemma_parallel_step(stage: StageModel, k: int)
    requires
        0 <= k < stage.steps.len(),
    ensures
        parallel_step_problem(stage, k) is None <==> may_run_in_parallel(stage, k),
{
    let step = stage.steps[k];
    if !blank(step.command) {
        let c = choose|c: int| 0 <= c < step.command.len() && !is_space(#[trigger] step.command[c]);
        assert(!is_space(step.command[c]));
    }
    if !blank(step.name) {
        let c = choose|c: int| 0 <= c < step.name.len() && !is_space(#[trigger] step.name[c]);
        assert(!is_space(step.name[c]));
    }
}

/// A stage is refused if and only if it breaks the rules.
proof fn lemma_parallel_stage(stage: StageModel)
    ensures
        parallel_stage_problem(stage) is None <==> keeps_the_rules(stage),
{
    let problems = parallel_step_problems(stage);
    lemma_first_some_found(problems);
    assert forall|k: int| 0 <= k < stage.steps.len() implies (problems[k] is None
        <==> #[trigger] may_run_in_parallel(stage, k)) by {
        lemma_parallel_step(stage, k);
    }
    if keeps_the_rules(stage) && stage.parallel {
        assert forall|k: int| 0 <= k < problems.len() implies problems[k] is None by {
            assert(may_run_in_parallel(stage, k));
        }
        lemma_no_some(problems);
    }
}

/// A configuration passes the rules of parallel stages if and only if every one
/// of its stages keeps them: no stage that keeps them is refused.
pub proof fn law_only_broken_rules_are_refused(stages: Seq<StageModel>)
    ensures
        first_some(parallel_problems(stages)) is None <==> forall|i: int|
            0 <= i < stages.len() ==> keeps_the_rules(#[trigger] stages[i]),
{
    let problems = parallel_problems(stages);
    lemma_first_some_found(problems);
    assert forall|i: int| 0 <= i < stages.len() implies (problems[i] is None <==> keeps_the_rules(
        #[trigger] stages[i],
    )) by {
        lemma_parallel_stage(stages[i]);
    }
    if forall|i: int| 0 <= i < stages.len() ==> keeps_the_rules(#[trigger] stages[i]) {
        assert forall|i: int| 0 <= i < problems.len() implies problems[i] is None by {
            assert(keeps_the_rules(stages[i]));
        }
        lemma_no_some(problems);
    }
}

/// Whether a problem is one that the parallel stage `stage` has, and the first:
/// of the steps before the one at fault each may run.
pub open spec fn is_at_fault(stage: StageModel, p: ParallelProblem<Seq<char>>) -> bool {
    match p {
        ParallelProblem::TooFewSteps { stage: name, steps } => {
            &&& name == stage.name
            &&& steps == stage.steps.len()
            &&& steps < 2
        },
        ParallelProblem::EmptyCommand { stage: name, number } => {
            &&& name == stage.name
            &&& 1 <= number <= stage.steps.len()
            &&& blank(stage.steps[number - 1].command)
            &&& forall|j: int| 0 <= j < number - 1 ==> #[trigger] may_run_in_parallel(stage, j)
        },
        ParallelProblem::Unnamed { stage: name, number } => {
            &&& name == stage.name
            &&& 1 <= number <= stage.steps.len()
            &&& blank(stage.steps[number - 1].name)
            &&& forall|j: int| 0 <= j < number - 1 ==> #[trigger] may_run_in_parallel(stage, j)
        },
        ParallelProblem::DuplicateName { stage: name, step } => {
            &&& name == stage.name
            &&& exists|j: int, k: int|
                {
                    &&& 0 <= j < k < stage.steps.len()
                    &&& (#[trigger] stage.steps[j]).name == step
                    &&& (#[trigger] stage.steps[k]).name == step
                    &&& forall|i: int| 0 <= i < k ==> #[trigger] may_run_in_parallel(stage, i)
                }
        },
        ParallelProblem::HasDependencies { stage: name, step } => {
            &&& name == stage.name
            &&& exists|k: int|
                {
                    &&& 0 <= k < stage.steps.len()
                    &&& (#[trigger] stage.steps[k]).name == step
                    &&& stage.steps[k].depends_on.len() > 0
                    &&& forall|i: int| 0 <= i < k ==> #[trigger] may_run_in_parallel(stage, i)
                }
        },
    }
}

/// The problem that is reported is there: it is one of the first stage that
/// breaks the rules, and of the first step of that stage that does.
pub proof fn law_a_reported_problem_is_there(stages: Seq<StageModel>) -> (i: int)
    requires
        first_some(parallel_problems(stages)) is Some,
        forall|i: int| 0 <= i < stages.len() ==> (#[trigger] stages[i]).steps.len() <= usize::MAX,
    ensures
        0 <= i < stages.len(),
        stages[i].parallel,
        is_at_fault(stages[i], first_some(parallel_problems(stages))->0),
        forall|j: int| 0 <= j < i ==> keeps_the_rules(#[trigger] stages[j]),
{
    let problems = parallel_problems(stages);
    lemma_first_some_found(problems);
    let i = choose|i: int|
        0 <= i < problems.len() && #[trigger] problems[i] == first_some(problems) && forall|j: int|
            0 <= j < i ==> problems[j] is None;
    assert forall|j: int| 0 <= j < i implies keeps_the_rules(#[trigger] stages[j]) by {
        assert(problems[j] is None);
        lemma_parallel_stage(stages[j]);
    }
    let stage = stages[i];
    assert(problems[i] == parallel_stage_problem(stage));
    if stage.steps.len() >= 2 {
        let faults = parallel_step_problems(stage);
        lemma_first_some_found(faults);
        let k = choose|k: int|
            0 <= k < faults.len() && #[trigger] faults[k] == first_some(faults) && forall|j: int|
                0 <= j < k ==> faults[j] is None;
        assert forall|j: int| 0 <= j < k implies #[trigger] may_run_in_parallel(stage, j) by {
            assert(faults[j] is None);
            lemma_parallel_step(stage, j);
        }
        assert(faults[k] == parallel_step_problem(stage, k));
        assert(k + 1 <= usize::MAX);
        if name_taken(stage, k) {
            let j = choose|j: int|
                0 <= j < k && #[trigger] stage.steps[j].name == stage.steps[k].name;
            assert(stage.steps[j].name == stage.steps[k].name);
        }
        assert(stage.steps[k].name == stage.steps[k].name);
    }
    i
}

/// What is said of a parallel stage that is refused names the stage and the step,
/// by its number or by its name.
pub proof fn law_a_refused_parallel_stage_is_named(
    stage: Seq<char>,
    step: Seq<char>,
    number: usize,
)
    ensures
        occurs(
            parallel_problem_text(ParallelProblem::TooFewSteps { stage, steps: number }),
            "'"@ + stage + "' has only "@ + decimal(number as nat) + " step"@,
        ),
        occurs(
            parallel_problem_text(ParallelProblem::EmptyCommand { stage, number }),
            "#"@ + decimal(number as nat) + " in parallel stage '"@ + stage + "'"@,
        ),
        occurs(
            parallel_problem_text(ParallelProblem::Unnamed { stage, number }),
            "#"@ + decimal(number as nat) + " in parallel stage '"@ + stage + "'"@,
        ),
        occurs(
            parallel_problem_text(ParallelProblem::DuplicateName { stage, step }),
            "'"@ + step + "' in parallel stage '"@ + stage + "'"@,
        ),
        occurs(
            parallel_problem_text(ParallelProblem::HasDependencies { stage, step }),
            "'"@ + step + "' in parallel stage '"@ + stage + "'"@,
        ),
{
    lemma_few_steps_text(stage, number);
    lemma_numbered_texts(stage, number);
    lemma_duplicate_text(stage, step);
    lemma_dependencies_text(stage, step);
}

/// A stage with too few steps is named with their number.
#[verifier::spinoff_prover]
proof fn lemma_few_steps_text(stage: Seq<char>, number: usize)
    ensures
        occurs(
            parallel_problem_text(ParallelProblem::TooFewSteps { stage, steps: number }),
            "'"@ + stage + "' has only "@ + decimal(number as nat) + " step"@,
        ),
{
    let part = "'"@ + stage + "' has only "@ + decimal(number as nat) + " step"@;
    let tail = ". Parallel execution requires at least 2 steps."@;
    assert("Parallel stage '"@ =~= "Parallel stage "@ + "'"@) by {
        reveal_strlit("'");
        reveal_strlit("Parallel stage '");
        reveal_strlit("Parallel stage ");
    }
    assert(" step. Parallel execution requires at least 2 steps."@ =~= " step"@ + tail) by {
        reveal_strlit(" step. Parallel execution requires at least 2 steps.");
        reveal_strlit(" step");
        reveal_strlit(". Parallel execution requires at least 2 steps.");
    }
    assert(parallel_problem_text(ParallelProblem::TooFewSteps { stage, steps: number })
        =~= "Parallel stage "@ + part + tail);
    lemma_found_within("Parallel stage "@, part, tail);
}

/// A step without a command or a name is named by its number.
#[verifier::spinoff_prover]
proof fn lemma_numbered_texts(stage: Seq<char>, number: usize)
    ensures
        occurs(
            parallel_problem_text(ParallelProblem::EmptyCommand { stage, number }),
            "#"@ + decimal(number as nat) + " in parallel stage '"@ + stage + "'"@,
        ),
        occurs(
            parallel_problem_text(ParallelProblem::Unnamed { stage, number }),
            "#"@ + decimal(number as nat) + " in parallel stage '"@ + stage + "'"@,
        ),
{
    let part = "#"@ + decimal(number as nat) + " in parallel stage '"@ + stage + "'"@;
    assert("Step #"@ =~= "Step "@ + "#"@) by {
        reveal_strlit("#");
        reveal_strlit("Step #");
        reveal_strlit("Step ");
    }
    assert("' has an empty command"@ =~= "'"@ + " has an empty command"@) by {
        reveal_strlit("'");
        reveal_strlit("' has an empty command");
        reveal_strlit(" has an empty command");
    }
    assert("' must have a name for log identification"@ =~= "'"@
        + " must have a name for log identification"@) by {
        reveal_strlit("'");
        reveal_strlit("' must have a name for log identification");
        reveal_strlit(" must have a name for log identification");
    }
    assert(parallel_problem_text(ParallelProblem::EmptyCommand { stage, number }) =~= "Step "@
        + part + " has an empty command"@);
    lemma_found_within("Step "@, part, " has an empty command"@);
    assert(parallel_problem_text(ParallelProblem::Unnamed { stage, number }) =~= "Step "@ + part
        + " must have a name for log identification"@);
    lemma_found_within("Step "@, part, " must have a name for log identification"@);
}

/// A name that occurs twice is named with its stage.
#[verifier::spinoff_prover]
proof fn lemma_duplicate_text(stage: Seq<char>, step: Seq<char>)
    ensures
        occurs(
            parallel_problem_text(ParallelProblem::DuplicateName { stage, step }),
            "'"@ + step + "' in parallel stage '"@ + stage + "'"@,
        ),
{
    let part = "'"@ + step + "' in parallel stage '"@ + stage + "'"@;
    let tail = ". Each step must have a unique name."@;
    assert("Duplicate step name '"@ =~= "Duplicate step name "@ + "'"@) by {
        reveal_strlit("'");
        reveal_strlit("Duplicate step name '");
        reveal_strlit("Duplicate step name ");
    }
    assert("'. Each step must have a unique name."@ =~= "'"@ + tail) by {
        reveal_strlit("'");
        reveal_strlit("'. Each step must have a unique name.");
        reveal_strlit(". Each step must have a unique name.");
    }
    assert(parallel_problem_text(ParallelProblem::DuplicateName { stage, step })
        =~= "Duplicate step name "@ + part + tail);
    lemma_found_within("Duplicate step name "@, part, tail);
}

/// A step with dependencies is named with its stage.
#[verifier::spinoff_prover]
proof fn lemma_dependencies_text(stage: Seq<char>, step: Seq<char>)
    ensures
        occurs(
            parallel_problem_text(ParallelProblem::HasDependencies { stage, step }),
            "'"@ + step + "' in parallel stage '"@ + stage + "'"@,
        ),
{
    let part = "'"@ + step + "' in parallel stage '"@ + stage + "'"@;
    let tail = " has dependencies. Steps in parallel stages cannot have 'depends_on' - they all run simultaneously."@;
    assert("Step '"@ =~= "Step "@ + "'"@) by {
        reveal_strlit("'");
        reveal_strlit("Step '");
        reveal_strlit("Step ");
    }
    assert("' has dependencies. Steps in parallel stages cannot have 'depends_on' - they all run simultaneously."@
        =~= "'"@ + tail) by {
        reveal_strlit("'");
        reveal_strlit(
            "' has dependencies. Steps in parallel stages cannot have 'depends_on' - they all run simultaneously.",
        );
        reveal_strlit(
            " has dependencies. Steps in parallel stages cannot have 'depends_on' - they all run simultaneously.",
        );
    }
    assert(parallel_problem_text(ParallelProblem::HasDependencies { stage, step }) =~= "Step "@
        + part + tail);
    lemma_found_within("Step "@, part, tail);
}

/// What is known of a configuration is all of it: every stage with every step, and
/// of each every field.
pub proof fn law_model_of_a_configuration(stages: Seq<Stage>, i: int, k: int, d: int)
    requires
        0 <= i < stages.len(),
        0 <= k < stages[i].steps@.len(),
    ensures
        ({
            let stage = stage_models(stages)[i];
            let step = stage.steps[k];
            &&& stage_models(stages).len() == stages.len()
            &&& stage.name == stages[i].name@
            &&& stage.parallel == stages[i].parallel
            &&& stage.depends_on.len() == stages[i].depends_on@.len()
            &&& 0 <= d < stage.depends_on.len() ==> stage.depends_on[d]
                == stages[i].depends_on@[d]@
            &&& stage.steps.len() == stages[i].steps@.len()
            &&& step.name == stages[i].steps@[k].name@
            &&& step.command == stages[i].steps@[k].command@
            &&& step.image == stages[i].steps@[k].image@
            &&& step.working_dir == stages[i].steps@[k].working_dir@
            &&& step.env == stages[i].steps@[k].env@
            &&& step.depends_on.len() == stages[i].steps@[k].depends_on@.len()
            &&& 0 <= d < step.depends_on.len() ==> step.depends_on[d]
                == stages[i].steps@[k].depends_on@[d]@
        }),
{
}

/// What is known of a problem is all of it.
pub proof fn law_model_of_a_parallel_problem(p: ParallelProblem<String>)
    ensures
        match p {
            ParallelProblem::TooFewSteps { stage, steps } => p@ == (ParallelProblem::TooFewSteps {
                stage: stage@,
                steps,
            }),
            ParallelProblem::EmptyCommand { stage, number } => p@
                == (ParallelProblem::EmptyCommand { stage: stage@, number }),
            ParallelProblem::Unnamed { stage, number } => p@ == (ParallelProblem::Unnamed {
                stage: stage@,
                number,
            }),
            ParallelProblem::DuplicateName { stage, step } => p@
                == (ParallelProblem::DuplicateName { stage: stage@, step: step@ }),
            ParallelProblem::HasDependencies { stage, step } => p@
                == (ParallelProblem::HasDependencies { stage: stage@, step: step@ }),
        },
{
}

} // verus!
