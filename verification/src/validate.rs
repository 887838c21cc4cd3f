//! The check of a whole configuration, and what is said of it.

use crate::config::{
    is_at_fault, keeps_the_rules, law_a_reported_problem_is_there,
    law_only_broken_rules_are_refused, parallel_problem_text, parallel_problems, parallel_stage_problem, stage_models, step_models,
    validate_parallel_stages, CacheConfig, ForgeConfig, ParallelProblem, Secret, Stage, StageModel, StepModel,
};
use crate::numbers::{count_text, decimal};
use crate::paint::{lemma_prints_push, out_text_line, print_text, prints, Paint, Print, PrintModel};
use crate::resolve::{dependency_problem_text, resolve_stage_dependencies};
use crate::scan::{first_some, lemma_first_some, lemma_first_some_found, lemma_no_some};
use crate::schedule::{
    has_problem, is_order, law_a_reported_cycle_is_there, law_an_order_is_found,
    law_schedule_is_an_order, order_problem, schedule, DependencyProblem,
};
use crate::text::{blank, is_blank, lemma_found_within, occurs, texts};
use vstd::prelude::*;
use vstd::string::*;

verus! {

/// Why a configuration is refused: `T` is a text and `L` a list of texts.
#[derive(Debug)]
pub enum InvalidConfig<T, L> {
    /// There is nothing to run.
    Empty,
    /// A stage has no steps.
    NoSteps { stage: T },
    /// A step has no command. Steps are numbered from one.
    NoCommand { stage: T, number: usize },
    /// A parallel stage breaks its rules.
    Parallel(ParallelProblem<T>),
    /// The stages have no order.
    Order(DependencyProblem<T, L>),
}

/// A problem, in terms of contents.
pub type InvalidModel = InvalidConfig<Seq<char>, Seq<Seq<char>>>;

impl View for InvalidConfig<String, Vec<String>> {
    type V = InvalidModel;

    open spec fn view(&self) -> InvalidModel {
        match self {
            InvalidConfig::Empty => InvalidConfig::Empty,
            InvalidConfig::NoSteps { stage } => InvalidConfig::NoSteps { stage: stage@ },
            InvalidConfig::NoCommand { stage, number } => InvalidConfig::NoCommand {
                stage: stage@,
                number: *number,
            },
            InvalidConfig::Parallel(problem) => InvalidConfig::Parallel(problem@),
            InvalidConfig::Order(problem) => InvalidConfig::Order(problem@),
        }
    }
}

/// Which stages have no steps.
pub open spec fn stages_without_steps(stages: Seq<StageModel>) -> Seq<Option<InvalidModel>> {
    stages.map_values(
        |s: StageModel|
            if s.steps.len() == 0 {
                Some(InvalidConfig::NoSteps { stage: s.name })
            } else {
                None
            },
    )
}

/// Which steps of a stage have no command.
pub open spec fn steps_without_command(stage: StageModel) -> Seq<Option<InvalidModel>> {
    Seq::new(
        stage.steps.len(),
        |k: int|
            if blank(stage.steps[k].command) {
                Some(InvalidConfig::NoCommand { stage: stage.name, number: (k + 1) as usize })
            } else {
                None
            },
    )
}

/// For each stage, the first step without a command.
pub open spec fn stages_without_command(stages: Seq<StageModel>) -> Seq<Option<InvalidModel>> {
    stages.map_values(|s: StageModel| first_some(steps_without_command(s)))
}

/// Why a configuration is refused, if it is. That there is something to run is
/// looked at first, then that every stage has steps, that every step has a
/// command, the rules of parallel stages, and the order of the stages.
pub open spec fn config_problem(stages: Seq<StageModel>, steps: Seq<StepModel>) -> Option<
    InvalidModel,
> {
    if stages.len() == 0 && steps.len() == 0 {
        Some(InvalidConfig::Empty)
    } else if first_some(stages_without_steps(stages)) is Some {
        first_some(stages_without_steps(stages))
    } else if first_some(stages_without_command(stages)) is Some {
        first_some(stages_without_command(stages))
    } else {
        match first_some(parallel_problems(stages)) {
            Some(problem) => Some(InvalidConfig::Parallel(problem)),
            None => match order_problem(stages) {
                Some(problem) => Some(InvalidConfig::Order(problem)),
                None => None,
            },
        }
    }
}

/// What the user is told about a configuration that is refused.
pub open spec fn invalid_config_text(p: InvalidModel) -> Seq<char> {
    match p {
        InvalidConfig::Empty => "Configuration validation failed: No stages or steps defined"@,
        InvalidConfig::NoSteps { stage } => "Configuration validation failed: Stage '"@ + stage
            + "' has no steps"@,
        InvalidConfig::NoCommand { stage, number } => "Configuration validation failed: Step "@
            + decimal(number as nat) + " in stage '"@ + stage + "' has empty command"@,
        InvalidConfig::Parallel(problem) => parallel_problem_text(problem),
        InvalidConfig::Order(problem) => dependency_problem_text(problem),
    }
}

impl InvalidConfig<String, Vec<String>> {
    /// What the user is told.
    pub fn message(&self) -> (r: String)
        ensures
            r@ == invalid_config_text(self@),
    {
        match self {
            InvalidConfig::Empty =>
                "Configuration validation failed: No stages or steps defined".to_string(),
            InvalidConfig::NoSteps { stage } =>
                "Configuration validation failed: Stage '".to_string().concat(
                    stage.as_str(),
                ).concat("' has no steps"),
            InvalidConfig::NoCommand { stage, number } =>
                "Configuration validation failed: Step ".to_string().concat(
                    count_text(*number).as_str(),
                ).concat(" in stage '").concat(stage.as_str()).concat("' has empty command"),
            InvalidConfig::Parallel(problem) => problem.message(),
            InvalidConfig::Order(problem) => problem.message(),
        }
    }
}

/// The first stage without steps.
fn find_empty_stage(stages: &Vec<Stage>) -> (r: Option<InvalidConfig<String, Vec<String>>>)
    ensures
        r is Some <==> first_some(stages_without_steps(stage_models(stages@))) is Some,
        r matches Some(p) ==> Some(p@) == first_some(stages_without_steps(stage_models(stages@))),
{
    let ghost findings = stages_without_steps(stage_models(stages@));
    let mut i: usize = 0;
    while i < stages.len()
        invariant
            i <= stages@.len(),
            findings == stages_without_steps(stage_models(stages@)),
            forall|k: int| 0 <= k < i ==> findings[k] is None,
        decreases stages@.len() - i,
    {
        assert(stage_models(stages@)[i as int] == stages@[i as int]@);
        if stages[i].steps.len() == 0 {
            proof {
                lemma_first_some(findings, i as int);
            }
            return Some(InvalidConfig::NoSteps { stage: stages[i].name.clone() });
        }
        i += 1;
    }
    proof {
        lemma_no_some(findings);
    }
    None
}

/// The first step of a stage without a command.
fn find_empty_command(stage: &Stage) -> (r: Option<InvalidConfig<String, Vec<String>>>)
    ensures
        r is Some <==> first_some(steps_without_command(stage@)) is Some,
        r matches Some(p) ==> Some(p@) == first_some(steps_without_command(stage@)),
{
    let ghost findings = steps_without_command(stage@);
    let n: usize = stage.steps.len();
    let mut k: usize = 0;
    while k < n
        invariant
            k <= n,
            n == stage.steps@.len(),
            findings == steps_without_command(stage@),
            forall|j: int| 0 <= j < k ==> findings[j] is None,
        decreases n - k,
    {
        assert(stage@.steps[k as int] == stage.steps@[k as int]@);
        if is_blank(stage.steps[k].command.as_str()) {
            proof {
                lemma_first_some(findings, k as int);
            }
            return Some(InvalidConfig::NoCommand { stage: stage.name.clone(), number: k + 1 });
        }
        k += 1;
    }
    proof {
        lemma_no_some(findings);
    }
    None
}

/// The first step without a command.
fn find_command_problem(stages: &Vec<Stage>) -> (r: Option<InvalidConfig<String, Vec<String>>>)
    ensures
        r is Some <==> first_some(stages_without_command(stage_models(stages@))) is Some,
        r matches Some(p) ==> Some(p@) == first_some(
            stages_without_command(stage_models(stages@)),
        ),
{
    let ghost findings = stages_without_command(stage_models(stages@));
    let mut i: usize = 0;
    while i < stages.len()
        invariant
            i <= stages@.len(),
            findings == stages_without_command(stage_models(stages@)),
            forall|k: int| 0 <= k < i ==> findings[k] is None,
        decreases stages@.len() - i,
    {
        assert(stage_models(stages@)[i as int] == stages@[i as int]@);
        let found = find_empty_command(&stages[i]);
        assert(findings[i as int] == first_some(steps_without_command(stages@[i as int]@)));
        if found.is_some() {
            proof {
                lemma_first_some(findings, i as int);
            }
            return found;
        }
        i += 1;
    }
    proof {
        lemma_no_some(findings);
    }
    None
}

/// Checks a whole configuration. The first problem is the one reported.
pub fn validate_config(config: &ForgeConfig) -> (r: Result<(), InvalidConfig<String, Vec<String>>>)
    ensures
        r is Ok <==> config_problem(
            stage_models(config.stages@),
            step_models(config.steps@),
        ) is None,
        r matches Err(p) ==> Some(p@) == config_problem(
            stage_models(config.stages@),
            step_models(config.steps@),
        ),
{
    if config.stages.len() == 0 && config.steps.len() == 0 {
        return Err(InvalidConfig::Empty);
    }
    if let Some(problem) = find_empty_stage(&config.stages) {
        return Err(problem);
    }
    if let Some(problem) = find_command_problem(&config.stages) {
        return Err(problem);
    }
    if let Err(problem) = validate_parallel_stages(config) {
        return Err(InvalidConfig::Parallel(problem));
    }
    if let Err(problem) = resolve_stage_dependencies(config.stages.as_slice()) {
        return Err(InvalidConfig::Order(problem));
    }
    Ok(())
}

// ---------------------------------------------------------------------------
// Report
// ---------------------------------------------------------------------------
/// A plain line.
pub open spec fn plain_line(text: Seq<char>) -> PrintModel {
    out_text_line(text, Paint::Plain)
}

/// The lines on what runs.
pub open spec fn content_lines(stages: Seq<StageModel>, steps: nat) -> Seq<PrintModel> {
    if stages.len() > 0 {
        seq![plain_line("Stages:"@)] + stages.map_values(
            |s: StageModel|
                plain_line(
                    "  - "@ + s.name + " ("@ + decimal(s.steps.len()) + " steps)"@,
                ),
        )
    } else {
        seq![plain_line("Steps: "@ + decimal(steps))]
    }
}

/// The lines on the cache.
pub open spec fn cache_lines(cache: CacheConfig) -> Seq<PrintModel> {
    if cache.enabled {
        seq![plain_line("Cache: Enabled"@)] + texts(cache.directories@).map_values(
            |d: Seq<char>| plain_line("  - "@ + d),
        )
    } else {
        seq![plain_line("Cache: Disabled"@)]
    }
}

/// The lines on the secrets: their names and where they come from.
pub open spec fn secret_lines(secrets: Seq<Secret>) -> Seq<PrintModel> {
    if secrets.len() > 0 {
        seq![plain_line("Secrets:"@)] + secrets.map_values(
            |s: Secret| plain_line("  - "@ + s.name@ + " (from "@ + s.env_var@ + ")"@),
        )
    } else {
        seq![]
    }
}

/// What is said of a configuration that passes.
pub open spec fn validation_lines(config: ForgeConfig) -> Seq<PrintModel> {
    seq![out_text_line("Configuration is valid!"@, Paint::GreenBold)] + content_lines(
        stage_models(config.stages@),
        config.steps@.len(),
    ) + cache_lines(config.cache) + secret_lines(config.secrets@)
}

/// Appends the lines on what runs.
fn print_content(stages: &Vec<Stage>, steps: usize, out: &mut Vec<Print>)
    ensures
        prints(final(out)@) == prints(old(out)@) + content_lines(
            stage_models(stages@),
            steps as nat,
        ),
{
    let ghost start = prints(out@);
    if stages.len() == 0 {
        out.push(
            print_text("Steps: ".to_string().concat(count_text(steps).as_str()), Paint::Plain),
        );
        assert(prints(out@) =~= start + content_lines(stage_models(stages@), steps as nat));
        return;
    }
    let ghost models = stage_models(stages@);
    let ghost body = models.map_values(
        |s: StageModel|
            plain_line("  - "@ + s.name + " ("@ + decimal(s.steps.len()) + " steps)"@),
    );
    let ghost head = seq![plain_line("Stages:"@)];
    out.push(print_text("Stages:".to_string(), Paint::Plain));
    assert(prints(out@) =~= start + (head + body.take(0)));
    let mut i: usize = 0;
    while i < stages.len()
        invariant
            i <= stages@.len(),
            models == stage_models(stages@),
            body == models.map_values(
                |s: StageModel|
                    plain_line("  - "@ + s.name + " ("@ + decimal(s.steps.len()) + " steps)"@),
            ),
            prints(out@) == start + (head + body.take(i as int)),
        decreases stages@.len() - i,
    {
        let line = print_text(
            "  - ".to_string().concat(stages[i].name.as_str()).concat(" (").concat(
                count_text(stages[i].steps.len()).as_str(),
            ).concat(" steps)"),
            Paint::Plain,
        );
        proof {
            assert(models[i as int] == stages@[i as int]@);
            assert(models[i as int].steps.len() == stages@[i as int].steps@.len());
            assert(line@ == body[i as int]);
            lemma_prints_push(out@, line);
            assert(start + (head + body.take(i + 1)) =~= (start + (head + body.take(
                i as int,
            ))).push(line@));
        }
        out.push(line);
        i += 1;
    }
    assert(body.take(i as int) =~= body);
}

/// Appends the lines on the cache.
fn print_cache(cache: &CacheConfig, out: &mut Vec<Print>)
    ensures
        prints(final(out)@) == prints(old(out)@) + cache_lines(*cache),
{
    let ghost start = prints(out@);
    if !cache.enabled {
        out.push(print_text("Cache: Disabled".to_string(), Paint::Plain));
        assert(prints(out@) =~= start + cache_lines(*cache));
        return;
    }
    let ghost dirs = texts(cache.directories@);
    let ghost body = dirs.map_values(|d: Seq<char>| plain_line("  - "@ + d));
    let ghost head = seq![plain_line("Cache: Enabled"@)];
    out.push(print_text("Cache: Enabled".to_string(), Paint::Plain));
    assert(prints(out@) =~= start + (head + body.take(0)));
    let mut i: usize = 0;
    while i < cache.directories.len()
        invariant
            i <= cache.directories@.len(),
            dirs == texts(cache.directories@),
            body == dirs.map_values(|d: Seq<char>| plain_line("  - "@ + d)),
            prints(out@) == start + (head + body.take(i as int)),
        decreases cache.directories@.len() - i,
    {
        let line = print_text(
            "  - ".to_string().concat(cache.directories[i].as_str()),
            Paint::Plain,
        );
        proof {
            assert(dirs[i as int] == cache.directories@[i as int]@);
            assert(line@ == body[i as int]);
            lemma_prints_push(out@, line);
            assert(start + (head + body.take(i + 1)) =~= (start + (head + body.take(
                i as int,
            ))).push(line@));
        }
        out.push(line);
        i += 1;
    }
    assert(body.take(i as int) =~= body);
}

/// Appends the lines on the secrets.
fn print_secrets(secrets: &Vec<Secret>, out: &mut Vec<Print>)
    ensures
        prints(final(out)@) == prints(old(out)@) + secret_lines(secrets@),
{
    let ghost start = prints(out@);
    if secrets.len() == 0 {
        assert(prints(out@) =~= start + secret_lines(secrets@));
        return;
    }
    let ghost body = secrets@.map_values(
        |s: Secret| plain_line("  - "@ + s.name@ + " (from "@ + s.env_var@ + ")"@),
    );
    let ghost head = seq![plain_line("Secrets:"@)];
    out.push(print_text("Secrets:".to_string(), Paint::Plain));
    assert(prints(out@) =~= start + (head + body.take(0)));
    let mut i: usize = 0;
    while i < secrets.len()
        invariant
            i <= secrets@.len(),
            body == secrets@.map_values(
                |s: Secret| plain_line("  - "@ + s.name@ + " (from "@ + s.env_var@ + ")"@),
            ),
            prints(out@) == start + (head + body.take(i as int)),
        decreases secrets@.len() - i,
    {
        let line = print_text(
            "  - ".to_string().concat(secrets[i].name.as_str()).concat(" (from ").concat(
                secrets[i].env_var.as_str(),
            ).concat(")"),
            Paint::Plain,
        );
        proof {
            assert(line@ == body[i as int]);
            lemma_prints_push(out@, line);
            assert(start + (head + body.take(i + 1)) =~= (start + (head + body.take(
                i as int,
            ))).push(line@));
        }
        out.push(line);
        i += 1;
    }
    assert(body.take(i as int) =~= body);
}

/// What is said of a configuration that passes.
pub fn validation_report(config: &ForgeConfig) -> (r: Vec<Print>)
    ensures
        prints(r@) == validation_lines(*config),
{
    let mut r: Vec<Print> = vec![
        print_text("Configuration is valid!".to_string(), Paint::GreenBold),
    ];
    assert(prints(r@) =~= seq![out_text_line("Configuration is valid!"@, Paint::GreenBold)]);
    print_content(&config.stages, config.steps.len(), &mut r);
    print_cache(&config.cache, &mut r);
    print_secrets(&config.secrets, &mut r);
    r
}

// ---------------------------------------------------------------------------
// Laws
// ---------------------------------------------------------------------------
/// A configuration that passes can run: there is something to run, and its
/// stages have an order, keep the rules of parallel stages and hold no empty
/// command.
pub proof fn law_a_valid_config_can_run(stages: Seq<StageModel>, steps: Seq<StepModel>)
    requires
        config_problem(stages, steps) is None,
    ensures
        stages.len() > 0 || steps.len() > 0,
        order_problem(stages) is None,
        forall|i: int|
            0 <= i < stages.len() ==> (#[trigger] stages[i]).steps.len() > 0
                && parallel_stage_problem(stages[i]) is None,
        forall|i: int, k: int|
            0 <= i < stages.len() && 0 <= k < stages[i].steps.len() ==> !blank(
                (#[trigger] stages[i].steps[k]).command,
            ),
{
    lemma_first_some_found(stages_without_steps(stages));
    lemma_first_some_found(stages_without_command(stages));
    lemma_first_some_found(parallel_problems(stages));
    assert forall|i: int| 0 <= i < stages.len() implies (#[trigger] stages[i]).steps.len() > 0
        && parallel_stage_problem(stages[i]) is None by {
        assert(stages_without_steps(stages)[i] is None);
        assert(parallel_problems(stages)[i] is None);
    }
    assert forall|i: int, k: int|
        0 <= i < stages.len() && 0 <= k < stages[i].steps.len() implies !blank(
        (#[trigger] stages[i].steps[k]).command,
    ) by {
        assert(stages_without_command(stages)[i] is None);
        lemma_first_some_found(steps_without_command(stages[i]));
        assert(steps_without_command(stages[i])[k] is None);
    }
}

/// A configuration is valid if and only if there is something to run, every stage
/// has steps, every step has a command, every stage keeps the rules of parallel
/// stages, and there is an order: nothing else is refused.
pub proof fn law_what_is_valid(stages: Seq<StageModel>, steps: Seq<StepModel>)
    ensures
        config_problem(stages, steps) is None <==> {
            &&& stages.len() > 0 || steps.len() > 0
            &&& forall|i: int| 0 <= i < stages.len() ==> (#[trigger] stages[i]).steps.len() > 0
            &&& forall|i: int, k: int|
                0 <= i < stages.len() && 0 <= k < stages[i].steps.len() ==> !blank(
                    (#[trigger] stages[i].steps[k]).command,
                )
            &&& forall|i: int| 0 <= i < stages.len() ==> keeps_the_rules(#[trigger] stages[i])
            &&& exists|t: Seq<Seq<char>>| #[trigger] is_order(stages, t)
        },
{
    law_only_broken_rules_are_refused(stages);
    if config_problem(stages, steps) is None {
        law_a_valid_config_can_run(stages, steps);
        law_schedule_is_an_order(stages);
        assert(is_order(stages, schedule(stages)));
    }
    if {
        &&& stages.len() > 0 || steps.len() > 0
        &&& forall|i: int| 0 <= i < stages.len() ==> (#[trigger] stages[i]).steps.len() > 0
        &&& forall|i: int, k: int|
            0 <= i < stages.len() && 0 <= k < stages[i].steps.len() ==> !blank(
                (#[trigger] stages[i].steps[k]).command,
            )
        &&& forall|i: int| 0 <= i < stages.len() ==> keeps_the_rules(#[trigger] stages[i])
        &&& exists|t: Seq<Seq<char>>| #[trigger] is_order(stages, t)
    } {
        let t = choose|t: Seq<Seq<char>>| #[trigger] is_order(stages, t);
        law_an_order_is_found(stages, t);
        lemma_no_some(stages_without_steps(stages));
        assert forall|i: int| 0 <= i < stages.len() implies stages_without_command(
            stages,
        )[i] is None by {
            let row = steps_without_command(stages[i]);
            assert forall|k: int| 0 <= k < row.len() implies row[k] is None by {
                assert(!blank(stages[i].steps[k].command));
            }
            lemma_no_some(row);
        }
        lemma_no_some(stages_without_command(stages));
    }
}

/// What a configuration is refused for is there.
pub proof fn law_a_refused_configuration(stages: Seq<StageModel>, steps: Seq<StepModel>)
    requires
        forall|i: int| 0 <= i < stages.len() ==> (#[trigger] stages[i]).steps.len() <= usize::MAX,
    ensures
        config_problem(stages, steps) matches Some(p) ==> match p {
            InvalidConfig::Empty => stages.len() == 0 && steps.len() == 0,
            InvalidConfig::NoSteps { stage } => exists|i: int|
                {
                    &&& 0 <= i < stages.len()
                    &&& (#[trigger] stages[i]).name == stage
                    &&& stages[i].steps.len() == 0
                },
            InvalidConfig::NoCommand { stage, number } => exists|i: int|
                {
                    &&& 0 <= i < stages.len()
                    &&& (#[trigger] stages[i]).name == stage
                    &&& 1 <= number <= stages[i].steps.len()
                    &&& blank(stages[i].steps[number - 1].command)
                },
            InvalidConfig::Parallel(problem) => exists|i: int|
                {
                    &&& 0 <= i < stages.len()
                    &&& (#[trigger] stages[i]).parallel
                    &&& is_at_fault(stages[i], problem)
                },
            InvalidConfig::Order(problem) => has_problem(stages, problem),
        },
{
    if let Some(p) = config_problem(stages, steps) {
        match p {
            InvalidConfig::Empty => {
                if stages.len() > 0 || steps.len() > 0 {
                    lemma_first_some_found(stages_without_steps(stages));
                    lemma_first_some_found(stages_without_command(stages));
                    lemma_no_other_kind(stages);
                }
            },
            _ => {
                lemma_no_other_kind(stages);
            },
        }
    }
}

/// Each scan reports what it looks for.
proof fn lemma_no_other_kind(stages: Seq<StageModel>)
    requires
        forall|i: int| 0 <= i < stages.len() ==> (#[trigger] stages[i]).steps.len() <= usize::MAX,
    ensures
        first_some(stages_without_steps(stages)) matches Some(p) ==> p matches InvalidConfig::NoSteps {
            stage,
        } && exists|i: int|
            {
                &&& 0 <= i < stages.len()
                &&& (#[trigger] stages[i]).name == stage
                &&& stages[i].steps.len() == 0
            },
        first_some(stages_without_command(stages)) matches Some(
            p,
        ) ==> p matches InvalidConfig::NoCommand { stage, number } && exists|i: int|
            {
                &&& 0 <= i < stages.len()
                &&& (#[trigger] stages[i]).name == stage
                &&& 1 <= number <= stages[i].steps.len()
                &&& blank(stages[i].steps[number - 1].command)
            },
        first_some(parallel_problems(stages)) matches Some(problem) ==> exists|i: int|
            {
                &&& 0 <= i < stages.len()
                &&& (#[trigger] stages[i]).parallel
                &&& is_at_fault(stages[i], problem)
            },
        order_problem(stages) matches Some(problem) ==> has_problem(stages, problem),
{
    let empty = stages_without_steps(stages);
    let silent = stages_without_command(stages);
    lemma_first_some_found(empty);
    lemma_first_some_found(silent);
    law_a_reported_cycle_is_there(stages);
    if first_some(empty) is Some {
        let i = choose|i: int|
            0 <= i < empty.len() && #[trigger] empty[i] == first_some(empty) && forall|j: int|
                0 <= j < i ==> empty[j] is None;
        assert(stages[i].name == stages[i].name);
    }
    if first_some(silent) is Some {
        let i = choose|i: int|
            0 <= i < silent.len() && #[trigger] silent[i] == first_some(silent) && forall|j: int|
                0 <= j < i ==> silent[j] is None;
        let row = steps_without_command(stages[i]);
        lemma_first_some_found(row);
        let k = choose|k: int|
            0 <= k < row.len() && #[trigger] row[k] == first_some(row) && forall|j: int|
                0 <= j < k ==> row[j] is None;
        assert(k + 1 <= usize::MAX);
        assert(stages[i].name == stages[i].name);
    }
    if first_some(parallel_problems(stages)) is Some {
        let i = law_a_reported_problem_is_there(stages);
        assert(stages[i].parallel);
    }
}

/// What is said of a valid configuration lists every stage with the number of its
/// steps, every directory that is kept if any is, and every secret with its
/// variable, each in order.
#[verifier::spinoff_prover]
pub proof fn law_a_valid_configuration_is_listed(config: ForgeConfig, i: int, d: int, k: int)
    requires
        0 <= i < config.stages@.len(),
    ensures
        ({
            let lines = validation_lines(config);
            let n = config.stages@.len() as int;
            let kept = if config.cache.enabled {
                config.cache.directories@.len() as int
            } else {
                0
            };
            &&& lines[2 + i].spans == seq![
                (
                    "  - "@ + config.stages@[i].name@ + " ("@ + decimal(
                        config.stages@[i].steps@.len(),
                    ) + " steps)"@,
                    Paint::Plain,
                ),
            ]
            &&& lines[2 + n].spans[0].0 == if config.cache.enabled {
                "Cache: Enabled"@
            } else {
                "Cache: Disabled"@
            }
            &&& 0 <= d < kept ==> lines[3 + n + d].spans == seq![
                ("  - "@ + config.cache.directories@[d]@, Paint::Plain),
            ]
            &&& 0 <= k < config.secrets@.len() ==> lines[4 + n + kept + k].spans == seq![
                (
                    "  - "@ + config.secrets@[k].name@ + " (from "@ + config.secrets@[k].env_var@
                        + ")"@,
                    Paint::Plain,
                ),
            ]
            &&& lines.len() == 3 + n + kept + if config.secrets@.len() > 0 {
                1 + config.secrets@.len()
            } else {
                0
            }
        }),
{
    let stages = stage_models(config.stages@);
    assert(stages[i] == config.stages@[i]@);
    let lines = validation_lines(config);
    let a = content_lines(stages, config.steps@.len());
    let b = cache_lines(config.cache);
    let c = secret_lines(config.secrets@);
    assert(a.len() == 1 + stages.len());
    assert(lines[2 + i] == a[1 + i]);
    assert(lines[1 + a.len() as int] == b[0]);
    if config.cache.enabled && 0 <= d < config.cache.directories@.len() {
        assert(texts(config.cache.directories@)[d] == config.cache.directories@[d]@);
        assert(lines[2 + a.len() as int + d] == b[1 + d]);
    }
    if 0 <= k < config.secrets@.len() {
        assert(lines[2 + a.len() as int + b.len() as int + k] == c[1 + k]);
    }
}

/// What a refused configuration is refused with names the stage and the step.
pub proof fn law_a_refusal_is_explained(stage: Seq<char>, number: usize)
    ensures
        occurs(invalid_config_text(InvalidConfig::NoSteps { stage }), stage),
        occurs(invalid_config_text(InvalidConfig::NoCommand { stage, number }), stage),
        occurs(
            invalid_config_text(InvalidConfig::NoCommand { stage, number }),
            "Step "@ + decimal(number as nat) + " in stage '"@,
        ),
{
    lemma_found_within("Configuration validation failed: Stage '"@, stage, "' has no steps"@);
    reveal_strlit("Configuration validation failed: Step ");
    reveal_strlit("Configuration validation failed: ");
    reveal_strlit("Step ");
    let head = "Configuration validation failed: "@;
    assert("Configuration validation failed: Step "@ =~= head + "Step "@);
    let text = invalid_config_text(InvalidConfig::NoCommand { stage, number });
    let part = "Step "@ + decimal(number as nat) + " in stage '"@;
    assert(text =~= head + part + (stage + "' has empty command"@));
    lemma_found_within(head, part, stage + "' has empty command"@);
    assert(text =~= (head + part) + stage + "' has empty command"@);
    lemma_found_within(head + part, stage, "' has empty command"@);
}

/// What is known of a problem is all of it.
pub proof fn law_model_of_an_invalid_configuration(p: InvalidConfig<String, Vec<String>>)
    ensures
        match p {
            InvalidConfig::Empty => p@ is Empty,
            InvalidConfig::NoSteps { stage } => p@ == (InvalidModel::NoSteps { stage: stage@ }),
            InvalidConfig::NoCommand { stage, number } => p@ == (InvalidModel::NoCommand {
                stage: stage@,
                number,
            }),
            InvalidConfig::Parallel(problem) => p@ == InvalidModel::Parallel(problem@),
            InvalidConfig::Order(problem) => p@ == InvalidModel::Order(problem@),
        },
{
}

/// Of a configuration without stages the number of steps is told.
pub proof fn law_a_configuration_of_steps_is_listed(config: ForgeConfig)
    requires
        config.stages@.len() == 0,
    ensures
        validation_lines(config)[0].spans[0].0 == "Configuration is valid!"@,
        validation_lines(config)[1].spans[0].0 == "Steps: "@ + decimal(config.steps@.len()),
{
}

} // verus!
