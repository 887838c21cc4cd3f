//! Which stages of a configuration run.

use crate::config::{
    copy_stages, copy_steps, stage_models, step_models, Stage, StageModel, Step, StepModel,
};
use crate::schedule::{
    is_order, law_an_order_is_found, law_schedule_is_an_order, lemma_distinct_fits,
    lemma_without_repeats, order_problem, precedes, schedule, stage_names, without_repeats,
};
use crate::text::{join, joined, lemma_found_within, list_has, occurs, same_text, texts};
use vstd::prelude::*;
use vstd::string::*;

verus! {

// ---------------------------------------------------------------------------
// A configuration without stages
// ---------------------------------------------------------------------------
/// The stage that holds the steps of a configuration without stages.
pub open spec fn default_stage(steps: Seq<StepModel>) -> StageModel {
    StageModel { name: "default"@, steps, parallel: false, depends_on: Seq::empty() }
}

/// The stages of a configuration: its steps are one stage if it has no stages.
pub open spec fn effective_stages(stages: Seq<StageModel>, steps: Seq<StepModel>) -> Seq<
    StageModel,
> {
    if stages.len() == 0 && steps.len() > 0 {
        seq![default_stage(steps)]
    } else {
        stages
    }
}

/// The stages of a configuration: its steps are one stage if it has no stages.
pub fn stages_with_default(stages: &[Stage], steps: &[Step]) -> (r: Vec<Stage>)
    ensures
        stage_models(r@) == effective_stages(stage_models(stages@), step_models(steps@)),
{
    if stages.len() == 0 && steps.len() > 0 {
        let stage = Stage {
            name: "default".to_string(),
            steps: copy_steps(steps),
            parallel: false,
            depends_on: Vec::new(),
        };
        assert(texts(stage.depends_on@) =~= Seq::<Seq<char>>::empty());
        let r: Vec<Stage> = vec![stage];
        assert(stage_models(r@) =~= seq![default_stage(step_models(steps@))]);
        r
    } else {
        copy_stages(stages)
    }
}

// ---------------------------------------------------------------------------
// What a stage needs
// ---------------------------------------------------------------------------
/// The definition of a stage: of several, the last.
pub open spec fn definition(stages: Seq<StageModel>, name: Seq<char>) -> Option<StageModel>
    decreases stages.len(),
{
    if stages.len() == 0 {
        None
    } else if stages.last().name == name {
        Some(stages.last())
    } else {
        definition(stages.drop_last(), name)
    }
}

/// Whether the stage `a` depends on `b`.
pub open spec fn leads_to(stages: Seq<StageModel>, a: Seq<char>, b: Seq<char>) -> bool {
    definition(stages, a) matches Some(stage) && stage.depends_on.contains(b)
}

/// Whether each name of `path` depends on the next.
pub open spec fn is_path(stages: Seq<StageModel>, path: Seq<Seq<char>>) -> bool {
    &&& path.len() > 0
    &&& forall|k: int| 0 < k < path.len() ==> leads_to(stages, path[k - 1], #[trigger] path[k])
}

/// Whether `to` is `from` or something that it needs, directly or not.
pub open spec fn reachable(stages: Seq<StageModel>, from: Seq<char>, to: Seq<char>) -> bool {
    exists|path: Seq<Seq<char>>| #[trigger]
        is_path(stages, path) && path[0] == from && path.last() == to
}

/// A search through the dependencies: what is on the stack is still to be
/// visited, the last first, and what is in `seen` has been. It ends with
/// everything that was seen, or with the first name that is not defined.
pub open spec fn search(
    stages: Seq<StageModel>,
    stack: Seq<Seq<char>>,
    seen: Seq<Seq<char>>,
) -> Result<Seq<Seq<char>>, Seq<char>>
    decreases stages.len() - seen.len(), stack.len(),
{
    if stack.len() == 0 {
        Ok(seen)
    } else {
        let name = stack.last();
        let rest = stack.drop_last();
        if seen.contains(name) {
            search(stages, rest, seen)
        } else {
            match definition(stages, name) {
                Some(stage) if seen.len() < stages.len() => search(
                    stages,
                    rest + stage.depends_on,
                    seen.push(name),
                ),
                _ => Err(name),
            }
        }
    }
}

/// A stage has a definition if and only if its name occurs.
proof fn lemma_definition(stages: Seq<StageModel>, name: Seq<char>)
    ensures
        definition(stages, name) is Some <==> stage_names(stages).contains(name),
        definition(stages, name) matches Some(stage) ==> stage.name == name && stages.contains(
            stage,
        ),
    decreases stages.len(),
{
    let names = stage_names(stages);
    if stages.len() > 0 {
        let rest = stages.drop_last();
        lemma_definition(rest, name);
        if stages.last().name == name {
            assert(names[stages.len() - 1] == name);
            assert(stages[stages.len() - 1] == stages.last());
        } else {
            if stage_names(rest).contains(name) {
                let k = choose|k: int|
                    0 <= k < stage_names(rest).len() && stage_names(rest)[k] == name;
                assert(names[k] == name);
                let stage = definition(rest, name)->0;
                let i = choose|i: int| 0 <= i < rest.len() && rest[i] == stage;
                assert(stages[i] == stage);
            }
            if names.contains(name) {
                let k = choose|k: int| 0 <= k < names.len() && names[k] == name;
                assert(stage_names(rest)[k] == name);
            }
        }
    }
}

/// The start of a search is reachable.
proof fn lemma_reachable_start(stages: Seq<StageModel>, from: Seq<char>)
    ensures
        reachable(stages, from, from),
{
    let path = seq![from];
    assert(is_path(stages, path));
}

/// What something reachable depends on is reachable.
proof fn lemma_reachable_step(
    stages: Seq<StageModel>,
    from: Seq<char>,
    mid: Seq<char>,
    to: Seq<char>,
)
    requires
        reachable(stages, from, mid),
        leads_to(stages, mid, to),
    ensures
        reachable(stages, from, to),
{
    let path = choose|path: Seq<Seq<char>>| #[trigger]
        is_path(stages, path) && path[0] == from && path.last() == mid;
    let longer = path.push(to);
    assert forall|k: int| 0 < k < longer.len() implies leads_to(
        stages,
        longer[k - 1],
        #[trigger] longer[k],
    ) by {
        if k < path.len() {
            assert(longer[k] == path[k]);
        }
    }
    assert(is_path(stages, longer));
}

/// A set of names that holds the start and everything that its members depend
/// on holds everything reachable.
proof fn lemma_closed(
    stages: Seq<StageModel>,
    from: Seq<char>,
    to: Seq<char>,
    seen: Seq<Seq<char>>,
)
    requires
        seen.contains(from),
        forall|a: Seq<char>, b: Seq<char>|
            seen.contains(a) && #[trigger] leads_to(stages, a, b) ==> seen.contains(b),
        reachable(stages, from, to),
    ensures
        seen.contains(to),
{
    let path = choose|path: Seq<Seq<char>>| #[trigger]
        is_path(stages, path) && path[0] == from && path.last() == to;
    lemma_path_in(stages, path, seen, path.len() - 1);
}

proof fn lemma_path_in(
    stages: Seq<StageModel>,
    path: Seq<Seq<char>>,
    seen: Seq<Seq<char>>,
    k: int,
)
    requires
        is_path(stages, path),
        seen.contains(path[0]),
        forall|a: Seq<char>, b: Seq<char>|
            seen.contains(a) && #[trigger] leads_to(stages, a, b) ==> seen.contains(b),
        0 <= k < path.len(),
    ensures
        seen.contains(path[k]),
    decreases k,
{
    if k > 0 {
        lemma_path_in(stages, path, seen, k - 1);
        assert(leads_to(stages, path[k - 1], path[k]));
    }
}

/// The number of the definition of a stage.
fn find_definition(stages: &[Stage], name: &str) -> (r: Option<usize>)
    ensures
        r is Some <==> definition(stage_models(stages@), name@) is Some,
        r matches Some(i) ==> i < stages@.len() && definition(stage_models(stages@), name@) == Some(
            stages@[i as int]@,
        ),
{
    let ghost models = stage_models(stages@);
    let mut found: Option<usize> = None;
    let mut i: usize = 0;
    while i < stages.len()
        invariant
            i <= stages@.len(),
            models == stage_models(stages@),
            found is Some <==> definition(models.take(i as int), name@) is Some,
            found matches Some(k) ==> k < stages@.len() && definition(models.take(i as int), name@)
                == Some(stages@[k as int]@),
        decreases stages@.len() - i,
    {
        assert(models.take(i + 1).drop_last() =~= models.take(i as int));
        assert(models.take(i + 1).last() == stages@[i as int]@);
        if same_text(stages[i].name.as_str(), name) {
            found = Some(i);
        }
        i += 1;
    }
    assert(models.take(i as int) =~= models);
    found
}

/// A name that is not seen yet, of a stage that is defined, fits among the
/// names.
proof fn lemma_room(stages: Seq<StageModel>, seen: Seq<Seq<char>>, name: Seq<char>)
    requires
        seen.no_duplicates(),
        forall|i: int| 0 <= i < seen.len() ==> stage_names(stages).contains(#[trigger] seen[i]),
        !seen.contains(name),
        stage_names(stages).contains(name),
    ensures
        seen.len() < stages.len(),
        seen.push(name).no_duplicates(),
{
    let more = seen.push(name);
    assert forall|i: int, j: int| 0 <= i < j < more.len() implies more[i] != more[j] by {
        if j == seen.len() {
            assert(seen.contains(seen[i]));
        }
    }
    assert forall|i: int| 0 <= i < more.len() implies stage_names(stages).contains(
        #[trigger] more[i],
    ) by {
        if i < seen.len() {
            assert(stage_names(stages).contains(seen[i]));
        }
    }
    lemma_distinct_fits(more, stage_names(stages));
    lemma_without_repeats(stage_names(stages));
}

/// The names of the stages that `name` needs, itself included; or the first
/// name on the way that is not defined.
fn required_stages(stages: &[Stage], name: &str) -> (r: Result<Vec<String>, String>)
    ensures
        match search(stage_models(stages@), seq![name@], seq![]) {
            Ok(seen) => {
                &&& r matches Ok(list) && texts(list@) == seen
                &&& forall|n: Seq<char>|
                    #![trigger seen.contains(n)]
                    seen.contains(n) <==> reachable(stage_models(stages@), name@, n)
                &&& forall|n: Seq<char>|
                    #![trigger seen.contains(n)]
                    seen.contains(n) ==> definition(stage_models(stages@), n) is Some
            },
            Err(missing) => {
                &&& r matches Err(m) && m@ == missing
                &&& reachable(stage_models(stages@), name@, missing)
                &&& definition(stage_models(stages@), missing) is None
            },
        },
{
    let ghost models = stage_models(stages@);
    let ghost names = stage_names(models);
    let mut seen: Vec<String> = Vec::new();
    let mut stack: Vec<String> = vec![name.to_string()];
    proof {
        assert(texts(stack@) =~= seq![name@]);
        assert(texts(seen@) =~= seq![]);
        lemma_reachable_start(models, name@);
        assert(texts(stack@)[0] == name@);
    }
    while stack.len() > 0
        invariant
            models == stage_models(stages@),
            names == stage_names(models),
            search(models, seq![name@], seq![]) == search(models, texts(stack@), texts(seen@)),
            texts(seen@).no_duplicates(),
            forall|i: int| 0 <= i < seen@.len() ==> names.contains(#[trigger] texts(seen@)[i]),
            forall|i: int|
                0 <= i < seen@.len() ==> reachable(models, name@, #[trigger] texts(seen@)[i]),
            forall|i: int|
                0 <= i < stack@.len() ==> reachable(models, name@, #[trigger] texts(stack@)[i]),
            forall|a: Seq<char>, b: Seq<char>|
                texts(seen@).contains(a) && #[trigger] leads_to(models, a, b) ==> texts(
                    seen@,
                ).contains(b) || texts(stack@).contains(b),
            texts(seen@).contains(name@) || texts(stack@).contains(name@),
            seen@.len() <= models.len(),
        decreases models.len() - seen@.len(), stack@.len(),
    {
        let ghost stack0 = texts(stack@);
        let ghost seen0 = texts(seen@);
        let current = stack.pop().unwrap();
        let ghost rest = texts(stack@);
        proof {
            assert(rest =~= stack0.drop_last());
            assert(stack0.last() == current@);
            assert(stack0[stack0.len() - 1] == current@);
            assert(reachable(models, name@, current@));
            assert forall|b: Seq<char>| stack0.contains(b) implies rest.contains(b) || b
                == current@ by {
                let k = choose|k: int| 0 <= k < stack0.len() && stack0[k] == b;
                if k < rest.len() {
                    assert(rest[k] == b);
                }
            }
            assert forall|i: int| 0 <= i < rest.len() implies reachable(
                models,
                name@,
                #[trigger] rest[i],
            ) by {
                assert(stack0[i] == rest[i]);
            }
        }
        if list_has(seen.as_slice(), current.as_str()) {
            continue ;
        }
        proof {
            lemma_definition(models, current@);
        }
        match find_definition(stages, current.as_str()) {
            None => {
                return Err(current);
            },
            Some(at) => {
                proof {
                    lemma_room(models, seen0, current@);
                }
                let ghost stage = stages@[at as int]@;
                let deps = &stages[at].depends_on;
                let mut j: usize = 0;
                assert(rest + texts(deps@).take(0) =~= rest);
                while j < deps.len()
                    invariant
                        j <= deps@.len(),
                        texts(stack@) == rest + texts(deps@).take(j as int),
                    decreases deps@.len() - j,
                {
                    let ghost now = texts(stack@);
                    stack.push(deps[j].clone());
                    j += 1;
                    assert(texts(stack@) =~= now.push(texts(deps@)[j - 1]));
                    assert(texts(stack@) =~= rest + texts(deps@).take(j as int));
                }
                assert(texts(deps@).take(j as int) =~= texts(deps@));
                seen.push(current);
                proof {
                    let stack1 = texts(stack@);
                    let seen1 = texts(seen@);
                    assert(seen1 =~= seen0.push(current@));
                    assert(stack1 == rest + stage.depends_on);
                    assert forall|i: int| 0 <= i < seen1.len() implies names.contains(
                        #[trigger] seen1[i],
                    ) && reachable(models, name@, seen1[i]) by {
                        if i < seen0.len() {
                            assert(seen0[i] == seen1[i]);
                        }
                    }
                    assert forall|i: int| 0 <= i < stack1.len() implies reachable(
                        models,
                        name@,
                        #[trigger] stack1[i],
                    ) by {
                        if i < rest.len() {
                            assert(rest[i] == stack1[i]);
                        } else {
                            let dep = stage.depends_on[i - rest.len()];
                            assert(stage.depends_on.contains(dep));
                            assert(leads_to(models, current@, dep));
                            lemma_reachable_step(models, name@, current@, dep);
                        }
                    }
                    assert forall|n: Seq<char>| seen0.contains(n) || n == current@ implies seen1.contains(n) by {
                        if seen0.contains(n) {
                            let k = choose|k: int| 0 <= k < seen0.len() && seen0[k] == n;
                            assert(seen1[k] == n);
                        } else {
                            assert(seen1[seen0.len() as int] == n);
                        }
                    }
                    assert forall|n: Seq<char>| rest.contains(n) || stage.depends_on.contains(n) implies stack1.contains(n) by {
                        if rest.contains(n) {
                            let k = choose|k: int| 0 <= k < rest.len() && rest[k] == n;
                            assert(stack1[k] == n);
                        } else {
                            let k = choose|k: int|
                                0 <= k < stage.depends_on.len() && stage.depends_on[k] == n;
                            assert(stack1[rest.len() + k] == n);
                        }
                    }
                    assert forall|a: Seq<char>, b: Seq<char>|
                        seen1.contains(a) && #[trigger] leads_to(
                            models,
                            a,
                            b,
                        ) implies seen1.contains(b) || stack1.contains(b) by {
                        let k = choose|k: int| 0 <= k < seen1.len() && seen1[k] == a;
                        if k < seen0.len() {
                            assert(seen0[k] == a);
                            assert(seen0.contains(a));
                            assert(seen0.contains(b) || stack0.contains(b));
                        } else {
                            assert(a == current@);
                        }
                    }
                }
            },
        }
    }
    proof {
        let all = texts(seen@);
        assert(texts(stack@).len() == 0);
        assert forall|n: Seq<char>|
            #![trigger all.contains(n)]
            all.contains(n) <==> reachable(models, name@, n) by {
            if all.contains(n) {
                let k = choose|k: int| 0 <= k < all.len() && all[k] == n;
                assert(reachable(models, name@, all[k]));
            }
            if reachable(models, name@, n) {
                lemma_closed(models, name@, n, all);
            }
        }
        assert forall|n: Seq<char>|
            #![trigger all.contains(n)]
            all.contains(n) implies definition(models, n) is Some by {
            let k = choose|k: int| 0 <= k < all.len() && all[k] == n;
            assert(names.contains(all[k]));
            lemma_definition(models, n);
        }
    }
    Ok(seen)
}

// ---------------------------------------------------------------------------
// Selection
// ---------------------------------------------------------------------------
/// Why a stage cannot be selected: `T` is a text and `L` a list of texts.
#[derive(Debug)]
pub enum SelectionProblem<T, L> {
    /// There is no such stage.
    Unknown { stage: T, available: L },
    /// Something that the stage needs is not defined.
    Undefined { stage: T, dependency: T, available: L },
}

/// A problem, in terms of contents.
pub type SelectionModel = SelectionProblem<Seq<char>, Seq<Seq<char>>>;

impl View for SelectionProblem<String, Vec<String>> {
    type V = SelectionModel;

    open spec fn view(&self) -> SelectionModel {
        match self {
            SelectionProblem::Unknown { stage, available } => SelectionProblem::Unknown {
                stage: stage@,
                available: texts(available@),
            },
            SelectionProblem::Undefined { stage, dependency, available } =>
                SelectionProblem::Undefined {
                    stage: stage@,
                    dependency: dependency@,
                    available: texts(available@),
                },
        }
    }
}

/// What the user is told about a stage that cannot be selected.
pub open spec fn selection_problem_text(p: SelectionModel) -> Seq<char> {
    match p {
        SelectionProblem::Unknown { stage, available } => "Stage '"@ + stage
            + "' not found. Available: "@ + (if available.len() == 0 {
            "none"@
        } else {
            joined(available, ", "@)
        }),
        SelectionProblem::Undefined { stage, dependency, available } => "Stage '"@ + stage
            + "' depends on '"@ + dependency + "', but '"@ + dependency
            + "' is not defined.\nAvailable stages: "@ + joined(available, ", "@),
    }
}

impl SelectionProblem<String, Vec<String>> {
    /// What the user is told.
    pub fn message(&self) -> (r: String)
        ensures
            r@ == selection_problem_text(self@),
    {
        match self {
            SelectionProblem::Unknown { stage, available } => {
                let list = if available.len() == 0 {
                    "none".to_string()
                } else {
                    join(available.as_slice(), ", ")
                };
                "Stage '".to_string().concat(stage.as_str()).concat(
                    "' not found. Available: ",
                ).concat(list.as_str())
            },
            SelectionProblem::Undefined { stage, dependency, available } =>
                "Stage '".to_string().concat(stage.as_str()).concat("' depends on '").concat(
                    dependency.as_str(),
                ).concat("', but '").concat(dependency.as_str()).concat(
                    "' is not defined.\nAvailable stages: ",
                ).concat(join(available.as_slice(), ", ").as_str()),
        }
    }
}

/// Why the stage `name` cannot be selected, if it cannot.
pub open spec fn selection_problem(stages: Seq<StageModel>, name: Seq<char>) -> Option<
    SelectionModel,
> {
    if definition(stages, name) is None {
        Some(SelectionProblem::Unknown { stage: name, available: stage_names(stages) })
    } else {
        match search(stages, seq![name], seq![]) {
            Ok(_) => None,
            Err(missing) => Some(
                SelectionProblem::Undefined {
                    stage: name,
                    dependency: missing,
                    available: stage_names(stages),
                },
            ),
        }
    }
}

/// The stages that run if `name` is selected: it and everything that it needs,
/// directly or not, in the order of the configuration.
pub open spec fn selection(stages: Seq<StageModel>, name: Seq<char>) -> Seq<StageModel> {
    stages.filter(|s: StageModel| reachable(stages, name, s.name))
}

/// The names of the stages.
pub fn names_of_stages(stages: &[Stage]) -> (r: Vec<String>)
    ensures
        texts(r@) == stage_names(stage_models(stages@)),
{
    let ghost names = stage_names(stage_models(stages@));
    let mut r: Vec<String> = Vec::new();
    let mut i: usize = 0;
    while i < stages.len()
        invariant
            i <= stages@.len(),
            names == stage_names(stage_models(stages@)),
            texts(r@) == names.take(i as int),
        decreases stages@.len() - i,
    {
        let ghost now = texts(r@);
        r.push(stages[i].name.clone());
        i += 1;
        assert(texts(r@) =~= now.push(names[i - 1]));
        assert(texts(r@) =~= names.take(i as int));
    }
    assert(texts(r@) =~= names);
    r
}

/// The stages that run if `name` is selected.
pub fn select_stages(stages: &[Stage], name: &str) -> (r: Result<
    Vec<Stage>,
    SelectionProblem<String, Vec<String>>,
>)
    ensures
        r is Ok <==> selection_problem(stage_models(stages@), name@) is None,
        r matches Ok(list) ==> stage_models(list@) == selection(stage_models(stages@), name@),
        r matches Err(p) ==> Some(p@) == selection_problem(stage_models(stages@), name@),
{
    let ghost models = stage_models(stages@);
    if find_definition(stages, name).is_none() {
        return Err(
            SelectionProblem::Unknown {
                stage: name.to_string(),
                available: names_of_stages(stages),
            },
        );
    }
    match required_stages(stages, name) {
        Err(missing) => Err(
            SelectionProblem::Undefined {
                stage: name.to_string(),
                dependency: missing,
                available: names_of_stages(stages),
            },
        ),
        Ok(required) => {
            let ghost keep = |s: StageModel| reachable(models, name@, s.name);
            let mut r: Vec<Stage> = Vec::new();
            let mut i: usize = 0;
            proof {
                reveal(Seq::filter);
                assert(stage_models(r@) =~= models.take(0).filter(keep));
            }
            while i < stages.len()
                invariant
                    i <= stages@.len(),
                    models == stage_models(stages@),
                    keep == (|s: StageModel| reachable(models, name@, s.name)),
                    forall|n: Seq<char>|
                        #![trigger texts(required@).contains(n)]
                        texts(required@).contains(n) <==> reachable(models, name@, n),
                    stage_models(r@) == models.take(i as int).filter(keep),
                decreases stages@.len() - i,
            {
                let ghost now = stage_models(r@);
                proof {
                    reveal(Seq::filter);
                    assert(models.take(i + 1).drop_last() =~= models.take(i as int));
                    assert(models.take(i + 1).last() == stages@[i as int]@);
                }
                if list_has(required.as_slice(), stages[i].name.as_str()) {
                    r.push(stages[i].clone());
                    assert(stage_models(r@) =~= now.push(models[i as int]));
                }
                i += 1;
            }
            assert(models.take(i as int) =~= models);
            Ok(r)
        },
    }
}

// ---------------------------------------------------------------------------
// The stages of a run
// ---------------------------------------------------------------------------
/// The definitions of the names in `order`; a name that is not defined is left
/// out.
pub open spec fn scheduled_stages(stages: Seq<StageModel>, order: Seq<Seq<char>>) -> Seq<StageModel>
    decreases order.len(),
{
    if order.len() == 0 {
        Seq::empty()
    } else {
        let before = scheduled_stages(stages, order.drop_last());
        match definition(stages, order.last()) {
            Some(stage) => before.push(stage),
            None => before,
        }
    }
}

/// The definitions of the names in `order`.
pub fn schedule_stages(stages: &[Stage], order: &[String]) -> (r: Vec<Stage>)
    ensures
        stage_models(r@) == scheduled_stages(stage_models(stages@), texts(order@)),
{
    let ghost models = stage_models(stages@);
    let ghost names = texts(order@);
    let mut r: Vec<Stage> = Vec::new();
    let mut i: usize = 0;
    assert(stage_models(r@) =~= scheduled_stages(models, names.take(0)));
    while i < order.len()
        invariant
            i <= order@.len(),
            models == stage_models(stages@),
            names == texts(order@),
            stage_models(r@) == scheduled_stages(models, names.take(i as int)),
        decreases order@.len() - i,
    {
        let ghost now = stage_models(r@);
        assert(names.take(i + 1).drop_last() =~= names.take(i as int));
        assert(names.take(i + 1).last() == order@[i as int]@);
        if let Some(at) = find_definition(stages, order[i].as_str()) {
            r.push(stages[at].clone());
            assert(stage_models(r@) =~= now.push(stages@[at as int]@));
        }
        i += 1;
    }
    assert(names.take(i as int) =~= names);
    r
}

// ---------------------------------------------------------------------------
// Laws
// ---------------------------------------------------------------------------
/// A search that meets no undefined name has seen exactly what is reachable; one
/// that does has found something reachable.
proof fn lemma_search(
    stages: Seq<StageModel>,
    from: Seq<char>,
    stack: Seq<Seq<char>>,
    seen: Seq<Seq<char>>,
)
    requires
        seen.no_duplicates(),
        forall|i: int| 0 <= i < seen.len() ==> stage_names(stages).contains(#[trigger] seen[i]),
        forall|i: int| 0 <= i < stack.len() ==> reachable(stages, from, #[trigger] stack[i]),
    ensures
        search(stages, stack, seen) matches Err(missing) ==> reachable(stages, from, missing)
            && definition(stages, missing) is None,
        search(stages, stack, seen) matches Ok(all) ==> {
            &&& forall|n: Seq<char>| #[trigger] seen.contains(n) ==> all.contains(n)
            &&& forall|n: Seq<char>| #[trigger] stack.contains(n) ==> all.contains(n)
            &&& forall|n: Seq<char>| #[trigger]
                all.contains(n) ==> definition(stages, n) is Some && (seen.contains(n)
                    || forall|d: Seq<char>| #[trigger] leads_to(stages, n, d) ==> all.contains(d))
        },
    decreases stages.len() - seen.len(), stack.len(),
{
    if stack.len() > 0 {
        let name = stack.last();
        let rest = stack.drop_last();
        assert(stack[stack.len() - 1] == name);
        assert forall|i: int| 0 <= i < rest.len() implies reachable(
            stages,
            from,
            #[trigger] rest[i],
        ) by {
            assert(stack[i] == rest[i]);
        }
        lemma_definition(stages, name);
        if seen.contains(name) {
            lemma_search(stages, from, rest, seen);
        } else if definition(stages, name) is Some {
            lemma_room(stages, seen, name);
            let stage = definition(stages, name)->0;
            let stack1 = rest + stage.depends_on;
            let seen1 = seen.push(name);
            assert forall|i: int| 0 <= i < stack1.len() implies reachable(
                stages,
                from,
                #[trigger] stack1[i],
            ) by {
                if i >= rest.len() {
                    let dep = stage.depends_on[i - rest.len()];
                    assert(stage.depends_on.contains(dep));
                    assert(leads_to(stages, name, dep));
                    lemma_reachable_step(stages, from, name, dep);
                } else {
                    assert(rest[i] == stack1[i]);
                }
            }
            assert forall|i: int| 0 <= i < seen1.len() implies stage_names(stages).contains(
                #[trigger] seen1[i],
            ) by {
                if i < seen.len() {
                    assert(seen[i] == seen1[i]);
                }
            }
            lemma_search(stages, from, stack1, seen1);
            if let Ok(all) = search(stages, stack, seen) {
                assert forall|n: Seq<char>| #[trigger] seen.contains(n) implies all.contains(n) by {
                    let k = choose|k: int| 0 <= k < seen.len() && seen[k] == n;
                    assert(seen1[k] == n);
                    assert(seen1.contains(n));
                }
                assert(seen1[seen.len() as int] == name);
                assert(seen1.contains(name));
                assert forall|n: Seq<char>| #[trigger] stack.contains(n) implies all.contains(n) by {
                    let k = choose|k: int| 0 <= k < stack.len() && stack[k] == n;
                    if k < rest.len() {
                        assert(stack1[k] == n);
                        assert(stack1.contains(n));
                    }
                }
                assert forall|d: Seq<char>| #[trigger] leads_to(
                    stages,
                    name,
                    d,
                ) implies all.contains(d) by {
                    let k = choose|k: int|
                        0 <= k < stage.depends_on.len() && stage.depends_on[k] == d;
                    assert(stack1[rest.len() + k] == d);
                    assert(stack1.contains(d));
                }
                assert forall|n: Seq<char>| #[trigger] all.contains(n) implies definition(
                    stages,
                    n,
                ) is Some && (seen.contains(n) || forall|d: Seq<char>| #[trigger]
                    leads_to(stages, n, d) ==> all.contains(d)) by {
                    if seen1.contains(n) && n != name {
                        let k = choose|k: int| 0 <= k < seen1.len() && seen1[k] == n;
                        assert(seen[k] == n);
                        assert(seen.contains(n));
                    }
                }
            }
        }
        if let Ok(all) = search(stages, stack, seen) {
            assert forall|n: Seq<char>| #[trigger] stack.contains(n) implies all.contains(n) by {
                let k = choose|k: int| 0 <= k < stack.len() && stack[k] == n;
                if k < rest.len() {
                    assert(rest[k] == n);
                    assert(rest.contains(n));
                } else {
                    assert(n == name);
                }
            }
        }
    } else {
        assert forall|n: Seq<char>| #[trigger] seen.contains(n) implies definition(
            stages,
            n,
        ) is Some by {
            let k = choose|k: int| 0 <= k < seen.len() && seen[k] == n;
            assert(stage_names(stages).contains(seen[k]));
            lemma_definition(stages, n);
        }
    }
}

/// A stage can be selected if and only if it and everything that it needs,
/// directly or not, is defined.
pub proof fn law_selection_needs_definitions(stages: Seq<StageModel>, name: Seq<char>)
    ensures
        selection_problem(stages, name) is None <==> forall|n: Seq<char>| #[trigger]
            reachable(stages, name, n) ==> definition(stages, n) is Some,
        selection_problem(stages, name) matches Some(
            SelectionProblem::Undefined { dependency, .. },
        ) ==> reachable(stages, name, dependency) && definition(stages, dependency) is None,
{
    let start = seq![name];
    let none = Seq::<Seq<char>>::empty();
    lemma_reachable_start(stages, name);
    lemma_search(stages, name, start, none);
    if let Ok(all) = search(stages, start, none) {
        assert(start[0] == name);
        assert(start.contains(name));
        assert forall|a: Seq<char>, b: Seq<char>|
            all.contains(a) && #[trigger] leads_to(stages, a, b) implies all.contains(b) by {
            assert(!none.contains(a));
        }
        assert forall|n: Seq<char>| #[trigger] reachable(stages, name, n) implies definition(
            stages,
            n,
        ) is Some by {
            lemma_closed(stages, name, n, all);
            assert(all.contains(n));
        }
    }
}

/// What is selected is complete: it holds the selected stage and, with each
/// stage, everything that the stage depends on; and it holds nothing that the
/// selected stage does not need.
pub proof fn law_selection_is_complete(stages: Seq<StageModel>, name: Seq<char>)
    requires
        selection_problem(stages, name) is None,
        stage_names(stages).no_duplicates(),
    ensures
        stage_names(selection(stages, name)).contains(name),
        forall|i: int, j: int|
            0 <= i < selection(stages, name).len() && 0 <= j < selection(
                stages,
                name,
            )[i].depends_on.len() ==> stage_names(selection(stages, name)).contains(
                #[trigger] selection(stages, name)[i].depends_on[j],
            ),
        forall|i: int|
            0 <= i < selection(stages, name).len() ==> reachable(
                stages,
                name,
                (#[trigger] selection(stages, name)[i]).name,
            ),
{
    let chosen = selection(stages, name);
    let keep = |s: StageModel| reachable(stages, name, s.name);
    law_selection_needs_definitions(stages, name);
    lemma_reachable_start(stages, name);
    lemma_selected(stages, name, name);
    assert forall|i: int| 0 <= i < chosen.len() implies reachable(
        stages,
        name,
        (#[trigger] chosen[i]).name,
    ) by {
        stages.lemma_filter_pred(keep, i);
    }
    assert forall|i: int, j: int|
        0 <= i < chosen.len() && 0 <= j < chosen[i].depends_on.len() implies stage_names(
        chosen,
    ).contains(#[trigger] chosen[i].depends_on[j]) by {
        let stage = chosen[i];
        let dep = stage.depends_on[j];
        assert(reachable(stages, name, stage.name));
        lemma_filter_in(stages, keep, i);
        let at = choose|at: int| 0 <= at < stages.len() && stages[at] == stage;
        lemma_definition_is(stages, at);
        assert(stage.depends_on.contains(dep));
        assert(leads_to(stages, stage.name, dep));
        lemma_reachable_step(stages, name, stage.name, dep);
        lemma_selected(stages, name, dep);
    }
}

/// What a filter keeps comes from the list.
proof fn lemma_filter_in(stages: Seq<StageModel>, keep: spec_fn(StageModel) -> bool, i: int)
    requires
        0 <= i < stages.filter(keep).len(),
    ensures
        stages.contains(stages.filter(keep)[i]),
    decreases stages.len(),
{
    reveal(Seq::filter);
    if stages.len() > 0 {
        let rest = stages.drop_last();
        if i < rest.filter(keep).len() {
            lemma_filter_in(rest, keep, i);
            let k = choose|k: int| 0 <= k < rest.len() && rest[k] == rest.filter(keep)[i];
            assert(stages[k] == stages.filter(keep)[i]);
        } else {
            assert(stages[stages.len() - 1] == stages.filter(keep)[i]);
        }
    }
}

/// Where no two stages share a name, each stage is the definition of its name.
proof fn lemma_definition_is(stages: Seq<StageModel>, at: int)
    requires
        0 <= at < stages.len(),
        stage_names(stages).no_duplicates(),
    ensures
        definition(stages, stages[at].name) == Some(stages[at]),
{
    let name = stages[at].name;
    let names = stage_names(stages);
    assert(names[at] == name);
    lemma_definition(stages, name);
    assert(names.contains(name));
    let stage = definition(stages, name)->0;
    let k = choose|k: int| 0 <= k < stages.len() && stages[k] == stage;
    assert(names[k] == name);
}

/// Something reachable that is defined is selected.
proof fn lemma_selected(stages: Seq<StageModel>, name: Seq<char>, n: Seq<char>)
    requires
        reachable(stages, name, n),
        definition(stages, n) is Some,
    ensures
        stage_names(selection(stages, name)).contains(n),
{
    let keep = |s: StageModel| reachable(stages, name, s.name);
    lemma_definition(stages, n);
    let stage = definition(stages, n)->0;
    let at = choose|at: int| 0 <= at < stages.len() && stages[at] == stage;
    stages.lemma_filter_contains(keep, at);
    let chosen = selection(stages, name);
    let k = choose|k: int| 0 <= k < chosen.len() && chosen[k] == stage;
    assert(stage_names(chosen)[k] == n);
}

/// Stages that have an order all run: the stages of the run are the stages of
/// the configuration, each once, under the names that the order gives them.
pub proof fn law_every_stage_is_scheduled(stages: Seq<StageModel>, i: int)
    requires
        order_problem(stages) is None,
        0 <= i < stages.len(),
    ensures
        stage_names(scheduled_stages(stages, schedule(stages))) == schedule(stages),
        scheduled_stages(stages, schedule(stages)).contains(stages[i]),
{
    let order = schedule(stages);
    let names = stage_names(stages);
    law_schedule_is_an_order(stages);
    lemma_without_repeats(names);
    lemma_distinct_fits(order, names);
    lemma_ordered_names(stages);
    assert forall|k: int| 0 <= k < order.len() implies definition(
        stages,
        #[trigger] order[k],
    ) is Some by {
        lemma_definition(stages, order[k]);
        assert(order.contains(order[k]));
    }
    lemma_scheduled_names(stages, order);
    assert(names[i] == stages[i].name);
    assert(names.contains(stages[i].name));
    assert(order.contains(stages[i].name));
    let k = choose|k: int| 0 <= k < order.len() && order[k] == stages[i].name;
    lemma_definition_is(stages, i);
    assert(scheduled_stages(stages, order)[k] == stages[i]);
}

/// Where every name is defined, the run has the definitions in the order of the
/// names.
proof fn lemma_scheduled_names(stages: Seq<StageModel>, order: Seq<Seq<char>>)
    requires
        forall|k: int| 0 <= k < order.len() ==> definition(stages, #[trigger] order[k]) is Some,
    ensures
        stage_names(scheduled_stages(stages, order)) == order,
        forall|k: int|
            0 <= k < order.len() ==> #[trigger] scheduled_stages(stages, order)[k] == definition(
                stages,
                order[k],
            )->0,
        scheduled_stages(stages, order).len() == order.len(),
    decreases order.len(),
{
    if order.len() > 0 {
        let before = order.drop_last();
        assert forall|k: int| 0 <= k < before.len() implies definition(
            stages,
            #[trigger] before[k],
        ) is Some by {
            assert(order[k] == before[k]);
        }
        lemma_scheduled_names(stages, before);
        assert(order[order.len() - 1] == order.last());
        lemma_definition(stages, order.last());
    }
    assert(stage_names(scheduled_stages(stages, order)) =~= order);
}

/// A list that loses nothing when its repeats are dropped has none.
proof fn lemma_no_repeats(names: Seq<Seq<char>>)
    requires
        without_repeats(names).len() == names.len(),
    ensures
        names.no_duplicates(),
    decreases names.len(),
{
    if names.len() > 0 {
        let rest = names.drop_last();
        lemma_without_repeats(rest);
        lemma_no_repeats(rest);
        assert forall|i: int, j: int| 0 <= i < j < names.len() implies names[i] != names[j] by {
            if j == rest.len() {
                assert(rest[i] == names[i]);
                assert(rest.contains(names[i]));
            } else {
                assert(rest[i] == names[i] && rest[j] == names[j]);
            }
        }
    }
}

/// Where the stages have an order, no two share a name.
proof fn lemma_ordered_names(stages: Seq<StageModel>)
    requires
        order_problem(stages) is None,
    ensures
        stage_names(stages).no_duplicates(),
{
    let names = stage_names(stages);
    law_schedule_is_an_order(stages);
    lemma_without_repeats(names);
    lemma_distinct_fits(schedule(stages), names);
    lemma_no_repeats(names);
}

/// A filter keeps the names that pass it, each once, in their order.
proof fn lemma_filtered_names(t: Seq<Seq<char>>, keep: spec_fn(Seq<char>) -> bool)
    requires
        t.no_duplicates(),
    ensures
        t.filter(keep).no_duplicates(),
        forall|n: Seq<char>| #[trigger] t.filter(keep).contains(n) <==> t.contains(n) && keep(n),
        forall|a: Seq<char>, b: Seq<char>| #[trigger]
            precedes(t, a, b) && keep(a) && keep(b) ==> precedes(t.filter(keep), a, b),
    decreases t.len(),
{
    reveal(Seq::filter);
    let u = t.filter(keep);
    if t.len() > 0 {
        let before = t.drop_last();
        let last = t.last();
        let kept = before.filter(keep);
        assert forall|i: int, j: int| 0 <= i < j < before.len() implies before[i] != before[j] by {
            assert(t[i] != t[j]);
        }
        lemma_filtered_names(before, keep);
        assert(u == if keep(last) {
            kept.push(last)
        } else {
            kept
        });
        assert(!before.contains(last)) by {
            if before.contains(last) {
                let k = choose|k: int| 0 <= k < before.len() && before[k] == last;
                assert(t[k] != t[t.len() - 1]);
            }
        }
        assert forall|n: Seq<char>| #[trigger] u.contains(n) <==> t.contains(n) && keep(n) by {
            if kept.contains(n) {
                let k = choose|k: int| 0 <= k < kept.len() && kept[k] == n;
                assert(u[k] == n);
                let m = choose|m: int| 0 <= m < before.len() && before[m] == n;
                assert(t[m] == n);
            }
            if t.contains(n) && keep(n) {
                let m = choose|m: int| 0 <= m < t.len() && t[m] == n;
                if m < before.len() {
                    assert(before[m] == n);
                    assert(before.contains(n));
                    assert(kept.contains(n));
                } else {
                    assert(u[u.len() - 1] == n);
                }
            }
            if u.contains(n) {
                let k = choose|k: int| 0 <= k < u.len() && u[k] == n;
                if k < kept.len() {
                    assert(kept[k] == n);
                    assert(kept.contains(n));
                } else {
                    assert(t[t.len() - 1] == n);
                }
            }
        }
        assert forall|i: int, j: int| 0 <= i < j < u.len() implies u[i] != u[j] by {
            assert(kept[i] == u[i]);
            if j == kept.len() {
                assert(kept.contains(kept[i]));
                assert(before.contains(kept[i]));
            }
        }
        assert forall|a: Seq<char>, b: Seq<char>| #[trigger]
            precedes(t, a, b) && keep(a) && keep(b) implies precedes(u, a, b) by {
            let (p, q) = choose|p: int, q: int|
                0 <= p < q < t.len() && #[trigger] t[p] == a && #[trigger] t[q] == b;
            assert(before[p] == a);
            if q < before.len() {
                assert(before[q] == b);
                assert(precedes(before, a, b));
                let (x, y) = choose|x: int, y: int|
                    0 <= x < y < kept.len() && #[trigger] kept[x] == a && #[trigger] kept[y] == b;
                assert(u[x] == a && u[y] == b);
            } else {
                assert(before.contains(a));
                assert(kept.contains(a));
                let x = choose|x: int| 0 <= x < kept.len() && kept[x] == a;
                assert(u[x] == a && u[kept.len() as int] == b);
            }
        }
    }
}

/// Filtering stages by their names filters the names.
proof fn lemma_names_filtered(stages: Seq<StageModel>, keep: spec_fn(Seq<char>) -> bool)
    ensures
        stage_names(stages.filter(|s: StageModel| keep(s.name))) == stage_names(stages).filter(
            keep,
        ),
    decreases stages.len(),
{
    reveal(Seq::filter);
    let by_name = |s: StageModel| keep(s.name);
    let names = stage_names(stages);
    if stages.len() > 0 {
        let rest = stages.drop_last();
        lemma_names_filtered(rest, keep);
        assert(names.drop_last() =~= stage_names(rest));
        assert(names.last() == stages.last().name);
        if keep(stages.last().name) {
            assert(stage_names(rest.filter(by_name).push(stages.last())) =~= stage_names(
                rest.filter(by_name),
            ).push(stages.last().name));
        }
    }
    assert(stage_names(stages.filter(by_name)) =~= names.filter(keep));
}

/// Of stages that have an order, each can be selected, and what is selected has
/// an order too.
pub proof fn law_selection_has_an_order(stages: Seq<StageModel>, name: Seq<char>)
    requires
        order_problem(stages) is None,
        stage_names(stages).contains(name),
    ensures
        selection_problem(stages, name) is None,
        order_problem(selection(stages, name)) is None,
{
    let names = stage_names(stages);
    let t = schedule(stages);
    let chosen = selection(stages, name);
    let keep = |n: Seq<char>| reachable(stages, name, n);
    let by_name = |s: StageModel| reachable(stages, name, s.name);
    law_schedule_is_an_order(stages);
    lemma_ordered_names(stages);
    assert forall|a: Seq<char>, b: Seq<char>|
        names.contains(a) && #[trigger] leads_to(stages, a, b) implies names.contains(b) by {
        lemma_definition(stages, a);
        let stage = definition(stages, a)->0;
        let i = choose|i: int| 0 <= i < stages.len() && stages[i] == stage;
        let j = choose|j: int| 0 <= j < stage.depends_on.len() && stage.depends_on[j] == b;
        assert(precedes(t, stages[i].depends_on[j], stages[i].name));
        let (p, q) = choose|p: int, q: int|
            0 <= p < q < t.len() && #[trigger] t[p] == b && #[trigger] t[q] == stages[i].name;
        assert(names.contains(t[p]));
    }
    assert forall|n: Seq<char>| #[trigger] reachable(stages, name, n) implies definition(
        stages,
        n,
    ) is Some by {
        lemma_closed(stages, name, n, names);
        lemma_definition(stages, n);
    }
    law_selection_needs_definitions(stages, name);
    let u = t.filter(keep);
    lemma_filtered_names(t, keep);
    lemma_filtered_names(names, keep);
    lemma_names_filtered(stages, keep);
    assert(chosen == stages.filter(|s: StageModel| keep(s.name))) by {
        assert(by_name =~= (|s: StageModel| keep(s.name)));
    }
    assert(stage_names(chosen) == names.filter(keep));
    lemma_without_repeats(names);
    lemma_distinct_fits(t, names);
    lemma_distinct_fits(names, names);
    assert forall|n: Seq<char>| t.contains(n) <==> names.contains(n) by {
        if t.contains(n) {
            let k = choose|k: int| 0 <= k < t.len() && t[k] == n;
            assert(names.contains(t[k]));
        }
    }
    assert(u.len() == chosen.len()) by {
        u.unique_seq_to_set();
        stage_names(chosen).unique_seq_to_set();
        assert forall|n: Seq<char>| u.contains(n) == stage_names(chosen).contains(n) by {
            assert(t.contains(n) <==> names.contains(n));
        }
        assert(u.to_set() =~= stage_names(chosen).to_set());
    }
    assert forall|i: int| 0 <= i < u.len() implies stage_names(chosen).contains(#[trigger] u[i]) by {
        assert(u.contains(u[i]));
    }
    assert forall|i: int, j: int|
        0 <= i < chosen.len() && 0 <= j < chosen[i].depends_on.len() implies precedes(
        u,
        #[trigger] chosen[i].depends_on[j],
        chosen[i].name,
    ) by {
        let stage = chosen[i];
        let dep = stage.depends_on[j];
        stages.lemma_filter_pred(by_name, i);
        lemma_filter_in(stages, by_name, i);
        let at = choose|at: int| 0 <= at < stages.len() && stages[at] == stage;
        lemma_definition_is(stages, at);
        assert(stage.depends_on.contains(dep));
        assert(leads_to(stages, stage.name, dep));
        lemma_reachable_step(stages, name, stage.name, dep);
        assert(precedes(t, stages[at].depends_on[j], stages[at].name));
        assert(keep(dep) && keep(stage.name));
    }
    assert(is_order(chosen, u));
    law_an_order_is_found(chosen, u);
}

/// The definition of a name is the last stage of that name.
pub proof fn law_definition_of_a_name(stages: Seq<StageModel>, i: int)
    requires
        0 <= i < stages.len(),
        forall|k: int|
            i < k < stages.len() ==> (#[trigger] stages[k]).name != stages[i].name,
    ensures
        definition(stages, stages[i].name) == Some(stages[i]),
    decreases stages.len(),
{
    if i < stages.len() - 1 {
        assert(stages[stages.len() - 1].name != stages[i].name);
        law_definition_of_a_name(stages.drop_last(), i);
    }
}

/// The stages of a configuration are those that it lists; one that lists steps
/// alone has a single stage that runs them one after the other, in order.
pub proof fn law_stages_of_a_configuration(stages: Seq<StageModel>, steps: Seq<StepModel>)
    ensures
        stages.len() > 0 ==> effective_stages(stages, steps) == stages,
        stages.len() == 0 && steps.len() == 0 ==> effective_stages(stages, steps).len() == 0,
        stages.len() == 0 && steps.len() > 0 ==> {
            let all = effective_stages(stages, steps);
            &&& all.len() == 1
            &&& all[0].steps == steps
            &&& all[0].name == "default"@
            &&& !all[0].parallel
            &&& all[0].depends_on.len() == 0
        },
{
}

/// What is selected is as little as can be: any set of names that holds the
/// selected stage and, with each stage, what the stage depends on, holds
/// everything that is selected.
pub proof fn law_selection_is_minimal(
    stages: Seq<StageModel>,
    name: Seq<char>,
    enough: Set<Seq<char>>,
    k: int,
)
    requires
        0 <= k < selection(stages, name).len(),
        enough.contains(name),
        forall|i: int, j: int|
            0 <= i < stages.len() && 0 <= j < stages[i].depends_on.len() && enough.contains(
                stages[i].name,
            ) ==> enough.contains(#[trigger] stages[i].depends_on[j]),
    ensures
        enough.contains(selection(stages, name)[k].name),
        stages.contains(selection(stages, name)[k]),
{
    let keep = |s: StageModel| reachable(stages, name, s.name);
    let chosen = selection(stages, name)[k];
    stages.lemma_filter_pred(keep, k);
    lemma_filter_in(stages, keep, k);
    let path = choose|path: Seq<Seq<char>>| #[trigger]
        is_path(stages, path) && path[0] == name && path.last() == chosen.name;
    lemma_path_stays(stages, path, enough, path.len() - 1);
}

/// A path does not leave what is closed under dependencies.
proof fn lemma_path_stays(
    stages: Seq<StageModel>,
    path: Seq<Seq<char>>,
    enough: Set<Seq<char>>,
    at: int,
)
    requires
        is_path(stages, path),
        0 <= at < path.len(),
        enough.contains(path[0]),
        forall|i: int, j: int|
            0 <= i < stages.len() && 0 <= j < stages[i].depends_on.len() && enough.contains(
                stages[i].name,
            ) ==> enough.contains(#[trigger] stages[i].depends_on[j]),
    ensures
        enough.contains(path[at]),
    decreases at,
{
    if at > 0 {
        lemma_path_stays(stages, path, enough, at - 1);
        assert(leads_to(stages, path[at - 1], path[at]));
        lemma_definition(stages, path[at - 1]);
        let stage = definition(stages, path[at - 1])->0;
        let i = choose|i: int| 0 <= i < stages.len() && stages[i] == stage;
        let j = choose|j: int| 0 <= j < stage.depends_on.len() && stage.depends_on[j] == path[at];
        assert(enough.contains(stages[i].depends_on[j]));
    }
}

/// A selection is refused only for a reason: the stage does not exist, or it needs,
/// directly or not, one that does not. The names of all stages are told.
pub proof fn law_a_refused_selection(stages: Seq<StageModel>, name: Seq<char>)
    ensures
        selection_problem(stages, name) matches Some(p) ==> match p {
            SelectionProblem::Unknown { stage, available } => {
                &&& stage == name
                &&& forall|i: int| 0 <= i < stages.len() ==> (#[trigger] stages[i]).name != name
                &&& available == stages.map_values(|s: StageModel| s.name)
            },
            SelectionProblem::Undefined { stage, dependency, available } => {
                &&& stage == name
                &&& exists|i: int| 0 <= i < stages.len() && (#[trigger] stages[i]).name == name
                &&& exists|i: int|
                    0 <= i < stages.len() && (#[trigger] stages[i]).depends_on.contains(dependency)
                &&& forall|i: int|
                    0 <= i < stages.len() ==> (#[trigger] stages[i]).name != dependency
                &&& available == stages.map_values(|s: StageModel| s.name)
            },
        },
        (forall|i: int| 0 <= i < stages.len() ==> (#[trigger] stages[i]).name != name)
            ==> selection_problem(stages, name) is Some,
{
    let names = stage_names(stages);
    lemma_definition(stages, name);
    law_selection_needs_definitions(stages, name);
    assert forall|i: int| 0 <= i < stages.len() implies names.contains(
        (#[trigger] stages[i]).name,
    ) by {
        assert(names[i] == stages[i].name);
    }
    if names.contains(name) {
        let i = choose|i: int| 0 <= i < names.len() && names[i] == name;
        assert(stages[i].name == name);
    }
    if let Some(SelectionProblem::Undefined { dependency, .. }) = selection_problem(stages, name) {
        lemma_definition(stages, dependency);
        let path = choose|path: Seq<Seq<char>>| #[trigger]
            is_path(stages, path) && path[0] == name && path.last() == dependency;
        assert(path.len() > 1);
        let last = path.len() - 1;
        assert(leads_to(stages, path[last - 1], path[last]));
        lemma_definition(stages, path[last - 1]);
        let stage = definition(stages, path[last - 1])->0;
        let i = choose|i: int| 0 <= i < stages.len() && stages[i] == stage;
        assert(stages[i].depends_on.contains(dependency));
    }
}

/// The stages of a run are those that the order names, in that order, each as it
/// is defined; a name that no stage has is passed over.
pub proof fn law_stages_follow_the_order(
    stages: Seq<StageModel>,
    a: Seq<Seq<char>>,
    b: Seq<Seq<char>>,
    name: Seq<char>,
)
    ensures
        scheduled_stages(stages, a + b) == scheduled_stages(stages, a) + scheduled_stages(
            stages,
            b,
        ),
        definition(stages, name) matches Some(stage) ==> scheduled_stages(stages, seq![name])
            == seq![stage],
        definition(stages, name) is None ==> scheduled_stages(stages, seq![name]).len() == 0,
    decreases b.len(),
{
    assert(seq![name].drop_last() =~= Seq::<Seq<char>>::empty());
    assert(scheduled_stages(stages, Seq::<Seq<char>>::empty()) == Seq::<StageModel>::empty());
    if let Some(stage) = definition(stages, name) {
        assert(scheduled_stages(stages, seq![name]) =~= seq![stage]);
    }
    if b.len() == 0 {
        assert(a + b =~= a);
        assert(scheduled_stages(stages, a + b) =~= scheduled_stages(stages, a) + scheduled_stages(
            stages,
            b,
        ));
    } else {
        law_stages_follow_the_order(stages, a, b.drop_last(), name);
        assert((a + b).drop_last() =~= a + b.drop_last());
        assert(scheduled_stages(stages, a + b) =~= scheduled_stages(stages, a) + scheduled_stages(
            stages,
            b,
        ));
    }
}

/// What is said of a refused selection names the stage, what it needs and the
/// stages that there are.
pub proof fn law_a_refused_selection_is_explained(
    stage: Seq<char>,
    dependency: Seq<char>,
    available: Seq<Seq<char>>,
)
    ensures
        ({
            let text = selection_problem_text(SelectionProblem::Unknown { stage, available });
            &&& occurs(text, stage)
            &&& available.len() > 0 ==> occurs(text, joined(available, ", "@))
        }),
        ({
            let text = selection_problem_text(
                SelectionProblem::Undefined { stage, dependency, available },
            );
            &&& occurs(text, stage + "' depends on '"@ + dependency)
            &&& occurs(text, joined(available, ", "@))
        }),
{
    let none = Seq::<char>::empty();
    let list = if available.len() == 0 {
        "none"@
    } else {
        joined(available, ", "@)
    };
    let text = selection_problem_text(SelectionProblem::Unknown { stage, available });
    let mid = "' not found. Available: "@;
    assert(text =~= "Stage '"@ + stage + (mid + list));
    lemma_found_within("Stage '"@, stage, mid + list);
    assert(text =~= ("Stage '"@ + stage + mid) + list + none);
    lemma_found_within("Stage '"@ + stage + mid, list, none);
    let other = selection_problem_text(
        SelectionProblem::Undefined { stage, dependency, available },
    );
    let part = stage + "' depends on '"@ + dependency;
    let rest = "', but '"@ + dependency + "' is not defined.\nAvailable stages: "@;
    let all = joined(available, ", "@);
    assert(other =~= "Stage '"@ + part + (rest + all));
    lemma_found_within("Stage '"@, part, rest + all);
    assert(other =~= ("Stage '"@ + part + rest) + all + none);
    lemma_found_within("Stage '"@ + part + rest, all, none);
}

/// What is known of a problem is all of it.
pub proof fn law_model_of_a_selection_problem(p: SelectionProblem<String, Vec<String>>)
    ensures
        match p {
            SelectionProblem::Unknown { stage, available } => p@ == (SelectionProblem::Unknown {
                stage: stage@,
                available: available@.map_values(|s: String| s@),
            }),
            SelectionProblem::Undefined { stage, dependency, available } => p@
                == (SelectionProblem::Undefined {
                stage: stage@,
                dependency: dependency@,
                available: available@.map_values(|s: String| s@),
            }),
        },
{
}

} // verus!
