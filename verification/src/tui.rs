//! The state of the interactive dashboard: what it knows of the run, how events
//! and keys change it, and what it shows.

use crate::clock::Elapsed;
use crate::config::{stage_models, step_models, Stage, StageModel, Step, StepModel};
use crate::monitor::{log_lines, LogLine};
use crate::scan::{concatenated, lemma_concatenated_at, lemma_concatenated_step};
use crate::text::{lemma_place_is, list_has, place_in, same_text, texts};
use vstd::prelude::*;
use vstd::string::*;

verus! {

// ---------------------------------------------------------------------------
// State
// ---------------------------------------------------------------------------
/// How far a stage or a step has come.
#[derive(Debug, Clone, Copy, PartialEq, Eq, Structural)]
pub enum Status {
    Pending,
    Running,
    Succeeded,
    Failed,
}

/// What the dashboard knows of a step.
#[derive(Debug)]
pub struct StepState {
    pub name: String,
    pub image: String,
    pub status: Status,
    /// Pieces of output, and whether each is an error
    pub logs: Vec<(String, bool)>,
    pub start_time: Option<Elapsed>,
    pub duration: Option<Elapsed>,
}

/// What a `StepState` holds.
#[verifier::ext_equal]
pub struct StepView {
    pub name: Seq<char>,
    pub image: Seq<char>,
    pub status: Status,
    pub logs: Seq<LogLine>,
    pub start_time: Option<Elapsed>,
    pub duration: Option<Elapsed>,
}

impl View for StepState {
    type V = StepView;

    open spec fn view(&self) -> StepView {
        StepView {
            name: self.name@,
            image: self.image@,
            status: self.status,
            logs: log_lines(self.logs@),
            start_time: self.start_time,
            duration: self.duration,
        }
    }
}

/// What a list of steps holds.
pub open spec fn step_views(steps: Seq<StepState>) -> Seq<StepView> {
    steps.map_values(|s: StepState| s@)
}

/// What the dashboard knows of a stage.
#[derive(Debug)]
pub struct StageState {
    pub name: String,
    pub parallel: bool,
    pub status: Status,
    pub steps: Vec<StepState>,
    pub start_time: Option<Elapsed>,
    pub duration: Option<Elapsed>,
}

/// What a `StageState` holds.
#[verifier::ext_equal]
pub struct StageView {
    pub name: Seq<char>,
    pub parallel: bool,
    pub status: Status,
    pub steps: Seq<StepView>,
    pub start_time: Option<Elapsed>,
    pub duration: Option<Elapsed>,
}

impl View for StageState {
    type V = StageView;

    open spec fn view(&self) -> StageView {
        StageView {
            name: self.name@,
            parallel: self.parallel,
            status: self.status,
            steps: step_views(self.steps@),
            start_time: self.start_time,
            duration: self.duration,
        }
    }
}

/// What a list of stages holds.
pub open spec fn stage_views(stages: Seq<StageState>) -> Seq<StageView> {
    stages.map_values(|s: StageState| s@)
}

/// The panel that the arrow keys go to.
#[derive(Debug, Clone, Copy, PartialEq, Eq, Structural)]
pub enum ActivePanel {
    StagesList,
    LogsBlock,
}

/// The whole state of the dashboard. Times are readings of one clock.
#[derive(Debug)]
pub struct TuiState {
    pub stages: Vec<StageState>,
    pub pipeline_start: Elapsed,
    pub pipeline_duration: Option<Elapsed>,
    pub pipeline_success: Option<bool>,
    pub active_containers: Vec<String>,
    pub selected_step_idx: usize,
    pub active_panel: ActivePanel,
    pub log_scroll: usize,
    pub auto_scroll: bool,
    pub auto_focus: bool,
    pub should_quit: bool,
    pub error_msg: Option<String>,
}

/// What a `TuiState` holds.
#[verifier::ext_equal]
pub struct TuiModel {
    pub stages: Seq<StageView>,
    pub pipeline_start: Elapsed,
    pub pipeline_duration: Option<Elapsed>,
    pub pipeline_success: Option<bool>,
    pub active_containers: Seq<Seq<char>>,
    pub selected_step_idx: usize,
    pub active_panel: ActivePanel,
    pub log_scroll: usize,
    pub auto_scroll: bool,
    pub auto_focus: bool,
    pub should_quit: bool,
    pub error_msg: Option<Seq<char>>,
}

impl View for TuiState {
    type V = TuiModel;

    open spec fn view(&self) -> TuiModel {
        TuiModel {
            stages: stage_views(self.stages@),
            pipeline_start: self.pipeline_start,
            pipeline_duration: self.pipeline_duration,
            pipeline_success: self.pipeline_success,
            active_containers: texts(self.active_containers@),
            selected_step_idx: self.selected_step_idx,
            active_panel: self.active_panel,
            log_scroll: self.log_scroll,
            auto_scroll: self.auto_scroll,
            auto_focus: self.auto_focus,
            should_quit: self.should_quit,
            error_msg: match self.error_msg {
                Some(msg) => Some(msg@),
                None => None,
            },
        }
    }
}

/// The state before any event.
pub open spec fn initial_state(now: Elapsed) -> TuiModel {
    TuiModel {
        stages: Seq::empty(),
        pipeline_start: now,
        pipeline_duration: None,
        pipeline_success: None,
        active_containers: Seq::empty(),
        selected_step_idx: 0,
        active_panel: ActivePanel::StagesList,
        log_scroll: 0,
        auto_scroll: true,
        auto_focus: true,
        should_quit: false,
        error_msg: None,
    }
}

// ---------------------------------------------------------------------------
// The list of all steps
// ---------------------------------------------------------------------------
/// The number of steps in the stages before stage number `i`.
pub open spec fn steps_before(stages: Seq<StageView>, i: int) -> int
    decreases i,
{
    if i <= 0 {
        0
    } else {
        steps_before(stages, i - 1) + stages[i - 1].steps.len()
    }
}

/// The number of steps in all stages.
pub open spec fn step_count(stages: Seq<StageView>) -> int {
    steps_before(stages, stages.len() as int)
}

/// Whether entry number `k` of the list of all steps is step `j` of stage `i`.
pub open spec fn stands_at(stages: Seq<StageView>, k: int, i: int, j: int) -> bool {
    &&& 0 <= i < stages.len()
    &&& 0 <= j < stages[i].steps.len()
    &&& k == steps_before(stages, i) + j
}

/// More stages never have fewer steps.
pub proof fn lemma_steps_before(stages: Seq<StageView>, i: int, j: int)
    requires
        0 <= i <= j <= stages.len(),
    ensures
        0 <= steps_before(stages, i) <= steps_before(stages, j),
    decreases j,
{
    if i < j {
        lemma_steps_before(stages, i, j - 1);
    } else if i > 0 {
        lemma_steps_before(stages, i - 1, j - 1);
    }
}

/// Every entry of the list of all steps is one step, and no other.
pub proof fn law_flat_steps(stages: Seq<StageView>, k: int, i: int, j: int, i2: int, j2: int)
    requires
        stands_at(stages, k, i, j),
        stands_at(stages, k, i2, j2),
    ensures
        i == i2,
        j == j2,
        0 <= k < step_count(stages),
{
    lemma_steps_before(stages, i + 1, stages.len() as int);
    lemma_steps_before(stages, 0, i);
    if i < i2 {
        lemma_steps_before(stages, i + 1, i2);
    }
    if i2 < i {
        lemma_steps_before(stages, i2 + 1, i);
    }
}

/// All steps, stage by stage.
pub open spec fn all_steps(stages: Seq<StageView>) -> Seq<StepView> {
    concatenated(stages.map_values(|s: StageView| s.steps))
}

/// The list of all steps has each step in its place.
pub proof fn lemma_all_steps(stages: Seq<StageView>)
    ensures
        all_steps(stages).len() == step_count(stages),
        forall|k: int, i: int, j: int| #[trigger]
            stands_at(stages, k, i, j) ==> 0 <= k < all_steps(stages).len() && all_steps(stages)[k]
                == stages[i].steps[j],
{
    let parts = stages.map_values(|s: StageView| s.steps);
    lemma_steps_before_is(stages, stages.len() as int);
    assert(parts.take(stages.len() as int) =~= parts);
    assert forall|k: int, i: int, j: int| #[trigger] stands_at(stages, k, i, j) implies 0 <= k
        < all_steps(stages).len() && all_steps(stages)[k] == stages[i].steps[j] by {
        lemma_steps_before_is(stages, i);
        lemma_concatenated_at(parts, i);
        assert(parts[i][j] == stages[i].steps[j]);
    }
}

/// The steps before a stage are those of the earlier stages.
proof fn lemma_steps_before_is(stages: Seq<StageView>, i: int)
    requires
        0 <= i <= stages.len(),
    ensures
        steps_before(stages, i) == concatenated(
            stages.map_values(|s: StageView| s.steps).take(i),
        ).len(),
    decreases i,
{
    if i > 0 {
        lemma_steps_before_is(stages, i - 1);
        lemma_concatenated_step(stages.map_values(|s: StageView| s.steps), i - 1);
    }
}

impl TuiState {
    /// The state before any event.
    pub fn new(now: Elapsed) -> (r: TuiState)
        ensures
            r@ == initial_state(now),
    {
        let r = TuiState {
            stages: Vec::new(),
            pipeline_start: now,
            pipeline_duration: None,
            pipeline_success: None,
            active_containers: Vec::new(),
            selected_step_idx: 0,
            active_panel: ActivePanel::StagesList,
            log_scroll: 0,
            auto_scroll: true,
            auto_focus: true,
            should_quit: false,
            error_msg: None,
        };
        assert(r@ =~= initial_state(now));
        r
    }

    /// All steps, each by the numbers of its stage and of its place in it.
    pub fn get_flat_steps(&self) -> (r: Vec<(usize, usize)>)
        ensures
            r@.len() == step_count(self@.stages),
            forall|k: int|
                0 <= k < r@.len() ==> stands_at(
                    self@.stages,
                    k,
                    (#[trigger] r@[k]).0 as int,
                    r@[k].1 as int,
                ),
    {
        let mut list: Vec<(usize, usize)> = Vec::new();
        let mut i: usize = 0;
        while i < self.stages.len()
            invariant
                i <= self.stages@.len(),
                list@.len() == steps_before(self@.stages, i as int),
                forall|k: int|
                    0 <= k < list@.len() ==> stands_at(
                        self@.stages,
                        k,
                        (#[trigger] list@[k]).0 as int,
                        list@[k].1 as int,
                    ),
            decreases self.stages@.len() - i,
        {
            let mut j: usize = 0;
            while j < self.stages[i].steps.len()
                invariant
                    i < self.stages@.len(),
                    j <= self.stages@[i as int].steps@.len(),
                    list@.len() == steps_before(self@.stages, i as int) + j,
                    forall|k: int|
                        0 <= k < list@.len() ==> stands_at(
                            self@.stages,
                            k,
                            (#[trigger] list@[k]).0 as int,
                            list@[k].1 as int,
                        ),
                decreases self.stages@[i as int].steps@.len() - j,
            {
                list.push((i, j));
                j += 1;
            }
            i += 1;
        }
        list
    }

    /// The selected step, if there is one.
    pub fn get_selected_step(&self) -> (r: Option<&StepState>)
        ensures
            r is Some <==> self@.selected_step_idx < step_count(self@.stages),
            r matches Some(step) ==> step@ == all_steps(
                self@.stages,
            )[self@.selected_step_idx as int],
    {
        let flat = self.get_flat_steps();
        proof {
            lemma_all_steps(self@.stages);
        }
        if flat.len() == 0 || self.selected_step_idx >= flat.len() {
            None
        } else {
            let (stage_idx, step_idx) = flat[self.selected_step_idx];
            assert(stands_at(
                self@.stages,
                self.selected_step_idx as int,
                stage_idx as int,
                step_idx as int,
            ));
            assert(self@.stages[stage_idx as int].steps[step_idx as int]
                == self.stages@[stage_idx as int].steps@[step_idx as int]@);
            Some(&self.stages[stage_idx].steps[step_idx])
        }
    }
}

// ---------------------------------------------------------------------------
// Events
// ---------------------------------------------------------------------------
/// What happens to a step.
pub enum StepChange<T> {
    Start(Elapsed),
    Log(T, bool),
    Complete(bool, Elapsed),
}

impl View for StepChange<String> {
    type V = StepChange<Seq<char>>;

    open spec fn view(&self) -> StepChange<Seq<char>> {
        match self {
            StepChange::Start(now) => StepChange::Start(*now),
            StepChange::Log(text, is_stderr) => StepChange::Log(text@, *is_stderr),
            StepChange::Complete(success, now) => StepChange::Complete(*success, *now),
        }
    }
}

/// The status after an end.
pub open spec fn end_status(success: bool) -> Status {
    if success {
        Status::Succeeded
    } else {
        Status::Failed
    }
}

/// A step after something has happened to the steps called `name`.
pub open spec fn changed_step(step: StepView, name: Seq<char>, change: StepChange<Seq<char>>) -> StepView {
    if step.name != name {
        step
    } else {
        match change {
            StepChange::Start(now) => StepView {
                status: Status::Running,
                start_time: Some(now),
                ..step
            },
            StepChange::Log(text, is_stderr) => StepView {
                logs: step.logs.push((text, is_stderr)),
                ..step
            },
            StepChange::Complete(success, now) => StepView {
                status: end_status(success),
                duration: match step.start_time {
                    Some(start) => Some(now.spec_since(start)),
                    None => step.duration,
                },
                ..step
            },
        }
    }
}

/// A stage after something has happened to the steps called `name`.
pub open spec fn changed_stage(stage: StageView, name: Seq<char>, change: StepChange<Seq<char>>) -> StageView {
    StageView {
        steps: stage.steps.map_values(|s: StepView| changed_step(s, name, change)),
        ..stage
    }
}

/// The stages after something has happened to the steps called `name`: every
/// step of that name changes, in whatever stage.
pub open spec fn changed_stages(
    stages: Seq<StageView>,
    name: Seq<char>,
    change: StepChange<Seq<char>>,
) -> Seq<StageView> {
    stages.map_values(|s: StageView| changed_stage(s, name, change))
}

fn change_step(step: &mut StepState, name: &str, change: &StepChange<String>)
    ensures
        final(step)@ == changed_step(old(step)@, name@, change@),
{
    if !same_text(step.name.as_str(), name) {
        return;
    }
    match change {
        StepChange::Start(now) => {
            step.status = Status::Running;
            step.start_time = Some(*now);
        },
        StepChange::Log(text, is_stderr) => {
            let ghost before = step.logs@;
            step.logs.push((text.clone(), *is_stderr));
            assert(log_lines(step.logs@) =~= log_lines(before).push((text@, *is_stderr)));
        },
        StepChange::Complete(success, now) => {
            step.status = if *success {
                Status::Succeeded
            } else {
                Status::Failed
            };
            if let Some(start) = step.start_time {
                step.duration = Some(now.since(&start));
            }
        },
    }
}

fn change_steps(steps: &mut Vec<StepState>, name: &str, change: &StepChange<String>)
    ensures
        step_views(final(steps)@) == step_views(old(steps)@).map_values(
            |s: StepView| changed_step(s, name@, change@),
        ),
{
    let ghost before = step_views(steps@);
    let n: usize = steps.len();
    let mut j: usize = 0;
    while j < n
        invariant
            j <= n,
            n == steps@.len(),
            n == before.len(),
            forall|k: int| 0 <= k < j ==> (#[trigger] steps@[k])@ == changed_step(before[k], name@, change@),
            forall|k: int| j <= k < n ==> (#[trigger] steps@[k])@ == before[k],
        decreases n - j,
    {
        change_step(&mut steps[j], name, change);
        j += 1;
    }
    assert(step_views(steps@) =~= before.map_values(
        |s: StepView| changed_step(s, name@, change@),
    ));
}

fn change_stages(stages: &mut Vec<StageState>, name: &str, change: &StepChange<String>)
    ensures
        stage_views(final(stages)@) == changed_stages(stage_views(old(stages)@), name@, change@),
{
    let ghost before = stage_views(stages@);
    let n: usize = stages.len();
    let mut i: usize = 0;
    while i < n
        invariant
            i <= n,
            n == stages@.len(),
            n == before.len(),
            forall|k: int|
                0 <= k < i ==> (#[trigger] stages@[k])@ == changed_stage(before[k], name@, change@),
            forall|k: int| i <= k < n ==> (#[trigger] stages@[k])@ == before[k],
        decreases n - i,
    {
        change_steps(&mut stages[i].steps, name, change);
        i += 1;
    }
    assert(stage_views(stages@) =~= changed_stages(before, name@, change@));
}

/// The place of the last step called `name` in a list of steps.
pub open spec fn last_named(steps: Seq<StepView>, name: Seq<char>) -> Option<int>
    decreases steps.len(),
{
    if steps.len() == 0 {
        None
    } else if steps.last().name == name {
        Some(steps.len() - 1)
    } else {
        last_named(steps.drop_last(), name)
    }
}

/// A step as the run begins.
pub open spec fn fresh_step(step: StepModel) -> StepView {
    StepView {
        name: step.name,
        image: step.image,
        status: Status::Pending,
        logs: Seq::empty(),
        start_time: None,
        duration: None,
    }
}

/// A stage as the run begins.
pub open spec fn fresh_stage(stage: StageModel) -> StageView {
    StageView {
        name: stage.name,
        parallel: stage.parallel,
        status: Status::Pending,
        steps: stage.steps.map_values(|s: StepModel| fresh_step(s)),
        start_time: None,
        duration: None,
    }
}

/// The names of stages.
pub open spec fn stage_view_names(stages: Seq<StageView>) -> Seq<Seq<char>> {
    stages.map_values(|s: StageView| s.name)
}

/// The stages after the first one called `name` has begun.
pub open spec fn stage_started(stages: Seq<StageView>, name: Seq<char>, now: Elapsed) -> Seq<
    StageView,
> {
    let at = place_in(stage_view_names(stages), name);
    if at < stages.len() {
        stages.update(
            at,
            StageView { status: Status::Running, start_time: Some(now), ..stages[at] },
        )
    } else {
        stages
    }
}

/// The stages after the first one called `name` has ended.
pub open spec fn stage_completed(
    stages: Seq<StageView>,
    name: Seq<char>,
    success: bool,
    now: Elapsed,
) -> Seq<StageView> {
    let at = place_in(stage_view_names(stages), name);
    if at < stages.len() {
        stages.update(
            at,
            StageView {
                status: end_status(success),
                duration: match stages[at].start_time {
                    Some(start) => Some(now.spec_since(start)),
                    None => stages[at].duration,
                },
                ..stages[at]
            },
        )
    } else {
        stages
    }
}

/// The containers after `id` has been created.
pub open spec fn with_container(containers: Seq<Seq<char>>, id: Seq<char>) -> Seq<Seq<char>> {
    if containers.contains(id) {
        containers
    } else {
        containers.push(id)
    }
}

/// The containers after `id` has been destroyed.
pub open spec fn without_container(containers: Seq<Seq<char>>, id: Seq<char>) -> Seq<Seq<char>> {
    containers.filter(|c: Seq<char>| c != id)
}

fn new_steps(steps: &Vec<Step>) -> (r: Vec<StepState>)
    ensures
        step_views(r@) == step_models(steps@).map_values(|s: StepModel| fresh_step(s)),
{
    let ghost target = step_models(steps@).map_values(|s: StepModel| fresh_step(s));
    let mut r: Vec<StepState> = Vec::new();
    let mut j: usize = 0;
    while j < steps.len()
        invariant
            j <= steps@.len(),
            target == step_models(steps@).map_values(|s: StepModel| fresh_step(s)),
            step_views(r@) == target.take(j as int),
        decreases steps@.len() - j,
    {
        let ghost before = step_views(r@);
        let step = StepState {
            name: steps[j].name.clone(),
            image: steps[j].image.clone(),
            status: Status::Pending,
            logs: Vec::new(),
            start_time: None,
            duration: None,
        };
        assert(step@ =~= target[j as int]);
        r.push(step);
        j += 1;
        assert(step_views(r@) =~= before.push(step@));
        assert(step_views(r@) =~= target.take(j as int));
    }
    assert(step_views(r@) =~= target);
    r
}

fn new_stages(stages: &[Stage]) -> (r: Vec<StageState>)
    ensures
        stage_views(r@) == stage_models(stages@).map_values(|s: StageModel| fresh_stage(s)),
{
    let ghost target = stage_models(stages@).map_values(|s: StageModel| fresh_stage(s));
    let mut r: Vec<StageState> = Vec::new();
    let mut i: usize = 0;
    while i < stages.len()
        invariant
            i <= stages@.len(),
            target == stage_models(stages@).map_values(|s: StageModel| fresh_stage(s)),
            stage_views(r@) == target.take(i as int),
        decreases stages@.len() - i,
    {
        let ghost before = stage_views(r@);
        let stage = StageState {
            name: stages[i].name.clone(),
            parallel: stages[i].parallel,
            status: Status::Pending,
            steps: new_steps(&stages[i].steps),
            start_time: None,
            duration: None,
        };
        assert(stage@ =~= target[i as int]);
        r.push(stage);
        i += 1;
        assert(stage_views(r@) =~= before.push(stage@));
        assert(stage_views(r@) =~= target.take(i as int));
    }
    assert(stage_views(r@) =~= target);
    r
}

fn find_stage(stages: &Vec<StageState>, name: &str) -> (r: usize)
    ensures
        r == place_in(stage_view_names(stage_views(stages@)), name@),
        r <= stages@.len(),
{
    let ghost names = stage_view_names(stage_views(stages@));
    let mut i: usize = 0;
    while i < stages.len()
        invariant
            i <= stages@.len(),
            names == stage_view_names(stage_views(stages@)),
            forall|k: int| 0 <= k < i ==> #[trigger] names[k] != name@,
        decreases stages@.len() - i,
    {
        assert(names[i as int] == stages@[i as int].name@);
        if same_text(stages[i].name.as_str(), name) {
            proof {
                lemma_place_is(names, name@, i as int);
            }
            return i;
        }
        i += 1;
    }
    proof {
        lemma_place_is(names, name@, i as int);
    }
    i
}

/// The place of the last step called `name` among all steps.
fn find_last_step(state: &TuiState, name: &str) -> (r: Option<usize>)
    ensures
        r is Some <==> last_named(all_steps(state@.stages), name@) is Some,
        r matches Some(k) ==> last_named(all_steps(state@.stages), name@) == Some(k as int),
{
    let flat = state.get_flat_steps();
    let ghost steps = all_steps(state@.stages);
    proof {
        lemma_all_steps(state@.stages);
    }
    let mut found: Option<usize> = None;
    let mut k: usize = 0;
    while k < flat.len()
        invariant
            k <= flat@.len(),
            flat@.len() == steps.len(),
            forall|k: int|
                0 <= k < flat@.len() ==> stands_at(
                    state@.stages,
                    k,
                    (#[trigger] flat@[k]).0 as int,
                    flat@[k].1 as int,
                ),
            forall|k: int, i: int, j: int| #[trigger]
                stands_at(state@.stages, k, i, j) ==> steps[k] == state@.stages[i].steps[j],
            found is Some <==> last_named(steps.take(k as int), name@) is Some,
            found matches Some(f) ==> last_named(steps.take(k as int), name@) == Some(f as int),
        decreases flat@.len() - k,
    {
        let (i, j) = flat[k];
        assert(stands_at(state@.stages, k as int, i as int, j as int));
        assert(state@.stages[i as int].steps[j as int] == state.stages@[i as int].steps@[j as int]@);
        assert(steps.take(k + 1).drop_last() =~= steps.take(k as int));
        if same_text(state.stages[i].steps[j].name.as_str(), name) {
            found = Some(k);
        }
        k += 1;
    }
    assert(steps.take(k as int) =~= steps);
    found
}

/// Keeps the dashboard up to date with a run.
#[derive(Debug)]
pub struct TuiMonitor {
    pub state: TuiState,
}

impl TuiMonitor {
    /// A monitor that keeps `state` up to date.
    pub fn new(state: TuiState) -> (r: TuiMonitor)
        ensures
            r.state == state,
    {
        TuiMonitor { state }
    }

    /// The run begins with the given stages.
    pub fn on_pipeline_start(&mut self, stages: &[Stage])
        ensures
            final(self).state@ == (TuiModel {
                stages: stage_models(stages@).map_values(|s: StageModel| fresh_stage(s)),
                ..old(self).state@
            }),
    {
        self.state.stages = new_stages(stages);
    }

    /// A stage begins.
    pub fn on_stage_start(&mut self, stage_name: &str, now: Elapsed)
        ensures
            final(self).state@ == (TuiModel {
                stages: stage_started(old(self).state@.stages, stage_name@, now),
                ..old(self).state@
            }),
    {
        let ghost before = self.state@.stages;
        let at: usize = find_stage(&self.state.stages, stage_name);
        if at < self.state.stages.len() {
            let stage = &mut self.state.stages[at];
            stage.status = Status::Running;
            stage.start_time = Some(now);
        }
        assert(self.state@.stages =~= stage_started(before, stage_name@, now));
    }

    /// A stage is complete.
    pub fn on_stage_complete(&mut self, stage_name: &str, success: bool, now: Elapsed)
        ensures
            final(self).state@ == (TuiModel {
                stages: stage_completed(old(self).state@.stages, stage_name@, success, now),
                ..old(self).state@
            }),
    {
        let ghost before = self.state@.stages;
        let at: usize = find_stage(&self.state.stages, stage_name);
        if at < self.state.stages.len() {
            let stage = &mut self.state.stages[at];
            stage.status = if success {
                Status::Succeeded
            } else {
                Status::Failed
            };
            if let Some(start) = stage.start_time {
                stage.duration = Some(now.since(&start));
            }
        }
        assert(self.state@.stages =~= stage_completed(before, stage_name@, success, now));
    }

    /// A step begins. With automatic focus, the last step of that name is
    /// selected.
    pub fn on_step_start(&mut self, step_name: &str, now: Elapsed)
        ensures
            final(self).state@.stages == changed_stages(
                old(self).state@.stages,
                step_name@,
                StepChange::Start(now),
            ),
            final(self).state@.selected_step_idx == match last_named(
                all_steps(old(self).state@.stages),
                step_name@,
            ) {
                Some(k) if old(self).state@.auto_focus => k,
                _ => old(self).state@.selected_step_idx as int,
            },
            final(self).state@ == (TuiModel {
                stages: final(self).state@.stages,
                selected_step_idx: final(self).state@.selected_step_idx,
                ..old(self).state@
            }),
    {
        let found = find_last_step(&self.state, step_name);
        change_stages(&mut self.state.stages, step_name, &StepChange::Start(now));
        if let Some(k) = found {
            if self.state.auto_focus {
                self.state.selected_step_idx = k;
            }
        }
    }

    /// A step has put out `log_line`.
    pub fn on_step_log(&mut self, step_name: &str, log_line: &str, is_stderr: bool)
        ensures
            final(self).state@ == (TuiModel {
                stages: changed_stages(
                    old(self).state@.stages,
                    step_name@,
                    StepChange::Log(log_line@, is_stderr),
                ),
                ..old(self).state@
            }),
    {
        let change = StepChange::Log(log_line.to_string(), is_stderr);
        change_stages(&mut self.state.stages, step_name, &change);
    }

    /// A step is complete.
    pub fn on_step_complete(&mut self, step_name: &str, success: bool, now: Elapsed)
        ensures
            final(self).state@ == (TuiModel {
                stages: changed_stages(
                    old(self).state@.stages,
                    step_name@,
                    StepChange::Complete(success, now),
                ),
                ..old(self).state@
            }),
    {
        change_stages(&mut self.state.stages, step_name, &StepChange::Complete(success, now));
    }

    /// The run is complete.
    pub fn on_pipeline_complete(&mut self, success: bool, duration: Elapsed)
        ensures
            final(self).state@ == (TuiModel {
                pipeline_success: Some(success),
                pipeline_duration: Some(duration),
                ..old(self).state@
            }),
    {
        self.state.pipeline_success = Some(success);
        self.state.pipeline_duration = Some(duration);
    }

    /// A container has been created.
    pub fn on_container_created(&mut self, container_id: &str)
        ensures
            final(self).state@ == (TuiModel {
                active_containers: with_container(
                    old(self).state@.active_containers,
                    container_id@,
                ),
                ..old(self).state@
            }),
    {
        let ghost before = self.state.active_containers@;
        if !list_has(self.state.active_containers.as_slice(), container_id) {
            self.state.active_containers.push(container_id.to_string());
            assert(texts(self.state.active_containers@) =~= texts(before).push(container_id@));
        }
    }

    /// A container has been destroyed.
    pub fn on_container_destroyed(&mut self, container_id: &str)
        ensures
            final(self).state@ == (TuiModel {
                active_containers: without_container(
                    old(self).state@.active_containers,
                    container_id@,
                ),
                ..old(self).state@
            }),
    {
        let ghost list = texts(self.state.active_containers@);
        let ghost keep = |c: Seq<char>| c != container_id@;
        let mut rest: Vec<String> = Vec::new();
        let mut i: usize = 0;
        proof {
            reveal(Seq::filter);
            assert(texts(rest@) =~= list.take(0).filter(keep));
        }
        while i < self.state.active_containers.len()
            invariant
                i <= self.state.active_containers@.len(),
                list == texts(self.state.active_containers@),
                keep == (|c: Seq<char>| c != container_id@),
                texts(rest@) == list.take(i as int).filter(keep),
            decreases self.state.active_containers@.len() - i,
        {
            let ghost before = rest@;
            proof {
                reveal(Seq::filter);
                assert(list.take(i + 1).drop_last() =~= list.take(i as int));
                assert(list[i as int] == self.state.active_containers@[i as int]@);
            }
            if !same_text(self.state.active_containers[i].as_str(), container_id) {
                rest.push(self.state.active_containers[i].clone());
                assert(texts(rest@) =~= texts(before).push(list[i as int]));
            }
            i += 1;
        }
        assert(list.take(i as int) =~= list);
        self.state.active_containers = rest;
    }
}

// ---------------------------------------------------------------------------
// Keys
// ---------------------------------------------------------------------------
/// A key that was pressed.
#[derive(Debug, Clone, Copy)]
pub enum Key {
    Char(char),
    Tab,
    Up,
    Down,
    PageUp,
    PageDown,
    Other,
}

/// Whether a key ends the dashboard.
pub open spec fn quits(key: Key) -> bool {
    key == Key::Char('q') || key == Key::Char('Q')
}

/// The other panel.
pub open spec fn other_panel(panel: ActivePanel) -> ActivePanel {
    match panel {
        ActivePanel::StagesList => ActivePanel::LogsBlock,
        ActivePanel::LogsBlock => ActivePanel::StagesList,
    }
}

/// The state after another step has been selected.
pub open spec fn with_selection(m: TuiModel, selected: int) -> TuiModel {
    TuiModel {
        auto_focus: false,
        selected_step_idx: selected as usize,
        log_scroll: 0,
        auto_scroll: true,
        ..m
    }
}

/// The state after the logs have been scrolled by hand.
pub open spec fn with_scroll(m: TuiModel, scroll: int) -> TuiModel {
    TuiModel { auto_scroll: false, log_scroll: scroll as usize, ..m }
}

/// The selection before `k` in a list of `n`, going round.
pub open spec fn selection_above(k: int, n: int) -> int {
    if k > 0 {
        k - 1
    } else {
        n - 1
    }
}

/// The selection after `k` in a list of `n`, going round.
pub open spec fn selection_below(k: int, n: int) -> int {
    if k < n - 1 {
        k + 1
    } else {
        0
    }
}

/// The state after a key.
pub open spec fn after_key(m: TuiModel, key: Key) -> TuiModel {
    let n = step_count(m.stages);
    let selected = m.selected_step_idx as int;
    let scroll = m.log_scroll as int;
    if quits(key) {
        TuiModel { should_quit: true, ..m }
    } else if key == Key::Char('a') || key == Key::Char('A') {
        TuiModel {
            auto_scroll: !m.auto_scroll,
            auto_focus: if m.auto_scroll {
                m.auto_focus
            } else {
                true
            },
            ..m
        }
    } else {
        match (key, m.active_panel) {
            (Key::Tab, _) => TuiModel { active_panel: other_panel(m.active_panel), ..m },
            (Key::Up, ActivePanel::StagesList) => if n == 0 {
                m
            } else {
                with_selection(m, selection_above(selected, n))
            },
            (Key::Up, ActivePanel::LogsBlock) => with_scroll(
                m,
                if scroll > 0 {
                    scroll - 1
                } else {
                    0
                },
            ),
            (Key::Down, ActivePanel::StagesList) => if n == 0 {
                m
            } else {
                with_selection(m, selection_below(selected, n))
            },
            (Key::Down, ActivePanel::LogsBlock) => with_scroll(m, scroll + 1),
            (Key::PageUp, ActivePanel::LogsBlock) => with_scroll(
                m,
                if scroll >= 10 {
                    scroll - 10
                } else {
                    0
                },
            ),
            (Key::PageDown, ActivePanel::LogsBlock) => with_scroll(m, scroll + 10),
            _ => m,
        }
    }
}

impl TuiState {
    /// Handles a key. Returns whether the dashboard ends.
    pub fn handle_key(&mut self, key: Key) -> (quit: bool)
        requires
            (key is Down && old(self).active_panel == ActivePanel::LogsBlock) ==> old(
                self,
            ).log_scroll < usize::MAX,
            (key is PageDown && old(self).active_panel == ActivePanel::LogsBlock) ==> old(
                self,
            ).log_scroll <= usize::MAX - 10,
        ensures
            quit == quits(key),
            final(self)@ == after_key(old(self)@, key),
    {
        match key {
            Key::Char(c) => {
                if c == 'q' || c == 'Q' {
                    self.should_quit = true;
                    return true;
                }
                if c == 'a' || c == 'A' {
                    self.auto_scroll = !self.auto_scroll;
                    if self.auto_scroll {
                        self.auto_focus = true;
                    }
                }
            },
            Key::Tab => {
                self.active_panel = match self.active_panel {
                    ActivePanel::StagesList => ActivePanel::LogsBlock,
                    ActivePanel::LogsBlock => ActivePanel::StagesList,
                };
            },
            Key::Up => match self.active_panel {
                ActivePanel::StagesList => {
                    let n: usize = self.get_flat_steps().len();
                    if n > 0 {
                        self.auto_focus = false;
                        if self.selected_step_idx > 0 {
                            self.selected_step_idx -= 1;
                        } else {
                            self.selected_step_idx = n - 1;
                        }
                        self.log_scroll = 0;
                        self.auto_scroll = true;
                    }
                },
                ActivePanel::LogsBlock => {
                    self.auto_scroll = false;
                    if self.log_scroll > 0 {
                        self.log_scroll -= 1;
                    }
                },
            },
            Key::Down => match self.active_panel {
                ActivePanel::StagesList => {
                    let n: usize = self.get_flat_steps().len();
                    if n > 0 {
                        self.auto_focus = false;
                        if self.selected_step_idx < n - 1 {
                            self.selected_step_idx += 1;
                        } else {
                            self.selected_step_idx = 0;
                        }
                        self.log_scroll = 0;
                        self.auto_scroll = true;
                    }
                },
                ActivePanel::LogsBlock => {
                    self.auto_scroll = false;
                    self.log_scroll += 1;
                },
            },
            Key::PageUp => {
                if self.active_panel == ActivePanel::LogsBlock {
                    self.auto_scroll = false;
                    if self.log_scroll >= 10 {
                        self.log_scroll -= 10;
                    } else {
                        self.log_scroll = 0;
                    }
                }
            },
            Key::PageDown => {
                if self.active_panel == ActivePanel::LogsBlock {
                    self.auto_scroll = false;
                    self.log_scroll += 10;
                }
            },
            Key::Other => {},
        }
        false
    }
}

// ---------------------------------------------------------------------------
// Laws
// ---------------------------------------------------------------------------
/// A key keeps the selection on a step.
pub proof fn law_keys_keep_a_step_selected(m: TuiModel, key: Key)
    requires
        m.selected_step_idx < step_count(m.stages) <= usize::MAX,
    ensures
        after_key(m, key).selected_step_idx < step_count(after_key(m, key).stages),
        after_key(m, key).stages == m.stages,
{
}

/// In the list of stages, up and down undo each other, and `Tab` pressed twice
/// changes nothing.
pub proof fn law_opposite_keys(m: TuiModel)
    requires
        m.selected_step_idx < step_count(m.stages) <= usize::MAX,
    ensures
        after_key(after_key(m, Key::Tab), Key::Tab) == m,
        m.active_panel == ActivePanel::StagesList ==> {
            &&& after_key(after_key(m, Key::Up), Key::Down).selected_step_idx
                == m.selected_step_idx
            &&& after_key(after_key(m, Key::Down), Key::Up).selected_step_idx
                == m.selected_step_idx
        },
{
}

/// What happens to steps leaves their number and names alone.
pub proof fn law_events_keep_the_steps(
    stages: Seq<StageView>,
    name: Seq<char>,
    change: StepChange<Seq<char>>,
    i: int,
    j: int,
)
    requires
        0 <= i < stages.len(),
        0 <= j < stages[i].steps.len(),
    ensures
        step_count(changed_stages(stages, name, change)) == step_count(stages),
        changed_stages(stages, name, change).len() == stages.len(),
        changed_stages(stages, name, change)[i].steps.len() == stages[i].steps.len(),
        changed_stages(stages, name, change)[i].steps[j] == changed_step(
            stages[i].steps[j],
            name,
            change,
        ),
        changed_stages(stages, name, change)[i].steps[j].name == stages[i].steps[j].name,
{
    lemma_same_counts(stages, changed_stages(stages, name, change), stages.len() as int);
}

/// Stages with equally many steps have equally many steps before each.
proof fn lemma_same_counts(a: Seq<StageView>, b: Seq<StageView>, i: int)
    requires
        0 <= i <= a.len(),
        a.len() == b.len(),
        forall|k: int| 0 <= k < a.len() ==> (#[trigger] a[k]).steps.len() == b[k].steps.len(),
    ensures
        steps_before(a, i) == steps_before(b, i),
    decreases i,
{
    if i > 0 {
        lemma_same_counts(a, b, i - 1);
        assert(a[i - 1].steps.len() == b[i - 1].steps.len());
    }
}

/// A step that begins can be selected: the place that is focused is one of the
/// list, and the step there has the name.
pub proof fn law_focus_is_on_the_step(stages: Seq<StageView>, name: Seq<char>)
    ensures
        last_named(all_steps(stages), name) matches Some(k) ==> 0 <= k < step_count(stages)
            && all_steps(stages)[k].name == name,
{
    lemma_all_steps(stages);
    lemma_last_named(all_steps(stages), name);
}

proof fn lemma_last_named(steps: Seq<StepView>, name: Seq<char>)
    ensures
        last_named(steps, name) matches Some(k) ==> 0 <= k < steps.len() && steps[k].name == name,
    decreases steps.len(),
{
    if steps.len() > 0 && steps.last().name != name {
        lemma_last_named(steps.drop_last(), name);
    }
}

/// A container is known from its creation to its destruction, is never known
/// twice, and leaves the others alone.
pub proof fn law_containers_are_tracked(containers: Seq<Seq<char>>, id: Seq<char>, other: Seq<char>)
    requires
        containers.no_duplicates(),
    ensures
        with_container(containers, id).no_duplicates(),
        with_container(containers, id).contains(id),
        without_container(containers, id).no_duplicates(),
        !without_container(containers, id).contains(id),
        other != id ==> {
            &&& with_container(containers, id).contains(other) <==> containers.contains(other)
            &&& without_container(containers, id).contains(other) <==> containers.contains(other)
        },
{
    let more = with_container(containers, id);
    let keep = |c: Seq<char>| c != id;
    if !containers.contains(id) {
        assert(more[more.len() - 1] == id);
        assert forall|i: int, j: int| 0 <= i < j < more.len() implies more[i] != more[j] by {
            assert(containers[i] == more[i]);
            assert(containers.contains(containers[i]));
        }
        if containers.contains(other) {
            let k = choose|k: int| 0 <= k < containers.len() && containers[k] == other;
            assert(more[k] == other);
        }
        if other != id && more.contains(other) {
            let k = choose|k: int| 0 <= k < more.len() && more[k] == other;
            assert(containers[k] == other);
        }
    }
    lemma_without_container(containers, id);
}

/// What stays when a container is taken out.
proof fn lemma_without_container(containers: Seq<Seq<char>>, id: Seq<char>)
    requires
        containers.no_duplicates(),
    ensures
        without_container(containers, id).no_duplicates(),
        forall|c: Seq<char>| #[trigger]
            without_container(containers, id).contains(c) <==> containers.contains(c) && c != id,
    decreases containers.len(),
{
    reveal(Seq::filter);
    let rest = without_container(containers, id);
    if containers.len() > 0 {
        let before = containers.drop_last();
        let last = containers.last();
        lemma_without_container(before, id);
        let kept = without_container(before, id);
        assert(containers =~= before.push(last));
        assert(!before.contains(last));
        assert(rest == if last != id {
            kept.push(last)
        } else {
            kept
        });
        assert forall|c: Seq<char>| #[trigger] rest.contains(c) <==> containers.contains(c) && c
            != id by {
            if kept.contains(c) {
                let k = choose|k: int| 0 <= k < kept.len() && kept[k] == c;
                assert(rest[k] == c);
            }
            if before.contains(c) {
                let k = choose|k: int| 0 <= k < before.len() && before[k] == c;
                assert(containers[k] == c);
            }
            if c == last {
                assert(containers[containers.len() - 1] == c);
                if last != id {
                    assert(rest[rest.len() - 1] == c);
                }
            }
            if rest.contains(c) {
                let k = choose|k: int| 0 <= k < rest.len() && rest[k] == c;
                if k < kept.len() {
                    assert(kept[k] == c);
                    assert(kept.contains(c));
                }
            }
            if containers.contains(c) {
                let k = choose|k: int| 0 <= k < containers.len() && containers[k] == c;
                if k < before.len() {
                    assert(before[k] == c);
                    assert(before.contains(c));
                }
            }
        }
        assert forall|i: int, j: int| 0 <= i < j < rest.len() implies rest[i] != rest[j] by {
            assert(kept[i] == rest[i]);
            if j == kept.len() {
                assert(kept.contains(kept[i]));
                assert(before.contains(kept[i]));
            }
        }
    } else {
        assert(rest =~= containers);
    }
}

/// An event of a step changes the steps of that name and no others: a start sets it
/// running and takes the time, a line is appended to its logs, and its end sets the
/// status and the time since the start. Nothing else of the step changes.
pub proof fn law_what_an_event_changes(
    stages: Seq<StageView>,
    name: Seq<char>,
    change: StepChange<Seq<char>>,
    i: int,
    j: int,
)
    requires
        0 <= i < stages.len(),
        0 <= j < stages[i].steps.len(),
    ensures
        ({
            let after = changed_stages(stages, name, change);
            let old = stages[i].steps[j];
            let new = after[i].steps[j];
            &&& after.len() == stages.len()
            &&& after[i].steps.len() == stages[i].steps.len()
            &&& after[i].name == stages[i].name
            &&& after[i].parallel == stages[i].parallel
            &&& after[i].status == stages[i].status
            &&& after[i].start_time == stages[i].start_time
            &&& after[i].duration == stages[i].duration
            &&& old.name != name ==> new == old
            &&& new.name == old.name
            &&& new.image == old.image
            &&& old.name == name ==> match change {
                StepChange::Start(now) => {
                    &&& new.status == Status::Running
                    &&& new.start_time == Some(now)
                    &&& new.logs == old.logs
                    &&& new.duration == old.duration
                },
                StepChange::Log(text, is_stderr) => {
                    &&& new.logs == old.logs.push((text, is_stderr))
                    &&& new.status == old.status
                    &&& new.start_time == old.start_time
                    &&& new.duration == old.duration
                },
                StepChange::Complete(success, now) => {
                    &&& new.status == if success {
                        Status::Succeeded
                    } else {
                        Status::Failed
                    }
                    &&& old.start_time matches Some(start) ==> new.duration == Some(
                        now.spec_since(start),
                    )
                    &&& old.start_time is None ==> new.duration == old.duration
                    &&& new.logs == old.logs
                    &&& new.start_time == old.start_time
                },
            }
        }),
{
}

/// A stage that starts or ends is the first of its name, and the only one that
/// changes: its status and its times do, its steps do not.
pub proof fn law_what_a_stage_event_changes(
    stages: Seq<StageView>,
    at: int,
    i: int,
    success: bool,
    now: Elapsed,
)
    requires
        0 <= at < stages.len(),
        0 <= i < stages.len(),
        forall|k: int| 0 <= k < at ==> (#[trigger] stages[k]).name != stages[at].name,
    ensures
        ({
            let begun = stage_started(stages, stages[at].name, now);
            let ended = stage_completed(stages, stages[at].name, success, now);
            &&& begun.len() == stages.len()
            &&& ended.len() == stages.len()
            &&& i != at ==> begun[i] == stages[i] && ended[i] == stages[i]
            &&& begun[at].status == Status::Running
            &&& begun[at].start_time == Some(now)
            &&& begun[at].steps == stages[at].steps
            &&& begun[at].name == stages[at].name
            &&& begun[at].parallel == stages[at].parallel
            &&& begun[at].duration == stages[at].duration
            &&& ended[at].status == if success {
                Status::Succeeded
            } else {
                Status::Failed
            }
            &&& stages[at].start_time matches Some(start) ==> ended[at].duration == Some(
                now.spec_since(start),
            )
            &&& stages[at].start_time is None ==> ended[at].duration == stages[at].duration
            &&& ended[at].steps == stages[at].steps
            &&& ended[at].name == stages[at].name
            &&& ended[at].parallel == stages[at].parallel
            &&& ended[at].start_time == stages[at].start_time
        }),
{
    let names = stage_view_names(stages);
    assert(names[at] == stages[at].name);
    assert forall|k: int| 0 <= k < at implies #[trigger] names[k] != stages[at].name by {
        assert(stages[k].name != stages[at].name);
    }
    lemma_place_is(names, stages[at].name, at);
}

/// The dashboard starts with every stage and step of the run, in order, none of
/// which has begun.
pub proof fn law_the_dashboard_starts_fresh(stages: Seq<StageModel>, i: int, j: int)
    requires
        0 <= i < stages.len(),
        0 <= j < stages[i].steps.len(),
    ensures
        ({
            let shown = stages.map_values(|s: StageModel| fresh_stage(s));
            let step = shown[i].steps[j];
            &&& shown.len() == stages.len()
            &&& shown[i].steps.len() == stages[i].steps.len()
            &&& shown[i].name == stages[i].name
            &&& shown[i].parallel == stages[i].parallel
            &&& shown[i].status == Status::Pending
            &&& shown[i].start_time is None && shown[i].duration is None
            &&& step.name == stages[i].steps[j].name
            &&& step.image == stages[i].steps[j].image
            &&& step.status == Status::Pending
            &&& step.logs.len() == 0
            &&& step.start_time is None && step.duration is None
        }),
{
}

/// At first nothing is known and the dashboard follows the run.
pub proof fn law_the_first_state(now: Elapsed)
    ensures
        ({
            let m = initial_state(now);
            &&& m.stages.len() == 0
            &&& m.pipeline_start == now
            &&& m.pipeline_duration is None && m.pipeline_success is None
            &&& m.active_containers.len() == 0
            &&& m.auto_scroll && m.auto_focus && !m.should_quit
            &&& m.selected_step_idx == 0 && m.log_scroll == 0
            &&& m.active_panel == ActivePanel::StagesList
            &&& m.error_msg is None
        }),
{
}

/// The step that is focused on is the last of its name, and a step is found if and
/// only if there is one of that name.
pub proof fn law_focus_is_on_the_last_step(steps: Seq<StepView>, name: Seq<char>, k: int)
    requires
        0 <= k < steps.len(),
        steps[k].name == name,
    ensures
        last_named(steps, name) is Some,
        k <= last_named(steps, name)->0 < steps.len(),
        steps[last_named(steps, name)->0].name == name,
    decreases steps.len(),
{
    if steps.last().name != name {
        law_focus_is_on_the_last_step(steps.drop_last(), name, k);
        assert(steps.drop_last()[last_named(steps, name)->0] == steps[last_named(steps, name)->0]);
    }
}

/// Only the letter q ends the dashboard, and no key changes what is known of the
/// run.
pub proof fn law_keys_change_the_view_alone(m: TuiModel, key: Key)
    ensures
        ({
            let after = after_key(m, key);
            &&& after.stages == m.stages
            &&& after.pipeline_start == m.pipeline_start
            &&& after.pipeline_duration == m.pipeline_duration
            &&& after.pipeline_success == m.pipeline_success
            &&& after.active_containers == m.active_containers
            &&& after.error_msg == m.error_msg
            &&& quits(key) <==> key == Key::Char('q') || key == Key::Char('Q')
            &&& after.should_quit <==> m.should_quit || key == Key::Char('q') || key == Key::Char(
                'Q',
            )
            &&& quits(key) || key is Other ==> after == (TuiModel {
                should_quit: after.should_quit,
                ..m
            })
            &&& !(key is Tab) ==> after.active_panel == m.active_panel
            &&& key is Tab ==> after.active_panel != m.active_panel
        }),
{
}

/// The arrows in the list of stages go from step to step and round at the ends, and
/// from then on the dashboard stays with the step, at the end of its logs.
pub proof fn law_arrows_in_the_list(m: TuiModel)
    requires
        m.active_panel == ActivePanel::StagesList,
        0 <= step_count(m.stages) <= usize::MAX,
    ensures
        ({
            let n = step_count(m.stages);
            let k = m.selected_step_idx as int;
            let up = after_key(m, Key::Up);
            let down = after_key(m, Key::Down);
            &&& n == 0 ==> up == m && down == m
            &&& n > 0 ==> {
                &&& up.selected_step_idx == if k == 0 {
                    n - 1
                } else {
                    k - 1
                }
                &&& down.selected_step_idx == if k >= n - 1 {
                    0
                } else {
                    k + 1
                }
                &&& !up.auto_focus && !down.auto_focus
                &&& up.auto_scroll && down.auto_scroll
                &&& up.log_scroll == 0 && down.log_scroll == 0
            }
            &&& after_key(m, Key::PageUp) == m
            &&& after_key(m, Key::PageDown) == m
        }),
{
}

/// In the logs the arrows go line by line and the page keys ten lines at a time,
/// never above the first line; from then on the logs stay where they are. The
/// selection stays too.
pub proof fn law_keys_in_the_logs(m: TuiModel)
    requires
        m.active_panel == ActivePanel::LogsBlock,
        m.log_scroll <= usize::MAX - 10,
    ensures
        ({
            let at = m.log_scroll as int;
            let up = after_key(m, Key::Up);
            let down = after_key(m, Key::Down);
            let page_up = after_key(m, Key::PageUp);
            let page_down = after_key(m, Key::PageDown);
            &&& up.log_scroll == if at >= 1 {
                at - 1
            } else {
                0
            }
            &&& down.log_scroll == at + 1
            &&& page_up.log_scroll == if at >= 10 {
                at - 10
            } else {
                0
            }
            &&& page_down.log_scroll == at + 10
            &&& !up.auto_scroll && !down.auto_scroll && !page_up.auto_scroll
                && !page_down.auto_scroll
            &&& up.selected_step_idx == m.selected_step_idx && down.selected_step_idx
                == m.selected_step_idx
            &&& page_up.selected_step_idx == m.selected_step_idx && page_down.selected_step_idx
                == m.selected_step_idx
            &&& up.auto_focus == m.auto_focus && down.auto_focus == m.auto_focus
        }),
{
}

/// The letter a turns automatic scrolling on and off; turning it on also makes the
/// dashboard follow the run again.
pub proof fn law_automatic_scrolling(m: TuiModel)
    ensures
        ({
            let after = after_key(m, Key::Char('a'));
            &&& after == after_key(m, Key::Char('A'))
            &&& after.auto_scroll == !m.auto_scroll
            &&& after.auto_scroll ==> after.auto_focus
            &&& !after.auto_scroll ==> after.auto_focus == m.auto_focus
            &&& after.selected_step_idx == m.selected_step_idx
            &&& after.log_scroll == m.log_scroll
        }),
{
}

/// What is known of the dashboard is all of it: every stage with every step, and
/// every field.
pub proof fn law_model_of_the_dashboard(state: TuiState, i: int, j: int, k: int)
    requires
        0 <= i < state.stages@.len(),
        0 <= j < state.stages@[i].steps@.len(),
    ensures
        ({
            let m = state@;
            let stage = state.stages@[i];
            let step = stage.steps@[j];
            &&& m.stages.len() == state.stages@.len()
            &&& m.stages[i].name == stage.name@
            &&& m.stages[i].parallel == stage.parallel
            &&& m.stages[i].status == stage.status
            &&& m.stages[i].start_time == stage.start_time
            &&& m.stages[i].duration == stage.duration
            &&& m.stages[i].steps.len() == stage.steps@.len()
            &&& m.stages[i].steps[j].name == step.name@
            &&& m.stages[i].steps[j].image == step.image@
            &&& m.stages[i].steps[j].status == step.status
            &&& m.stages[i].steps[j].start_time == step.start_time
            &&& m.stages[i].steps[j].duration == step.duration
            &&& m.stages[i].steps[j].logs.len() == step.logs@.len()
            &&& 0 <= k < step.logs@.len() ==> m.stages[i].steps[j].logs[k] == (
                step.logs@[k].0@,
                step.logs@[k].1,
            )
            &&& m.active_containers.len() == state.active_containers@.len()
            &&& 0 <= k < state.active_containers@.len() ==> m.active_containers[k]
                == state.active_containers@[k]@
        }),
        state@.pipeline_start == state.pipeline_start,
        state@.pipeline_duration == state.pipeline_duration,
        state@.pipeline_success == state.pipeline_success,
        state@.selected_step_idx == state.selected_step_idx,
        state@.active_panel == state.active_panel,
        state@.log_scroll == state.log_scroll,
        state@.auto_scroll == state.auto_scroll,
        state@.auto_focus == state.auto_focus,
        state@.should_quit == state.should_quit,
        state.error_msg matches Some(msg) ==> state@.error_msg == Some(msg@),
        state.error_msg is None ==> state@.error_msg is None,
{
}

/// What is known of a change is all of it.
pub proof fn law_model_of_a_change(change: StepChange<String>)
    ensures
        match change {
            StepChange::Start(now) => change@ == StepChange::<Seq<char>>::Start(now),
            StepChange::Log(text, is_stderr) => change@ == StepChange::Log(text@, is_stderr),
            StepChange::Complete(success, now) => change@ == StepChange::<Seq<char>>::Complete(
                success,
                now,
            ),
        },
{
}

} // verus!
