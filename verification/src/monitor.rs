//! Progress on a terminal: what is printed at each event of a run.

use crate::clock::Elapsed;
use crate::config::{
    copy_stages, stage_models, step_models, Stage, StageModel, Step, StepModel,
};
use crate::logger::{logs_heading, print_logs_heading};
use crate::numbers::{count_text, decimal};
use crate::paint::{
    chunk, lemma_prints_push, out_line, out_text_line, print_chunk, print_line, print_text, prints,
    span, spans, Paint, Print, PrintModel,
};
use crate::scan::{concatenated, lemma_concatenated_at, lemma_concatenated_step};
use crate::schedule::stage_names;
use crate::text::{lemma_place_in, lemma_place_is, place_in, same_text};
use vstd::prelude::*;
use vstd::string::*;

verus! {

// ---------------------------------------------------------------------------
// Held-back logs
// ---------------------------------------------------------------------------
/// A piece of output: a text, and whether it is an error.
pub type LogLine = (Seq<char>, bool);

/// What a list of pieces holds.
pub open spec fn log_lines(list: Seq<(String, bool)>) -> Seq<LogLine> {
    list.map_values(|l: (String, bool)| (l.0@, l.1))
}

/// Whether some entry has the name `name`.
spec fn has_name(entries: Seq<(String, Vec<(String, bool)>)>, name: Seq<char>) -> bool {
    exists|i: int| 0 <= i < entries.len() && #[trigger] entries[i].0@ == name
}

/// The pieces under the name `name`.
spec fn lines_under(entries: Seq<(String, Vec<(String, bool)>)>, name: Seq<char>) -> Seq<LogLine> {
    log_lines(
        entries[choose|i: int| 0 <= i < entries.len() && #[trigger] entries[i].0@ == name].1@,
    )
}

/// Output that is held back, under the name of the step that made it.
pub struct HeldLogs {
    entries: Vec<(String, Vec<(String, bool)>)>,
}

impl View for HeldLogs {
    type V = Map<Seq<char>, Seq<LogLine>>;

    closed spec fn view(&self) -> Map<Seq<char>, Seq<LogLine>> {
        Map::new(
            |name: Seq<char>| has_name(self.entries@, name),
            |name: Seq<char>| lines_under(self.entries@, name),
        )
    }
}

/// The logs with one piece more for the step `step`.
pub open spec fn with_line(
    logs: Map<Seq<char>, Seq<LogLine>>,
    step: Seq<char>,
    line: LogLine,
) -> Map<Seq<char>, Seq<LogLine>> {
    logs.insert(
        step,
        if logs.dom().contains(step) {
            logs[step].push(line)
        } else {
            seq![line]
        },
    )
}

impl HeldLogs {
    #[verifier::type_invariant]
    spec fn names_are_distinct(self) -> bool {
        forall|i: int, j: int|
            0 <= i < j < self.entries@.len() ==> #[trigger] self.entries@[i].0@
                != #[trigger] self.entries@[j].0@
    }

    /// No output.
    pub fn new() -> (r: HeldLogs)
        ensures
            r@ == Map::<Seq<char>, Seq<LogLine>>::empty(),
    {
        let r = HeldLogs { entries: Vec::new() };
        assert(r@ =~= Map::empty());
        r
    }

    /// The place of the entry `name`, or the number of entries.
    fn find(&self, name: &str) -> (r: usize)
        ensures
            r <= self.entries@.len(),
            r < self.entries@.len() ==> self.entries@[r as int].0@ == name@,
            r < self.entries@.len() <==> has_name(self.entries@, name@),
    {
        let mut i: usize = 0;
        while i < self.entries.len()
            invariant
                i <= self.entries@.len(),
                forall|k: int| 0 <= k < i ==> #[trigger] self.entries@[k].0@ != name@,
            decreases self.entries@.len() - i,
        {
            if same_text(self.entries[i].0.as_str(), name) {
                return i;
            }
            i += 1;
        }
        i
    }

    /// Adds a piece of output of the step `step`.
    pub fn push(&mut self, step: &str, line: String, is_stderr: bool)
        ensures
            final(self)@ == with_line(old(self)@, step@, (line@, is_stderr)),
    {
        let at = self.find(step);
        proof {
            use_type_invariant(&*self);
        }
        let ghost old_entries = self.entries@;
        let ghost old_map = self@;
        let mut entries: Vec<(String, Vec<(String, bool)>)> = Vec::new();
        std::mem::swap(&mut entries, &mut self.entries);
        if at < entries.len() {
            let (name, mut lines) = entries.remove(at);
            let ghost old_lines = lines@;
            lines.push((line, is_stderr));
            assert(log_lines(lines@) =~= log_lines(old_lines).push((line@, is_stderr)));
            entries.insert(at, (name, lines));
            assert(entries@ =~= old_entries.update(at as int, (name, lines)));
            assert forall|i: int, j: int| 0 <= i < j < entries@.len() implies #[trigger] entries@[i].0@
                != #[trigger] entries@[j].0@ by {
                assert(entries@[i].0@ == old_entries[i].0@);
                assert(entries@[j].0@ == old_entries[j].0@);
            }
        } else {
            let mut lines: Vec<(String, bool)> = Vec::new();
            lines.push((line, is_stderr));
            assert(log_lines(lines@) =~= seq![(line@, is_stderr)]);
            entries.push((step.to_string(), lines));
            assert forall|i: int, j: int| 0 <= i < j < entries@.len() implies #[trigger] entries@[i].0@
                != #[trigger] entries@[j].0@ by {
                assert(entries@[i] == old_entries[i]);
            }
        }
        let ghost now = entries@;
        self.entries = entries;
        proof {
            let target = with_line(old_map, step@, (line@, is_stderr));
            assert(now[at as int].0@ == step@);
            assert forall|n: Seq<char>| has_name(now, n) <==> (has_name(old_entries, n) || n
                == step@) by {
                if has_name(old_entries, n) {
                    let i = choose|i: int|
                        0 <= i < old_entries.len() && #[trigger] old_entries[i].0@ == n;
                    assert(now[i].0@ == n);
                }
                if has_name(now, n) && n != step@ {
                    let i = choose|i: int| 0 <= i < now.len() && #[trigger] now[i].0@ == n;
                    assert(old_entries[i].0@ == n);
                }
            }
            assert forall|n: Seq<char>| has_name(now, n) implies lines_under(now, n)
                == #[trigger] target[n] by {
                let i = choose|i: int| 0 <= i < now.len() && #[trigger] now[i].0@ == n;
                if n == step@ {
                    assert(i == at);
                    if has_name(old_entries, n) {
                        let k = choose|k: int|
                            0 <= k < old_entries.len() && #[trigger] old_entries[k].0@ == n;
                        assert(k == at);
                    }
                } else {
                    assert(old_entries[i].0@ == n);
                    let k = choose|k: int|
                        0 <= k < old_entries.len() && #[trigger] old_entries[k].0@ == n;
                    assert(k == i);
                }
            }
            assert(self@ =~= target);
        }
    }

    /// Takes out the output of the step `step`, if there is any.
    pub fn remove(&mut self, step: &str) -> (r: Option<Vec<(String, bool)>>)
        ensures
            r is Some <==> old(self)@.dom().contains(step@),
            r matches Some(lines) ==> log_lines(lines@) == old(self)@[step@],
            final(self)@ == old(self)@.remove(step@),
    {
        let at = self.find(step);
        proof {
            use_type_invariant(&*self);
        }
        let ghost old_entries = self.entries@;
        let ghost old_map = self@;
        if at >= self.entries.len() {
            assert(self@ =~= old_map.remove(step@));
            return None;
        }
        let mut entries: Vec<(String, Vec<(String, bool)>)> = Vec::new();
        std::mem::swap(&mut entries, &mut self.entries);
        let (name, lines) = entries.remove(at);
        let ghost now = entries@;
        assert(now =~= old_entries.remove(at as int));
        assert forall|i: int, j: int| 0 <= i < j < now.len() implies #[trigger] now[i].0@
            != #[trigger] now[j].0@ by {
            let a = if i < at {
                i
            } else {
                i + 1
            };
            let b = if j < at {
                j
            } else {
                j + 1
            };
            assert(now[i] == old_entries[a] && now[j] == old_entries[b]);
        }
        self.entries = entries;
        proof {
            let target = old_map.remove(step@);
            let k = choose|k: int|
                0 <= k < old_entries.len() && #[trigger] old_entries[k].0@ == step@;
            assert(k == at);
            assert forall|n: Seq<char>| has_name(now, n) <==> (has_name(old_entries, n) && n
                != step@) by {
                if has_name(now, n) {
                    let i = choose|i: int| 0 <= i < now.len() && #[trigger] now[i].0@ == n;
                    let a = if i < at {
                        i
                    } else {
                        i + 1
                    };
                    assert(old_entries[a].0@ == n);
                    assert(a != at);
                }
                if has_name(old_entries, n) && n != step@ {
                    let i = choose|i: int|
                        0 <= i < old_entries.len() && #[trigger] old_entries[i].0@ == n;
                    let a = if i < at {
                        i
                    } else {
                        i - 1
                    };
                    assert(now[a].0@ == n);
                }
            }
            assert forall|n: Seq<char>| has_name(now, n) implies lines_under(now, n)
                == #[trigger] target[n] by {
                let i = choose|i: int| 0 <= i < now.len() && #[trigger] now[i].0@ == n;
                let a = if i < at {
                    i
                } else {
                    i + 1
                };
                assert(old_entries[a].0@ == n);
                let j = choose|j: int|
                    0 <= j < old_entries.len() && #[trigger] old_entries[j].0@ == n;
                assert(j == a);
            }
            assert(self@ =~= target);
        }
        Some(lines)
    }
}

// ---------------------------------------------------------------------------
// Events
// ---------------------------------------------------------------------------
/// Prints the progress of a run. The output of a sequential stage appears as it
/// arrives; that of a parallel stage is held back until the stage is complete.
pub struct StdoutMonitor {
    stages_order: Vec<Stage>,
    current_stage_parallel: bool,
    parallel_logs: HeldLogs,
}

/// What a `StdoutMonitor` holds.
pub struct MonitorModel {
    /// The stages of the run in the order in which they run
    pub stages: Seq<StageModel>,
    /// Whether the current stage is parallel
    pub parallel: bool,
    /// Output that is held back
    pub held: Map<Seq<char>, Seq<LogLine>>,
}

impl View for StdoutMonitor {
    type V = MonitorModel;

    closed spec fn view(&self) -> MonitorModel {
        MonitorModel {
            stages: stage_models(self.stages_order@),
            parallel: self.current_stage_parallel,
            held: self.parallel_logs@,
        }
    }
}

/// The line that announces a stage: its place among the stages of the run, or
/// the first place for a stage that is not among them.
pub open spec fn stage_line(stages: Seq<StageModel>, name: Seq<char>, parallel: bool) -> PrintModel {
    let at = place_in(stage_names(stages), name);
    let number = if at < stages.len() {
        at + 1
    } else {
        1
    };
    out_line(
        seq![
            ("\n"@, Paint::Plain),
            (">>>"@, Paint::CyanBold),
            (
                " Stage "@ + decimal(number as nat) + "/"@ + decimal(stages.len()) + ": "@,
                Paint::Plain,
            ),
            (name, Paint::CyanBold),
            (
                if parallel {
                    " [parallel]"@
                } else {
                    ""@
                },
                Paint::Yellow,
            ),
        ],
    )
}

/// What is printed of a piece of output.
pub open spec fn log_print(line: LogLine) -> PrintModel {
    if line.1 {
        chunk(line.0, Paint::Red, true)
    } else {
        chunk(line.0, Paint::Plain, false)
    }
}

/// The names of steps.
pub open spec fn step_names(steps: Seq<StepModel>) -> Seq<Seq<char>> {
    steps.map_values(|s: StepModel| s.name)
}

/// What is printed of the output that is held back for step number `i`: nothing
/// if there is none, or if an earlier step of the same name has had it.
pub open spec fn released_part(
    steps: Seq<StepModel>,
    held: Map<Seq<char>, Seq<LogLine>>,
    i: int,
) -> Seq<PrintModel> {
    let name = steps[i].name;
    if held.dom().contains(name) && place_in(step_names(steps), name) == i {
        seq![logs_heading(name)] + held[name].map_values(|l: LogLine| log_print(l))
    } else {
        seq![]
    }
}

/// What is printed of the output that is held back, step by step in the order
/// in which the steps are defined.
pub open spec fn released(steps: Seq<StepModel>, held: Map<Seq<char>, Seq<LogLine>>) -> Seq<
    PrintModel,
> {
    concatenated(Seq::new(steps.len(), |i: int| released_part(steps, held, i)))
}

/// What is printed of a stage's held back output when it completes.
pub open spec fn completion_prints(m: MonitorModel, stage_name: Seq<char>) -> Seq<PrintModel> {
    let at = place_in(stage_names(m.stages), stage_name);
    if m.parallel && at < m.stages.len() {
        released(m.stages[at].steps, m.held)
    } else {
        seq![]
    }
}

/// What is held back after a stage has completed.
pub open spec fn held_after_completion(m: MonitorModel, stage_name: Seq<char>) -> Map<
    Seq<char>,
    Seq<LogLine>,
> {
    let at = place_in(stage_names(m.stages), stage_name);
    if m.parallel && at < m.stages.len() {
        m.held.remove_keys(step_names(m.stages[at].steps).to_set())
    } else {
        m.held
    }
}

/// The lines that close a run.
pub open spec fn pipeline_lines(success: bool, duration: Elapsed) -> Seq<PrintModel> {
    seq![
        out_line(
            if success {
                seq![
                    ("\n"@, Paint::Plain),
                    ("[OK]"@, Paint::GreenBold),
                    (" "@, Paint::Plain),
                    ("Pipeline completed successfully!"@, Paint::GreenBold),
                ]
            } else {
                seq![
                    ("\n"@, Paint::Plain),
                    ("[FAIL]"@, Paint::RedBold),
                    (" "@, Paint::Plain),
                    ("Pipeline execution failed."@, Paint::RedBold),
                ]
            },
        ),
        out_text_line("    Total duration: "@ + duration.text(2) + "s"@, Paint::Plain),
    ]
}

/// What is printed of a piece of output.
fn line_print(text: String, is_stderr: bool) -> (r: Print)
    ensures
        r@ == log_print((text@, is_stderr)),
{
    if is_stderr {
        print_chunk(text, Paint::Red, true)
    } else {
        print_chunk(text, Paint::Plain, false)
    }
}

/// The place of the first stage called `name`, or the number of stages.
fn find_stage(stages: &Vec<Stage>, name: &str) -> (r: usize)
    ensures
        r == place_in(stage_names(stage_models(stages@)), name@),
        r <= stages@.len(),
{
    let ghost names = stage_names(stage_models(stages@));
    let mut i: usize = 0;
    while i < stages.len()
        invariant
            i <= stages@.len(),
            names == stage_names(stage_models(stages@)),
            forall|k: int| 0 <= k < i ==> #[trigger] names[k] != name@,
        decreases stages@.len() - i,
    {
        assert(names[i as int] == stages@[i as int].name@);
        if same_text(stages[i].name.as_str(), name) {
            proof {
                lemma_place_is(names, name@, i as int);
            }
            return i;
        }
        i += 1;
    }
    proof {
        lemma_place_is(names, name@, i as int);
    }
    i
}

/// Appends what is printed of the output of one step.
fn print_held(step_name: &str, lines: Vec<(String, bool)>, out: &mut Vec<Print>)
    ensures
        prints(final(out)@) == prints(old(out)@) + (seq![logs_heading(step_name@)] + log_lines(
            lines@,
        ).map_values(|l: LogLine| log_print(l))),
{
    let ghost body = log_lines(lines@).map_values(|l: LogLine| log_print(l));
    let ghost start = prints(out@).push(logs_heading(step_name@));
    let heading = print_logs_heading(step_name);
    proof {
        lemma_prints_push(out@, heading);
    }
    out.push(heading);
    let mut i: usize = 0;
    assert(start + body.take(0) =~= start);
    while i < lines.len()
        invariant
            i <= lines@.len(),
            body == log_lines(lines@).map_values(|l: LogLine| log_print(l)),
            prints(out@) == start + body.take(i as int),
        decreases lines@.len() - i,
    {
        let p = line_print(lines[i].0.clone(), lines[i].1);
        proof {
            assert(log_lines(lines@)[i as int] == (lines@[i as int].0@, lines@[i as int].1));
            assert(p@ == body[i as int]);
            lemma_prints_push(out@, p);
            assert(start + body.take(i + 1) =~= (start + body.take(i as int)).push(p@));
        }
        out.push(p);
        i += 1;
    }
    assert(body.take(i as int) =~= body);
    assert(start + body =~= prints(old(out)@) + (seq![logs_heading(step_name@)] + body));
}

/// Takes out the output of the given steps and prints it in their order.
fn release(steps: &Vec<Step>, held: &mut HeldLogs) -> (r: Vec<Print>)
    ensures
        prints(r@) == released(step_models(steps@), old(held)@),
        final(held)@ == old(held)@.remove_keys(step_names(step_models(steps@)).to_set()),
{
    let ghost models = step_models(steps@);
    let ghost names = step_names(models);
    let ghost before = held@;
    let ghost parts = Seq::new(models.len(), |i: int| released_part(models, before, i));
    let mut r: Vec<Print> = Vec::new();
    let mut i: usize = 0;
    assert(prints(r@) =~= concatenated(parts.take(0)));
    assert(held@ =~= before.remove_keys(names.take(0).to_set()));
    while i < steps.len()
        invariant
            i <= steps@.len(),
            models == step_models(steps@),
            names == step_names(models),
            parts == Seq::new(models.len(), |i: int| released_part(models, before, i)),
            prints(r@) == concatenated(parts.take(i as int)),
            held@ == before.remove_keys(names.take(i as int).to_set()),
        decreases steps@.len() - i,
    {
        let ghost name = steps@[i as int].name@;
        let ghost so_far = prints(r@);
        assert(models[i as int].name == name);
        assert(names[i as int] == name);
        proof {
            lemma_concatenated_step(parts, i as int);
            lemma_place_in(names, name);
            assert(names.take(i as int).to_set().contains(name) <==> place_in(names, name) < i) by {
                let at = place_in(names, name);
                if at < i {
                    assert(names.take(i as int)[at] == name);
                }
                if names.take(i as int).contains(name) {
                    let k = choose|k: int|
                        0 <= k < i && #[trigger] names.take(i as int)[k] == name;
                    assert(names[k] == name);
                }
            }
        }
        let ghost now = held@;
        match held.remove(steps[i].name.as_str()) {
            Some(lines) => {
                print_held(steps[i].name.as_str(), lines, &mut r);
            },
            None => {
                assert(so_far + parts[i as int] =~= so_far);
            },
        }
        i += 1;
        proof {
            assert(names.take(i as int).to_set() =~= names.take(i - 1).to_set().insert(name)) by {
                assert(names.take(i as int) =~= names.take(i - 1).push(name));
                assert forall|n: Seq<char>|
                    names.take(i as int).contains(n) <==> (names.take(i - 1).contains(n) || n
                        == name) by {
                    if names.take(i - 1).contains(n) {
                        let k = choose|k: int|
                            0 <= k < i - 1 && #[trigger] names.take(i - 1)[k] == n;
                        assert(names.take(i as int)[k] == n);
                    }
                    if n == name {
                        assert(names.take(i as int)[i - 1] == n);
                    }
                    if names.take(i as int).contains(n) && n != name {
                        let k = choose|k: int|
                            0 <= k < i && #[trigger] names.take(i as int)[k] == n;
                        assert(names.take(i - 1)[k] == n);
                    }
                }
            }
            assert(held@ =~= before.remove_keys(names.take(i as int).to_set()));
        }
    }
    assert(parts.take(i as int) =~= parts);
    assert(names.take(i as int) =~= names);
    r
}

impl StdoutMonitor {
    /// A monitor before any event.
    pub fn new() -> (r: StdoutMonitor)
        ensures
            r@.stages == Seq::<StageModel>::empty(),
            !r@.parallel,
            r@.held == Map::<Seq<char>, Seq<LogLine>>::empty(),
    {
        let r = StdoutMonitor {
            stages_order: Vec::new(),
            current_stage_parallel: false,
            parallel_logs: HeldLogs::new(),
        };
        assert(r@.stages =~= Seq::<StageModel>::empty());
        r
    }

    /// The run begins with the given stages.
    pub fn on_pipeline_start(&mut self, stages: &[Stage])
        ensures
            final(self)@ == (MonitorModel { stages: stage_models(stages@), ..old(self)@ }),
    {
        self.stages_order = copy_stages(stages);
    }

    /// A stage begins.
    pub fn on_stage_start(&mut self, stage_name: &str, parallel: bool) -> (r: Print)
        ensures
            r@ == stage_line(old(self)@.stages, stage_name@, parallel),
            final(self)@ == (MonitorModel { parallel, ..old(self)@ }),
    {
        self.current_stage_parallel = parallel;
        let at: usize = find_stage(&self.stages_order, stage_name);
        let total: usize = self.stages_order.len();
        let number: usize = if at < total {
            at + 1
        } else {
            1
        };
        let tag = if parallel {
            " [parallel]"
        } else {
            ""
        };
        let list = vec![
            span("\n".to_string(), Paint::Plain),
            span(">>>".to_string(), Paint::CyanBold),
            span(
                " Stage ".to_string().concat(count_text(number).as_str()).concat("/").concat(
                    count_text(total).as_str(),
                ).concat(": "),
                Paint::Plain,
            ),
            span(stage_name.to_string(), Paint::CyanBold),
            span(tag.to_string(), Paint::Yellow),
        ];
        assert(spans(list@) =~= stage_line(old(self)@.stages, stage_name@, parallel).spans);
        print_line(list)
    }

    /// A stage is complete: the output of its steps that was held back appears.
    pub fn on_stage_complete(&mut self, stage_name: &str) -> (r: Vec<Print>)
        ensures
            prints(r@) == completion_prints(old(self)@, stage_name@),
            final(self)@ == (MonitorModel {
                held: held_after_completion(old(self)@, stage_name@),
                ..old(self)@
            }),
    {
        if self.current_stage_parallel {
            let at: usize = find_stage(&self.stages_order, stage_name);
            if at < self.stages_order.len() {
                assert(self@.stages[at as int].steps == step_models(
                    self.stages_order@[at as int].steps@,
                ));
                return release(&self.stages_order[at].steps, &mut self.parallel_logs);
            }
        }
        let r: Vec<Print> = Vec::new();
        assert(prints(r@) =~= seq![]);
        r
    }

    /// A step begins.
    pub fn on_step_start(&self, step_name: &str) -> (r: Option<Print>)
        ensures
            r is Some <==> !self@.parallel,
            r matches Some(p) ==> p@ == out_text_line(
                "Running step: "@ + step_name@,
                Paint::YellowBold,
            ),
    {
        if self.current_stage_parallel {
            None
        } else {
            Some(print_text("Running step: ".to_string().concat(step_name), Paint::YellowBold))
        }
    }

    /// A step has put out `log_line`.
    pub fn on_step_log(&mut self, step_name: &str, log_line: &str, is_stderr: bool) -> (r: Option<
        Print,
    >)
        ensures
            r is Some <==> !old(self)@.parallel,
            r matches Some(p) ==> p@ == log_print((log_line@, is_stderr)),
            final(self)@ == (MonitorModel {
                held: if old(self)@.parallel {
                    with_line(old(self)@.held, step_name@, (log_line@, is_stderr))
                } else {
                    old(self)@.held
                },
                ..old(self)@
            }),
    {
        if self.current_stage_parallel {
            self.parallel_logs.push(step_name, log_line.to_string(), is_stderr);
            None
        } else {
            Some(line_print(log_line.to_string(), is_stderr))
        }
    }

    /// A step is complete.
    pub fn on_step_complete(&self, step_name: &str, success: bool) -> (r: Option<Print>)
        ensures
            r is Some <==> !self@.parallel,
            r matches Some(p) ==> p@ == out_line(
                seq![
                    if success {
                        ("[OK]"@, Paint::Green)
                    } else {
                        ("[FAIL]"@, Paint::RedBold)
                    },
                    (" Step: "@ + step_name@, Paint::Plain),
                ],
            ),
    {
        if self.current_stage_parallel {
            return None;
        }
        let tag = if success {
            span("[OK]".to_string(), Paint::Green)
        } else {
            span("[FAIL]".to_string(), Paint::RedBold)
        };
        let list = vec![tag, span(" Step: ".to_string().concat(step_name), Paint::Plain)];
        assert(spans(list@) =~= seq![tag@, (" Step: "@ + step_name@, Paint::Plain)]);
        Some(print_line(list))
    }

    /// The run is complete.
    pub fn on_pipeline_complete(&self, success: bool, duration: Elapsed) -> (r: Vec<Print>)
        ensures
            prints(r@) == pipeline_lines(success, duration),
    {
        let list = if success {
            vec![
                span("\n".to_string(), Paint::Plain),
                span("[OK]".to_string(), Paint::GreenBold),
                span(" ".to_string(), Paint::Plain),
                span("Pipeline completed successfully!".to_string(), Paint::GreenBold),
            ]
        } else {
            vec![
                span("\n".to_string(), Paint::Plain),
                span("[FAIL]".to_string(), Paint::RedBold),
                span(" ".to_string(), Paint::Plain),
                span("Pipeline execution failed.".to_string(), Paint::RedBold),
            ]
        };
        assert(spans(list@) =~= pipeline_lines(success, duration)[0].spans);
        let total = "    Total duration: ".to_string().concat(duration.seconds(2).as_str()).concat(
            "s",
        );
        let r: Vec<Print> = vec![print_line(list), print_text(total, Paint::Plain)];
        assert(prints(r@) =~= pipeline_lines(success, duration));
        r
    }
}

// ---------------------------------------------------------------------------
// Laws
// ---------------------------------------------------------------------------
/// The output of the steps of a parallel stage appears in the order in which
/// the steps are defined: the logs of an earlier step stand, whole, before
/// those of a later one.
pub proof fn law_logs_in_definition_order(
    steps: Seq<StepModel>,
    held: Map<Seq<char>, Seq<LogLine>>,
    i: int,
    j: int,
) -> (at: (int, int))
    requires
        0 <= i < j < steps.len(),
        step_names(steps).no_duplicates(),
        held.dom().contains(steps[i].name),
        held.dom().contains(steps[j].name),
    ensures
        0 <= at.0,
        at.0 + 1 + held[steps[i].name].len() <= at.1,
        at.1 + 1 + held[steps[j].name].len() <= released(steps, held).len(),
        released(steps, held)[at.0] == logs_heading(steps[i].name),
        forall|k: int|
            0 <= k < held[steps[i].name].len() ==> released(steps, held)[at.0 + 1 + k] == log_print(
                #[trigger] held[steps[i].name][k],
            ),
        released(steps, held)[at.1] == logs_heading(steps[j].name),
        forall|k: int|
            0 <= k < held[steps[j].name].len() ==> released(steps, held)[at.1 + 1 + k] == log_print(
                #[trigger] held[steps[j].name][k],
            ),
{
    let parts = Seq::new(steps.len(), |i: int| released_part(steps, held, i));
    let names = step_names(steps);
    assert(names[i] == steps[i].name && names[j] == steps[j].name);
    assert forall|k: int| 0 <= k < i implies #[trigger] names[k] != names[i] by {}
    assert forall|k: int| 0 <= k < j implies #[trigger] names[k] != names[j] by {}
    lemma_place_is(names, names[i], i);
    lemma_place_is(names, names[j], j);
    lemma_concatenated_at(parts, i);
    lemma_concatenated_at(parts, j);
    let at = (
        concatenated(parts.take(i)).len() as int,
        concatenated(parts.take(j)).len() as int,
    );
    lemma_concatenated_at(parts.take(j), i);
    assert(parts.take(j).take(i) =~= parts.take(i));
    assert(parts[i] == seq![logs_heading(names[i])] + held[names[i]].map_values(
        |l: LogLine| log_print(l),
    ));
    assert(parts[j] == seq![logs_heading(names[j])] + held[names[j]].map_values(
        |l: LogLine| log_print(l),
    ));
    assert(parts[i][0] == logs_heading(names[i]));
    assert(parts[j][0] == logs_heading(names[j]));
    assert forall|k: int| 0 <= k < held[steps[i].name].len() implies released(
        steps,
        held,
    )[at.0 + 1 + k] == log_print(#[trigger] held[steps[i].name][k]) by {
        assert(parts[i][1 + k] == log_print(held[names[i]][k]));
    }
    assert forall|k: int| 0 <= k < held[steps[j].name].len() implies released(
        steps,
        held,
    )[at.1 + 1 + k] == log_print(#[trigger] held[steps[j].name][k]) by {
        assert(parts[j][1 + k] == log_print(held[names[j]][k]));
    }
    at
}

/// How the output of two steps of a parallel stage is interleaved as it arrives
/// makes no difference.
pub proof fn law_arrival_order_of_steps_is_irrelevant(
    held: Map<Seq<char>, Seq<LogLine>>,
    a: Seq<char>,
    line_a: LogLine,
    b: Seq<char>,
    line_b: LogLine,
)
    requires
        a != b,
    ensures
        with_line(with_line(held, a, line_a), b, line_b) == with_line(
            with_line(held, b, line_b),
            a,
            line_a,
        ),
{
    assert(with_line(with_line(held, a, line_a), b, line_b) =~= with_line(
        with_line(held, b, line_b),
        a,
        line_a,
    ));
}

/// Whether the lines are the logs of a step: a heading with its name and then every
/// line as it was written, what came on standard error there and in red.
pub open spec fn are_logs_of(
    lines: Seq<PrintModel>,
    name: Seq<char>,
    written: Seq<LogLine>,
) -> bool {
    &&& lines.len() == 1 + written.len()
    &&& lines[0].spans.len() == 2
    &&& lines[0].spans[1].0 == "=== Logs for step: "@ + name + " ==="@
    &&& !lines[0].to_stderr
    &&& forall|k: int|
        #![trigger written[k]]
        0 <= k < written.len() ==> {
            &&& lines[1 + k].to_stderr == written[k].1
            &&& lines[1 + k].spans == seq![
                (
                    written[k].0,
                    if written[k].1 {
                        Paint::Red
                    } else {
                        Paint::Plain
                    },
                ),
            ]
            &&& !lines[1 + k].newline
        }
}

/// When a parallel stage is complete, the logs of its steps are printed: for every
/// step in the order of the configuration all that was held back of it, nothing
/// else, and nothing at all for other stages.
pub proof fn law_a_parallel_stage_prints_its_logs(m: MonitorModel, at: int) -> (parts: Seq<
    Seq<PrintModel>,
>)
    requires
        0 <= at < m.stages.len(),
        forall|i: int| 0 <= i < at ==> (#[trigger] m.stages[i]).name != m.stages[at].name,
        step_names(m.stages[at].steps).no_duplicates(),
    ensures
        !m.parallel ==> completion_prints(m, m.stages[at].name).len() == 0,
        m.parallel ==> completion_prints(m, m.stages[at].name) == concatenated(parts),
        parts.len() == m.stages[at].steps.len(),
        forall|i: int|
            #![trigger parts[i]]
            0 <= i < parts.len() ==> {
                let name = m.stages[at].steps[i].name;
                &&& m.held.dom().contains(name) ==> are_logs_of(parts[i], name, m.held[name])
                &&& !m.held.dom().contains(name) ==> parts[i].len() == 0
            },
{
    let stage = m.stages[at];
    let names = stage_names(m.stages);
    let steps = stage.steps;
    let parts = Seq::new(steps.len(), |i: int| released_part(steps, m.held, i));
    assert(names[at] == stage.name);
    assert forall|i: int| 0 <= i < at implies #[trigger] names[i] != stage.name by {
        assert(m.stages[i].name != stage.name);
    }
    lemma_place_is(names, stage.name, at);
    assert forall|i: int| #![trigger parts[i]] 0 <= i < parts.len() implies {
        let name = steps[i].name;
        &&& m.held.dom().contains(name) ==> are_logs_of(parts[i], name, m.held[name])
        &&& !m.held.dom().contains(name) ==> parts[i].len() == 0
    } by {
        let mine = step_names(steps);
        let name = steps[i].name;
        assert(mine[i] == name);
        assert forall|k: int| 0 <= k < i implies #[trigger] mine[k] != name by {
            assert(mine[k] != mine[i]);
        }
        lemma_place_is(mine, name, i);
    }
    parts
}

/// What was printed is not held back any more, and everything else still is.
pub proof fn law_what_is_still_held_back(m: MonitorModel, at: int, name: Seq<char>)
    requires
        0 <= at < m.stages.len(),
        forall|i: int| 0 <= i < at ==> (#[trigger] m.stages[i]).name != m.stages[at].name,
    ensures
        ({
            let after = held_after_completion(m, m.stages[at].name);
            let printed = m.parallel && exists|k: int|
                0 <= k < m.stages[at].steps.len() && (#[trigger] m.stages[at].steps[k]).name
                    == name;
            &&& after.dom().contains(name) <==> m.held.dom().contains(name) && !printed
            &&& after.dom().contains(name) ==> after[name] == m.held[name]
        }),
{
    let stage = m.stages[at];
    let names = stage_names(m.stages);
    assert(names[at] == stage.name);
    assert forall|i: int| 0 <= i < at implies #[trigger] names[i] != stage.name by {
        assert(m.stages[i].name != stage.name);
    }
    lemma_place_is(names, stage.name, at);
    let mine = step_names(stage.steps);
    assert(mine.contains(name) <==> exists|k: int|
        0 <= k < stage.steps.len() && (#[trigger] stage.steps[k]).name == name) by {
        if mine.contains(name) {
            let k = choose|k: int| 0 <= k < mine.len() && mine[k] == name;
            assert(stage.steps[k].name == name);
        }
        if exists|k: int| 0 <= k < stage.steps.len() && (#[trigger] stage.steps[k]).name == name {
            let k = choose|k: int|
                0 <= k < stage.steps.len() && (#[trigger] stage.steps[k]).name == name;
            assert(mine[k] == name);
        }
    }
    assert(mine.to_set().contains(name) <==> mine.contains(name));
}

/// A stage that the monitor was not told of prints nothing and releases nothing.
pub proof fn law_an_unknown_stage_prints_nothing(m: MonitorModel, name: Seq<char>)
    requires
        forall|i: int| 0 <= i < m.stages.len() ==> (#[trigger] m.stages[i]).name != name,
    ensures
        completion_prints(m, name).len() == 0,
        held_after_completion(m, name) == m.held,
{
    let names = stage_names(m.stages);
    lemma_place_in(names, name);
    if names.contains(name) {
        let i = choose|i: int| 0 <= i < names.len() && names[i] == name;
        assert(m.stages[i].name == name);
    }
}

/// A line that is held back comes after those of its step, and leaves the others
/// alone.
pub proof fn law_a_line_is_held_back(
    logs: Map<Seq<char>, Seq<LogLine>>,
    step: Seq<char>,
    line: LogLine,
    other: Seq<char>,
)
    ensures
        ({
            let after = with_line(logs, step, line);
            &&& after.dom().contains(step)
            &&& after[step].last() == line
            &&& logs.dom().contains(step) ==> after[step] == logs[step].push(line)
            &&& !logs.dom().contains(step) ==> after[step] == seq![line]
            &&& other != step ==> (after.dom().contains(other) <==> logs.dom().contains(other))
            &&& other != step && logs.dom().contains(other) ==> after[other] == logs[other]
        }),
{
}

/// A stage is announced with its place among the stages, their number and its name.
pub proof fn law_a_stage_is_announced(stages: Seq<StageModel>, at: int, parallel: bool)
    requires
        0 <= at < stages.len(),
        forall|i: int| 0 <= i < at ==> (#[trigger] stages[i]).name != stages[at].name,
    ensures
        ({
            let line = stage_line(stages, stages[at].name, parallel);
            &&& line.spans.len() == 5
            &&& line.spans[2].0 == " Stage "@ + decimal((at + 1) as nat) + "/"@ + decimal(
                stages.len(),
            ) + ": "@
            &&& line.spans[3].0 == stages[at].name
            &&& line.spans[4].0 == if parallel {
                " [parallel]"@
            } else {
                ""@
            }
            &&& !line.to_stderr
            &&& line.newline
        }),
{
    let names = stage_names(stages);
    assert(names[at] == stages[at].name);
    assert forall|i: int| 0 <= i < at implies #[trigger] names[i] != stages[at].name by {
        assert(stages[i].name != stages[at].name);
    }
    lemma_place_is(names, stages[at].name, at);
}

/// At the end it is said whether the run succeeded, and how long it took.
pub proof fn law_the_end_is_announced(success: bool, duration: Elapsed)
    ensures
        ({
            let lines = pipeline_lines(success, duration);
            &&& lines.len() == 2
            &&& lines[0].spans.len() == 4
            &&& lines[0].spans[1].0 == if success {
                "[OK]"@
            } else {
                "[FAIL]"@
            }
            &&& lines[0].spans[3].0 == if success {
                "Pipeline completed successfully!"@
            } else {
                "Pipeline execution failed."@
            }
            &&& lines[1].spans == seq![
                ("    Total duration: "@ + duration.text(2) + "s"@, Paint::Plain),
            ]
        }),
{
}

/// A line of a step that runs alone is printed as it was written, where it came
/// from.
pub proof fn law_a_line_is_printed(line: LogLine)
    ensures
        log_print(line).to_stderr == line.1,
        log_print(line).spans.len() == 1,
        log_print(line).spans[0].0 == line.0,
        log_print(line).spans[0].1 == if line.1 {
            Paint::Red
        } else {
            Paint::Plain
        },
        !log_print(line).newline,
{
}

/// What is known of log lines is all of it.
pub proof fn law_model_of_log_lines(list: Seq<(String, bool)>, i: int)
    requires
        0 <= i < list.len(),
    ensures
        log_lines(list).len() == list.len(),
        log_lines(list)[i] == (list[i].0@, list[i].1),
{
}

} // verus!
