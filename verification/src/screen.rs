//! What the dashboard shows.

use crate::clock::Elapsed;
use crate::monitor::{log_lines, LogLine};
use crate::numbers::{count_text, decimal, two_digits, zero_padded};
use crate::paint::{span, spans, Paint, Span, SpanModel};
use crate::scan::{concatenated, lemma_concatenated_add, lemma_concatenated_step};
use crate::text::{pieces, split_at_char, texts};
use crate::tui::{
    all_steps, lemma_all_steps, lemma_steps_before, stands_at, step_count, steps_before,
    ActivePanel, StageState, StageView, Status, StepState, StepView, TuiModel, TuiState,
};
use vstd::prelude::*;
use vstd::string::*;

verus! {

/// An entry of the list of stages and steps.
#[derive(Debug)]
pub struct ListEntry {
    pub spans: Vec<Span>,
    pub selected: bool,
}

/// What a `ListEntry` holds.
#[verifier::ext_equal]
pub struct EntryModel {
    pub spans: Seq<SpanModel>,
    pub selected: bool,
}

impl View for ListEntry {
    type V = EntryModel;

    open spec fn view(&self) -> EntryModel {
        EntryModel { spans: spans(self.spans@), selected: self.selected }
    }
}

/// What a list of entries holds.
pub open spec fn entries(list: Seq<ListEntry>) -> Seq<EntryModel> {
    list.map_values(|e: ListEntry| e@)
}

/// Everything the dashboard shows.
#[derive(Debug)]
pub struct Screen {
    pub header: Vec<Span>,
    pub stages_active: bool,
    pub items: Vec<ListEntry>,
    pub logs_active: bool,
    pub logs_title: String,
    /// The lines of the logs that are visible
    pub log_lines: Vec<Span>,
    pub footer: Vec<Span>,
}

/// What a `Screen` holds.
#[verifier::ext_equal]
pub struct ScreenModel {
    pub header: Seq<SpanModel>,
    pub stages_active: bool,
    pub items: Seq<EntryModel>,
    pub logs_active: bool,
    pub logs_title: Seq<char>,
    pub log_lines: Seq<SpanModel>,
    pub footer: Seq<SpanModel>,
}

impl View for Screen {
    type V = ScreenModel;

    open spec fn view(&self) -> ScreenModel {
        ScreenModel {
            header: spans(self.header@),
            stages_active: self.stages_active,
            items: entries(self.items@),
            logs_active: self.logs_active,
            logs_title: self.logs_title@,
            log_lines: spans(self.log_lines@),
            footer: spans(self.footer@),
        }
    }
}

// ---------------------------------------------------------------------------
// Header
// ---------------------------------------------------------------------------
/// The number of steps with a status.
pub open spec fn count_status(steps: Seq<StepView>, status: Status) -> nat
    decreases steps.len(),
{
    if steps.len() == 0 {
        0
    } else {
        count_status(steps.drop_last(), status) + (if steps.last().status == status {
            1nat
        } else {
            0
        })
    }
}

/// The time a run has taken so far, or took.
pub open spec fn run_time(m: TuiModel, now: Elapsed) -> Elapsed {
    match m.pipeline_duration {
        Some(duration) => duration,
        None => now.spec_since(m.pipeline_start),
    }
}

/// The word for the state of a run.
pub open spec fn run_word(success: Option<bool>) -> SpanModel {
    match success {
        None => ("RUNNING"@, Paint::CyanBold),
        Some(true) => ("SUCCESS"@, Paint::GreenBold),
        Some(false) => ("FAILED"@, Paint::RedBold),
    }
}

/// The header: the state of the run, its duration and how many steps have
/// succeeded; and how many have failed, if any has.
pub open spec fn header_spans(m: TuiModel, now: Elapsed) -> Seq<SpanModel> {
    let secs = run_time(m, now).spec_secs();
    let steps = all_steps(m.stages);
    let failed = count_status(steps, Status::Failed);
    let head = seq![
        (" FORGE LOCAL CI/CD  |  Status: "@, Paint::Plain),
        run_word(m.pipeline_success),
        (
            "  |  Duration: "@ + zero_padded(decimal((secs / 60) as nat), 2) + ":"@ + zero_padded(
                decimal((secs % 60) as nat),
                2,
            ) + "s  |  Steps: "@ + decimal(count_status(steps, Status::Succeeded)) + "/"@
                + decimal(steps.len()) + " Succeeded"@,
            Paint::Plain,
        ),
    ];
    if failed > 0 {
        head + seq![
            (" | "@, Paint::Plain),
            (decimal(failed) + " Failed"@, Paint::RedBold),
        ]
    } else {
        head
    }
}

/// The numbers of all steps, of those that succeeded and of those that failed.
fn count_steps(state: &TuiState) -> (r: (usize, usize, usize))
    ensures
        r.0 == all_steps(state@.stages).len(),
        r.1 == count_status(all_steps(state@.stages), Status::Succeeded),
        r.2 == count_status(all_steps(state@.stages), Status::Failed),
{
    let flat = state.get_flat_steps();
    let n: usize = flat.len();
    let ghost steps = all_steps(state@.stages);
    proof {
        lemma_all_steps(state@.stages);
    }
    let mut succeeded: usize = 0;
    let mut failed: usize = 0;
    let mut k: usize = 0;
    while k < n
        invariant
            k <= n,
            n == flat@.len(),
            n == steps.len(),
            forall|k: int|
                0 <= k < flat@.len() ==> stands_at(
                    state@.stages,
                    k,
                    (#[trigger] flat@[k]).0 as int,
                    flat@[k].1 as int,
                ),
            forall|k: int, i: int, j: int| #[trigger]
                stands_at(state@.stages, k, i, j) ==> steps[k] == state@.stages[i].steps[j],
            succeeded == count_status(steps.take(k as int), Status::Succeeded),
            failed == count_status(steps.take(k as int), Status::Failed),
            succeeded + failed <= k,
        decreases n - k,
    {
        let (i, j) = flat[k];
        assert(stands_at(state@.stages, k as int, i as int, j as int));
        assert(state@.stages[i as int].steps[j as int] == state.stages@[i as int].steps@[j as int]@);
        assert(steps.take(k + 1).drop_last() =~= steps.take(k as int));
        match state.stages[i].steps[j].status {
            Status::Succeeded => {
                succeeded += 1;
            },
            Status::Failed => {
                failed += 1;
            },
            _ => {},
        }
        k += 1;
    }
    assert(steps.take(n as int) =~= steps);
    (n, succeeded, failed)
}

fn draw_header(state: &TuiState, now: Elapsed) -> (r: Vec<Span>)
    ensures
        spans(r@) == header_spans(state@, now),
{
    let elapsed = match state.pipeline_duration {
        Some(duration) => duration,
        None => now.since(&state.pipeline_start),
    };
    let secs: u64 = elapsed.secs();
    let (total, succeeded, failed) = count_steps(state);
    let word = match state.pipeline_success {
        None => span("RUNNING".to_string(), Paint::CyanBold),
        Some(true) => span("SUCCESS".to_string(), Paint::GreenBold),
        Some(false) => span("FAILED".to_string(), Paint::RedBold),
    };
    let figures = "  |  Duration: ".to_string().concat(two_digits(secs / 60).as_str()).concat(
        ":",
    ).concat(two_digits(secs % 60).as_str()).concat("s  |  Steps: ").concat(
        count_text(succeeded).as_str(),
    ).concat("/").concat(count_text(total).as_str()).concat(" Succeeded");
    let mut r = vec![
        span(" FORGE LOCAL CI/CD  |  Status: ".to_string(), Paint::Plain),
        word,
        span(figures, Paint::Plain),
    ];
    if failed > 0 {
        r.push(span(" | ".to_string(), Paint::Plain));
        r.push(span(count_text(failed).concat(" Failed"), Paint::RedBold));
    }
    assert(spans(r@) =~= header_spans(state@, now));
    r
}

// ---------------------------------------------------------------------------
// Stages and steps
// ---------------------------------------------------------------------------
/// The symbol of a status.
pub open spec fn status_icon(status: Status) -> SpanModel {
    match status {
        Status::Pending => ("─"@, Paint::Dim),
        Status::Running => ("▶"@, Paint::CyanBold),
        Status::Succeeded => ("✔"@, Paint::Green),
        Status::Failed => ("✘"@, Paint::RedBold),
    }
}

fn icon(status: Status) -> (r: Span)
    ensures
        r@ == status_icon(status),
{
    match status {
        Status::Pending => span("─".to_string(), Paint::Dim),
        Status::Running => span("▶".to_string(), Paint::CyanBold),
        Status::Succeeded => span("✔".to_string(), Paint::Green),
        Status::Failed => span("✘".to_string(), Paint::RedBold),
    }
}

/// The entry of a stage.
pub open spec fn stage_entry(stage: StageView) -> EntryModel {
    EntryModel {
        spans: seq![
            status_icon(stage.status),
            (" Stage: "@, Paint::Plain),
            (stage.name, Paint::Bold),
            (
                if stage.parallel {
                    " [parallel]"@
                } else {
                    ""@
                },
                Paint::YellowDim,
            ),
        ],
        selected: false,
    }
}

/// The entry of a step.
pub open spec fn step_entry(step: StepView, selected: bool) -> EntryModel {
    let head = seq![
        (
            if selected {
                "  ├─ > "@
            } else {
                "  ├─   "@
            },
            Paint::Plain,
        ),
        status_icon(step.status),
        (" "@, Paint::Plain),
        (step.name, Paint::Plain),
    ];
    EntryModel {
        spans: match step.duration {
            Some(duration) => head.push((" ("@ + duration.text(1) + "s)"@, Paint::Dim)),
            None => head,
        },
        selected,
    }
}

/// The entries of stage number `i` and its steps.
pub open spec fn stage_entries(stages: Seq<StageView>, i: int, selected: int) -> Seq<EntryModel> {
    seq![stage_entry(stages[i])] + Seq::new(
        stages[i].steps.len(),
        |j: int| step_entry(stages[i].steps[j], steps_before(stages, i) + j == selected),
    )
}

/// The entries of all stages.
pub open spec fn all_entries(stages: Seq<StageView>, selected: int) -> Seq<EntryModel> {
    concatenated(Seq::new(stages.len(), |i: int| stage_entries(stages, i, selected)))
}

fn draw_stage(stage: &StageState) -> (r: ListEntry)
    ensures
        r@ == stage_entry(stage@),
{
    let tag = if stage.parallel {
        " [parallel]"
    } else {
        ""
    };
    let list = vec![
        icon(stage.status),
        span(" Stage: ".to_string(), Paint::Plain),
        span(stage.name.clone(), Paint::Bold),
        span(tag.to_string(), Paint::YellowDim),
    ];
    assert(spans(list@) =~= stage_entry(stage@).spans);
    ListEntry { spans: list, selected: false }
}

fn draw_step(step: &StepState, selected: bool) -> (r: ListEntry)
    ensures
        r@ == step_entry(step@, selected),
{
    let prefix = if selected {
        "  ├─ > "
    } else {
        "  ├─   "
    };
    let mut list = vec![
        span(prefix.to_string(), Paint::Plain),
        icon(step.status),
        span(" ".to_string(), Paint::Plain),
        span(step.name.clone(), Paint::Plain),
    ];
    if let Some(duration) = step.duration {
        list.push(
            span(" (".to_string().concat(duration.seconds(1).as_str()).concat("s)"), Paint::Dim),
        );
    }
    assert(spans(list@) =~= step_entry(step@, selected).spans);
    ListEntry { spans: list, selected }
}

fn draw_entries(state: &TuiState) -> (r: Vec<ListEntry>)
    ensures
        entries(r@) == all_entries(state@.stages, state@.selected_step_idx as int),
{
    let ghost stages = state@.stages;
    let ghost selected = state@.selected_step_idx as int;
    let ghost parts = Seq::new(stages.len(), |i: int| stage_entries(stages, i, selected));
    let total: usize = state.get_flat_steps().len();
    let mut r: Vec<ListEntry> = Vec::new();
    let mut at: usize = 0;
    let mut i: usize = 0;
    assert(entries(r@) =~= concatenated(parts.take(0)));
    while i < state.stages.len()
        invariant
            i <= state.stages@.len(),
            stages == state@.stages,
            selected == state@.selected_step_idx,
            parts == Seq::new(stages.len(), |i: int| stage_entries(stages, i, selected)),
            at == steps_before(stages, i as int),
            total == step_count(stages),
            entries(r@) == concatenated(parts.take(i as int)),
        decreases state.stages@.len() - i,
    {
        let stage = &state.stages[i];
        let ghost before = entries(r@);
        let ghost rest = Seq::new(
            stages[i as int].steps.len(),
            |j: int| step_entry(stages[i as int].steps[j], steps_before(stages, i as int) + j
                == selected),
        );
        proof {
            lemma_concatenated_step(parts, i as int);
            lemma_steps_before(stages, i + 1, stages.len() as int);
            assert(stages[i as int] == stage@);
        }
        r.push(draw_stage(stage));
        let mut j: usize = 0;
        assert(entries(r@) =~= before + seq![stage_entry(stage@)] + rest.take(0));
        while j < stage.steps.len()
            invariant
                i < state.stages@.len(),
                stages == state@.stages,
                selected == state@.selected_step_idx,
                stage@ == stages[i as int],
                j <= stage.steps@.len(),
                at == steps_before(stages, i as int),
                at + stage.steps@.len() <= total,
                rest == Seq::new(
                    stages[i as int].steps.len(),
                    |j: int| step_entry(
                        stages[i as int].steps[j],
                        steps_before(stages, i as int) + j == selected,
                    ),
                ),
                entries(r@) == before + seq![stage_entry(stage@)] + rest.take(j as int),
            decreases stage.steps@.len() - j,
        {
            assert(stage@.steps[j as int] == stage.steps@[j as int]@);
            let ghost now = entries(r@);
            let entry = draw_step(&stage.steps[j], at + j == state.selected_step_idx);
            assert(entry@ == rest[j as int]);
            r.push(entry);
            j += 1;
            assert(entries(r@) =~= now.push(entry@));
            assert(entries(r@) =~= before + seq![stage_entry(stage@)] + rest.take(j as int));
        }
        assert(rest.take(j as int) =~= rest);
        assert(entries(r@) =~= before + (seq![stage_entry(stage@)] + rest));
        at += stage.steps.len();
        i += 1;
    }
    assert(parts.take(i as int) =~= parts);
    r
}

// ---------------------------------------------------------------------------
// Logs
// ---------------------------------------------------------------------------
/// The lines of a piece of output: a line break at its end opens no line.
pub open spec fn piece_lines(text: Seq<char>) -> Seq<Seq<char>> {
    let parts = pieces(text, '\n');
    if parts.len() > 1 && parts.last().len() == 0 {
        parts.drop_last()
    } else {
        parts
    }
}

/// The lines of a piece of output as they look.
pub open spec fn styled_lines(line: LogLine) -> Seq<SpanModel> {
    piece_lines(line.0).map_values(
        |t: Seq<char>|
            (
                t,
                if line.1 {
                    Paint::Red
                } else {
                    Paint::Plain
                },
            ),
    )
}

/// All lines of a step's output.
pub open spec fn step_lines(step: StepView) -> Seq<SpanModel> {
    concatenated(step.logs.map_values(|l: LogLine| styled_lines(l)))
}

/// The lines of the selected step's output.
pub open spec fn selected_lines(m: TuiModel) -> Seq<SpanModel> {
    if m.selected_step_idx < step_count(m.stages) {
        step_lines(all_steps(m.stages)[m.selected_step_idx as int])
    } else {
        seq![]
    }
}

/// The title over the logs.
pub open spec fn logs_title(m: TuiModel) -> Seq<char> {
    if m.selected_step_idx < step_count(m.stages) {
        " Logs: "@ + all_steps(m.stages)[m.selected_step_idx as int].name + " "@
    } else {
        " Logs "@
    }
}

/// The furthest that `lines` lines can be scrolled in `height` rows.
pub open spec fn furthest_scroll(lines: int, height: int) -> int {
    if lines > height {
        lines - height
    } else {
        0
    }
}

/// The first visible line: with automatic scrolling the last lines are visible,
/// otherwise as much as there is from where the user has scrolled to.
pub open spec fn scroll_position(m: TuiModel, height: int) -> int {
    let furthest = furthest_scroll(selected_lines(m).len() as int, height);
    if m.auto_scroll || m.log_scroll > furthest {
        furthest
    } else {
        m.log_scroll as int
    }
}

/// The visible lines.
pub open spec fn visible_lines(m: TuiModel, height: int) -> Seq<SpanModel> {
    let lines = selected_lines(m).skip(scroll_position(m, height));
    if lines.len() > height {
        lines.take(height)
    } else {
        lines
    }
}

/// Appends the lines of a piece of output.
fn push_lines(text: &str, is_stderr: bool, out: &mut Vec<Span>)
    ensures
        spans(final(out)@) == spans(old(out)@) + styled_lines((text@, is_stderr)),
{
    let mut parts = split_at_char(text, '\n');
    let ghost whole = texts(parts@);
    if parts.len() > 1 && parts[parts.len() - 1].as_str().unicode_len() == 0 {
        assert(whole.last() == parts@[parts@.len() - 1]@);
        let _ = parts.pop();
        assert(texts(parts@) =~= whole.drop_last());
    } else if parts.len() > 1 {
        assert(whole.last() == parts@[parts@.len() - 1]@);
    }
    assert(texts(parts@) == piece_lines(text@));
    let paint = if is_stderr {
        Paint::Red
    } else {
        Paint::Plain
    };
    let ghost target = styled_lines((text@, is_stderr));
    let ghost before = spans(out@);
    let mut i: usize = 0;
    assert(before + target.take(0) =~= before);
    while i < parts.len()
        invariant
            i <= parts@.len(),
            texts(parts@) == piece_lines(text@),
            target == styled_lines((text@, is_stderr)),
            paint == if is_stderr {
                Paint::Red
            } else {
                Paint::Plain
            },
            spans(out@) == before + target.take(i as int),
        decreases parts@.len() - i,
    {
        let ghost now = spans(out@);
        assert(texts(parts@)[i as int] == parts@[i as int]@);
        out.push(span(parts[i].clone(), paint));
        i += 1;
        assert(spans(out@) =~= now.push(target[i - 1]));
        assert(spans(out@) =~= before + target.take(i as int));
    }
    assert(target.take(i as int) =~= target);
}

/// All lines of a step's output.
fn draw_lines(step: &StepState) -> (r: Vec<Span>)
    ensures
        spans(r@) == step_lines(step@),
{
    let ghost parts = step@.logs.map_values(|l: LogLine| styled_lines(l));
    let mut r: Vec<Span> = Vec::new();
    let mut i: usize = 0;
    assert(spans(r@) =~= concatenated(parts.take(0)));
    while i < step.logs.len()
        invariant
            i <= step.logs@.len(),
            parts == step@.logs.map_values(|l: LogLine| styled_lines(l)),
            spans(r@) == concatenated(parts.take(i as int)),
        decreases step.logs@.len() - i,
    {
        proof {
            lemma_concatenated_step(parts, i as int);
            assert(step@.logs[i as int] == (step.logs@[i as int].0@, step.logs@[i as int].1));
        }
        push_lines(step.logs[i].0.as_str(), step.logs[i].1, &mut r);
        i += 1;
    }
    assert(parts.take(i as int) =~= parts);
    r
}

/// A range of lines.
fn cut_lines(lines: Vec<Span>, from: usize, height: usize) -> (r: Vec<Span>)
    requires
        from <= lines@.len(),
    ensures
        spans(r@) == {
            let rest = spans(lines@).skip(from as int);
            if rest.len() > height {
                rest.take(height as int)
            } else {
                rest
            }
        },
{
    let n: usize = lines.len();
    let to: usize = if n - from > height {
        from + height
    } else {
        n
    };
    let mut r: Vec<Span> = Vec::new();
    let mut i: usize = from;
    assert(spans(r@) =~= spans(lines@).subrange(from as int, i as int));
    while i < to
        invariant
            from <= i <= to,
            to <= lines@.len(),
            spans(r@) == spans(lines@).subrange(from as int, i as int),
        decreases to - i,
    {
        let ghost now = spans(r@);
        r.push(span(lines[i].text.clone(), lines[i].paint));
        i += 1;
        assert(spans(r@) =~= now.push(spans(lines@)[i - 1]));
        assert(spans(r@) =~= spans(lines@).subrange(from as int, i as int));
    }
    assert(spans(r@) =~= {
        let rest = spans(lines@).skip(from as int);
        if rest.len() > height {
            rest.take(height as int)
        } else {
            rest
        }
    });
    r
}

// ---------------------------------------------------------------------------
// Footer
// ---------------------------------------------------------------------------
/// The footer: the keys, the active panel and whether logs scroll by
/// themselves.
pub open spec fn footer_spans(panel: ActivePanel, auto_scroll: bool) -> Seq<SpanModel> {
    seq![
        (" [q] Quit  |  [Tab] Switch Panel ("@, Paint::Plain),
        (
            match panel {
                ActivePanel::StagesList => "STAGES"@,
                ActivePanel::LogsBlock => "LOGS"@,
            },
            Paint::Cyan,
        ),
        (")  |  [↑/↓] Navigate  |  [a] Auto-Scroll ("@, Paint::Plain),
        if auto_scroll {
            ("ON"@, Paint::Green)
        } else {
            ("OFF"@, Paint::DarkGray)
        },
        (")"@, Paint::Plain),
    ]
}

fn draw_footer(panel: ActivePanel, auto_scroll: bool) -> (r: Vec<Span>)
    ensures
        spans(r@) == footer_spans(panel, auto_scroll),
{
    let name = match panel {
        ActivePanel::StagesList => "STAGES",
        ActivePanel::LogsBlock => "LOGS",
    };
    let state = if auto_scroll {
        span("ON".to_string(), Paint::Green)
    } else {
        span("OFF".to_string(), Paint::DarkGray)
    };
    let r = vec![
        span(" [q] Quit  |  [Tab] Switch Panel (".to_string(), Paint::Plain),
        span(name.to_string(), Paint::Cyan),
        span(")  |  [↑/↓] Navigate  |  [a] Auto-Scroll (".to_string(), Paint::Plain),
        state,
        span(")".to_string(), Paint::Plain),
    ];
    assert(spans(r@) =~= footer_spans(panel, auto_scroll));
    r
}

// ---------------------------------------------------------------------------
// The whole screen
// ---------------------------------------------------------------------------
/// The rows for log lines in a panel of `panel_height` rows with a border.
pub open spec fn log_rows(panel_height: int) -> int {
    if panel_height >= 2 {
        panel_height - 2
    } else {
        0
    }
}

/// What the dashboard shows at the time `now`, in a panel for the logs of
/// `panel_height` rows.
pub open spec fn screen_of(m: TuiModel, now: Elapsed, panel_height: int) -> ScreenModel {
    ScreenModel {
        header: header_spans(m, now),
        stages_active: m.active_panel == ActivePanel::StagesList,
        items: all_entries(m.stages, m.selected_step_idx as int),
        logs_active: m.active_panel == ActivePanel::LogsBlock,
        logs_title: logs_title(m),
        log_lines: visible_lines(m, log_rows(panel_height)),
        footer: footer_spans(m.active_panel, m.auto_scroll),
    }
}

/// What the dashboard shows at the time `now`, in a panel for the logs of
/// `panel_height` rows. How far the logs are scrolled is brought within bounds.
pub fn draw_ui(state: &mut TuiState, now: Elapsed, panel_height: u16) -> (r: Screen)
    ensures
        r@ == screen_of(old(state)@, now, panel_height as int),
        final(state)@.log_scroll as int == scroll_position(
            old(state)@,
            log_rows(panel_height as int),
        ),
        final(state)@ == (TuiModel { log_scroll: final(state)@.log_scroll, ..old(state)@ }),
{
    let header = draw_header(state, now);
    let items = draw_entries(state);
    let (title, lines) = match state.get_selected_step() {
        Some(step) => (
            " Logs: ".to_string().concat(step.name.as_str()).concat(" "),
            draw_lines(step),
        ),
        None => (" Logs ".to_string(), Vec::new()),
    };
    assert(spans(lines@) =~= selected_lines(state@));
    let height: usize = if panel_height >= 2 {
        panel_height as usize - 2
    } else {
        0
    };
    let total: usize = lines.len();
    let furthest: usize = if total > height {
        total - height
    } else {
        0
    };
    let scroll: usize = if state.auto_scroll || state.log_scroll > furthest {
        furthest
    } else {
        state.log_scroll
    };
    state.log_scroll = scroll;
    let log_lines = cut_lines(lines, scroll, height);
    Screen {
        header,
        stages_active: state.active_panel == ActivePanel::StagesList,
        items,
        logs_active: state.active_panel == ActivePanel::LogsBlock,
        logs_title: title,
        log_lines,
        footer: draw_footer(state.active_panel, state.auto_scroll),
    }
}

// ---------------------------------------------------------------------------
// Laws
// ---------------------------------------------------------------------------
/// The logs are never scrolled past their end, no more lines are visible than
/// there are rows, and with automatic scrolling the last line is visible.
pub proof fn law_scrolling_stays_in_bounds(m: TuiModel, height: int)
    requires
        height >= 0,
    ensures
        0 <= scroll_position(m, height) <= selected_lines(m).len(),
        visible_lines(m, height).len() <= height,
        visible_lines(m, height).len() == if selected_lines(m).len() < height {
            selected_lines(m).len() as int
        } else {
            height
        },
        m.auto_scroll && height > 0 && selected_lines(m).len() > 0 ==> visible_lines(
            m,
            height,
        ).last() == selected_lines(m).last(),
{
}

/// Drawing twice shows the same: bringing the scroll position within bounds is
/// done once.
pub proof fn law_drawing_is_stable(m: TuiModel, after: TuiModel, height: int)
    requires
        height >= 0,
        after.log_scroll as int == scroll_position(m, height),
        after == (TuiModel { log_scroll: after.log_scroll, ..m }),
    ensures
        scroll_position(after, height) == scroll_position(m, height),
        visible_lines(after, height) == visible_lines(m, height),
{
    assert(selected_lines(after) == selected_lines(m));
}

/// The entry of a step is marked as selected if and only if the step is the
/// selected one; the entry of a stage never is.
pub proof fn law_selected_entry(stages: Seq<StageView>, i: int, j: int, selected: int)
    requires
        0 <= i < stages.len(),
        0 <= j < stages[i].steps.len(),
    ensures
        stage_entries(stages, i, selected)[1 + j].selected <==> stands_at(stages, selected, i, j),
        !stage_entries(stages, i, selected)[0].selected,
{
}

/// Counting steps is taking the number of those with that status.
proof fn lemma_count_status(steps: Seq<StepView>, status: Status)
    ensures
        count_status(steps, status) == steps.filter(|s: StepView| s.status == status).len(),
    decreases steps.len(),
{
    reveal(Seq::filter);
    if steps.len() > 0 {
        lemma_count_status(steps.drop_last(), status);
    }
}

/// The header tells how the run stands: running, succeeded or failed; for how long
/// it has run; how many of the steps of all stages have succeeded; and how many have
/// failed, if any has.
pub proof fn law_the_header_tells_how_the_run_stands(m: TuiModel, now: Elapsed, height: int)
    ensures
        ({
            let header = screen_of(m, now, height).header;
            let steps = concatenated(m.stages.map_values(|s: StageView| s.steps));
            let good = steps.filter(|s: StepView| s.status == Status::Succeeded).len();
            let bad = steps.filter(|s: StepView| s.status == Status::Failed).len();
            let secs = match m.pipeline_duration {
                Some(duration) => duration.spec_secs(),
                None => now.spec_since(m.pipeline_start).spec_secs(),
            };
            &&& header[1].0 == match m.pipeline_success {
                None => "RUNNING"@,
                Some(success) => if success {
                    "SUCCESS"@
                } else {
                    "FAILED"@
                },
            }
            &&& header[2].0 == "  |  Duration: "@ + zero_padded(decimal((secs / 60) as nat), 2)
                + ":"@ + zero_padded(decimal((secs % 60) as nat), 2) + "s  |  Steps: "@ + decimal(
                good,
            ) + "/"@ + decimal(steps.len()) + " Succeeded"@
            &&& bad == 0 ==> header.len() == 3
            &&& bad > 0 ==> header.len() == 5 && header[4].0 == decimal(bad) + " Failed"@
        }),
{
    let steps = all_steps(m.stages);
    lemma_count_status(steps, Status::Succeeded);
    lemma_count_status(steps, Status::Failed);
}

/// The list shows every stage and below it every step, in order, each with its name
/// and the sign of its status; of the steps exactly the selected one is marked.
#[verifier::spinoff_prover]
pub proof fn law_the_list_shows_everything(m: TuiModel, now: Elapsed, height: int) -> (parts: Seq<
    Seq<EntryModel>,
>)
    ensures
        screen_of(m, now, height).items == concatenated(parts),
        parts.len() == m.stages.len(),
        forall|i: int|
            #![trigger parts[i]]
            0 <= i < parts.len() ==> {
                let stage = m.stages[i];
                &&& parts[i].len() == 1 + stage.steps.len()
                &&& !parts[i][0].selected
                &&& parts[i][0].spans.len() == 4
                &&& parts[i][0].spans[0].0 == sign_of(stage.status)
                &&& parts[i][0].spans[2].0 == stage.name
                &&& parts[i][0].spans[3].0 == if stage.parallel {
                    " [parallel]"@
                } else {
                    ""@
                }
            },
        forall|i: int, j: int|
            #![trigger parts[i][1 + j]]
            0 <= i < parts.len() && 0 <= j < m.stages[i].steps.len() ==> {
                let step = m.stages[i].steps[j];
                let before = concatenated(
                    m.stages.map_values(|s: StageView| s.steps).take(i),
                ).len();
                &&& parts[i][1 + j].selected <==> m.selected_step_idx == before + j
                &&& parts[i][1 + j].spans[1].0 == sign_of(step.status)
                &&& parts[i][1 + j].spans[3].0 == step.name
                &&& step.duration is None ==> parts[i][1 + j].spans.len() == 4
                &&& step.duration matches Some(d) ==> parts[i][1 + j].spans.len() == 5
                    && parts[i][1 + j].spans[4].0 == " ("@ + d.text(1) + "s)"@
            },
{
    let selected = m.selected_step_idx as int;
    let parts = Seq::new(m.stages.len(), |i: int| stage_entries(m.stages, i, selected));
    assert forall|i: int, j: int|
        #![trigger parts[i][1 + j]]
        0 <= i < parts.len() && 0 <= j < m.stages[i].steps.len() implies {
        let step = m.stages[i].steps[j];
        let before = concatenated(m.stages.map_values(|s: StageView| s.steps).take(i)).len();
        &&& parts[i][1 + j].selected <==> m.selected_step_idx == before + j
        &&& parts[i][1 + j].spans[1].0 == sign_of(step.status)
        &&& parts[i][1 + j].spans[3].0 == step.name
        &&& step.duration is None ==> parts[i][1 + j].spans.len() == 4
        &&& step.duration matches Some(d) ==> parts[i][1 + j].spans.len() == 5
            && parts[i][1 + j].spans[4].0 == " ("@ + d.text(1) + "s)"@
    } by {
        lemma_before(m.stages, i);
        let entry = step_entry(
            m.stages[i].steps[j],
            steps_before(m.stages, i) + j == selected,
        );
        assert(parts[i][1 + j] == entry);
    }
    parts
}

/// The sign of a status.
pub open spec fn sign_of(status: Status) -> Seq<char> {
    match status {
        Status::Pending => "─"@,
        Status::Running => "▶"@,
        Status::Succeeded => "✔"@,
        Status::Failed => "✘"@,
    }
}

/// The number of steps before a stage is that of the steps of the stages before it.
proof fn lemma_before(stages: Seq<StageView>, i: int)
    requires
        0 <= i <= stages.len(),
    ensures
        steps_before(stages, i) == concatenated(
            stages.map_values(|s: StageView| s.steps).take(i),
        ).len(),
    decreases i,
{
    if i > 0 {
        lemma_before(stages, i - 1);
        lemma_concatenated_step(stages.map_values(|s: StageView| s.steps), i - 1);
    }
}

/// The logs that are shown are those of the selected step, a run of neighbouring
/// lines of them that fits the panel: the last ones if the logs scroll by
/// themselves, and otherwise those from where the user has scrolled to, as far as
/// there are any.
#[verifier::spinoff_prover]
pub proof fn law_the_logs_of_the_selected_step_are_shown(
    m: TuiModel,
    now: Elapsed,
    height: int,
    i: int,
    j: int,
)
    requires
        height >= 2,
        stands_at(m.stages, m.selected_step_idx as int, i, j),
    ensures
        ({
            let screen = screen_of(m, now, height);
            let step = m.stages[i].steps[j];
            let lines = step_lines(step);
            let rows = height - 2;
            let shown = screen.log_lines;
            &&& screen.logs_title == " Logs: "@ + step.name + " "@
            &&& lines.len() <= rows ==> shown == lines
            &&& lines.len() > rows ==> {
                let from = if m.auto_scroll || m.log_scroll > lines.len() - rows {
                    lines.len() - rows
                } else {
                    m.log_scroll as int
                };
                shown == lines.subrange(from, from + rows)
            }
        }),
{
    lemma_all_steps(m.stages);
    lemma_steps_before(m.stages, i + 1, m.stages.len() as int);
    assert(steps_before(m.stages, i + 1) == steps_before(m.stages, i) + m.stages[i].steps.len());
    lemma_steps_before(m.stages, 0, i);
    let lines = step_lines(m.stages[i].steps[j]);
    assert(selected_lines(m) == lines);
    let rows = height - 2;
    let shown = visible_lines(m, rows);
    if lines.len() <= rows {
        assert(lines.skip(0) =~= lines);
    } else {
        let from = scroll_position(m, rows);
        assert(lines.skip(from).take(rows) =~= lines.subrange(from, from + rows));
        assert(lines.skip(from).len() >= rows);
        assert(lines.skip(from).take(rows) =~= shown);
    }
}

/// Without a selected step no logs are shown.
pub proof fn law_no_step_no_logs(m: TuiModel, now: Elapsed, height: int)
    requires
        m.selected_step_idx >= step_count(m.stages),
    ensures
        screen_of(m, now, height).log_lines.len() == 0,
        screen_of(m, now, height).logs_title == " Logs "@,
{
}

/// The logs of a step are all that it has written, in order, line by line; what
/// came on standard error is red.
pub proof fn law_lines_of_a_step(
    step: StepView,
    a: Seq<LogLine>,
    b: Seq<LogLine>,
    line: LogLine,
    k: int,
)
    requires
        step.logs == a + seq![line] + b,
    ensures
        step_lines(step) == step_lines((StepView { logs: a, ..step })) + styled_lines(line)
            + step_lines((StepView { logs: b, ..step })),
        styled_lines(line).len() == piece_lines(line.0).len(),
        0 <= k < piece_lines(line.0).len() ==> styled_lines(line)[k].0 == piece_lines(line.0)[k]
            && styled_lines(line)[k].1 == if line.1 {
            Paint::Red
        } else {
            Paint::Plain
        },
        piece_lines(line.0) == {
            let parts = pieces(line.0, '\n');
            if parts.len() > 1 && parts.last().len() == 0 {
                parts.drop_last()
            } else {
                parts
            }
        },
{
    let f = |l: LogLine| styled_lines(l);
    let one = seq![line];
    assert(step.logs.map_values(f) =~= a.map_values(f) + one.map_values(f) + b.map_values(f));
    lemma_concatenated_add(a.map_values(f) + one.map_values(f), b.map_values(f));
    lemma_concatenated_add(a.map_values(f), one.map_values(f));
    assert(one.map_values(f).drop_last() =~= Seq::<Seq<SpanModel>>::empty());
    assert(concatenated(one.map_values(f).drop_last()) == Seq::<SpanModel>::empty());
    assert(concatenated(one.map_values(f)) =~= styled_lines(line));
}

/// The footer and the frames tell which panel is active and whether the logs scroll
/// by themselves.
pub proof fn law_what_is_active_is_shown(m: TuiModel, now: Elapsed, height: int)
    ensures
        ({
            let screen = screen_of(m, now, height);
            &&& screen.stages_active <==> m.active_panel == ActivePanel::StagesList
            &&& screen.logs_active <==> m.active_panel == ActivePanel::LogsBlock
            &&& screen.footer.len() == 5
            &&& screen.footer[1].0 == if m.active_panel == ActivePanel::StagesList {
                "STAGES"@
            } else {
                "LOGS"@
            }
            &&& screen.footer[3].0 == if m.auto_scroll {
                "ON"@
            } else {
                "OFF"@
            }
        }),
{
}

/// A panel without room shows no logs.
pub proof fn law_no_room_no_logs(m: TuiModel, now: Elapsed, height: int)
    requires
        height <= 2,
    ensures
        screen_of(m, now, height).log_lines.len() == 0,
{
}

/// What is known of a screen is all of it.
pub proof fn law_model_of_a_screen(screen: Screen, i: int, k: int)
    ensures
        screen@.stages_active == screen.stages_active,
        screen@.logs_active == screen.logs_active,
        screen@.logs_title == screen.logs_title@,
        screen@.header.len() == screen.header@.len(),
        screen@.log_lines.len() == screen.log_lines@.len(),
        screen@.footer.len() == screen.footer@.len(),
        screen@.items.len() == screen.items@.len(),
        0 <= i < screen.header@.len() ==> screen@.header[i] == (
            screen.header@[i].text@,
            screen.header@[i].paint,
        ),
        0 <= i < screen.log_lines@.len() ==> screen@.log_lines[i] == (
            screen.log_lines@[i].text@,
            screen.log_lines@[i].paint,
        ),
        0 <= i < screen.footer@.len() ==> screen@.footer[i] == (
            screen.footer@[i].text@,
            screen.footer@[i].paint,
        ),
        0 <= i < screen.items@.len() ==> {
            &&& screen@.items[i].selected == screen.items@[i].selected
            &&& screen@.items[i].spans.len() == screen.items@[i].spans@.len()
            &&& 0 <= k < screen.items@[i].spans@.len() ==> screen@.items[i].spans[k] == (
                screen.items@[i].spans@[k].text@,
                screen.items@[i].spans@[k].paint,
            )
        },
{
}

} // verus!
