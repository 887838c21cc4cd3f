//! Reports on pipeline results: the human summary and JUnit XML.
//!
//! Each report is appended to a text; where that text goes is the caller's
//! business.

use crate::clock::{seconds_text, Elapsed};
use crate::numbers::{decimal, number_text};
use crate::result::{
    failure_text, status_symbol, ExecutionStatus, FailureReason, PipelineResult, StageResult,
    StepResult,
};
use crate::scan::concatenated;
use crate::text::{first_line, flattened, headline, line_one, push_repeated, repeated};
use vstd::prelude::*;
use vstd::string::*;
use vstd::utf8::encode_utf8;

verus! {

// ---------------------------------------------------------------------------
// Human summary
// ---------------------------------------------------------------------------
/// The length of a text in bytes.
pub open spec fn byte_len(s: Seq<char>) -> usize {
    encode_utf8(s).len() as usize
}

/// The width of the name column: the longest stage name in bytes, and at least
/// five.
pub open spec fn name_width(stages: Seq<StageResult>) -> int
    decreases stages.len(),
{
    if stages.len() == 0 {
        5
    } else {
        let before = name_width(stages.drop_last());
        let here = byte_len(stages.last().name@) as int;
        if here > before {
            here
        } else {
            before
        }
    }
}

/// `s` with blanks behind it until it is at least `width` characters long.
pub open spec fn padded(s: Seq<char>, width: int) -> Seq<char> {
    s + repeated(' ', width - s.len())
}

/// The duration column of a stage.
pub open spec fn duration_column(duration: Option<Elapsed>) -> Seq<char> {
    match duration {
        Some(d) => d.text(1) + "s"@,
        None => "skipped"@,
    }
}

/// The line of the summary about one stage.
pub open spec fn summary_line(stage: StageResult, width: int) -> Seq<char> {
    padded(stage.name@, width) + "  "@ + status_symbol(stage.status) + "  "@ + duration_column(
        stage.duration_secs,
    ) + "\n"@
}

/// The lines of the summary about the stages.
pub open spec fn summary_lines(stages: Seq<StageResult>, width: int) -> Seq<char>
    decreases stages.len(),
{
    if stages.len() == 0 {
        Seq::empty()
    } else {
        summary_lines(stages.drop_last(), width) + summary_line(stages.last(), width)
    }
}

/// The rule above and below the summary.
pub open spec fn separator() -> Seq<char> {
    repeated('─', 44)
}

/// The line about the failure, if there is one.
pub open spec fn failure_line(failure: Option<FailureReason>) -> Seq<char> {
    match failure {
        Some(reason) => "Failed: "@ + failure_text(reason) + "\n"@,
        None => Seq::empty(),
    }
}

/// The summary of a run for people to read.
pub open spec fn human_summary(result: PipelineResult) -> Seq<char> {
    let status = if result.status == ExecutionStatus::Success {
        "SUCCESS"@
    } else {
        "FAILED"@
    };
    "\n"@ + separator() + "\nFORGE PIPELINE SUMMARY\n"@ + separator() + "\n"@ + summary_lines(
        result.stages@,
        name_width(result.stages@),
    ) + "\nTotal: "@ + result.duration_secs.text(1) + "s   Status: "@ + status + "\n"@
        + failure_line(result.failure) + separator() + "\n"@
}

/// The width of the name column.
fn column_width(stages: &[StageResult]) -> (r: usize)
    ensures
        r == name_width(stages@),
{
    let mut width: usize = 5;
    let mut i: usize = 0;
    while i < stages.len()
        invariant
            i <= stages@.len(),
            width == name_width(stages@.take(i as int)),
        decreases stages@.len() - i,
    {
        assert(stages@.take(i + 1).drop_last() =~= stages@.take(i as int));
        let here: usize = stages[i].name.as_str().len();
        if here > width {
            width = here;
        }
        i += 1;
    }
    assert(stages@.take(i as int) =~= stages@);
    width
}

/// `s` with blanks behind it until it is at least `width` characters long.
fn pad(s: &str, width: usize) -> (r: String)
    ensures
        r@ == padded(s@, width as int),
{
    let n: usize = s.unicode_len();
    let mut r = s.to_string();
    if n < width {
        push_repeated(&mut r, ' ', width - n);
    } else {
        assert(r@ =~= padded(s@, width as int));
    }
    r
}

/// The line of the summary about one stage.
fn stage_line(stage: &StageResult, width: usize) -> (r: String)
    ensures
        r@ == summary_line(*stage, width as int),
{
    let duration = match &stage.duration_secs {
        Some(d) => d.seconds(1).concat("s"),
        None => "skipped".to_string(),
    };
    pad(stage.name.as_str(), width).concat("  ").concat(stage.status.symbol()).concat("  ").concat(
        duration.as_str(),
    ).concat("\n")
}

/// Appends the summary of a run for people to read.
pub fn write_human_summary(result: &PipelineResult, out: &mut String)
    ensures
        final(out)@ == old(out)@ + human_summary(*result),
{
    let width: usize = column_width(result.stages.as_slice());
    let mut lines = String::new();
    let mut i: usize = 0;
    while i < result.stages.len()
        invariant
            i <= result.stages@.len(),
            lines@ == summary_lines(result.stages@.take(i as int), width as int),
        decreases result.stages@.len() - i,
    {
        assert(result.stages@.take(i + 1).drop_last() =~= result.stages@.take(i as int));
        lines.append(stage_line(&result.stages[i], width).as_str());
        i += 1;
    }
    assert(result.stages@.take(i as int) =~= result.stages@);
    let mut rule = String::new();
    push_repeated(&mut rule, '─', 44);
    assert(rule@ =~= separator());
    let status = if result.is_success() {
        "SUCCESS"
    } else {
        "FAILED"
    };
    let failure = match &result.failure {
        Some(reason) => "Failed: ".to_string().concat(reason.short_description().as_str()).concat(
            "\n",
        ),
        None => String::new(),
    };
    let text = "\n".to_string().concat(rule.as_str()).concat(
        "\nFORGE PIPELINE SUMMARY\n",
    ).concat(rule.as_str()).concat("\n").concat(lines.as_str()).concat("\nTotal: ").concat(
        result.duration_secs.seconds(1).as_str(),
    ).concat("s   Status: ").concat(status).concat("\n").concat(failure.as_str()).concat(
        rule.as_str(),
    ).concat("\n");
    out.append(text.as_str());
}

// ---------------------------------------------------------------------------
// JUnit XML
// ---------------------------------------------------------------------------
/// A character as it is written inside XML.
pub open spec fn escaped_char(c: char) -> Seq<char> {
    if c == '&' {
        "&amp;"@
    } else if c == '<' {
        "&lt;"@
    } else if c == '>' {
        "&gt;"@
    } else if c == '"' {
        "&quot;"@
    } else if c == '\'' {
        "&apos;"@
    } else {
        seq![c]
    }
}

/// A text as it is written inside XML.
pub open spec fn escaped(s: Seq<char>) -> Seq<char>
    decreases s.len(),
{
    if s.len() == 0 {
        Seq::empty()
    } else {
        escaped(s.drop_last()) + escaped_char(s.last())
    }
}

/// `s` as it is written inside XML.
pub fn xml_escape(s: &str) -> (r: String)
    ensures
        r@ == escaped(s@),
{
    let mut out = String::new();
    for c in it: s.chars()
        invariant
            out@ == escaped(it.seq().take(it.index() as int)),
            it.seq() == s@,
    {
        assert(it.seq().take(it.index() as int + 1).drop_last() =~= it.seq().take(
            it.index() as int,
        ));
        if c == '&' {
            out.append("&amp;");
        } else if c == '<' {
            out.append("&lt;");
        } else if c == '>' {
            out.append("&gt;");
        } else if c == '"' {
            out.append("&quot;");
        } else if c == '\'' {
            out.append("&apos;");
        } else {
            let ghost before = out@;
            out.push(c);
            assert(out@ =~= before + seq![c]);
        }
    }
    assert(s@.take(s@.len() as int) =~= s@);
    out
}

/// The number of steps with this status.
pub open spec fn count_status(steps: Seq<StepResult>, status: ExecutionStatus) -> nat
    decreases steps.len(),
{
    if steps.len() == 0 {
        0
    } else {
        count_status(steps.drop_last(), status) + if steps.last().status == status {
            1nat
        } else {
            0nat
        }
    }
}

/// The number of steps in all stages.
pub open spec fn total_steps(stages: Seq<StageResult>) -> nat
    decreases stages.len(),
{
    if stages.len() == 0 {
        0
    } else {
        total_steps(stages.drop_last()) + stages.last().steps@.len()
    }
}

/// The number of steps with this status in all stages.
pub open spec fn total_status(stages: Seq<StageResult>, status: ExecutionStatus) -> nat
    decreases stages.len(),
{
    if stages.len() == 0 {
        0
    } else {
        total_status(stages.drop_last(), status) + count_status(stages.last().steps@, status)
    }
}

/// The attributes that count tests: all, failed and skipped, with the time.
pub open spec fn counts(tests: nat, failures: nat, skipped: nat, time: Seq<char>) -> Seq<char> {
    "\" tests=\""@ + decimal(tests) + "\" failures=\""@ + decimal(failures) + "\" skipped=\""@
        + decimal(skipped) + "\" time=\""@ + time + "\">\n"@
}

/// A duration that may be missing, in seconds with three digits.
pub open spec fn time_attribute(duration: Option<Elapsed>) -> Seq<char> {
    match duration {
        Some(d) => d.text(3),
        None => seconds_text(0, 0, 3),
    }
}

/// The message of a failed step: the first line of its error.
pub open spec fn failure_message(error: Option<String>) -> Seq<char> {
    match error {
        Some(e) => match first_line(e@) {
            Some(line) => line,
            None => "Step failed"@,
        },
        None => "Step failed"@,
    }
}

/// The element for one step.
pub open spec fn testcase(stage: StageResult, step: StepResult) -> Seq<char> {
    let head = "    <testcase name=\""@ + escaped(step.name@) + "\" classname=\""@ + escaped(
        stage.name@,
    ) + "\" time=\""@ + time_attribute(step.duration_secs);
    match step.status {
        ExecutionStatus::Success => head + "\"/>\n"@,
        ExecutionStatus::Failed => head + "\">\n      <failure message=\""@ + escaped(
            failure_message(step.error),
        ) + "\"/>\n    </testcase>\n"@,
        _ => head + "\">\n      <skipped/>\n    </testcase>\n"@,
    }
}

/// The elements for the steps of a stage.
pub open spec fn testcases(stage: StageResult, steps: Seq<StepResult>) -> Seq<char>
    decreases steps.len(),
{
    if steps.len() == 0 {
        Seq::empty()
    } else {
        testcases(stage, steps.drop_last()) + testcase(stage, steps.last())
    }
}

/// The element for one stage.
pub open spec fn testsuite(stage: StageResult) -> Seq<char> {
    "  <testsuite name=\""@ + escaped(stage.name@) + counts(
        stage.steps@.len(),
        count_status(stage.steps@, ExecutionStatus::Failed),
        count_status(stage.steps@, ExecutionStatus::Skipped),
        time_attribute(stage.duration_secs),
    ) + testcases(stage, stage.steps@) + "  </testsuite>\n"@
}

/// The elements for the stages.
pub open spec fn testsuites(stages: Seq<StageResult>) -> Seq<char>
    decreases stages.len(),
{
    if stages.len() == 0 {
        Seq::empty()
    } else {
        testsuites(stages.drop_last()) + testsuite(stages.last())
    }
}

/// The report of a run as JUnit XML.
pub open spec fn junit_report(result: PipelineResult) -> Seq<char> {
    "<?xml version=\"1.0\" encoding=\"UTF-8\"?>\n<testsuites name=\"forge"@ + counts(
        total_steps(result.stages@),
        total_status(result.stages@, ExecutionStatus::Failed),
        total_status(result.stages@, ExecutionStatus::Skipped),
        result.duration_secs.text(3),
    ) + testsuites(result.stages@) + "</testsuites>\n"@
}

/// The number of steps with this status.
fn count_steps(steps: &[StepResult], status: ExecutionStatus) -> (r: usize)
    ensures
        r == count_status(steps@, status),
        r <= steps@.len(),
{
    let total: usize = steps.len();
    let mut n: usize = 0;
    let mut i: usize = 0;
    while i < total
        invariant
            i <= total,
            total == steps@.len(),
            n <= i,
            n == count_status(steps@.take(i as int), status),
        decreases total - i,
    {
        assert(steps@.take(i + 1).drop_last() =~= steps@.take(i as int));
        if steps[i].status == status {
            n += 1;
        }
        i += 1;
    }
    assert(steps@.take(i as int) =~= steps@);
    n
}

/// The attributes that count tests.
fn count_attributes(tests: u128, failures: u128, skipped: u128, time: &str) -> (r: String)
    ensures
        r@ == counts(tests as nat, failures as nat, skipped as nat, time@),
{
    "\" tests=\"".to_string().concat(number_text(tests).as_str()).concat("\" failures=\"").concat(
        number_text(failures).as_str(),
    ).concat("\" skipped=\"").concat(number_text(skipped).as_str()).concat("\" time=\"").concat(
        time,
    ).concat("\">\n")
}

/// A duration that may be missing, in seconds with three digits.
fn time_text(duration: &Option<Elapsed>) -> (r: String)
    ensures
        r@ == time_attribute(*duration),
{
    match duration {
        Some(d) => d.seconds(3),
        None => Elapsed::zero().seconds(3),
    }
}

/// The element for one step.
fn testcase_text(stage: &StageResult, step: &StepResult) -> (r: String)
    ensures
        r@ == testcase(*stage, *step),
{
    let head = "    <testcase name=\"".to_string().concat(
        xml_escape(step.name.as_str()).as_str(),
    ).concat("\" classname=\"").concat(xml_escape(stage.name.as_str()).as_str()).concat(
        "\" time=\"",
    ).concat(time_text(&step.duration_secs).as_str());
    match step.status {
        ExecutionStatus::Success => head.concat("\"/>\n"),
        ExecutionStatus::Failed => {
            let message = match &step.error {
                Some(e) => match line_one(e.as_str()) {
                    Some(line) => line,
                    None => "Step failed".to_string(),
                },
                None => "Step failed".to_string(),
            };
            head.concat("\">\n      <failure message=\"").concat(
                xml_escape(message.as_str()).as_str(),
            ).concat("\"/>\n    </testcase>\n")
        },
        _ => head.concat("\">\n      <skipped/>\n    </testcase>\n"),
    }
}

/// The element for one stage.
fn testsuite_text(stage: &StageResult) -> (r: String)
    ensures
        r@ == testsuite(*stage),
{
    let failures: usize = count_steps(stage.steps.as_slice(), ExecutionStatus::Failed);
    let skipped: usize = count_steps(stage.steps.as_slice(), ExecutionStatus::Skipped);
    let mut cases = String::new();
    let mut i: usize = 0;
    while i < stage.steps.len()
        invariant
            i <= stage.steps@.len(),
            cases@ == testcases(*stage, stage.steps@.take(i as int)),
        decreases stage.steps@.len() - i,
    {
        assert(stage.steps@.take(i + 1).drop_last() =~= stage.steps@.take(i as int));
        cases.append(testcase_text(stage, &stage.steps[i]).as_str());
        i += 1;
    }
    assert(stage.steps@.take(i as int) =~= stage.steps@);
    "  <testsuite name=\"".to_string().concat(xml_escape(stage.name.as_str()).as_str()).concat(
        count_attributes(
            stage.steps.len() as u128,
            failures as u128,
            skipped as u128,
            time_text(&stage.duration_secs).as_str(),
        ).as_str(),
    ).concat(cases.as_str()).concat("  </testsuite>\n")
}

/// Appends the report of a run as JUnit XML.
pub fn write_junit(result: &PipelineResult, out: &mut String)
    ensures
        final(out)@ == old(out)@ + junit_report(*result),
{
    let stages = &result.stages;
    let n: usize = stages.len();
    let mut tests: u128 = 0;
    let mut failures: u128 = 0;
    let mut skipped: u128 = 0;
    let mut suites = String::new();
    let mut i: usize = 0;
    while i < n
        invariant
            i <= n,
            n == stages@.len(),
            tests <= i * usize::MAX,
            failures <= tests,
            skipped <= tests,
            tests == total_steps(stages@.take(i as int)),
            failures == total_status(stages@.take(i as int), ExecutionStatus::Failed),
            skipped == total_status(stages@.take(i as int), ExecutionStatus::Skipped),
            suites@ == testsuites(stages@.take(i as int)),
        decreases n - i,
    {
        assert(stages@.take(i + 1).drop_last() =~= stages@.take(i as int));
        let stage = &stages[i];
        let here: usize = stage.steps.len();
        let failed: usize = count_steps(stage.steps.as_slice(), ExecutionStatus::Failed);
        let passed_over: usize = count_steps(stage.steps.as_slice(), ExecutionStatus::Skipped);
        assert(i * usize::MAX + here <= (i + 1) * usize::MAX) by (nonlinear_arith)
            requires
                here <= usize::MAX,
        ;
        assert((i + 1) * usize::MAX <= u128::MAX) by (nonlinear_arith)
            requires
                i + 1 <= usize::MAX,
        ;
        tests = tests + here as u128;
        failures = failures + failed as u128;
        skipped = skipped + passed_over as u128;
        suites.append(testsuite_text(stage).as_str());
        i += 1;
    }
    assert(stages@.take(i as int) =~= stages@);
    let text =
        "<?xml version=\"1.0\" encoding=\"UTF-8\"?>\n<testsuites name=\"forge".to_string().concat(
        count_attributes(tests, failures, skipped, result.duration_secs.seconds(3).as_str()).as_str(),
    ).concat(suites.as_str()).concat("</testsuites>\n");
    out.append(text.as_str());
}

// ---------------------------------------------------------------------------
// Laws
// ---------------------------------------------------------------------------
/// What each special character is written as.
proof fn lemma_entities()
    ensures
        "&amp;"@ == seq!['&', 'a', 'm', 'p', ';'],
        "&lt;"@ == seq!['&', 'l', 't', ';'],
        "&gt;"@ == seq!['&', 'g', 't', ';'],
        "&quot;"@ == seq!['&', 'q', 'u', 'o', 't', ';'],
        "&apos;"@ == seq!['&', 'a', 'p', 'o', 's', ';'],
{
    reveal_strlit("&amp;");
    reveal_strlit("&lt;");
    reveal_strlit("&gt;");
    reveal_strlit("&quot;");
    reveal_strlit("&apos;");
    assert("&amp;"@ =~= seq!['&', 'a', 'm', 'p', ';']);
    assert("&lt;"@ =~= seq!['&', 'l', 't', ';']);
    assert("&gt;"@ =~= seq!['&', 'g', 't', ';']);
    assert("&quot;"@ =~= seq!['&', 'q', 'u', 'o', 't', ';']);
    assert("&apos;"@ =~= seq!['&', 'a', 'p', 'o', 's', ';']);
}

/// An escaped text holds no character that XML could take for markup or for the
/// end of an attribute.
pub proof fn law_escaped_text_is_inert(s: Seq<char>, i: int)
    requires
        0 <= i < escaped(s).len(),
    ensures
        escaped(s)[i] != '<',
        escaped(s)[i] != '>',
        escaped(s)[i] != '"',
        escaped(s)[i] != '\'',
    decreases s.len(),
{
    lemma_entities();
    if s.len() > 0 {
        let before = escaped(s.drop_last());
        if i < before.len() {
            law_escaped_text_is_inert(s.drop_last(), i);
        } else {
            assert(escaped(s)[i] == escaped_char(s.last())[i - before.len()]);
        }
    }
}

/// Escaping can be taken up from the front.
proof fn lemma_escaped_front(s: Seq<char>)
    requires
        s.len() > 0,
    ensures
        escaped(s) == escaped_char(s[0]) + escaped(s.drop_first()),
    decreases s.len(),
{
    if s.len() == 1 {
        assert(s.drop_last() =~= Seq::<char>::empty());
        assert(s.drop_first() =~= Seq::<char>::empty());
        assert(escaped(s) =~= escaped_char(s[0]) + escaped(s.drop_first()));
    } else {
        lemma_escaped_front(s.drop_last());
        assert(s.drop_last().drop_first() =~= s.drop_first().drop_last());
        assert(escaped(s) =~= escaped_char(s[0]) + escaped(s.drop_first()));
    }
}

/// Escaping loses nothing: different texts are written differently.
pub proof fn law_escaping_loses_nothing(a: Seq<char>, b: Seq<char>)
    requires
        escaped(a) == escaped(b),
    ensures
        a == b,
    decreases a.len(),
{
    lemma_entities();
    if a.len() == 0 || b.len() == 0 {
        if a.len() > 0 {
            lemma_escaped_front(a);
            assert(escaped(a).len() > 0);
        }
        if b.len() > 0 {
            lemma_escaped_front(b);
            assert(escaped(b).len() > 0);
        }
        assert(a =~= b);
    } else {
        lemma_escaped_front(a);
        lemma_escaped_front(b);
        let (x, y) = (escaped_char(a[0]), escaped_char(b[0]));
        let (ra, rb) = (escaped(a.drop_first()), escaped(b.drop_first()));
        let whole = escaped(a);
        assert(whole[0] == x[0] && whole[0] == y[0]);
        if x[0] == '&' {
            assert(whole[1] == x[1] && whole[1] == y[1]);
            assert(whole[2] == x[2] && whole[2] == y[2]);
        }
        assert(a[0] == b[0]);
        assert(ra =~= whole.skip(x.len() as int));
        assert(rb =~= whole.skip(y.len() as int));
        law_escaping_loses_nothing(a.drop_first(), b.drop_first());
        assert(a =~= seq![a[0]] + a.drop_first());
        assert(b =~= seq![b[0]] + b.drop_first());
    }
}

/// The steps of all stages, in order.
pub open spec fn steps_of(stages: Seq<StageResult>) -> Seq<StepResult> {
    concatenated(stages.map_values(|s: StageResult| s.steps@))
}

/// The steps that ended with this status.
pub open spec fn steps_that(steps: Seq<StepResult>, status: ExecutionStatus) -> Seq<StepResult> {
    steps.filter(|s: StepResult| s.status == status)
}

/// Counting steps is taking the number of those that ended so.
proof fn lemma_count_status(steps: Seq<StepResult>, status: ExecutionStatus)
    ensures
        count_status(steps, status) == steps_that(steps, status).len(),
    decreases steps.len(),
{
    reveal(Seq::filter);
    if steps.len() > 0 {
        lemma_count_status(steps.drop_last(), status);
    }
}

/// Counting the steps of all stages is counting the steps.
proof fn lemma_totals(stages: Seq<StageResult>, status: ExecutionStatus)
    ensures
        total_steps(stages) == steps_of(stages).len(),
        total_status(stages, status) == steps_that(steps_of(stages), status).len(),
    decreases stages.len(),
{
    let wanted = |s: StepResult| s.status == status;
    let parts = stages.map_values(|s: StageResult| s.steps@);
    if stages.len() == 0 {
        reveal(Seq::filter);
        assert(steps_of(stages) =~= Seq::<StepResult>::empty());
    } else {
        let before = stages.drop_last();
        lemma_totals(before, status);
        assert(parts.drop_last() =~= before.map_values(|s: StageResult| s.steps@));
        assert(steps_of(stages) == steps_of(before) + stages.last().steps@);
        Seq::filter_distributes_over_add(steps_of(before), stages.last().steps@, wanted);
        lemma_count_status(stages.last().steps@, status);
    }
}

/// What the elements of all stages add up to.
proof fn lemma_testsuites(stages: Seq<StageResult>)
    ensures
        testsuites(stages) == flattened(stages.map_values(|s: StageResult| testsuite(s))),
    decreases stages.len(),
{
    if stages.len() > 0 {
        lemma_testsuites(stages.drop_last());
        let parts = stages.map_values(|s: StageResult| testsuite(s));
        assert(parts.drop_last() =~= stages.drop_last().map_values(|s: StageResult| testsuite(s)));
    }
}

/// What the elements of all steps add up to.
proof fn lemma_testcases(stage: StageResult, steps: Seq<StepResult>)
    ensures
        testcases(stage, steps) == flattened(steps.map_values(|s: StepResult| testcase(stage, s))),
    decreases steps.len(),
{
    if steps.len() > 0 {
        lemma_testcases(stage, steps.drop_last());
        let parts = steps.map_values(|s: StepResult| testcase(stage, s));
        assert(parts.drop_last() =~= steps.drop_last().map_values(
            |s: StepResult| testcase(stage, s),
        ));
    }
}

/// The JUnit report tells how many steps there were, how many failed and how many
/// were skipped, in the whole and in each stage, and has one element for each
/// stage and in it one for each step, in order.
#[verifier::spinoff_prover]
pub proof fn law_junit_tells_what_failed(result: PipelineResult) -> (r: (
    Seq<Seq<char>>,
    Seq<Seq<Seq<char>>>,
))
    ensures
        ({
            let stages = result.stages@;
            let steps = steps_of(stages);
            let suites = r.0;
            let cases = r.1;
            &&& suites.len() == stages.len()
            &&& cases.len() == stages.len()
            &&& junit_report(result)
                == "<?xml version=\"1.0\" encoding=\"UTF-8\"?>\n<testsuites name=\"forge"@ + (
            "\" tests=\""@ + decimal(steps.len()) + "\" failures=\""@ + decimal(
                steps_that(steps, ExecutionStatus::Failed).len(),
            ) + "\" skipped=\""@ + decimal(steps_that(steps, ExecutionStatus::Skipped).len())
                + "\" time=\""@ + result.duration_secs.text(3) + "\">\n"@) + flattened(suites)
                + "</testsuites>\n"@
            &&& forall|i: int|
                #![trigger suites[i]]
                #![trigger cases[i]]
                0 <= i < stages.len() ==> {
                    let here = stages[i].steps@;
                    &&& cases[i].len() == here.len()
                    &&& suites[i] == "  <testsuite name=\""@ + escaped(stages[i].name@) + (
                    "\" tests=\""@ + decimal(here.len()) + "\" failures=\""@ + decimal(
                        steps_that(here, ExecutionStatus::Failed).len(),
                    ) + "\" skipped=\""@ + decimal(
                        steps_that(here, ExecutionStatus::Skipped).len(),
                    ) + "\" time=\""@ + time_attribute(stages[i].duration_secs) + "\">\n"@)
                        + flattened(cases[i]) + "  </testsuite>\n"@
                }
            &&& forall|i: int, j: int|
                #![trigger cases[i][j]]
                0 <= i < stages.len() && 0 <= j < stages[i].steps@.len() ==> is_element_of(
                    cases[i][j],
                    stages[i].name@,
                    stages[i].steps@[j],
                )
        }),
{
    let stages = result.stages@;
    let suites = stages.map_values(|s: StageResult| testsuite(s));
    let cases = stages.map_values(
        |s: StageResult| s.steps@.map_values(|t: StepResult| testcase(s, t)),
    );
    lemma_totals(stages, ExecutionStatus::Failed);
    lemma_totals(stages, ExecutionStatus::Skipped);
    lemma_testsuites(stages);
    assert forall|i: int| 0 <= i < stages.len() implies {
        let here = stages[i].steps@;
        &&& cases[i].len() == here.len()
        &&& #[trigger] suites[i] == "  <testsuite name=\""@ + escaped(stages[i].name@) + (
        "\" tests=\""@ + decimal(here.len()) + "\" failures=\""@ + decimal(
            steps_that(here, ExecutionStatus::Failed).len(),
        ) + "\" skipped=\""@ + decimal(steps_that(here, ExecutionStatus::Skipped).len())
            + "\" time=\""@ + time_attribute(stages[i].duration_secs) + "\">\n"@) + flattened(
            cases[i],
        ) + "  </testsuite>\n"@
    } by {
        let here = stages[i].steps@;
        lemma_count_status(here, ExecutionStatus::Failed);
        lemma_count_status(here, ExecutionStatus::Skipped);
        lemma_testcases(stages[i], here);
        assert(suites[i] == testsuite(stages[i]));
    }
    assert forall|i: int, j: int|
        0 <= i < stages.len() && 0 <= j < stages[i].steps@.len() implies is_element_of(
        #[trigger] cases[i][j],
        stages[i].name@,
        stages[i].steps@[j],
    ) by {
        let step = stages[i].steps@[j];
        assert(cases[i][j] == testcase(stages[i], step));
        let head = "    <testcase name=\""@ + escaped(step.name@) + "\" classname=\""@ + escaped(
            stages[i].name@,
        ) + "\" time=\""@ + time_attribute(step.duration_secs);
        assert(cases[i][j] == head + case_end(step));
    }
    (suites, cases)
}

/// How the element of a step ends: with a failure that tells the first line of
/// the error if the step failed, at once if it succeeded, and as skipped otherwise.
pub open spec fn case_end(step: StepResult) -> Seq<char> {
    match step.status {
        ExecutionStatus::Success => "\"/>\n"@,
        ExecutionStatus::Failed => "\">\n      <failure message=\""@ + escaped(
            match step.error {
                Some(e) => if e@.len() > 0 {
                    headline(e@)
                } else {
                    "Step failed"@
                },
                None => "Step failed"@,
            },
        ) + "\"/>\n    </testcase>\n"@,
        _ => "\">\n      <skipped/>\n    </testcase>\n"@,
    }
}

/// Whether a text is the element of a step: it names the step, its stage and the
/// time, and ends as the step did.
pub open spec fn is_element_of(text: Seq<char>, stage: Seq<char>, step: StepResult) -> bool {
    text == "    <testcase name=\""@ + escaped(step.name@) + "\" classname=\""@ + escaped(stage)
        + "\" time=\""@ + time_attribute(step.duration_secs) + case_end(step)
}

/// What is written of the time is the duration if there is one, and none otherwise.
pub proof fn law_time_in_the_report(duration: Option<Elapsed>)
    ensures
        duration matches Some(d) ==> time_attribute(duration) == d.text(3),
        duration is None ==> time_attribute(duration) == seconds_text(0, 0, 3),
{
}

/// Escaping goes character by character: the five special ones become entities,
/// and every other one stays.
pub proof fn law_escaping(a: Seq<char>, b: Seq<char>, c: char)
    ensures
        escaped(a + b) == escaped(a) + escaped(b),
        escaped(seq!['&']) == "&amp;"@,
        escaped(seq!['<']) == "&lt;"@,
        escaped(seq!['>']) == "&gt;"@,
        escaped(seq!['"']) == "&quot;"@,
        escaped(seq!['\'']) == "&apos;"@,
        c != '&' && c != '<' && c != '>' && c != '"' && c != '\'' ==> escaped(seq![c]) == seq![c],
    decreases b.len(),
{
    lemma_escaped_one('&');
    lemma_escaped_one('<');
    lemma_escaped_one('>');
    lemma_escaped_one('"');
    lemma_escaped_one('\'');
    lemma_escaped_one(c);
    if b.len() == 0 {
        assert(a + b =~= a);
        assert(escaped(a + b) =~= escaped(a) + escaped(b));
    } else {
        law_escaping(a, b.drop_last(), c);
        assert((a + b).drop_last() =~= a + b.drop_last());
        assert(escaped(a + b) =~= escaped(a) + escaped(b));
    }
}

/// One character is escaped as such.
proof fn lemma_escaped_one(c: char)
    ensures
        escaped(seq![c]) == escaped_char(c),
{
    assert(seq![c].drop_last() =~= Seq::<char>::empty());
    assert(escaped(Seq::<char>::empty()) == Seq::<char>::empty());
    assert(escaped(seq![c]) =~= escaped_char(c));
}

/// The lines of the summary add up.
proof fn lemma_summary_lines(stages: Seq<StageResult>, width: int)
    ensures
        summary_lines(stages, width) == flattened(
            stages.map_values(|s: StageResult| summary_line(s, width)),
        ),
    decreases stages.len(),
{
    if stages.len() > 0 {
        lemma_summary_lines(stages.drop_last(), width);
        let parts = stages.map_values(|s: StageResult| summary_line(s, width));
        assert(parts.drop_last() =~= stages.drop_last().map_values(
            |s: StageResult| summary_line(s, width),
        ));
    }
}

/// The width of the name column is that of the longest name, and at least five.
proof fn lemma_name_width(stages: Seq<StageResult>)
    ensures
        name_width(stages) >= 5,
        forall|i: int|
            0 <= i < stages.len() ==> byte_len((#[trigger] stages[i]).name@) <= name_width(stages),
        name_width(stages) == 5 || exists|i: int|
            0 <= i < stages.len() && name_width(stages) == byte_len((#[trigger] stages[i]).name@),
    decreases stages.len(),
{
    if stages.len() > 0 {
        let before = stages.drop_last();
        lemma_name_width(before);
        assert forall|i: int| 0 <= i < stages.len() implies byte_len((#[trigger] stages[i]).name@)
            <= name_width(stages) by {
            if i < before.len() {
                assert(before[i] == stages[i]);
            }
        }
        if name_width(stages) != 5 {
            if name_width(before) == name_width(stages) {
                let i = choose|i: int|
                    0 <= i < before.len() && name_width(before) == byte_len(
                        (#[trigger] before[i]).name@,
                    );
                assert(stages[i] == before[i]);
            } else {
                assert(name_width(stages) == byte_len(stages[stages.len() - 1].name@));
            }
        }
    }
}

/// The summary has one line for each stage, in order: its name, blanks up to the
/// width of the widest name, the symbol of its status and its duration or that it
/// was skipped. Then it tells the whole time, whether the run succeeded, and the
/// failure if there is one.
#[verifier::spinoff_prover]
pub proof fn law_summary_tells_every_stage(result: PipelineResult) -> (r: (Seq<Seq<char>>, int))
    ensures
        ({
            let stages = result.stages@;
            let lines = r.0;
            let width = r.1;
            let rule = repeated('─', 44);
            &&& lines.len() == stages.len()
            &&& width >= 5
            &&& width == 5 || exists|i: int|
                0 <= i < stages.len() && width == byte_len((#[trigger] stages[i]).name@)
            &&& human_summary(result) == "\n"@ + rule + "\nFORGE PIPELINE SUMMARY\n"@ + rule
                + "\n"@ + flattened(lines) + "\nTotal: "@ + result.duration_secs.text(1)
                + "s   Status: "@ + (if result.status == ExecutionStatus::Success {
                "SUCCESS"@
            } else {
                "FAILED"@
            }) + "\n"@ + (match result.failure {
                Some(reason) => "Failed: "@ + failure_text(reason) + "\n"@,
                None => Seq::empty(),
            }) + rule + "\n"@
            &&& forall|i: int|
                #![trigger lines[i]]
                0 <= i < stages.len() ==> {
                    &&& byte_len(stages[i].name@) <= width
                    &&& lines[i] == stages[i].name@ + repeated(
                        ' ',
                        width - stages[i].name@.len(),
                    ) + "  "@ + status_symbol(stages[i].status) + "  "@ + (
                    match stages[i].duration_secs {
                        Some(d) => d.text(1) + "s"@,
                        None => "skipped"@,
                    }) + "\n"@
                }
        }),
{
    let stages = result.stages@;
    let width = name_width(stages);
    lemma_name_width(stages);
    lemma_summary_lines(stages, width);
    (stages.map_values(|s: StageResult| summary_line(s, width)), width)
}

/// The length of a name is taken in bytes.
pub proof fn law_length_of_a_name(name: Seq<char>)
    requires
        encode_utf8(name).len() <= usize::MAX,
    ensures
        byte_len(name) == encode_utf8(name).len(),
{
}

} // verus!
