//! Log output of containers, and timings.

use crate::clock::Elapsed;
use crate::paint::{
    chunk, err_text_line, lemma_prints_push, out_line, out_text_line, print_chunk, print_error,
    print_line, print_text, prints, span, spans, Paint, Print, PrintModel,
};
use crate::scan::{concatenated, lemma_concatenated_add, lemma_concatenated_step};
use vstd::prelude::*;
use vstd::string::*;
use vstd::utf8::*;

verus! {

// ---------------------------------------------------------------------------
// Log entries
// ---------------------------------------------------------------------------
/// A piece of a container's output.
#[derive(Debug, Clone)]
pub enum LogEntry {
    StdOut(String),
    StdErr(String),
    Error(String),
}

/// What a `LogEntry` holds.
pub enum LogModel {
    StdOut(Seq<char>),
    StdErr(Seq<char>),
    Error(Seq<char>),
}

impl View for LogEntry {
    type V = LogModel;

    open spec fn view(&self) -> LogModel {
        match self {
            LogEntry::StdOut(msg) => LogModel::StdOut(msg@),
            LogEntry::StdErr(msg) => LogModel::StdErr(msg@),
            LogEntry::Error(msg) => LogModel::Error(msg@),
        }
    }
}

/// What a list of entries holds.
pub open spec fn log_models(entries: Seq<LogEntry>) -> Seq<LogModel> {
    entries.map_values(|e: LogEntry| e@)
}

/// What the daemon's log stream delivers.
#[derive(Debug)]
pub enum LogEvent {
    StdOut(Vec<u8>),
    StdErr(Vec<u8>),
    /// Output of another kind, which is ignored.
    Other,
    /// The stream broke off.
    Failed(String),
}

/// The text that bytes hold, with what is not UTF-8 replaced.
pub uninterp spec fn lossy_text(bytes: Seq<u8>) -> Seq<char>;

/// `String::from_utf8_lossy`, as an owned text. The text is a function of the
/// bytes; where the bytes are UTF-8 it is the text that they encode. What
/// replaces other bytes is not stated.
#[verifier::external_body]
fn decode_lossy(bytes: &[u8]) -> (r: String)
    ensures
        r@ == lossy_text(bytes@),
        valid_utf8(bytes@) ==> r@ == decode_utf8(bytes@),
{
    String::from_utf8_lossy(bytes).into_owned()
}

/// The entry that a delivery makes, if it makes one.
pub open spec fn entry_of(event: LogEvent) -> Option<LogModel> {
    match event {
        LogEvent::StdOut(bytes) => Some(LogModel::StdOut(lossy_text(bytes@))),
        LogEvent::StdErr(bytes) => Some(LogModel::StdErr(lossy_text(bytes@))),
        LogEvent::Other => None,
        LogEvent::Failed(error) => Some(LogModel::Error("Error streaming logs: "@ + error@)),
    }
}

/// The entry that a delivery makes, if it makes one.
pub fn log_entry(event: LogEvent) -> (r: Option<LogEntry>)
    ensures
        r is Some <==> entry_of(event) is Some,
        r matches Some(entry) ==> entry@ == entry_of(event)->0,
{
    match event {
        LogEvent::StdOut(bytes) => Some(LogEntry::StdOut(decode_lossy(bytes.as_slice()))),
        LogEvent::StdErr(bytes) => Some(LogEntry::StdErr(decode_lossy(bytes.as_slice()))),
        LogEvent::Other => None,
        LogEvent::Failed(error) => Some(
            LogEntry::Error("Error streaming logs: ".to_string().concat(error.as_str())),
        ),
    }
}

/// Whether the stream goes on after a delivery.
pub fn stream_goes_on(event: &LogEvent) -> (r: bool)
    ensures
        r == !(event is Failed),
{
    match event {
        LogEvent::Failed(_) => false,
        _ => true,
    }
}

// ---------------------------------------------------------------------------
// Where the entries go
// ---------------------------------------------------------------------------
/// What is printed of an entry as it arrives.
pub open spec fn immediate_print(entry: LogModel) -> PrintModel {
    match entry {
        LogModel::StdOut(msg) => chunk(msg, Paint::Plain, false),
        LogModel::StdErr(msg) => chunk(msg, Paint::Red, true),
        LogModel::Error(msg) => err_text_line(msg, Paint::Plain),
    }
}

/// What is printed of a delivery as it arrives.
pub fn stream_logs_immediate(event: LogEvent) -> (r: Option<Print>)
    ensures
        r is Some <==> entry_of(event) is Some,
        r matches Some(p) ==> p@ == immediate_print(entry_of(event)->0),
{
    match log_entry(event) {
        Some(LogEntry::StdOut(msg)) => Some(print_chunk(msg, Paint::Plain, false)),
        Some(LogEntry::StdErr(msg)) => Some(print_chunk(msg, Paint::Red, true)),
        Some(LogEntry::Error(msg)) => Some(print_error(msg, Paint::Plain)),
        None => None,
    }
}

/// The text that a monitor is told of an entry, and whether it is an error.
pub open spec fn monitor_line(entry: LogModel) -> (Seq<char>, bool) {
    match entry {
        LogModel::StdOut(msg) => (msg, false),
        LogModel::StdErr(msg) => (msg, true),
        LogModel::Error(msg) => (msg, true),
    }
}

/// The text that a monitor is told of a delivery, and whether it is an error.
pub fn stream_logs_to_monitor(event: LogEvent) -> (r: Option<(String, bool)>)
    ensures
        r is Some <==> entry_of(event) is Some,
        r matches Some(line) ==> (line.0@, line.1) == monitor_line(entry_of(event)->0),
{
    match log_entry(event) {
        Some(LogEntry::StdOut(msg)) => Some((msg, false)),
        Some(LogEntry::StdErr(msg)) => Some((msg, true)),
        Some(LogEntry::Error(msg)) => Some((msg, true)),
        None => None,
    }
}

/// The logs of the steps of a parallel stage, each under the number of its step
/// once it is complete.
pub type LogBuffer = Vec<Option<(String, Vec<LogEntry>)>>;

/// Adds a delivery to the entries of a step.
pub fn stream_logs_buffered(entries: &mut Vec<LogEntry>, event: LogEvent)
    ensures
        log_models(final(entries)@) == match entry_of(event) {
            Some(entry) => log_models(old(entries)@).push(entry),
            None => log_models(old(entries)@),
        },
{
    let ghost before = entries@;
    if let Some(entry) = log_entry(event) {
        entries.push(entry);
        assert(log_models(entries@) =~= log_models(before).push(entry@));
    }
}

/// Stores the complete logs of step number `step_index`.
pub fn store_logs(
    buffer: &mut LogBuffer,
    step_index: usize,
    step_name: String,
    entries: Vec<LogEntry>,
)
    requires
        step_index < old(buffer)@.len(),
    ensures
        final(buffer)@ == old(buffer)@.update(step_index as int, Some((step_name, entries))),
{
    buffer.set(step_index, Some((step_name, entries)));
}

/// What is printed of an entry of complete logs.
pub open spec fn buffered_print(entry: LogModel) -> PrintModel {
    match entry {
        LogModel::StdOut(msg) => chunk(msg, Paint::Plain, false),
        LogModel::StdErr(msg) => chunk(msg, Paint::Red, true),
        LogModel::Error(msg) => err_text_line(msg, Paint::RedBold),
    }
}

/// The heading over the logs of a step.
pub open spec fn logs_heading(step_name: Seq<char>) -> PrintModel {
    out_line(
        seq![
            ("\n"@, Paint::Plain),
            ("=== Logs for step: "@ + step_name + " ==="@, Paint::CyanBold),
        ],
    )
}

/// The heading over the logs of a step.
pub fn print_logs_heading(step_name: &str) -> (r: Print)
    ensures
        r@ == logs_heading(step_name@),
{
    let list = vec![
        span("\n".to_string(), Paint::Plain),
        span(
            "=== Logs for step: ".to_string().concat(step_name).concat(" ==="),
            Paint::CyanBold,
        ),
    ];
    assert(spans(list@) =~= seq![
        ("\n"@, Paint::Plain),
        ("=== Logs for step: "@ + step_name@ + " ==="@, Paint::CyanBold),
    ]);
    print_line(list)
}

/// What is printed of one place of a log buffer: a heading and the entries, in
/// the order in which they arrived.
pub open spec fn step_logs(place: Option<(String, Vec<LogEntry>)>) -> Seq<PrintModel> {
    match place {
        Some((step_name, entries)) => seq![logs_heading(step_name@)] + log_models(
            entries@,
        ).map_values(|e: LogModel| buffered_print(e)),
        None => seq![],
    }
}

/// What is printed of a log buffer: the logs of the steps in the order of their
/// numbers.
pub open spec fn synchronized_logs(buffer: Seq<Option<(String, Vec<LogEntry>)>>) -> Seq<
    PrintModel,
> {
    concatenated(buffer.map_values(|p: Option<(String, Vec<LogEntry>)>| step_logs(p)))
}

/// Appends what is printed of the logs of one step.
fn print_step_logs(step_name: &str, entries: &Vec<LogEntry>, out: &mut Vec<Print>)
    ensures
        prints(final(out)@) == prints(old(out)@) + (seq![logs_heading(step_name@)] + log_models(
            entries@,
        ).map_values(|e: LogModel| buffered_print(e))),
{
    let ghost body = log_models(entries@).map_values(|e: LogModel| buffered_print(e));
    let ghost start = prints(out@).push(logs_heading(step_name@));
    let heading = print_logs_heading(step_name);
    proof {
        lemma_prints_push(out@, heading);
    }
    out.push(heading);
    let mut i: usize = 0;
    assert(start + body.take(0) =~= start);
    while i < entries.len()
        invariant
            i <= entries@.len(),
            body == log_models(entries@).map_values(|e: LogModel| buffered_print(e)),
            prints(out@) == start + body.take(i as int),
        decreases entries@.len() - i,
    {
        let p = match &entries[i] {
            LogEntry::StdOut(msg) => print_chunk(msg.clone(), Paint::Plain, false),
            LogEntry::StdErr(msg) => print_chunk(msg.clone(), Paint::Red, true),
            LogEntry::Error(msg) => print_error(msg.clone(), Paint::RedBold),
        };
        proof {
            assert(log_models(entries@)[i as int] == entries@[i as int]@);
            assert(p@ == body[i as int]);
            lemma_prints_push(out@, p);
            assert(start + body.take(i + 1) =~= (start + body.take(i as int)).push(p@));
        }
        out.push(p);
        i += 1;
    }
    assert(body.take(i as int) =~= body);
    assert(start + body =~= prints(old(out)@) + (seq![logs_heading(step_name@)] + body));
}

/// What is printed of a log buffer.
pub fn print_synchronized_logs(log_buffer: &LogBuffer) -> (r: Vec<Print>)
    ensures
        prints(r@) == synchronized_logs(log_buffer@),
{
    let ghost parts = log_buffer@.map_values(
        |p: Option<(String, Vec<LogEntry>)>| step_logs(p),
    );
    let mut r: Vec<Print> = Vec::new();
    let mut i: usize = 0;
    assert(prints(r@) =~= concatenated(parts.take(0)));
    while i < log_buffer.len()
        invariant
            i <= log_buffer@.len(),
            parts == log_buffer@.map_values(|p: Option<(String, Vec<LogEntry>)>| step_logs(p)),
            prints(r@) == concatenated(parts.take(i as int)),
        decreases log_buffer@.len() - i,
    {
        proof {
            lemma_concatenated_step(parts, i as int);
        }
        let ghost before = prints(r@);
        if let Some((step_name, entries)) = &log_buffer[i] {
            print_step_logs(step_name.as_str(), entries, &mut r);
        } else {
            assert(before + step_logs(log_buffer@[i as int]) =~= before);
        }
        i += 1;
    }
    assert(parts.take(i as int) =~= parts);
    r
}

// ---------------------------------------------------------------------------
// Timings
// ---------------------------------------------------------------------------
/// A running measurement of an operation, read against a clock that the caller
/// keeps.
#[derive(Debug)]
pub struct Timer {
    pub start: Elapsed,
    pub operation: String,
    pub verbose: bool,
}

impl Timer {
    /// A measurement that starts at `now`.
    pub fn new(operation: &str, verbose: bool, now: Elapsed) -> (r: Timer)
        ensures
            r.start == now,
            r.operation@ == operation@,
            r.verbose == verbose,
    {
        Timer { start: now, operation: operation.to_string(), verbose }
    }

    /// The time since the start.
    pub fn elapsed(&self, now: Elapsed) -> (r: Elapsed)
        ensures
            r == now.spec_since(self.start),
    {
        now.since(&self.start)
    }

    /// The line that tells the duration, if details are asked for.
    pub fn log_if_verbose(&self, now: Elapsed) -> (r: Option<Print>)
        ensures
            r is Some <==> self.verbose,
            r matches Some(p) ==> p@ == out_text_line(
                "  "@ + self.operation@ + " completed in "@ + now.spec_since(self.start).text(2)
                    + "s"@,
                Paint::Plain,
            ),
    {
        if self.verbose {
            let text = "  ".to_string().concat(self.operation.as_str()).concat(
                " completed in ",
            ).concat(self.elapsed(now).seconds(2).as_str()).concat("s");
            Some(print_text(text, Paint::Plain))
        } else {
            None
        }
    }
}

// ---------------------------------------------------------------------------
// Laws
// ---------------------------------------------------------------------------
/// What a container writes is kept whole, with where it came from; only a failure
/// of the stream itself is an error.
pub proof fn law_what_becomes_of_an_event(event: LogEvent)
    ensures
        match event {
            LogEvent::StdOut(bytes) => entry_of(event) == Some(
                LogModel::StdOut(lossy_text(bytes@)),
            ),
            LogEvent::StdErr(bytes) => entry_of(event) == Some(
                LogModel::StdErr(lossy_text(bytes@)),
            ),
            LogEvent::Other => entry_of(event) is None,
            LogEvent::Failed(error) => entry_of(event) matches Some(LogModel::Error(text))
                && text == "Error streaming logs: "@ + error@,
        },
{
}

/// However an entry is shown, its text is shown whole, and errors go to standard
/// error.
pub proof fn law_an_entry_is_shown(entry: LogModel)
    ensures
        ({
            let text = match entry {
                LogModel::StdOut(msg) => msg,
                LogModel::StdErr(msg) => msg,
                LogModel::Error(msg) => msg,
            };
            let on_stderr = !(entry is StdOut);
            &&& immediate_print(entry).spans.len() == 1
            &&& immediate_print(entry).spans[0].0 == text
            &&& immediate_print(entry).to_stderr == on_stderr
            &&& immediate_print(entry).newline == entry is Error
            &&& buffered_print(entry).spans.len() == 1
            &&& buffered_print(entry).spans[0].0 == text
            &&& buffered_print(entry).to_stderr == on_stderr
            &&& buffered_print(entry).newline == entry is Error
            &&& monitor_line(entry) == (text, on_stderr)
        }),
{
}

/// Logs that are kept step by step are printed in the order of the steps, those of
/// each step under a heading with its name and in the order in which they came; a
/// step without logs is passed over.
pub proof fn law_kept_logs_are_printed_in_order(
    a: Seq<Option<(String, Vec<LogEntry>)>>,
    b: Seq<Option<(String, Vec<LogEntry>)>>,
    step_name: String,
    entries: Vec<LogEntry>,
    k: int,
)
    ensures
        synchronized_logs(a + b) == synchronized_logs(a) + synchronized_logs(b),
        synchronized_logs(seq![None]).len() == 0,
        ({
            let said = synchronized_logs(seq![Some((step_name, entries))]);
            &&& said.len() == 1 + entries@.len()
            &&& said[0].spans[1].0 == "=== Logs for step: "@ + step_name@ + " ==="@
            &&& 0 <= k < entries@.len() ==> said[1 + k] == buffered_print(entries@[k]@)
        }),
{
    let f = |p: Option<(String, Vec<LogEntry>)>| step_logs(p);
    assert((a + b).map_values(f) =~= a.map_values(f) + b.map_values(f));
    lemma_concatenated_add(a.map_values(f), b.map_values(f));
    lemma_one_place(None);
    lemma_one_place(Some((step_name, entries)));
}

/// The logs of one place are those that stand there.
proof fn lemma_one_place(place: Option<(String, Vec<LogEntry>)>)
    ensures
        synchronized_logs(seq![place]) == step_logs(place),
{
    let parts = seq![place].map_values(|p: Option<(String, Vec<LogEntry>)>| step_logs(p));
    assert(parts.drop_last() =~= Seq::<Seq<PrintModel>>::empty());
    assert(concatenated(parts.drop_last()) == Seq::<PrintModel>::empty());
    assert(parts.last() == step_logs(place));
    assert(synchronized_logs(seq![place]) =~= step_logs(place));
}

/// What is known of the entries is all of it.
pub proof fn law_model_of_entries(entries: Seq<LogEntry>, i: int)
    requires
        0 <= i < entries.len(),
    ensures
        log_models(entries).len() == entries.len(),
        entries[i] matches LogEntry::StdOut(msg) ==> log_models(entries)[i] == LogModel::StdOut(
            msg@,
        ),
        entries[i] matches LogEntry::StdErr(msg) ==> log_models(entries)[i] == LogModel::StdErr(
            msg@,
        ),
        entries[i] matches LogEntry::Error(msg) ==> log_models(entries)[i] == LogModel::Error(
            msg@,
        ),
{
}

} // verus!
