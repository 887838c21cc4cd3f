//! Styled terminal output, as data.

use vstd::prelude::*;

verus! {

/// How a piece of text looks.
#[derive(Debug, Clone, Copy, PartialEq, Eq, Structural)]
pub enum Paint {
    Plain,
    Bold,
    Dim,
    Red,
    RedBold,
    Green,
    GreenBold,
    Yellow,
    YellowBold,
    YellowDim,
    Blue,
    Cyan,
    CyanBold,
    DarkGray,
}

/// A piece of text in one style.
#[derive(Debug)]
pub struct Span {
    pub text: String,
    pub paint: Paint,
}

/// What a `Span` holds.
pub type SpanModel = (Seq<char>, Paint);

impl View for Span {
    type V = SpanModel;

    open spec fn view(&self) -> SpanModel {
        (self.text@, self.paint)
    }
}

/// What a list of spans holds.
pub open spec fn spans(list: Seq<Span>) -> Seq<SpanModel> {
    list.map_values(|s: Span| s@)
}

/// A piece of text in a style.
pub fn span(text: String, paint: Paint) -> (r: Span)
    ensures
        r@ == (text@, paint),
{
    Span { text, paint }
}

/// Something to print: spans, one after the other, on one of the two output
/// streams, with or without a line break at the end.
#[derive(Debug)]
pub struct Print {
    pub to_stderr: bool,
    pub spans: Vec<Span>,
    pub newline: bool,
}

/// What a `Print` holds.
pub struct PrintModel {
    pub to_stderr: bool,
    pub spans: Seq<SpanModel>,
    pub newline: bool,
}

impl View for Print {
    type V = PrintModel;

    open spec fn view(&self) -> PrintModel {
        PrintModel {
            to_stderr: self.to_stderr,
            spans: spans(self.spans@),
            newline: self.newline,
        }
    }
}

/// What a list of things to print holds.
pub open spec fn prints(list: Seq<Print>) -> Seq<PrintModel> {
    list.map_values(|p: Print| p@)
}

/// A line on standard output.
pub open spec fn out_line(spans: Seq<SpanModel>) -> PrintModel {
    PrintModel { to_stderr: false, spans, newline: true }
}

/// A line on standard output in one style.
pub open spec fn out_text_line(text: Seq<char>, paint: Paint) -> PrintModel {
    out_line(seq![(text, paint)])
}

/// Text in one style, with no line break after it.
pub open spec fn chunk(text: Seq<char>, paint: Paint, to_stderr: bool) -> PrintModel {
    PrintModel { to_stderr, spans: seq![(text, paint)], newline: false }
}

/// A line on standard error in one style.
pub open spec fn err_text_line(text: Seq<char>, paint: Paint) -> PrintModel {
    PrintModel { to_stderr: true, spans: seq![(text, paint)], newline: true }
}

/// A line on standard output.
pub fn print_line(list: Vec<Span>) -> (r: Print)
    ensures
        r@ == out_line(spans(list@)),
{
    Print { to_stderr: false, spans: list, newline: true }
}

/// Text in one style.
fn print_one(text: String, paint: Paint, to_stderr: bool, newline: bool) -> (r: Print)
    ensures
        r@ == (PrintModel { to_stderr, spans: seq![(text@, paint)], newline }),
{
    let list: Vec<Span> = vec![span(text, paint)];
    assert(spans(list@) =~= seq![(text@, paint)]);
    Print { to_stderr, spans: list, newline }
}

/// A line on standard output in one style.
pub fn print_text(text: String, paint: Paint) -> (r: Print)
    ensures
        r@ == out_text_line(text@, paint),
{
    print_one(text, paint, false, true)
}

/// A line on standard error in one style.
pub fn print_error(text: String, paint: Paint) -> (r: Print)
    ensures
        r@ == err_text_line(text@, paint),
{
    print_one(text, paint, true, true)
}

/// Text in one style, with no line break after it.
pub fn print_chunk(text: String, paint: Paint, to_stderr: bool) -> (r: Print)
    ensures
        r@ == chunk(text@, paint, to_stderr),
{
    print_one(text, paint, to_stderr, false)
}

/// A list grows at its end.
pub proof fn lemma_prints_push(list: Seq<Print>, p: Print)
    ensures
        prints(list.push(p)) == prints(list).push(p@),
{
    assert(prints(list.push(p)) =~= prints(list).push(p@));
}

// ---------------------------------------------------------------------------
// Laws
// ---------------------------------------------------------------------------
/// A line of output goes to standard output and ends there, an error goes to
/// standard error, and a chunk goes where it is meant to and leaves the line open;
/// each shows what it is given and nothing else.
pub proof fn law_where_output_goes(
    list: Seq<SpanModel>,
    text: Seq<char>,
    paint: Paint,
    to_stderr: bool,
)
    ensures
        !out_line(list).to_stderr && out_line(list).newline && out_line(list).spans == list,
        !out_text_line(text, paint).to_stderr && out_text_line(text, paint).newline,
        out_text_line(text, paint).spans == seq![(text, paint)],
        err_text_line(text, paint).to_stderr && err_text_line(text, paint).newline,
        err_text_line(text, paint).spans == seq![(text, paint)],
        chunk(text, paint, to_stderr).to_stderr == to_stderr,
        !chunk(text, paint, to_stderr).newline,
        chunk(text, paint, to_stderr).spans == seq![(text, paint)],
{
}

/// What is known of output is all of it: every piece with its text and its look.
pub proof fn law_model_of_output(list: Seq<Print>, i: int, k: int)
    requires
        0 <= i < list.len(),
        0 <= k < list[i].spans@.len(),
    ensures
        prints(list).len() == list.len(),
        prints(list)[i].to_stderr == list[i].to_stderr,
        prints(list)[i].newline == list[i].newline,
        prints(list)[i].spans.len() == list[i].spans@.len(),
        prints(list)[i].spans[k] == (list[i].spans@[k].text@, list[i].spans@[k].paint),
{
}

} // verus!
