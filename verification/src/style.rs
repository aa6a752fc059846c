//! Styled text: what a row shows, before a terminal library draws it.

use vstd::prelude::*;

use crate::scan::{lines, lines_of};
use crate::text::{chars_of, pieces, text_of};

verus! {

#[derive(Clone, Copy, Debug, PartialEq, Eq, Structural)]
pub enum Color {
    Reset,
    Red,
    Yellow,
    Blue,
    LightBlue,
    White,
    Gray,
    DarkGray,
    /// Red, green and blue, eight bits each.
    Rgb(u32),
}

#[derive(Clone, Copy, Debug, PartialEq, Eq, Structural)]
pub struct Style {
    pub fg: Option<Color>,
    pub bg: Option<Color>,
    pub bold: bool,
    pub dim: bool,
    pub italic: bool,
    pub underlined: bool,
}

/// Nothing set.
pub open spec fn no_style() -> Style {
    Style { fg: None, bg: None, bold: false, dim: false, italic: false, underlined: false }
}

/// Only a foreground.
pub open spec fn fg_style(c: Color) -> Style {
    Style { fg: Some(c), ..no_style() }
}

/// Only a background.
pub open spec fn bg_style(c: Color) -> Style {
    Style { bg: Some(c), ..no_style() }
}

impl Default for Style {
    fn default() -> (r: Style)
        ensures
            r == no_style(),
    {
        Style { fg: None, bg: None, bold: false, dim: false, italic: false, underlined: false }
    }
}

impl Style {
    pub fn fg(self, c: Color) -> (r: Style)
        ensures
            r == (Style { fg: Some(c), ..self }),
    {
        Style { fg: Some(c), ..self }
    }

    pub fn bg(self, c: Color) -> (r: Style)
        ensures
            r == (Style { bg: Some(c), ..self }),
    {
        Style { bg: Some(c), ..self }
    }

    pub fn bold(self) -> (r: Style)
        ensures
            r == (Style { bold: true, ..self }),
    {
        Style { bold: true, ..self }
    }

    pub fn dim(self) -> (r: Style)
        ensures
            r == (Style { dim: true, ..self }),
    {
        Style { dim: true, ..self }
    }

    pub fn italic(self) -> (r: Style)
        ensures
            r == (Style { italic: true, ..self }),
    {
        Style { italic: true, ..self }
    }

    pub fn underlined(self) -> (r: Style)
        ensures
            r == (Style { underlined: true, ..self }),
    {
        Style { underlined: true, ..self }
    }

    /// This style with everything that `other` sets.
    pub fn patch(self, other: Style) -> (r: Style)
        ensures
            r == patched(self, other),
    {
        Style {
            fg: if other.fg.is_some() { other.fg } else { self.fg },
            bg: if other.bg.is_some() { other.bg } else { self.bg },
            bold: self.bold || other.bold,
            dim: self.dim || other.dim,
            italic: self.italic || other.italic,
            underlined: self.underlined || other.underlined,
        }
    }
}

/// `base` with everything that `over` sets.
pub open spec fn patched(base: Style, over: Style) -> Style {
    Style {
        fg: if over.fg is Some {
            over.fg
        } else {
            base.fg
        },
        bg: if over.bg is Some {
            over.bg
        } else {
            base.bg
        },
        bold: base.bold || over.bold,
        dim: base.dim || over.dim,
        italic: base.italic || over.italic,
        underlined: base.underlined || over.underlined,
    }
}

/// A run of text in one style.
#[derive(Debug, PartialEq, Eq)]
pub struct Span {
    pub text: String,
    pub style: Style,
}

#[verifier::ext_equal]
pub struct SpanView {
    pub text: Seq<char>,
    pub style: Style,
}

impl View for Span {
    type V = SpanView;

    open spec fn view(&self) -> SpanView {
        SpanView { text: self.text@, style: self.style }
    }
}

impl Clone for Span {
    fn clone(&self) -> (r: Span)
        ensures
            r@ == self@,
    {
        Span { text: self.text.clone(), style: self.style }
    }
}

pub open spec fn spans_view(v: Seq<Span>) -> Seq<SpanView> {
    v.map_values(|s: Span| s@)
}

pub open spec fn rows_of_spans(v: Seq<Vec<Span>>) -> Seq<Seq<SpanView>> {
    v.map_values(|s: Vec<Span>| spans_view(s@))
}

/// The text of a run of spans.
pub open spec fn spans_text(v: Seq<SpanView>) -> Seq<char>
    decreases v.len(),
{
    if v.len() == 0 {
        Seq::empty()
    } else {
        spans_text(v.drop_last()) + v.last().text
    }
}

/// A row of spans over one row style.
#[derive(Debug, PartialEq, Eq)]
pub struct Line {
    pub spans: Vec<Span>,
    pub style: Style,
}

#[verifier::ext_equal]
pub struct LineView {
    pub spans: Seq<SpanView>,
    pub style: Style,
}

impl View for Line {
    type V = LineView;

    open spec fn view(&self) -> LineView {
        LineView { spans: spans_view(self.spans@), style: self.style }
    }
}

/// The next step to a row whose texts are cut to their room as it grows.
pub enum RowStep {
    /// Cut this text to so many columns.
    Cut(String, usize),
    Done(Line),
}

#[verifier::ext_equal]
pub enum RowStepView {
    Cut(Seq<char>, int),
    Done(LineView),
}

impl View for RowStep {
    type V = RowStepView;

    open spec fn view(&self) -> RowStepView {
        match *self {
            RowStep::Cut(text, room) => RowStepView::Cut(text@, room as int),
            RowStep::Done(line) => RowStepView::Done(line@),
        }
    }
}

pub open spec fn lines_view(v: Seq<Line>) -> Seq<LineView> {
    v.map_values(|l: Line| l@)
}

impl Clone for Line {
    fn clone(&self) -> (r: Line)
        ensures
            r@ == self@,
    {
        Line { spans: copy_spans(&self.spans), style: self.style }
    }
}

/// The row of a plain text; line feeds in it are dropped.
pub open spec fn raw_line(text: Seq<char>) -> LineView {
    LineView {
        spans: lines(text).map_values(|l: Seq<char>| SpanView { text: l, style: no_style() }),
        style: no_style(),
    }
}

/// The row of a plain text.
pub fn plain_line(text: &str) -> (r: Line)
    ensures
        r@ == raw_line(text@),
{
    let v = chars_of(text);
    let parts = lines_of(&v);
    let ghost want = raw_line(text@).spans;
    let mut spans: Vec<Span> = Vec::new();
    let mut i: usize = 0;
    while i < parts.len()
        invariant
            i <= parts@.len(),
            pieces(parts@) == lines(text@),
            want == raw_line(text@).spans,
            spans_view(spans@) =~= want.take(i as int),
        decreases parts@.len() - i,
    {
        assert(pieces(parts@)[i as int] == parts@[i as int]@);
        assert(want[i as int] == (SpanView { text: parts@[i as int]@, style: no_style() }));
        push_span(&mut spans, Span { text: text_of(&parts[i]), style: Style::default() });
        i += 1;
    }
    assert(want.len() == parts@.len());
    assert(want.take(i as int) =~= want);
    Line { spans, style: Style::default() }
}

pub fn push_line(out: &mut Vec<Line>, line: Line)
    ensures
        lines_view(final(out)@) == lines_view(old(out)@).push(line@),
{
    let ghost first = out@;
    out.push(line);
    assert(lines_view(out@) =~= lines_view(first).push(line@));
}

pub fn copy_spans(v: &Vec<Span>) -> (r: Vec<Span>)
    ensures
        spans_view(r@) == spans_view(v@),
{
    let mut out: Vec<Span> = Vec::new();
    push_spans(&mut out, v);
    assert(spans_view(out@) =~= spans_view(v@));
    out
}

/// Appends copies of `more`.
pub fn push_spans(out: &mut Vec<Span>, more: &Vec<Span>)
    ensures
        spans_view(final(out)@) == spans_view(old(out)@) + spans_view(more@),
{
    let ghost first = spans_view(out@);
    let ghost extra = spans_view(more@);
    let mut i: usize = 0;
    assert(first + extra.take(0) =~= first);
    while i < more.len()
        invariant
            i <= more@.len(),
            extra == spans_view(more@),
            spans_view(out@) =~= first + extra.take(i as int),
        decreases more@.len() - i,
    {
        push_span(out, more[i].clone());
        i += 1;
    }
    assert(extra.take(i as int) =~= extra);
}

pub fn push_span(out: &mut Vec<Span>, s: Span)
    ensures
        spans_view(final(out)@) == spans_view(old(out)@).push(s@),
{
    let ghost first = out@;
    out.push(s);
    assert(spans_view(out@) =~= spans_view(first).push(s@));
}

pub fn styled(text: String, style: Style) -> (r: Span)
    ensures
        r@ == (SpanView { text: text@, style }),
{
    Span { text, style }
}

} // verus!
