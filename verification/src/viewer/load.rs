//! What a request shows: documents made of files, diffs and commits.

use vstd::prelude::*;

use crate::bytes::{byte_get, byte_len, byte_slice, lossy, lossy_text};
use crate::diffview::{
    highlighted_parts, render_expanded, shows, source_view, sources_view, units, DiffSource, FoldId,
    RenderedDiff, SourceView,
};
use crate::git::{file_name, last_name};
use crate::input::{least, Platform};
use crate::matcher::{
    build_search_regex, query_pattern, regex_error, regex_matches, Matcher,
};
use crate::paths::{join_path, native, native_path, under_dir};
use crate::scan::{digits, digits_of, lines, lines_of, trim, trimmed, utf8_len, Class};
use crate::style::{
    lines_view, no_style, patched, plain_line, push_line, push_span, raw_line, rows_of_spans,
    spans_view, Color, Line, LineView, Span, SpanView, Style,
};
use crate::syntax::{
    at_most, expand_tabs, first_line, grammar_for, highlight, highlighted_rows, tabs_expanded,
    whole_lines, Grammars,
};
use crate::text::{
    cat, cat3, chars_of, ends_with, eq_text, has_suffix, lower, lowercase, opt_text, pieces, rfind,
    rfind_char, text_of, text_slice, texts,
};
use crate::viewer::doc::{
    first_change_requested, fresh, line_requested, line_row, row_requested, Doc, DocView,
};
use crate::viewer::request::{Request, RequestView};
use crate::viewer::rows::{add_up, diff_row, plus, row_of, SelectableRow, SelectableView, SourceKind};
use crate::viewer::wrap::{row_view, rows_view};

verus! {

/// No more of a file than this is shown.
pub const MAX_BYTES: usize = 1048576;

/// No more lines than this are shown.
pub const MAX_LINES: usize = 5000;

/// The colours of what a search found, in results and previews.
pub const SEARCH_HIGHLIGHT_BG: u32 = 0x515800;

pub const SEARCH_HIGHLIGHT_FG: u32 = 0xfff6b0;

// ---- Search hits ----

/// The text between two bytes; nothing where either is inside a character.
pub open spec fn cut_bytes(s: Seq<char>, from: int, to: int) -> Seq<char> {
    match byte_slice(s, from, to) {
        Some(t) => t,
        None => Seq::empty(),
    }
}

fn cut_text(v: &Vec<char>, from: usize, to: usize) -> (r: String)
    ensures
        r@ == cut_bytes(v@, from as int, to as int),
{
    match byte_get(v, from, to) {
        Some(t) => text_of(&t),
        None => {
            let r = String::new();
            assert(r@ =~= Seq::empty());
            r
        },
    }
}

/// A span that covers the bytes `start..end` of a line, cut where the matches
/// from `i` on begin and end; `cursor` is how far it is cut.
pub open spec fn cut_span(
    span: SpanView,
    start: int,
    end: int,
    found: Seq<(usize, usize)>,
    i: int,
    cursor: int,
    over: Style,
) -> Seq<SpanView>
    decreases found.len() - i,
{
    if i >= found.len() {
        if cursor < end {
            seq![SpanView { text: cut_bytes(span.text, cursor - start, end - start), style: span.style }]
        } else {
            Seq::empty()
        }
    } else {
        let from = if found[i].0 > start {
            found[i].0 as int
        } else {
            start
        };
        let to = if found[i].1 < end {
            found[i].1 as int
        } else {
            end
        };
        if from >= to {
            cut_span(span, start, end, found, i + 1, cursor, over)
        } else {
            (if cursor < from {
                seq![SpanView { text: cut_bytes(span.text, cursor - start, from - start), style: span.style }]
            } else {
                Seq::empty()
            }) + seq![
                SpanView {
                    text: cut_bytes(span.text, from - start, to - start),
                    style: patched(span.style, over),
                },
            ] + cut_span(span, start, end, found, i + 1, to, over)
        }
    }
}

/// How many bytes the first `n` spans take.
pub open spec fn bytes_before(spans: Seq<SpanView>, n: int) -> usize
    decreases n,
{
    if n <= 0 {
        0
    } else {
        plus(bytes_before(spans, n - 1) as int, utf8_len(spans[n - 1].text) as int)
    }
}

/// The first `n` spans of a line with the matches in the other style.
pub open spec fn cut_spans(
    spans: Seq<SpanView>,
    found: Seq<(usize, usize)>,
    over: Style,
    n: int,
) -> Seq<SpanView>
    decreases n,
{
    if n <= 0 {
        Seq::empty()
    } else {
        let start = bytes_before(spans, n - 1) as int;
        cut_spans(spans, found, over, n - 1) + cut_span(
            spans[n - 1],
            start,
            bytes_before(spans, n) as int,
            found,
            0,
            start,
            over,
        )
    }
}

/// A line with the matches in the other style.
pub open spec fn marked_line(line: LineView, found: Seq<(usize, usize)>, over: Style) -> LineView {
    LineView {
        spans: cut_spans(line.spans, found, over, line.spans.len() as int),
        style: line.style,
    }
}

fn push_cut(
    out: &mut Vec<Span>,
    span: &Span,
    start: usize,
    end: usize,
    found: &Vec<(usize, usize)>,
    over: Style,
)
    requires
        start <= end,
    ensures
        spans_view(final(out)@) == spans_view(old(out)@) + cut_span(
            span@,
            start as int,
            end as int,
            found@,
            0,
            start as int,
            over,
        ),
{
    let v = chars_of(span.text.as_str());
    let mut cursor: usize = start;
    let mut i: usize = 0;
    let ghost want = spans_view(out@) + cut_span(
        span@,
        start as int,
        end as int,
        found@,
        0,
        start as int,
        over,
    );
    while i < found.len()
        invariant
            i <= found@.len(),
            start <= cursor,
            start <= end,
            v@ == span@.text,
            want == spans_view(old(out)@) + cut_span(
                span@,
                start as int,
                end as int,
                found@,
                0,
                start as int,
                over,
            ),
            spans_view(out@) + cut_span(
                span@,
                start as int,
                end as int,
                found@,
                i as int,
                cursor as int,
                over,
            ) =~= want,
        decreases found@.len() - i,
    {
        let (ms, me) = found[i];
        assert(found@[i as int] == (ms, me));
        let from = if ms > start {
            ms
        } else {
            start
        };
        let to = if me < end {
            me
        } else {
            end
        };
        if from < to {
            let ghost before = spans_view(out@);
            let ghost rest = cut_span(
                span@,
                start as int,
                end as int,
                found@,
                i + 1,
                to as int,
                over,
            );
            if cursor < from {
                let text = cut_text(&v, cursor - start, from - start);
                push_span(out, Span { text, style: span.style });
            }
            let text = cut_text(&v, from - start, to - start);
            push_span(out, Span { text, style: span.style.patch(over) });
            assert(spans_view(out@) + rest =~= before + cut_span(
                span@,
                start as int,
                end as int,
                found@,
                i as int,
                cursor as int,
                over,
            ));
            cursor = to;
        }
        i += 1;
    }
    if cursor < end {
        let text = cut_text(&v, cursor - start, end - start);
        push_span(out, Span { text, style: span.style });
    }
    assert(spans_view(out@) =~= want);
}

/// A line with the matches in the other style.
pub fn highlight_line(line: &Line, matches: &Vec<(usize, usize)>, highlight: Style) -> (r: Line)
    ensures
        r@ == marked_line(line@, matches@, highlight),
{
    let mut out: Vec<Span> = Vec::new();
    let mut offset: usize = 0;
    let mut i: usize = 0;
    assert(spans_view(out@) =~= Seq::empty());
    assert(line@.spans.len() == line.spans@.len());
    while i < line.spans.len()
        invariant
            i <= line.spans@.len(),
            offset == bytes_before(line@.spans, i as int),
            spans_view(out@) == cut_spans(line@.spans, matches@, highlight, i as int),
        decreases line.spans@.len() - i,
    {
        let span = &line.spans[i];
        assert(line@.spans[i as int] == span@);
        let end = add_up(offset, byte_len(span.text.as_str()));
        push_cut(&mut out, span, offset, end, matches, highlight);
        offset = end;
        i += 1;
    }
    Line { spans: out, style: line.style }
}

/// How search hits look in a preview.
pub open spec fn hit_style() -> Style {
    Style {
        fg: Some(Color::Rgb(SEARCH_HIGHLIGHT_FG)),
        bg: Some(Color::Rgb(SEARCH_HIGHLIGHT_BG)),
        ..no_style()
    }
}

/// The lines with the search hits of the text's lines marked.
pub open spec fn hits_marked(
    shown: Seq<LineView>,
    text: Seq<char>,
    pattern: Seq<char>,
    insensitive: bool,
) -> Seq<LineView> {
    Seq::new(
        shown.len(),
        |i: int|
            {
                let raw = lines(text);
                if i < raw.len() && i < MAX_LINES && regex_matches(
                    pattern,
                    insensitive,
                    raw[i],
                ).len() > 0 {
                    marked_line(shown[i], regex_matches(pattern, insensitive, raw[i]), hit_style())
                } else {
                    shown[i]
                }
            },
    )
}

fn mark_hits(shown: Vec<Line>, text: &str, m: &Matcher) -> (r: Vec<Line>)
    ensures
        lines_view(r@) == hits_marked(lines_view(shown@), text@, m.pattern(), m.insensitive()),
{
    let v = chars_of(text);
    let raw = lines_of(&v);
    let ghost all = lines(text@);
    let ghost want = hits_marked(lines_view(shown@), text@, m.pattern(), m.insensitive());
    let mut out: Vec<Line> = Vec::new();
    let mut i: usize = 0;
    assert(raw@.len() == all.len());
    while i < shown.len()
        invariant
            i <= shown@.len(),
            all == pieces(raw@),
            all == lines(text@),
            raw@.len() == all.len(),
            want == hits_marked(lines_view(shown@), text@, m.pattern(), m.insensitive()),
            lines_view(out@) =~= want.take(i as int),
        decreases shown@.len() - i,
    {
        assert(lines_view(shown@)[i as int] == shown@[i as int]@);
        let mut line = shown[i].clone();
        if i < raw.len() && i < MAX_LINES {
            assert(all[i as int] == raw@[i as int]@);
            let found = m.find_all(text_of(&raw[i]).as_str());
            if found.len() > 0 {
                line = highlight_line(
                    &shown[i],
                    &found,
                    Style::default().bg(Color::Rgb(SEARCH_HIGHLIGHT_BG)).fg(
                        Color::Rgb(SEARCH_HIGHLIGHT_FG),
                    ),
                );
            }
        }
        assert(line@ == want[i as int]);
        push_line(&mut out, line);
        i += 1;
    }
    assert(want.len() == shown@.len());
    assert(want.take(i as int) =~= want);
    out
}

// ---- Files ----

/// What a search looked for.
pub struct Search {
    pub query: String,
    pub regex: bool,
    pub case_sensitive: bool,
    pub whole_word: bool,
}

#[verifier::ext_equal]
pub struct SearchView {
    pub query: Seq<char>,
    pub regex: bool,
    pub case_sensitive: bool,
    pub whole_word: bool,
}

impl View for Search {
    type V = SearchView;

    open spec fn view(&self) -> SearchView {
        SearchView {
            query: self.query@,
            regex: self.regex,
            case_sensitive: self.case_sensitive,
            whole_word: self.whole_word,
        }
    }
}

pub open spec fn search_view(s: Option<&Search>) -> Option<SearchView> {
    match s {
        Some(s) => Some(s@),
        None => None,
    }
}

/// The pattern of a search, and whether case makes no difference; nothing where
/// the pattern does not compile.
pub open spec fn search_pattern(s: Option<SearchView>) -> Option<(Seq<char>, bool)> {
    match s {
        None => None,
        Some(s) => {
            let p = query_pattern(s.query, s.regex, s.whole_word);
            if regex_error(p, !s.case_sensitive) is None {
                Some((p, !s.case_sensitive))
            } else {
                None
            }
        },
    }
}

/// What a document is called: the last part of its path.
pub open spec fn doc_name(target: Seq<char>) -> Seq<char> {
    match file_name(target) {
        Some(name) => name,
        None => target,
    }
}

pub open spec fn is_markdown(name: Seq<char>) -> bool {
    has_suffix(lower(name), ".md"@) || has_suffix(lower(name), ".markdown"@)
}

/// Whether a file's first bytes say that it is no text.
pub open spec fn is_binary(bytes: Seq<u8>) -> bool {
    bytes.take(least(bytes.len() as int, 8192)).contains(0)
}

/// The text of a file, as far as it is shown.
pub open spec fn shown_text(bytes: Seq<u8>) -> Seq<char> {
    lossy(bytes.take(least(bytes.len() as int, MAX_BYTES as int)))
}

/// The lines of a text in colour, where there is a grammar for it.
pub open spec fn colored(name: Seq<char>, text: Seq<char>, theme: usize) -> Seq<LineView> {
    match grammar_for(name, first_line(text)) {
        Some(g) => highlighted_rows(
            Some(g),
            theme,
            at_most(whole_lines(text, 0), MAX_LINES as nat),
            true,
        ).map_values(|spans: Seq<SpanView>| LineView { spans, style: no_style() }),
        None => at_most(lines(text), MAX_LINES as nat).map_values(|l: Seq<char>| raw_line(l)),
    }
}

pub open spec fn untabbed(v: Seq<LineView>) -> Seq<LineView> {
    v.map_values(|l: LineView| LineView { spans: tabs_expanded(l.spans), style: l.style })
}

/// The rows of a text file: rendered, or else in colour with search hits marked;
/// without tabs; and with a note where they are not all, or there are none.
pub open spec fn text_rows(
    name: Seq<char>,
    text: Seq<char>,
    more: bool,
    pattern: Option<(Seq<char>, bool)>,
    theme: usize,
    rendered: Option<Seq<LineView>>,
) -> Seq<LineView> {
    let base = match rendered {
        Some(v) => v,
        None => colored(name, text, theme),
    };
    let marked = match pattern {
        Some((p, insensitive)) => hits_marked(base, text, p, insensitive),
        None => base,
    };
    let plain = untabbed(marked);
    let noted = if more || lines(text).len() > MAX_LINES {
        plain.push(raw_line("… (truncated)"@))
    } else {
        plain
    };
    if noted.len() == 0 {
        noted.push(raw_line("(empty file)"@))
    } else {
        noted
    }
}

/// The selectable rows of a text file: its lines, where they are shown as they
/// are.
pub open spec fn text_sources(text: Seq<char>, numbered: bool, count: nat) -> Seq<
    Option<SelectableView>,
> {
    Seq::new(
        count,
        |i: int|
            if numbered && i < MAX_LINES && i < lines(text).len() {
                Some(row_of(lines(text)[i], SourceKind::File { line: (i + 1) as usize }))
            } else {
                None
            },
    )
}

/// The document that shows only a message.
pub open spec fn message_doc(
    name: Seq<char>,
    context: Seq<char>,
    message: Seq<char>,
    numbered: bool,
) -> DocView {
    DocView {
        sources: seq![None],
        ..fresh(name, context, seq![raw_line(message)], numbered, Seq::empty())
    }
}

/// What a program that renders markdown gave to show: nothing where it failed or wrote
/// only blanks, else its lines, as many as are shown.
pub open spec fn markdown_rows(
    success: bool,
    text: Seq<char>,
    rows: Seq<LineView>,
) -> Option<Seq<LineView>> {
    if !success || trim(text, Class::White).len() == 0 || rows.len() == 0 {
        None
    } else if rows.len() > MAX_LINES {
        Some(rows.take(MAX_LINES as int))
    } else {
        Some(rows)
    }
}

/// What a program that renders markdown gave to show: `text` is what it wrote, and `rows`
/// are its lines.
pub fn rendered_markdown(success: bool, text: &str, rows: Vec<Line>) -> (r: Option<Vec<Line>>)
    ensures
        (match r {
            Some(v) => Some(lines_view(v@)),
            None => None,
        }) == markdown_rows(success, text@, lines_view(rows@)),
{
    let v = chars_of(text);
    let written = trimmed(&v, Class::White);
    assert(lines_view(rows@).len() == rows@.len());
    if !success || written.len() == 0 || rows.len() == 0 {
        return None;
    }
    let ghost all = rows@;
    let mut rows = rows;
    if rows.len() > MAX_LINES {
        rows.truncate(MAX_LINES);
        assert(lines_view(rows@) =~= lines_view(all).take(MAX_LINES as int));
    }
    Some(rows)
}

/// The document of a file, from what reading it gave and, for markdown that is
/// shown for its own sake, how it was rendered.
pub open spec fn file_doc_of(
    target: Seq<char>,
    read: Result<Seq<u8>, Seq<char>>,
    search: Option<SearchView>,
    source_line: Option<usize>,
    theme: usize,
    rendered: Option<Seq<LineView>>,
) -> DocView {
    let name = doc_name(target);
    match read {
        Err(e) => message_doc(name, target, "(unreadable: "@ + e + ")"@, true),
        Ok(bytes) => if is_binary(bytes) {
            message_doc(
                name,
                target,
                "(binary file — "@ + digits(bytes.len()) + " bytes)"@,
                false,
            )
        } else {
            let text = shown_text(bytes);
            let pattern = search_pattern(search);
            let shown = if renders(target, search, source_line) {
                rendered
            } else {
                None
            };
            let rows = text_rows(name, text, bytes.len() > MAX_BYTES, pattern, theme, shown);
            DocView {
                sources: text_sources(text, shown is None, rows.len()),
                ..fresh(name, target, rows, shown is None, Seq::empty())
            }
        },
    }
}

/// Whether a file is rendered as markdown: not where a line or a search hit is
/// to be shown.
pub open spec fn renders(
    target: Seq<char>,
    search: Option<SearchView>,
    source_line: Option<usize>,
) -> bool {
    search_pattern(search) is None && source_line is None && is_markdown(doc_name(target))
}

fn name_of(target: &str) -> (r: String)
    ensures
        r@ == doc_name(target@),
{
    match last_name(target) {
        Some(name) => name,
        None => target.to_string(),
    }
}

fn search_matcher(search: Option<&Search>) -> (r: Option<Matcher>)
    ensures
        match r {
            Some(m) => search_pattern(search_view(search)) == Some((m.pattern(), m.insensitive())),
            None => search_pattern(search_view(search)) is None,
        },
{
    match search {
        None => None,
        Some(s) => match build_search_regex(
            s.query.as_str(),
            s.regex,
            s.case_sensitive,
            s.whole_word,
        ) {
            Ok(m) => Some(m),
            Err(_) => None,
        },
    }
}

/// Whether a file is to be rendered as markdown before it is shown.
pub fn wants_rendering(target: &str, search: Option<&Search>, source_line: Option<usize>) -> (r: bool)
    ensures
        r == renders(target@, search_view(search), source_line),
{
    let name = name_of(target);
    let low = lowercase(name.as_str());
    let v = chars_of(low.as_str());
    let a = chars_of(".md");
    let b = chars_of(".markdown");
    let markdown = ends_with(&v, &a) || ends_with(&v, &b);
    search_matcher(search).is_none() && source_line.is_none() && markdown
}

fn head_has_zero(bytes: &Vec<u8>) -> (r: bool)
    ensures
        r == is_binary(bytes@),
{
    let n = if bytes.len() < 8192 {
        bytes.len()
    } else {
        8192
    };
    let ghost head = bytes@.take(n as int);
    let mut i: usize = 0;
    while i < n
        invariant
            i <= n <= bytes@.len(),
            n == least(bytes@.len() as int, 8192),
            head == bytes@.take(n as int),
            forall|k: int| 0 <= k < i ==> head[k] != 0,
        decreases n - i,
    {
        if bytes[i] == 0 {
            assert(head[i as int] == 0);
            return true;
        }
        i += 1;
    }
    false
}

fn read_text(bytes: &Vec<u8>) -> (r: String)
    ensures
        r@ == shown_text(bytes@),
{
    let n = if bytes.len() < MAX_BYTES {
        bytes.len()
    } else {
        MAX_BYTES
    };
    let mut head: Vec<u8> = Vec::new();
    let mut i: usize = 0;
    while i < n
        invariant
            i <= n <= bytes@.len(),
            head@ =~= bytes@.take(i as int),
        decreases n - i,
    {
        head.push(bytes[i]);
        i += 1;
    }
    lossy_text(&head)
}

fn color_lines(g: &Grammars, name: &str, text: &str, theme: usize) -> (r: Vec<Line>)
    ensures
        lines_view(r@) == colored(name@, text@, theme),
{
    let ghost want = colored(name@, text@, theme);
    let mut out: Vec<Line> = Vec::new();
    let mut i: usize = 0;
    match highlight(g, name, text, MAX_LINES, theme) {
        Some(rows) => {
            let mut rows = rows;
            let n = rows.len();
            let ghost all = rows_of_spans(rows@);
            assert(want =~= all.map_values(
                |spans: Seq<SpanView>| LineView { spans, style: no_style() },
            ));
            assert(all.skip(0) =~= all);
            assert(all.len() == n);
            while i < n
                invariant
                    i <= n,
                    n == all.len(),
                    want == all.map_values(
                        |spans: Seq<SpanView>| LineView { spans, style: no_style() },
                    ),
                    rows_of_spans(rows@) == all.skip(i as int),
                    lines_view(out@) =~= want.take(i as int),
                decreases n - i,
            {
                assert(rows@.len() == rows_of_spans(rows@).len());
                let ghost before = rows@;
                let spans = rows.remove(0);
                assert(rows_of_spans(before)[0] == spans_view(spans@));
                assert(rows_of_spans(rows@) =~= rows_of_spans(before).skip(1));
                assert(all.skip(i as int).skip(1) =~= all.skip(i + 1));
                assert(want[i as int].spans == spans_view(spans@));
                push_line(&mut out, Line { spans, style: Style::default() });
                i += 1;
            }
            assert(want.take(i as int) =~= want);
            out
        },
        None => {
            let v = chars_of(text);
            let raw = lines_of(&v);
            let ghost all = lines(text@);
            assert(raw@.len() == all.len());
            let n = if raw.len() < MAX_LINES {
                raw.len()
            } else {
                MAX_LINES
            };
            while i < n
                invariant
                    i <= n <= raw@.len(),
                    n == least(raw@.len() as int, MAX_LINES as int),
                    all == pieces(raw@),
                    raw@.len() == all.len(),
                    want == at_most(all, MAX_LINES as nat).map_values(
                        |l: Seq<char>| raw_line(l),
                    ),
                    lines_view(out@) =~= want.take(i as int),
                decreases n - i,
            {
                assert(all[i as int] == raw@[i as int]@);
                assert(want[i as int] == raw_line(raw@[i as int]@));
                push_line(&mut out, plain_line(text_of(&raw[i]).as_str()));
                i += 1;
            }
            assert(want.take(i as int) =~= want);
            out
        },
    }
}

fn untab(v: Vec<Line>) -> (r: Vec<Line>)
    ensures
        lines_view(r@) == untabbed(lines_view(v@)),
{
    let ghost want = untabbed(lines_view(v@));
    let mut out: Vec<Line> = Vec::new();
    let mut i: usize = 0;
    while i < v.len()
        invariant
            i <= v@.len(),
            want == untabbed(lines_view(v@)),
            lines_view(out@) =~= want.take(i as int),
        decreases v@.len() - i,
    {
        assert(lines_view(v@)[i as int] == v@[i as int]@);
        let spans = expand_tabs(&v[i].spans);
        let line = Line { spans, style: v[i].style };
        assert(line@ == want[i as int]);
        push_line(&mut out, line);
        i += 1;
    }
    assert(want.len() == v@.len());
    assert(want.take(i as int) =~= want);
    out
}

fn file_sources(text: &str, numbered: bool, count: usize) -> (r: Vec<Option<SelectableRow>>)
    ensures
        rows_view(r@) == text_sources(text@, numbered, count as nat),
{
    let v = chars_of(text);
    let raw = lines_of(&v);
    let ghost all = lines(text@);
    let ghost want = text_sources(text@, numbered, count as nat);
    assert(raw@.len() == all.len());
    let mut out: Vec<Option<SelectableRow>> = Vec::new();
    let mut i: usize = 0;
    while i < count
        invariant
            i <= count,
            all == pieces(raw@),
            all == lines(text@),
            raw@.len() == all.len(),
            want == text_sources(text@, numbered, count as nat),
            rows_view(out@) =~= want.take(i as int),
        decreases count - i,
    {
        let row = if numbered && i < MAX_LINES && i < raw.len() {
            assert(all[i as int] == raw@[i as int]@);
            Some(SelectableRow::file(text_of(&raw[i]).as_str(), i + 1))
        } else {
            None
        };
        assert(row_view(row) == want[i as int]);
        let ghost before = rows_view(out@);
        out.push(row);
        assert(rows_view(out@) =~= before.push(row_view(row)));
        i += 1;
    }
    assert(want.take(i as int) =~= want);
    out
}

fn note_doc(name: String, context: &str, message: &str, numbered: bool) -> (r: Doc)
    ensures
        r@ == message_doc(name@, context@, message@, numbered),
{
    let mut rows: Vec<Line> = Vec::new();
    assert(lines_view(rows@) =~= Seq::empty());
    push_line(&mut rows, plain_line(message));
    assert(lines_view(rows@) =~= seq![raw_line(message@)]);
    let mut sources: Vec<Option<SelectableRow>> = Vec::new();
    sources.push(None);
    assert(rows_view(sources@) =~= seq![None]);
    let folds: Vec<Option<FoldId>> = Vec::new();
    assert(folds@ =~= Seq::empty());
    Doc::new(name, context.to_string(), rows, numbered, folds).with_sources(sources)
}

fn text_doc(
    g: &Grammars,
    target: &str,
    name: String,
    text: &str,
    more: bool,
    m: Option<Matcher>,
    theme: usize,
    rendered: Option<Vec<Line>>,
    Ghost(pattern): Ghost<Option<(Seq<char>, bool)>>,
) -> (r: Doc)
    requires
        match m {
            Some(m) => pattern == Some((m.pattern(), m.insensitive())),
            None => pattern is None,
        },
    ensures
        ({
            let shown = (match rendered {
                Some(v) => Some(lines_view(v@)),
                None => None,
            });
            let rows = text_rows(name@, text@, more, pattern, theme, shown);
            r@ == (DocView {
                sources: text_sources(text@, rendered is None, rows.len()),
                ..fresh(name@, target@, rows, rendered is None, Seq::empty())
            })
        }),
{
    let numbered = rendered.is_none();
    let base = match rendered {
        Some(v) => v,
        None => color_lines(g, name.as_str(), text, theme),
    };
    let marked = match m {
        Some(m) => mark_hits(base, text, &m),
        None => base,
    };
    let mut rows = untab(marked);
    let v = chars_of(text);
    let raw = lines_of(&v);
    assert(raw@.len() == pieces(raw@).len());
    if more || raw.len() > MAX_LINES {
        push_line(&mut rows, plain_line("… (truncated)"));
    }
    assert(rows@.len() == lines_view(rows@).len());
    if rows.len() == 0 {
        push_line(&mut rows, plain_line("(empty file)"));
    }
    assert(rows@.len() == lines_view(rows@).len());
    let sources = file_sources(text, numbered, rows.len());
    let folds: Vec<Option<FoldId>> = Vec::new();
    assert(folds@ =~= Seq::empty());
    Doc::new(name, target.to_string(), rows, numbered, folds).with_sources(sources)
}

/// The document of a file, from what reading it gave and, where
/// [`wants_rendering`] asks for it, how it was rendered.
pub fn load_file(
    g: &Grammars,
    target: &str,
    read: Result<Vec<u8>, String>,
    search: Option<&Search>,
    source_line: Option<usize>,
    theme: usize,
    rendered: Option<Vec<Line>>,
) -> (r: Doc)
    ensures
        r@ == file_doc_of(
            target@,
            (match read {
                Ok(b) => Ok(b@),
                Err(e) => Err(e@),
            }),
            search_view(search),
            source_line,
            theme,
            (match rendered {
                Some(v) => Some(lines_view(v@)),
                None => None,
            }),
        ),
{
    let name = name_of(target);
    match read {
        Err(e) => {
            let message = cat3("(unreadable: ", e.as_str(), ")");
            note_doc(name, target, message.as_str(), true)
        },
        Ok(bytes) => {
            if head_has_zero(&bytes) {
                let n = text_of(&digits_of(bytes.len()));
                let message = cat3("(binary file — ", n.as_str(), " bytes)");
                return note_doc(name, target, message.as_str(), false);
            }
            let shown = if wants_rendering(target, search, source_line) {
                rendered
            } else {
                None
            };
            let text = read_text(&bytes);
            let m = search_matcher(search);
            let ghost pattern = search_pattern(search_view(search));
            text_doc(
                g,
                target,
                name,
                text.as_str(),
                bytes.len() > MAX_BYTES,
                m,
                theme,
                shown,
                Ghost(pattern),
            )
        },
    }
}

// ---- Diffs ----

/// How many lines of context a diff is asked for with.
pub open spec fn context_lines(hide: bool) -> nat {
    if hide {
        MAX_LINES as nat
    } else {
        (MAX_LINES / 2) as nat
    }
}

/// The file that is always empty.
pub open spec fn null_device(platform: Platform) -> Seq<char> {
    match platform {
        Platform::Windows => "NUL"@,
        _ => "/dev/null"@,
    }
}

/// What git is asked for a diff of the working tree.
pub open spec fn diff_arguments(
    rel: Seq<char>,
    kind: Seq<char>,
    hide: bool,
    platform: Platform,
) -> Seq<Seq<char>> {
    let head = seq!["diff"@, "--no-ext-diff"@, "--unified="@ + digits(context_lines(hide))];
    let which = if kind == "staged"@ {
        seq!["--cached"@]
    } else if kind == "untracked"@ {
        seq!["--no-index"@, null_device(platform)]
    } else {
        Seq::empty()
    };
    head + which + seq!["--"@, native(rel, platform)]
}

/// What git is asked for a diff between two revisions.
pub open spec fn ref_diff_arguments(
    old_spec: Seq<char>,
    new_spec: Seq<char>,
    rel: Seq<char>,
    old_rel: Option<Seq<char>>,
    hide: bool,
    platform: Platform,
) -> Seq<Seq<char>> {
    let head = seq![
        "diff"@,
        "--no-ext-diff"@,
        "-M"@,
        "--unified="@ + digits(context_lines(hide)),
        old_spec,
        new_spec,
        "--"@,
    ];
    match old_rel {
        Some(from) if from != rel => head.push(native(from, platform)).push(native(rel, platform)),
        _ => head.push(native(rel, platform)),
    }
}

/// What git is asked for a commit.
pub open spec fn show_arguments(
    spec: Seq<char>,
    path: Option<Seq<char>>,
    platform: Platform,
) -> Seq<Seq<char>> {
    let head = seq![
        "-c"@,
        "color.ui=always"@,
        "show"@,
        "--color=always"@,
        "--stat"@,
        "--patch"@,
        "--no-ext-diff"@,
        spec,
    ];
    match path {
        Some(p) => head.push("--"@).push(native(p, platform)),
        None => head,
    }
}

fn push_arg(out: &mut Vec<String>, arg: &str)
    ensures
        texts(final(out)@) == texts(old(out)@).push(arg@),
{
    let ghost first = out@;
    out.push(arg.to_string());
    assert(texts(out@) =~= texts(first).push(arg@));
}

/// Appends a path as the system writes it.
fn push_path(out: &mut Vec<String>, path: &str, platform: Platform)
    ensures
        texts(final(out)@) == texts(old(out)@).push(native(path@, platform)),
{
    push_arg(out, native_path(path, platform).as_str());
}

fn unified_arg(hide: bool) -> (r: String)
    ensures
        r@ == "--unified="@ + digits(context_lines(hide)),
{
    let n = digits_of(if hide { MAX_LINES } else { MAX_LINES / 2 });
    let n = text_of(&n);
    cat("--unified=", n.as_str())
}

/// What git is asked for a diff of the working tree.
pub fn diff_args(rel: &str, kind: &str, hide_unmodified: bool, platform: Platform) -> (r: Vec<
    String,
>)
    ensures
        texts(r@) == diff_arguments(rel@, kind@, hide_unmodified, platform),
{
    let mut r: Vec<String> = Vec::new();
    assert(texts(r@) =~= Seq::empty());
    push_arg(&mut r, "diff");
    push_arg(&mut r, "--no-ext-diff");
    push_arg(&mut r, unified_arg(hide_unmodified).as_str());
    if eq_text(kind, "staged") {
        push_arg(&mut r, "--cached");
    } else if eq_text(kind, "untracked") {
        push_arg(&mut r, "--no-index");
        match platform {
            Platform::Windows => push_arg(&mut r, "NUL"),
            _ => push_arg(&mut r, "/dev/null"),
        }
    }
    push_arg(&mut r, "--");
    push_path(&mut r, rel, platform);
    assert(texts(r@) =~= diff_arguments(rel@, kind@, hide_unmodified, platform));
    r
}

/// What git is asked for a diff between two revisions.
pub fn ref_diff_args(
    old_spec: &str,
    new_spec: &str,
    rel: &str,
    old_rel: Option<&str>,
    hide_unmodified: bool,
    platform: Platform,
) -> (r: Vec<String>)
    ensures
        texts(r@) == ref_diff_arguments(
            old_spec@,
            new_spec@,
            rel@,
            crate::viewer::request::opt_str(old_rel),
            hide_unmodified,
            platform,
        ),
{
    let mut r: Vec<String> = Vec::new();
    assert(texts(r@) =~= Seq::empty());
    push_arg(&mut r, "diff");
    push_arg(&mut r, "--no-ext-diff");
    push_arg(&mut r, "-M");
    push_arg(&mut r, unified_arg(hide_unmodified).as_str());
    push_arg(&mut r, old_spec);
    push_arg(&mut r, new_spec);
    push_arg(&mut r, "--");
    if let Some(from) = old_rel {
        if !eq_text(from, rel) {
            push_path(&mut r, from, platform);
        }
    }
    push_path(&mut r, rel, platform);
    assert(texts(r@) =~= ref_diff_arguments(
        old_spec@,
        new_spec@,
        rel@,
        crate::viewer::request::opt_str(old_rel),
        hide_unmodified,
        platform,
    ));
    r
}

/// What git is asked for a commit.
pub fn show_args(spec: &str, path: Option<&str>, platform: Platform) -> (r: Vec<String>)
    ensures
        texts(r@) == show_arguments(spec@, crate::viewer::request::opt_str(path), platform),
{
    let mut r: Vec<String> = Vec::new();
    assert(texts(r@) =~= Seq::empty());
    push_arg(&mut r, "-c");
    push_arg(&mut r, "color.ui=always");
    push_arg(&mut r, "show");
    push_arg(&mut r, "--color=always");
    push_arg(&mut r, "--stat");
    push_arg(&mut r, "--patch");
    push_arg(&mut r, "--no-ext-diff");
    push_arg(&mut r, spec);
    if let Some(p) = path {
        push_arg(&mut r, "--");
        push_path(&mut r, p, platform);
    }
    assert(texts(r@) =~= show_arguments(spec@, crate::viewer::request::opt_str(path), platform));
    r
}

/// What a git command gave: its two outputs, or why it did not run.
pub enum GitOutput {
    Ran { stdout: String, stderr: String },
    Failed(String),
}

#[verifier::ext_equal]
pub enum OutputView {
    Ran { stdout: Seq<char>, stderr: Seq<char> },
    Failed(Seq<char>),
}

impl View for GitOutput {
    type V = OutputView;

    open spec fn view(&self) -> OutputView {
        match *self {
            GitOutput::Ran { stdout, stderr } => OutputView::Ran {
                stdout: stdout@,
                stderr: stderr@,
            },
            GitOutput::Failed(e) => OutputView::Failed(e@),
        }
    }
}

/// What is said in place of a git command's output that is blank; nothing where
/// it is not.
pub open spec fn output_message(output: OutputView, nothing: Seq<char>) -> Option<Seq<char>> {
    match output {
        OutputView::Failed(e) => Some("(git failed: "@ + e + ")"@),
        OutputView::Ran { stdout, stderr } => if trim(stdout, Class::White).len() > 0 {
            None
        } else if trim(stderr, Class::White).len() > 0 {
            Some("("@ + trim(stderr, Class::White) + ")"@)
        } else {
            Some(nothing)
        },
    }
}

fn message_of(output: &GitOutput, nothing: &str) -> (r: Option<String>)
    ensures
        opt_text(r) == output_message(output@, nothing@),
{
    match output {
        GitOutput::Failed(e) => Some(cat3("(git failed: ", e.as_str(), ")")),
        GitOutput::Ran { stdout, stderr } => {
            let out = chars_of(stdout.as_str());
            if trimmed(&out, Class::White).len() > 0 {
                return None;
            }
            let err = chars_of(stderr.as_str());
            let err = trimmed(&err, Class::White);
            if err.len() > 0 {
                let e = text_of(&err);
                Some(cat3("(", e.as_str(), ")"))
            } else {
                Some(nothing.to_string())
            }
        },
    }
}

pub open spec fn diff_rows(v: Seq<Option<SourceView>>) -> Seq<Option<SelectableView>> {
    v.map_values(
        |s: Option<SourceView>|
            match s {
                Some(s) => Some(diff_row(s)),
                None => None,
            },
    )
}

/// Whether `doc` shows a rendered diff, up to as many rows as are shown.
pub open spec fn shows_diff(
    doc: DocView,
    name: Seq<char>,
    context: Seq<char>,
    rendered_lines: Seq<LineView>,
    rendered_folds: Seq<Option<FoldId>>,
    rendered_sources: Seq<Option<SourceView>>,
    first_change: Option<usize>,
) -> bool {
    let n = rendered_lines.len();
    let max = MAX_LINES as int;
    if n > MAX_LINES {
        doc == (DocView {
            sources: diff_rows(rendered_sources.take(max)).push(None),
            first_change: match first_change {
                Some(row) if row < MAX_LINES => Some(row),
                _ => None,
            },
            ..fresh(
                name,
                context,
                rendered_lines.take(max).push(raw_line("… (truncated)"@)),
                false,
                rendered_folds.take(max).push(None),
            )
        })
    } else {
        doc == (DocView {
            sources: diff_rows(rendered_sources),
            first_change,
            ..fresh(name, context, rendered_lines, false, rendered_folds)
        })
    }
}

/// Whether `doc` shows what a git diff gave.
pub open spec fn diff_shown(
    doc: DocView,
    name: Seq<char>,
    context: Seq<char>,
    rel: Seq<char>,
    output: OutputView,
    theme: usize,
    expanded: Seq<FoldId>,
    hide: bool,
) -> bool {
    match output_message(output, "(no changes)"@) {
        Some(message) => doc == message_doc(name, context, message, false),
        None => {
            let d = highlighted_parts(rel, output->Ran_stdout, theme, expanded, hide);
            exists|r: RenderedDiff|
                shows(r, d, units(d, 0)) && #[trigger] shows_diff(
                    doc,
                    name,
                    context,
                    lines_view(r.lines@),
                    r.folds@,
                    sources_view(r.sources@),
                    r.first_change,
                )
        },
    }
}

fn select_rows(v: Vec<Option<DiffSource>>, n: usize) -> (r: Vec<Option<SelectableRow>>)
    requires
        n <= v@.len(),
    ensures
        rows_view(r@) == diff_rows(sources_view(v@).take(n as int)),
{
    let ghost want = diff_rows(sources_view(v@).take(n as int));
    let mut out: Vec<Option<SelectableRow>> = Vec::new();
    let mut i: usize = 0;
    while i < n
        invariant
            i <= n <= v@.len(),
            want == diff_rows(sources_view(v@).take(n as int)),
            rows_view(out@) =~= want.take(i as int),
        decreases n - i,
    {
        assert(sources_view(v@)[i as int] == source_view(v@[i as int]));
        let row = match &v[i] {
            Some(s) => Some(SelectableRow::diff(s.clone())),
            None => None,
        };
        assert(row_view(row) == want[i as int]);
        let ghost before = rows_view(out@);
        out.push(row);
        assert(rows_view(out@) =~= before.push(row_view(row)));
        i += 1;
    }
    assert(want.len() == n);
    assert(want.take(i as int) =~= want);
    out
}

fn rendered_doc(name: String, context: String, rendered: RenderedDiff) -> (r: Doc)
    requires
        rendered.lines@.len() == rendered.sources@.len(),
        rendered.lines@.len() == rendered.folds@.len(),
    ensures
        shows_diff(
            r@,
            name@,
            context@,
            lines_view(rendered.lines@),
            rendered.folds@,
            sources_view(rendered.sources@),
            rendered.first_change,
        ),
{
    let n = rendered.lines.len();
    let mut lines = rendered.lines;
    let mut folds = rendered.folds;
    let ghost all = lines_view(lines@);
    assert(all.len() == n);
    if n > MAX_LINES {
        let mut sources = select_rows(rendered.sources, MAX_LINES);
        lines.truncate(MAX_LINES);
        folds.truncate(MAX_LINES);
        assert(lines_view(lines@) =~= all.take(MAX_LINES as int));
        push_line(&mut lines, plain_line("… (truncated)"));
        folds.push(None);
        let ghost before = rows_view(sources@);
        sources.push(None);
        assert(rows_view(sources@) =~= before.push(None));
        let first = match rendered.first_change {
            Some(row) => if row < MAX_LINES {
                Some(row)
            } else {
                None
            },
            None => None,
        };
        let mut doc = Doc::new(name, context, lines, false, folds).with_sources(sources);
        doc.first_change = first;
        doc
    } else {
        let sources = select_rows(rendered.sources, n);
        assert(sources_view(rendered.sources@).take(n as int) =~= sources_view(
            rendered.sources@,
        ));
        let mut doc = Doc::new(name, context, lines, false, folds).with_sources(sources);
        doc.first_change = rendered.first_change;
        doc
    }
}

fn structured_doc(
    g: &Grammars,
    name: String,
    context: String,
    rel: &str,
    output: &GitOutput,
    theme: usize,
    expanded: &Vec<FoldId>,
    hide: bool,
) -> (r: Doc)
    ensures
        diff_shown(r@, name@, context@, rel@, output@, theme, expanded@, hide),
{
    match message_of(output, "(no changes)") {
        Some(message) => note_doc(name, context.as_str(), message.as_str(), false),
        None => {
            match output {
                GitOutput::Ran { stdout, .. } => {
                    let rendered = render_expanded(
                        g,
                        rel,
                        stdout.as_str(),
                        theme,
                        expanded,
                        hide,
                    );
                    let ghost d = highlighted_parts(rel@, stdout@, theme, expanded@, hide);
                    proof {
                        assert(lines_view(rendered.lines@).len() == rendered.lines@.len());
                        assert(sources_view(rendered.sources@).len() == rendered.sources@.len());
                        assert(shows(rendered, d, units(d, 0)));
                    }
                    rendered_doc(name, context, rendered)
                },
                GitOutput::Failed(_) => note_doc(name, context.as_str(), "", false),
            }
        },
    }
}

/// The last part of a path: what follows its last slash.
pub open spec fn base_name(rel: Seq<char>) -> Seq<char> {
    rel.skip(rfind_char(rel, '/', rel.len() as int) + 1)
}

fn base_of(rel: &str) -> (r: String)
    ensures
        r@ == base_name(rel@),
{
    let v = chars_of(rel);
    let n = v.len();
    let from = match rfind(&v, '/') {
        Some(i) => i + 1,
        None => 0,
    };
    let r = text_slice(&v, from, n);
    assert(r@ =~= base_name(rel@));
    r
}

/// Where a diff comes from, in words.
pub open spec fn diff_context(root: Seq<char>, rel: Seq<char>, kind: Seq<char>) -> Seq<char> {
    under_dir(root, rel) + " — "@ + (if kind == "staged"@ {
        "staged"@
    } else if kind == "untracked"@ {
        "untracked"@
    } else {
        "working tree"@
    }) + " diff"@
}

/// The document of a diff of the working tree.
pub fn load_diff(
    g: &Grammars,
    root: &str,
    rel: &str,
    kind: &str,
    output: &GitOutput,
    theme: usize,
    hide_unmodified: bool,
    expanded: &Vec<FoldId>,
) -> (r: Doc)
    ensures
        diff_shown(
            r@,
            base_name(rel@),
            diff_context(root@, rel@, kind@),
            rel@,
            output@,
            theme,
            expanded@,
            hide_unmodified,
        ),
{
    let what = if eq_text(kind, "staged") {
        "staged"
    } else if eq_text(kind, "untracked") {
        "untracked"
    } else {
        "working tree"
    };
    let path = join_path(root, rel);
    let head = cat3(path.as_str(), " — ", what);
    let context = cat(head.as_str(), " diff");
    structured_doc(g, base_of(rel), context, rel, output, theme, expanded, hide_unmodified)
}

/// The document of a diff between two revisions.
pub fn load_ref_diff(
    g: &Grammars,
    root: &str,
    new_spec: &str,
    rel: &str,
    output: &GitOutput,
    theme: usize,
    hide_unmodified: bool,
    expanded: &Vec<FoldId>,
) -> (r: Doc)
    ensures
        diff_shown(
            r@,
            base_name(rel@),
            under_dir(root@, rel@) + " — "@ + new_spec@,
            rel@,
            output@,
            theme,
            expanded@,
            hide_unmodified,
        ),
{
    let path = join_path(root, rel);
    let context = cat3(path.as_str(), " — ", new_spec);
    structured_doc(g, base_of(rel), context, rel, output, theme, expanded, hide_unmodified)
}

/// The document of a commit: its text as it was rendered, or why there is none.
pub open spec fn show_doc(
    root: Seq<char>,
    spec: Seq<char>,
    output: OutputView,
    rendered: Seq<LineView>,
) -> DocView {
    fresh(
        spec,
        "git show "@ + spec + " — "@ + root,
        match output_message(output, "(nothing to show)"@) {
            Some(message) => seq![raw_line(message)],
            None => rendered,
        },
        false,
        Seq::empty(),
    )
}

/// The document of a commit, from what git gave and how its colours were
/// rendered.
pub fn load_show(root: &str, spec: &str, output: &GitOutput, rendered: Vec<Line>) -> (r: Doc)
    ensures
        r@ == show_doc(root@, spec@, output@, lines_view(rendered@)),
{
    let head = cat3("git show ", spec, " — ");
    let context = cat(head.as_str(), root);
    let rows = match message_of(output, "(nothing to show)") {
        Some(message) => {
            let mut rows: Vec<Line> = Vec::new();
            assert(lines_view(rows@) =~= Seq::empty());
            push_line(&mut rows, plain_line(message.as_str()));
            assert(lines_view(rows@) =~= seq![raw_line(message@)]);
            rows
        },
        None => rendered,
    };
    let folds: Vec<Option<FoldId>> = Vec::new();
    assert(folds@ =~= Seq::empty());
    Doc::new(spec.to_string(), context, rows, false, folds)
}

/// What a new request asks of its document: a line, or the first change.
pub open spec fn request_prepared(doc: DocView, request: RequestView, hide: bool, now: u64) -> DocView {
    match request {
        RequestView::FileLine { line, .. } => line_requested(doc, line, true, now),
        RequestView::SearchFile { line, .. } => line_requested(doc, line, false, now),
        RequestView::Diff { line, .. } => match line {
            Some(line) => {
                let row = line_row(doc.sources, line, 0);
                if row < doc.sources.len() {
                    row_requested(doc, row, true, now)
                } else {
                    first_change_requested(doc)
                }
            },
            None => if hide {
                doc
            } else {
                first_change_requested(doc)
            },
        },
        RequestView::RefDiff { .. } => if hide {
            doc
        } else {
            first_change_requested(doc)
        },
        _ => doc,
    }
}

/// Does what a new request asks of its document.
pub fn prepare_new_request(doc: &mut Doc, request: &Request, hide_unmodified: bool, now: u64)
    ensures
        final(doc)@ == request_prepared(old(doc)@, request@, hide_unmodified, now),
{
    match request {
        Request::FileLine { line, .. } => doc.request_source_line(*line, true, now),
        Request::SearchFile { line, .. } => doc.request_source_line(*line, false, now),
        Request::Diff { line, .. } => match line {
            Some(line) => {
                if !doc.request_diff_line(*line, true, now) {
                    doc.request_first_change_center();
                }
            },
            None => {
                if !hide_unmodified {
                    doc.request_first_change_center();
                }
            },
        },
        Request::RefDiff { .. } => {
            if !hide_unmodified {
                doc.request_first_change_center();
            }
        },
        _ => {},
    }
}

} // verus!
