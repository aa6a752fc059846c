//! What the viewer draws: the rows of a document, the comment editor, the
//! footer, and where things stand.

use vstd::prelude::*;

use crate::bytes::byte_len;
use crate::cells::{
    cell_count, clusters, concat, count_cells, graphemes, lemma_concat_push, lemma_concat_take,
    text_width, width_of,
};
use crate::input::{inside, least, monus, most, Mouse, Platform, Rect};
use crate::scan::{digits, digits_of, lemma_utf8_len_add, lines, lines_of, utf8_len};
use crate::style::{
    lines_view, no_style, patched, push_line, push_span, push_spans, spans_view, Color, Line,
    LineView, Span, SpanView, Style,
};
use crate::syntax::{push_spaces, spaces, PreviewHighlightStyles};
use crate::text::{
    cat, cat3, chars_of, eq_text, pieces, push_all, push_text, slice_of, text_of, texts,
};
use crate::viewer::comments::{footer_entries, labels, offered, FooterAction, SavedComment};
use crate::viewer::doc::{cells_of_range, visual_count, Doc, DocView};
use crate::viewer::rows::{add_up, plus, TextSelection, TAB_WIDTH};
use crate::viewer::wrap::{blanks, glyphs_view, push_runs, runs, Glyph, GlyphView};

verus! {

// ---- Where the mouse is ----

/// `a + b`, or the largest column or row there is.
pub open spec fn edge(a: u16, b: u16) -> int {
    least(a + b, 65535)
}

/// The row of a scrolled document under the mouse.
pub open spec fn doc_row(body: Rect, scroll: int, mouse: Mouse) -> Option<usize> {
    if body.x <= mouse.column < edge(body.x, body.width) && body.y <= mouse.row < edge(
        body.y,
        body.height,
    ) {
        Some(plus(scroll, mouse.row - body.y))
    } else {
        None
    }
}

fn edge_of(a: u16, b: u16) -> (r: u16)
    ensures
        r == edge(a, b),
{
    if a > 65535 - b {
        65535
    } else {
        a + b
    }
}

/// The row of a scrolled document under the mouse.
pub fn doc_row_at(body: Rect, scroll: usize, mouse: &Mouse) -> (r: Option<usize>)
    ensures
        r == doc_row(body, scroll as int, *mouse),
{
    if mouse.column >= body.x && mouse.column < edge_of(body.x, body.width) && mouse.row >= body.y
        && mouse.row < edge_of(body.y, body.height) {
        Some(add_up(scroll, (mouse.row - body.y) as usize))
    } else {
        None
    }
}

// ---- Cells in another style ----

/// The graphemes of a span, those in the cells `from..to` in the other style.
/// `cell` is where the span begins.
pub open spec fn restyled(
    parts: Seq<Seq<char>>,
    style: Style,
    over: Style,
    from: int,
    to: int,
    cell: usize,
    n: int,
) -> (Seq<GlyphView>, usize)
    decreases n,
{
    if n <= 0 {
        (Seq::empty(), cell)
    } else {
        let (before, at) = restyled(parts, style, over, from, to, cell, n - 1);
        let width = cell_count(parts[n - 1]) as int;
        let inside = at < to && plus(at as int, most(width, 1)) > from;
        (
            before.push(
                GlyphView {
                    symbol: parts[n - 1],
                    style: if inside {
                        patched(style, over)
                    } else {
                        style
                    },
                    width,
                },
            ),
            plus(at as int, width),
        )
    }
}

/// The graphemes of the first `n` spans, those in the cells `from..to` in the
/// other style, and where they end.
pub open spec fn restyled_spans(
    spans: Seq<SpanView>,
    over: Style,
    from: int,
    to: int,
    n: int,
) -> (Seq<GlyphView>, usize)
    decreases n,
{
    if n <= 0 {
        (Seq::empty(), 0)
    } else {
        let (before, cell) = restyled_spans(spans, over, from, to, n - 1);
        let parts = clusters(spans[n - 1].text);
        let (more, end) = restyled(
            parts,
            spans[n - 1].style,
            over,
            from,
            to,
            cell,
            parts.len() as int,
        );
        (before + more, end)
    }
}

/// A line with some of its cells in the other style.
pub open spec fn cells_marked(line: LineView, cells: (usize, usize), over: Style) -> LineView {
    let g = restyled_spans(
        line.spans,
        over,
        cells.0 as int,
        cells.1 as int,
        line.spans.len() as int,
    ).0;
    LineView { spans: runs(g, 0, g.len() as int), style: line.style }
}

fn push_restyled(
    out: &mut Vec<Glyph>,
    span: &Span,
    over: Style,
    from: usize,
    to: usize,
    cell: usize,
) -> (r: usize)
    ensures
        ({
            let parts = clusters(span@.text);
            let (more, end) = restyled(
                parts,
                span@.style,
                over,
                from as int,
                to as int,
                cell,
                parts.len() as int,
            );
            glyphs_view(final(out)@) == glyphs_view(old(out)@) + more && r == end
        }),
{
    let parts = graphemes(span.text.as_str());
    let ghost all = clusters(span@.text);
    assert(all.len() == parts@.len());
    let mut at: usize = cell;
    let mut i: usize = 0;
    assert(glyphs_view(out@) + Seq::<GlyphView>::empty() =~= glyphs_view(out@));
    while i < parts.len()
        invariant
            i <= parts@.len(),
            all == texts(parts@),
            ({
                let (more, end) = restyled(
                    all,
                    span@.style,
                    over,
                    from as int,
                    to as int,
                    cell,
                    i as int,
                );
                glyphs_view(out@) == glyphs_view(old(out)@) + more && at == end
            }),
        decreases parts@.len() - i,
    {
        assert(all[i as int] == parts@[i as int]@);
        let width = count_cells(parts[i].as_str());
        let seen: usize = if width > 1 {
            width as usize
        } else {
            1
        };
        let inside = at < to && add_up(at, seen) > from;
        let style = if inside {
            span.style.patch(over)
        } else {
            span.style
        };
        let glyph = Glyph { symbol: parts[i].clone(), style, width };
        let ghost before = glyphs_view(out@);
        out.push(glyph);
        assert(glyphs_view(out@) =~= before.push(glyph@));
        at = add_up(at, width as usize);
        proof {
            let (more, end) = restyled(
                all,
                span@.style,
                over,
                from as int,
                to as int,
                cell,
                i + 1,
            );
            assert(glyphs_view(out@) =~= glyphs_view(old(out)@) + more);
        }
        i += 1;
    }
    at
}

/// A line with some of its cells in the other style.
pub fn highlight_cells(line: &Line, selected: (usize, usize), highlight: Style) -> (r: Line)
    ensures
        r@ == cells_marked(line@, selected, highlight),
{
    let mut g: Vec<Glyph> = Vec::new();
    let mut cell: usize = 0;
    let mut i: usize = 0;
    let ghost all = line@.spans;
    assert(glyphs_view(g@) =~= Seq::empty());
    assert(all.len() == line.spans@.len());
    while i < line.spans.len()
        invariant
            i <= line.spans@.len(),
            all == spans_view(line.spans@),
            (glyphs_view(g@), cell) == restyled_spans(
                all,
                highlight,
                selected.0 as int,
                selected.1 as int,
                i as int,
            ),
        decreases line.spans@.len() - i,
    {
        assert(all[i as int] == line.spans@[i as int]@);
        cell = push_restyled(&mut g, &line.spans[i], highlight, selected.0, selected.1, cell);
        i += 1;
    }
    let mut spans: Vec<Span> = Vec::new();
    let total = g.len();
    assert(glyphs_view(g@).len() == total);
    assert(spans_view(spans@) =~= Seq::empty());
    push_runs(&mut spans, &g, 0, total);
    assert(spans_view(spans@) =~= cells_marked(line@, selected, highlight).spans);
    Line { spans, style: line.style }
}

// ---- The rows of a document ----

/// A shown row with the first `n` comment ranges marked.
pub open spec fn comments_marked(
    d: DocView,
    line: LineView,
    visual: int,
    ranges: Seq<TextSelection>,
    over: Style,
    n: int,
) -> LineView
    decreases n,
{
    if n <= 0 {
        line
    } else {
        let before = comments_marked(d, line, visual, ranges, over, n - 1);
        match cells_of_range(d, visual, ranges[n - 1]) {
            Some(cells) => cells_marked(before, cells, over),
            None => before,
        }
    }
}

/// A shown row with comments and the selection marked.
pub open spec fn row_marked(
    d: DocView,
    line: LineView,
    visual: int,
    ranges: Seq<TextSelection>,
    styles: PreviewHighlightStyles,
) -> LineView {
    let noted = comments_marked(d, line, visual, ranges, styles.comment, ranges.len() as int);
    match d.selection {
        Some(s) => match cells_of_range(d, visual, s) {
            Some(cells) => cells_marked(noted, cells, styles.selection),
            None => noted,
        },
        None => noted,
    }
}

/// How wide the first `n` spans are.
pub open spec fn spans_width(spans: Seq<SpanView>, n: int) -> usize
    decreases n,
{
    if n <= 0 {
        0
    } else {
        plus(spans_width(spans, n - 1) as int, width_of(spans[n - 1].text) as int)
    }
}

/// A line's number, to the right of a column for `total` lines.
pub open spec fn number_text(number: nat, total: nat) -> Seq<char> {
    spaces(
        monus(digits(total).len() as int, digits(number).len() as int) as nat,
    ) + digits(number) + seq![' ']
}

/// A line of a document that is not cut to a width: with its number, marked
/// where a link led to it, and its background drawn to the edge.
pub open spec fn row_finished(
    d: DocView,
    line: LineView,
    n: int,
    marked: Option<usize>,
    width: u16,
) -> LineView {
    let numbered = if d.numbered {
        seq![
            SpanView {
                text: number_text((n + 1) as nat, d.lines.len()),
                style: Style { dim: true, ..no_style() },
            },
        ] + line.spans
    } else {
        line.spans
    };
    let style = if marked is Some && marked->0 == n {
        Style { bg: Some(Color::DarkGray), ..line.style }
    } else {
        line.style
    };
    let pad = width - spans_width(numbered, numbered.len() as int);
    LineView {
        spans: if style.bg is Some && pad > 0 {
            numbered.push(SpanView { text: spaces(pad as nat), style: no_style() })
        } else {
            numbered
        },
        style,
    }
}

/// One row as it is drawn.
pub open spec fn drawn_row(
    d: DocView,
    visual: int,
    ranges: Seq<TextSelection>,
    styles: PreviewHighlightStyles,
    marked: Option<usize>,
    width: u16,
) -> LineView {
    if d.visual_width > 0 {
        row_marked(d, d.visual_lines[visual], visual, ranges, styles)
    } else {
        row_finished(
            d,
            row_marked(d, d.lines[visual], visual, ranges, styles),
            visual,
            marked,
            width,
        )
    }
}

/// The rows on a screen of this size.
pub open spec fn drawn_rows(
    d: DocView,
    ranges: Seq<TextSelection>,
    styles: PreviewHighlightStyles,
    marked: Option<usize>,
    width: u16,
    height: u16,
) -> Seq<LineView> {
    let end = least(d.scroll + height, visual_count(d));
    Seq::new(
        monus(end, d.scroll) as nat,
        |i: int| drawn_row(d, d.scroll + i, ranges, styles, marked, width),
    )
}

fn mark_row(
    doc: &Doc,
    line: &Line,
    visual: usize,
    ranges: &Vec<TextSelection>,
    styles: &PreviewHighlightStyles,
) -> (r: Line)
    ensures
        r@ == row_marked(doc@, line@, visual as int, ranges@, *styles),
{
    let mut out = line.clone();
    let mut i: usize = 0;
    while i < ranges.len()
        invariant
            i <= ranges@.len(),
            out@ == comments_marked(
                doc@,
                line@,
                visual as int,
                ranges@,
                styles.comment,
                i as int,
            ),
        decreases ranges@.len() - i,
    {
        if let Some(cells) = doc.range_cells(visual, ranges[i]) {
            out = highlight_cells(&out, cells, styles.comment);
        }
        i += 1;
    }
    if let Some(cells) = doc.selection_cells(visual) {
        out = highlight_cells(&out, cells, styles.selection);
    }
    out
}

fn width_of_spans(spans: &Vec<Span>) -> (r: usize)
    ensures
        r == spans_width(spans_view(spans@), spans@.len() as int),
{
    let mut sum: usize = 0;
    let mut i: usize = 0;
    while i < spans.len()
        invariant
            i <= spans@.len(),
            sum == spans_width(spans_view(spans@), i as int),
        decreases spans@.len() - i,
    {
        assert(spans_view(spans@)[i as int] == spans@[i as int]@);
        sum = add_up(sum, text_width(spans[i].text.as_str()));
        i += 1;
    }
    sum
}

fn numbered_text(number: usize, total: usize) -> (r: String)
    ensures
        r@ == number_text(number as nat, total as nat),
{
    let a = digits_of(number);
    let b = digits_of(total);
    let mut v: Vec<char> = Vec::new();
    let pad = if b.len() > a.len() {
        b.len() - a.len()
    } else {
        0
    };
    push_spaces(&mut v, pad);
    push_all(&mut v, &a);
    v.push(' ');
    assert(v@ =~= number_text(number as nat, total as nat));
    text_of(&v)
}

fn finish_row(doc: &Doc, line: Line, n: usize, marked: Option<usize>, width: u16) -> (r: Line)
    requires
        n < doc.lines@.len(),
    ensures
        r@ == row_finished(doc@, line@, n as int, marked, width),
{
    let ghost want = row_finished(doc@, line@, n as int, marked, width);
    assert(doc@.lines.len() == doc.lines@.len());
    let total = doc.lines.len();
    let style = match marked {
        Some(row) if row == n => line.style.bg(Color::DarkGray),
        _ => line.style,
    };
    let mut spans: Vec<Span> = Vec::new();
    assert(spans_view(spans@) =~= Seq::empty());
    if doc.numbered {
        push_span(
            &mut spans,
            Span { text: numbered_text(n + 1, total), style: Style::default().dim() },
        );
    }
    push_spans(&mut spans, &line.spans);
    let ghost body = spans_view(spans@);
    assert(doc.numbered ==> body =~= seq![
        SpanView {
            text: number_text((n + 1) as nat, doc@.lines.len()),
            style: Style { dim: true, ..no_style() },
        },
    ] + line@.spans);
    assert(!doc.numbered ==> body =~= line@.spans);
    assert(body.len() == spans@.len());
    if style.bg.is_some() {
        let used = width_of_spans(&spans);
        if (width as usize) > used {
            push_span(&mut spans, blanks(width - used as u16));
        }
    }
    assert(spans_view(spans@) =~= want.spans);
    Line { spans, style }
}

/// The rows of a document on a screen of this size.
pub fn doc_rows(
    doc: &Doc,
    ranges: &Vec<TextSelection>,
    styles: &PreviewHighlightStyles,
    now: u64,
    width: u16,
    height: u16,
) -> (r: Vec<Line>)
    ensures
        lines_view(r@) == drawn_rows(
            doc@,
            ranges@,
            *styles,
            crate::viewer::doc::marked_row(doc@, now),
            width,
            height,
        ),
{
    let marked = doc.active_source_highlight(now);
    let count = doc.visual_len();
    let reach = add_up(doc.scroll, height as usize);
    let end = if reach < count {
        reach
    } else {
        count
    };
    let ghost want = drawn_rows(doc@, ranges@, *styles, marked, width, height);
    let mut out: Vec<Line> = Vec::new();
    let mut at: usize = doc.scroll;
    assert(lines_view(out@) =~= want.take(0));
    while at < end
        invariant
            doc.scroll <= at,
            at <= end || at == doc.scroll,
            end <= count,
            count == visual_count(doc@),
            end == least(doc.scroll + height, count as int),
            want == drawn_rows(doc@, ranges@, *styles, marked, width, height),
            lines_view(out@) =~= want.take(at - doc.scroll),
        decreases end - at,
    {
        assert(want[at - doc.scroll] == drawn_row(
            doc@,
            at as int,
            ranges@,
            *styles,
            marked,
            width,
        ));
        assert(doc@.lines.len() == doc.lines@.len());
        assert(doc@.visual_lines.len() == doc.visual_lines@.len());
        let row = if doc.visual_width > 0 {
            assert(doc@.visual_lines[at as int] == doc.visual_lines@[at as int]@);
            mark_row(doc, &doc.visual_lines[at], at, ranges, styles)
        } else {
            assert(doc@.lines[at as int] == doc.lines@[at as int]@);
            let line = mark_row(doc, &doc.lines[at], at, ranges, styles);
            finish_row(doc, line, at, marked, width)
        };
        push_line(&mut out, row);
        at += 1;
    }
    assert(want.take(at - doc.scroll) =~= want);
    out
}

/// A document's context as far as it fits: its end, where it is too long.
pub open spec fn fitted_context(context: Seq<char>, room: int) -> Seq<char> {
    if context.len() > room {
        seq!['…'] + context.skip(monus(context.len() as int, monus(room, 1)))
    } else {
        context
    }
}

/// A button to close a document, its icon and its name.
pub open spec fn header_left(name: Seq<char>, icon: Seq<char>, icon_style: Style) -> Seq<SpanView> {
    seq![
        SpanView {
            text: " ✕ "@,
            style: Style { fg: Some(Color::LightBlue), bold: true, ..no_style() },
        },
        SpanView { text: icon + " "@, style: icon_style },
        SpanView { text: name, style: Style { bold: true, ..no_style() } },
    ]
}

/// The header of a document: a button to close it, its icon, its name, and
/// where it comes from as far as that fits.
pub open spec fn header_spans(
    name: Seq<char>,
    context: Seq<char>,
    icon: Seq<char>,
    icon_style: Style,
    width: u16,
) -> Seq<SpanView> {
    let left = header_left(name, icon, icon_style);
    let room = monus(width as int, plus(spans_width(left, 3) as int, 2) as int);
    left.push(
        SpanView {
            text: "  "@ + fitted_context(context, room),
            style: Style { dim: true, ..no_style() },
        },
    )
}

/// The header of a document.
pub fn doc_header(doc: &Doc, icon: &str, icon_style: Style, width: u16) -> (r: Vec<Span>)
    ensures
        spans_view(r@) == header_spans(doc@.name, doc@.context, icon@, icon_style, width),
{
    let ghost want = header_spans(doc@.name, doc@.context, icon@, icon_style, width);
    let mut spans: Vec<Span> = Vec::new();
    assert(spans_view(spans@) =~= Seq::empty());
    push_span(
        &mut spans,
        Span { text: " ✕ ".to_string(), style: Style::default().bold().fg(Color::LightBlue) },
    );
    push_span(&mut spans, Span { text: cat(icon, " "), style: icon_style });
    push_span(&mut spans, Span { text: doc.name.clone(), style: Style::default().bold() });
    assert(spans_view(spans@) =~= header_left(doc@.name, icon@, icon_style));
    assert(spans@.len() == spans_view(spans@).len());
    let used = add_up(width_of_spans(&spans), 2);
    let room = if (width as usize) > used {
        width as usize - used
    } else {
        0
    };
    let v = chars_of(doc.context.as_str());
    let n = v.len();
    let mut shown = chars_of("  ");
    if n > room {
        let keep = if room > 1 {
            room - 1
        } else {
            0
        };
        let tail = slice_of(&v, n - keep, n);
        shown.push('…');
        push_all(&mut shown, &tail);
    } else {
        push_all(&mut shown, &v);
    }
    assert(shown@ =~= "  "@ + fitted_context(doc@.context, room as int));
    push_span(&mut spans, Span { text: text_of(&shown), style: Style::default().dim() });
    assert(spans_view(spans@) =~= want);
    spans
}

// ---- The comment editor ----

/// What is written of a comment so far, in rows.
#[verifier::ext_equal]
pub struct Written {
    pub rows: Seq<Seq<char>>,
    pub line: Seq<char>,
    pub used: usize,
    pub cursor: Option<(int, int)>,
}

/// The graphemes up to `n` laid out in rows of this width; the caret is at byte
/// `caret`.
pub open spec fn laid_out(parts: Seq<Seq<char>>, caret: int, width: int, n: int) -> Written
    decreases n,
{
    if n <= 0 {
        Written { rows: Seq::empty(), line: Seq::empty(), used: 0, cursor: None }
    } else {
        one_more(
            laid_out(parts, caret, width, n - 1),
            parts[n - 1],
            utf8_len(concat(parts.take(n - 1))) == caret,
            width,
        )
    }
}

/// The rows of a comment that is being written, and the row and column of the
/// caret.
pub open spec fn editor_layout(input: Seq<char>, caret: int, width: int) -> (
    Seq<Seq<char>>,
    int,
    int,
) {
    let parts = clusters(input);
    let w = laid_out(parts, caret, most(width, 1), parts.len() as int);
    let rows = w.rows.push(w.line);
    if caret == utf8_len(input) {
        (rows, w.rows.len() as int, w.used as int)
    } else {
        match w.cursor {
            Some((row, column)) => (rows, row, column),
            None => (rows, w.rows.len() as int, 0),
        }
    }
}

/// One grapheme more in a layout.
fn lay_out(
    rows: &mut Vec<String>,
    line: &mut Vec<char>,
    used: usize,
    g: &str,
    here: bool,
    cursor: Option<(usize, usize)>,
    width: usize,
) -> (r: (usize, Option<(usize, usize)>))
    requires
        width >= 1,
    ensures
        ({
            let w = Written {
                rows: texts(old(rows)@),
                line: old(line)@,
                used,
                cursor: cursor_view(cursor),
            };
            let next = one_more(w, g@, here, width as int);
            texts(final(rows)@) == next.rows && final(line)@ == next.line && r.0 == next.used
                && cursor_view(r.1) == next.cursor
        }),
{
    let ghost was = texts(rows@);
    assert(rows@.len() == was.len());
    if eq_text(g, "\n") {
        let spot = if here {
            Some((rows.len(), used))
        } else {
            cursor
        };
        let done = text_of(line);
        rows.push(done);
        assert(texts(rows@) =~= was.push(done@));
        *line = Vec::new();
        assert(line@ =~= Seq::empty());
        return (0, spot);
    }
    let tab = eq_text(g, "\t");
    let mut size: usize = if tab {
        let gap = TAB_WIDTH - used % TAB_WIDTH;
        if gap < width {
            gap
        } else {
            width
        }
    } else {
        count_cells(g) as usize
    };
    let mut column: usize = used;
    if used > 0 && size > 0 && add_up(used, size) > width {
        let done = text_of(line);
        rows.push(done);
        assert(texts(rows@) =~= was.push(done@));
        *line = Vec::new();
        assert(line@ =~= Seq::empty());
        column = 0;
        if tab {
            size = if TAB_WIDTH < width {
                TAB_WIDTH
            } else {
                width
            };
        }
    }
    assert(rows@.len() == texts(rows@).len());
    let spot = if here {
        Some((rows.len(), column))
    } else {
        cursor
    };
    if tab {
        push_spaces(line, size);
    } else {
        push_text(line, g);
    }
    (add_up(column, size), spot)
}

pub open spec fn cursor_view(c: Option<(usize, usize)>) -> Option<(int, int)> {
    match c {
        Some((row, column)) => Some((row as int, column as int)),
        None => None,
    }
}

/// One grapheme more in a layout; `here` says that the caret is before it.
pub open spec fn one_more(w: Written, g: Seq<char>, here: bool, width: int) -> Written {
    if g == "\n"@ {
        Written {
            rows: w.rows.push(w.line),
            line: Seq::empty(),
            used: 0,
            cursor: if here {
                Some((w.rows.len() as int, w.used as int))
            } else {
                w.cursor
            },
        }
    } else {
        let tab = g == "\t"@;
        let wide = if tab {
            least(TAB_WIDTH - w.used as int % TAB_WIDTH as int, width)
        } else {
            cell_count(g) as int
        };
        let full = w.used > 0 && wide > 0 && plus(w.used as int, wide) > width;
        let size = if full && tab {
            least(TAB_WIDTH as int, width)
        } else {
            wide
        };
        let rows = if full {
            w.rows.push(w.line)
        } else {
            w.rows
        };
        let line = if full {
            Seq::empty()
        } else {
            w.line
        };
        let used: int = if full {
            0
        } else {
            w.used as int
        };
        Written {
            rows,
            line: line + if tab {
                spaces(size as nat)
            } else {
                g
            },
            used: plus(used, size),
            cursor: if here {
                Some((rows.len() as int, used))
            } else {
                w.cursor
            },
        }
    }
}

/// The rows of a comment that is being written, and the row and column of the
/// caret, which is at a byte.
pub fn editor_rows(input: &str, caret: usize, width: usize) -> (r: (Vec<String>, usize, usize))
    ensures
        (texts(r.0@), r.1 as int, r.2 as int) == editor_layout(input@, caret as int, width as int),
{
    let cols = if width > 1 {
        width
    } else {
        1
    };
    let parts = graphemes(input);
    let ghost all = clusters(input@);
    let total = byte_len(input);
    let mut rows: Vec<String> = Vec::new();
    let mut line: Vec<char> = Vec::new();
    let mut used: usize = 0;
    let mut cursor: Option<(usize, usize)> = None;
    let mut byte: usize = 0;
    let mut i: usize = 0;
    assert(all.len() == parts@.len());
    assert(texts(rows@) =~= Seq::empty());
    assert(all.take(0) =~= Seq::empty());
    while i < parts.len()
        invariant
            i <= parts@.len(),
            all == texts(parts@),
            cols >= 1,
            total == utf8_len(concat(all)),
            byte == utf8_len(concat(all.take(i as int))),
            ({
                let w = laid_out(all, caret as int, cols as int, i as int);
                texts(rows@) == w.rows && line@ == w.line && used == w.used && cursor_view(cursor)
                    == w.cursor
            }),
        decreases parts@.len() - i,
    {
        let g = parts[i].as_str();
        proof {
            assert(all[i as int] == g@);
            assert(all.take(i + 1) =~= all.take(i as int).push(g@));
            lemma_concat_push(all.take(i as int), g@);
            lemma_utf8_len_add(concat(all.take(i as int)), g@);
            lemma_concat_take(all, i + 1);
            let s = concat(all);
            let n = concat(all.take(i + 1)).len() as int;
            assert(s =~= s.take(n) + s.skip(n));
            lemma_utf8_len_add(s.take(n), s.skip(n));
        }
        let n = byte_len(g);
        let ghost w = laid_out(all, caret as int, cols as int, i as int);
        let (next, spot) = lay_out(&mut rows, &mut line, used, g, byte == caret, cursor, cols);
        assert(laid_out(all, caret as int, cols as int, i + 1) =~= one_more(
            w,
            g@,
            byte == caret,
            cols as int,
        ));
        used = next;
        cursor = spot;
        byte += n;
        i += 1;
    }
    assert(rows@.len() == texts(rows@).len());
    let at_end = caret == total;
    let count = rows.len();
    let ghost w = laid_out(all, caret as int, cols as int, all.len() as int);
    let last = text_of(&line);
    let ghost before = texts(rows@);
    rows.push(last);
    assert(texts(rows@) =~= before.push(last@));
    if at_end {
        (rows, count, used)
    } else {
        match cursor {
            Some((row, column)) => (rows, row, column),
            None => (rows, count, 0),
        }
    }
}

/// Where the comment editor stands in an area; nowhere in one that is too
/// small.
pub open spec fn editor_box(area: Rect) -> Option<Rect> {
    if area.width < 4 || area.height < 4 {
        None
    } else {
        let width = least(most(area.width - 4, 4), 72);
        let height = least(most(area.height - 2, 4), 9);
        Some(
            Rect {
                x: (area.x + (area.width - width) / 2) as u16,
                y: (area.y + (area.height - height) / 2) as u16,
                width: width as u16,
                height: height as u16,
            },
        )
    }
}

/// Where the comment editor stands in an area.
pub fn editor_popup(area: Rect) -> (r: Option<Rect>)
    requires
        area.x + area.width <= u16::MAX,
        area.y + area.height <= u16::MAX,
    ensures
        r == editor_box(area),
{
    if area.width < 4 || area.height < 4 {
        return None;
    }
    let w = area.width - 4;
    let w: u16 = if w < 4 {
        4
    } else {
        w
    };
    let width: u16 = if w > 72 {
        72
    } else {
        w
    };
    let h = area.height - 2;
    let h: u16 = if h < 4 {
        4
    } else {
        h
    };
    let height: u16 = if h > 9 {
        9
    } else {
        h
    };
    Some(
        Rect {
            x: area.x + (area.width - width) / 2,
            y: area.y + (area.height - height) / 2,
            width,
            height,
        },
    )
}

/// The first row of the editor that is drawn: the caret's is the last at most.
pub fn editor_top(cursor_row: usize, height: u16) -> (r: usize)
    ensures
        r == monus(cursor_row as int, monus(most(height as int, 1), 1)),
{
    let viewport: usize = if height > 1 {
        height as usize
    } else {
        1
    };
    if cursor_row > viewport - 1 {
        cursor_row - (viewport - 1)
    } else {
        0
    }
}

// ---- The note on a comment ----

/// How wide a note on a comment would be: its widest line and its frame.
pub open spec fn note_width(body: Seq<Seq<char>>, location: Seq<char>, n: int) -> int
    decreases n,
{
    if n <= 0 {
        cell_count(location) as int
    } else {
        most(note_width(body, location, n - 1), cell_count(body[n - 1]) as int)
    }
}

/// How wide a note on a comment is within bounds: no more than 60 columns.
pub open spec fn note_columns(body: Seq<char>, location: Seq<char>, bounds: Rect) -> int {
    let rows = lines(body);
    let wanted = least(note_width(rows, location, rows.len() as int) + 4, 65535);
    least(most(wanted, 16), least(bounds.width as int, 60))
}

/// How wide a note on a comment is within bounds of 16 columns or more.
pub fn tooltip_width(comment: &SavedComment, bounds: Rect) -> (r: u16)
    requires
        bounds.width >= 16,
    ensures
        r == note_columns(comment@.body, comment@.pending.location, bounds),
{
    let v = chars_of(comment.body.as_str());
    let rows = lines_of(&v);
    let ghost all = lines(comment@.body);
    let mut wide = count_cells(comment.pending.location.as_str());
    let mut i: usize = 0;
    assert(rows@.len() == all.len());
    while i < rows.len()
        invariant
            i <= rows@.len(),
            all == pieces(rows@),
            wide == note_width(all, comment@.pending.location, i as int),
        decreases rows@.len() - i,
    {
        assert(all[i as int] == rows@[i as int]@);
        let n = count_cells(text_of(&rows[i]).as_str());
        if n > wide {
            wide = n;
        }
        i += 1;
    }
    let wanted = if wide > 65531 {
        65535
    } else {
        wide + 4
    };
    let floor: u16 = if wanted < 16 {
        16
    } else {
        wanted
    };
    let max: u16 = if bounds.width < 60 {
        bounds.width
    } else {
        60
    };
    if floor < max {
        floor
    } else {
        max
    }
}

/// Where a note of this size stands: below the mouse, or above it where there is
/// no room, and within bounds.
pub open spec fn note_place(bounds: Rect, x: u16, y: u16, width: u16, height: u16) -> Rect {
    let right = edge(bounds.x, bounds.width);
    let bottom = edge(bounds.y, bounds.height);
    let below = edge(y, 1);
    Rect {
        x: most(least(edge(x, 1), monus(right, width as int)), bounds.x as int) as u16,
        y: (if least(below + height, 65535) <= bottom {
            below
        } else {
            most(monus(y as int, height as int), bounds.y as int)
        }) as u16,
        width,
        height,
    }
}

/// Where a note of this size stands.
pub fn tooltip_area(bounds: Rect, x: u16, y: u16, width: u16, height: u16) -> (r: Rect)
    ensures
        r == note_place(bounds, x, y, width, height),
{
    let right = edge_of(bounds.x, bounds.width);
    let bottom = edge_of(bounds.y, bounds.height);
    let left = if right > width {
        right - width
    } else {
        0
    };
    let ax = edge_of(x, 1);
    let ax = if ax < left {
        ax
    } else {
        left
    };
    let ax = if ax > bounds.x {
        ax
    } else {
        bounds.x
    };
    let below = edge_of(y, 1);
    let ay = if edge_of(below, height) <= bottom {
        below
    } else {
        let above = if y > height {
            y - height
        } else {
            0
        };
        if above > bounds.y {
            above
        } else {
            bounds.y
        }
    };
    Rect { x: ax, y: ay, width, height }
}

// ---- The footer ----

/// What the footer shows: its text, and where each action stands.
#[verifier::ext_equal]
pub struct FooterView {
    pub spans: Seq<SpanView>,
    pub actions: Seq<(Rect, FooterAction)>,
    /// The column after the last.
    pub x: int,
    /// Whether the next action did not fit.
    pub full: bool,
}

/// One label more, where it fits.
pub open spec fn with_label(
    f: FooterView,
    action: FooterAction,
    label: Seq<char>,
    area: Rect,
    hover: Option<FooterAction>,
) -> FooterView {
    let width = cell_count(label) as int;
    if f.full || least(f.x + width, 65535) > edge(area.x, area.width) {
        FooterView { full: true, ..f }
    } else {
        FooterView {
            spans: f.spans.push(
                SpanView {
                    text: label,
                    style: if hover == Some(action) {
                        Style { bg: Some(Color::DarkGray), ..no_style() }
                    } else {
                        Style { dim: true, ..no_style() }
                    },
                },
            ),
            actions: f.actions.push(
                (Rect { x: f.x as u16, y: area.y, width: width as u16, height: 1 }, action),
            ),
            x: least(f.x + width, 65535),
            full: false,
        }
    }
}

/// The first `n` of the labels.
pub open spec fn with_labels(
    f: FooterView,
    entries: Seq<(FooterAction, Seq<char>)>,
    area: Rect,
    hover: Option<FooterAction>,
    n: int,
) -> FooterView
    decreases n,
{
    if n <= 0 {
        f
    } else {
        with_label(
            with_labels(f, entries, area, hover, n - 1),
            entries[n - 1].0,
            entries[n - 1].1,
            area,
            hover,
        )
    }
}

/// The footer: what can be done, as far as it fits. `count` is how many comments
/// the file has.
pub open spec fn footer_of(
    platform: Platform,
    selected: bool,
    has_comments: bool,
    count: nat,
    area: Rect,
    hover: Option<FooterAction>,
) -> FooterView {
    let hint = " drag to select text"@;
    let start = if selected {
        FooterView { spans: Seq::empty(), actions: Seq::empty(), x: area.x as int, full: false }
    } else {
        FooterView {
            spans: seq![SpanView { text: hint, style: Style { dim: true, ..no_style() } }],
            actions: Seq::empty(),
            x: least(area.x + cell_count(hint), 65535),
            full: false,
        }
    };
    let entries = offered(platform, selected, has_comments);
    let f = with_labels(start, entries, area, hover, entries.len() as int);
    if !selected && count > 0 {
        with_label(
            FooterView { full: false, ..f },
            FooterAction::ClearFileComments,
            " d Clear "@ + digits(count) + " "@,
            area,
            hover,
        )
    } else {
        f
    }
}

/// The footer's text and actions.
pub struct Footer {
    pub spans: Vec<Span>,
    pub actions: Vec<(Rect, FooterAction)>,
    pub x: u16,
    pub full: bool,
}

impl View for Footer {
    type V = FooterView;

    open spec fn view(&self) -> FooterView {
        FooterView {
            spans: spans_view(self.spans@),
            actions: self.actions@,
            x: self.x as int,
            full: self.full,
        }
    }
}

impl Footer {
    fn label(&mut self, action: FooterAction, label: &str, area: Rect, hover: Option<FooterAction>)
        ensures
            final(self)@ == with_label(old(self)@, action, label@, area, hover),
    {
        let width = count_cells(label);
        let next = edge_of(self.x, width);
        if self.full || next > edge_of(area.x, area.width) {
            self.full = true;
            return;
        }
        let hovered = match hover {
            Some(a) => a == action,
            None => false,
        };
        let style = if hovered {
            Style::default().bg(Color::DarkGray)
        } else {
            Style::default().dim()
        };
        push_span(&mut self.spans, Span { text: label.to_string(), style });
        self.actions.push((Rect { x: self.x, y: area.y, width, height: 1 }, action));
        self.x = next;
    }
}

/// The footer: what can be done, as far as it fits.
pub fn layout_footer(
    platform: Platform,
    selected: bool,
    has_comments: bool,
    count: usize,
    area: Rect,
    hover: Option<FooterAction>,
) -> (r: Footer)
    ensures
        r@ == footer_of(platform, selected, has_comments, count as nat, area, hover),
{
    let mut f = Footer { spans: Vec::new(), actions: Vec::new(), x: area.x, full: false };
    assert(f@.spans =~= Seq::empty());
    if !selected {
        let hint = " drag to select text";
        push_span(
            &mut f.spans,
            Span { text: hint.to_string(), style: Style::default().dim() },
        );
        f.x = edge_of(area.x, count_cells(hint));
        assert(f@.spans =~= seq![
            SpanView { text: hint@, style: Style { dim: true, ..no_style() } },
        ]);
    }
    let ghost start = f@;
    let entries = footer_entries(platform, selected, has_comments);
    let ghost all = offered(platform, selected, has_comments);
    assert(all.len() == entries@.len());
    let mut i: usize = 0;
    while i < entries.len()
        invariant
            i <= entries@.len(),
            all == labels(entries@),
            f@ == with_labels(start, all, area, hover, i as int),
        decreases entries@.len() - i,
    {
        let (action, label) = entries[i];
        assert(all[i as int] == (entries@[i as int].0, entries@[i as int].1@));
        f.label(action, label, area, hover);
        i += 1;
    }
    if !selected && count > 0 {
        f.full = false;
        let n = text_of(&digits_of(count));
        let text = cat3(" d Clear ", n.as_str(), " ");
        f.label(FooterAction::ClearFileComments, text.as_str(), area, hover);
    }
    f
}

} // verus!
