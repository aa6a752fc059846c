//! Rows of a diff cut to the width of the screen.

use vstd::prelude::*;

use crate::cells::{cell_count, clusters, count_cells, graphemes, text_width, width_of};
use crate::style::{
    lines_view, no_style, patched, push_span, spans_text, spans_view, Line, LineView, Span, SpanView,
    Style,
};
use crate::syntax::{push_spaces, spaces};
use crate::text::{cat, chars_of, text_of, texts};
use crate::viewer::rows::{add_up, plus, DisplayUnit, SelectableRow, SelectableView};

verus! {

/// Whether `c` is a control character.
pub open spec fn is_control_char(c: char) -> bool {
    let n = c as u32;
    n < 32 || 127 <= n <= 159
}

pub open spec fn has_control(s: Seq<char>) -> bool {
    exists|i: int| 0 <= i < s.len() && is_control_char(#[trigger] s[i])
}

fn holds_control(v: &[char]) -> (r: bool)
    ensures
        r == has_control(v@),
{
    let mut i: usize = 0;
    while i < v.len()
        invariant
            i <= v@.len(),
            forall|k: int| 0 <= k < i ==> !is_control_char(#[trigger] v@[k]),
        decreases v@.len() - i,
    {
        let n = v[i] as u32;
        if n < 32 || (127 <= n && n <= 159) {
            assert(is_control_char(v@[i as int]));
            return true;
        }
        i += 1;
    }
    false
}

/// One grapheme as it is drawn.
pub struct Glyph {
    pub symbol: String,
    pub style: Style,
    pub width: u16,
}

#[verifier::ext_equal]
pub struct GlyphView {
    pub symbol: Seq<char>,
    pub style: Style,
    pub width: int,
}

impl View for Glyph {
    type V = GlyphView;

    open spec fn view(&self) -> GlyphView {
        GlyphView { symbol: self.symbol@, style: self.style, width: self.width as int }
    }
}

pub open spec fn glyphs_view(v: Seq<Glyph>) -> Seq<GlyphView> {
    v.map_values(|g: Glyph| g@)
}

/// The graphemes among the first `n` of `parts` that are drawn: those without
/// control characters.
pub open spec fn drawn(parts: Seq<Seq<char>>, style: Style, n: int) -> Seq<GlyphView>
    decreases n,
{
    if n <= 0 {
        Seq::empty()
    } else {
        let before = drawn(parts, style, n - 1);
        if has_control(parts[n - 1]) {
            before
        } else {
            before.push(
                GlyphView {
                    symbol: parts[n - 1],
                    style,
                    width: cell_count(parts[n - 1]) as int,
                },
            )
        }
    }
}

pub open spec fn span_glyphs(span: SpanView, style: Style) -> Seq<GlyphView> {
    let parts = clusters(span.text);
    drawn(parts, patched(style, span.style), parts.len() as int)
}

/// The graphemes of a line's first `n` spans as they are drawn: in the span's
/// style over the line's.
pub open spec fn line_glyphs(line: LineView, n: int) -> Seq<GlyphView>
    decreases n,
{
    if n <= 0 {
        Seq::empty()
    } else {
        line_glyphs(line, n - 1) + span_glyphs(
            line.spans[n - 1],
            patched(no_style(), line.style),
        )
    }
}

fn push_glyphs(out: &mut Vec<Glyph>, span: &Span, style: Style)
    ensures
        glyphs_view(final(out)@) == glyphs_view(old(out)@) + span_glyphs(span@, style),
{
    let parts = graphemes(span.text.as_str());
    let ghost all = clusters(span.text@);
    let style = style.patch(span.style);
    let mut i: usize = 0;
    assert(glyphs_view(out@) + drawn(all, style, 0) =~= glyphs_view(out@));
    while i < parts.len()
        invariant
            i <= parts@.len(),
            all == texts(parts@),
            glyphs_view(out@) == glyphs_view(old(out)@) + drawn(all, style, i as int),
        decreases parts@.len() - i,
    {
        let part = parts[i].as_str();
        assert(all[i as int] == part@);
        let v = chars_of(part);
        if !holds_control(&v) {
            let glyph = Glyph { symbol: parts[i].clone(), style, width: count_cells(part) };
            let ghost before = glyphs_view(out@);
            out.push(glyph);
            assert(glyphs_view(out@) =~= before.push(glyph@));
            assert(glyphs_view(out@) =~= glyphs_view(old(out)@) + drawn(all, style, i + 1));
        }
        i += 1;
    }
    assert(all.len() == parts@.len());
}

/// The graphemes of a line as they are drawn.
pub fn styled_graphemes(line: &Line) -> (r: Vec<Glyph>)
    ensures
        glyphs_view(r@) == line_glyphs(line@, line@.spans.len() as int),
{
    let base = Style::default().patch(line.style);
    let mut out: Vec<Glyph> = Vec::new();
    let mut i: usize = 0;
    assert(glyphs_view(out@) =~= Seq::empty());
    assert(line@.spans.len() == line.spans@.len());
    while i < line.spans.len()
        invariant
            i <= line.spans@.len(),
            base == patched(no_style(), line@.style),
            glyphs_view(out@) == line_glyphs(line@, i as int),
        decreases line.spans@.len() - i,
    {
        assert(line@.spans[i as int] == line.spans@[i as int]@);
        push_glyphs(&mut out, &line.spans[i], base);
        i += 1;
    }
    out
}

// ---- Wrapping ----

/// The columns used by the graphemes `from..to` after the first `used`.
pub open spec fn used_by(g: Seq<GlyphView>, from: int, to: int, used: int) -> int
    decreases to - from,
{
    if to <= from {
        used
    } else {
        let before = used_by(g, from, to - 1, used);
        if before + g[to - 1].width > 65535 {
            65535
        } else {
            before + g[to - 1].width
        }
    }
}

/// Whether a row that began at `from` breaks before the grapheme at `at`: the
/// row holds something, and the grapheme is seen and does not fit.
pub open spec fn breaks_at(g: Seq<GlyphView>, from: int, at: int, used: int, width: int) -> bool {
    let so_far = used_by(g, from, at, used);
    &&& so_far > used
    &&& g[at].width > 0
    &&& (if so_far + g[at].width > 65535 {
        65535
    } else {
        so_far + g[at].width
    }) > width
}

/// Where the row that began at `from` ends, looked for from `at` on.
pub open spec fn row_end(g: Seq<GlyphView>, from: int, at: int, used: int, width: int) -> int
    decreases g.len() - at,
{
    if at >= g.len() {
        g.len() as int
    } else if breaks_at(g, from, at, used, width) {
        at
    } else {
        row_end(g, from, at + 1, used, width)
    }
}

/// The graphemes `from..to` with neighbours of one style in one span.
pub open spec fn runs(g: Seq<GlyphView>, from: int, to: int) -> Seq<SpanView>
    decreases to - from,
{
    if to <= from {
        Seq::empty()
    } else {
        let before = runs(g, from, to - 1);
        let last = g[to - 1];
        if before.len() > 0 && before.last().style == last.style {
            before.drop_last().push(
                SpanView { text: before.last().text + last.symbol, style: last.style },
            )
        } else {
            before.push(SpanView { text: last.symbol, style: last.style })
        }
    }
}

/// One row: what indents it, its graphemes, and blanks up to the width where
/// the line has a background.
pub open spec fn wrapped_row(
    g: Seq<GlyphView>,
    from: int,
    to: int,
    indent: int,
    width: int,
    style: Style,
) -> LineView {
    let head = if indent > 0 {
        seq![SpanView { text: spaces(indent as nat), style: no_style() }]
    } else {
        Seq::empty()
    };
    let used = used_by(g, from, to, indent);
    let tail = if style.bg is Some && used < width {
        seq![SpanView { text: spaces((width - used) as nat), style: no_style() }]
    } else {
        Seq::empty()
    };
    LineView { spans: head + runs(g, from, to) + tail, style }
}

/// The rows from the grapheme at `from` on. All but the first are indented.
pub open spec fn wrapped_rows(
    g: Seq<GlyphView>,
    from: int,
    indent: int,
    rest_indent: int,
    width: int,
    style: Style,
) -> Seq<LineView>
    decreases g.len() - from,
{
    let end = row_end(g, from, from, indent, width);
    if end <= from || end >= g.len() {
        seq![wrapped_row(g, from, g.len() as int, indent, width, style)]
    } else {
        seq![wrapped_row(g, from, end, indent, width, style)] + wrapped_rows(
            g,
            end,
            rest_indent,
            rest_indent,
            width,
            style,
        )
    }
}

/// How wide the first two spans of a line are: its gutter, where it has more
/// than one.
pub open spec fn gutter(line: LineView) -> usize {
    if line.spans.len() == 0 {
        0
    } else if line.spans.len() == 1 {
        width_of(line.spans[0].text) as usize
    } else {
        plus(width_of(line.spans[0].text) as int, width_of(line.spans[1].text) as int)
    }
}

/// How far continued rows are indented: by the gutter, and less than the width.
pub open spec fn wrap_indent(line: LineView, width: int) -> int {
    let n = if line.spans.len() >= 2 {
        gutter(line) as int
    } else {
        0
    };
    if n < width - 1 {
        n
    } else {
        width - 1
    }
}

/// The rows that a line takes on a screen of this width, one at least.
pub open spec fn wrapped(line: LineView, width: int) -> Seq<LineView> {
    let w = if width < 1 {
        1
    } else {
        width
    };
    wrapped_rows(
        line_glyphs(line, line.spans.len() as int),
        0,
        0,
        wrap_indent(line, w),
        w,
        line.style,
    )
}

fn gutter_of(line: &Line) -> (r: usize)
    ensures
        r == gutter(line@),
{
    let n = line.spans.len();
    assert(line@.spans.len() == n);
    if n == 0 {
        return 0;
    }
    assert(line@.spans[0] == line.spans@[0]@);
    let a = text_width(line.spans[0].text.as_str());
    if n == 1 {
        return a;
    }
    assert(line@.spans[1] == line.spans@[1]@);
    add_up(a, text_width(line.spans[1].text.as_str()))
}

fn add_width(used: u16, more: u16) -> (r: u16)
    ensures
        r == (if used + more > 65535 {
            65535
        } else {
            used + more
        }),
{
    if used > 65535 - more {
        65535
    } else {
        used + more
    }
}

fn end_of_row(g: &Vec<Glyph>, from: usize, indent: u16, width: u16) -> (r: (usize, u16))
    requires
        from <= g@.len(),
    ensures
        r.0 == row_end(glyphs_view(g@), from as int, from as int, indent as int, width as int),
        from <= r.0 <= g@.len(),
        from < g@.len() ==> from < r.0,
        r.1 == used_by(glyphs_view(g@), from as int, r.0 as int, indent as int),
{
    let ghost all = glyphs_view(g@);
    let mut at: usize = from;
    let mut used: u16 = indent;
    assert(all.len() == g@.len());
    while at < g.len()
        invariant
            from <= at <= g@.len(),
            all == glyphs_view(g@),
            all.len() == g@.len(),
            used == used_by(all, from as int, at as int, indent as int),
            row_end(all, from as int, from as int, indent as int, width as int) == row_end(
                all,
                from as int,
                at as int,
                indent as int,
                width as int,
            ),
        decreases g@.len() - at,
    {
        let w = g[at].width;
        assert(all[at as int] == g@[at as int]@);
        let next = add_width(used, w);
        if used > indent && w > 0 && next > width {
            return (at, used);
        }
        used = next;
        at += 1;
    }
    (at, used)
}

pub(crate) fn push_runs(out: &mut Vec<Span>, g: &Vec<Glyph>, from: usize, to: usize)
    requires
        from <= to <= g@.len(),
    ensures
        spans_view(final(out)@) == spans_view(old(out)@) + runs(
            glyphs_view(g@),
            from as int,
            to as int,
        ),
{
    let ghost all = glyphs_view(g@);
    let ghost first = spans_view(out@);
    let mut text = String::new();
    let mut style = Style::default();
    let mut open = false;
    let mut i: usize = from;
    assert(text@ =~= Seq::empty());
    assert(first + runs(all, from as int, from as int) =~= first);
    while i < to
        invariant
            from <= i <= to <= g@.len(),
            all == glyphs_view(g@),
            !open ==> i == from,
            open == (runs(all, from as int, i as int).len() > 0),
            open ==> ({
                let r = runs(all, from as int, i as int);
                spans_view(out@) == first + r.drop_last() && r.last() == (SpanView {
                    text: text@,
                    style,
                })
            }),
            !open ==> spans_view(out@) == first,
        decreases to - i,
    {
        let glyph = &g[i];
        assert(all[i as int] == glyph@);
        let ghost r = runs(all, from as int, i as int);
        if open && style == glyph.style {
            text = cat(text.as_str(), glyph.symbol.as_str());
            assert(runs(all, from as int, i + 1).drop_last() =~= r.drop_last());
        } else {
            if open {
                push_span(out, Span { text, style });
                assert(spans_view(out@) =~= first + r);
            }
            text = glyph.symbol.clone();
            style = glyph.style;
            open = true;
            assert(runs(all, from as int, i + 1).drop_last() =~= r);
            assert(r.len() == 0 ==> first + r =~= first);
        }
        i += 1;
    }
    if open {
        let ghost r = runs(all, from as int, to as int);
        push_span(out, Span { text, style });
        assert(r.drop_last().push(r.last()) =~= r);
        assert(spans_view(out@) =~= first + r);
    } else {
        assert(spans_view(out@) =~= first + runs(all, from as int, to as int));
    }
}

pub(crate) fn blanks(n: u16) -> (r: Span)
    ensures
        r@ == (SpanView { text: spaces(n as nat), style: no_style() }),
{
    let mut v: Vec<char> = Vec::new();
    push_spaces(&mut v, n as usize);
    assert(v@ =~= spaces(n as nat));
    Span { text: text_of(&v), style: Style::default() }
}

fn make_row(
    g: &Vec<Glyph>,
    from: usize,
    to: usize,
    used: u16,
    indent: u16,
    width: u16,
    style: Style,
) -> (r: Line)
    requires
        from <= to <= g@.len(),
        used == used_by(glyphs_view(g@), from as int, to as int, indent as int),
    ensures
        r@ == wrapped_row(
            glyphs_view(g@),
            from as int,
            to as int,
            indent as int,
            width as int,
            style,
        ),
{
    let ghost want = wrapped_row(
        glyphs_view(g@),
        from as int,
        to as int,
        indent as int,
        width as int,
        style,
    );
    let ghost body = runs(glyphs_view(g@), from as int, to as int);
    let mut spans: Vec<Span> = Vec::new();
    assert(spans_view(spans@) =~= Seq::empty());
    if indent > 0 {
        push_span(&mut spans, blanks(indent));
    }
    let ghost head = spans_view(spans@);
    push_runs(&mut spans, g, from, to);
    if style.bg.is_some() && used < width {
        push_span(&mut spans, blanks(width - used));
    }
    assert(spans_view(spans@) =~= want.spans);
    Line { spans, style }
}

/// The rows that a line takes on a screen of this width. Continued rows keep a
/// blank copy of the gutter.
pub fn wrap_diff_line(line: &Line, width: u16) -> (r: Vec<Line>)
    ensures
        lines_view(r@) == wrapped(line@, width as int),
        r@.len() >= 1,
{
    let cols: u16 = if width < 1 {
        1
    } else {
        width
    };
    let n = if line.spans.len() >= 2 {
        gutter_of(line)
    } else {
        0
    };
    assert(line@.spans.len() == line.spans@.len());
    let rest: u16 = if n < (cols - 1) as usize {
        n as u16
    } else {
        cols - 1
    };
    let g = styled_graphemes(line);
    let ghost all = glyphs_view(g@);
    assert(all.len() == g@.len());
    let total = g.len();
    let mut out: Vec<Line> = Vec::new();
    let mut from: usize = 0;
    let mut indent: u16 = 0;
    let ghost want = wrapped(line@, width as int);
    assert(lines_view(out@) =~= Seq::empty());
    loop
        invariant
            from <= total,
            total == g@.len(),
            all == glyphs_view(g@),
            all.len() == total,
            want == wrapped(line@, width as int),
            lines_view(out@) + wrapped_rows(
                all,
                from as int,
                indent as int,
                rest as int,
                cols as int,
                line@.style,
            ) =~= want,
        decreases total - from,
    {
        let (end, used) = end_of_row(&g, from, indent, cols);
        let row = make_row(&g, from, end, used, indent, cols, line.style);
        let ghost before = lines_view(out@);
        out.push(row);
        assert(lines_view(out@) =~= before.push(row@));
        if end >= total {
            assert(lines_view(out@) =~= want);
            return out;
        }
        assert(lines_view(out@) + wrapped_rows(
            all,
            end as int,
            rest as int,
            rest as int,
            cols as int,
            line@.style,
        ) =~= before + wrapped_rows(
            all,
            from as int,
            indent as int,
            rest as int,
            cols as int,
            line@.style,
        ));
        from = end;
        indent = rest;
    }
}

/// The graphemes one after the other.
pub open spec fn glyph_text(g: Seq<GlyphView>, from: int, to: int) -> Seq<char>
    decreases to - from,
{
    if to <= from {
        Seq::empty()
    } else {
        glyph_text(g, from, to - 1) + g[to - 1].symbol
    }
}

/// A row's spans hold its graphemes, and nothing else, in order.
pub proof fn law_runs_keep_the_text(g: Seq<GlyphView>, from: int, to: int)
    ensures
        spans_text(runs(g, from, to)) == glyph_text(g, from, to),
    decreases to - from,
{
    if to > from {
        law_runs_keep_the_text(g, from, to - 1);
        let before = runs(g, from, to - 1);
        let all = runs(g, from, to);
        let last = g[to - 1];
        if before.len() > 0 && before.last().style == last.style {
            assert(all.drop_last() =~= before.drop_last());
            assert(spans_text(before) == spans_text(before.drop_last()) + before.last().text);
            assert(spans_text(all) =~= spans_text(before) + last.symbol);
        } else {
            assert(all.drop_last() =~= before);
        }
    }
}

/// Where the rows from the grapheme at `from` on begin, and where the last ends.
pub open spec fn row_cuts(
    g: Seq<GlyphView>,
    from: int,
    indent: int,
    rest_indent: int,
    width: int,
) -> Seq<int>
    decreases g.len() - from,
{
    let end = row_end(g, from, from, indent, width);
    if end <= from || end >= g.len() {
        seq![from, g.len() as int]
    } else {
        seq![from] + row_cuts(g, end, rest_indent, rest_indent, width)
    }
}

proof fn lemma_row_cuts(
    g: Seq<GlyphView>,
    from: int,
    indent: int,
    rest_indent: int,
    width: int,
    style: Style,
)
    requires
        0 <= from <= g.len(),
    ensures
        ({
            let cuts = row_cuts(g, from, indent, rest_indent, width);
            let rows = wrapped_rows(g, from, indent, rest_indent, width, style);
            &&& cuts.len() == rows.len() + 1
            &&& rows.len() >= 1
            &&& cuts[0] == from
            &&& cuts.last() == g.len()
            &&& forall|i: int| 0 <= i < rows.len() ==> 0 <= (#[trigger] cuts[i]) <= cuts[i + 1]
            &&& forall|i: int|
                0 <= i < rows.len() ==> #[trigger] rows[i] == wrapped_row(
                    g,
                    cuts[i],
                    cuts[i + 1],
                    if i == 0 {
                        indent
                    } else {
                        rest_indent
                    },
                    width,
                    style,
                )
        }),
    decreases g.len() - from,
{
    let end = row_end(g, from, from, indent, width);
    if !(end <= from || end >= g.len()) {
        lemma_row_cuts(g, end, rest_indent, rest_indent, width, style);
        let later = row_cuts(g, end, rest_indent, rest_indent, width);
        let cuts = row_cuts(g, from, indent, rest_indent, width);
        let rows = wrapped_rows(g, from, indent, rest_indent, width, style);
        let rest = wrapped_rows(g, end, rest_indent, rest_indent, width, style);
        assert forall|i: int| 0 <= i < rows.len() implies 0 <= (#[trigger] cuts[i]) <= cuts[i
            + 1] by {
            if i > 0 {
                assert(cuts[i] == later[i - 1] && cuts[i + 1] == later[i]);
            }
        }
        assert forall|i: int| 0 <= i < rows.len() implies #[trigger] rows[i] == wrapped_row(
            g,
            cuts[i],
            cuts[i + 1],
            if i == 0 {
                indent
            } else {
                rest_indent
            },
            width,
            style,
        ) by {
            if i > 0 {
                assert(rows[i] == rest[i - 1]);
                assert(cuts[i] == later[i - 1] && cuts[i + 1] == later[i]);
            }
        }
    }
}

/// Wrapping loses and repeats nothing: the rows of a line hold its graphemes, each
/// row those from where the one before ended, and all but the first are indented.
pub proof fn law_wrapping_keeps_the_graphemes(line: LineView, width: int)
    requires
        width >= 1,
    ensures
        ({
            let g = line_glyphs(line, line.spans.len() as int);
            let indent = wrap_indent(line, width);
            let rows = wrapped(line, width);
            let cuts = row_cuts(g, 0, 0, indent, width);
            &&& cuts.len() == rows.len() + 1
            &&& cuts[0] == 0
            &&& cuts.last() == g.len()
            &&& forall|i: int| 0 <= i < rows.len() ==> 0 <= (#[trigger] cuts[i]) <= cuts[i + 1]
            &&& forall|i: int|
                0 <= i < rows.len() ==> #[trigger] rows[i] == wrapped_row(
                    g,
                    cuts[i],
                    cuts[i + 1],
                    if i == 0 {
                        0
                    } else {
                        indent
                    },
                    width,
                    line.style,
                )
        }),
{
    let g = line_glyphs(line, line.spans.len() as int);
    lemma_row_cuts(g, 0, 0, wrap_indent(line, width), width, line.style);
}

/// No row but one of a single seen grapheme is wider than the screen.
pub proof fn law_rows_fit(g: Seq<GlyphView>, from: int, at: int, used: int, width: int)
    requires
        0 <= from <= at <= g.len(),
        0 <= used <= width < 65535,
        forall|k: int| 0 <= k < g.len() ==> (#[trigger] g[k]).width >= 0,
        used_by(g, from, at, used) <= width || only_one_seen(g, from, at),
        used_by(g, from, at, used) >= used,
    ensures
        ({
            let end = row_end(g, from, at, used, width);
            used_by(g, from, end, used) <= width || only_one_seen(g, from, end)
        }),
    decreases g.len() - at,
{
    if at < g.len() && !breaks_at(g, from, at, used, width) {
        let so_far = used_by(g, from, at, used);
        let w = g[at].width;
        if so_far <= used {
            lemma_nothing_used(g, from, at, used);
        }
        assert(used_by(g, from, at + 1, used) >= used);
        assert(used_by(g, from, at + 1, used) <= width || only_one_seen(g, from, at + 1)) by {
            if so_far > used && w > 0 {
            } else if w == 0 {
                if only_one_seen(g, from, at) {
                    let k = choose|k: int| from <= k < at && #[trigger] seen_at(g, from, at, k);
                    assert(seen_at(g, from, at + 1, k));
                }
            } else {
                assert(seen_at(g, from, at + 1, at));
            }
        }
        law_rows_fit(g, from, at + 1, used, width);
    }
}

/// All but one of the graphemes `from..to` take no cell.
pub open spec fn only_one_seen(g: Seq<GlyphView>, from: int, to: int) -> bool {
    exists|k: int| from <= k < to && #[trigger] seen_at(g, from, to, k)
}

/// All graphemes `from..to` but that at `k` take no cell.
pub open spec fn seen_at(g: Seq<GlyphView>, from: int, to: int, k: int) -> bool {
    forall|j: int| from <= j < to && j != k ==> (#[trigger] g[j]).width == 0
}

proof fn lemma_nothing_used(g: Seq<GlyphView>, from: int, at: int, used: int)
    requires
        0 <= from <= at <= g.len(),
        0 <= used < 65535,
        forall|k: int| 0 <= k < g.len() ==> (#[trigger] g[k]).width >= 0,
        used_by(g, from, at, used) <= used,
    ensures
        forall|j: int| from <= j < at ==> (#[trigger] g[j]).width == 0,
        used_by(g, from, at, used) == used,
    decreases at - from,
{
    if from < at {
        lemma_used_grows(g, from, at - 1, used);
        assert(g[at - 1].width >= 0);
        lemma_nothing_used(g, from, at - 1, used);
    }
}

proof fn lemma_used_grows(g: Seq<GlyphView>, from: int, at: int, used: int)
    requires
        0 <= from <= at <= g.len(),
        0 <= used <= 65535,
        forall|k: int| 0 <= k < g.len() ==> (#[trigger] g[k]).width >= 0,
    ensures
        used <= used_by(g, from, at, used) <= 65535,
    decreases at - from,
{
    if from < at {
        lemma_used_grows(g, from, at - 1, used);
        assert(g[at - 1].width >= 0);
    }
}

// ---- All rows of a document ----

/// The part of a source row that one visual row shows.
#[derive(Clone, Copy, Debug, PartialEq, Eq, Structural)]
pub struct VisualFragment {
    pub source_row: usize,
    pub unit_start: usize,
    pub unit_end: usize,
    pub content_x: usize,
}

/// How many cells a unit takes.
pub open spec fn unit_cells(u: DisplayUnit) -> int {
    if u.cell_end > u.cell_start {
        u.cell_end - u.cell_start
    } else {
        0
    }
}

/// The cells of the units `from..to`.
pub open spec fn cells_between(units: Seq<DisplayUnit>, from: int, to: int) -> usize
    decreases to - from,
{
    if to <= from {
        0
    } else {
        plus(cells_between(units, from, to - 1) as int, unit_cells(units[to - 1]))
    }
}

/// Where the fragment that began at `from` ends, looked for from `at` on.
pub open spec fn fragment_end(units: Seq<DisplayUnit>, from: int, at: int, width: int) -> int
    decreases units.len() - at,
{
    if at >= units.len() {
        units.len() as int
    } else if at > from && unit_cells(units[at]) > 0 && plus(
        cells_between(units, from, at) as int,
        unit_cells(units[at]),
    ) > width {
        at
    } else {
        fragment_end(units, from, at + 1, width)
    }
}

/// The fragments of a row's units from `from` on.
pub open spec fn fragments(
    units: Seq<DisplayUnit>,
    from: int,
    row: usize,
    width: int,
    indent: usize,
) -> Seq<VisualFragment>
    decreases units.len() - from,
{
    let end = fragment_end(units, from, from, width);
    if end <= from || end >= units.len() {
        seq![
            VisualFragment {
                source_row: row,
                unit_start: from as usize,
                unit_end: units.len() as usize,
                content_x: indent,
            },
        ]
    } else {
        seq![
            VisualFragment {
                source_row: row,
                unit_start: from as usize,
                unit_end: end as usize,
                content_x: indent,
            },
        ] + fragments(units, end, row, width, indent)
    }
}

pub open spec fn rows_view(v: Seq<Option<SelectableRow>>) -> Seq<Option<SelectableView>> {
    v.map_values(|r: Option<SelectableRow>| row_view(r))
}

pub open spec fn row_view(r: Option<SelectableRow>) -> Option<SelectableView> {
    match r {
        Some(r) => Some(r@),
        None => None,
    }
}

/// A document's rows as they are shown: the rows, which source row each
/// belongs to, and which part of it each shows.
#[verifier::ext_equal]
pub struct Reflow {
    pub lines: Seq<LineView>,
    pub rows: Seq<usize>,
    pub fragments: Seq<VisualFragment>,
}

/// What one source row shows.
pub open spec fn shown_fragments(
    line: LineView,
    source: Option<SelectableView>,
    row: usize,
    width: int,
) -> Seq<VisualFragment> {
    match source {
        Some(s) => {
            let room = width - gutter(line);
            fragments(
                s.units,
                0,
                row,
                if room > 1 {
                    room
                } else {
                    1
                },
                gutter(line),
            )
        },
        None => Seq::new(
            wrapped(line, width).len(),
            |k: int| VisualFragment { source_row: row, unit_start: 0, unit_end: 0, content_x: 0 },
        ),
    }
}

/// The first `n` lines as they are shown.
pub open spec fn reflowed(
    lines: Seq<LineView>,
    sources: Seq<Option<SelectableView>>,
    width: int,
    n: int,
) -> Reflow
    decreases n,
{
    if n <= 0 {
        Reflow { lines: Seq::empty(), rows: Seq::empty(), fragments: Seq::empty() }
    } else {
        let before = reflowed(lines, sources, width, n - 1);
        let line = lines[n - 1];
        let row = (n - 1) as usize;
        let source = if n - 1 < sources.len() {
            sources[n - 1]
        } else {
            None
        };
        Reflow {
            lines: before.lines + wrapped(line, width),
            rows: before.rows + Seq::new(wrapped(line, width).len(), |k: int| row),
            fragments: before.fragments + shown_fragments(line, source, row, width),
        }
    }
}

fn push_fragments(
    out: &mut Vec<VisualFragment>,
    units: &Vec<DisplayUnit>,
    row: usize,
    width: usize,
    indent: usize,
)
    ensures
        final(out)@ == old(out)@ + fragments(units@, 0, row, width as int, indent),
{
    let total = units.len();
    let mut from: usize = 0;
    let ghost want = old(out)@ + fragments(units@, 0, row, width as int, indent);
    loop
        invariant
            from <= total,
            total == units@.len(),
            want == old(out)@ + fragments(units@, 0, row, width as int, indent),
            out@ + fragments(units@, from as int, row, width as int, indent) =~= want,
        decreases total - from,
    {
        let end = end_of_fragment(units, from, width);
        let ghost before = out@;
        out.push(
            VisualFragment { source_row: row, unit_start: from, unit_end: end, content_x: indent },
        );
        if end >= total {
            assert(out@ =~= want);
            return;
        }
        assert(out@ + fragments(units@, end as int, row, width as int, indent) =~= before
            + fragments(units@, from as int, row, width as int, indent));
        from = end;
    }
}

fn end_of_fragment(units: &Vec<DisplayUnit>, from: usize, width: usize) -> (r: usize)
    requires
        from <= units@.len(),
    ensures
        r == fragment_end(units@, from as int, from as int, width as int),
        from <= r <= units@.len(),
        from < units@.len() ==> from < r,
{
    let mut at: usize = from;
    let mut used: usize = 0;
    while at < units.len()
        invariant
            from <= at <= units@.len(),
            used == cells_between(units@, from as int, at as int),
            fragment_end(units@, from as int, from as int, width as int) == fragment_end(
                units@,
                from as int,
                at as int,
                width as int,
            ),
        decreases units@.len() - at,
    {
        let u = units[at];
        let w = if u.cell_end > u.cell_start {
            u.cell_end - u.cell_start
        } else {
            0
        };
        let next = add_up(used, w);
        if at > from && w > 0 && next > width {
            return at;
        }
        used = next;
        at += 1;
    }
    at
}

fn push_copies(out: &mut Vec<usize>, row: usize, n: usize)
    ensures
        final(out)@ == old(out)@ + Seq::new(n as nat, |k: int| row),
{
    let mut i: usize = 0;
    while i < n
        invariant
            i <= n,
            out@ =~= old(out)@ + Seq::new(i as nat, |k: int| row),
        decreases n - i,
    {
        out.push(row);
        i += 1;
    }
}

fn push_blank_fragments(out: &mut Vec<VisualFragment>, row: usize, n: usize)
    ensures
        final(out)@ == old(out)@ + Seq::new(
            n as nat,
            |k: int| VisualFragment { source_row: row, unit_start: 0, unit_end: 0, content_x: 0 },
        ),
{
    let mut i: usize = 0;
    while i < n
        invariant
            i <= n,
            out@ =~= old(out)@ + Seq::new(
                i as nat,
                |k: int|
                    VisualFragment { source_row: row, unit_start: 0, unit_end: 0, content_x: 0 },
            ),
        decreases n - i,
    {
        out.push(VisualFragment { source_row: row, unit_start: 0, unit_end: 0, content_x: 0 });
        i += 1;
    }
}

fn push_shown(
    out: &mut Vec<VisualFragment>,
    line: &Line,
    source: Option<&SelectableRow>,
    row: usize,
    width: u16,
    count: usize,
)
    requires
        count == wrapped(line@, width as int).len(),
    ensures
        final(out)@ == old(out)@ + shown_fragments(
            line@,
            (match source {
                Some(s) => Some(s@),
                None => None,
            }),
            row,
            width as int,
        ),
{
    match source {
        Some(s) => {
            let indent = gutter_of(line);
            let total = width as usize;
            let room = if total > indent && total - indent > 1 {
                total - indent
            } else {
                1
            };
            push_fragments(out, &s.units, row, room, indent);
        },
        None => {
            push_blank_fragments(out, row, count);
        },
    }
}

/// A document's rows as they are shown on a screen of this width.
pub fn reflow_diff_lines(
    lines: &Vec<Line>,
    sources: &Vec<Option<SelectableRow>>,
    width: u16,
) -> (r: (Vec<Line>, Vec<usize>, Vec<VisualFragment>))
    ensures
        ({
            let want = reflowed(
                lines_view(lines@),
                rows_view(sources@),
                width as int,
                lines@.len() as int,
            );
            lines_view(r.0@) == want.lines && r.1@ == want.rows && r.2@ == want.fragments
        }),
{
    let ghost all = lines_view(lines@);
    let ghost rows = rows_view(sources@);
    let mut visual: Vec<Line> = Vec::new();
    let mut visual_rows: Vec<usize> = Vec::new();
    let mut visual_fragments: Vec<VisualFragment> = Vec::new();
    let mut i: usize = 0;
    assert(lines_view(visual@) =~= Seq::empty());
    while i < lines.len()
        invariant
            i <= lines@.len(),
            all == lines_view(lines@),
            rows == rows_view(sources@),
            lines_view(visual@) == reflowed(all, rows, width as int, i as int).lines,
            visual_rows@ == reflowed(all, rows, width as int, i as int).rows,
            visual_fragments@ == reflowed(all, rows, width as int, i as int).fragments,
        decreases lines@.len() - i,
    {
        let line = &lines[i];
        assert(all[i as int] == line@);
        let mut wrapped_lines = wrap_diff_line(line, width);
        let count = wrapped_lines.len();
        assert(lines_view(wrapped_lines@).len() == count);
        push_copies(&mut visual_rows, i, count);
        let source = if i < sources.len() {
            assert(rows[i as int] == row_view(sources@[i as int]));
            match &sources[i] {
                Some(s) => Some(s),
                None => None,
            }
        } else {
            None
        };
        push_shown(&mut visual_fragments, line, source, i, width, count);
        let ghost before = visual@;
        let ghost more = wrapped_lines@;
        visual.append(&mut wrapped_lines);
        assert(lines_view(visual@) =~= lines_view(before) + lines_view(more));
        i += 1;
    }
    (visual, visual_rows, visual_fragments)
}

} // verus!
