//! A document in the viewer: its rows, what is selected, and where it is
//! scrolled to.

use vstd::prelude::*;

use crate::bytes::{byte_get, byte_len, byte_slice};
use crate::diffview::{DiffSourceKind, FoldId};
use crate::input::{least, monus};
use crate::scan::{digits, digits_of, utf8_len};
use crate::style::{lines_view, Line, LineView};
use crate::text::{chars_of, eq_text, join, lemma_join_push, push_all, text_of};
use crate::viewer::rows::{
    add_up, before, column_of, ends_of, plus, point_before, DisplayUnit, HitPoint, SelectableRow,
    SelectableView, SourceKind, TextPoint, TextSelection,
};
use crate::viewer::wrap::{
    reflow_diff_lines, reflowed, row_view, rows_view, VisualFragment,
};

verus! {

/// How long the line that a link led to stays marked, in milliseconds.
pub const SOURCE_LINE_HIGHLIGHT: u64 = 3000;

/// A document in the viewer.
pub struct Doc {
    pub name: String,
    pub context: String,
    pub lines: Vec<Line>,
    /// Files get line numbers; diffs bring their own.
    pub numbered: bool,
    pub scroll: usize,
    /// The fold that each row stands for; empty for what is no diff.
    pub folds: Vec<Option<FoldId>>,
    /// The rows as they are shown, where they were cut to a width.
    pub visual_lines: Vec<Line>,
    pub visual_rows: Vec<usize>,
    pub visual_fragments: Vec<VisualFragment>,
    /// The width that the rows were cut to; 0 where they were not.
    pub visual_width: u16,
    pub sources: Vec<Option<SelectableRow>>,
    pub selection: Option<TextSelection>,
    pub first_change: Option<usize>,
    pub center_first_change_pending: bool,
    pub center_source_row_pending: Option<usize>,
    /// A row that is marked, and until when.
    pub highlighted_source_row: Option<(usize, u64)>,
}

#[verifier::ext_equal]
pub struct DocView {
    pub name: Seq<char>,
    pub context: Seq<char>,
    pub lines: Seq<LineView>,
    pub numbered: bool,
    pub scroll: int,
    pub folds: Seq<Option<FoldId>>,
    pub visual_lines: Seq<LineView>,
    pub visual_rows: Seq<usize>,
    pub visual_fragments: Seq<VisualFragment>,
    pub visual_width: u16,
    pub sources: Seq<Option<SelectableView>>,
    pub selection: Option<TextSelection>,
    pub first_change: Option<usize>,
    pub center_first_change_pending: bool,
    pub center_source_row_pending: Option<usize>,
    pub highlighted_source_row: Option<(usize, u64)>,
}

impl View for Doc {
    type V = DocView;

    open spec fn view(&self) -> DocView {
        DocView {
            name: self.name@,
            context: self.context@,
            lines: lines_view(self.lines@),
            numbered: self.numbered,
            scroll: self.scroll as int,
            folds: self.folds@,
            visual_lines: lines_view(self.visual_lines@),
            visual_rows: self.visual_rows@,
            visual_fragments: self.visual_fragments@,
            visual_width: self.visual_width,
            sources: rows_view(self.sources@),
            selection: self.selection,
            first_change: self.first_change,
            center_first_change_pending: self.center_first_change_pending,
            center_source_row_pending: self.center_source_row_pending,
            highlighted_source_row: self.highlighted_source_row,
        }
    }
}

/// A document that was just loaded.
pub open spec fn fresh(
    name: Seq<char>,
    context: Seq<char>,
    lines: Seq<LineView>,
    numbered: bool,
    folds: Seq<Option<FoldId>>,
) -> DocView {
    DocView {
        name,
        context,
        lines,
        numbered,
        scroll: 0,
        folds,
        visual_lines: Seq::empty(),
        visual_rows: Seq::empty(),
        visual_fragments: Seq::empty(),
        visual_width: 0,
        sources: Seq::empty(),
        selection: None,
        first_change: None,
        center_first_change_pending: false,
        center_source_row_pending: None,
        highlighted_source_row: None,
    }
}

/// The document with its rows cut to a width, where it has folds.
pub open spec fn shaped(d: DocView, width: u16) -> DocView {
    let w: u16 = if width < 1 {
        1
    } else {
        width
    };
    if d.folds.len() == 0 || d.visual_width == w {
        d
    } else {
        let r = reflowed(d.lines, d.sources, w as int, d.lines.len() as int);
        DocView {
            visual_lines: r.lines,
            visual_rows: r.rows,
            visual_fragments: r.fragments,
            visual_width: w,
            ..d
        }
    }
}

/// How many rows are shown.
pub open spec fn visual_count(d: DocView) -> int {
    if d.visual_width == 0 {
        d.lines.len() as int
    } else {
        d.visual_lines.len() as int
    }
}

/// The source row that a shown row belongs to.
pub open spec fn source_row(d: DocView, visual: int) -> Option<usize> {
    if d.visual_width == 0 {
        if visual < d.lines.len() {
            Some(visual as usize)
        } else {
            None
        }
    } else if visual < d.visual_rows.len() {
        Some(d.visual_rows[visual])
    } else {
        None
    }
}

/// The row that can be selected in, where there is one.
pub open spec fn selectable(d: DocView, row: int) -> Option<SelectableView> {
    if 0 <= row < d.sources.len() {
        d.sources[row]
    } else {
        None
    }
}

/// The part of its source row that a shown row shows.
pub open spec fn fragment(d: DocView, visual: int) -> Option<VisualFragment> {
    if d.visual_width == 0 {
        match selectable(d, visual) {
            Some(row) => Some(
                VisualFragment {
                    source_row: visual as usize,
                    unit_start: 0,
                    unit_end: row.units.len() as usize,
                    content_x: 0,
                },
            ),
            None => None,
        }
    } else if visual < d.visual_fragments.len() {
        Some(d.visual_fragments[visual])
    } else {
        None
    }
}

// ---- Anchors ----

/// The first row on the screen that can be found again in another layout.
#[derive(Debug)]
pub struct ViewAnchor {
    pub raw: String,
    pub kind: SourceKind,
    pub unit_start: usize,
    pub screen_row: usize,
}

#[verifier::ext_equal]
pub struct AnchorView {
    pub raw: Seq<char>,
    pub kind: SourceKind,
    pub unit_start: usize,
    pub screen_row: usize,
}

impl View for ViewAnchor {
    type V = AnchorView;

    open spec fn view(&self) -> AnchorView {
        AnchorView {
            raw: self.raw@,
            kind: self.kind,
            unit_start: self.unit_start,
            screen_row: self.screen_row,
        }
    }
}

pub open spec fn anchor_view(a: Option<ViewAnchor>) -> Option<AnchorView> {
    match a {
        Some(a) => Some(a@),
        None => None,
    }
}

/// The anchor among the shown rows `at..end`.
pub open spec fn anchor_from(d: DocView, at: int, end: int) -> Option<AnchorView>
    decreases end - at,
{
    if at >= end {
        None
    } else {
        match fragment(d, at) {
            Some(f) => match selectable(d, f.source_row as int) {
                Some(row) => Some(
                    AnchorView {
                        raw: row.raw,
                        kind: row.kind,
                        unit_start: f.unit_start,
                        screen_row: (at - d.scroll) as usize,
                    },
                ),
                None => anchor_from(d, at + 1, end),
            },
            None => anchor_from(d, at + 1, end),
        }
    }
}

/// The anchor of a screen of this height.
pub open spec fn anchor_of(d: DocView, height: u16) -> Option<AnchorView> {
    anchor_from(d, d.scroll, least(d.scroll + height, visual_count(d)))
}

/// The first source row at or after `i` with the anchor's text and origin, or
/// the number of rows.
pub open spec fn anchored_row(sources: Seq<Option<SelectableView>>, a: AnchorView, i: int) -> int
    decreases sources.len() - i,
{
    if i >= sources.len() {
        sources.len() as int
    } else if sources[i] is Some && sources[i]->0.kind == a.kind && sources[i]->0.raw == a.raw {
        i
    } else {
        anchored_row(sources, a, i + 1)
    }
}

/// The first fragment at or after `i` of this row that starts at this unit, or
/// the number of fragments.
pub open spec fn anchored_fragment(f: Seq<VisualFragment>, row: int, unit: usize, i: int) -> int
    decreases f.len() - i,
{
    if i >= f.len() {
        f.len() as int
    } else if f[i].source_row == row && f[i].unit_start == unit {
        i
    } else {
        anchored_fragment(f, row, unit, i + 1)
    }
}

/// The document scrolled so that the anchor stands where it stood, where it is
/// found.
pub open spec fn restored(d: DocView, a: AnchorView) -> Option<DocView> {
    let row = anchored_row(d.sources, a, 0);
    if row >= d.sources.len() {
        None
    } else if d.visual_width == 0 {
        Some(DocView { scroll: monus(row, a.screen_row as int), ..d })
    } else {
        let visual = anchored_fragment(d.visual_fragments, row, a.unit_start, 0);
        if visual >= d.visual_fragments.len() {
            None
        } else {
            Some(DocView { scroll: monus(visual, a.screen_row as int), ..d })
        }
    }
}

// ---- Hitting text ----

/// How many columns line numbers take.
pub open spec fn number_columns(d: DocView) -> int {
    digits(if d.lines.len() < 1 { 1 } else { d.lines.len() }).len() as int
}

/// Whether a unit is drawn at or beyond the cell `local` of its fragment.
pub open spec fn unit_reaches(u: DisplayUnit, first_cell: int, local: int) -> bool {
    local < monus(u.cell_end as int, first_cell) || local <= monus(u.cell_start as int, first_cell)
}

/// The first unit of `from..to` that is drawn at or beyond the cell, or `to`.
pub open spec fn unit_at(
    units: Seq<DisplayUnit>,
    from: int,
    to: int,
    first_cell: int,
    local: int,
) -> int
    decreases to - from,
{
    if from >= to {
        to
    } else if unit_reaches(units[from], first_cell, local) {
        from
    } else {
        unit_at(units, from + 1, to, first_cell, local)
    }
}

/// The bytes on both sides of what is drawn at this column of a fragment:
/// nothing to the left of the text, and nothing after its end.
pub open spec fn hit_bytes(
    row: SelectableView,
    f: VisualFragment,
    content_x: int,
    column: int,
) -> Option<(int, int)> {
    if f.unit_start > f.unit_end || f.unit_end > row.units.len() {
        None
    } else {
        let some = f.unit_start < f.unit_end;
        let first_cell = if f.unit_start < row.units.len() {
            row.units[f.unit_start as int].cell_start as int
        } else {
            0
        };
        let i = unit_at(
            row.units,
            f.unit_start as int,
            f.unit_end as int,
            first_cell,
            monus(column, content_x),
        );
        if column < content_x {
            let b = if some {
                row.units[f.unit_start as int].raw_start as int
            } else {
                0
            };
            Some((b, b))
        } else if i < f.unit_end {
            Some((row.units[i].raw_start as int, row.units[i].raw_end as int))
        } else {
            let b = if some {
                row.units[f.unit_end - 1].raw_end as int
            } else {
                utf8_len(row.raw) as int
            };
            Some((b, b))
        }
    }
}

/// What is drawn at this column of a shown row.
pub open spec fn hit_at(d: DocView, visual: int, column: int) -> Option<HitPoint> {
    match fragment(d, visual) {
        None => None,
        Some(f) => match selectable(d, f.source_row as int) {
            None => None,
            Some(row) => {
                let content_x = if d.numbered {
                    number_columns(d) + 1
                } else {
                    f.content_x as int
                };
                match hit_bytes(row, f, content_x, column) {
                    None => None,
                    Some((b, a)) => Some(
                        HitPoint {
                            before: TextPoint { row: f.source_row, byte: b as usize },
                            after: TextPoint { row: f.source_row, byte: a as usize },
                        },
                    ),
                }
            },
        },
    }
}

// ---- Selecting ----

/// The first row of `from..to` without selectable text, or `to`.
pub open spec fn first_blocked(sources: Seq<Option<SelectableView>>, from: int, to: int) -> int
    decreases to - from,
{
    if from >= to {
        to
    } else if sources[from] is None {
        from
    } else {
        first_blocked(sources, from + 1, to)
    }
}

/// The last row of `from..to` without selectable text, or one before `from`.
pub open spec fn last_blocked(sources: Seq<Option<SelectableView>>, from: int, to: int) -> int
    decreases to - from,
{
    if from >= to {
        from - 1
    } else if sources[to - 1] is None {
        to - 1
    } else {
        last_blocked(sources, from, to - 1)
    }
}

/// How long a row's text is, or 0 where it has none.
pub open spec fn text_end(row: Option<SelectableView>) -> int {
    match row {
        Some(r) => utf8_len(r.raw) as int,
        None => 0,
    }
}

/// Where a drag from `anchor` that hits `hit` leads: past the grapheme on the
/// way down, before it on the way up, and no further than the nearest row
/// without selectable text.
pub open spec fn dragged_to(
    sources: Seq<Option<SelectableView>>,
    anchor: TextPoint,
    hit: HitPoint,
) -> TextPoint {
    let cursor = if point_before(hit.before, anchor) {
        hit.before
    } else {
        hit.after
    };
    if cursor.row > anchor.row {
        let blocked = first_blocked(sources, anchor.row + 1, cursor.row + 1);
        if blocked <= cursor.row {
            TextPoint {
                row: (blocked - 1) as usize,
                byte: text_end(sources[blocked - 1]) as usize,
            }
        } else {
            cursor
        }
    } else if cursor.row < anchor.row {
        let blocked = last_blocked(sources, cursor.row as int, anchor.row as int);
        if blocked >= cursor.row {
            TextPoint { row: (blocked + 1) as usize, byte: 0 }
        } else {
            cursor
        }
    } else {
        cursor
    }
}

pub open spec fn dragged(d: DocView, hit: HitPoint) -> DocView {
    match d.selection {
        None => d,
        Some(s) => DocView {
            selection: Some(
                TextSelection { anchor: s.anchor, cursor: dragged_to(d.sources, s.anchor, hit) },
            ),
            ..d
        },
    }
}

proof fn lemma_first_blocked(sources: Seq<Option<SelectableView>>, from: int, to: int)
    requires
        0 <= from <= to <= sources.len(),
    ensures
        from <= first_blocked(sources, from, to) <= to,
        forall|k: int| from <= k < first_blocked(sources, from, to) ==> (#[trigger] sources[k]) is Some,
    decreases to - from,
{
    if from < to && sources[from] is Some {
        lemma_first_blocked(sources, from + 1, to);
    }
}

proof fn lemma_last_blocked(sources: Seq<Option<SelectableView>>, from: int, to: int)
    requires
        0 <= from <= to <= sources.len(),
    ensures
        from - 1 <= last_blocked(sources, from, to) < to || from == to,
        from == to ==> last_blocked(sources, from, to) == from - 1,
        forall|k: int| last_blocked(sources, from, to) < k < to && from <= k ==> (#[trigger] sources[k]) is Some,
    decreases to - from,
{
    if from < to && sources[to - 1] is Some {
        lemma_last_blocked(sources, from, to - 1);
    }
}

/// A drag that begins in selectable text covers only rows with selectable text.
pub proof fn law_drags_stay_in_selectable_rows(
    sources: Seq<Option<SelectableView>>,
    anchor: TextPoint,
    hit: HitPoint,
)
    requires
        anchor.row < sources.len(),
        sources[anchor.row as int] is Some,
        hit.before.row == hit.after.row < sources.len(),
        sources[hit.before.row as int] is Some,
    ensures
        ({
            let cursor = dragged_to(sources, anchor, hit);
            let (start, end) = ends_of(TextSelection { anchor, cursor });
            end.row < sources.len() && forall|k: int|
                start.row <= k <= end.row ==> (#[trigger] sources[k]) is Some
        }),
{
    let row = hit.before.row;
    if row > anchor.row {
        lemma_first_blocked(sources, anchor.row + 1, row + 1);
    } else if row < anchor.row {
        lemma_last_blocked(sources, row as int, anchor.row as int);
    }
}

/// The two ends of what is selected, where that is not nothing.
pub open spec fn selected(d: DocView) -> Option<(TextPoint, TextPoint)> {
    match d.selection {
        None => None,
        Some(s) => if ends_of(s).0 == ends_of(s).1 {
            None
        } else {
            Some(ends_of(s))
        },
    }
}

/// A part of one row that is selected.
#[verifier::ext_equal]
pub struct PartView {
    pub row: SelectableView,
    pub from: int,
    pub to: int,
    pub text: Seq<char>,
}

/// What is selected of row `i`.
pub open spec fn part_at(
    sources: Seq<Option<SelectableView>>,
    start: TextPoint,
    end: TextPoint,
    i: int,
) -> Option<PartView> {
    if i < sources.len() && sources[i] is Some {
        let row = sources[i]->0;
        let from = if i == start.row {
            start.byte as int
        } else {
            0
        };
        let to = if i == end.row {
            end.byte as int
        } else {
            utf8_len(row.raw) as int
        };
        match byte_slice(row.raw, from, to) {
            Some(text) => Some(PartView { row, from, to, text }),
            None => None,
        }
    } else {
        None
    }
}

/// What is selected of the rows up to `n`; nothing where one of them has no
/// selectable text there.
pub open spec fn parts_to(
    sources: Seq<Option<SelectableView>>,
    start: TextPoint,
    end: TextPoint,
    n: int,
) -> Option<Seq<PartView>>
    decreases n - start.row,
{
    if n <= start.row {
        Some(Seq::empty())
    } else {
        match (parts_to(sources, start, end, n - 1), part_at(sources, start, end, n - 1)) {
            (Some(before), Some(p)) => Some(before.push(p)),
            _ => None,
        }
    }
}

proof fn lemma_parts_fail(
    sources: Seq<Option<SelectableView>>,
    start: TextPoint,
    end: TextPoint,
    n: int,
    m: int,
)
    requires
        n <= m,
        parts_to(sources, start, end, n) is None,
    ensures
        parts_to(sources, start, end, m) is None,
    decreases m - n,
{
    if n < m {
        lemma_parts_fail(sources, start, end, n, m - 1);
    }
}

pub open spec fn part_texts(parts: Seq<PartView>) -> Seq<Seq<char>> {
    parts.map_values(|p: PartView| p.text)
}

/// The selected text, rows apart.
pub open spec fn plain_text(parts: Seq<PartView>) -> Seq<char> {
    join(part_texts(parts), "\n"@)
}

/// What marks a row of a diff.
pub open spec fn marker(kind: SourceKind) -> Seq<char> {
    match kind {
        SourceKind::File { .. } => Seq::empty(),
        SourceKind::Diff { kind, .. } => match kind {
            DiffSourceKind::Context => seq![' '],
            DiffSourceKind::Deleted => seq!['-'],
            DiffSourceKind::Added => seq!['+'],
        },
    }
}

/// The selected text, rows apart, with each row of a diff marked.
pub open spec fn marked_text(parts: Seq<PartView>) -> Seq<char> {
    join(parts.map_values(|p: PartView| marker(p.row.kind) + p.text), "\n"@)
}

/// The selected text.
pub open spec fn selected_words(d: DocView) -> Option<Seq<char>> {
    match selected(d) {
        None => None,
        Some((start, end)) => match parts_to(d.sources, start, end, end.row + 1) {
            None => None,
            Some(parts) => if plain_text(parts).len() == 0 {
                None
            } else {
                Some(plain_text(parts))
            },
        },
    }
}

/// Whether a row stands for text that is no longer there.
pub open spec fn is_deleted(kind: SourceKind) -> bool {
    kind matches SourceKind::Diff { kind: k, .. } && k == DiffSourceKind::Deleted
}

/// The parts that are still there.
pub open spec fn kept(parts: Seq<PartView>) -> Seq<PartView>
    decreases parts.len(),
{
    if parts.len() == 0 {
        Seq::empty()
    } else if is_deleted(parts.last().row.kind) {
        kept(parts.drop_last())
    } else {
        kept(parts.drop_last()).push(parts.last())
    }
}

/// The parts that say where a selection is: those still there, or all.
pub open spec fn located(parts: Seq<PartView>) -> Seq<PartView> {
    if kept(parts).len() == 0 {
        parts
    } else {
        kept(parts)
    }
}

/// The line that a row is found at.
pub open spec fn line_of(kind: SourceKind) -> Option<usize> {
    match kind {
        SourceKind::File { line } => Some(line),
        SourceKind::Diff { old_line, new_line, kind } => if kind == DiffSourceKind::Deleted {
            old_line
        } else if new_line is Some {
            new_line
        } else {
            old_line
        },
    }
}

/// What a comment takes from a selection.
pub struct SelectionExport {
    pub snippet: String,
    pub start_line: usize,
    pub start_column: usize,
    pub end_line: usize,
    pub end_column: usize,
    /// Whether all of it is text that is no longer there.
    pub removed: bool,
    pub range: TextSelection,
}

#[verifier::ext_equal]
pub struct ExportView {
    pub snippet: Seq<char>,
    pub start_line: usize,
    pub start_column: usize,
    pub end_line: usize,
    pub end_column: usize,
    pub removed: bool,
    pub range: TextSelection,
}

impl View for SelectionExport {
    type V = ExportView;

    open spec fn view(&self) -> ExportView {
        ExportView {
            snippet: self.snippet@,
            start_line: self.start_line,
            start_column: self.start_column,
            end_line: self.end_line,
            end_column: self.end_column,
            removed: self.removed,
            range: self.range,
        }
    }
}

pub open spec fn export_view(e: Option<SelectionExport>) -> Option<ExportView> {
    match e {
        Some(e) => Some(e@),
        None => None,
    }
}

/// The columns that a selection begins and ends at, counted from 1.
pub open spec fn export_columns(parts: Seq<PartView>) -> (usize, usize) {
    let first = parts[0];
    let last = parts.last();
    let start = plus(column_of(first.row.raw, first.from) as int, 1);
    let reach = column_of(last.row.raw, last.to);
    (
        start,
        if parts.len() == 1 {
            if reach > start {
                reach as usize
            } else {
                start
            }
        } else if reach > 1 {
            reach as usize
        } else {
            1
        },
    )
}

/// What a comment takes from the selected parts.
pub open spec fn exported_parts(
    parts: Seq<PartView>,
    start: TextPoint,
    end: TextPoint,
) -> Option<ExportView> {
    let places = located(parts);
    if plain_text(parts).len() == 0 {
        None
    } else {
        match (line_of(places[0].row.kind), line_of(places.last().row.kind)) {
            (Some(first), Some(last)) => Some(
                ExportView {
                    snippet: marked_text(parts),
                    start_line: first,
                    start_column: export_columns(places).0,
                    end_line: last,
                    end_column: export_columns(places).1,
                    removed: kept(parts).len() == 0,
                    range: TextSelection { anchor: start, cursor: end },
                },
            ),
            _ => None,
        }
    }
}

/// What a comment takes from the selection.
pub open spec fn exported(d: DocView) -> Option<ExportView> {
    match selected(d) {
        None => None,
        Some((start, end)) => match parts_to(d.sources, start, end, end.row + 1) {
            None => None,
            Some(parts) => exported_parts(parts, start, end),
        },
    }
}

// ---- Cells of a range ----

/// The first unit of `from..to` that touches the bytes `a..b`, or `to`.
pub open spec fn first_touched(units: Seq<DisplayUnit>, from: int, to: int, a: int, b: int) -> int
    decreases to - from,
{
    if from >= to {
        to
    } else if units[from].raw_end > a && units[from].raw_start < b {
        from
    } else {
        first_touched(units, from + 1, to, a, b)
    }
}

/// The last unit of `from..to` that touches the bytes `a..b`, or one before
/// `from`.
pub open spec fn last_touched(units: Seq<DisplayUnit>, from: int, to: int, a: int, b: int) -> int
    decreases to - from,
{
    if from >= to {
        from - 1
    } else if units[to - 1].raw_end > a && units[to - 1].raw_start < b {
        to - 1
    } else {
        last_touched(units, from, to - 1, a, b)
    }
}

/// The cells of a fragment that the bytes `a..b` are drawn in.
pub open spec fn touched_cells(
    row: SelectableView,
    f: VisualFragment,
    a: int,
    b: int,
) -> Option<(usize, usize)> {
    if a >= b || f.unit_start >= f.unit_end || f.unit_end > row.units.len() {
        None
    } else {
        let first_cell = row.units[f.unit_start as int].cell_start as int;
        let i = first_touched(row.units, f.unit_start as int, f.unit_end as int, a, b);
        let j = last_touched(row.units, f.unit_start as int, f.unit_end as int, a, b);
        if i >= f.unit_end {
            None
        } else {
            Some(
                (
                    plus(
                        f.content_x as int,
                        monus(row.units[i].cell_start as int, first_cell),
                    ),
                    plus(f.content_x as int, monus(row.units[j].cell_end as int, first_cell)),
                ),
            )
        }
    }
}

/// The cells of a shown row that a range is drawn in.
pub open spec fn cells_of_range(d: DocView, visual: int, range: TextSelection) -> Option<
    (usize, usize),
> {
    let (start, end) = ends_of(range);
    match fragment(d, visual) {
        None => None,
        Some(f) => if f.source_row < start.row || f.source_row > end.row {
            None
        } else {
            match selectable(d, f.source_row as int) {
                None => None,
                Some(row) => touched_cells(
                    row,
                    f,
                    if f.source_row == start.row {
                        start.byte as int
                    } else {
                        0
                    },
                    if f.source_row == end.row {
                        end.byte as int
                    } else {
                        utf8_len(row.raw) as int
                    },
                ),
            }
        },
    }
}

// ---- Centering ----

/// The first shown row at or after `i` of this source row, or the number of
/// shown rows.
pub open spec fn shown_at(rows: Seq<usize>, row: int, i: int) -> int
    decreases rows.len() - i,
{
    if i >= rows.len() {
        rows.len() as int
    } else if rows[i] == row {
        i
    } else {
        shown_at(rows, row, i + 1)
    }
}

/// The document scrolled so that a source row stands in the middle, as far as
/// there are rows.
pub open spec fn centered(d: DocView, row: int, height: u16) -> DocView {
    let visual = if d.visual_width == 0 || shown_at(d.visual_rows, row, 0) >= d.visual_rows.len() {
        row
    } else {
        shown_at(d.visual_rows, row, 0)
    };
    let h: int = if height < 1 {
        1
    } else {
        height as int
    };
    DocView { scroll: least(monus(visual, h / 2), monus(visual_count(d), h)), ..d }
}

/// The first row at or after `i` that shows this line of the file as it is now,
/// or the number of rows.
pub open spec fn line_row(sources: Seq<Option<SelectableView>>, line: usize, i: int) -> int
    decreases sources.len() - i,
{
    if i >= sources.len() {
        sources.len() as int
    } else if shows_line(sources[i], line) {
        i
    } else {
        line_row(sources, line, i + 1)
    }
}

pub open spec fn shows_line(row: Option<SelectableView>, line: usize) -> bool {
    match row {
        Some(r) => match r.kind {
            SourceKind::Diff { new_line, .. } => new_line == Some(line),
            SourceKind::File { .. } => false,
        },
        None => false,
    }
}

/// A deadline so many milliseconds from now.
pub open spec fn deadline(now: u64, wait: u64) -> u64 {
    if now + wait > u64::MAX {
        u64::MAX
    } else {
        (now + wait) as u64
    }
}

pub fn later(now: u64, wait: u64) -> (r: u64)
    ensures
        r == deadline(now, wait),
{
    if now > u64::MAX - wait {
        u64::MAX
    } else {
        now + wait
    }
}

/// A row is asked for: it is centred when the document is next drawn.
pub open spec fn row_requested(d: DocView, row: int, mark: bool, now: u64) -> DocView {
    DocView {
        center_source_row_pending: Some(row as usize),
        highlighted_source_row: if mark {
            Some((row as usize, deadline(now, SOURCE_LINE_HIGHLIGHT)))
        } else {
            None
        },
        ..d
    }
}

/// A line of a file is asked for; beyond the end, the last.
pub open spec fn line_requested(d: DocView, line: usize, mark: bool, now: u64) -> DocView {
    row_requested(
        d,
        least(monus(line as int, 1), monus(d.lines.len() as int, 1)),
        mark,
        now,
    )
}

pub open spec fn first_change_requested(d: DocView) -> DocView {
    DocView { center_first_change_pending: d.first_change is Some, ..d }
}

pub open spec fn source_line_centered(d: DocView, height: u16) -> DocView {
    match d.center_source_row_pending {
        None => d,
        Some(row) => centered(
            DocView { center_source_row_pending: None, ..d },
            row as int,
            height,
        ),
    }
}

pub open spec fn first_change_centered(d: DocView, height: u16) -> DocView {
    if !d.center_first_change_pending {
        d
    } else {
        let e = DocView { center_first_change_pending: false, ..d };
        match d.first_change {
            None => e,
            Some(row) => centered(e, row as int, height),
        }
    }
}

/// What is done before a document is drawn in a body of this size: its rows are
/// cut to the width, rows that were asked for are centred, and the document is
/// not scrolled beyond its end.
pub open spec fn prepared(d: DocView, width: u16, height: u16) -> DocView {
    let e = first_change_centered(source_line_centered(shaped(d, width), height), height);
    let h: int = if height < 1 {
        1
    } else {
        height as int
    };
    DocView { scroll: least(e.scroll, monus(visual_count(e), h)), ..e }
}

/// The row that is marked now.
pub open spec fn marked_row(d: DocView, now: u64) -> Option<usize> {
    match d.highlighted_source_row {
        Some((row, until)) if now < until => Some(row),
        _ => None,
    }
}

/// Rows that were asked for are centred once.
pub proof fn law_centering_happens_once(d: DocView, width: u16, height: u16)
    ensures
        prepared(d, width, height).center_source_row_pending is None,
        !prepared(d, width, height).center_first_change_pending,
        prepared(prepared(d, width, height), width, height) == prepared(d, width, height),
{
}

impl Doc {
    pub fn new(
        name: String,
        context: String,
        lines: Vec<Line>,
        numbered: bool,
        folds: Vec<Option<FoldId>>,
    ) -> (r: Doc)
        ensures
            r@ == fresh(name@, context@, lines_view(lines@), numbered, folds@),
    {
        let r = Doc {
            name,
            context,
            lines,
            numbered,
            scroll: 0,
            folds,
            visual_lines: Vec::new(),
            visual_rows: Vec::new(),
            visual_fragments: Vec::new(),
            visual_width: 0,
            sources: Vec::new(),
            selection: None,
            first_change: None,
            center_first_change_pending: false,
            center_source_row_pending: None,
            highlighted_source_row: None,
        };
        assert(r@ =~= fresh(name@, context@, lines_view(lines@), numbered, folds@));
        r
    }

    /// The document with the rows that can be selected in: one for each line.
    pub fn with_sources(self, sources: Vec<Option<SelectableRow>>) -> (r: Doc)
        ensures
            r@ == (DocView { sources: rows_view(sources@), ..self@ }),
    {
        Doc { sources, ..self }
    }

    /// Cuts the rows to a width, where the document has folds.
    pub fn ensure_visual_lines(&mut self, width: u16)
        ensures
            final(self)@ == shaped(old(self)@, width),
    {
        let w: u16 = if width < 1 {
            1
        } else {
            width
        };
        if self.folds.len() == 0 || self.visual_width == w {
            return;
        }
        assert(self@.lines.len() == self.lines@.len());
        let (lines, rows, fragments) = reflow_diff_lines(&self.lines, &self.sources, w);
        self.visual_lines = lines;
        self.visual_rows = rows;
        self.visual_fragments = fragments;
        self.visual_width = w;
        assert(self@ =~= shaped(old(self)@, width));
    }

    /// How many rows are shown.
    pub fn visual_len(&self) -> (r: usize)
        ensures
            r == visual_count(self@),
    {
        assert(self@.lines.len() == self.lines@.len());
        assert(self@.visual_lines.len() == self.visual_lines@.len());
        if self.visual_width == 0 {
            self.lines.len()
        } else {
            self.visual_lines.len()
        }
    }

    /// The source row that a shown row belongs to.
    pub fn source_row_at(&self, visual_row: usize) -> (r: Option<usize>)
        ensures
            r == source_row(self@, visual_row as int),
    {
        assert(self@.lines.len() == self.lines@.len());
        if self.visual_width == 0 {
            if visual_row < self.lines.len() {
                Some(visual_row)
            } else {
                None
            }
        } else if visual_row < self.visual_rows.len() {
            Some(self.visual_rows[visual_row])
        } else {
            None
        }
    }

    fn row_at(&self, row: usize) -> (r: Option<&SelectableRow>)
        ensures
            match r {
                Some(s) => selectable(self@, row as int) == Some(s@) && row < self.sources@.len(),
                None => selectable(self@, row as int) is None,
            },
    {
        assert(self@.sources.len() == self.sources@.len());
        if row < self.sources.len() {
            assert(self@.sources[row as int] == row_view(self.sources@[row as int]));
            match &self.sources[row] {
                Some(s) => Some(s),
                None => None,
            }
        } else {
            None
        }
    }

    /// The part of its source row that a shown row shows.
    pub fn fragment_at(&self, visual_row: usize) -> (r: Option<VisualFragment>)
        ensures
            r == fragment(self@, visual_row as int),
    {
        if self.visual_width == 0 {
            match self.row_at(visual_row) {
                Some(row) => Some(
                    VisualFragment {
                        source_row: visual_row,
                        unit_start: 0,
                        unit_end: row.units.len(),
                        content_x: 0,
                    },
                ),
                None => None,
            }
        } else if visual_row < self.visual_fragments.len() {
            Some(self.visual_fragments[visual_row])
        } else {
            None
        }
    }

    fn anchor_between(&self, from: usize, end: usize) -> (r: Option<ViewAnchor>)
        requires
            from >= self.scroll,
        ensures
            anchor_view(r) == anchor_from(self@, from as int, end as int),
    {
        let mut at: usize = from;
        while at < end
            invariant
                self.scroll <= at,
                at <= end || at == from,
                anchor_from(self@, from as int, end as int) == anchor_from(
                    self@,
                    at as int,
                    end as int,
                ),
            decreases end - at,
        {
            if let Some(f) = self.fragment_at(at) {
                if let Some(row) = self.row_at(f.source_row) {
                    return Some(
                        ViewAnchor {
                            raw: row.raw.clone(),
                            kind: row.kind,
                            unit_start: f.unit_start,
                            screen_row: at - self.scroll,
                        },
                    );
                }
            }
            at += 1;
        }
        None
    }

    /// Cuts the rows to a width, and gives the anchor of a screen of this size.
    pub fn view_anchor(&mut self, width: u16, height: u16) -> (r: Option<ViewAnchor>)
        ensures
            final(self)@ == shaped(old(self)@, width),
            anchor_view(r) == anchor_of(final(self)@, height),
    {
        self.ensure_visual_lines(width);
        let count = self.visual_len();
        let reach = add_up(self.scroll, height as usize);
        let end = if reach < count {
            reach
        } else {
            count
        };
        self.anchor_between(self.scroll, end)
    }

    fn find_anchored_row(&self, anchor: &ViewAnchor) -> (r: usize)
        ensures
            r == anchored_row(self@.sources, anchor@, 0),
            r <= self.sources@.len(),
    {
        let mut i: usize = 0;
        assert(self@.sources.len() == self.sources@.len());
        while i < self.sources.len()
            invariant
                i <= self.sources@.len(),
                self@.sources.len() == self.sources@.len(),
                anchored_row(self@.sources, anchor@, 0) == anchored_row(
                    self@.sources,
                    anchor@,
                    i as int,
                ),
            decreases self.sources@.len() - i,
        {
            if let Some(row) = self.row_at(i) {
                if row.kind == anchor.kind && eq_text(row.raw.as_str(), anchor.raw.as_str()) {
                    return i;
                }
            }
            i += 1;
        }
        i
    }

    fn find_anchored_fragment(&self, row: usize, unit: usize) -> (r: usize)
        ensures
            r == anchored_fragment(self@.visual_fragments, row as int, unit, 0),
            r <= self.visual_fragments@.len(),
    {
        let mut i: usize = 0;
        while i < self.visual_fragments.len()
            invariant
                i <= self.visual_fragments@.len(),
                anchored_fragment(self@.visual_fragments, row as int, unit, 0)
                    == anchored_fragment(self@.visual_fragments, row as int, unit, i as int),
            decreases self.visual_fragments@.len() - i,
        {
            let f = self.visual_fragments[i];
            if f.source_row == row && f.unit_start == unit {
                return i;
            }
            i += 1;
        }
        i
    }

    /// Cuts the rows to a width, and scrolls so that the anchor stands where it
    /// stood; whether it was found.
    pub fn restore_view_anchor(&mut self, anchor: &ViewAnchor, width: u16) -> (r: bool)
        ensures
            match restored(shaped(old(self)@, width), anchor@) {
                Some(d) => r && final(self)@ == d,
                None => !r && final(self)@ == shaped(old(self)@, width),
            },
    {
        self.ensure_visual_lines(width);
        let row = self.find_anchored_row(anchor);
        assert(self@.sources.len() == self.sources@.len());
        if row >= self.sources.len() {
            return false;
        }
        let visual = if self.visual_width == 0 {
            row
        } else {
            let visual = self.find_anchored_fragment(row, anchor.unit_start);
            if visual >= self.visual_fragments.len() {
                return false;
            }
            visual
        };
        self.scroll = if visual > anchor.screen_row {
            visual - anchor.screen_row
        } else {
            0
        };
        true
    }

    fn number_width(&self) -> (r: usize)
        ensures
            r == number_columns(self@),
    {
        assert(self@.lines.len() == self.lines@.len());
        let n = self.lines.len();
        let d = digits_of(if n < 1 { 1 } else { n });
        d.len()
    }

    /// What is drawn at this column of a shown row.
    pub fn hit_point(&self, visual_row: usize, column: usize) -> (r: Option<HitPoint>)
        ensures
            r == hit_at(self@, visual_row as int, column as int),
    {
        let f = match self.fragment_at(visual_row) {
            Some(f) => f,
            None => {
                return None;
            },
        };
        let row = match self.row_at(f.source_row) {
            Some(row) => row,
            None => {
                return None;
            },
        };
        let content_x = if self.numbered {
            let n = self.number_width();
            proof {
                assert(self@.lines.len() == self.lines.len());
                lemma_few_digits(self@.lines.len());
            }
            n + 1
        } else {
            f.content_x
        };
        match bytes_hit(row, f, content_x, column) {
            None => None,
            Some((b, a)) => Some(
                HitPoint {
                    before: TextPoint { row: f.source_row, byte: b },
                    after: TextPoint { row: f.source_row, byte: a },
                },
            ),
        }
    }

    /// Begins a selection before what was hit.
    pub fn begin_selection(&mut self, hit: HitPoint)
        ensures
            final(self)@ == (DocView {
                selection: Some(TextSelection { anchor: hit.before, cursor: hit.before }),
                ..old(self)@
            }),
    {
        self.selection = Some(TextSelection { anchor: hit.before, cursor: hit.before });
    }

    fn blocked_after(&self, from: usize, to: usize) -> (r: usize)
        requires
            from <= to <= self.sources@.len(),
        ensures
            r == first_blocked(self@.sources, from as int, to as int),
            from <= r <= to,
    {
        let mut i: usize = from;
        while i < to
            invariant
                from <= i <= to <= self.sources@.len(),
                first_blocked(self@.sources, from as int, to as int) == first_blocked(
                    self@.sources,
                    i as int,
                    to as int,
                ),
            decreases to - i,
        {
            if self.row_at(i).is_none() {
                return i;
            }
            i += 1;
        }
        i
    }

    fn blocked_before(&self, from: usize, to: usize) -> (r: Option<usize>)
        requires
            from <= to <= self.sources@.len(),
        ensures
            match r {
                Some(i) => i == last_blocked(self@.sources, from as int, to as int) && from <= i
                    < to,
                None => last_blocked(self@.sources, from as int, to as int) == from - 1,
            },
    {
        let mut i: usize = to;
        while i > from
            invariant
                from <= i <= to <= self.sources@.len(),
                last_blocked(self@.sources, from as int, to as int) == last_blocked(
                    self@.sources,
                    from as int,
                    i as int,
                ),
            decreases i,
        {
            if self.row_at(i - 1).is_none() {
                return Some(i - 1);
            }
            i -= 1;
        }
        None
    }

    /// Extends the selection to what was hit. Both ends name rows of the
    /// document.
    pub fn drag_selection(&mut self, hit: HitPoint)
        requires
            hit.before.row < old(self).sources@.len(),
            hit.after.row < old(self).sources@.len(),
            old(self).selection matches Some(s) ==> s.anchor.row < old(self).sources@.len(),
        ensures
            final(self)@ == dragged(old(self)@, hit),
    {
        let s = match self.selection {
            Some(s) => s,
            None => {
                return;
            },
        };
        let anchor = s.anchor;
        let total = self.sources.len();
        assert(total == self.sources@.len());
        let mut cursor = if before(hit.before, anchor) {
            hit.before
        } else {
            hit.after
        };
        if cursor.row > anchor.row {
            let blocked = self.blocked_after(anchor.row + 1, cursor.row + 1);
            if blocked <= cursor.row {
                let row = blocked - 1;
                let byte = match self.row_at(row) {
                    Some(r) => byte_len(r.raw.as_str()),
                    None => 0,
                };
                cursor = TextPoint { row, byte };
            }
        } else if cursor.row < anchor.row {
            if let Some(blocked) = self.blocked_before(cursor.row, anchor.row) {
                cursor = TextPoint { row: blocked + 1, byte: 0 };
            }
        }
        self.selection = Some(TextSelection { anchor, cursor });
    }

    pub fn clear_selection(&mut self)
        ensures
            final(self)@ == (DocView { selection: None, ..old(self)@ }),
    {
        self.selection = None;
    }

    /// The two ends of what is selected, where that is not nothing.
    pub fn selected_range(&self) -> (r: Option<(TextPoint, TextPoint)>)
        ensures
            r == selected(self@),
    {
        match self.selection {
            None => None,
            Some(s) => {
                let range = s.normalized();
                if range.0 == range.1 {
                    None
                } else {
                    Some(range)
                }
            },
        }
    }

    fn part(&self, start: TextPoint, end: TextPoint, i: usize) -> (r: Option<(usize, usize, Vec<char>)>)
        ensures
            match r {
                Some((from, to, text)) => part_at(self@.sources, start, end, i as int) matches Some(
                    p,
                ) && p.from == from && p.to == to && p.text == text@ && selectable(self@, i as int)
                    == Some(p.row) && i < self.sources@.len(),
                None => part_at(self@.sources, start, end, i as int) is None,
            },
    {
        let row = match self.row_at(i) {
            Some(row) => row,
            None => {
                return None;
            },
        };
        let from = if i == start.row {
            start.byte
        } else {
            0
        };
        let to = if i == end.row {
            end.byte
        } else {
            byte_len(row.raw.as_str())
        };
        let v = chars_of(row.raw.as_str());
        match byte_get(&v, from, to) {
            Some(text) => Some((from, to, text)),
            None => None,
        }
    }

    /// The selected text.
    pub fn selected_text(&self) -> (r: Option<String>)
        ensures
            crate::text::opt_text(r) == selected_words(self@),
    {
        let (start, end) = match self.selected_range() {
            Some(range) => range,
            None => {
                return None;
            },
        };
        let mut out: Vec<char> = Vec::new();
        let mut i: usize = start.row;
        let ghost all = self@.sources;
        proof {
            reveal_strlit("\n");
            assert("\n"@ =~= seq!['\n']);
            assert(part_texts(Seq::empty()) =~= Seq::empty());
        }
        loop
            invariant
                start.row <= i <= end.row,
                all == self@.sources,
                "\n"@ == seq!['\n'],
                selected(self@) == Some((start, end)),
                parts_to(all, start, end, i as int) matches Some(parts) && parts.len() == i
                    - start.row && out@ == plain_text(parts),
            decreases end.row - i,
        {
            let ghost parts = parts_to(all, start, end, i as int)->0;
            match self.part(start, end, i) {
                None => {
                    proof {
                        lemma_parts_fail(all, start, end, i + 1, end.row + 1);
                    }
                    return None;
                },
                Some((_, _, text)) => {
                    let ghost p = part_at(all, start, end, i as int)->0;
                    if i > start.row {
                        out.push('\n');
                    }
                    push_all(&mut out, &text);
                    proof {
                        assert(part_texts(parts.push(p)) =~= part_texts(parts).push(p.text));
                        lemma_join_push(part_texts(parts), "\n"@, p.text);
                        assert(out@ =~= plain_text(parts.push(p)));
                    }
                },
            }
            if i == end.row {
                return if out.len() == 0 {
                    None
                } else {
                    Some(text_of(&out))
                };
            }
            i += 1;
        }
    }

    fn read_parts(&self, start: TextPoint, end: TextPoint) -> (r: Option<
        (Vec<(usize, usize, usize)>, Vec<char>, bool),
    >)
        requires
            start.row <= end.row,
        ensures
            match r {
                Some((parts, snippet, some)) => parts_to(
                    self@.sources,
                    start,
                    end,
                    end.row + 1,
                ) matches Some(ps) && ps.len() >= 1 && stands_for(self@, parts@, ps) && snippet@
                    == marked_text(ps) && some == (plain_text(ps).len() > 0),
                None => parts_to(self@.sources, start, end, end.row + 1) is None,
            },
    {
        let mut parts: Vec<(usize, usize, usize)> = Vec::new();
        let mut snippet: Vec<char> = Vec::new();
        let mut some = false;
        let mut i: usize = start.row;
        let ghost all = self@.sources;
        let ghost marked = |p: PartView| marker(p.row.kind) + p.text;
        proof {
            reveal_strlit("\n");
            assert("\n"@ =~= seq!['\n']);
            assert(part_texts(Seq::empty()) =~= Seq::empty());
            assert(Seq::<PartView>::empty().map_values(marked) =~= Seq::empty());
        }
        loop
            invariant
                start.row <= i <= end.row,
                all == self@.sources,
                "\n"@ == seq!['\n'],
                marked == |p: PartView| marker(p.row.kind) + p.text,
                parts_to(all, start, end, i as int) matches Some(ps) && ps.len() == i - start.row
                    && stands_for(self@, parts@, ps) && snippet@ == marked_text(ps) && some == (
                plain_text(ps).len() > 0),
            decreases end.row - i,
        {
            let ghost ps = parts_to(all, start, end, i as int)->0;
            match self.part(start, end, i) {
                None => {
                    proof {
                        lemma_parts_fail(all, start, end, i + 1, end.row + 1);
                    }
                    return None;
                },
                Some((from, to, text)) => {
                    let ghost p = part_at(all, start, end, i as int)->0;
                    if i > start.row {
                        snippet.push('\n');
                    }
                    if let Some(row) = self.row_at(i) {
                        push_marker(&mut snippet, row.kind);
                    }
                    push_all(&mut snippet, &text);
                    some = i > start.row || text.len() > 0;
                    parts.push((i, from, to));
                    proof {
                        assert(part_texts(ps.push(p)) =~= part_texts(ps).push(p.text));
                        lemma_join_push(part_texts(ps), "\n"@, p.text);
                        assert(ps.push(p).map_values(marked) =~= ps.map_values(marked).push(
                            marker(p.row.kind) + p.text,
                        ));
                        lemma_join_push(
                            ps.map_values(marked),
                            "\n"@,
                            marker(p.row.kind) + p.text,
                        );
                        assert(snippet@ =~= marked_text(ps.push(p)));
                    }
                },
            }
            if i == end.row {
                return Some((parts, snippet, some));
            }
            i += 1;
        }
    }

    fn kept_parts(
        &self,
        parts: &Vec<(usize, usize, usize)>,
        Ghost(ps): Ghost<Seq<PartView>>,
    ) -> (r: Vec<(usize, usize, usize)>)
        requires
            stands_for(self@, parts@, ps),
        ensures
            stands_for(self@, r@, kept(ps)),
    {
        let mut out: Vec<(usize, usize, usize)> = Vec::new();
        let mut i: usize = 0;
        while i < parts.len()
            invariant
                i <= parts@.len(),
                stands_for(self@, parts@, ps),
                stands_for(self@, out@, kept(ps.take(i as int))),
            decreases parts@.len() - i,
        {
            assert(ps.take(i + 1).drop_last() =~= ps.take(i as int));
            assert(ps.take(i + 1).last() == ps[i as int]);
            let (row, from, to) = parts[i];
            assert(parts@[i as int] == (row, from, to));
            if let Some(r) = self.row_at(row) {
                let deleted = match r.kind {
                    SourceKind::Diff { kind, .. } => kind == DiffSourceKind::Deleted,
                    SourceKind::File { .. } => false,
                };
                if !deleted {
                    out.push((row, from, to));
                }
            }
            i += 1;
        }
        assert(ps.take(i as int) =~= ps);
        out
    }

    /// Where the parts begin and end: the lines, and the columns counted from 1.
    fn place_of_parts(
        &self,
        parts: &Vec<(usize, usize, usize)>,
        Ghost(ps): Ghost<Seq<PartView>>,
    ) -> (r: Option<((usize, usize), (usize, usize))>)
        requires
            stands_for(self@, parts@, ps),
            ps.len() >= 1,
        ensures
            match (line_of(ps[0].row.kind), line_of(ps.last().row.kind)) {
                (Some(first), Some(last)) => r == Some(((first, last), export_columns(ps))),
                _ => r is None,
            },
    {
        let n = parts.len();
        let (first_row, from, first_to) = parts[0];
        let (last_row, last_from, to) = parts[n - 1];
        assert(parts@[0] == (first_row, from, first_to));
        assert(parts@[n - 1] == (last_row, last_from, to));
        let (first, last) = match (self.row_at(first_row), self.row_at(last_row)) {
            (Some(a), Some(b)) => (a, b),
            _ => {
                return None;
            },
        };
        let (first_line, last_line) = match (line_found(first.kind), line_found(last.kind)) {
            (Some(a), Some(b)) => (a, b),
            _ => {
                return None;
            },
        };
        let start = add_up(first.byte_column(from), 1);
        let reach = last.byte_column(to);
        let end = if n == 1 {
            if reach > start {
                reach
            } else {
                start
            }
        } else if reach > 1 {
            reach
        } else {
            1
        };
        Some(((first_line, last_line), (start, end)))
    }

    /// What a comment takes from the selection.
    pub fn selection_export(&self) -> (r: Option<SelectionExport>)
        ensures
            export_view(r) == exported(self@),
    {
        let (start, end) = match self.selected_range() {
            Some(range) => range,
            None => {
                return None;
            },
        };
        match self.read_parts(start, end) {
            None => None,
            Some((parts, snippet, some)) => {
                if !some {
                    return None;
                }
                let ghost ps = parts_to(self@.sources, start, end, end.row + 1)->0;
                let kept_parts = self.kept_parts(&parts, Ghost(ps));
                let removed = kept_parts.len() == 0;
                let place = if removed {
                    self.place_of_parts(&parts, Ghost(ps))
                } else {
                    self.place_of_parts(&kept_parts, Ghost(kept(ps)))
                };
                match place {
                    None => None,
                    Some((lines, columns)) => Some(
                        SelectionExport {
                            snippet: text_of(&snippet),
                            start_line: lines.0,
                            start_column: columns.0,
                            end_line: lines.1,
                            end_column: columns.1,
                            removed,
                            range: TextSelection { anchor: start, cursor: end },
                        },
                    ),
                }
            },
        }
    }

    /// The cells of a shown row that a range is drawn in.
    pub fn range_cells(&self, visual_row: usize, range: TextSelection) -> (r: Option<
        (usize, usize),
    >)
        ensures
            r == cells_of_range(self@, visual_row as int, range),
    {
        let (start, end) = range.normalized();
        let f = match self.fragment_at(visual_row) {
            Some(f) => f,
            None => {
                return None;
            },
        };
        if f.source_row < start.row || f.source_row > end.row {
            return None;
        }
        match self.row_at(f.source_row) {
            None => None,
            Some(row) => {
                let a = if f.source_row == start.row {
                    start.byte
                } else {
                    0
                };
                let b = if f.source_row == end.row {
                    end.byte
                } else {
                    byte_len(row.raw.as_str())
                };
                cells_touched(row, f, a, b)
            },
        }
    }

    /// The cells of a shown row that are selected.
    pub fn selection_cells(&self, visual_row: usize) -> (r: Option<(usize, usize)>)
        ensures
            r == (match self@.selection {
                Some(s) => cells_of_range(self@, visual_row as int, s),
                None => None,
            }),
    {
        match self.selection {
            Some(s) => self.range_cells(visual_row, s),
            None => None,
        }
    }

    /// The first change is to be centred when the document is next drawn.
    pub fn request_first_change_center(&mut self)
        ensures
            final(self)@ == first_change_requested(old(self)@),
    {
        self.center_first_change_pending = self.first_change.is_some();
    }

    fn request_row(&mut self, row: usize, highlight: bool, now: u64)
        ensures
            final(self)@ == row_requested(old(self)@, row as int, highlight, now),
    {
        self.center_source_row_pending = Some(row);
        self.highlighted_source_row = if highlight {
            Some((row, later(now, SOURCE_LINE_HIGHLIGHT)))
        } else {
            None
        };
    }

    /// A line of a file is to be centred when the document is next drawn.
    pub fn request_source_line(&mut self, line: usize, highlight: bool, now: u64)
        ensures
            final(self)@ == line_requested(old(self)@, line, highlight, now),
    {
        assert(self@.lines.len() == self.lines@.len());
        let n = self.lines.len();
        let row = if line > 1 {
            line - 1
        } else {
            0
        };
        let last = if n > 1 {
            n - 1
        } else {
            0
        };
        self.request_row(if row < last { row } else { last }, highlight, now);
    }

    /// A line of the file as it is now is to be centred when the document is
    /// next drawn; whether the diff shows it.
    pub fn request_diff_line(&mut self, line: usize, highlight: bool, now: u64) -> (r: bool)
        ensures
            ({
                let row = line_row(old(self)@.sources, line, 0);
                if row < old(self)@.sources.len() {
                    r && final(self)@ == row_requested(old(self)@, row, highlight, now)
                } else {
                    !r && final(self)@ == old(self)@
                }
            }),
    {
        let mut i: usize = 0;
        assert(self@.sources.len() == self.sources@.len());
        let n = self.sources.len();
        while i < n
            invariant
                i <= n,
                n == self.sources@.len(),
                self@ == old(self)@,
                self@.sources.len() == n,
                line_row(self@.sources, line, 0) == line_row(self@.sources, line, i as int),
            decreases n - i,
        {
            let shown = match self.row_at(i) {
                Some(row) => match row.kind {
                    SourceKind::Diff { new_line, .. } => match new_line {
                        Some(found) => found == line,
                        None => false,
                    },
                    SourceKind::File { .. } => false,
                },
                None => false,
            };
            if shown {
                self.request_row(i, highlight, now);
                return true;
            }
            i += 1;
        }
        false
    }

    /// Centres the row that was asked for.
    pub fn apply_source_line_center(&mut self, height: u16)
        ensures
            final(self)@ == source_line_centered(old(self)@, height),
    {
        match self.center_source_row_pending {
            None => {},
            Some(row) => {
                self.center_source_row_pending = None;
                self.center_on_source_row(row, height);
            },
        }
    }

    /// Centres the first change, where that was asked for.
    pub fn apply_first_change_center(&mut self, height: u16)
        ensures
            final(self)@ == first_change_centered(old(self)@, height),
    {
        if !self.center_first_change_pending {
            return;
        }
        self.center_first_change_pending = false;
        match self.first_change {
            None => {},
            Some(row) => {
                self.center_on_source_row(row, height);
            },
        }
    }

    fn shown_row(&self, row: usize) -> (r: Option<usize>)
        ensures
            match r {
                Some(i) => i == shown_at(self@.visual_rows, row as int, 0) && i
                    < self.visual_rows@.len(),
                None => shown_at(self@.visual_rows, row as int, 0) >= self.visual_rows@.len(),
            },
    {
        let mut i: usize = 0;
        while i < self.visual_rows.len()
            invariant
                i <= self.visual_rows@.len(),
                shown_at(self@.visual_rows, row as int, 0) == shown_at(
                    self@.visual_rows,
                    row as int,
                    i as int,
                ),
            decreases self.visual_rows@.len() - i,
        {
            if self.visual_rows[i] == row {
                return Some(i);
            }
            i += 1;
        }
        None
    }

    fn center_on_source_row(&mut self, row: usize, height: u16)
        ensures
            final(self)@ == centered(old(self)@, row as int, height),
    {
        let visual = if self.visual_width == 0 {
            row
        } else {
            match self.shown_row(row) {
                Some(i) => i,
                None => row,
            }
        };
        let h: usize = if height < 1 {
            1
        } else {
            height as usize
        };
        let count = self.visual_len();
        let max = if count > h {
            count - h
        } else {
            0
        };
        let top = if visual > h / 2 {
            visual - h / 2
        } else {
            0
        };
        self.scroll = if top < max {
            top
        } else {
            max
        };
    }

    /// Does what is done before the document is drawn in a body of this size.
    pub fn prepare(&mut self, width: u16, height: u16)
        ensures
            final(self)@ == prepared(old(self)@, width, height),
    {
        self.ensure_visual_lines(width);
        self.apply_source_line_center(height);
        self.apply_first_change_center(height);
        let h: usize = if height < 1 {
            1
        } else {
            height as usize
        };
        let count = self.visual_len();
        let max = if count > h {
            count - h
        } else {
            0
        };
        if self.scroll > max {
            self.scroll = max;
        }
    }

    /// The row that is marked now.
    pub fn active_source_highlight(&self, now: u64) -> (r: Option<usize>)
        ensures
            r == marked_row(self@, now),
    {
        match self.highlighted_source_row {
            Some((row, until)) => if now < until {
                Some(row)
            } else {
                None
            },
            None => None,
        }
    }
}

/// `v` lists the row and the two bytes of each part.
spec fn stands_for(d: DocView, v: Seq<(usize, usize, usize)>, ps: Seq<PartView>) -> bool {
    &&& v.len() == ps.len()
    &&& forall|k: int|
        0 <= k < ps.len() ==> {
            let p = #[trigger] ps[k];
            v[k].1 == p.from && v[k].2 == p.to && selectable(d, v[k].0 as int) == Some(p.row)
                && byte_slice(p.row.raw, p.from, p.to) == Some(p.text)
        }
}

fn push_marker(out: &mut Vec<char>, kind: SourceKind)
    ensures
        final(out)@ == old(out)@ + marker(kind),
{
    match kind {
        SourceKind::File { .. } => {},
        SourceKind::Diff { kind, .. } => {
            out.push(
                match kind {
                    DiffSourceKind::Context => ' ',
                    DiffSourceKind::Deleted => '-',
                    DiffSourceKind::Added => '+',
                },
            );
        },
    }
    assert(out@ =~= old(out)@ + marker(kind));
}

fn line_found(kind: SourceKind) -> (r: Option<usize>)
    ensures
        r == line_of(kind),
{
    match kind {
        SourceKind::File { line } => Some(line),
        SourceKind::Diff { old_line, new_line, kind } => {
            if kind == DiffSourceKind::Deleted {
                old_line
            } else if new_line.is_some() {
                new_line
            } else {
                old_line
            }
        },
    }
}

/// No number of lines has many digits.
proof fn lemma_few_digits(n: nat)
    requires
        n <= usize::MAX,
    ensures
        digits(if n < 1 { 1 } else { n }).len() <= 20,
{
    let m: nat = if n < 1 {
        1
    } else {
        n
    };
    reveal_with_fuel(pow10, 21);
    assert(usize::MAX < pow10(20));
    lemma_digit_count(m, 20);
}

proof fn lemma_digit_count(n: nat, k: nat)
    requires
        k >= 1,
        n < pow10(k),
    ensures
        digits(n).len() <= k,
    decreases k,
{
    if n >= 10 {
        assert(k > 1) by {
            if k == 1 {
                assert(pow10(0) == 1);
                assert(pow10(1) == 10);
            }
        }
        assert(pow10(k) == 10 * pow10((k - 1) as nat));
        lemma_digit_count(n / 10, (k - 1) as nat);
    }
}

spec fn pow10(k: nat) -> nat
    decreases k,
{
    if k == 0 {
        1
    } else {
        10 * pow10((k - 1) as nat)
    }
}

fn bytes_hit(row: &SelectableRow, f: VisualFragment, content_x: usize, column: usize) -> (r: Option<
    (usize, usize),
>)
    ensures
        (match r {
            Some((b, a)) => Some((b as int, a as int)),
            None => None,
        }) == hit_bytes(row@, f, content_x as int, column as int),
{
    let count = row.units.len();
    if f.unit_start > f.unit_end || f.unit_end > count {
        return None;
    }
    let some = f.unit_start < f.unit_end;
    if column < content_x {
        let b = if some {
            row.units[f.unit_start].raw_start
        } else {
            0
        };
        return Some((b, b));
    }
    let local = column - content_x;
    let first_cell = if f.unit_start < count {
        row.units[f.unit_start].cell_start
    } else {
        0
    };
    let mut i: usize = f.unit_start;
    while i < f.unit_end
        invariant
            f.unit_start <= i <= f.unit_end <= count,
            count == row.units@.len(),
            unit_at(
                row.units@,
                f.unit_start as int,
                f.unit_end as int,
                first_cell as int,
                local as int,
            ) == unit_at(row.units@, i as int, f.unit_end as int, first_cell as int, local as int),
            local == column - content_x,
            content_x <= column,
            f.unit_start < count ==> first_cell == row.units@[f.unit_start as int].cell_start,
            f.unit_start >= count ==> first_cell == 0,
        decreases f.unit_end - i,
    {
        let u = row.units[i];
        let start = if u.cell_start > first_cell {
            u.cell_start - first_cell
        } else {
            0
        };
        let end = if u.cell_end > first_cell {
            u.cell_end - first_cell
        } else {
            0
        };
        if local < end || local <= start {
            return Some((u.raw_start, u.raw_end));
        }
        i += 1;
    }
    let b = if some {
        row.units[f.unit_end - 1].raw_end
    } else {
        byte_len(row.raw.as_str())
    };
    Some((b, b))
}

fn touched_first(units: &Vec<DisplayUnit>, from: usize, to: usize, a: usize, b: usize) -> (r: usize)
    requires
        from <= to <= units@.len(),
    ensures
        r == first_touched(units@, from as int, to as int, a as int, b as int),
        from <= r <= to,
{
    let mut i: usize = from;
    while i < to
        invariant
            from <= i <= to <= units@.len(),
            first_touched(units@, from as int, to as int, a as int, b as int) == first_touched(
                units@,
                i as int,
                to as int,
                a as int,
                b as int,
            ),
        decreases to - i,
    {
        let u = units[i];
        if u.raw_end > a && u.raw_start < b {
            return i;
        }
        i += 1;
    }
    i
}

fn touched_last(units: &Vec<DisplayUnit>, from: usize, to: usize, a: usize, b: usize) -> (r: Option<
    usize,
>)
    requires
        from <= to <= units@.len(),
    ensures
        match r {
            Some(i) => i == last_touched(units@, from as int, to as int, a as int, b as int)
                && from <= i < to,
            None => first_touched(units@, from as int, to as int, a as int, b as int) == to,
        },
{
    let mut i: usize = to;
    while i > from
        invariant
            from <= i <= to <= units@.len(),
            last_touched(units@, from as int, to as int, a as int, b as int) == last_touched(
                units@,
                from as int,
                i as int,
                a as int,
                b as int,
            ),
            forall|k: int|
                i <= k < to ==> !((#[trigger] units@[k]).raw_end > a && units@[k].raw_start < b),
        decreases i,
    {
        let u = units[i - 1];
        if u.raw_end > a && u.raw_start < b {
            return Some(i - 1);
        }
        i -= 1;
    }
    proof {
        lemma_none_touched(units@, from as int, to as int, a as int, b as int);
    }
    None
}

proof fn lemma_none_touched(units: Seq<DisplayUnit>, from: int, to: int, a: int, b: int)
    requires
        from <= to,
        forall|k: int| from <= k < to ==> !((#[trigger] units[k]).raw_end > a && units[k].raw_start < b),
    ensures
        first_touched(units, from, to, a, b) == to,
    decreases to - from,
{
    if from < to {
        lemma_none_touched(units, from + 1, to, a, b);
    }
}

fn cells_touched(row: &SelectableRow, f: VisualFragment, a: usize, b: usize) -> (r: Option<
    (usize, usize),
>)
    ensures
        r == touched_cells(row@, f, a as int, b as int),
{
    if a >= b || f.unit_start >= f.unit_end || f.unit_end > row.units.len() {
        return None;
    }
    let first_cell = row.units[f.unit_start].cell_start;
    let i = touched_first(&row.units, f.unit_start, f.unit_end, a, b);
    if i >= f.unit_end {
        return None;
    }
    match touched_last(&row.units, f.unit_start, f.unit_end, a, b) {
        None => None,
        Some(j) => {
            let from = row.units[i].cell_start;
            let to = row.units[j].cell_end;
            let x = if from > first_cell {
                from - first_cell
            } else {
                0
            };
            let y = if to > first_cell {
                to - first_cell
            } else {
                0
            };
            Some((add_up(f.content_x, x), add_up(f.content_x, y)))
        },
    }
}

} // verus!
