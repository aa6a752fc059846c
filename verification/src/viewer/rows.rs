//! Rows whose text can be selected, and places in them.

use vstd::prelude::*;

use crate::bytes::{byte_len, char_at_byte, char_index, lemma_char_at_byte};
use crate::cells::{
    cell_count, clusters, concat, count_cells, graphemes, lemma_concat_push, lemma_concat_take,
};
use crate::diffview::{DiffSource, DiffSourceKind, SourceView};
use crate::scan::{lemma_utf8_len_add, utf8_len};
use crate::text::{chars_of, eq_text, text_slice, texts};

verus! {

/// Tabs reach to the next multiple of this many columns.
pub const TAB_WIDTH: usize = 4;

/// Where a row's text comes from.
#[allow(inconsistent_fields)]
#[derive(Clone, Copy, Debug, PartialEq, Eq, Structural)]
pub enum SourceKind {
    File { line: usize },
    Diff { old_line: Option<usize>, new_line: Option<usize>, kind: DiffSourceKind },
}

/// The bytes of one grapheme and the cells it is drawn in. A tab has one unit
/// for each of its cells.
#[derive(Clone, Copy, Debug, PartialEq, Eq, Structural)]
pub struct DisplayUnit {
    pub raw_start: usize,
    pub raw_end: usize,
    pub cell_start: usize,
    pub cell_end: usize,
}

/// A row whose text can be selected.
#[derive(Debug)]
pub struct SelectableRow {
    pub raw: String,
    pub kind: SourceKind,
    pub units: Vec<DisplayUnit>,
}

#[verifier::ext_equal]
pub struct SelectableView {
    pub raw: Seq<char>,
    pub kind: SourceKind,
    pub units: Seq<DisplayUnit>,
}

impl View for SelectableRow {
    type V = SelectableView;

    open spec fn view(&self) -> SelectableView {
        SelectableView { raw: self.raw@, kind: self.kind, units: self.units@ }
    }
}

/// `a + b`, or the largest number where that is more.
pub open spec fn plus(a: int, b: int) -> usize {
    if a + b > usize::MAX {
        usize::MAX
    } else {
        (a + b) as usize
    }
}

pub fn add_up(a: usize, b: usize) -> (r: usize)
    ensures
        r == plus(a as int, b as int),
{
    if a > usize::MAX - b {
        usize::MAX
    } else {
        a + b
    }
}

/// How many cells the graphemes take.
pub open spec fn cells_taken(parts: Seq<Seq<char>>) -> usize
    decreases parts.len(),
{
    if parts.len() == 0 {
        0
    } else {
        let before = cells_taken(parts.drop_last());
        if parts.last() == "\t"@ {
            plus(before as int, TAB_WIDTH - before as int % TAB_WIDTH as int)
        } else {
            plus(before as int, cell_count(parts.last()) as int)
        }
    }
}

/// The units of a tab of `width` cells at this byte and cell.
pub open spec fn tab_units(byte: int, cell: int, width: int) -> Seq<DisplayUnit> {
    Seq::new(
        width as nat,
        |k: int|
            DisplayUnit {
                raw_start: byte as usize,
                raw_end: (byte + 1) as usize,
                cell_start: plus(cell, k),
                cell_end: plus(cell, k + 1),
            },
    )
}

/// The units of the graphemes, one after the other.
pub open spec fn units_of(parts: Seq<Seq<char>>) -> Seq<DisplayUnit>
    decreases parts.len(),
{
    if parts.len() == 0 {
        Seq::empty()
    } else {
        let before = units_of(parts.drop_last());
        let byte = utf8_len(concat(parts.drop_last())) as int;
        let cell = cells_taken(parts.drop_last()) as int;
        if parts.last() == "\t"@ {
            before + tab_units(byte, cell, TAB_WIDTH - cell % TAB_WIDTH as int)
        } else {
            before.push(
                DisplayUnit {
                    raw_start: byte as usize,
                    raw_end: (byte + utf8_len(parts.last())) as usize,
                    cell_start: cell as usize,
                    cell_end: plus(cell, cell_count(parts.last()) as int),
                },
            )
        }
    }
}

/// The row of a text.
pub open spec fn row_of(raw: Seq<char>, kind: SourceKind) -> SelectableView {
    SelectableView { raw, kind, units: units_of(clusters(raw)) }
}

fn push_tab(units: &mut Vec<DisplayUnit>, byte: usize, cell: usize, width: usize)
    requires
        byte < usize::MAX,
        width <= TAB_WIDTH,
    ensures
        final(units)@ == old(units)@ + tab_units(byte as int, cell as int, width as int),
{
    let mut k: usize = 0;
    let ghost all = tab_units(byte as int, cell as int, width as int);
    assert(old(units)@ + all.take(0) =~= old(units)@);
    while k < width
        invariant
            k <= width <= TAB_WIDTH,
            byte < usize::MAX,
            all == tab_units(byte as int, cell as int, width as int),
            units@ =~= old(units)@ + all.take(k as int),
        decreases width - k,
    {
        units.push(
            DisplayUnit {
                raw_start: byte,
                raw_end: byte + 1,
                cell_start: add_up(cell, k),
                cell_end: add_up(cell, k + 1),
            },
        );
        k += 1;
    }
    assert(all.take(k as int) =~= all);
}

/// The bytes of the first graphemes are no more than those of all.
proof fn lemma_bytes_so_far(parts: Seq<Seq<char>>, i: int)
    requires
        0 <= i < parts.len(),
    ensures
        utf8_len(concat(parts.take(i))) + utf8_len(parts[i]) == utf8_len(concat(parts.take(i + 1))),
        utf8_len(concat(parts.take(i + 1))) <= utf8_len(concat(parts)),
{
    let p = parts.take(i + 1);
    assert(p =~= parts.take(i).push(parts[i]));
    lemma_concat_push(parts.take(i), parts[i]);
    lemma_utf8_len_add(concat(parts.take(i)), parts[i]);
    lemma_concat_take(parts, i + 1);
    let n = concat(p).len() as int;
    let s = concat(parts);
    assert(s =~= s.take(n) + s.skip(n));
    lemma_utf8_len_add(s.take(n), s.skip(n));
}

fn display_units(raw: &str) -> (r: Vec<DisplayUnit>)
    ensures
        r@ == units_of(clusters(raw@)),
{
    let parts = graphemes(raw);
    let ghost all = clusters(raw@);
    let total = byte_len(raw);
    let mut units: Vec<DisplayUnit> = Vec::new();
    let mut cell: usize = 0;
    let mut byte: usize = 0;
    let mut i: usize = 0;
    assert(all.take(0) =~= Seq::empty());
    while i < parts.len()
        invariant
            i <= parts@.len(),
            all == texts(parts@),
            total == utf8_len(concat(all)),
            byte == utf8_len(concat(all.take(i as int))),
            cell == cells_taken(all.take(i as int)),
            units@ == units_of(all.take(i as int)),
        decreases parts@.len() - i,
    {
        let part = parts[i].as_str();
        assert(all[i as int] == part@);
        proof {
            lemma_bytes_so_far(all, i as int);
            reveal_strlit("\t");
        }
        assert(all.take(i + 1).drop_last() =~= all.take(i as int));
        assert(all.take(i + 1).last() == part@);
        let n = byte_len(part);
        if eq_text(part, "\t") {
            proof {
                let tab = seq!['\t'];
                assert(part@ =~= tab);
                assert(tab.drop_last() =~= Seq::empty());
                assert(utf8_len(tab.drop_last()) == 0);
                assert(utf8_len(part@) == 1);
            }
            let width = TAB_WIDTH - cell % TAB_WIDTH;
            push_tab(&mut units, byte, cell, width);
            cell = add_up(cell, width);
        } else {
            let width = count_cells(part) as usize;
            units.push(
                DisplayUnit {
                    raw_start: byte,
                    raw_end: byte + n,
                    cell_start: cell,
                    cell_end: add_up(cell, width),
                },
            );
            cell = add_up(cell, width);
        }
        byte += n;
        i += 1;
    }
    assert(all.take(i as int) =~= all);
    units
}

/// How many graphemes come before byte `at`, or the end where that is less.
pub open spec fn column_of(raw: Seq<char>, at: int) -> nat {
    let end = if at < utf8_len(raw) {
        at
    } else {
        utf8_len(raw) as int
    };
    clusters(raw.take(char_at_byte(raw, end)->0)).len()
}

/// Whether a byte is a place between characters, or beyond the end.
pub open spec fn at_boundary(raw: Seq<char>, at: int) -> bool {
    at >= utf8_len(raw) || char_at_byte(raw, at) is Some
}

impl SelectableRow {
    pub fn new(raw: String, kind: SourceKind) -> (r: SelectableRow)
        ensures
            r@ == row_of(raw@, kind),
    {
        let units = display_units(raw.as_str());
        SelectableRow { raw, kind, units }
    }

    /// The row of a file's line.
    pub fn file(raw: &str, line: usize) -> (r: SelectableRow)
        ensures
            r@ == row_of(raw@, SourceKind::File { line }),
    {
        SelectableRow::new(raw.to_string(), SourceKind::File { line })
    }

    /// The row of a diff's line.
    pub fn diff(source: DiffSource) -> (r: SelectableRow)
        ensures
            r@ == diff_row(source@),
    {
        SelectableRow::new(
            source.text,
            SourceKind::Diff {
                old_line: source.old_line,
                new_line: source.new_line,
                kind: source.kind,
            },
        )
    }

    /// How many graphemes come before a byte.
    pub fn byte_column(&self, byte: usize) -> (r: usize)
        requires
            at_boundary(self@.raw, byte as int),
        ensures
            r == column_of(self@.raw, byte as int),
    {
        let total = byte_len(self.raw.as_str());
        let end = if byte < total {
            byte
        } else {
            total
        };
        let v = chars_of(self.raw.as_str());
        proof {
            lemma_char_at_byte(v@, end as int);
        }
        match char_index(&v, end) {
            Some(k) => {
                let head = text_slice(&v, 0, k);
                assert(head@ =~= v@.take(k as int));
                let parts = graphemes(head.as_str());
                assert(texts(parts@).len() == parts@.len());
                parts.len()
            },
            None => 0,
        }
    }
}

/// The row of a diff's line.
pub open spec fn diff_row(source: SourceView) -> SelectableView {
    row_of(
        source.text,
        SourceKind::Diff {
            old_line: source.old_line,
            new_line: source.new_line,
            kind: source.kind,
        },
    )
}

impl Clone for SelectableRow {
    fn clone(&self) -> (r: SelectableRow)
        ensures
            r@ == self@,
    {
        let mut units: Vec<DisplayUnit> = Vec::new();
        let mut i: usize = 0;
        while i < self.units.len()
            invariant
                i <= self.units@.len(),
                units@ =~= self.units@.take(i as int),
            decreases self.units@.len() - i,
        {
            units.push(self.units[i]);
            i += 1;
        }
        SelectableRow { raw: self.raw.clone(), kind: self.kind, units }
    }
}

/// A byte of a row.
#[derive(Clone, Copy, Debug, PartialEq, Eq, PartialOrd, Ord, Structural)]
pub struct TextPoint {
    pub row: usize,
    pub byte: usize,
}

/// Whether `a` comes before `b` in the document.
pub open spec fn point_before(a: TextPoint, b: TextPoint) -> bool {
    a.row < b.row || (a.row == b.row && a.byte < b.byte)
}

pub fn before(a: TextPoint, b: TextPoint) -> (r: bool)
    ensures
        r == point_before(a, b),
{
    a.row < b.row || (a.row == b.row && a.byte < b.byte)
}

/// Where the mouse is: before one grapheme and after it.
#[derive(Clone, Copy, Debug, PartialEq, Eq, Structural)]
pub struct HitPoint {
    pub before: TextPoint,
    pub after: TextPoint,
}

/// What is selected: from where the drag began to where it is.
#[derive(Clone, Copy, Debug, PartialEq, Eq, Structural)]
pub struct TextSelection {
    pub anchor: TextPoint,
    pub cursor: TextPoint,
}

/// The two ends of a selection in the order of the document.
pub open spec fn ends_of(s: TextSelection) -> (TextPoint, TextPoint) {
    if point_before(s.cursor, s.anchor) {
        (s.cursor, s.anchor)
    } else {
        (s.anchor, s.cursor)
    }
}

/// Whether the grapheme that was hit is part of the selection.
pub open spec fn covers(s: TextSelection, hit: HitPoint) -> bool {
    point_before(hit.before, ends_of(s).1) && point_before(ends_of(s).0, hit.after)
}

impl TextSelection {
    /// The two ends in the order of the document.
    pub fn normalized(self) -> (r: (TextPoint, TextPoint))
        ensures
            r == ends_of(self),
    {
        if before(self.cursor, self.anchor) {
            (self.cursor, self.anchor)
        } else {
            (self.anchor, self.cursor)
        }
    }

    /// Whether the grapheme that was hit is part of the selection.
    pub fn contains_hit(self, hit: HitPoint) -> (r: bool)
        ensures
            r == covers(self, hit),
    {
        let (start, end) = self.normalized();
        before(hit.before, end) && before(start, hit.after)
    }
}

/// It makes no difference in which direction a selection was dragged.
pub proof fn law_selections_have_no_direction(s: TextSelection)
    ensures
        ends_of(s) == ends_of(TextSelection { anchor: s.cursor, cursor: s.anchor }),
        !point_before(ends_of(s).1, ends_of(s).0),
{
}

/// The units of a row follow one another: their bytes and their cells never go
/// back, and none reaches beyond the text.
pub proof fn law_units_follow_the_text(parts: Seq<Seq<char>>)
    requires
        utf8_len(concat(parts)) <= usize::MAX,
    ensures
        forall|i: int|
            0 <= i < units_of(parts).len() ==> {
                let u = #[trigger] units_of(parts)[i];
                u.raw_start <= u.raw_end <= utf8_len(concat(parts)) && u.cell_start <= u.cell_end
                    <= cells_taken(parts)
            },
        forall|i: int, j: int|
            0 <= i < j < units_of(parts).len() ==> (#[trigger] units_of(parts)[i]).raw_start
                <= (#[trigger] units_of(parts)[j]).raw_start && units_of(parts)[i].cell_end
                <= units_of(parts)[j].cell_start,
    decreases parts.len(),
{
    if parts.len() > 0 {
        let head = parts.drop_last();
        let n = parts.len() - 1;
        assert(parts.take(n) =~= head);
        assert(parts.take(n + 1) =~= parts);
        lemma_bytes_so_far(parts, n);
        law_units_follow_the_text(head);
        let byte = utf8_len(concat(head)) as int;
        let cell = cells_taken(head) as int;
        reveal_strlit("\t");
        if parts.last() == "\t"@ {
            let tab = seq!['\t'];
            assert(parts.last() =~= tab);
            assert(tab.drop_last() =~= Seq::empty());
            assert(utf8_len(tab.drop_last()) == 0);
            assert(utf8_len(tab) == 1);
        }
        let old = units_of(head);
        let all = units_of(parts);
        assert forall|i: int| 0 <= i < all.len() implies ({
            let u = #[trigger] all[i];
            u.raw_start <= u.raw_end <= utf8_len(concat(parts)) && u.cell_start <= u.cell_end
                <= cells_taken(parts)
        }) by {
            if i < old.len() {
                assert(all[i] == old[i]);
            } else if parts.last() == "\t"@ {
                let width = TAB_WIDTH - cell % TAB_WIDTH as int;
                assert(all[i] == tab_units(byte, cell, width)[i - old.len()]);
            }
        }
        assert forall|i: int, j: int| 0 <= i < j < all.len() implies (#[trigger] all[i]).raw_start
            <= (#[trigger] all[j]).raw_start && all[i].cell_end <= all[j].cell_start by {
            if i < old.len() {
                assert(all[i] == old[i]);
            }
            if j < old.len() {
                assert(all[j] == old[j]);
            } else if parts.last() == "\t"@ {
                let width = TAB_WIDTH - cell % TAB_WIDTH as int;
                assert(all[j] == tab_units(byte, cell, width)[j - old.len()]);
                if i >= old.len() {
                    assert(all[i] == tab_units(byte, cell, width)[i - old.len()]);
                }
            }
        }
    }
}

} // verus!
