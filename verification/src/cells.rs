//! How many terminal cells text takes.

use ratatui::buffer::CellWidth;
use unicode_segmentation::UnicodeSegmentation;
use vstd::prelude::*;

use crate::text::{chars_of, texts};

verus! {

/// The width of a text in terminal columns, as `ratatui::text::Span::width`
/// gives it.
pub uninterp spec fn width_of(text: Seq<char>) -> nat;

/// `ratatui::text::Span::width` of a span that holds `s`: a function of the
/// text alone. Nothing more is claimed of the number.
#[verifier::external_body]
pub(crate) fn text_width(s: &str) -> (r: usize)
    ensures
        r == width_of(s@),
{
    ratatui::text::Span::raw(s).width()
}

/// The number of cells that one drawn symbol takes, as
/// `ratatui::buffer::CellWidth::cell_width` gives it.
pub uninterp spec fn cells_of(symbol: Seq<char>) -> nat;

/// Whether a symbol is a single ASCII control character.
pub open spec fn is_control(symbol: Seq<char>) -> bool {
    symbol.len() == 1 && ((symbol[0] as u32) < 32 || symbol[0] as u32 == 127)
}

/// `ratatui::buffer::CellWidth::cell_width`: a function of the symbol alone,
/// and no more than a `u16` holds. A single ASCII control character is left
/// out: debug builds of that function reject it.
#[verifier::external_body]
pub(crate) fn symbol_cells(s: &str) -> (r: u16)
    requires
        !is_control(s@),
    ensures
        r == cells_of(s@),
{
    s.cell_width()
}

/// How many cells a grapheme takes where it is drawn. One that is a single
/// control character is reported as one.
pub open spec fn cell_count(symbol: Seq<char>) -> nat {
    if is_control(symbol) {
        1
    } else {
        cells_of(symbol)
    }
}

/// How many cells a grapheme takes where it is drawn.
pub fn count_cells(symbol: &str) -> (r: u16)
    ensures
        r == cell_count(symbol@),
{
    let v = chars_of(symbol);
    if v.len() == 1 && ((v[0] as u32) < 32 || v[0] as u32 == 127) {
        1
    } else {
        symbol_cells(symbol)
    }
}

/// The extended grapheme clusters of a text, in order, as
/// `unicode_segmentation::UnicodeSegmentation::graphemes` gives them.
pub uninterp spec fn clusters(text: Seq<char>) -> Seq<Seq<char>>;

/// The texts one after the other.
pub open spec fn concat(parts: Seq<Seq<char>>) -> Seq<char>
    decreases parts.len(),
{
    if parts.len() == 0 {
        Seq::empty()
    } else {
        concat(parts.drop_last()) + parts.last()
    }
}

/// `unicode_segmentation::UnicodeSegmentation::graphemes(true)`: a function of
/// the text alone. The clusters cut the text up: none is empty, and one after
/// the other they are the text.
#[verifier::external_body]
pub(crate) fn graphemes(s: &str) -> (r: Vec<String>)
    ensures
        texts(r@) == clusters(s@),
        concat(texts(r@)) == s@,
        forall|k: int| 0 <= k < r@.len() ==> (#[trigger] texts(r@)[k]).len() > 0,
{
    s.graphemes(true).map(|g| g.to_string()).collect()
}

pub proof fn lemma_concat_push(parts: Seq<Seq<char>>, p: Seq<char>)
    ensures
        concat(parts.push(p)) == concat(parts) + p,
{
    assert(parts.push(p).drop_last() =~= parts);
}

pub proof fn lemma_concat_add(a: Seq<Seq<char>>, b: Seq<Seq<char>>)
    ensures
        concat(a + b) == concat(a) + concat(b),
    decreases b.len(),
{
    if b.len() == 0 {
        assert(a + b =~= a);
        assert(concat(a) + concat(b) =~= concat(a));
    } else {
        assert((a + b).drop_last() =~= a + b.drop_last());
        lemma_concat_add(a, b.drop_last());
        assert(concat(a + b) =~= concat(a) + concat(b));
    }
}

/// What comes first among the parts comes first in the text.
pub proof fn lemma_concat_take(parts: Seq<Seq<char>>, k: int)
    requires
        0 <= k <= parts.len(),
    ensures
        concat(parts.take(k)).len() <= concat(parts).len(),
        concat(parts).take(concat(parts.take(k)).len() as int) == concat(parts.take(k)),
{
    lemma_concat_add(parts.take(k), parts.skip(k));
    assert(parts.take(k) + parts.skip(k) =~= parts);
    assert(concat(parts).take(concat(parts.take(k)).len() as int) =~= concat(parts.take(k)));
}

} // verus!
