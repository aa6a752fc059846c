//! Where the rows of the source control view stand on the screen.

use vstd::prelude::*;

use crate::input::{least, smaller};
use crate::scm_app::app::{App, AppView};
use crate::scm_app::layout::{
    inline_field_width, message_rows, wrap_message, Row, MESSAGE_MAX_ROWS,
};
use crate::text::texts;

verus! {

/// How many rows of a repository's message its box shows.
pub open spec fn inline_rows(v: AppView, r: usize) -> int {
    if r < v.repos.len() {
        let repo = v.repos[r as int];
        least(
            message_rows(
                repo.message,
                repo.cursor,
                crate::input::monus(v.last_width as int, 5),
            ).len() as int,
            MESSAGE_MAX_ROWS as int,
        )
    } else {
        1
    }
}

/// How many lines of the screen a row takes.
pub open spec fn height_of(v: AppView, row: Row) -> int {
    match row {
        Row::Message(r) => 2 + inline_rows(v, r),
        _ => 1,
    }
}

/// The row of which a line lies `line` lines below the top of row `i`, and which
/// of its lines that is.
pub open spec fn row_below(v: AppView, i: int, line: int) -> Option<(usize, u16)>
    decreases v.rows.len() - i,
{
    if i >= v.rows.len() {
        None
    } else if line < height_of(v, v.rows[i]) {
        Some((i as usize, line as u16))
    } else {
        row_below(v, i + 1, line - height_of(v, v.rows[i]))
    }
}

/// The row at a line of the screen, and which of its lines that is.
pub open spec fn hit_row(v: AppView, y: u16) -> Option<(usize, u16)> {
    if v.body.top <= y < v.body.top + v.body.height {
        row_below(v, v.body.offset as int, y - v.body.top)
    } else {
        None
    }
}

pub open spec fn row_under(v: AppView, y: u16) -> Option<usize> {
    match hit_row(v, y) {
        Some((i, _)) => Some(i),
        None => None,
    }
}

/// How many lines the rows from `i` up to `to` take.
pub open spec fn lines_between(v: AppView, i: int, to: int) -> int
    decreases to - i,
{
    if i >= to {
        0
    } else {
        height_of(v, v.rows[i]) + lines_between(v, i + 1, to)
    }
}

/// The line of the screen at which a row begins, where that is in sight.
pub open spec fn top_line(v: AppView, index: int) -> Option<u16> {
    let y = v.body.top + lines_between(v, v.body.offset as int, index);
    if v.body.offset <= index < v.rows.len() && y < v.body.top + v.body.height {
        Some(y as u16)
    } else {
        None
    }
}

impl App {
    /// How many rows of a repository's message its box shows.
    pub fn message_rows_inline(&self, r: usize) -> (n: usize)
        ensures
            n == inline_rows(self@, r),
            n <= 4,
    {
        if r >= self.repos.len() {
            return 1;
        }
        assert(self@.repos[r as int] == self.repos@[r as int]@);
        let field = inline_field_width(self.last_width) as usize;
        let (rows, _, _) = wrap_message(&self.repos[r].message, self.repos[r].cursor, field);
        assert(texts(rows@).len() == rows@.len());
        smaller(rows.len(), MESSAGE_MAX_ROWS)
    }

    /// How many lines of the screen a row takes.
    pub fn row_height(&self, row: Row) -> (n: u16)
        ensures
            n == height_of(self@, row),
            1 <= n <= 6,
    {
        match row {
            Row::Message(r) => 2 + self.message_rows_inline(r) as u16,
            _ => 1,
        }
    }

    /// The row at a line of the screen, and which of its lines that is.
    pub fn row_hit(&self, mouse_row: u16) -> (r: Option<(usize, u16)>)
        ensures
            r == hit_row(self@, mouse_row),
    {
        let bottom = self.body.top as u32 + self.body.height as u32;
        if mouse_row < self.body.top || mouse_row as u32 >= bottom {
            return None;
        }
        let mut line = mouse_row - self.body.top;
        let mut i = self.body.offset;
        let ghost want = hit_row(self@, mouse_row);
        while i < self.rows.len()
            invariant
                want == row_below(self@, i as int, line as int),
                want == hit_row(self@, mouse_row),
            decreases self.rows@.len() - i,
        {
            let h = self.row_height(self.rows[i]);
            if line < h {
                return Some((i, line));
            }
            line -= h;
            i += 1;
        }
        None
    }

    /// The row at a line of the screen.
    pub fn row_at(&self, mouse_row: u16) -> (r: Option<usize>)
        ensures
            r == row_under(self@, mouse_row),
    {
        match self.row_hit(mouse_row) {
            Some((index, _)) => Some(index),
            None => None,
        }
    }

    /// The line of the screen at which a row begins, where that is in sight.
    pub fn row_y(&self, index: usize) -> (r: Option<u16>)
        ensures
            r == top_line(self@, index as int),
    {
        if index < self.body.offset || index >= self.rows.len() {
            return None;
        }
        let bottom = self.body.top as u32 + self.body.height as u32;
        let mut y: u32 = self.body.top as u32;
        let mut i = self.body.offset;
        let ghost want = self.body.top + lines_between(self@, self.body.offset as int, index as int);
        while i < index && y < bottom
            invariant
                self.body.offset <= i <= index,
                index < self.rows@.len(),
                bottom <= 0x20000,
                y <= bottom + 6,
                want == y + lines_between(self@, i as int, index as int),
            decreases index - i,
        {
            let h = self.row_height(self.rows[i]);
            y += h as u32;
            i += 1;
        }
        proof {
            lemma_lines_are_none_or_more(self@, i as int, index as int);
        }
        if y < bottom {
            Some(y as u16)
        } else {
            None
        }
    }
}

proof fn lemma_lines_are_none_or_more(v: AppView, i: int, to: int)
    ensures
        lines_between(v, i, to) >= 0,
    decreases to - i,
{
    if i < to {
        lemma_lines_are_none_or_more(v, i + 1, to);
    }
}

/// What is drawn at a line is what is hit there: a row that is in sight is hit at
/// the line at which it begins.
pub proof fn law_rows_are_hit_where_they_stand(v: AppView, index: int)
    requires
        0 <= index < v.rows.len() <= usize::MAX,
        v.body.top + v.body.height <= u16::MAX,
        top_line(v, index) is Some,
    ensures
        hit_row(v, top_line(v, index)->0) == Some((index as usize, 0u16)),
{
    lemma_lines_are_none_or_more(v, v.body.offset as int, index);
    lemma_row_below(v, v.body.offset as int, index);
}

proof fn lemma_row_below(v: AppView, i: int, index: int)
    requires
        0 <= i <= index < v.rows.len(),
    ensures
        row_below(v, i, lines_between(v, i, index)) == Some((index as usize, 0u16)),
    decreases index - i,
{
    if i < index {
        lemma_lines_are_none_or_more(v, i + 1, index);
        lemma_row_below(v, i + 1, index);
    } else {
        assert(inline_rows(v, 0) >= 0);
    }
}

} // verus!
