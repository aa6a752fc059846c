//! What is copied, and what is handed to an agent, of a selection.

use vstd::prelude::*;

use crate::bytes::{lemma_char_found, lemma_len_of_take};
use crate::cells::clusters;
use crate::diffview::DiffSourceKind;
use crate::scan::{digits, is_white, trim, trim_start, utf8_len, Class};
use crate::text::{has_char, join, law_split_of_join, split};
use crate::viewer::comments::{
    comment_block, escaped, fence_of, formatted, longest_ticks, pending_of, ticks_at, SavedView,
};
use crate::viewer::doc::{
    exported, kept, marked_text, part_at, part_texts, parts_to, plain_text, selected,
    selected_words, DocView, ExportView, PartView,
};
use crate::viewer::request::{shown_path, RequestView};
use crate::viewer::rows::{column_of, SourceKind, TextPoint, TextSelection};

verus! {

/// Whether a document has a selection with these two ends, in either order, the first before
/// the second: every row from the one to the other holds text, without line feeds, and the
/// ends stand before the character `from` of the first row and `to` of the last.
pub open spec fn selects(
    d: DocView,
    start: TextPoint,
    end: TextPoint,
    from: int,
    to: int,
) -> bool {
    &&& d.selection == Some(TextSelection { anchor: start, cursor: end }) || d.selection == Some(
        TextSelection { anchor: end, cursor: start },
    )
    &&& start.row < end.row || (start.row == end.row && start.byte < end.byte)
    &&& end.row < d.sources.len()
    &&& forall|i: int|
        start.row <= i <= end.row ==> (#[trigger] d.sources[i]) is Some && !has_char(
            d.sources[i]->0.raw,
            '\n',
        )
    &&& 0 <= from <= d.sources[start.row as int]->0.raw.len()
    &&& 0 <= to <= d.sources[end.row as int]->0.raw.len()
    &&& start.byte == utf8_len(d.sources[start.row as int]->0.raw.take(from))
    &&& end.byte == utf8_len(d.sources[end.row as int]->0.raw.take(to))
}

/// What is selected of one of those rows: of the first row what follows its end, of the
/// last what comes before its end, and all of the rows between.
pub open spec fn row_part(
    d: DocView,
    start: TextPoint,
    end: TextPoint,
    from: int,
    to: int,
    i: int,
) -> Seq<char> {
    let raw = d.sources[i]->0.raw;
    raw.subrange(
        if i == start.row {
            from
        } else {
            0
        },
        if i == end.row {
            to
        } else {
            raw.len() as int
        },
    )
}

proof fn lemma_parts(d: DocView, start: TextPoint, end: TextPoint, from: int, to: int, n: int)
    requires
        selects(d, start, end, from, to),
        start.row <= n <= end.row + 1,
    ensures
        parts_to(d.sources, start, end, n) matches Some(parts) && parts.len() == n - start.row
            && forall|k: int|
            0 <= k < parts.len() ==> (#[trigger] parts[k]).text == row_part(
                d,
                start,
                end,
                from,
                to,
                start.row + k,
            ) && parts[k].row == d.sources[start.row + k]->0 && parts[k].from == (if k == 0 {
                start.byte as int
            } else {
                0
            }) && parts[k].to == (if start.row + k == end.row {
                end.byte as int
            } else {
                utf8_len(parts[k].row.raw) as int
            }),
    decreases n - start.row,
{
    if n > start.row {
        lemma_parts(d, start, end, from, to, n - 1);
        let i = n - 1;
        assert(d.sources[i] is Some);
        let raw = d.sources[i]->0.raw;
        let a: int = if i == start.row {
            from
        } else {
            0
        };
        let b: int = if i == end.row {
            to
        } else {
            raw.len() as int
        };
        assert(raw.take(0) =~= Seq::empty());
        assert(raw.take(raw.len() as int) =~= raw);
        lemma_char_found(raw, a);
        lemma_char_found(raw, b);
        if a > b {
            lemma_len_of_take(raw, b, a);
        }
        assert(part_at(d.sources, start, end, i) is Some);
    }
}

/// What is selected of a row holds no line feed.
proof fn lemma_part_clean(d: DocView, start: TextPoint, end: TextPoint, from: int, to: int, i: int)
    requires
        selects(d, start, end, from, to),
        start.row <= i <= end.row,
    ensures
        !has_char(row_part(d, start, end, from, to, i), '\n'),
{
    assert(d.sources[i] is Some);
    let raw = d.sources[i]->0.raw;
    let part = row_part(d, start, end, from, to, i);
    if start.row == end.row && to <= from {
        lemma_len_of_take(raw, to, from);
    }
    if has_char(part, '\n') {
        let j = choose|j: int| 0 <= j < part.len() && part[j] == '\n';
        let a: int = if i == start.row {
            from
        } else {
            0
        };
        assert(raw[a + j] == '\n');
    }
}

/// The selected text, split at line feeds, is what is selected of each row in turn: it has
/// as many lines as the selection has rows, and loses nothing of them.
pub proof fn law_selected_text_keeps_the_rows(
    d: DocView,
    start: TextPoint,
    end: TextPoint,
    from: int,
    to: int,
)
    requires
        selects(d, start, end, from, to),
    ensures
        selected_words(d) matches Some(text) && split(text, '\n') == Seq::new(
            (end.row - start.row + 1) as nat,
            |k: int| row_part(d, start, end, from, to, start.row + k),
        ),
{
    lemma_parts(d, start, end, from, to, end.row + 1);
    let parts = parts_to(d.sources, start, end, end.row + 1)->0;
    assert(selected(d) == Some((start, end)));
    let want = Seq::new(
        (end.row - start.row + 1) as nat,
        |k: int| row_part(d, start, end, from, to, start.row + k),
    );
    assert(part_texts(parts) =~= want);
    assert forall|k: int| 0 <= k < want.len() implies !has_char(#[trigger] want[k], '\n') by {
        lemma_part_clean(d, start, end, from, to, start.row + k);
    }
    reveal_strlit("\n");
    assert("\n"@ =~= seq!['\n']);
    law_split_of_join(want, '\n');
    if plain_text(parts).len() == 0 {
        if want.len() == 1 {
            let raw = d.sources[start.row as int]->0.raw;
            assert(plain_text(parts) == want[0]);
            assert(from >= to);
            lemma_len_of_take(raw, to, from);
        } else {
            assert(plain_text(parts) == want[0] + seq!['\n'] + join(
                want.subrange(1, want.len() as int),
                seq!['\n'],
            ));
        }
    }
}

/// With which character a comment marks a row: of a diff with the sign of its kind.
pub open spec fn row_mark(kind: SourceKind) -> Seq<char> {
    match kind {
        SourceKind::File { .. } => Seq::empty(),
        SourceKind::Diff { kind: DiffSourceKind::Added, .. } => seq!['+'],
        SourceKind::Diff { kind: DiffSourceKind::Deleted, .. } => seq!['-'],
        SourceKind::Diff { kind: DiffSourceKind::Context, .. } => seq![' '],
    }
}

proof fn lemma_none_deleted(parts: Seq<PartView>)
    requires
        forall|k: int|
            0 <= k < parts.len() ==> ((#[trigger] parts[k]).row.kind matches SourceKind::Diff {
                kind,
                ..
            } ==> kind != DiffSourceKind::Deleted),
    ensures
        kept(parts) == parts,
    decreases parts.len(),
{
    if parts.len() > 0 {
        let before = parts.drop_last();
        assert forall|k: int| 0 <= k < before.len() implies ((#[trigger] before[k]).row.kind matches SourceKind::Diff {
            kind,
            ..
        } ==> kind != DiffSourceKind::Deleted) by {
            assert(before[k] == parts[k]);
        }
        lemma_none_deleted(before);
        assert(parts[parts.len() - 1] == parts.last());
        assert(kept(parts) =~= parts);
    } else {
        assert(kept(parts) =~= parts);
    }
}

proof fn lemma_all_deleted(parts: Seq<PartView>)
    requires
        forall|k: int|
            0 <= k < parts.len() ==> ((#[trigger] parts[k]).row.kind matches SourceKind::Diff {
                kind,
                ..
            } && kind == DiffSourceKind::Deleted),
    ensures
        kept(parts).len() == 0,
    decreases parts.len(),
{
    if parts.len() > 0 {
        let before = parts.drop_last();
        assert forall|k: int| 0 <= k < before.len() implies ((#[trigger] before[k]).row.kind matches SourceKind::Diff {
            kind,
            ..
        } && kind == DiffSourceKind::Deleted) by {
            assert(before[k] == parts[k]);
        }
        lemma_all_deleted(before);
        assert(parts[parts.len() - 1] == parts.last());
    }
}

/// What a comment takes from a selection within a file, or within lines of a diff that are
/// still there: each row with its mark, split at line feeds, the number of the first and of
/// the last line, and the columns, counted in graphemes from 1.
pub proof fn law_export_tells_where_it_is(
    d: DocView,
    start: TextPoint,
    end: TextPoint,
    from: int,
    to: int,
    first: usize,
    last: usize,
)
    requires
        selects(d, start, end, from, to),
        forall|i: int|
            start.row <= i <= end.row ==> (#[trigger] d.sources[i]->0.kind matches SourceKind::Diff {
                kind,
                ..
            } ==> kind != DiffSourceKind::Deleted),
        match d.sources[start.row as int]->0.kind {
            SourceKind::File { line } => line == first,
            SourceKind::Diff { new_line, .. } => new_line == Some(first),
        },
        match d.sources[end.row as int]->0.kind {
            SourceKind::File { line } => line == last,
            SourceKind::Diff { new_line, .. } => new_line == Some(last),
        },
        clusters(d.sources[start.row as int]->0.raw.take(from)).len() < usize::MAX,
        clusters(d.sources[end.row as int]->0.raw.take(to)).len() < usize::MAX,
    ensures
        exported(d) matches Some(e) && e.start_line == first && e.end_line == last && !e.removed
            && e.range == (TextSelection { anchor: start, cursor: end }) && e.start_column
            == clusters(d.sources[start.row as int]->0.raw.take(from)).len() + 1 && (
        start.row < end.row && clusters(d.sources[end.row as int]->0.raw.take(to)).len() > 0
            ==> e.end_column == clusters(d.sources[end.row as int]->0.raw.take(to)).len())
            && e.end_column >= 1 && split(e.snippet, '\n') == Seq::new(
            (end.row - start.row + 1) as nat,
            |k: int|
                row_mark(d.sources[start.row + k]->0.kind) + row_part(
                    d,
                    start,
                    end,
                    from,
                    to,
                    start.row + k,
                ),
        ),
{
    law_selected_text_keeps_the_rows(d, start, end, from, to);
    lemma_parts(d, start, end, from, to, end.row + 1);
    let parts = parts_to(d.sources, start, end, end.row + 1)->0;
    lemma_export_text(d, start, end, from, to, parts);
    assert forall|k: int| 0 <= k < parts.len() implies ((#[trigger] parts[k]).row.kind matches SourceKind::Diff {
        kind,
        ..
    } ==> kind != DiffSourceKind::Deleted) by {
        assert(parts[k].row == d.sources[start.row + k]->0);
    }
    lemma_none_deleted(parts);
    let n = parts.len() as int;
    assert(parts[0].row == d.sources[start.row as int]->0);
    assert(parts[n - 1].row == d.sources[end.row as int]->0);
    lemma_column(parts[0].row.raw, from);
    lemma_column(parts[n - 1].row.raw, to);
}

proof fn lemma_column(raw: Seq<char>, k: int)
    requires
        0 <= k <= raw.len(),
    ensures
        column_of(raw, utf8_len(raw.take(k)) as int) == clusters(raw.take(k)).len(),
{
    lemma_len_of_take(raw, k, raw.len() as int);
    assert(raw.take(raw.len() as int) =~= raw);
    lemma_char_found(raw, k);
}

proof fn lemma_export_text(
    d: DocView,
    start: TextPoint,
    end: TextPoint,
    from: int,
    to: int,
    parts: Seq<PartView>,
)
    requires
        selects(d, start, end, from, to),
        parts.len() == end.row - start.row + 1,
        forall|k: int|
            0 <= k < parts.len() ==> (#[trigger] parts[k]).text == row_part(
                d,
                start,
                end,
                from,
                to,
                start.row + k,
            ) && parts[k].row == d.sources[start.row + k]->0,
    ensures
        split(marked_text(parts), '\n') == Seq::new(
            (end.row - start.row + 1) as nat,
            |k: int|
                row_mark(d.sources[start.row + k]->0.kind) + row_part(
                    d,
                    start,
                    end,
                    from,
                    to,
                    start.row + k,
                ),
        ),
{
    let want = Seq::new(
        (end.row - start.row + 1) as nat,
        |k: int|
            row_mark(d.sources[start.row + k]->0.kind) + row_part(
                d,
                start,
                end,
                from,
                to,
                start.row + k,
            ),
    );
    assert(parts.map_values(|p: PartView| crate::viewer::doc::marker(p.row.kind) + p.text) =~= want);
    assert forall|k: int| 0 <= k < want.len() implies !has_char(#[trigger] want[k], '\n') by {
        lemma_part_clean(d, start, end, from, to, start.row + k);
        if has_char(want[k], '\n') {
            let j = choose|j: int| 0 <= j < want[k].len() && want[k][j] == '\n';
            let mark = row_mark(d.sources[start.row + k]->0.kind);
            let part = row_part(d, start, end, from, to, start.row + k);
            assert(j >= mark.len());
            assert(part[j - mark.len()] == '\n');
        }
    }
    reveal_strlit("\n");
    assert("\n"@ =~= seq!['\n']);
    law_split_of_join(want, '\n');
}

/// A selection of deleted lines alone is known as removed, and found by the lines of the
/// old file.
pub proof fn law_deleted_lines_are_found_in_the_old_file(
    d: DocView,
    start: TextPoint,
    end: TextPoint,
    from: int,
    to: int,
    first: usize,
    last: usize,
)
    requires
        selects(d, start, end, from, to),
        forall|i: int|
            start.row <= i <= end.row ==> (#[trigger] d.sources[i]->0.kind matches SourceKind::Diff {
                kind,
                ..
            } && kind == DiffSourceKind::Deleted),
        d.sources[start.row as int]->0.kind matches SourceKind::Diff { old_line, .. } && old_line
            == Some(first),
        d.sources[end.row as int]->0.kind matches SourceKind::Diff { old_line, .. } && old_line
            == Some(last),
    ensures
        exported(d) matches Some(e) && e.removed && e.start_line == first && e.end_line == last,
{
    law_selected_text_keeps_the_rows(d, start, end, from, to);
    lemma_parts(d, start, end, from, to, end.row + 1);
    let parts = parts_to(d.sources, start, end, end.row + 1)->0;
    assert forall|k: int| 0 <= k < parts.len() implies ((#[trigger] parts[k]).row.kind matches SourceKind::Diff {
        kind,
        ..
    } && kind == DiffSourceKind::Deleted) by {
        assert(parts[k].row == d.sources[start.row + k]->0);
        assert(d.sources[start.row + k]->0.kind is Diff);
    }
    lemma_all_deleted(parts);
    let n = parts.len() as int;
    assert(parts[0].row == d.sources[start.row as int]->0);
    assert(parts[n - 1].row == d.sources[end.row as int]->0);
}

// ---- Comments ----

/// A comment names the path of its document, and the lines and columns of what is selected
/// with colons between them, and keeps the snippet as it is.
pub proof fn law_comments_name_their_place(
    request: RequestView,
    e: ExportView,
    cwd: Option<Seq<char>>,
    path: Seq<char>,
)
    requires
        shown_path(request, cwd) == Some(path),
    ensures
        pending_of(request, e, cwd) matches Some(p) && p.document == request && p.snippet
            == e.snippet && p.range == e.range && p.removed == e.removed && p.location == path
            + seq![':'] + digits(e.start_line as nat) + seq![':'] + digits(e.start_column as nat)
            + seq!['-'] + digits(e.end_line as nat) + seq![':'] + digits(e.end_column as nat),
{
    reveal_strlit(":");
    reveal_strlit("-");
    assert(":"@ =~= seq![':']);
    assert("-"@ =~= seq!['-']);
}

proof fn lemma_not_escaped(s: Seq<char>)
    requires
        !has_char(s, '`'),
    ensures
        escaped(s) == s,
    decreases s.len(),
{
    if s.len() > 0 {
        let t = s.drop_last();
        assert(s[s.len() - 1] != '`');
        if has_char(t, '`') {
            let i = choose|i: int| 0 <= i < t.len() && t[i] == '`';
            assert(s[i] == '`');
        }
        lemma_not_escaped(t);
    }
    assert(escaped(s) =~= s);
}

proof fn lemma_not_trimmed(s: Seq<char>)
    requires
        s.len() > 0 ==> !is_white(s[0]) && !is_white(s.last()),
    ensures
        trim(s, Class::White) == s,
{
    assert(trim_start(s, Class::White) =~= s);
    assert(trim(s, Class::White) =~= s);
}

proof fn lemma_longest(s: Seq<char>, n: int, i: int, k: int)
    requires
        0 <= i,
        0 <= k,
        i + k <= n <= s.len(),
        forall|j: int| i <= j < i + k ==> s[j] == '`',
    ensures
        longest_ticks(s, n) >= k,
    decreases n,
{
    if n > i + k {
        lemma_longest(s, n - 1, i, k);
    } else if n > 0 {
        lemma_ticks(s, i, k);
    }
}

proof fn lemma_ticks(s: Seq<char>, i: int, k: int)
    requires
        0 <= i,
        0 <= k,
        i + k <= s.len(),
        forall|j: int| i <= j < i + k ==> s[j] == '`',
    ensures
        ticks_at(s, i + k) >= k,
    decreases k,
{
    if k > 0 {
        lemma_ticks(s, i, k - 1);
        assert(s[i + k - 1] == '`');
    }
}

/// Whether a text is made of three or more backticks, and longer than any run of them in a
/// snippet.
pub open spec fn fences(f: Seq<char>, snippet: Seq<char>) -> bool {
    &&& f.len() >= 3
    &&& forall|i: int| 0 <= i < f.len() ==> f[i] == '`'
    &&& forall|i: int|
        0 <= i <= snippet.len() - f.len() ==> #[trigger] snippet.subrange(i, i + f.len()) != f
}

/// A comment as text: a heading with its place, which says where the text is gone, the snippet
/// between two equal fences on lines of their own, and what the comment says.
pub proof fn law_comment_text_holds_its_parts(c: SavedView)
    requires
        !has_char(c.pending.location, '`'),
        c.body.len() > 0 ==> !is_white(c.body[0]) && !is_white(c.body.last()),
        c.pending.snippet.len() > 0 ==> c.pending.snippet.last() != '\n',
    ensures
        exists|f: Seq<char>| #[trigger]
            fences(f, c.pending.snippet) && formatted(seq![c]) == "## `"@ + c.pending.location + "`"@
                + (if c.pending.removed {
                " (removed)"@
            } else {
                ""@
            }) + "\n\n"@ + f + "\n"@ + c.pending.snippet + "\n"@ + f + "\n\n"@ + c.body,
{
    let f = fence_of(c.pending.snippet);
    let s = c.pending.snippet;
    lemma_not_escaped(c.pending.location);
    lemma_not_trimmed(c.body);
    reveal_strlit("");
    assert(""@ =~= Seq::<char>::empty());
    assert forall|i: int| 0 <= i <= s.len() - f.len() implies #[trigger] s.subrange(i, i + f.len())
        != f by {
        if s.subrange(i, i + f.len()) == f {
            assert forall|j: int| i <= j < i + f.len() implies s[j] == '`' by {
                assert(s.subrange(i, i + f.len())[j - i] == f[j - i]);
            }
            lemma_longest(s, s.len() as int, i, f.len() as int);
        }
    }
    let list = seq![c].map_values(|c: SavedView| comment_block(c));
    assert(list =~= seq![comment_block(c)]);
    assert(formatted(seq![c]) == comment_block(c));
    assert(fences(f, s));
    let gone = if c.pending.removed {
        " (removed)"@
    } else {
        ""@
    };
    assert(comment_block(c) =~= "## `"@ + c.pending.location + "`"@ + gone + "\n\n"@ + f + "\n"@ + s
        + "\n"@ + f + "\n\n"@ + c.body);
}

/// The text of several comments is that of the first and that of the others, with a blank
/// line between.
pub proof fn law_comment_texts_follow_each_other(c: SavedView, more: Seq<SavedView>)
    requires
        more.len() > 0,
    ensures
        formatted(seq![c] + more) == formatted(seq![c]) + "\n\n"@ + formatted(more),
{
    let f = |c: SavedView| comment_block(c);
    let all = (seq![c] + more).map_values(f);
    assert(seq![c].map_values(f) =~= seq![comment_block(c)]);
    assert(all.subrange(1, all.len() as int) =~= more.map_values(f));
}

} // verus!
