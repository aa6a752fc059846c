//! What the events of a diff say of its text.

use vstd::prelude::*;

use crate::cells::width_of;
use crate::diffview::{
    adds_from, adds_to, changed_middle, clamped, cut_span, dels_from, dels_to, diff_events,
    diff_run, ev_number, far_end, first_changed, fold_at, gutter, gutter_width, is_header,
    last_start, line_step, near_change, new_index, new_lines, old_index, old_lines, shared_back,
    shared_front, signed_start, span_chars, tinted, unit_fold, unit_line, unit_source, units,
    word_range, ADD_MARK, DEL_MARK, FOLD_MARGIN, DiffParts, DiffSourceKind, EvView, Place, Unit,
};
use crate::laws::text::{
    law_lines_are_read_back, lemma_next_word, lemma_words_within, one_line, unlines,
};
use crate::scan::{digits, is_digit, is_white, law_digits_read_back, words, words_from};
use crate::style::{Color, SpanView, Style};
use crate::syntax::{column_after, spaces, tabbed, tabs_expanded};
use crate::text::{
    after, has_char, has_prefix, has_suffix, lemma_find_char_unique, lemma_split_head,
    lemma_split_whole, split,
};

verus! {

/// The line that begins a hunk: at which lines it begins, what stands behind each of these
/// numbers, and a heading.
pub open spec fn hunk_header(
    old: nat,
    old_count: Seq<char>,
    new: nat,
    new_count: Seq<char>,
    heading: Seq<char>,
) -> Seq<char> {
    "@@ -"@ + digits(old) + old_count + " +"@ + digits(new) + new_count + " @@"@ + heading
}

/// What may stand behind the number of a hunk's first line: nothing, or a comma and how
/// many lines there are.
pub open spec fn count_text(s: Seq<char>) -> bool {
    (s.len() > 0 ==> s[0] == ',') && forall|i: int| 0 <= i < s.len() ==> !is_white(#[trigger] s[i])
}

/// Whether a heading begins with white space and holds no sign.
pub open spec fn heading_text(s: Seq<char>) -> bool {
    (s.len() > 0 ==> is_white(s[0])) && forall|i: int|
        0 <= i < s.len() ==> #[trigger] s[i] != '-' && s[i] != '+'
}

/// Whether a line stands in a hunk: added, deleted or unchanged.
pub open spec fn hunk_line(line: Seq<char>) -> bool {
    line.len() == 0 || line[0] == '+' || line[0] == '-' || line[0] == ' '
}

/// How many of the first `k` lines are lines of the old file.
pub open spec fn old_lines_before(body: Seq<Seq<char>>, k: int) -> nat
    decreases k,
{
    if k <= 0 {
        0
    } else if body[k - 1].len() > 0 && body[k - 1][0] == '+' {
        old_lines_before(body, k - 1)
    } else {
        old_lines_before(body, k - 1) + 1
    }
}

/// How many of the first `k` lines are lines of the new file.
pub open spec fn new_lines_before(body: Seq<Seq<char>>, k: int) -> nat
    decreases k,
{
    if k <= 0 {
        0
    } else if body[k - 1].len() > 0 && body[k - 1][0] == '-' {
        new_lines_before(body, k - 1)
    } else {
        new_lines_before(body, k - 1) + 1
    }
}

pub proof fn lemma_sides_bounded(body: Seq<Seq<char>>, k: int)
    requires
        0 <= k <= body.len(),
    ensures
        old_lines_before(body, k) <= k,
        new_lines_before(body, k) <= k,
    decreases k,
{
    if k > 0 {
        lemma_sides_bounded(body, k - 1);
    }
}

proof fn lemma_prefix_first(line: Seq<char>, p: Seq<char>)
    requires
        has_prefix(line, p),
        p.len() > 0,
    ensures
        line.len() > 0 && line[0] == p[0],
{
    assert(line.subrange(0, p.len() as int)[0] == p[0]);
}

/// With which characters the lines that show nothing begin.
proof fn lemma_header_first(line: Seq<char>, in_hunk: bool)
    requires
        is_header(line, in_hunk),
    ensures
        line.len() > 0,
        line[0] == 'd' || line[0] == 'i' || line[0] == 'o' || line[0] == 'n' || line[0] == 's'
            || line[0] == 'r' || line[0] == 'c' || line[0] == '\\' || (!in_hunk && (line[0] == '-'
            || line[0] == '+')),
{
    reveal_strlit("--- ");
    reveal_strlit("+++ ");
    reveal_strlit("diff --git");
    reveal_strlit("index ");
    reveal_strlit("old mode");
    reveal_strlit("new mode");
    reveal_strlit("similarity");
    reveal_strlit("rename ");
    reveal_strlit("copy ");
    reveal_strlit("new file mode");
    reveal_strlit("deleted file mode");
    if !in_hunk && has_prefix(line, "--- "@) {
        lemma_prefix_first(line, "--- "@);
    } else if !in_hunk && has_prefix(line, "+++ "@) {
        lemma_prefix_first(line, "+++ "@);
    } else if has_prefix(line, "diff --git"@) {
        lemma_prefix_first(line, "diff --git"@);
    } else if has_prefix(line, "index "@) {
        lemma_prefix_first(line, "index "@);
    } else if has_prefix(line, "old mode"@) {
        lemma_prefix_first(line, "old mode"@);
    } else if has_prefix(line, "new mode"@) {
        lemma_prefix_first(line, "new mode"@);
    } else if has_prefix(line, "similarity"@) {
        lemma_prefix_first(line, "similarity"@);
    } else if has_prefix(line, "rename "@) {
        lemma_prefix_first(line, "rename "@);
    } else if has_prefix(line, "copy "@) {
        lemma_prefix_first(line, "copy "@);
    } else if has_prefix(line, "new file mode"@) {
        lemma_prefix_first(line, "new file mode"@);
    } else if has_prefix(line, "deleted file mode"@) {
        lemma_prefix_first(line, "deleted file mode"@);
    }
}

proof fn lemma_digits_clean(n: nat)
    ensures
        digits(n).len() >= 1,
        forall|i: int|
            0 <= i < digits(n).len() ==> !is_white(#[trigger] digits(n)[i]) && digits(n)[i] != ','
                && digits(n)[i] != '+',
{
    law_digits_read_back(n);
    assert forall|i: int| 0 <= i < digits(n).len() implies !is_white(#[trigger] digits(n)[i])
        && digits(n)[i] != ',' && digits(n)[i] != '+' by {
        assert(is_digit(digits(n)[i]));
    }
}

proof fn lemma_signed(sign: char, n: nat, count: Seq<char>)
    requires
        count_text(count),
        n <= usize::MAX,
    ensures
        signed_start(seq![sign] + digits(n) + count, sign) == Some(n as usize),
{
    let word = seq![sign] + digits(n) + count;
    let rest = after(word, 1);
    law_digits_read_back(n);
    lemma_digits_clean(n);
    assert(rest =~= digits(n) + count);
    let at = digits(n).len() as int;
    assert forall|k: int| 0 <= k < at implies rest[k] != ',' by {
        assert(rest[k] == digits(n)[k]);
    }
    lemma_find_char_unique(rest, ',', 0, at);
    assert(rest.take(at) =~= digits(n));
    assert(digits(n)[0] != '+');
}

/// Words without the sign give no number.
proof fn lemma_no_sign(list: Seq<Seq<char>>, more: Seq<Seq<char>>, sign: char)
    requires
        forall|k: int| 0 <= k < more.len() ==> signed_start(#[trigger] more[k], sign) is None,
    ensures
        last_start(list + more, sign) == last_start(list, sign),
    decreases more.len(),
{
    if more.len() == 0 {
        assert(list + more =~= list);
    } else {
        assert((list + more).last() == more[more.len() - 1]);
        assert((list + more).drop_last() =~= list + more.drop_last());
        lemma_no_sign(list, more.drop_last(), sign);
    }
}

/// At which lines a hunk's header says that it begins.
proof fn lemma_header_numbers(
    old: nat,
    old_count: Seq<char>,
    new: nat,
    new_count: Seq<char>,
    heading: Seq<char>,
)
    requires
        count_text(old_count),
        count_text(new_count),
        heading_text(heading),
        old <= usize::MAX,
        new <= usize::MAX,
    ensures
        ({
            let s = hunk_header(old, old_count, new, new_count, heading);
            &&& has_prefix(s, "@@"@)
            &&& s[0] == '@'
            &&& last_start(words(s), '-') == Some(old as usize)
            &&& last_start(words(s), '+') == Some(new as usize)
        }),
{
    let s = hunk_header(old, old_count, new, new_count, heading);
    reveal_strlit("@@ -");
    reveal_strlit(" +");
    reveal_strlit(" @@");
    reveal_strlit("@@");
    lemma_digits_clean(old);
    lemma_digits_clean(new);
    let a = seq!['-'] + digits(old) + old_count;
    let b = seq!['+'] + digits(new) + new_count;
    let p = 3 + a.len() as int;
    let q = p + 1 + b.len() as int;
    assert(s.subrange(0, 2) =~= "@@"@);
    assert(s.subrange(3, p) =~= a);
    assert(s.subrange(p + 1, q) =~= b);
    assert(s.subrange(q + 1, q + 3) =~= "@@"@);
    assert(s[2] == ' ' && s[p] == ' ' && s[q] == ' ');
    assert forall|k: int| 0 <= k < 2 implies !is_white(#[trigger] s[k]) by {
        assert(s.subrange(0, 2)[k] == s[k]);
    }
    assert forall|k: int| 3 <= k < p implies !is_white(#[trigger] s[k]) by {
        assert(s.subrange(3, p)[k - 3] == a[k - 3]);
    }
    assert forall|k: int| p + 1 <= k < q implies !is_white(#[trigger] s[k]) by {
        assert(s.subrange(p + 1, q)[k - p - 1] == b[k - p - 1]);
    }
    assert forall|k: int| q + 1 <= k < q + 3 implies !is_white(#[trigger] s[k]) by {
        assert(s.subrange(q + 1, q + 3)[k - q - 1] == s[k]);
    }
    assert(s.len() == q + 3 + heading.len());
    if heading.len() > 0 {
        assert(s[q + 3] == heading[0]);
    }
    lemma_next_word(s, 0, 0, 2);
    lemma_next_word(s, 2, 3, p);
    lemma_next_word(s, p, p + 1, q);
    lemma_next_word(s, q, q + 1, q + 3);
    let more = words_from(s, q + 3);
    let list = seq!["@@"@, a, b, "@@"@];
    assert(words(s) =~= list + more);
    assert forall|k: int| 0 <= k < more.len() implies signed_start(#[trigger] more[k], '-') is None
        && signed_start(more[k], '+') is None by {
        lemma_words_within(s, q + 3, k);
        let (x, y) = choose|x: int, y: int|
            q + 3 <= x < y <= s.len() && more[k] == #[trigger] s.subrange(x, y);
        assert(more[k][0] == s[x]);
        assert(s[x] == heading[x - q - 3]);
    }
    lemma_no_sign(list, more, '-');
    lemma_no_sign(list, more, '+');
    lemma_signed('-', old, old_count);
    lemma_signed('+', new, new_count);
    assert(list.drop_last() =~= seq!["@@"@, a, b]);
    assert(list.drop_last().drop_last() =~= seq!["@@"@, a]);
    assert(last_start(list, '+') == last_start(seq!["@@"@, a, b], '+'));
    assert(last_start(list, '-') == last_start(seq!["@@"@, a, b], '-'));
    assert(last_start(seq!["@@"@, a, b], '-') == last_start(seq!["@@"@, a], '-'));
}

/// Where a diff stands behind some of its lines and a hunk's header.
proof fn lemma_hunk_begins(
    head: Seq<Seq<char>>,
    old: nat,
    old_count: Seq<char>,
    new: nat,
    new_count: Seq<char>,
    heading: Seq<char>,
)
    requires
        count_text(old_count),
        count_text(new_count),
        heading_text(heading),
        old <= usize::MAX,
        new <= usize::MAX,
    ensures
        ({
            let h = hunk_header(old, old_count, new, new_count, heading);
            let (at, evs) = diff_run(head.push(h));
            let before = diff_run(head);
            &&& at == (Place {
                old_no: old as usize,
                new_no: new as usize,
                seen_hunk: true,
                in_hunk: true,
            })
            &&& line_step(before.0, h).0 == at
            &&& evs == before.1 || exists|n: usize| evs == before.1.push(EvView::Omitted(n))
            &&& match line_step(before.0, h).1 {
                Some(e) => evs == before.1.push(e),
                None => evs == before.1,
            }
        }),
{
    let h = hunk_header(old, old_count, new, new_count, heading);
    lemma_header_numbers(old, old_count, new, new_count, heading);
    let before = diff_run(head);
    assert(head.push(h).drop_last() =~= head);
    reveal_strlit("diff --git");
    if has_prefix(h, "diff --git"@) {
        lemma_prefix_first(h, "diff --git"@);
    }
    if is_header(h, before.0.in_hunk) {
        lemma_header_first(h, before.0.in_hunk);
    }
}

/// The event of a line of a hunk: what kind of line it is, the number that it has in each
/// file that holds it, and its text without the sign.
pub open spec fn hunk_event(line: Seq<char>, old: nat, new: nat) -> EvView {
    if line.len() == 0 {
        EvView::Ctx(old as usize, new as usize, Seq::empty())
    } else if line[0] == '+' {
        EvView::Add(new as usize, line.skip(1))
    } else if line[0] == '-' {
        EvView::Del(old as usize, line.skip(1))
    } else {
        EvView::Ctx(old as usize, new as usize, line.skip(1))
    }
}

proof fn lemma_hunk_runs(
    start: Seq<Seq<char>>,
    body: Seq<Seq<char>>,
    old: nat,
    new: nat,
    k: int,
)
    requires
        0 <= k <= body.len(),
        forall|i: int| 0 <= i < body.len() ==> hunk_line(#[trigger] body[i]),
        diff_run(start).0 == (Place {
            old_no: old as usize,
            new_no: new as usize,
            seen_hunk: true,
            in_hunk: true,
        }),
        old + body.len() <= usize::MAX,
        new + body.len() <= usize::MAX,
    ensures
        ({
            let (at, evs) = diff_run(start + body.take(k));
            &&& at == (Place {
                old_no: (old + old_lines_before(body, k)) as usize,
                new_no: (new + new_lines_before(body, k)) as usize,
                seen_hunk: true,
                in_hunk: true,
            })
            &&& evs == diff_run(start).1 + Seq::new(
                k as nat,
                |i: int|
                    hunk_event(
                        body[i],
                        old + old_lines_before(body, i),
                        new + new_lines_before(body, i),
                    ),
            )
        }),
    decreases k,
{
    let made = |i: int|
        hunk_event(body[i], old + old_lines_before(body, i), new + new_lines_before(body, i));
    if k == 0 {
        assert(start + body.take(0) =~= start);
        assert(diff_run(start).1 + Seq::new(0, made) =~= diff_run(start).1);
    } else {
        lemma_hunk_runs(start, body, old, new, k - 1);
        lemma_sides_bounded(body, k - 1);
        lemma_sides_bounded(body, k);
        let parts = start + body.take(k);
        let line = body[k - 1];
        assert(hunk_line(line));
        assert(parts.drop_last() =~= start + body.take(k - 1));
        assert(parts.last() == line);
        reveal_strlit("diff --git");
        reveal_strlit("@@");
        if has_prefix(line, "diff --git"@) {
            lemma_prefix_first(line, "diff --git"@);
        }
        if has_prefix(line, "@@"@) {
            lemma_prefix_first(line, "@@"@);
        }
        if is_header(line, true) {
            lemma_header_first(line, true);
        }
        let (before, evs) = diff_run(parts.drop_last());
        let (next, ev) = line_step(before, line);
        if line.len() > 0 {
            assert(after(line, 1) =~= line.skip(1));
        }
        assert(ev == Some(made(k - 1)));
        assert(Seq::new(k as nat, made) =~= Seq::new((k - 1) as nat, made).push(made(k - 1)));
        assert(diff_run(start).1 + Seq::new(k as nat, made) =~= (diff_run(start).1 + Seq::new(
            (k - 1) as nat,
            made,
        )).push(made(k - 1)));
    }
}

/// The lines of a hunk are numbered from the lines on at which its header says that it
/// begins: each line of the new file has the number of the first one and as many more as
/// lines of the new file stand before it, and so for the old file. Each line of the hunk has
/// one event, of its kind and with its text; before them stand the events of what comes
/// before the hunk and at most one for lines that are left out.
pub proof fn law_hunk_lines_are_numbered(
    head: Seq<Seq<char>>,
    old: nat,
    old_count: Seq<char>,
    new: nat,
    new_count: Seq<char>,
    heading: Seq<char>,
    body: Seq<Seq<char>>,
)
    requires
        count_text(old_count),
        count_text(new_count),
        heading_text(heading),
        one_line(hunk_header(old, old_count, new, new_count, heading)),
        forall|i: int| 0 <= i < head.len() ==> one_line(#[trigger] head[i]),
        forall|i: int| 0 <= i < body.len() ==> one_line(#[trigger] body[i]) && hunk_line(body[i]),
        old + body.len() <= usize::MAX,
        new + body.len() <= usize::MAX,
    ensures
        ({
            let h = hunk_header(old, old_count, new, new_count, heading);
            let evs = diff_events(unlines(head.push(h) + body));
            let before = diff_events(unlines(head));
            let first = evs.len() - body.len();
            &&& before.len() <= first <= before.len() + 1
            &&& evs.take(before.len() as int) == before
            &&& first > before.len() ==> evs[before.len() as int] is Omitted
            &&& forall|k: int|
                0 <= k < body.len() ==> #[trigger] evs[first + k] == (if body[k].len() > 0
                    && body[k][0] == '+' {
                    EvView::Add((new + new_lines_before(body, k)) as usize, body[k].skip(1))
                } else if body[k].len() > 0 && body[k][0] == '-' {
                    EvView::Del((old + old_lines_before(body, k)) as usize, body[k].skip(1))
                } else {
                    EvView::Ctx(
                        (old + old_lines_before(body, k)) as usize,
                        (new + new_lines_before(body, k)) as usize,
                        if body[k].len() > 0 {
                            body[k].skip(1)
                        } else {
                            Seq::empty()
                        },
                    )
                })
        }),
{
    let h = hunk_header(old, old_count, new, new_count, heading);
    let all = head.push(h) + body;
    assert forall|i: int| 0 <= i < all.len() implies one_line(#[trigger] all[i]) by {
        if i < head.len() {
            assert(all[i] == head[i]);
        } else if i > head.len() {
            assert(all[i] == body[i - head.len() - 1]);
        }
    }
    law_lines_are_read_back(all);
    law_lines_are_read_back(head);
    lemma_hunk_begins(head, old, old_count, new, new_count, heading);
    lemma_hunk_runs(head.push(h), body, old, new, body.len() as int);
    assert(body.take(body.len() as int) =~= body);
    let evs = diff_events(unlines(all));
    let before = diff_events(unlines(head));
    let start = diff_run(head.push(h)).1;
    assert(start.len() == evs.len() - body.len());
    assert(evs.take(before.len() as int) =~= before);
}

/// Between two hunks of a file the lines that neither holds are counted: where the second
/// begins as many lines after the end of the first in both files, one event says so, and
/// there is none where it begins right there.
pub proof fn law_left_out_lines_are_counted(
    head: Seq<Seq<char>>,
    old: nat,
    new: nat,
    counts: (Seq<char>, Seq<char>),
    body: Seq<Seq<char>>,
    gap: nat,
    next_counts: (Seq<char>, Seq<char>),
    heading: Seq<char>,
)
    requires
        count_text(counts.0),
        count_text(counts.1),
        count_text(next_counts.0),
        count_text(next_counts.1),
        heading_text(heading),
        forall|i: int| 0 <= i < body.len() ==> hunk_line(#[trigger] body[i]),
        old + body.len() + gap <= usize::MAX,
        new + body.len() + gap <= usize::MAX,
    ensures
        ({
            let h = hunk_header(old, counts.0, new, counts.1, Seq::empty());
            let start = head.push(h) + body;
            let next = hunk_header(
                old + old_lines_before(body, body.len() as int) + gap,
                next_counts.0,
                new + new_lines_before(body, body.len() as int) + gap,
                next_counts.1,
                heading,
            );
            diff_run(start.push(next)).1 == (if gap == 0 {
                diff_run(start).1
            } else {
                diff_run(start).1.push(EvView::Omitted(gap as usize))
            })
        }),
{
    let none = Seq::<char>::empty();
    let h = hunk_header(old, counts.0, new, counts.1, none);
    let start = head.push(h) + body;
    let n = body.len() as int;
    lemma_sides_bounded(body, n);
    lemma_hunk_begins(head, old, counts.0, new, counts.1, none);
    lemma_hunk_runs(head.push(h), body, old, new, n);
    assert(body.take(n) =~= body);
    let o2 = old + old_lines_before(body, n) + gap;
    let n2 = new + new_lines_before(body, n) + gap;
    lemma_hunk_begins(start, o2, next_counts.0, n2, next_counts.1, heading);
    lemma_header_numbers(o2, next_counts.0, n2, next_counts.1, heading);
    let next = hunk_header(o2, next_counts.0, n2, next_counts.1, heading);
    reveal_strlit("diff --git");
    if has_prefix(next, "diff --git"@) {
        lemma_prefix_first(next, "diff --git"@);
    }
    if is_header(next, true) {
        lemma_header_first(next, true);
    }
}

/// Whether a line stands in the header of a file: none of these is shown.
pub open spec fn file_line(line: Seq<char>) -> bool {
    ||| has_prefix(line, "--- "@)
    ||| has_prefix(line, "+++ "@)
    ||| has_prefix(line, "index "@)
    ||| has_prefix(line, "old mode"@)
    ||| has_prefix(line, "new mode"@)
    ||| has_prefix(line, "similarity"@)
    ||| has_prefix(line, "rename "@)
    ||| has_prefix(line, "copy "@)
    ||| has_prefix(line, "new file mode"@)
    ||| has_prefix(line, "deleted file mode"@)
}

proof fn lemma_file_header(head: Seq<Seq<char>>, line: Seq<char>, more: Seq<Seq<char>>, k: int)
    requires
        0 <= k <= more.len(),
        has_prefix(line, "diff --git"@),
        forall|i: int| 0 <= i < more.len() ==> file_line(#[trigger] more[i]),
    ensures
        ({
            let (at, evs) = diff_run(head.push(line) + more.take(k));
            !at.seen_hunk && !at.in_hunk && evs == diff_run(head).1
        }),
    decreases k,
{
    let parts = head.push(line) + more.take(k);
    if k == 0 {
        assert(parts =~= head.push(line));
        assert(parts.drop_last() =~= head);
    } else {
        lemma_file_header(head, line, more, k - 1);
        assert(parts.drop_last() =~= head.push(line) + more.take(k - 1));
        assert(parts.last() == more[k - 1]);
        assert(file_line(more[k - 1]));
    }
}

/// The first hunk of a file begins after as many lines that are left out as come before it
/// in both files, and the header of the file shows nothing.
pub proof fn law_first_hunk_counts_from_the_top(
    head: Seq<Seq<char>>,
    line: Seq<char>,
    more: Seq<Seq<char>>,
    old: nat,
    new: nat,
    counts: (Seq<char>, Seq<char>),
    heading: Seq<char>,
)
    requires
        has_prefix(line, "diff --git"@),
        forall|i: int| 0 <= i < more.len() ==> file_line(#[trigger] more[i]),
        count_text(counts.0),
        count_text(counts.1),
        heading_text(heading),
        old <= usize::MAX,
        new <= usize::MAX,
    ensures
        ({
            let h = hunk_header(old, counts.0, new, counts.1, heading);
            let least = if old <= new {
                old
            } else {
                new
            };
            diff_run((head.push(line) + more).push(h)).1 == (if least <= 1 {
                diff_run(head).1
            } else {
                diff_run(head).1.push(EvView::Omitted((least - 1) as usize))
            })
        }),
{
    let start = head.push(line) + more;
    let n = more.len() as int;
    lemma_file_header(head, line, more, n);
    assert(more.take(n) =~= more);
    lemma_hunk_begins(start, old, counts.0, new, counts.1, heading);
    lemma_header_numbers(old, counts.0, new, counts.1, heading);
    let h = hunk_header(old, counts.0, new, counts.1, heading);
    reveal_strlit("diff --git");
    if has_prefix(h, "diff --git"@) {
        lemma_prefix_first(h, "diff --git"@);
    }
    if is_header(h, false) {
        lemma_header_first(h, false);
    }
}

/// A line that is none of a file's header, no hunk's header and none of a hunk is shown as
/// it is, and the note that a file ends without a line feed is not shown.
pub proof fn law_other_lines_are_kept(head: Seq<Seq<char>>, line: Seq<char>)
    requires
        line.len() > 0,
        line[0] == '\\' || ('A' <= line[0] && line[0] <= 'Z'),
    ensures
        diff_run(head.push(line)).1 == (if line[0] == '\\' {
            diff_run(head).1
        } else {
            diff_run(head).1.push(EvView::Plain(line))
        }),
        diff_run(head.push(line)).0 == diff_run(head).0,
{
    assert(head.push(line).drop_last() =~= head);
    reveal_strlit("diff --git");
    reveal_strlit("@@");
    if has_prefix(line, "diff --git"@) {
        lemma_prefix_first(line, "diff --git"@);
    }
    if has_prefix(line, "@@"@) {
        lemma_prefix_first(line, "@@"@);
    }
    if is_header(line, diff_run(head).0.in_hunk) {
        lemma_header_first(line, diff_run(head).0.in_hunk);
    }
}

// ---- Folds ----

/// Whether every event within three of this one is an unchanged line.
pub open spec fn far(evs: Seq<EvView>, k: int) -> bool {
    forall|j: int| 0 <= j < evs.len() && k - 3 <= j <= k + 3 ==> (#[trigger] evs[j]) is Ctx
}

proof fn lemma_far(evs: Seq<EvView>, k: int)
    ensures
        far(evs, k) == !near_change(evs, k),
{
    if far(evs, k) && near_change(evs, k) {
        let j = choose|j: int|
            0 <= j < evs.len() && k - FOLD_MARGIN <= j <= k + FOLD_MARGIN && !((#[trigger] evs[j]) is Ctx);
        assert(evs[j] is Ctx);
    }
}

/// What a row stands for: a fold for two or more unchanged lines that are more than three
/// lines from every change, as many in a row as there are; and any other row for one event.
/// Where folds show and none is expanded, a line that is that far from every change has a
/// row of its own only where its neighbours are not. The row of a fold says how many lines
/// it stands for.
pub proof fn law_folds_keep_three_lines(d: DiffParts, i: int, row: int)
    requires
        0 <= i <= d.evs.len() <= usize::MAX,
        0 <= row < units(d, i).len(),
        i == 0 || !far(d.evs, i - 1) || !far(d.evs, i) || !d.hide || d.expanded.len() > 0,
    ensures
        match units(d, i)[row] {
            Unit::Fold(f) => {
                &&& d.hide
                &&& 0 <= f.start && f.start + 2 <= f.end <= d.evs.len()
                &&& forall|k: int| f.start <= k < f.end ==> far(d.evs, k)
                &&& f.end < d.evs.len() ==> !far(d.evs, f.end as int)
                &&& f.start > 0 ==> !far(d.evs, f.start - 1)
                &&& d.evs[f.start as int] matches EvView::Ctx(o, n, _) && f.id.old_no == o
                    && f.id.new_no == n
                &&& !d.expanded.contains(f.id)
                &&& unit_line(d, Unit::Fold(f)).spans.len() == 1
                &&& has_suffix(
                    unit_line(d, Unit::Fold(f)).spans[0].text,
                    "⋯  "@ + digits((f.end - f.start) as nat) + " unmodified lines"@,
                )
            },
            Unit::Event(k) => {
                &&& i <= k < d.evs.len()
                &&& d.hide && d.expanded.len() == 0 && far(d.evs, k) ==> (k == 0 || !far(
                    d.evs,
                    k - 1,
                )) && (k + 1 == d.evs.len() || !far(d.evs, k + 1))
            },
        },
    decreases d.evs.len() - i,
{
    let us = units(d, i);
    lemma_far_bounds(d.evs, i);
    lemma_far(d.evs, i);
    lemma_far(d.evs, i - 1);
    lemma_far(d.evs, i + 1);
    let (u, next) = match fold_at(d.evs, i) {
        Some(f) if d.hide && !d.expanded.contains(f.id) => (Unit::Fold(f), far_end(d.evs, i)),
        _ => (Unit::Event(i), i + 1),
    };
    assert(us == seq![u] + units(d, next));
    if row > 0 {
        assert(us[row] == units(d, next)[row - 1]);
        lemma_far(d.evs, next);
        lemma_far(d.evs, next - 1);
        if u is Event && d.hide && d.expanded.len() == 0 && far(d.evs, i) && next < d.evs.len()
            && far(d.evs, next) {
            assert(far_end(d.evs, i) > i + 1) by {
                assert(far_end(d.evs, i) == far_end(d.evs, i + 1));
                lemma_far_bounds(d.evs, i + 1);
                assert(far_end(d.evs, i + 1) == far_end(d.evs, i + 2));
                if i + 2 <= d.evs.len() {
                    lemma_far_bounds(d.evs, i + 2);
                }
            }
            assert(false);
        }
        law_folds_keep_three_lines(d, next, row - 1);
    } else {
        assert(us[0] == u);
        match u {
            Unit::Fold(f) => {
                assert forall|k: int| f.start <= k < f.end implies far(d.evs, k) by {
                    lemma_far(d.evs, k);
                }
                lemma_far(d.evs, f.end as int);
                let line = unit_line(d, u);
                let text = line.spans[0].text;
                let end = "⋯  "@ + digits((f.end - f.start) as nat) + " unmodified lines"@;
                assert(text.subrange(text.len() - end.len(), text.len() as int) =~= end);
            },
            Unit::Event(k) => {
                if d.hide && d.expanded.len() == 0 && far(d.evs, i) {
                    if i + 1 < d.evs.len() && far(d.evs, i + 1) {
                        assert(far_end(d.evs, i) == far_end(d.evs, i + 1));
                        lemma_far_bounds(d.evs, i + 1);
                        assert(far_end(d.evs, i + 1) == far_end(d.evs, i + 2));
                        lemma_far_bounds(d.evs, i + 2);
                        assert(fold_at(d.evs, i) is Some);
                        assert(false);
                    }
                }
            },
        }
    }
}

proof fn lemma_far_bounds(evs: Seq<EvView>, i: int)
    requires
        0 <= i <= evs.len(),
    ensures
        i <= far_end(evs, i) <= evs.len(),
        forall|k: int| i <= k < far_end(evs, i) ==> !near_change(evs, k),
        far_end(evs, i) < evs.len() ==> near_change(evs, far_end(evs, i)),
    decreases evs.len() - i,
{
    if i < evs.len() && !near_change(evs, i) {
        lemma_far_bounds(evs, i + 1);
    }
}

// ---- Changed words ----

proof fn lemma_front(a: Seq<char>, b: Seq<char>)
    ensures
        shared_front(a, b) <= a.len(),
        shared_front(a, b) <= b.len(),
        shared_front(a, b) == shared_front(b, a),
        a.take(shared_front(a, b) as int) == b.take(shared_front(a, b) as int),
        shared_front(a, b) < a.len() && shared_front(a, b) < b.len()
            ==> a[shared_front(a, b) as int] != b[shared_front(a, b) as int],
    decreases a.len(),
{
    let n = shared_front(a, b) as int;
    if a.len() > 0 && b.len() > 0 && a[0] == b[0] {
        let x = after(a, 1);
        let y = after(b, 1);
        lemma_front(x, y);
        assert(a.take(n) =~= seq![a[0]] + x.take(n - 1));
        assert(b.take(n) =~= seq![b[0]] + y.take(n - 1));
    } else {
        assert(a.take(0) =~= b.take(0));
    }
}

proof fn lemma_back(a: Seq<char>, b: Seq<char>)
    ensures
        shared_back(a, b) <= a.len(),
        shared_back(a, b) <= b.len(),
        shared_back(a, b) == shared_back(b, a),
        a.skip(a.len() - shared_back(a, b)) == b.skip(b.len() - shared_back(a, b)),
        shared_back(a, b) < a.len() && shared_back(a, b) < b.len() ==> a[a.len() - 1 - shared_back(
            a,
            b,
        )] != b[b.len() - 1 - shared_back(a, b)],
    decreases a.len(),
{
    let n = shared_back(a, b) as int;
    if a.len() > 0 && b.len() > 0 && a.last() == b.last() {
        let x = a.drop_last();
        let y = b.drop_last();
        lemma_back(x, y);
        assert(a.skip(a.len() - n) =~= x.skip(x.len() - (n - 1)).push(a.last()));
        assert(b.skip(b.len() - n) =~= y.skip(y.len() - (n - 1)).push(b.last()));
    } else {
        assert(a.skip(a.len() as int) =~= b.skip(b.len() as int));
    }
}

/// Whether, of two changed lines, exactly the characters from `p` to `q` of the one and from
/// `p` to `r` of the other differ: what is before and behind is the same in both, and no more
/// of them is.
pub open spec fn middle(a: Seq<char>, b: Seq<char>, p: int, q: int, r: int) -> bool {
    &&& 0 <= p <= q <= a.len()
    &&& p <= r <= b.len()
    &&& a.take(p) == b.take(p)
    &&& a.skip(q) == b.skip(r)
    &&& p < a.len() && p < b.len() ==> a[p] != b[p]
    &&& q > p && r > p ==> a[q - 1] != b[r - 1]
}

/// The differing part of a changed line is what is left between what it shares with the
/// other at its start and at its end; there is none where it shares neither.
pub proof fn law_changed_middle_differs(a: Seq<char>, b: Seq<char>)
    ensures
        match (changed_middle(a, b), changed_middle(b, a)) {
            (Some((p, q)), Some((p2, r))) => p == p2 && middle(a, b, p, q, r),
            (None, None) => {
                &&& a.len() > 0 && b.len() > 0 ==> a[0] != b[0] && a.last() != b.last()
            },
            _ => false,
        },
        a.len() > 0 && b.len() > 0 && (a[0] == b[0] || a.last() == b.last()) ==> changed_middle(
            a,
            b,
        ) is Some,
{
    lemma_front(a, b);
    let p = shared_front(a, b) as int;
    let x = after(a, p);
    let y = after(b, p);
    lemma_back(x, y);
    let s = shared_back(x, y) as int;
    assert(a.skip(a.len() - s) =~= x.skip(x.len() - s));
    assert(b.skip(b.len() - s) =~= y.skip(y.len() - s));
    if p == 0 {
        assert(x =~= a && y =~= b);
    }
}

/// The lines of a run of deletions are compared with those of the additions right behind it,
/// the first with the first and so on; what is left over on either side is not compared.
pub proof fn law_changed_lines_are_paired(evs: Seq<EvView>, s: int, m: int, e: int, k: int)
    requires
        0 <= s < m < e <= evs.len(),
        forall|i: int| s <= i < m ==> (#[trigger] evs[i]) is Del,
        forall|i: int| m <= i < e ==> (#[trigger] evs[i]) is Add,
        s == 0 || !(evs[s - 1] is Del),
        e == evs.len() || !(evs[e] is Add),
        0 <= k,
    ensures
        k < m - s && k < e - m ==> word_range(evs, s + k) == changed_middle(
            evs[s + k]->Del_1,
            evs[m + k]->Add_1,
        ) && word_range(evs, m + k) == changed_middle(evs[m + k]->Add_1, evs[s + k]->Del_1),
        e - m <= k < m - s ==> word_range(evs, s + k) is None,
        m - s <= k < e - m ==> word_range(evs, m + k) is None,
{
    if k < m - s {
        lemma_dels_back(evs, s, s + k);
        lemma_dels_on(evs, s + k, m);
        lemma_adds_on(evs, m, e);
    }
    if k < e - m {
        lemma_adds_back(evs, m, m + k);
        lemma_dels_back(evs, s, m);
    }
}

proof fn lemma_dels_back(evs: Seq<EvView>, s: int, i: int)
    requires
        0 <= s <= i <= evs.len(),
        forall|j: int| s <= j < i ==> (#[trigger] evs[j]) is Del,
        s == 0 || !(evs[s - 1] is Del),
    ensures
        dels_from(evs, i) == s,
    decreases i - s,
{
    if i > s {
        assert(evs[i - 1] is Del);
        lemma_dels_back(evs, s, i - 1);
    }
}

proof fn lemma_adds_back(evs: Seq<EvView>, s: int, i: int)
    requires
        0 <= s <= i <= evs.len(),
        forall|j: int| s <= j < i ==> (#[trigger] evs[j]) is Add,
        s == 0 || !(evs[s - 1] is Add),
    ensures
        adds_from(evs, i) == s,
    decreases i - s,
{
    if i > s {
        assert(evs[i - 1] is Add);
        lemma_adds_back(evs, s, i - 1);
    }
}

proof fn lemma_dels_on(evs: Seq<EvView>, i: int, m: int)
    requires
        0 <= i <= m <= evs.len(),
        forall|j: int| i <= j < m ==> (#[trigger] evs[j]) is Del,
        m == evs.len() || !(evs[m] is Del),
    ensures
        dels_to(evs, i) == m,
    decreases m - i,
{
    if i < m {
        assert(evs[i] is Del);
        lemma_dels_on(evs, i + 1, m);
    }
}

proof fn lemma_adds_on(evs: Seq<EvView>, i: int, m: int)
    requires
        0 <= i <= m <= evs.len(),
        forall|j: int| i <= j < m ==> (#[trigger] evs[j]) is Add,
        m == evs.len() || !(evs[m] is Add),
    ensures
        adds_to(evs, i) == m,
    decreases m - i,
{
    if i < m {
        assert(evs[i] is Add);
        lemma_adds_on(evs, i + 1, m);
    }
}

// ---- Rows ----

/// The number that a line's gutter shows: blanks, the number, and a blank.
pub open spec fn shows_number(gutter: Seq<char>, n: nat) -> bool {
    let blanks = gutter.len() - digits(n).len() - 1;
    &&& blanks >= 0
    &&& gutter.skip(blanks) == digits(n) + seq![' ']
    &&& forall|i: int| 0 <= i < blanks ==> gutter[i] == ' '
}

/// The row of an event tells what the line is: an unchanged or added line shows its number
/// in the new file, a deleted one that in the old file, and its source is the line with its
/// numbers and kind. Added and deleted lines have a mark and a ground of their own.
pub proof fn law_rows_show_their_lines(d: DiffParts, k: int)
    requires
        0 <= k < d.evs.len(),
    ensures
        ({
            let line = unit_line(d, Unit::Event(k));
            let source = unit_source(d, Unit::Event(k));
            unit_fold(Unit::Event(k)) is None && match d.evs[k] {
                EvView::Ctx(o, n, t) => {
                    &&& shows_number(line.spans[0].text, n as nat)
                    &&& line.spans[1].text == "  "@
                    &&& line.style.bg is None
                    &&& source matches Some(s) && s.text == t && s.old_line == Some(o) && s.new_line
                        == Some(n) && s.kind == DiffSourceKind::Context
                },
                EvView::Del(o, t) => {
                    &&& shows_number(line.spans[0].text, o as nat)
                    &&& line.spans[1].text == "▌ "@
                    &&& line.spans[1].style.fg == Some(Color::Rgb(0xf38ba8))
                    &&& line.style.bg == Some(Color::Rgb(0x45232f))
                    &&& source matches Some(s) && s.text == t && s.old_line == Some(o) && s.new_line
                        is None && s.kind == DiffSourceKind::Deleted
                },
                EvView::Add(n, t) => {
                    &&& shows_number(line.spans[0].text, n as nat)
                    &&& line.spans[1].text == "▌ "@
                    &&& line.spans[1].style.fg == Some(Color::Rgb(0xa6e3a1))
                    &&& line.style.bg == Some(Color::Rgb(0x1f3a2a))
                    &&& source matches Some(s) && s.text == t && s.old_line is None && s.new_line
                        == Some(n) && s.kind == DiffSourceKind::Added
                },
                EvView::Omitted(n) => {
                    &&& source is None
                    &&& has_suffix(
                        line.spans[0].text,
                        "⋯  "@ + digits(n as nat) + " unmodified lines"@,
                    )
                },
                EvView::Plain(t) => source is None && line.spans.len() == 1 && line.spans[0].text == t,
            }
        }),
{
    let line = unit_line(d, Unit::Event(k));
    let w = gutter_width(d.evs);
    match d.evs[k] {
        EvView::Ctx(_, n, _) => lemma_gutter(w, n, None),
        EvView::Del(o, _) => lemma_gutter(w, o, Some(Color::Rgb(DEL_MARK))),
        EvView::Add(n, _) => lemma_gutter(w, n, Some(Color::Rgb(ADD_MARK))),
        EvView::Omitted(n) => {
            let text = line.spans[0].text;
            let end = "⋯  "@ + digits(n as nat) + " unmodified lines"@;
            assert(text.subrange(text.len() - end.len(), text.len() as int) =~= end);
        },
        EvView::Plain(_) => {},
    }
}

proof fn lemma_gutter(w: nat, n: usize, mark: Option<Color>)
    ensures
        shows_number(gutter(w, n, mark)[0].text, n as nat),
{
    let text = gutter(w, n, mark)[0].text;
    let d = digits(n as nat);
    assert(text.skip(text.len() - d.len() - 1) =~= d + seq![' ']);
}

/// The first change is in the first row that stands for an added or deleted line.
pub proof fn law_first_change_is_the_first(d: DiffParts, us: Seq<Unit>)
    requires
        forall|r: int|
            0 <= r < us.len() ==> (#[trigger] us[r] matches Unit::Event(i) ==> 0 <= i < d.evs.len()),
    ensures
        match first_changed(d, us) {
            Some(row) => {
                &&& 0 <= row < us.len()
                &&& us[row] matches Unit::Event(i) && !(d.evs[i] is Ctx) && (d.evs[i] is Add
                    || d.evs[i] is Del)
                &&& forall|r: int|
                    0 <= r < row ==> (#[trigger] us[r] matches Unit::Event(i) ==> !(d.evs[i] is Add)
                        && !(d.evs[i] is Del))
            },
            None => forall|r: int|
                0 <= r < us.len() ==> (#[trigger] us[r] matches Unit::Event(i) ==> !(d.evs[i] is Add)
                    && !(d.evs[i] is Del)),
        },
    decreases us.len(),
{
    if us.len() > 0 {
        let before = us.drop_last();
        assert forall|r: int| 0 <= r < before.len() implies (#[trigger] before[r] matches Unit::Event(
            i,
        ) ==> 0 <= i < d.evs.len()) by {
            assert(before[r] == us[r]);
        }
        law_first_change_is_the_first(d, before);
        assert forall|r: int| 0 <= r < before.len() implies before[r] == us[r] by {}
    }
}

// ---- The code of a row ----

/// The lines of the new file in order are the texts of the unchanged and the added lines, and
/// those of the old file of the unchanged and the deleted ones: each line is found by how
/// many of its file come before it.
pub proof fn law_sides_hold_their_lines(evs: Seq<EvView>, i: int)
    requires
        0 <= i < evs.len(),
    ensures
        match evs[i] {
            EvView::Ctx(_, _, t) => new_index(evs, i) < new_lines(evs).len() && new_lines(
                evs,
            )[new_index(evs, i) as int] == t && old_index(evs, i) < old_lines(evs).len() && old_lines(
                evs,
            )[old_index(evs, i) as int] == t,
            EvView::Add(_, t) => new_index(evs, i) < new_lines(evs).len() && new_lines(
                evs,
            )[new_index(evs, i) as int] == t,
            EvView::Del(_, t) => old_index(evs, i) < old_lines(evs).len() && old_lines(
                evs,
            )[old_index(evs, i) as int] == t,
            _ => true,
        },
        i == 0 ==> new_index(evs, i) == 0 && old_index(evs, i) == 0,
{
    lemma_sides(evs, evs.len() as int, i);
    assert(evs.take(evs.len() as int) =~= evs);
}

proof fn lemma_sides(evs: Seq<EvView>, n: int, i: int)
    requires
        0 <= n <= evs.len(),
    ensures
        new_lines(evs.take(n)).len() == new_index(evs, n),
        old_lines(evs.take(n)).len() == old_index(evs, n),
        0 <= i < n ==> match evs[i] {
            EvView::Ctx(_, _, t) => new_index(evs, i) < new_index(evs, n) && new_lines(
                evs.take(n),
            )[new_index(evs, i) as int] == t && old_index(evs, i) < old_index(evs, n) && old_lines(
                evs.take(n),
            )[old_index(evs, i) as int] == t,
            EvView::Add(_, t) => new_index(evs, i) < new_index(evs, n) && new_lines(
                evs.take(n),
            )[new_index(evs, i) as int] == t,
            EvView::Del(_, t) => old_index(evs, i) < old_index(evs, n) && old_lines(
                evs.take(n),
            )[old_index(evs, i) as int] == t,
            _ => true,
        },
    decreases n,
{
    if n > 0 {
        lemma_sides(evs, n - 1, i);
        assert(evs.take(n).drop_last() =~= evs.take(n - 1));
        assert(evs.take(n).last() == evs[n - 1]);
    }
}

/// The code of a row is that of its own line, in colour and without tabs: of the new file for
/// unchanged and added lines, of the old file for deleted ones. What differs of a changed
/// line is set off, in the color of its kind.
pub proof fn law_rows_show_their_code(d: DiffParts, i: int)
    requires
        0 <= i < d.evs.len(),
    ensures
        ({
            let code = unit_line(d, Unit::Event(i)).spans.skip(2);
            match d.evs[i] {
                EvView::Ctx(..) => code == tabs_expanded(d.new_spans[new_index(d.evs, i) as int]),
                EvView::Add(..) => code == tabs_expanded(
                    match word_range(d.evs, i) {
                        Some((a, b)) => tinted(
                            d.new_spans[new_index(d.evs, i) as int],
                            a,
                            b,
                            Color::Rgb(0x30553f),
                        ),
                        None => d.new_spans[new_index(d.evs, i) as int],
                    },
                ),
                EvView::Del(..) => code == tabs_expanded(
                    match word_range(d.evs, i) {
                        Some((a, b)) => tinted(
                            d.old_spans[old_index(d.evs, i) as int],
                            a,
                            b,
                            Color::Rgb(0x6e3446),
                        ),
                        None => d.old_spans[old_index(d.evs, i) as int],
                    },
                ),
                _ => true,
            }
        }),
{
    let line = unit_line(d, Unit::Event(i));
    let w = gutter_width(d.evs);
    match d.evs[i] {
        EvView::Ctx(_, n, _) => {
            let g = gutter(w, n, None);
            assert(line.spans.skip(2) =~= line.spans.skip(g.len() as int));
            assert(line.spans.skip(2) =~= tabs_expanded(d.new_spans[new_index(d.evs, i) as int]));
        },
        EvView::Add(n, _) => {
            let code = match word_range(d.evs, i) {
                Some((a, b)) => tinted(
                    d.new_spans[new_index(d.evs, i) as int],
                    a,
                    b,
                    Color::Rgb(0x30553f),
                ),
                None => d.new_spans[new_index(d.evs, i) as int],
            };
            assert(line.spans.skip(2) =~= tabs_expanded(code));
        },
        EvView::Del(o, _) => {
            let code = match word_range(d.evs, i) {
                Some((a, b)) => tinted(
                    d.old_spans[old_index(d.evs, i) as int],
                    a,
                    b,
                    Color::Rgb(0x6e3446),
                ),
                None => d.old_spans[old_index(d.evs, i) as int],
            };
            assert(line.spans.skip(2) =~= tabs_expanded(code));
        },
        _ => {},
    }
}

/// The style of each character of some spans.
pub open spec fn char_styles(spans: Seq<SpanView>) -> Seq<Style>
    decreases spans.len(),
{
    if spans.len() == 0 {
        Seq::empty()
    } else {
        char_styles(spans.drop_last()) + Seq::new(spans.last().text.len(), |i: int| spans.last().style)
    }
}

proof fn lemma_styles_add(a: Seq<SpanView>, b: Seq<SpanView>)
    ensures
        char_styles(a + b) == char_styles(a) + char_styles(b),
    decreases b.len(),
{
    if b.len() == 0 {
        assert(a + b =~= a);
        assert(char_styles(a) + char_styles(b) =~= char_styles(a));
    } else {
        lemma_styles_add(a, b.drop_last());
        assert((a + b).drop_last() =~= a + b.drop_last());
        assert((a + b).last() == b.last());
        assert(char_styles(a + b) =~= char_styles(a) + char_styles(b));
    }
}

proof fn lemma_one_style(s: SpanView)
    ensures
        char_styles(seq![s]) == Seq::new(s.text.len(), |i: int| s.style),
{
    let one = seq![s];
    assert(one.drop_last() =~= Seq::empty());
    assert(char_styles(one.drop_last()) =~= Seq::empty());
    assert(one.last() == s);
    assert(char_styles(one) =~= Seq::new(s.text.len(), |i: int| s.style));
}

/// The styles with the ground of a range changed.
pub open spec fn grounded(styles: Seq<Style>, start: int, end: int, bg: Color) -> Seq<Style> {
    Seq::new(
        styles.len(),
        |c: int|
            if start <= c < end {
                Style { bg: Some(bg), ..styles[c] }
            } else {
                styles[c]
            },
    )
}

proof fn lemma_cut_styles(s: SpanView, pos: int, start: int, end: int, bg: Color)
    requires
        0 <= pos,
    ensures
        char_styles(cut_span(s, pos, start, end, bg)) == Seq::new(
            s.text.len(),
            |c: int|
                if start <= pos + c < end {
                    Style { bg: Some(bg), ..s.style }
                } else {
                    s.style
                },
        ),
{
    let n = s.text.len() as int;
    let a = clamped(start, pos, pos + n) - pos;
    let b = clamped(end, pos, pos + n) - pos;
    let want = Seq::new(
        s.text.len(),
        |c: int|
            if start <= pos + c < end {
                Style { bg: Some(bg), ..s.style }
            } else {
                s.style
            },
    );
    if a >= b {
        lemma_one_style(s);
        assert(char_styles(seq![s]) =~= want);
    } else {
        let x = SpanView { text: s.text.subrange(0, a), style: s.style };
        let y = SpanView { text: s.text.subrange(a, b), style: Style { bg: Some(bg), ..s.style } };
        let z = SpanView { text: s.text.subrange(b, n), style: s.style };
        lemma_one_style(x);
        lemma_one_style(y);
        lemma_one_style(z);
        let none = Seq::<SpanView>::empty();
        let l = if a > 0 {
            seq![x]
        } else {
            none
        };
        let r = if b < n {
            seq![z]
        } else {
            none
        };
        assert(char_styles(none) =~= Seq::empty());
        lemma_styles_add(l + seq![y], r);
        lemma_styles_add(l, seq![y]);
        assert(char_styles(cut_span(s, pos, start, end, bg)) =~= want);
    }
}

/// A tint changes the ground of exactly the characters of its range, and nothing else.
pub proof fn law_tints_cover_their_range(spans: Seq<SpanView>, start: int, end: int, bg: Color)
    ensures
        char_styles(tinted(spans, start, end, bg)) == grounded(char_styles(spans), start, end, bg),
        char_styles(spans).len() == span_chars(spans),
    decreases spans.len(),
{
    if spans.len() == 0 {
        assert(char_styles(tinted(spans, start, end, bg)) =~= grounded(
            char_styles(spans),
            start,
            end,
            bg,
        ));
    } else {
        let before = spans.drop_last();
        law_tints_cover_their_range(before, start, end, bg);
        let pos = span_chars(before) as int;
        lemma_cut_styles(spans.last(), pos, start, end, bg);
        lemma_styles_add(
            tinted(before, start, end, bg),
            cut_span(spans.last(), pos, start, end, bg),
        );
        assert(char_styles(tinted(spans, start, end, bg)) =~= grounded(
            char_styles(spans),
            start,
            end,
            bg,
        ));
    }
}

/// A tab is filled with blanks up to the next column that four divides, and text without tabs
/// stays as it is.
pub proof fn law_tabs_end_at_every_fourth_column(a: Seq<char>, b: Seq<char>, style: Style)
    requires
        !has_char(a, '\t'),
        !has_char(b, '\t'),
    ensures
        tabs_expanded(seq![SpanView { text: a, style }]) == seq![SpanView { text: a, style }],
        tabs_expanded(seq![SpanView { text: a + seq!['\t'] + b, style }]) == seq![
            SpanView { text: a + spaces((4 - width_of(a) % 4) as nat) + b, style },
        ],
{
    let one = seq![SpanView { text: a, style }];
    let two = seq![SpanView { text: a + seq!['\t'] + b, style }];
    assert(one.drop_last() =~= Seq::empty());
    assert(two.drop_last() =~= Seq::empty());
    assert(tabs_expanded(one.drop_last()) =~= Seq::empty());
    assert(column_after(one.drop_last()) == 0);
    lemma_split_whole(a, '\t');
    lemma_split_whole(b, '\t');
    lemma_split_head(a, '\t', b);
    let parts = split(a + seq!['\t'] + b, '\t');
    assert(parts =~= seq![a, b]);
    assert(tabbed(seq![a], 0, 0).0 == a);
    let fill = (4 - width_of(a) % 4) as nat;
    assert(tabbed(parts, 1, width_of(a) + fill).0 == b);
    assert(tabbed(parts, 0, 0).0 == a + spaces(fill) + b);
    assert(tabs_expanded(one) =~= one);
    assert(tabs_expanded(two) =~= seq![SpanView { text: a + spaces(fill) + b, style }]);
}

// ---- The gutter ----

/// The largest line number of a line that both sides have is that of either side and no less
/// than that of the other.
pub proof fn law_larger_number_counts(o: usize, n: usize, text: Seq<char>)
    ensures
        ev_number(EvView::Ctx(o, n, text)) >= o,
        ev_number(EvView::Ctx(o, n, text)) >= n,
        ev_number(EvView::Ctx(o, n, text)) == o || ev_number(EvView::Ctx(o, n, text)) == n,
        ev_number(EvView::Del(o, text)) == o,
        ev_number(EvView::Add(n, text)) == n,
{
}

} // verus!
