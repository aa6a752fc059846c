//! What a search asks for, and what becomes of what it reports.

use vstd::prelude::*;

use crate::bytes::{lemma_char_found, lemma_len_of_take};
use crate::input::{no_modifiers, Key, KeyCode};
use crate::laws::text::lemma_trim_edges;
use crate::matcher::{query_pattern, regex_escaped};
use crate::paths::under_dir;
use crate::scan::{digits, is_white, utf8_len};
use crate::search_app::app::{
    cancelled, events_taken, first_match, group_at, last_match, match_before, match_count,
    match_from, match_pushed, polled, preview_of, preview_opened, rows_of, search_asked,
    selection_moved, state_of, summary_of, with_match, AppView, BodyGeom, DisplayRow, EffectView,
    EventView, Focus, GroupView, MatchView, ToggleKind,
};
use crate::search_app::draw::{badge_text, match_row, number_text};
use crate::search_app::events::{focus_key_step, input_key_step, toggle_flipped};
use crate::search_app::mouse::result_under;
use crate::search_app::query::{
    found_in, glob_args, globs, kept, mode_args, rg_args, without_dots, without_ends, FoundView,
    StateView,
};
use crate::search_app::snippet::{
    chars_within, end_byte, highlighted, marked, shown_ranges, snippet, snippet_of, start_byte,
    window_end,
};
use crate::style::{patched, SpanView, Style};
use crate::text::{has_char, join, law_split_of_join};
use crate::viewer::request::{payload, RequestView};

verus! {

// ---- What ripgrep reports ----

/// `./` so many times.
pub open spec fn here(n: nat) -> Seq<char>
    decreases n,
{
    if n == 0 {
        Seq::empty()
    } else {
        seq!['.', '/'] + here((n - 1) as nat)
    }
}

proof fn lemma_here(n: nat, path: Seq<char>)
    requires
        !(path.len() >= 2 && path[0] == '.' && path[1] == '/'),
    ensures
        without_dots(here(n) + path) == path,
    decreases n,
{
    if n == 0 {
        assert(here(n) + path =~= path);
    } else {
        let s = here(n) + path;
        assert(s[0] == '.' && s[1] == '/');
        assert(s.skip(2) =~= here((n - 1) as nat) + path);
        lemma_here((n - 1) as nat, path);
    }
}

proof fn lemma_ends(text: Seq<char>, end: Seq<char>)
    requires
        text.len() > 0 ==> text.last() != '\n' && text.last() != '\r',
        forall|i: int| 0 <= i < end.len() ==> #[trigger] end[i] == '\n' || end[i] == '\r',
    ensures
        without_ends(text + end) == text,
    decreases end.len(),
{
    if end.len() == 0 {
        assert(text + end =~= text);
    } else {
        let s = text + end;
        assert(s.last() == end[end.len() - 1]);
        assert(s.drop_last() =~= text + end.drop_last());
        lemma_ends(text, end.drop_last());
    }
}

/// A match is read as ripgrep reports it: in the line that it names, in the file that it
/// names from here on, with the text of the line without what ends it, and with the places
/// of what was found. Where no line is named it is the first. Any other message is none.
pub proof fn law_matches_are_read_as_reported(
    dots: nat,
    path: Seq<char>,
    text: Seq<char>,
    end: Seq<char>,
    line: Option<usize>,
    found: Seq<(usize, usize)>,
    kind: Seq<char>,
)
    requires
        !(path.len() >= 2 && path[0] == '.' && path[1] == '/'),
        text.len() > 0 ==> text.last() != '\n' && text.last() != '\r',
        forall|i: int| 0 <= i < end.len() ==> #[trigger] end[i] == '\n' || end[i] == '\r',
    ensures
        found_in("match"@, Some(here(dots) + path), Some(text + end), line, found) matches Some(m)
            && m.path == path && m.line_text == text && m.submatches == found && (line matches Some(n)
            ==> m.line_number == n) && (line is None ==> m.line_number == 1),
        kind != "match"@ ==> found_in(kind, Some(here(dots) + path), Some(text + end), line, found) is None,
        found_in("match"@, None, Some(text + end), line, found) is None,
        found_in("match"@, Some(here(dots) + path), None, line, found) is None,
{
    lemma_here(dots, path);
    lemma_ends(text, end);
}

// ---- What ripgrep is asked ----

/// Whether a text can be a pattern between commas: not empty, without a comma, and without
/// blanks at its ends.
pub open spec fn glob_text(s: Seq<char>) -> bool {
    s.len() > 0 && !has_char(s, ',') && !is_white(s[0]) && !is_white(s.last())
}

proof fn lemma_kept_all(list: Seq<Seq<char>>)
    requires
        forall|k: int| 0 <= k < list.len() ==> glob_text(#[trigger] list[k]),
    ensures
        kept(list) == list,
    decreases list.len(),
{
    if list.len() > 0 {
        let before = list.drop_last();
        assert forall|k: int| 0 <= k < before.len() implies glob_text(#[trigger] before[k]) by {
            assert(before[k] == list[k]);
        }
        lemma_kept_all(before);
        assert(glob_text(list[list.len() - 1]));
        lemma_trim_edges(list.last());
        assert(kept(list) =~= list);
    } else {
        assert(kept(list) =~= list);
    }
}

/// Patterns with commas between them are taken apart.
pub proof fn law_patterns_are_read_back(list: Seq<Seq<char>>)
    requires
        list.len() > 0,
        forall|k: int| 0 <= k < list.len() ==> glob_text(#[trigger] list[k]),
    ensures
        globs(join(list, seq![','])) == list,
{
    law_split_of_join(list, ',');
    lemma_kept_all(list);
}

/// Patterns as words of a command, each behind the word that announces it and after a sign.
pub open spec fn glob_words(list: Seq<Seq<char>>, sign: Seq<char>, n: nat) -> Seq<Seq<char>> {
    Seq::new(
        2 * n,
        |i: int|
            if i % 2 == 0 {
                seq!['-', 'g']
            } else {
                sign + list[i / 2]
            },
    )
}

proof fn lemma_glob_args(list: Seq<Seq<char>>, sign: Seq<char>, n: nat)
    requires
        n <= list.len(),
    ensures
        glob_args(list, sign, n as int) == glob_words(list, sign, n),
    decreases n,
{
    reveal_strlit("-g");
    assert("-g"@ =~= seq!['-', 'g']);
    if n > 0 {
        let m = (n - 1) as nat;
        lemma_glob_args(list, sign, m);
        assert(glob_words(list, sign, n) =~= glob_words(list, sign, m).push("-g"@).push(
            sign + list[n - 1],
        ));
    } else {
        assert(glob_words(list, sign, n) =~= glob_args(list, sign, 0));
    }
}

/// A word of a command, where it is wanted.
pub open spec fn word_if(wanted: bool, word: Seq<char>) -> Seq<Seq<char>> {
    if wanted {
        seq![word]
    } else {
        Seq::empty()
    }
}

/// How ripgrep is called: for lines with numbers as JSON; for the text itself unless a regular
/// expression is meant, in either case unless case counts, and for whole words where these
/// are meant; in the files that match the included patterns and not the excluded ones; and
/// at the end for the query, from here on down.
pub proof fn law_ripgrep_is_asked_for_the_query(
    s: StateView,
    query: Seq<char>,
    included: Seq<Seq<char>>,
    excluded: Seq<Seq<char>>,
)
    requires
        included.len() > 0,
        excluded.len() > 0,
        forall|k: int| 0 <= k < included.len() ==> glob_text(#[trigger] included[k]),
        forall|k: int| 0 <= k < excluded.len() ==> glob_text(#[trigger] excluded[k]),
        s.included == join(included, seq![',']),
        s.excluded == join(excluded, seq![',']),
    ensures
        rg_args(s, query) == seq![
            "--json"@,
            "--line-buffered"@,
            "--no-messages"@,
            "--line-number"@,
        ] + word_if(!s.regex, "--fixed-strings"@) + word_if(!s.case_sensitive, "--ignore-case"@)
            + word_if(s.whole_word, "--word-regexp"@) + glob_words(
            included,
            Seq::empty(),
            included.len(),
        ) + glob_words(excluded, seq!['!'], excluded.len()) + seq!["-e"@, query, "."@],
{
    law_patterns_are_read_back(included);
    law_patterns_are_read_back(excluded);
    reveal_strlit("");
    reveal_strlit("!");
    assert("!"@ =~= seq!['!']);
    assert(""@ =~= Seq::<char>::empty());
    lemma_glob_args(included, ""@, included.len());
    lemma_glob_args(excluded, "!"@, excluded.len());
    assert(mode_args(s) =~= word_if(!s.regex, "--fixed-strings"@) + word_if(
        !s.case_sensitive,
        "--ignore-case"@,
    ) + word_if(s.whole_word, "--word-regexp"@));
    assert(rg_args(s, query) =~= seq![
        "--json"@,
        "--line-buffered"@,
        "--no-messages"@,
        "--line-number"@,
    ] + word_if(!s.regex, "--fixed-strings"@) + word_if(!s.case_sensitive, "--ignore-case"@) + word_if(
        s.whole_word,
        "--word-regexp"@,
    ) + glob_words(included, Seq::empty(), included.len()) + glob_words(
        excluded,
        seq!['!'],
        excluded.len(),
    ) + seq!["-e"@, query, "."@]);
}

/// What finds a query in a preview: the text itself or the expression, between word
/// boundaries where whole words are meant.
pub proof fn law_query_finds_itself(query: Seq<char>)
    ensures
        query_pattern(query, true, false) == query,
        query_pattern(query, false, false) == regex_escaped(query),
        query_pattern(query, true, true) == "\\b(?:"@ + query + ")\\b"@,
        query_pattern(query, false, true) == "\\b(?:"@ + regex_escaped(query) + ")\\b"@,
{
}

// ---- How finds are listed ----

proof fn lemma_group_is(groups: Seq<GroupView>, path: Seq<char>, i: int)
    requires
        0 <= i <= groups.len(),
    ensures
        i <= group_at(groups, path, i) <= groups.len(),
        group_at(groups, path, i) < groups.len() ==> groups[group_at(groups, path, i)].path == path,
        forall|k: int| i <= k < group_at(groups, path, i) ==> (#[trigger] groups[k]).path != path,
    decreases groups.len() - i,
{
    if i < groups.len() && groups[i].path != path {
        lemma_group_is(groups, path, i + 1);
    }
}

/// A find is added behind those of its file, as it was reported; a file of which nothing was
/// found before comes last, and what was found in other files stays.
pub proof fn law_finds_are_kept_by_file(groups: Seq<GroupView>, m: FoundView)
    ensures
        ({
            let next = with_match(groups, m);
            let one = MatchView {
                line_number: m.line_number,
                line_text: m.line_text,
                submatches: m.submatches,
            };
            if exists|g: int| 0 <= g < groups.len() && (#[trigger] groups[g]).path == m.path {
                exists|g: int|
                    0 <= g < groups.len() && (#[trigger] groups[g]).path == m.path && next.len()
                        == groups.len() && next[g].path == m.path && next[g].matches
                        == groups[g].matches.push(one) && (forall|k: int|
                        0 <= k < groups.len() && k != g ==> #[trigger] next[k] == groups[k])
            } else {
                next.len() == groups.len() + 1 && next.take(groups.len() as int) == groups
                    && next.last().path == m.path && next.last().matches == seq![one]
            }
        }),
{
    lemma_group_is(groups, m.path, 0);
    let g = group_at(groups, m.path, 0);
    let next = with_match(groups, m);
    if g < groups.len() {
        assert(groups[g].path == m.path);
        assert(forall|k: int| 0 <= k < groups.len() && k != g ==> #[trigger] next[k] == groups[k]);
    } else {
        assert(next.take(groups.len() as int) =~= groups);
    }
}

/// Where a row stands: by its file, the row of the file first and then its finds.
pub open spec fn row_place(r: DisplayRow) -> (int, int) {
    match r {
        DisplayRow::Header(g) => (g as int, 0),
        DisplayRow::Match { group, item } => (group as int, item + 1),
    }
}

/// Every file has a row and every find has one, each once: the files in order, and below each
/// the finds of it in order.
pub proof fn law_every_find_has_a_row(groups: Seq<GroupView>, n: int)
    requires
        0 <= n <= groups.len() <= usize::MAX,
        forall|k: int| 0 <= k < groups.len() ==> (#[trigger] groups[k]).matches.len() <= usize::MAX,
    ensures
        forall|g: usize| #[trigger] rows_of(groups, n).contains(DisplayRow::Header(g)) <==> g < n,
        forall|group: usize, item: usize| #[trigger]
            rows_of(groups, n).contains(DisplayRow::Match { group, item }) <==> group < n && item
                < groups[group as int].matches.len(),
        forall|i: int, j: int|
            0 <= i < j < rows_of(groups, n).len() ==> {
                let a = row_place(#[trigger] rows_of(groups, n)[i]);
                let b = row_place(#[trigger] rows_of(groups, n)[j]);
                a.0 < b.0 || (a.0 == b.0 && a.1 < b.1)
            },
    decreases n,
{
    let all = rows_of(groups, n);
    if n > 0 {
        law_every_find_has_a_row(groups, n - 1);
        let less = rows_of(groups, n - 1);
        let g = (n - 1) as usize;
        let count = groups[n - 1].matches.len();
        let tail = seq![DisplayRow::Header(g)] + Seq::new(
            count,
            |i: int| DisplayRow::Match { group: g, item: i as usize },
        );
        assert(all =~= less + tail);
        assert forall|i: int| 0 <= i < all.len() implies (i < less.len() ==> #[trigger] all[i]
            == less[i]) && (i >= less.len() ==> all[i] == tail[i - less.len()]) by {}
        assert forall|k: int| 0 <= k < less.len() implies row_place(#[trigger] less[k]).0 < n - 1 by {
            assert(less.contains(less[k]));
            match less[k] {
                DisplayRow::Header(h) => {
                    assert(less.contains(DisplayRow::Header(h)));
                },
                DisplayRow::Match { group, item } => {
                    assert(less.contains(DisplayRow::Match { group, item }));
                },
            }
        }
        assert forall|h: usize| #[trigger] all.contains(DisplayRow::Header(h)) <==> h < n by {
            let r = DisplayRow::Header(h);
            if all.contains(r) {
                let i = choose|i: int| 0 <= i < all.len() && all[i] == r;
                if i < less.len() {
                    assert(less.contains(r));
                } else {
                    assert(tail[i - less.len()] == r);
                }
            }
            if h < n - 1 {
                assert(less.contains(r));
                let i = choose|i: int| 0 <= i < less.len() && less[i] == r;
                assert(all[i] == r);
            } else if h == n - 1 {
                assert(all[less.len() as int] == r);
            }
        }
        assert forall|group: usize, item: usize| #[trigger]
            all.contains(DisplayRow::Match { group, item }) <==> group < n && item
                < groups[group as int].matches.len() by {
            let r = DisplayRow::Match { group, item };
            if all.contains(r) {
                let i = choose|i: int| 0 <= i < all.len() && all[i] == r;
                if i < less.len() {
                    assert(less.contains(r));
                } else {
                    assert(tail[i - less.len()] == r);
                }
            }
            if group < n && item < groups[group as int].matches.len() {
                if group < n - 1 {
                    assert(less.contains(r));
                    let i = choose|i: int| 0 <= i < less.len() && less[i] == r;
                    assert(all[i] == r);
                } else {
                    assert(tail[item + 1] == r);
                    assert(all[less.len() + item + 1] == r);
                }
            }
        }
    }
}

/// The finds of several events are taken over one after the other, and the rows list what
/// there is then; a search that has ended says in how many files how many were found.
pub proof fn law_reports_are_taken_in_turn(v: AppView, m: FoundView, more: Seq<EventView>)
    requires
        v.running,
    ensures
        polled(v, seq![EventView::Match(m)]).groups == with_match(v.groups, m),
        polled(v, seq![EventView::Match(m)]).rows == rows_of(
            with_match(v.groups, m),
            with_match(v.groups, m).len() as int,
        ),
        polled(v, seq![EventView::Match(m)]).running,
        !polled(v, seq![EventView::Finished]).running,
        polled(v, seq![EventView::Finished]).groups == v.groups,
        polled(v, seq![EventView::Finished]).summary == Some(summary_of(v.groups)),
{
    let one = seq![EventView::Match(m)];
    assert(!one.contains(EventView::Finished));
    assert(events_taken(v, one, 0) == v);
    assert(events_taken(v, one, 1) == match_pushed(v, m));
    let end = seq![EventView::Finished];
    assert(end[0] == EventView::Finished);
    assert(end.contains(EventView::Finished));
    assert(events_taken(v, end, 0) == v);
    assert(events_taken(v, end, 1) == v);
}

/// How many finds there are in all.
pub open spec fn total(groups: Seq<GroupView>, n: int) -> nat
    decreases n,
{
    if n <= 0 {
        0
    } else {
        total(groups, n - 1) + groups[n - 1].matches.len()
    }
}

/// The summary counts the finds and the files.
pub proof fn law_summary_counts_the_finds(groups: Seq<GroupView>)
    requires
        total(groups, groups.len() as int) <= usize::MAX,
    ensures
        summary_of(groups) == (if total(groups, groups.len() as int) == 0 {
            "No results"@
        } else {
            digits(total(groups, groups.len() as int)) + " matches in "@ + digits(groups.len())
                + " files"@
        }),
{
    lemma_total(groups, groups.len() as int);
}

proof fn lemma_total(groups: Seq<GroupView>, n: int)
    requires
        total(groups, n) <= usize::MAX,
        0 <= n <= groups.len(),
    ensures
        match_count(groups, n) == total(groups, n),
    decreases n,
{
    if n > 0 {
        lemma_total(groups, n - 1);
    }
}

/// A find that is opened is shown in its file, at its line, and with the query that found it.
pub proof fn law_finds_are_opened_at_their_line(v: AppView, i: int, group: usize, item: usize)
    requires
        0 <= i < v.rows.len(),
        v.rows[i] == (DisplayRow::Match { group, item }),
        group < v.groups.len(),
        item < v.groups[group as int].matches.len(),
    ensures
        preview_of(v, i) matches Some(RequestView::SearchFile {
            path,
            line,
            query,
            regex,
            case_sensitive,
            whole_word,
        }) && path == under_dir(v.root, v.groups[group as int].path) && line
            == v.groups[group as int].matches[item as int].line_number && query == v.query && regex
            == v.regex && case_sensitive == v.case_sensitive && whole_word == v.whole_word,
{
}

/// The row of a find begins with the number of its line, which ends in the same column for
/// all numbers of up to four digits, and the row of a file ends with how many were found.
pub proof fn law_rows_show_numbers(m: MatchView, hovered: bool, selected: bool, width: int)
    ensures
        ({
            let text = match_row(m, hovered, selected, width).spans[0].text;
            let n = digits(m.line_number as nat);
            &&& text.len() == (if n.len() < 4 {
                7
            } else {
                n.len() + 3
            })
            &&& text.skip(text.len() - n.len() - 1) == n + seq![' ']
            &&& forall|i: int| 0 <= i < text.len() - n.len() - 1 ==> text[i] == ' '
        }),
        forall|k: nat| #[trigger] badge_text(k) == seq![' '] + digits(k) + seq![' '],
{
    let n = digits(m.line_number as nat);
    let text = number_text(m.line_number);
    reveal_strlit("  ");
    reveal_strlit(" ");
    assert(" "@ =~= seq![' ']);
    let line = match_row(m, hovered, selected, width);
    assert(line.spans[0].text == text);
    assert(text.skip(text.len() - n.len() - 1) =~= n + seq![' ']);
}

// ---- Searching ----

/// A search is for what was typed without the blanks round it; what was found before goes, and
/// a search that runs is stopped first. Without anything to search for none is begun.
pub proof fn law_searches_are_for_what_was_typed(v: AppView, manual: bool, query: Seq<char>)
    requires
        v.query == query,
        query.len() > 0,
        !is_white(query[0]),
        !is_white(query.last()),
    ensures
        ({
            let (next, effects) = search_asked(v, manual, None);
            &&& effects.len() > 0 && effects.last() == EffectView::Search(rg_args(state_of(v), query))
            &&& v.running ==> effects.len() == 2 && effects[0] == EffectView::Cancel
            &&& next.searching && next.groups.len() == 0 && next.rows.len() == 0
            &&& next.query == v.query
        }),
        ({
            let (next, effects) = search_asked(v, manual, Some(query));
            next.inline_error == Some(query) && !next.searching && forall|i: int|
                0 <= i < effects.len() ==> !(#[trigger] effects[i] is Search)
        }),
        state_of(v).query == v.query && state_of(v).regex == v.regex && state_of(v).case_sensitive
            == v.case_sensitive && state_of(v).whole_word == v.whole_word && state_of(v).included
            == v.included && state_of(v).excluded == v.excluded,
{
    lemma_trim_edges(query);
}

/// Each toggle turns its own way of searching round, and twice turned round it is as before.
pub proof fn law_toggles_turn_their_own_way(v: AppView)
    ensures
        toggle_flipped(v, ToggleKind::Regex).0.regex == !v.regex,
        toggle_flipped(v, ToggleKind::Regex).0.case_sensitive == v.case_sensitive,
        toggle_flipped(v, ToggleKind::Case).0.case_sensitive == !v.case_sensitive,
        toggle_flipped(v, ToggleKind::Case).0.whole_word == v.whole_word,
        toggle_flipped(v, ToggleKind::WholeWord).0.whole_word == !v.whole_word,
        toggle_flipped(v, ToggleKind::WholeWord).0.regex == v.regex,
{
}

/// What is typed goes behind what its own field holds, and a search is due a moment later.
pub proof fn law_typing_fills_its_field(v: AppView, c: char, now: u64)
    requires
        now + 200 <= u64::MAX,
    ensures
        ({
            let (next, effects) = input_key_step(
                v,
                Key { code: KeyCode::Char(c), modifiers: no_modifiers(), press: true },
                now,
            );
            &&& v.focus == Focus::Query ==> next.query == v.query.push(c) && next.included == v.included
                && next.excluded == v.excluded
            &&& v.focus == Focus::Include ==> next.included == v.included.push(c) && next.query == v.query
            &&& v.focus == Focus::Exclude ==> next.excluded == v.excluded.push(c) && next.query == v.query
            &&& next.pending_search matches Some(at) && at > now
            &&& effects.len() == 0
        }),
{
}

// ---- Lines of finds ----

/// A line that fits is shown whole, and what was found in it is set off where it is.
pub proof fn law_short_lines_are_shown_whole(line: Seq<char>, found: Seq<(usize, usize)>, max: int)
    requires
        max > 2,
        line.len() > 0,
        utf8_len(line) <= max,
        forall|i: int|
            0 <= i < found.len() ==> (#[trigger] found[i]).0 < found[i].1 && found[i].1 <= utf8_len(line),
    ensures
        snippet_of(line, found, max) == (line, found),
{
    assert(line.take(0) =~= Seq::empty());
    assert(line.take(line.len() as int) =~= line);
    assert(start_byte(line, found, max) == 0);
    lemma_whole_line(line);
    assert(window_end(line, found, max) == line.len());
    assert(end_byte(line, found, max) == utf8_len(line));
    assert(line.subrange(0, line.len() as int) =~= line);
    assert(snippet(line, found, max) =~= line);
    lemma_ranges_stay(found, utf8_len(line) as int, found.len() as int);
    assert(found.take(found.len() as int) =~= found);
}

proof fn lemma_whole_line(line: Seq<char>)
    ensures
        chars_within(line, utf8_len(line) as int) == line.len(),
{
}

proof fn lemma_ranges_stay(found: Seq<(usize, usize)>, len: int, n: int)
    requires
        0 <= n <= found.len(),
        forall|i: int| 0 <= i < found.len() ==> (#[trigger] found[i]).0 < found[i].1 && found[i].1 <= len,
    ensures
        shown_ranges(found, 0, len, n) == found.take(n),
    decreases n,
{
    if n > 0 {
        lemma_ranges_stay(found, len, n - 1);
        assert(found[n - 1].0 < found[n - 1].1);
        assert(found.take(n) =~= found.take(n - 1).push(found[n - 1]));
    } else {
        assert(found.take(0) =~= Seq::empty());
    }
}

/// What was found in a text is set off, and what stands before and behind it is not.
pub proof fn law_finds_are_set_off(
    a: Seq<char>,
    b: Seq<char>,
    c: Seq<char>,
    base: Style,
    over: Style,
    from: usize,
    to: usize,
)
    requires
        a.len() > 0,
        b.len() > 0,
        c.len() > 0,
        from == utf8_len(a),
        to == utf8_len(a + b),
    ensures
        highlighted(a + b + c, seq![(from, to)], base, over) == seq![
            SpanView { text: a, style: base },
            SpanView { text: b, style: patched(base, over) },
            SpanView { text: c, style: base },
        ],
{
    let s = a + b + c;
    let n = a.len() as int;
    let m = n + b.len();
    assert(s.take(n) =~= a);
    assert(s.take(m) =~= a + b);
    assert(s.take(s.len() as int) =~= s);
    assert(s.take(0) =~= Seq::empty());
    lemma_char_found(s, 0);
    lemma_char_found(s, n);
    lemma_char_found(s, m);
    lemma_char_found(s, s.len() as int);
    lemma_len_of_take(s, 0, n);
    lemma_len_of_take(s, n, m);
    lemma_len_of_take(s, m, s.len() as int);
    assert(s.subrange(0, n) =~= a);
    assert(s.subrange(n, m) =~= b);
    assert(s.subrange(m, s.len() as int) =~= c);
    let ranges = seq![(from, to)];
    assert(marked(s, ranges, base, over, 0) == (Seq::<SpanView>::empty(), 0int));
    assert(marked(s, ranges, base, over, 1).0 =~= seq![
        SpanView { text: a, style: base },
        SpanView { text: b, style: patched(base, over) },
    ]);
    assert(highlighted(s, ranges, base, over) =~= seq![
        SpanView { text: a, style: base },
        SpanView { text: b, style: patched(base, over) },
        SpanView { text: c, style: base },
    ]);
}

// ---- The selection ----

/// The selection moves to the next find in its direction: finds stand at both ends of the move
/// and none between. Where there is none, it stays.
pub proof fn law_selection_moves_to_the_next_find(v: AppView, from: usize, down: bool, k: int)
    requires
        v.selected == Some(from),
        from < v.rows.len(),
        v.rows.len() <= usize::MAX,
    ensures
        ({
            let next = selection_moved(v, down);
            &&& next.rows == v.rows && next.query == v.query
            &&& next.selected matches Some(to) && to < v.rows.len() && (to == from || v.rows[to as int] is Match)
            &&& down && from < k < v.rows.len() && v.rows[k] is Match ==> from < next.selected->0 <= k
            &&& !down && 0 <= k < from && v.rows[k] is Match ==> k <= next.selected->0 < from
        }),
{
    lemma_match_from(v.rows, from + 1);
    lemma_match_before(v.rows, from as int);
}

/// The first find is the topmost that can be selected, and the last the lowest.
pub proof fn law_first_and_last_finds_are_outermost(rows: Seq<DisplayRow>, k: int)
    requires
        0 <= k < rows.len(),
        rows.len() <= usize::MAX,
        rows[k] is Match,
    ensures
        first_match(rows) matches Some(i) && i <= k && rows[i as int] is Match,
        last_match(rows) matches Some(i) && k <= i < rows.len() && rows[i as int] is Match,
{
    lemma_match_from(rows, 0);
    lemma_match_before(rows, rows.len() as int);
}

proof fn lemma_match_from(rows: Seq<DisplayRow>, i: int)
    requires
        0 <= i,
    ensures
        i <= rows.len() ==> i <= match_from(rows, i) <= rows.len(),
        i > rows.len() ==> match_from(rows, i) == rows.len(),
        match_from(rows, i) < rows.len() ==> rows[match_from(rows, i)] is Match,
        forall|k: int| i <= k < match_from(rows, i) ==> !(#[trigger] rows[k] is Match),
    decreases rows.len() - i,
{
    if i < rows.len() && !(rows[i] is Match) {
        lemma_match_from(rows, i + 1);
    }
}

proof fn lemma_match_before(rows: Seq<DisplayRow>, n: int)
    requires
        0 <= n <= rows.len(),
    ensures
        -1 <= match_before(rows, n) < n || match_before(rows, n) == -1,
        match_before(rows, n) >= 0 ==> rows[match_before(rows, n)] is Match,
        forall|k: int| match_before(rows, n) < k < n ==> !(#[trigger] rows[k] is Match),
    decreases n,
{
    if n > 0 && !(rows[n - 1] is Match) {
        lemma_match_before(rows, n - 1);
    }
}

/// A search that runs is stopped, and what was found until then stays.
pub proof fn law_stopping_keeps_the_finds(v: AppView)
    ensures
        !cancelled(v).0.running && !cancelled(v).0.searching,
        cancelled(v).0.groups == v.groups && cancelled(v).0.rows == v.rows,
        v.running ==> cancelled(v).1 == seq![EffectView::Cancel],
        !v.running ==> cancelled(v).1.len() == 0,
{
}

/// The selected find is shown by the viewer of the pane, with what was searched for; without a
/// pane that is told.
pub proof fn law_previews_need_a_pane(v: AppView, i: usize, request: RequestView)
    requires
        v.selected == Some(i),
        preview_of(v, i as int) == Some(request),
    ensures
        v.pane_id is Some ==> preview_opened(v) == (v, seq![EffectView::Preview(payload(request))]),
        v.pane_id is None ==> preview_opened(v).1.len() == 0 && preview_opened(v).0.notice is Some,
{
}

/// The key that gives up empties what is searched for, and no other field.
pub proof fn law_escape_empties_the_query(v: AppView, now: u64)
    ensures
        ({
            let (next, effects) = input_key_step(
                v,
                Key { code: KeyCode::Esc, modifiers: no_modifiers(), press: true },
                now,
            );
            &&& v.focus == Focus::Query ==> next.query.len() == 0
            &&& next.included == v.included && next.excluded == v.excluded
            &&& v.focus != Focus::Query ==> next == v
            &&& effects.len() == 0
        }),
{
}

/// A line of the screen is that of the row which is drawn there.
pub proof fn law_rows_are_found_where_they_are_drawn(body: BodyGeom, count: int, y: u16, i: int)
    requires
        body.offset <= i < count,
        i - body.offset < body.height,
        y == body.top + (i - body.offset),
        count <= usize::MAX,
    ensures
        result_under(body, count, y) == Some(i as usize),
        body.top > 0 ==> result_under(body, count, (body.top - 1) as u16) is None,
{
}

/// Without ripgrep only the keys that look for it again do anything.
pub proof fn law_ripgrep_is_looked_for_again(v: AppView, key: Key, now: u64)
    requires
        v.rg_error is Some,
    ensures
        focus_key_step(v, key, now).0 == v,
        key.code == KeyCode::Enter || key.code == KeyCode::Char('r') ==> focus_key_step(v, key, now).1
            == seq![EffectView::CheckRg],
        key.code != KeyCode::Enter && key.code != KeyCode::Char('r') ==> focus_key_step(
            v,
            key,
            now,
        ).1.len() == 0,
{
    reveal(focus_key_step);
}

} // verus!
