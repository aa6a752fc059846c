//! What a preview shows, and what is done in it.

use vstd::prelude::*;

use crate::bytes::{lemma_char_found, lemma_len_of_take};
use crate::cells::clusters;
use crate::input::{no_modifiers, Key, KeyCode, MouseKind};
use crate::scan::{digits, is_digit, law_digits_read_back, lines, trim, utf8_len, Class};
use crate::syntax::PreviewHighlightStyles;
use crate::text::{
    find_seq, has_char, law_split_of_join, lemma_find_char_unique, lemma_find_seq, rfind_char,
    split,
};
use crate::viewer::comments::{
    agent_label, agents_in, agents_near, count_for, formatted, line_begin, next_marker, pane_at,
    paste_end, paste_start, step_left, step_right, unified, unmarked, vertical, without_file,
    AgentPaneView, AgentView, DraftView,
};
use crate::viewer::doc::{
    centered, dragged, dragged_to, first_blocked, first_change_requested, hit_bytes, last_blocked,
    line_row, selected_words, unit_at, DocView,
};
use crate::viewer::draw::{drawn_row, drawn_rows, number_text};
use crate::viewer::load::{file_doc_of, is_binary, request_prepared, shown_text, SearchView};
use crate::viewer::peers::{is_stale, own_pane, peer_at, peer_of, PeerView};
use crate::viewer::preview::{
    agent_wanted, agents_found, comment_saved, comments_cleared, comments_copied, copy_ended,
    draft_key_step, draft_typed, key_scroll, picker_key_step, selection_copied, sent_to,
    wheel_scroll, EffectView, PickerView, PreviewView,
};
use crate::viewer::request::{payload, RequestView};
use crate::viewer::rows::{
    column_of, HitPoint, SelectableView, SourceKind, TextPoint, TextSelection,
};
use crate::viewer::wrap::VisualFragment;

verus! {

// ---- Documents ----

/// The rows of a text file that can be selected are its lines, each with its number from 1 on,
/// and no more than are shown.
pub proof fn law_file_rows_are_its_lines(
    target: Seq<char>,
    bytes: Seq<u8>,
    search: Option<SearchView>,
    line: usize,
    theme: usize,
    k: int,
)
    requires
        forall|i: int| 0 <= i < bytes.len() && i < 8192 ==> bytes[i] != 0,
    ensures
        ({
            let d = file_doc_of(target, Ok(bytes), search, Some(line), theme, None);
            let all = lines(shown_text(bytes));
            &&& d.numbered
            &&& d.sources.len() == d.lines.len()
            &&& 0 <= k < d.lines.len() && k < all.len() && k < 5000 ==> (d.sources[k] matches Some(row)
                && row.raw == all[k] && (row.kind matches SourceKind::File { line } && line == k + 1))
            &&& d.scroll == 0 && d.selection is None
        }),
{
    let first = bytes.take(crate::input::least(bytes.len() as int, 8192));
    assert(!first.contains(0)) by {
        if first.contains(0) {
            let i = choose|i: int| 0 <= i < first.len() && first[i] == 0;
            assert(bytes[i] == 0);
        }
    }
    assert(!is_binary(bytes));
}

/// A file with a NUL among its first bytes is not shown, and neither is one that cannot be
/// read; what is shown in its place cannot be selected.
pub proof fn law_other_files_are_not_shown(
    target: Seq<char>,
    bytes: Seq<u8>,
    at: int,
    e: Seq<char>,
    search: Option<SearchView>,
    line: Option<usize>,
    theme: usize,
)
    requires
        0 <= at < bytes.len(),
        at < 8192,
        bytes[at] == 0,
    ensures
        ({
            let d = file_doc_of(target, Ok(bytes), search, line, theme, None);
            &&& d.lines.len() == 1 && d.sources == seq![None::<SelectableView>]
            &&& !d.numbered
        }),
        ({
            let d = file_doc_of(target, Err(e), search, line, theme, None);
            d.lines.len() == 1 && d.sources == seq![None::<SelectableView>]
        }),
{
    let first = bytes.take(crate::input::least(bytes.len() as int, 8192));
    assert(first[at] == 0);
    assert(is_binary(bytes));
}

/// A request for a line of a file brings the row of that line into the middle, or the last
/// row where there are not so many, and marks it for three seconds unless it is a find.
pub proof fn law_requested_lines_are_centred(
    d: DocView,
    path: Seq<char>,
    line: usize,
    query: Seq<char>,
    hide: bool,
    now: u64,
)
    requires
        d.lines.len() > 0,
        line >= 1,
        d.lines.len() <= usize::MAX,
        now + 3000 <= u64::MAX,
    ensures
        ({
            let row = if line <= d.lines.len() {
                line - 1
            } else {
                d.lines.len() - 1
            };
            let a = request_prepared(d, RequestView::FileLine { path, line }, hide, now);
            let b = request_prepared(
                d,
                RequestView::SearchFile {
                    path,
                    line,
                    query,
                    regex: false,
                    case_sensitive: false,
                    whole_word: false,
                },
                hide,
                now,
            );
            &&& a.center_source_row_pending == Some(row as usize)
            &&& a.highlighted_source_row == Some((row as usize, (now + 3000) as u64))
            &&& b.center_source_row_pending == Some(row as usize)
            &&& b.highlighted_source_row is None
            &&& a.lines == d.lines && a.sources == d.sources
        }),
{
}

proof fn lemma_line_row(sources: Seq<Option<SelectableView>>, line: usize, i: int, row: int)
    requires
        0 <= i <= row < sources.len(),
        sources[row] matches Some(r) && (r.kind matches SourceKind::Diff { new_line, .. } && new_line
            == Some(line)),
        forall|k: int|
            i <= k < row ==> !((#[trigger] sources[k]) matches Some(r) && (
            r.kind matches SourceKind::Diff { new_line, .. } && new_line == Some(line))),
    ensures
        line_row(sources, line, i) == row,
    decreases row - i,
{
    if i < row {
        assert(!(sources[i] matches Some(r) && (r.kind matches SourceKind::Diff { new_line, .. }
            && new_line == Some(line))));
        lemma_line_row(sources, line, i + 1, row);
    }
}

/// A request for a line of a diff brings the first row of that line of the new file into the
/// middle.
pub proof fn law_requested_diff_lines_are_centred(
    d: DocView,
    root: Seq<char>,
    rel: Seq<char>,
    kind: Seq<char>,
    line: usize,
    row: int,
    hide: bool,
    now: u64,
)
    requires
        0 <= row < d.sources.len(),
        row <= usize::MAX,
        d.sources[row] matches Some(r) && (r.kind matches SourceKind::Diff { new_line, .. } && new_line
            == Some(line)),
        forall|k: int|
            0 <= k < row ==> !((#[trigger] d.sources[k]) matches Some(r) && (
            r.kind matches SourceKind::Diff { new_line, .. } && new_line == Some(line))),
    ensures
        request_prepared(
            d,
            RequestView::Diff { root, rel, kind, line: Some(line) },
            hide,
            now,
        ).center_source_row_pending == Some(row as usize),
{
    lemma_line_row(d.sources, line, 0, row);
}

// ---- Requests ----

/// How requests for the viewer are written: a word for what is asked and its parts, with tabs
/// between them.
pub proof fn law_requests_are_words_between_tabs(
    a: Seq<char>,
    b: Seq<char>,
    c: Seq<char>,
    e: Seq<char>,
    n: usize,
)
    requires
        !has_char(a, '\t'),
        !has_char(b, '\t'),
        !has_char(c, '\t'),
        !has_char(e, '\t'),
    ensures
        split(payload(RequestView::File(a)), '\t') == seq!["file"@, a],
        split(payload(RequestView::Diff { root: a, rel: b, kind: c, line: None }), '\t') == seq![
            "diff"@,
            a,
            b,
            c,
        ],
        split(payload(RequestView::Diff { root: a, rel: b, kind: c, line: Some(n) }), '\t') == seq![
            "diff"@,
            a,
            b,
            c,
            digits(n as nat),
        ],
        split(payload(RequestView::Show { root: a, spec: b, path: Some(c) }), '\t') == seq![
            "show"@,
            a,
            b,
            c,
        ],
        split(
            payload(
                RequestView::RefDiff { root: a, old_spec: b, new_spec: c, rel: e, old_rel: Some(a) },
            ),
            '\t',
        ) == seq!["refdiff"@, a, b, c, e, a],
{
    reveal_strlit("file");
    reveal_strlit("diff");
    reveal_strlit("show");
    reveal_strlit("refdiff");
    law_digits_read_back(n as nat);
    let d = digits(n as nat);
    assert(!has_char(d, '\t')) by {
        if has_char(d, '\t') {
            let i = choose|i: int| 0 <= i < d.len() && d[i] == '\t';
            assert(is_digit(d[i]));
        }
    }
    law_split_of_join(seq!["file"@, a], '\t');
    law_split_of_join(seq!["diff"@, a, b, c], '\t');
    law_split_of_join(seq!["diff"@, a, b, c, d], '\t');
    law_split_of_join(seq!["show"@, a, b, c], '\t');
    law_split_of_join(seq!["refdiff"@, a, b, c, e, a], '\t');
}

// ---- Clicks ----

proof fn lemma_unit_at(row: SelectableView, to: int, from: int, k: int)
    requires
        0 <= from <= k < to <= row.units.len(),
        forall|i: int|
            0 <= i < row.units.len() ==> (#[trigger] row.units[i]).cell_start == i
                && row.units[i].cell_end == i + 1,
    ensures
        unit_at(row.units, from, to, 0, k) == k,
    decreases k - from,
{
    assert(row.units[from].cell_start == from);
    if from < k {
        lemma_unit_at(row, to, from + 1, k);
    }
}

/// In a row that is drawn in one piece, one column for each character, the column of a
/// character hits that character: what is before it and what is behind it.
pub proof fn law_columns_hit_their_characters(row: SelectableView, f: VisualFragment, x: int, k: int)
    requires
        f.unit_start == 0,
        f.unit_end == row.units.len(),
        forall|i: int|
            0 <= i < row.units.len() ==> (#[trigger] row.units[i]).cell_start == i
                && row.units[i].cell_end == i + 1,
        0 <= x,
        0 <= k,
    ensures
        k < row.units.len() ==> hit_bytes(row, f, x, x + k) == Some(
            (row.units[k].raw_start as int, row.units[k].raw_end as int),
        ),
        row.units.len() > 0 && k >= row.units.len() ==> hit_bytes(row, f, x, x + k) == Some(
            (
                row.units[row.units.len() - 1].raw_end as int,
                row.units[row.units.len() - 1].raw_end as int,
            ),
        ),
{
    let n = row.units.len() as int;
    if k < n {
        lemma_unit_at(row, n, 0, k);
    } else {
        lemma_beyond(row, 0, k);
    }
}

proof fn lemma_beyond(row: SelectableView, from: int, k: int)
    requires
        0 <= from <= row.units.len() <= k,
        forall|i: int|
            0 <= i < row.units.len() ==> (#[trigger] row.units[i]).cell_start == i
                && row.units[i].cell_end == i + 1,
    ensures
        unit_at(row.units, from, row.units.len() as int, 0, k) == row.units.len(),
    decreases row.units.len() - from,
{
    if from < row.units.len() {
        assert(row.units[from].cell_end == from + 1);
        lemma_beyond(row, from + 1, k);
    }
}

// ---- Comments ----

/// What is typed stands where the caret was, and the caret behind it; what is around it stays.
pub proof fn law_typed_letters_are_inserted(d: DraftView, at: int, c: char)
    requires
        d.at == Some(at),
        0 <= at <= d.input.len(),
        c != '\r',
    ensures
        ({
            let next = draft_typed(
                d,
                Key { code: KeyCode::Char(c), modifiers: no_modifiers(), press: true },
            );
            &&& next.input == d.input.take(at) + seq![c] + d.input.skip(at)
            &&& next.at == Some(at + 1)
            &&& next.pending == d.pending
        }),
{
    let s = seq![c];
    assert(unified(s, 1) =~= Seq::empty());
    assert(unified(s, 0) =~= s);
}

/// A comment that is saved comes behind the others with what was written, and the selection
/// and the draft are gone; a blank one is not saved, and the draft stays.
pub proof fn law_saved_comments_come_last(p: PreviewView, draft: DraftView, now: u64)
    requires
        p.draft == Some(draft),
    ensures
        trim(draft.input, Class::White).len() > 0 ==> {
            let next = comment_saved(p, now).0;
            &&& next.comments.len() == p.comments.len() + 1
            &&& next.comments.drop_last() == p.comments
            &&& next.comments.last().body == draft.input
            &&& next.comments.last().pending == draft.pending
            &&& next.draft is None
            &&& next.doc matches Some(doc) ==> doc.selection is None
        },
        trim(draft.input, Class::White).len() == 0 ==> comment_saved(p, now).0.comments == p.comments
            && comment_saved(p, now).0.draft == p.draft,
{
    if trim(draft.input, Class::White).len() > 0 {
        assert(comment_saved(p, now).0.comments.drop_last() =~= p.comments);
    }
}

/// Copying hands on exactly the selected text, or the text of the comments; nothing is
/// handed on where there is none.
pub proof fn law_copies_are_what_is_selected(p: PreviewView, d: DocView, now: u64)
    requires
        p.doc == Some(d),
    ensures
        selected_words(d) matches Some(text) ==> selection_copied(p, now) == (
            p,
            seq![EffectView::CopySelection(text)],
        ),
        selected_words(d) is None ==> selection_copied(p, now).1.len() == 0,
        p.comments.len() > 0 ==> comments_copied(p, now) == (
            p,
            seq![EffectView::CopyComments(formatted(p.comments))],
        ),
        p.comments.len() == 0 ==> comments_copied(p, now).1.len() == 0,
        copy_ended(p, true, now).comments.len() == 0,
        copy_ended(p, false, now).comments == p.comments,
{
}

proof fn lemma_unmarked(s: Seq<char>)
    requires
        !has_char(s, '\x1b'),
    ensures
        unmarked(s, 0) == s,
{
    reveal_strlit("\x1b[200~");
    reveal_strlit("\x1b[201~");
    lemma_find_seq(s, paste_start(), 0);
    lemma_find_seq(s, paste_end(), 0);
    let a = crate::text::find_seq(s, paste_start(), 0);
    let b = crate::text::find_seq(s, paste_end(), 0);
    if a >= 0 {
        assert(s.subrange(a, a + paste_start().len())[0] == paste_start()[0]);
        assert(s[a] == '\x1b');
    }
    if b >= 0 {
        assert(s.subrange(b, b + paste_end().len())[0] == paste_end()[0]);
        assert(s[b] == '\x1b');
    }
    assert(next_marker(s, 0) < 0);
    assert(s.skip(0) =~= s);
}

/// The comments are sent to the one agent there is, as pasted text: all of their text between
/// the two marks of a paste. Of several agents none is written to before one is chosen.
pub proof fn law_comments_reach_the_agent(p: PreviewView, agents: Seq<AgentView>, now: u64)
    requires
        !has_char(formatted(p.comments), '\x1b'),
    ensures
        agents.len() == 1 ==> agents_found(p, Some(agents), now) == (
            p,
            seq![
                EffectView::SendComments(
                    agents[0].pane_id,
                    "\x1b[200~"@ + formatted(p.comments) + "\x1b[201~"@,
                ),
            ],
        ),
        agents.len() != 1 ==> agents_found(p, Some(agents), now).1.len() == 0,
        agents.len() > 1 ==> (agents_found(p, Some(agents), now).0.agent_picker matches Some(picker)
            && picker.agents == agents && picker.selected == 0),
{
    lemma_unmarked(formatted(p.comments));
}

proof fn lemma_pane_at(panes: Seq<AgentPaneView>, id: Seq<char>, i: int)
    requires
        0 <= i <= panes.len(),
    ensures
        i <= pane_at(panes, id, i) <= panes.len(),
        pane_at(panes, id, i) < panes.len() ==> panes[pane_at(panes, id, i)].pane_id == id,
        forall|k: int| i <= k < pane_at(panes, id, i) ==> (#[trigger] panes[k]).pane_id != id,
    decreases panes.len() - i,
{
    if i < panes.len() && panes[i].pane_id != id {
        lemma_pane_at(panes, id, i + 1);
    }
}

/// Whether a pane of the tab with this id runs an agent, and is not the owner's.
pub open spec fn runs_agent(
    panes: Seq<AgentPaneView>,
    tab: Seq<char>,
    owner: Seq<char>,
    id: Seq<char>,
) -> bool {
    exists|k: int|
        0 <= k < panes.len() && (#[trigger] panes[k]).tab_id == tab && panes[k].pane_id != owner
            && panes[k].agent is Some && panes[k].pane_id == id
}

/// Agents are looked for in the tab of the sidebar alone: each pane there that runs one, but
/// for the sidebar's own, is listed.
pub proof fn law_agents_are_in_the_same_tab(panes: Seq<AgentPaneView>, tab: Seq<char>, owner: Seq<char>)
    ensures
        forall|k: int|
            0 <= k < panes.len() && (#[trigger] panes[k]).tab_id == tab && panes[k].pane_id != owner
                && panes[k].agent is Some ==> exists|j: int|
                0 <= j < agents_in(panes, tab, owner).len() && (#[trigger] agents_in(
                    panes,
                    tab,
                    owner,
                )[j]).pane_id == panes[k].pane_id,
        forall|j: int|
            0 <= j < agents_in(panes, tab, owner).len() ==> runs_agent(
                panes,
                tab,
                owner,
                (#[trigger] agents_in(panes, tab, owner)[j]).pane_id,
            ),
    decreases panes.len(),
{
    let all = agents_in(panes, tab, owner);
    if panes.len() > 0 {
        let before = panes.drop_last();
        law_agents_are_in_the_same_tab(before, tab, owner);
        let less = agents_in(before, tab, owner);
        assert forall|k: int|
            0 <= k < panes.len() && (#[trigger] panes[k]).tab_id == tab && panes[k].pane_id != owner
                && panes[k].agent is Some implies exists|j: int|
            0 <= j < all.len() && (#[trigger] all[j]).pane_id == panes[k].pane_id by {
            if k < before.len() {
                assert(before[k] == panes[k]);
                let j = choose|j: int|
                    0 <= j < less.len() && (#[trigger] less[j]).pane_id == before[k].pane_id;
                assert(all[j] == less[j]);
            } else {
                assert(all[all.len() - 1].pane_id == panes[k].pane_id);
            }
        }
        assert forall|j: int| 0 <= j < all.len() implies runs_agent(
            panes,
            tab,
            owner,
            (#[trigger] all[j]).pane_id,
        ) by {
            if j < less.len() {
                assert(all[j] == less[j]);
                assert(runs_agent(before, tab, owner, less[j].pane_id));
                let k = choose|k: int|
                    0 <= k < before.len() && (#[trigger] before[k]).tab_id == tab && before[k].pane_id
                        != owner && before[k].agent is Some && before[k].pane_id == less[j].pane_id;
                assert(panes[k] == before[k]);
            } else {
                let last = panes[panes.len() - 1];
                assert(last.tab_id == tab);
            }
        }
    }
}

/// The tab is that of the sidebar's pane; without that pane there are no agents.
pub proof fn law_agents_need_the_sidebar(panes: Seq<AgentPaneView>, owner: Seq<char>, at: int)
    requires
        0 <= at < panes.len(),
        panes[at].pane_id == owner,
        forall|k: int| 0 <= k < at ==> (#[trigger] panes[k]).pane_id != owner,
    ensures
        agents_near(panes, owner) == Ok::<Seq<AgentView>, Seq<char>>(
            agents_in(panes, panes[at].tab_id, owner),
        ),
        agents_near(panes.take(at), owner) is Err,
{
    lemma_pane_at(panes, owner, 0);
    let i = pane_at(panes, owner, 0);
    if i < at {
        assert(panes[i].pane_id != owner);
    }
    if i > at {
        assert(panes[at].pane_id != owner);
    }
    let less = panes.take(at);
    lemma_pane_at(less, owner, 0);
    let j = pane_at(less, owner, 0);
    if j < less.len() {
        assert(panes[j] == less[j]);
    }
}

/// An agent is called by the title of its pane, unless that is blank.
pub proof fn law_agents_are_called_by_their_title(p: AgentPaneView, title: Seq<char>)
    requires
        p.title == Some(title),
        trim(title, Class::White).len() > 0,
    ensures
        agent_label(p) == title,
        agent_label(AgentPaneView { title: None, terminal_title_stripped: Some(title), ..p }) == title,
        agent_label(
            AgentPaneView {
                title: None,
                terminal_title_stripped: None,
                display_agent: Some(title),
                ..p
            },
        ) == title,
{
}

// ---- Panes ----

proof fn lemma_own_pane(panes: Seq<PeerView>, id: Seq<char>, i: int, at: int)
    requires
        0 <= i <= at < panes.len(),
        panes[at].pane_id == Some(id),
        forall|k: int| i <= k < at ==> (#[trigger] panes[k]).pane_id != Some(id),
    ensures
        own_pane(panes, id, i) == at,
    decreases at - i,
{
    if i < at {
        assert(panes[i].pane_id != Some(id));
        lemma_own_pane(panes, id, i + 1, at);
    }
}

proof fn lemma_peer_at(panes: Seq<PeerView>, owner: Seq<char>, tab: Seq<char>, i: int)
    requires
        0 <= i <= panes.len(),
    ensures
        i <= peer_at(panes, owner, tab, i) <= panes.len(),
        peer_at(panes, owner, tab, i) < panes.len() ==> {
            let p = panes[peer_at(panes, owner, tab, i)];
            p.focused && p.pane_id != Some(owner) && p.tab_id == Some(tab)
        },
        forall|k: int|
            i <= k < peer_at(panes, owner, tab, i) ==> !((#[trigger] panes[k]).focused
                && panes[k].pane_id != Some(owner) && panes[k].tab_id == Some(tab)),
    decreases panes.len() - i,
{
    if i < panes.len() && !(panes[i].focused && panes[i].pane_id != Some(owner) && panes[i].tab_id
        == Some(tab)) {
        lemma_peer_at(panes, owner, tab, i + 1);
    }
}

/// The pane that the focus goes back to is one in the sidebar's tab that has it, and not the
/// sidebar's own.
pub proof fn law_focus_goes_back_to_a_peer(panes: Seq<PeerView>, owner: Seq<char>, at: int, tab: Seq<char>)
    requires
        0 <= at < panes.len(),
        panes[at].pane_id == Some(owner),
        panes[at].tab_id == Some(tab),
        forall|k: int| 0 <= k < at ==> (#[trigger] panes[k]).pane_id != Some(owner),
    ensures
        peer_of(panes, owner) matches Some(id) ==> exists|k: int|
            0 <= k < panes.len() && (#[trigger] panes[k]).pane_id == Some(id) && panes[k].focused
                && panes[k].tab_id == Some(tab) && id != owner,
        (exists|k: int|
            0 <= k < panes.len() && (#[trigger] panes[k]).focused && panes[k].tab_id == Some(tab)
                && panes[k].pane_id is Some && panes[k].pane_id != Some(owner)) && (forall|k: int|
            0 <= k < panes.len() ==> (#[trigger] panes[k]).pane_id is Some) ==> peer_of(panes, owner) is Some,
{
    lemma_own_pane(panes, owner, 0, at);
    lemma_peer_at(panes, owner, tab, 0);
}

/// A viewer that said within the last seconds that it is there is not gone, and one that did
/// not is.
pub proof fn law_viewers_are_gone_when_silent(pane: PeerView, stamp: nat, now: u64, stale: u64)
    requires
        stamp <= now,
        pane.viewer_stamp == Some(Some(digits(stamp))),
    ensures
        is_stale(pane, now, stale) == (now - stamp > stale),
        is_stale(PeerView { viewer_stamp: None, ..pane }, now, stale),
{
    crate::scan::law_digits_read_back(stamp);
    assert(crate::scan::is_digit(digits(stamp)[0]));
}

// ---- Rows on the screen ----

/// The rows on the screen are those of the document from where it is scrolled to, as many as
/// there is room for and as there are.
pub proof fn law_screen_shows_from_the_scroll(
    d: DocView,
    ranges: Seq<TextSelection>,
    styles: PreviewHighlightStyles,
    marked: Option<usize>,
    width: u16,
    height: u16,
    i: int,
)
    requires
        0 <= d.scroll,
        d.visual_width == 0,
    ensures
        ({
            let rows = drawn_rows(d, ranges, styles, marked, width, height);
            &&& rows.len() == (if d.scroll + height <= d.lines.len() {
                height as int
            } else if d.scroll < d.lines.len() {
                d.lines.len() - d.scroll
            } else {
                0
            })
            &&& 0 <= i < rows.len() ==> rows[i] == drawn_row(
                d,
                d.scroll + i,
                ranges,
                styles,
                marked,
                width,
            )
        }),
{
}

/// The rows of a file show the numbers of their lines, from 1 on, right before the text and
/// all to the same column.
pub proof fn law_rows_are_numbered(
    d: DocView,
    ranges: Seq<TextSelection>,
    styles: PreviewHighlightStyles,
    marked: Option<usize>,
    width: u16,
    k: int,
)
    requires
        d.numbered,
        d.visual_width == 0,
        0 <= k < d.lines.len(),
        digits((k + 1) as nat).len() <= digits(d.lines.len()).len(),
    ensures
        ({
            let text = drawn_row(d, k, ranges, styles, marked, width).spans[0].text;
            let n = digits((k + 1) as nat);
            &&& text.len() == digits(d.lines.len()).len() + 1
            &&& text.skip(text.len() - n.len() - 1) == n + seq![' ']
            &&& forall|i: int| 0 <= i < text.len() - n.len() - 1 ==> text[i] == ' '
        }),
{
    let text = number_text((k + 1) as nat, d.lines.len());
    let n = digits((k + 1) as nat);
    let row = drawn_row(d, k, ranges, styles, marked, width);
    assert(row.spans[0].text == text);
    assert(text.skip(text.len() - n.len() - 1) =~= n + seq![' ']);
}

/// Keys scroll by a row or a page, to the top and to the last row, and never beyond these; the
/// wheel scrolls by three rows.
pub proof fn law_scrolling_stays_in_the_document(d: DocView, page: usize)
    requires
        d.visual_width == 0,
        d.lines.len() > 0,
        0 <= d.scroll < d.lines.len(),
    ensures
        d.scroll + 1 < d.lines.len() ==> key_scroll(d, KeyCode::Down, page) == d.scroll + 1,
        d.scroll + 1 == d.lines.len() ==> key_scroll(d, KeyCode::Down, page) == d.scroll,
        d.scroll > 0 ==> key_scroll(d, KeyCode::Up, page) == d.scroll - 1,
        d.scroll == 0 ==> key_scroll(d, KeyCode::Up, page) == 0,
        d.scroll + page < d.lines.len() ==> key_scroll(d, KeyCode::PageDown, page) == d.scroll + page,
        d.scroll >= page ==> key_scroll(d, KeyCode::PageUp, page) == d.scroll - page,
        key_scroll(d, KeyCode::Home, page) == 0,
        key_scroll(d, KeyCode::End, page) == d.lines.len() - 1,
        d.scroll + 3 < d.lines.len() ==> wheel_scroll(d, MouseKind::ScrollDown) == d.scroll + 3,
        d.scroll >= 3 ==> wheel_scroll(d, MouseKind::ScrollUp) == d.scroll - 3,
        0 <= key_scroll(d, KeyCode::PageDown, page) < d.lines.len(),
        0 <= key_scroll(d, KeyCode::PageUp, page) < d.lines.len(),
{
}

/// A row that is asked for comes into the middle of the screen, as far as there are rows
/// above it and below.
pub proof fn law_centred_rows_are_in_the_middle(d: DocView, row: int, height: u16)
    requires
        d.visual_width == 0,
        height >= 1,
        0 <= row < d.lines.len(),
    ensures
        ({
            let top = centered(d, row, height).scroll;
            &&& top <= row < top + height
            &&& row >= height / 2 && row - height / 2 + height <= d.lines.len() ==> row - top == height
                / 2
            &&& d.lines.len() >= height ==> top + height <= d.lines.len()
        }),
{
}

/// A drag selects from where it began to behind what it hit on the way down, and to before what
/// it hit on the way up, where all rows between can be selected.
pub proof fn law_drags_select_what_they_pass(d: DocView, s: TextSelection, hit: HitPoint)
    requires
        d.selection == Some(s),
        hit.before.row == hit.after.row,
        hit.before.row < d.sources.len(),
        s.anchor.row < d.sources.len(),
        forall|k: int| 0 <= k < d.sources.len() ==> (#[trigger] d.sources[k]) is Some,
    ensures
        dragged(d, hit).selection matches Some(t) && t.anchor == s.anchor && t.cursor == (if hit.before.row
            < s.anchor.row || (hit.before.row == s.anchor.row && hit.before.byte < s.anchor.byte) {
            hit.before
        } else {
            hit.after
        }),
{
    let c = if hit.before.row < s.anchor.row || (hit.before.row == s.anchor.row && hit.before.byte
        < s.anchor.byte) {
        hit.before
    } else {
        hit.after
    };
    if c.row > s.anchor.row {
        lemma_none_blocked(d.sources, s.anchor.row + 1, c.row + 1);
    } else if c.row < s.anchor.row {
        lemma_none_blocked_back(d.sources, c.row as int, s.anchor.row as int);
    }
}

proof fn lemma_none_blocked(sources: Seq<Option<SelectableView>>, from: int, to: int)
    requires
        0 <= from <= to <= sources.len(),
        forall|k: int| 0 <= k < sources.len() ==> (#[trigger] sources[k]) is Some,
    ensures
        first_blocked(sources, from, to) == to,
    decreases to - from,
{
    if from < to {
        assert(sources[from] is Some);
        lemma_none_blocked(sources, from + 1, to);
    }
}

proof fn lemma_none_blocked_back(sources: Seq<Option<SelectableView>>, from: int, to: int)
    requires
        0 <= from <= to <= sources.len(),
        forall|k: int| 0 <= k < sources.len() ==> (#[trigger] sources[k]) is Some,
    ensures
        last_blocked(sources, from, to) == from - 1,
    decreases to - from,
{
    if from < to {
        assert(sources[to - 1] is Some);
        lemma_none_blocked_back(sources, from, to - 1);
    }
}

// ---- Dragging over gaps ----

/// A drag downwards ends behind the text of the last row before the first that cannot be
/// selected, and one upwards at the start of the row behind the last such.
pub proof fn law_drags_end_at_gaps(
    sources: Seq<Option<SelectableView>>,
    anchor: TextPoint,
    hit: HitPoint,
    gap: int,
)
    requires
        hit.before.row == hit.after.row,
        hit.after.row < sources.len(),
        anchor.row < sources.len(),
        0 <= gap < sources.len(),
        sources[gap] is None,
        sources.len() <= usize::MAX,
    ensures
        anchor.row < gap <= hit.after.row && (forall|k: int|
            anchor.row <= k < gap ==> (#[trigger] sources[k]) is Some) ==> ({
            let p = dragged_to(sources, anchor, hit);
            p.row == gap - 1 && p.byte == utf8_len(sources[gap - 1]->0.raw) as usize
        }),
        hit.before.row <= gap < anchor.row && (forall|k: int|
            gap < k <= anchor.row ==> (#[trigger] sources[k]) is Some) ==> ({
            let p = dragged_to(sources, anchor, hit);
            p.row == gap + 1 && p.byte == 0
        }),
{
    if anchor.row < gap <= hit.after.row && (forall|k: int|
        anchor.row <= k < gap ==> (#[trigger] sources[k]) is Some) {
        lemma_blocked_at(sources, anchor.row + 1, gap, hit.after.row + 1);
    }
    if hit.before.row <= gap < anchor.row && (forall|k: int|
        gap < k <= anchor.row ==> (#[trigger] sources[k]) is Some) {
        lemma_blocked_back_at(sources, hit.before.row as int, gap, anchor.row as int);
    }
}

proof fn lemma_blocked_at(sources: Seq<Option<SelectableView>>, from: int, gap: int, to: int)
    requires
        0 <= from <= gap < to <= sources.len(),
        sources[gap] is None,
        forall|k: int| from <= k < gap ==> (#[trigger] sources[k]) is Some,
    ensures
        first_blocked(sources, from, to) == gap,
    decreases gap - from,
{
    if from < gap {
        assert(sources[from] is Some);
        lemma_blocked_at(sources, from + 1, gap, to);
    }
}

proof fn lemma_blocked_back_at(sources: Seq<Option<SelectableView>>, from: int, gap: int, to: int)
    requires
        0 <= from <= gap < to <= sources.len(),
        sources[gap] is None,
        forall|k: int| gap < k < to ==> (#[trigger] sources[k]) is Some,
    ensures
        last_blocked(sources, from, to) == gap,
    decreases to - gap,
{
    if gap < to - 1 {
        assert(sources[to - 1] is Some);
        lemma_blocked_back_at(sources, from, gap, to - 1);
    }
}

// ---- The caret of a draft ----

/// The caret goes over one grapheme at a time, to the right over the first behind it and to the
/// left over the last before it, and stays where there is none.
pub proof fn law_caret_goes_over_one_grapheme(s: Seq<char>, at: int)
    ensures
        ({
            let behind = clusters(s.skip(at));
            let before = clusters(s.take(at));
            &&& behind.len() > 0 ==> step_right(s, at) - at == behind.first().len()
            &&& behind.len() == 0 ==> step_right(s, at) == at
            &&& before.len() > 0 ==> at - step_left(s, at) == before.last().len()
            &&& before.len() == 0 ==> step_left(s, at) == at
        }),
{
}

/// A line begins behind the line feed before it, and the first at the start of the text; the
/// caret stays where there is no line above or below it.
pub proof fn law_lines_begin_behind_line_feeds(a: Seq<char>, b: Seq<char>, at: int)
    requires
        !has_char(b, '\n'),
        0 <= at <= b.len(),
    ensures
        line_begin(b, at) == 0,
        line_begin(a + seq!['\n'] + b, a.len() + 1 + at) == a.len() + 1,
        vertical(b, at, false) == at,
        vertical(b, at, true) == at,
        vertical(a + seq!['\n'] + b, a.len() + 1 + at, true) == a.len() + 1 + at,
{
    let s = a + seq!['\n'] + b;
    lemma_no_feed(b, at);
    lemma_last_feed(s, a.len() as int, a.len() + 1 + at);
    lemma_find_char_unique(b, '\n', at, b.len() as int);
    lemma_find_char_unique(s, '\n', a.len() + 1 + at, s.len() as int);
}

proof fn lemma_no_feed(s: Seq<char>, to: int)
    requires
        0 <= to <= s.len(),
        forall|i: int| 0 <= i < to ==> s[i] != '\n',
    ensures
        rfind_char(s, '\n', to) == -1,
    decreases to,
{
    if to > 0 {
        lemma_no_feed(s, to - 1);
    }
}

proof fn lemma_last_feed(s: Seq<char>, at: int, to: int)
    requires
        0 <= at < to <= s.len(),
        s[at] == '\n',
        forall|i: int| at < i < to ==> s[i] != '\n',
    ensures
        rfind_char(s, '\n', to) == at,
    decreases to - at,
{
    if to - 1 > at {
        lemma_last_feed(s, at, to - 1);
    }
}

// ---- Keys over a draft and a choice ----

/// The key that gives up drops a draft and keeps the saved comments; the key that ends a line
/// saves it only without the keys that make it a line feed.
pub proof fn law_escape_drops_the_draft(p: PreviewView, now: u64)
    requires
        p.draft is Some,
    ensures
        ({
            let next = draft_key_step(
                p,
                Key { code: KeyCode::Esc, modifiers: no_modifiers(), press: true },
                now,
            ).0;
            next.draft is None && next.comments == p.comments
        }),
        draft_key_step(p, Key { code: KeyCode::Enter, modifiers: no_modifiers(), press: true }, now)
            == comment_saved(p, now),
        forall|c: char|
            (#[trigger] draft_key_step(
                p,
                Key { code: KeyCode::Char(c), modifiers: no_modifiers(), press: true },
                now,
            )).0.comments == p.comments,
{
}

/// Comments are sent to the agent that a digit counts to, or to the one that is chosen; a digit
/// beyond the agents sends nothing, and the key that gives up closes the choice.
pub proof fn law_digits_choose_agents(p: PreviewView, picker: PickerView, c: char)
    requires
        p.agent_picker == Some(picker),
        '1' <= c <= '9',
    ensures
        ({
            let n = (c as u32) - ('1' as u32);
            let (next, effects) = picker_key_step(
                p,
                Key { code: KeyCode::Char(c), modifiers: no_modifiers(), press: true },
            );
            &&& next == p
            &&& n < picker.agents.len() ==> effects == seq![sent_to(p, picker.agents[n])]
            &&& n >= picker.agents.len() ==> effects.len() == 0
        }),
        0 <= picker.selected < picker.agents.len() ==> picker_key_step(
            p,
            Key { code: KeyCode::Enter, modifiers: no_modifiers(), press: true },
        ) == (p, seq![sent_to(p, picker.agents[picker.selected])]),
        picker_key_step(p, Key { code: KeyCode::Esc, modifiers: no_modifiers(), press: true }) == (
            PreviewView { agent_picker: None, ..p },
            Seq::<EffectView>::empty(),
        ),
        picker_key_step(
            p,
            Key { code: KeyCode::Char('0'), modifiers: no_modifiers(), press: true },
        ).1.len() == 0,
{
}

/// Agents are looked for only where there are comments to send and a sidebar to ask; nothing is
/// lost meanwhile.
pub proof fn law_agents_are_looked_for_with_comments(p: PreviewView, owner: Seq<char>, now: u64)
    requires
        p.owner == Some(owner),
    ensures
        p.comments.len() > 0 ==> agent_wanted(p, now) == (p, seq![EffectView::ListAgents(owner)]),
        p.comments.len() == 0 ==> agent_wanted(p, now).1.len() == 0 && agent_wanted(p, now).0.notice is Some,
        agent_wanted(p, now).0.comments == p.comments,
{
}

/// A diff opens at its first change, but at its top where unchanged lines are hidden.
pub proof fn law_diffs_open_at_their_first_change(
    d: DocView,
    root: Seq<char>,
    rel: Seq<char>,
    kind: Seq<char>,
    now: u64,
)
    ensures
        request_prepared(d, RequestView::Diff { root, rel, kind, line: None }, true, now) == d,
        request_prepared(d, RequestView::Diff { root, rel, kind, line: None }, false, now)
            == first_change_requested(d),
{
}

/// The next marker is the nearer of the next that begins and the next that ends pasted text.
pub proof fn law_nearer_marker_comes_next(s: Seq<char>, from: int)
    ensures
        ({
            let begin = find_seq(s, paste_start(), from);
            let end = find_seq(s, paste_end(), from);
            let next = next_marker(s, from);
            &&& begin >= 0 ==> 0 <= next <= begin
            &&& end >= 0 ==> 0 <= next <= end
            &&& begin < 0 && end < 0 ==> next < 0
            &&& next == begin || next == end
        }),
{
}

/// The column at which a character stands counts the graphemes before it; behind the end it
/// counts all.
pub proof fn law_columns_count_graphemes(raw: Seq<char>, k: int, beyond: int)
    requires
        0 <= k <= raw.len(),
        beyond >= utf8_len(raw),
    ensures
        column_of(raw, utf8_len(raw.take(k)) as int) == clusters(raw.take(k)).len(),
        column_of(raw, beyond) == clusters(raw).len(),
{
    let n = raw.len() as int;
    assert(raw.take(n) =~= raw);
    lemma_char_found(raw, k);
    lemma_char_found(raw, n);
    if k < n {
        lemma_len_of_take(raw, k, n);
    }
}

/// When the comments on a file are cleared, as many are told of as there were, and all others
/// stay.
pub proof fn law_clearing_counts_the_comments(p: PreviewView, current: RequestView, now: u64)
    requires
        p.current == Some(current),
    ensures
        ({
            let n = count_for(p.comments, current);
            let next = comments_cleared(p, now);
            &&& next.comments == without_file(p.comments, current)
            &&& next.notice matches Some((text, _)) && text == (if n == 0 {
                "No comments in this file"@
            } else if n == 1 {
                "Cleared 1 comment"@
            } else {
                "Cleared "@ + digits(n) + " comments"@
            })
        }),
{
    reveal_strlit("Cleared ");
    reveal_strlit(" comment");
    reveal_strlit(" comments");
    reveal_strlit("Cleared 1 comment");
    reveal_strlit("");
    reveal_strlit("s");
    let n = count_for(p.comments, current);
    if n == 1 {
        assert(digits(1nat) =~= seq!['1']);
        assert("Cleared "@ + digits(1nat) + " comment"@ + ""@ =~= "Cleared 1 comment"@);
    } else if n > 1 {
        assert("Cleared "@ + digits(n) + " comment"@ + "s"@ =~= "Cleared "@ + digits(n) + " comments"@);
    }
}

} // verus!
