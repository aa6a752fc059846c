//! What source control lists, and what is done to what.

use vstd::prelude::*;

use crate::change_tree::{row_depth, RowView};
use crate::git::{DiffStat, EntryView, RefFileView};
use crate::input::{no_modifiers, Key, KeyCode, Platform};
use crate::laws::text::lemma_trim_edges;
use crate::paths::{native, under_dir};
use crate::scan::{
    digits, is_digit, is_white, law_digits_read_back, law_order_is_irreflexive, lex_less, number,
    trim, trim_start, words, Class,
};
use crate::scm_app::actions::{
    diff_opened, has_files, line_opened, ref_at, ref_diff_opened, ref_toggled, with_toggled,
};
use crate::scm_app::app::{
    changes, changes_section, drawers_rows, entry_at, line_rows, listed, panel, repo_rows,
    repos_rows, staged_section, AppView, EffectView,
};
use crate::scm_app::chrome::sync_text;
use crate::scm_app::drawers::{hash_at, is_hash, pointed_at, Drawer, DrawerRefView};
use crate::scm_app::items::{file_notes, last_name, stat_spans};
use crate::scm_app::keys::{command_key, discard_begun, message_typed};
use crate::scm_app::layout::{
    lies_below, nav_target, outside_sources, parent_row, row_open, shown_rows, stat_below, Row,
    ScmFileView,
};
use crate::scm_app::menus::{
    asked_command, file_action, git_command, git_run, line_action, picker_opened, ref_name,
};
use crate::scm_app::operations::{
    all_begun, commit_begun, commit_ended, directory_begun, first_from, last_of_all, op_begun,
    suggestion_ended, suggestion_read, sync_begun, with_section,
};
use crate::scm_app::overlay::MenuAction;
use crate::scm_app::state::RepoView;
use crate::text::{after, has_char, lemma_find_char_unique, rfind_char};
use crate::viewer::request::{payload, RequestView};

verus! {

// ---- Rows ----

/// Whether a row stands for a changed file or directory.
pub open spec fn of_change(r: Row) -> bool {
    r is Staged || r is Unstaged
}

/// Whether a change of a repository has a row: neither the repository nor the section that it
/// belongs to is folded.
pub open spec fn shown_change(r: RepoView, k: usize, row: Row) -> bool {
    match row {
        Row::Staged(repo, i) => repo == k && !r.collapsed && !r.staged_collapsed && r.status.staged.len()
            > 0 && i < r.staged_rows.len(),
        Row::Unstaged(repo, i) => repo == k && !r.collapsed && !r.changes_collapsed && i
            < r.changes_rows.len(),
        _ => false,
    }
}

proof fn lemma_in_sum(a: Seq<Row>, b: Seq<Row>, r: Row)
    ensures
        (a + b).contains(r) == (a.contains(r) || b.contains(r)),
{
    let s = a + b;
    if a.contains(r) {
        let i = choose|i: int| 0 <= i < a.len() && a[i] == r;
        assert(s[i] == r);
    }
    if b.contains(r) {
        let i = choose|i: int| 0 <= i < b.len() && b[i] == r;
        assert(s[a.len() + i] == r);
    }
    if s.contains(r) {
        let i = choose|i: int| 0 <= i < s.len() && s[i] == r;
        if i < a.len() {
            assert(a[i] == r);
        } else {
            assert(b[i - a.len()] == r);
        }
    }
}

proof fn lemma_repo_rows(r: RepoView, k: usize, multi: bool, row: Row)
    requires
        of_change(row),
        r.staged_rows.len() <= usize::MAX,
        r.changes_rows.len() <= usize::MAX,
    ensures
        repo_rows(r, k, multi).contains(row) == shown_change(r, k, row),
{
    reveal(staged_section);
    reveal(changes_section);
    let none = Seq::<Row>::empty();
    let head = if multi {
        seq![Row::RepoHeader(k)]
    } else {
        none
    };
    let sep = if multi {
        seq![Row::RepoSeparator]
    } else {
        none
    };
    let tools = if multi {
        seq![Row::Message(k), Row::Commit(k)]
    } else {
        none
    };
    let a = staged_section(r, k);
    let b = changes_section(r, k);
    let body = if r.collapsed {
        none
    } else {
        tools + a + b
    };
    assert(repo_rows(r, k, multi) =~= head + body + sep);
    lemma_in_sum(head + body, sep, row);
    lemma_in_sum(head, body, row);
    lemma_in_sum(tools + a, b, row);
    lemma_in_sum(tools, a, row);
    assert(!head.contains(row) && !sep.contains(row) && !tools.contains(row));
    let x = Seq::new(r.staged_rows.len(), |i: int| Row::Staged(k, i as usize));
    let y = Seq::new(r.changes_rows.len(), |i: int| Row::Unstaged(k, i as usize));
    lemma_in_sum(seq![Row::StagedHeader(k)], x, row);
    lemma_in_sum(seq![Row::ChangesHeader(k)], y, row);
    lemma_in_sum(seq![Row::StagedHeader(k)], none, row);
    lemma_in_sum(seq![Row::ChangesHeader(k)], none, row);
    assert(!seq![Row::StagedHeader(k)].contains(row));
    assert(!seq![Row::ChangesHeader(k)].contains(row));
    match row {
        Row::Staged(repo, i) => {
            if x.contains(row) {
                let j = choose|j: int| 0 <= j < x.len() && x[j] == row;
                assert(x[j] == Row::Staged(k, j as usize));
            }
            if repo == k && i < r.staged_rows.len() {
                assert(x[i as int] == row);
            }
            assert(!y.contains(row));
        },
        Row::Unstaged(repo, i) => {
            if y.contains(row) {
                let j = choose|j: int| 0 <= j < y.len() && y[j] == row;
                assert(y[j] == Row::Unstaged(k, j as usize));
            }
            if repo == k && i < r.changes_rows.len() {
                assert(y[i as int] == row);
            }
            assert(!x.contains(row));
        },
        _ => {},
    }
}

proof fn lemma_repos_rows(repos: Seq<RepoView>, multi: bool, n: int, row: Row)
    requires
        of_change(row),
        0 <= n <= repos.len() <= usize::MAX,
        forall|k: int|
            0 <= k < repos.len() ==> (#[trigger] repos[k]).staged_rows.len() <= usize::MAX
                && repos[k].changes_rows.len() <= usize::MAX,
    ensures
        repos_rows(repos, multi, n).contains(row) == (exists|k: int|
            0 <= k < n && shown_change(#[trigger] repos[k], k as usize, row)),
    decreases n,
{
    if n > 0 {
        lemma_repos_rows(repos, multi, n - 1, row);
        lemma_in_sum(
            repos_rows(repos, multi, n - 1),
            repo_rows(repos[n - 1], (n - 1) as usize, multi),
            row,
        );
        lemma_repo_rows(repos[n - 1], (n - 1) as usize, multi, row);
    }
}

proof fn lemma_line_rows(
    e: Option<crate::scm_app::state::ExpandedView>,
    p: crate::scm_app::state::PanelView,
    kind: Drawer,
    n: int,
    row: Row,
)
    requires
        of_change(row),
    ensures
        !line_rows(e, p, kind, n).contains(row),
    decreases n,
{
    if n > 0 {
        lemma_line_rows(e, p, kind, n - 1, row);
        let a = line_rows(e, p, kind, n - 1);
        let b = seq![Row::DrawerLine(kind, (n - 1) as usize)];
        let c = if crate::scm_app::app::line_open(e, p, kind, n - 1) {
            crate::scm_app::app::file_rows(e->0)
        } else {
            Seq::empty()
        };
        lemma_in_sum(a + b, c, row);
        lemma_in_sum(a, b, row);
        assert(!b.contains(row));
        assert(!c.contains(row));
    }
}

proof fn lemma_drawer_rows(
    e: Option<crate::scm_app::state::ExpandedView>,
    drawers: Seq<crate::scm_app::state::PanelView>,
    n: int,
    row: Row,
)
    requires
        of_change(row),
    ensures
        !drawers_rows(e, drawers, n).contains(row),
    decreases n,
{
    if n > 0 {
        lemma_drawer_rows(e, drawers, n - 1, row);
        let kind = crate::scm_app::drawers::all_drawers()[n - 1];
        let a = drawers_rows(e, drawers, n - 1);
        let b = seq![Row::DrawerHeader(kind)];
        let c = if drawers[n - 1].expanded {
            line_rows(e, drawers[n - 1], kind, drawers[n - 1].lines.len() as int)
        } else {
            Seq::empty()
        };
        lemma_line_rows(e, drawers[n - 1], kind, drawers[n - 1].lines.len() as int, row);
        lemma_in_sum(a + b, c, row);
        lemma_in_sum(a, b, row);
        assert(!b.contains(row));
    }
}

/// Every change of every repository has its row in the list, and only these have: those that
/// are staged among the staged ones, unless the repository or the section is folded.
pub proof fn law_every_change_is_in_the_list(v: AppView, row: Row)
    requires
        of_change(row),
        v.repos.len() <= usize::MAX,
        forall|k: int|
            0 <= k < v.repos.len() ==> (#[trigger] v.repos[k]).staged_rows.len() <= usize::MAX
                && v.repos[k].changes_rows.len() <= usize::MAX,
    ensures
        listed(v).contains(row) == (exists|k: int|
            0 <= k < v.repos.len() && shown_change(#[trigger] v.repos[k], k as usize, row)),
{
    let multi = v.repos.len() > 1;
    let a = crate::scm_app::app::sep_if(multi);
    let b = repos_rows(v.repos, multi, v.repos.len() as int);
    let c = crate::scm_app::app::sep_if(v.repos.len() == 1);
    let d = drawers_rows(v.expanded_ref, v.drawers, 8);
    lemma_in_sum(a + b + c, d, row);
    lemma_in_sum(a + b, c, row);
    lemma_in_sum(a, b, row);
    lemma_repos_rows(v.repos, multi, v.repos.len() as int, row);
    lemma_drawer_rows(v.expanded_ref, v.drawers, 8, row);
    assert(!a.contains(row) && !c.contains(row));
}

/// In a plain list each change has one row, in order.
pub proof fn law_plain_lists_keep_the_order(list: Seq<EntryView>, collapsed: Set<Seq<char>>, i: int)
    requires
        0 <= i < list.len(),
    ensures
        shown_rows(ScmFileView::List, list, collapsed).len() == list.len(),
        shown_rows(ScmFileView::List, list, collapsed)[i] == (RowView::File {
            index: i as usize,
            depth: 0,
        }),
{
}

/// The row of a file is about the change with the file's number in its own list.
pub proof fn law_rows_are_about_their_change(v: AppView, repo: usize, row: usize, index: usize, depth: int)
    requires
        repo < v.repos.len(),
    ensures
        row < v.repos[repo as int].staged_rows.len() && v.repos[repo as int].staged_rows[row as int] == (
        RowView::File { index, depth }) && index < v.repos[repo as int].status.staged.len() ==> entry_at(
            v,
            repo,
            row,
            true,
        ) == Some(v.repos[repo as int].status.staged[index as int]),
        row < v.repos[repo as int].changes_rows.len() && v.repos[repo as int].changes_rows[row as int] == (
        RowView::File { index, depth }) && index < v.repos[repo as int].status.unstaged.len()
            ==> entry_at(v, repo, row, false) == Some(
            v.repos[repo as int].status.unstaged[index as int],
        ),
{
}

// ---- Staging ----

/// What is not staged is staged, and what is staged is taken back, for the change of the row
/// alone; the status is read again after it.
pub proof fn law_changes_move_to_the_other_side(v: AppView, repo: usize, row: usize, e: EntryView)
    ensures
        entry_at(v, repo, row, false) == Some(e) ==> op_begun(v, repo, row, false) == (
            v,
            seq![EffectView::Stage(repo, e), EffectView::Refresh],
        ),
        entry_at(v, repo, row, true) == Some(e) ==> op_begun(v, repo, row, true) == (
            v,
            seq![EffectView::Unstage(repo, e), EffectView::Refresh],
        ),
        all_begun(repo, true)[0] == EffectView::StageAll(repo),
        all_begun(repo, false)[0] == EffectView::UnstageAll(repo),
        all_begun(repo, true)[1] == EffectView::Refresh,
{
}

/// Whether a path is below a directory: the directory, a slash, and more.
pub open spec fn inside(path: Seq<char>, dir: Seq<char>) -> bool {
    path.len() > dir.len() && path.take(dir.len() as int) == dir && path[dir.len() as int] == '/'
}

proof fn lemma_inside(path: Seq<char>, dir: Seq<char>)
    ensures
        lies_below(path, dir) == inside(path, dir),
{
    if path.len() > dir.len() {
        assert(path.subrange(0, dir.len() as int) =~= path.take(dir.len() as int));
    }
}

/// Everything below a directory is staged by the directory's path and by the paths outside
/// that files below it were moved from, and by no other.
pub proof fn law_directories_are_staged_with_their_sources(
    dir: Seq<char>,
    list: Seq<EntryView>,
    n: int,
    p: Seq<char>,
)
    requires
        0 <= n <= list.len(),
    ensures
        outside_sources(dir, list, n).contains(p) == (p == dir || exists|k: int|
            0 <= k < n && inside((#[trigger] list[k]).path, dir) && list[k].orig == Some(p) && !inside(
                p,
                dir,
            )),
        outside_sources(dir, list, n)[0] == dir,
        outside_sources(dir, list, n).len() >= 1,
    decreases n,
{
    let all = outside_sources(dir, list, n);
    if n <= 0 {
        assert(all[0] == dir);
    } else {
        law_directories_are_staged_with_their_sources(dir, list, n - 1, p);
        let less = outside_sources(dir, list, n - 1);
        let e = list[n - 1];
        lemma_inside(e.path, dir);
        if e.orig is Some {
            let o = e.orig->0;
            lemma_inside(o, dir);
            if lies_below(e.path, dir) && !lies_below(o, dir) && !less.contains(o) {
                assert(all == less.push(o));
                if all.contains(p) {
                    let i = choose|i: int| 0 <= i < all.len() && all[i] == p;
                    if i < less.len() {
                        assert(less[i] == p);
                        assert(less.contains(p));
                    }
                }
                if less.contains(p) {
                    let i = choose|i: int| 0 <= i < less.len() && less[i] == p;
                    assert(all[i] == p);
                }
                assert(all[less.len() as int] == o);
                assert(all[0] == less[0]);
            }
        }
    }
}

/// A directory's counts are those of the changes below it together; where none is known, none
/// is known of the directory.
pub open spec fn sum_added(dir: Seq<char>, list: Seq<EntryView>, n: int) -> Option<nat>
    decreases n,
{
    if n <= 0 {
        None
    } else {
        match (sum_added(dir, list, n - 1), list[n - 1].stat.added) {
            (Some(a), Some(b)) if inside(list[n - 1].path, dir) => Some((a + b) as nat),
            (None, Some(b)) if inside(list[n - 1].path, dir) => Some(b as nat),
            (a, _) => a,
        }
    }
}

pub proof fn law_directories_add_their_counts(dir: Seq<char>, list: Seq<EntryView>, n: int)
    requires
        0 <= n <= list.len(),
        forall|k: int|
            0 <= k <= n ==> (#[trigger] sum_added(dir, list, k) matches Some(a) ==> a <= usize::MAX),
    ensures
        stat_below(dir, list, n).added == (match sum_added(dir, list, n) {
            Some(a) => Some(a as usize),
            None => None,
        }),
    decreases n,
{
    if n > 0 {
        law_directories_add_their_counts(dir, list, n - 1);
        lemma_inside(list[n - 1].path, dir);
        assert(sum_added(dir, list, n) matches Some(a) ==> a <= usize::MAX);
        assert(sum_added(dir, list, n - 1) matches Some(a) ==> a <= usize::MAX);
    }
}

// ---- Committing ----

/// A commit is made of what is staged, with the message without the blanks round it. Without a
/// message, or with nothing staged, none is made.
pub proof fn law_commits_need_a_message_and_changes(v: AppView, index: usize, message: Seq<char>)
    requires
        index < v.repos.len(),
        v.repos[index as int].message == message,
        message.len() > 0,
        !is_white(message[0]),
        !is_white(message.last()),
    ensures
        v.repos[index as int].status.staged.len() > 0 ==> commit_begun(v, index) == (
            v,
            seq![EffectView::Commit(index, message)],
        ),
        v.repos[index as int].status.staged.len() == 0 ==> commit_begun(v, index).1.len() == 0,
{
    lemma_trim_edges(message);
}

/// A commit that was made clears its message and no other; one that failed keeps it.
pub proof fn law_commits_clear_their_message(v: AppView, index: usize, other: int, text: Seq<char>)
    requires
        index < v.repos.len(),
        0 <= other < v.repos.len(),
    ensures
        commit_ended(v, index, Ok(text)).repos[index as int].message.len() == 0,
        other != index ==> commit_ended(v, index, Ok(text)).repos[other] == v.repos[other],
        commit_ended(v, index, Err(text)).repos == v.repos,
        commit_ended(v, index, Err(text)).flash == Some((text, true)),
        commit_ended(v, index, Ok(text)).flash == Some((text, false)),
{
}

/// A suggested message takes the place of the message of the active repository.
pub proof fn law_suggestions_are_taken_over(v: AppView, m: Seq<char>)
    requires
        0 <= v.active < v.repos.len(),
    ensures
        suggestion_ended(v, Some(m)).repos[v.active].message == m,
        suggestion_ended(v, Some(m)).repos[v.active].cursor == m.len(),
        suggestion_ended(v, None).repos == v.repos,
        !suggestion_ended(v, Some(m)).suggesting && !suggestion_ended(v, None).suggesting,
{
}

/// A repository is synchronised only where it has an upstream and nothing is under way.
pub proof fn law_syncing_needs_an_upstream(v: AppView, index: int)
    requires
        0 <= index < v.repos.len(),
        index <= usize::MAX,
    ensures
        (sync_begun(v, index).1.len() > 0) == (!v.syncing && v.repos[index].status.has_upstream),
        !v.syncing && v.repos[index].status.has_upstream ==> sync_begun(v, index).1 == seq![
            EffectView::Sync(index as usize),
        ],
{
}

/// What is typed into a message stands where the cursor was, and is taken back by the key that
/// deletes what is before the cursor.
pub proof fn law_typing_is_undone_by_backspace(r: RepoView, c: char)
    requires
        0 <= r.cursor <= r.message.len(),
    ensures
        ({
            let typed = message_typed(
                r,
                Key { code: KeyCode::Char(c), modifiers: no_modifiers(), press: true },
            );
            let back = message_typed(
                typed,
                Key { code: KeyCode::Backspace, modifiers: no_modifiers(), press: true },
            );
            &&& typed.message == r.message.take(r.cursor) + seq![c] + r.message.skip(r.cursor)
            &&& typed.cursor == r.cursor + 1
            &&& back == r
        }),
{
    let typed = message_typed(
        r,
        Key { code: KeyCode::Char(c), modifiers: no_modifiers(), press: true },
    );
    assert(typed.message =~= r.message.take(r.cursor) + seq![c] + r.message.skip(r.cursor));
    assert(typed.message.remove(r.cursor) =~= r.message);
}

// ---- Diffs ----

/// A changed file is shown as the diff of its own side: what is staged, an untracked file, or
/// what changed in the working tree.
pub proof fn law_changes_are_shown_by_their_side(v: AppView, repo: int, e: EntryView)
    requires
        v.pane_id is Some,
        0 <= repo < v.repos.len(),
    ensures
        diff_opened(v, repo, e, true).1 == seq![
            EffectView::Preview(
                payload(
                    RequestView::Diff {
                        root: v.repos[repo].root,
                        rel: e.path,
                        kind: "staged"@,
                        line: None,
                    },
                ),
            ),
        ],
        diff_opened(v, repo, e, false).1 == seq![
            EffectView::Preview(
                payload(
                    RequestView::Diff {
                        root: v.repos[repo].root,
                        rel: e.path,
                        kind: if e.letter == 'U' {
                            "untracked"@
                        } else {
                            "worktree"@
                        },
                        line: None,
                    },
                ),
            ),
        ],
{
}

/// A file of a revision is shown as the diff between its two revisions.
pub proof fn law_revision_files_are_shown_between_revisions(v: AppView, repo: int, f: RefFileView)
    requires
        v.pane_id is Some,
        0 <= repo < v.repos.len(),
    ensures
        ref_diff_opened(v, repo, f).1 == seq![
            EffectView::Preview(
                payload(
                    RequestView::RefDiff {
                        root: v.repos[repo].root,
                        old_spec: f.old_spec,
                        new_spec: f.new_spec,
                        rel: f.entry.path,
                        old_rel: f.entry.orig,
                    },
                ),
            ),
        ],
{
}

// ---- Menus ----

/// Whether a menu's entry destroys something.
pub open spec fn destroys(a: MenuAction) -> bool {
    a == MenuAction::RemoveWorktree || a == MenuAction::ResetHere || a == MenuAction::DeleteBranch || a
        == MenuAction::StashDrop || a == MenuAction::DeleteTag
}

/// Commands that destroy something are asked about, with the name in the question, and never
/// run at once; each command is for what the line names, and nothing else.
pub proof fn law_destruction_is_asked_about(a: MenuAction, name: Seq<char>)
    ensures
        destroys(a) == (asked_command(a, name) is Some),
        destroys(a) ==> git_command(a, name) is None,
        git_command(a, name) matches Some(args) ==> args.last() == name,
        asked_command(a, name) matches Some((_, args)) ==> args.last() == name,
        git_command(MenuAction::Checkout, name) == Some(seq!["checkout"@, name]),
        git_command(MenuAction::StashPop, name) == Some(seq!["stash"@, "pop"@, name]),
        git_command(MenuAction::StashApply, name) == Some(seq!["stash"@, "apply"@, name]),
        git_command(MenuAction::CherryPick, name) == Some(seq!["cherry-pick"@, name]),
        asked_command(MenuAction::DeleteBranch, name) matches Some((_, args)) && args == seq![
            "branch"@,
            "-D"@,
            name,
        ],
        asked_command(MenuAction::StashDrop, name) matches Some((_, args)) && args == seq![
            "stash"@,
            "drop"@,
            name,
        ],
{
}

// ---- Lines of the drawers ----

/// A line that begins with a hash, after whatever drawing, points at that commit.
pub proof fn law_lines_point_at_their_commit(before: Seq<Seq<char>>, hash: Seq<char>, line: Seq<char>)
    requires
        hash.len() >= 7,
        forall|i: int|
            0 <= i < hash.len() ==> ('0' <= #[trigger] hash[i] && hash[i] <= '9') || ('a' <= hash[i]
                && hash[i] <= 'f'),
        forall|i: int| 0 <= i < before.len() ==> (#[trigger] before[i]).len() < 7,
        words(line).len() > before.len(),
        words(line).take(before.len() as int) == before,
        words(line)[before.len() as int] == hash,
    ensures
        pointed_at(Drawer::Commits, line) == DrawerRefView::Commit(hash),
        pointed_at(Drawer::Graph, line) == DrawerRefView::Commit(hash),
        pointed_at(Drawer::FileHistory, line) == DrawerRefView::Commit(hash),
{
    let w = words(line);
    let n = before.len() as int;
    assert forall|i: int| 0 <= i < n implies (#[trigger] w[i]).len() < 7 by {
        assert(w.take(n)[i] == before[i]);
    }
    assert(is_hash(w[n]));
    lemma_hash_at(w, 0, n);
}

proof fn lemma_hash_at(w: Seq<Seq<char>>, i: int, n: int)
    requires
        0 <= i <= n < w.len(),
        is_hash(w[n]),
        forall|k: int| i <= k < n ==> (#[trigger] w[k]).len() < 7,
    ensures
        hash_at(w, i) == n,
    decreases n - i,
{
    if i < n {
        assert(w[i].len() < 7);
        lemma_hash_at(w, i + 1, n);
    }
}

/// A line of the branches points at the branch that it names, and says whether that is the
/// current one; a line of the tags at the tag; a line of the stashes at the stash's number.
pub proof fn law_lines_point_at_their_name(name: Seq<char>, n: nat, behind: Seq<char>)
    requires
        name.len() > 0,
        !is_white(name[0]),
        !is_white(name.last()),
        name[0] != '(',
        name[0] != '*',
        n <= usize::MAX,
    ensures
        pointed_at(Drawer::Branches, seq!['*', ' '] + name) == (DrawerRefView::Branch {
            name,
            current: true,
        }),
        pointed_at(Drawer::Branches, seq![' ', ' '] + name) == (DrawerRefView::Branch {
            name,
            current: false,
        }),
        pointed_at(Drawer::Tags, name) == DrawerRefView::Tag(name),
        pointed_at(Drawer::Stashes, "stash@{"@ + digits(n) + "}"@ + behind) == DrawerRefView::Stash(
            n as usize,
        ),
{
    lemma_trim_edges(name);
    let a = seq!['*', ' '] + name;
    assert(a[0] == '*' && a[1] == ' ');
    assert(crate::scan::skip(a, Class::One('*'), 1) == 1);
    assert(crate::scan::skip(a, Class::One('*'), 0) == 1);
    assert(trim_start(a, Class::One('*')) =~= seq![' '] + name);
    crate::laws::text::lemma_trim_ends(seq![' '], name);
    let b = seq![' ', ' '] + name;
    assert(b[0] == ' ');
    assert(crate::scan::skip(b, Class::One('*'), 0) == 0);
    assert(trim_start(b, Class::One('*')) =~= b);
    crate::laws::text::lemma_trim_ends(seq![' ', ' '], name);
    reveal_strlit("stash@{");
    reveal_strlit("}");
    law_digits_read_back(n);
    let d = digits(n);
    let s = "stash@{"@ + d + "}"@ + behind;
    assert(s.subrange(0, 7) =~= "stash@{"@);
    let rest = after(s, 7);
    assert(rest =~= d + "}"@ + behind);
    assert forall|k: int| 0 <= k < d.len() implies rest[k] != '}' by {
        assert(rest[k] == d[k]);
        assert(is_digit(d[k]));
    }
    assert(rest[d.len() as int] == '}');
    lemma_find_char_unique(rest, '}', 0, d.len() as int);
    assert(rest.take(d.len() as int) =~= d);
    assert(is_digit(d[0]));
}

// ---- What the view says ----

/// What stays to be pushed and pulled is offered, both counted, where there is an upstream and
/// something to push or pull; while that goes on, it is said instead.
pub proof fn law_sync_counts_both_ways(v: AppView)
    requires
        0 <= v.active < v.repos.len(),
        !v.syncing,
    ensures
        ({
            let s = v.repos[v.active].status;
            &&& sync_text(v) is Some <==> s.has_upstream && (s.ahead > 0 || s.behind > 0)
            &&& sync_text(v) matches Some(text) ==> text == "⇅ Sync Changes  "@ + digits(s.ahead as nat)
                + "↑ "@ + digits(s.behind as nat) + "↓"@
        }),
        sync_text(AppView { syncing: true, ..v }) is Some,
        sync_text(AppView { syncing: true, ..v }) != sync_text(v),
{
    reveal_strlit("⇅ Sync Changes  ");
    reveal_strlit("⇅ Syncing…");
    let s = v.repos[v.active].status;
    if let Some(text) = sync_text(v) {
        assert(text =~= "⇅ Sync Changes  "@ + digits(s.ahead as nat) + "↑ "@ + digits(s.behind as nat)
            + "↓"@);
        assert(text[6] == ' ');
        assert("⇅ Syncing…"@[6] == 'i');
    }
}

/// The counts of a change are its added lines with a plus and its deleted lines with a minus,
/// each only where there are any.
pub proof fn law_counts_are_shown_with_their_sign(added: usize, deleted: usize)
    requires
        added > 0,
        deleted > 0,
    ensures
        ({
            let both = stat_spans(DiffStat { added: Some(added), deleted: Some(deleted) });
            &&& both.len() == 3
            &&& both[0].text == seq!['+'] + digits(added as nat)
            &&& both[2].text == seq!['-'] + digits(deleted as nat)
        }),
        ({
            let one = stat_spans(DiffStat { added: Some(added), deleted: Some(0) });
            one.len() == 1 && one[0].text == seq!['+'] + digits(added as nat)
        }),
        ({
            let one = stat_spans(DiffStat { added: Some(0), deleted: Some(deleted) });
            one.len() == 1 && one[0].text == seq!['-'] + digits(deleted as nat)
        }),
        stat_spans(DiffStat { added: None, deleted: None }).len() == 0,
        stat_spans(DiffStat { added: Some(0), deleted: Some(0) }).len() == 0,
{
    reveal_strlit("+");
    reveal_strlit("-");
    assert("+"@ =~= seq!['+']);
    assert("-"@ =~= seq!['-']);
}

/// A file's row shows the last part of its path, and in a list the rest of it; a file that was
/// moved has the path it comes from, too.
pub proof fn law_file_rows_show_the_whole_path(dir: Seq<char>, name: Seq<char>, from: Seq<char>)
    requires
        !has_char(name, '/'),
    ensures
        last_name(dir + seq!['/'] + name) == name,
        last_name(name) == name,
        file_notes(dir + seq!['/'] + name, None, false, Platform::Other) == seq![seq![' '] + dir],
        file_notes(dir + seq!['/'] + name, None, true, Platform::Other).len() == 0,
        file_notes(name, None, false, Platform::Other).len() == 0,
        file_notes(name, Some(from), true, Platform::Other) == seq![seq![' ', '←', ' '] + from],
{
    let path = dir + seq!['/'] + name;
    lemma_last_slash(path, dir.len() as int, path.len() as int);
    assert(path.skip(dir.len() as int + 1) =~= name);
    assert(path.take(dir.len() as int) =~= dir);
    lemma_no_slash(name, name.len() as int);
    assert(name.skip(0) =~= name);
    reveal_strlit(" ");
    reveal_strlit(" ← ");
    assert(" "@ =~= seq![' ']);
    assert(" ← "@ =~= seq![' ', '←', ' ']);
    assert(native(dir, Platform::Other) =~= dir);
    assert(native(from, Platform::Other) =~= from);
    assert(file_notes(path, None, false, Platform::Other) =~= seq![seq![' '] + dir]);
}

proof fn lemma_last_slash(s: Seq<char>, at: int, to: int)
    requires
        0 <= at < to <= s.len(),
        s[at] == '/',
        forall|i: int| at < i < to ==> s[i] != '/',
    ensures
        rfind_char(s, '/', to) == at,
    decreases to - at,
{
    if to - 1 > at {
        lemma_last_slash(s, at, to - 1);
    }
}

proof fn lemma_no_slash(s: Seq<char>, to: int)
    requires
        0 <= to <= s.len(),
        forall|i: int| 0 <= i < to ==> s[i] != '/',
    ensures
        rfind_char(s, '/', to) == -1,
    decreases to,
{
    if to > 0 {
        lemma_no_slash(s, to - 1);
    }
}

// ---- The selection after a change ----

/// When a change leaves its section, the selection goes to the first of the section's paths that
/// would not stand before it, and to the last where all would.
pub proof fn law_selection_stays_near(paths: Seq<(usize, Seq<char>)>, from: Seq<char>, i: int)
    requires
        0 <= i < paths.len(),
    ensures
        first_from(paths, from) matches Some(p) ==> paths.contains(p) && !lex_less(p.1, from) && (
        !lex_less(paths[i].1, from) ==> !lex_less(paths[i].1, p.1)),
        first_from(paths, from) is None ==> lex_less(paths[i].1, from),
        last_of_all(paths) matches Some(p) && paths.contains(p) && !lex_less(p.1, paths[i].1),
    decreases paths.len(),
{
    let rest = paths.drop_last();
    let last = paths.last();
    assert(paths[paths.len() - 1] == last);
    law_order_is_irreflexive(last.1);
    assert(rest.len() == 0 ==> last_of_all(rest) is None && first_from(rest, from) is None);
    if rest.len() > 0 {
        let k = if i < rest.len() {
            i
        } else {
            0
        };
        law_selection_stays_near(rest, from, k);
        if let Some(b) = first_from(rest, from) {
            let at = choose|j: int| 0 <= j < rest.len() && rest[j] == b;
            assert(paths[at] == b);
            lemma_order_goes_on(paths[i].1, last.1, b.1);
        }
        if let Some(b) = last_of_all(rest) {
            let at = choose|j: int| 0 <= j < rest.len() && rest[j] == b;
            assert(paths[at] == b);
            lemma_order_goes_on(b.1, last.1, paths[i].1);
            lemma_order_is_total(b.1, last.1);
            lemma_order_goes_on(last.1, b.1, last.1);
        }
    }
}

proof fn lemma_order_goes_on(a: Seq<char>, b: Seq<char>, c: Seq<char>)
    ensures
        lex_less(a, b) && lex_less(b, c) ==> lex_less(a, c),
    decreases a.len(),
{
    if a.len() > 0 && b.len() > 0 && c.len() > 0 && a[0] == b[0] && b[0] == c[0] {
        lemma_order_goes_on(after(a, 1), after(b, 1), after(c, 1));
    }
}

proof fn lemma_order_is_total(a: Seq<char>, b: Seq<char>)
    ensures
        lex_less(a, b) || lex_less(b, a) || a == b,
    decreases a.len(),
{
    if a.len() > 0 && b.len() > 0 && a[0] == b[0] {
        lemma_order_is_total(after(a, 1), after(b, 1));
        if after(a, 1) == after(b, 1) {
            assert(a =~= seq![a[0]] + after(a, 1));
            assert(b =~= seq![b[0]] + after(b, 1));
        }
    } else if a.len() == 0 && b.len() == 0 {
        assert(a =~= b);
    }
}

/// A message is asked for where there are changes, and where there are none that is told.
pub proof fn law_suggestions_need_changes(v: AppView, diff: Seq<char>, files: nat, e: Seq<char>)
    requires
        !v.suggesting,
    ensures
        suggestion_read(v, Ok((diff, files))).suggesting <==> files > 0 || trim(diff, Class::White).len()
            > 0,
        !suggestion_read(v, Err(e)).suggesting && suggestion_read(v, Err(e)).flash == Some((e, true)),
        suggestion_read(v, Ok((diff, files))).repos == v.repos,
{
}

// ---- Sections and menus ----

/// Folding a section folds that one and leaves the other; folding it again unfolds it.
pub proof fn law_sections_fold_alone(r: RepoView, staged: bool)
    ensures
        with_section(with_section(r, staged), staged) == r,
        with_section(r, true).staged_collapsed == !r.staged_collapsed,
        with_section(r, true).changes_collapsed == r.changes_collapsed,
        with_section(r, false).changes_collapsed == !r.changes_collapsed,
        with_section(r, false).staged_collapsed == r.staged_collapsed,
        with_section(r, staged).status == r.status,
{
}

/// Folding a directory of one section leaves those of the other.
pub proof fn law_directories_fold_in_their_section(r: RepoView, path: Seq<char>, expanded: bool)
    ensures
        with_toggled(r, path, expanded, true).changes_dirs == r.changes_dirs,
        with_toggled(r, path, expanded, false).staged_dirs == r.staged_dirs,
        with_toggled(r, path, true, true).staged_dirs.contains(path),
        with_toggled(r, path, true, false).changes_dirs.contains(path),
        !with_toggled(r, path, false, true).staged_dirs.contains(path),
        !with_toggled(r, path, false, false).changes_dirs.contains(path),
{
}

/// The keys for all changes stage and unstage those of the active repository; without one they
/// do nothing.
pub proof fn law_keys_are_for_the_active_repository(v: AppView)
    requires
        0 <= v.active <= usize::MAX,
    ensures
        v.active < v.repos.len() ==> command_key(v, KeyCode::Char('a')).1.contains(
            EffectView::StageAll(v.active as usize),
        ),
        v.active < v.repos.len() ==> command_key(v, KeyCode::Char('u')).1.contains(
            EffectView::UnstageAll(v.active as usize),
        ),
        v.active >= v.repos.len() ==> command_key(v, KeyCode::Char('a')).1.len() == 0 && command_key(
            v,
            KeyCode::Char('u'),
        ).1.len() == 0 && command_key(v, KeyCode::Char('A')).1.len() == 0,
        v.active < v.repos.len() && !v.suggesting ==> command_key(v, KeyCode::Char('A')).1 == seq![
            EffectView::Suggest(v.active as usize),
        ],
        v.suggesting ==> command_key(v, KeyCode::Char('A')).1.len() == 0,
        command_key(v, KeyCode::Char('r')).1 == seq![EffectView::Refresh],
        v.pane_id is Some ==> command_key(v, KeyCode::Esc).1 == seq![EffectView::ClosePreview],
        v.pane_id is None ==> command_key(v, KeyCode::Esc).1.len() == 0,
{
    let a = command_key(v, KeyCode::Char('a')).1;
    let u = command_key(v, KeyCode::Char('u')).1;
    if v.active < v.repos.len() {
        assert(a[0] == EffectView::StageAll(v.active as usize));
        assert(u[0] == EffectView::UnstageAll(v.active as usize));
    }
}

/// While one sync goes on no other is begun.
pub proof fn law_one_sync_at_a_time(v: AppView, index: int)
    requires
        0 <= index < v.repos.len(),
        v.repos[index].status.has_upstream,
    ensures
        ({
            let (next, effects) = sync_begun(v, index);
            &&& !v.syncing ==> effects.len() == 1 && next.syncing
            &&& sync_begun(next, index).1.len() == 0
        }),
{
}

/// While a folder is picked no other picker opens.
pub proof fn law_one_picker_at_a_time(v: AppView)
    ensures
        ({
            let (next, effects) = picker_opened(v);
            &&& v.platform != Platform::Other && !v.picking ==> next.picking && effects == seq![
                EffectView::PickFolder,
            ]
            &&& v.picking ==> effects.len() == 0
            &&& v.platform == Platform::Other ==> effects.len() == 0
            &&& picker_opened(next).1.len() == 0
        }),
{
}

/// What lies below a directory goes to the other side of the index, and the view is read anew
/// behind that.
pub proof fn law_directories_go_to_the_other_side(v: AppView, repo: usize, path: Seq<char>, staged: bool)
    requires
        repo < v.repos.len(),
    ensures
        ({
            let (next, effects) = directory_begun(v, repo, path, staged);
            &&& next == v
            &&& effects.len() == 3
            &&& staged ==> effects[0] is UnstagePaths && effects[0]->UnstagePaths_0 == repo
            &&& !staged ==> effects[0] is StagePaths && effects[0]->StagePaths_0 == repo
            &&& effects[1] == EffectView::Refresh
            &&& effects[2] == EffectView::SelectNear(repo, staged, path)
        }),
{
}

/// The entries of a changed file's menu copy its path, whole or below the repository, and take
/// the change to the other side of the index.
pub proof fn law_menus_are_about_their_file(v: AppView, repo: usize, e: EntryView)
    requires
        repo < v.repos.len(),
        v.platform == Platform::Other,
    ensures
        file_action(v, MenuAction::CopyRelativePath, repo, e, false) == (v, seq![EffectView::Copy(e.path)]),
        file_action(v, MenuAction::CopyPath, repo, e, false) == (
            v,
            seq![EffectView::Copy(under_dir(v.repos[repo as int].root, e.path))],
        ),
        file_action(v, MenuAction::Reveal, repo, e, false) == (
            v,
            seq![EffectView::Reveal(under_dir(v.repos[repo as int].root, e.path))],
        ),
        file_action(v, MenuAction::StageOrUnstage, repo, e, false).1.last() == EffectView::Refresh,
        file_action(v, MenuAction::StageOrUnstage, repo, e, false).1[0] != file_action(
            v,
            MenuAction::StageOrUnstage,
            repo,
            e,
            true,
        ).1[0],
        file_action(v, MenuAction::Discard, repo, e, false).1.len() == 0,
{
    assert(native(e.path, v.platform) =~= e.path);
}

/// The arrow keys go into an open directory, to the row below it that is deeper, and out of what
/// is not open to the nearest row above that is less deep.
pub proof fn law_arrows_go_in_and_out(row: RowView, rows: Seq<RowView>, index: int)
    requires
        0 <= index < rows.len(),
        rows.len() <= usize::MAX,
        rows[index] == row,
    ensures
        nav_target(row, rows, index, true) matches Some(to) ==> row_open(row) && to == index + 1 && row_depth(
            rows[to as int],
        ) > row_depth(row),
        nav_target(row, rows, index, false) matches Some(to) ==> !row_open(row) && to < index && row_depth(
            rows[to as int],
        ) < row_depth(row) && forall|k: int|
            to < k < index ==> row_depth(#[trigger] rows[k]) >= row_depth(row),
        row_open(row) && index + 1 < rows.len() && row_depth(rows[index + 1]) > row_depth(row)
            ==> nav_target(row, rows, index, true) is Some,
{
    lemma_parent_row(rows, row_depth(row), index);
}

proof fn lemma_parent_row(rows: Seq<RowView>, depth: int, n: int)
    requires
        0 <= n <= rows.len(),
    ensures
        -1 <= parent_row(rows, depth, n) < n || parent_row(rows, depth, n) == -1,
        parent_row(rows, depth, n) >= 0 ==> row_depth(rows[parent_row(rows, depth, n)]) < depth,
        forall|k: int| parent_row(rows, depth, n) < k < n ==> row_depth(#[trigger] rows[k]) >= depth,
    decreases n,
{
    if n > 0 && !(row_depth(rows[n - 1]) < depth) {
        lemma_parent_row(rows, depth, n - 1);
    }
}

// ---- Lines of drawers ----

/// A commit of the graph is shown by the viewer of the pane; without a pane that is told.
pub proof fn law_graph_lines_show_their_commit(v: AppView, index: usize, hash: Seq<char>)
    requires
        0 <= v.active < v.repos.len(),
        ref_at(v, Drawer::Graph, index as int) == Some(DrawerRefView::Commit(hash)),
    ensures
        v.pane_id is Some ==> line_opened(v, Drawer::Graph, index) == (
            v,
            seq![
                EffectView::Preview(
                    payload(
                        RequestView::Show { root: v.repos[v.active].root, spec: hash, path: None },
                    ),
                ),
            ],
        ),
        v.pane_id is None ==> line_opened(v, Drawer::Graph, index).1.len() == 0 && line_opened(
            v,
            Drawer::Graph,
            index,
        ).0.flash is Some,
{
}

/// The files of a line are asked for where it has any and they are not shown yet.
pub proof fn law_lines_ask_for_their_files(v: AppView, kind: Drawer, index: usize, target: DrawerRefView)
    requires
        ref_at(v, kind, index as int) == Some(target),
        v.expanded_ref is None,
    ensures
        v.active < v.repos.len() && has_files(target) ==> ref_toggled(v, kind, index) == (
            v,
            seq![EffectView::LoadRef(kind, index)],
        ),
        !has_files(target) ==> ref_toggled(v, kind, index) == (v, Seq::<EffectView>::empty()),
{
}

/// A command is run in the repository that it is for, and none in one that is gone.
pub proof fn law_commands_run_in_their_repository(
    v: AppView,
    repo: usize,
    args: Seq<Seq<char>>,
    e: EntryView,
)
    ensures
        repo < v.repos.len() ==> git_run(v, repo, args) == (v, seq![EffectView::Run(repo, args)]),
        repo < v.repos.len() ==> discard_begun(v, repo, e) == (v, seq![EffectView::Discard(repo, e)]),
        repo >= v.repos.len() ==> forall|i: int|
            0 <= i < git_run(v, repo, args).1.len() ==> !(#[trigger] git_run(v, repo, args).1[i] is Run),
        repo >= v.repos.len() ==> forall|i: int|
            0 <= i < discard_begun(v, repo, e).1.len() ==> !(#[trigger] discard_begun(v, repo, e).1[i] is Discard),
{
}

/// On a line of the list a command for it is run, one that destroys is asked about first, and a
/// line is looked up in its own drawer.
pub proof fn law_line_menus_run_their_command(
    v: AppView,
    action: MenuAction,
    kind: Drawer,
    index: usize,
    target: DrawerRefView,
    name: Seq<char>,
)
    requires
        0 <= v.active < v.repos.len(),
        v.repos.len() <= usize::MAX,
        ref_at(v, kind, index as int) == Some(target),
        ref_name(target) == Some(name),
    ensures
        git_command(action, name) matches Some(args) ==> line_action(v, action, kind, index) == (
            v,
            seq![EffectView::Run(v.active as usize, args)],
        ),
        git_command(action, name) is None && asked_command(action, name) is Some ==> line_action(
            v,
            action,
            kind,
            index,
        ).1.len() == 0,
        0 <= index < panel(v, kind).refs.len() && target == panel(v, kind).refs[index as int],
{
}

} // verus!
