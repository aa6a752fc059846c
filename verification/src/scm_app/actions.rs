//! What the source control view does: moving, staging, committing, and showing
//! diffs.

use vstd::prelude::*;

use crate::change_tree::{Row as TreeRow, RowView};
use crate::git::{ref_files_view, EntryView, FileEntry, RefFile, RefFileView, Status};
use crate::input::{least, monus, smaller, take_off};
use crate::scm_app::app::{
    both, changes, chosen, effects, entry_at, flashed, followed, nearest, no_effects, one_effect,
    panel, rebuilt, sound, stop_before, stop_from, tree_row, App, AppView, Effect, EffectView,
    Outcome,
};
use crate::scm_app::drawers::{drawer_index, has_file_tree, Drawer, DrawerRef, DrawerRefView};
use crate::scm_app::layout::{
    find_row, nav_target, place_of, row_open, toggle_collapsed_path, toggled_path, tree_nav_target,
    Row,
};
use crate::scm_app::state::{
    opt_file, panel_after, panels_view, repos_view, with_ref_rows, with_rows, ExpandedRef,
    ExpandedView, PanelLoad, Repo, RepoView,
};
use crate::viewer::preview::{down_by, up_by};
use crate::viewer::request::{
    diff_request, payload, ref_diff_request, show_request, RequestView,
};

verus! {

/// One step after another.
pub open spec fn andthen(a: Outcome, f: spec_fn(AppView) -> Outcome) -> Outcome {
    let b = f(a.0);
    (b.0, a.1 + b.1)
}

// ---- Drawers and statuses as they were read ----

/// A drawer was read.
pub open spec fn panel_read(
    v: AppView,
    kind: Drawer,
    load: crate::scm_app::state::LoadView,
) -> AppView {
    AppView {
        drawers: v.drawers.update(
            drawer_index(kind),
            panel_after(v.drawers[drawer_index(kind)], kind, load),
        ),
        ..v
    }
}

/// All drawers were read. Where the selection's place is kept, it stays, even at
/// a row where keys do not stop.
pub open spec fn drawers_read(v: AppView, keep: bool) -> Outcome {
    let (a, e) = rebuilt(v);
    (
        AppView {
            selected: if keep && v.selected is Some {
                Some(least(v.selected->0 as int, a.rows.len() - 1) as usize)
            } else {
                a.selected
            },
            ..a
        },
        e,
    )
}

/// What to read for a drawer.
pub enum Wanted {
    Nothing,
    Lines,
    History(String),
    NoFile,
}

impl App {
    /// What to read for a drawer: nothing while it is closed, or no repository is
    /// there.
    pub fn wanted(&self, kind: Drawer) -> (r: Wanted)
        requires
            sound(self@),
        ensures
            match r {
                Wanted::Nothing => !panel(self@, kind).expanded || self@.active
                    >= self@.repos.len(),
                Wanted::Lines => panel(self@, kind).expanded && self@.active < self@.repos.len()
                    && kind != Drawer::FileHistory,
                Wanted::History(path) => panel(self@, kind).expanded && self@.active
                    < self@.repos.len() && kind == Drawer::FileHistory && self@.history_target
                    == Some(path@),
                Wanted::NoFile => panel(self@, kind).expanded && self@.active < self@.repos.len()
                    && kind == Drawer::FileHistory && self@.history_target is None,
            },
    {
        let at = kind.index();
        assert(self@.drawers.len() == self.drawers@.len());
        assert(self@.drawers[at as int] == self.drawers@[at as int]@);
        if !self.drawers[at].expanded || self.active >= self.repos.len() {
            return Wanted::Nothing;
        }
        if kind != Drawer::FileHistory {
            return Wanted::Lines;
        }
        match &self.history_target {
            Some(path) => Wanted::History(path.clone()),
            None => Wanted::NoFile,
        }
    }

    /// Takes what was read for a drawer.
    pub fn panel_loaded(&mut self, kind: Drawer, load: PanelLoad)
        requires
            sound(old(self)@),
        ensures
            final(self)@ == panel_read(old(self)@, kind, load@),
            sound(final(self)@),
    {
        let at = kind.index();
        let ghost before = self@.drawers;
        assert(self@.drawers.len() == self.drawers@.len());
        assert(self@.drawers[at as int] == self.drawers@[at as int]@);
        self.drawers[at].load(kind, load);
        assert(panels_view(self.drawers@) =~= before.update(
            at as int,
            panel_after(before[at as int], kind, load@),
        ));
    }

    /// Goes on after the open drawers were read.
    pub fn drawers_loaded(&mut self, keep: bool) -> (r: Vec<Effect>)
        requires
            sound(old(self)@),
        ensures
            (final(self)@, effects(r@)) == drawers_read(old(self)@, keep),
            sound(final(self)@),
    {
        let kept = self.selected;
        let e = self.rebuild();
        proof {
            crate::scm_app::app::lemma_rebuilt_has_rows(old(self)@);
        }
        let last = self.rows.len() - 1;
        let next = match kept {
            Some(i) => if keep {
                Some(smaller(i, last))
            } else {
                self.selected
            },
            None => self.selected,
        };
        self.selected = next;
        e
    }

    /// Takes a repository's status, or why it could not be read.
    pub fn status_loaded(&mut self, repo: usize, status: Result<Status, String>)
        requires
            sound(old(self)@),
        ensures
            final(self)@ == (match status {
                Ok(s) => if repo < old(self)@.repos.len() {
                    AppView {
                        repos: old(self)@.repos.update(
                            repo as int,
                            with_rows(
                                RepoView { status: s@, ..old(self)@.repos[repo as int] },
                                old(self)@.settings.scm_file_view,
                            ),
                        ),
                        ..old(self)@
                    }
                } else {
                    old(self)@
                },
                Err(e) => flashed(old(self)@, e@, true),
            }),
            sound(final(self)@),
    {
        match status {
            Ok(s) => {
                if repo < self.repos.len() {
                    let view = self.settings.scm_file_view;
                    let ghost all = self@.repos;
                    assert(all[repo as int] == self.repos@[repo as int]@);
                    self.repos[repo].status = s;
                    self.repos[repo].rebuild_file_rows(view);
                    proof {
                        crate::scm_app::app::lemma_cursors_stay(
                            all,
                            repo as int,
                            with_rows(RepoView { status: s@, ..all[repo as int] }, view),
                        );
                    }
                    assert(repos_view(self.repos@) =~= all.update(
                        repo as int,
                        with_rows(RepoView { status: s@, ..all[repo as int] }, view),
                    ));
                }
            },
            Err(e) => {
                self.flash = Some((e, true));
            },
        }
    }

    /// Goes on after every status was read.
    pub fn refreshed(&self) -> (r: Vec<Effect>)
        ensures
            effects(r@) == seq![EffectView::ReloadDrawers { keep: false }],
    {
        one_effect(Effect::ReloadDrawers { keep: false })
    }

    /// Asks for every status to be read.
    pub fn refresh(&self) -> (r: Vec<Effect>)
        ensures
            effects(r@) == seq![EffectView::Refresh],
    {
        one_effect(Effect::Refresh)
    }
}

// ---- Moving ----

/// Where keys go from the selected row.
pub open spec fn move_target(v: AppView, down: bool, by: int) -> int {
    match v.selected {
        None => nearest(v.rows, 0) as int,
        Some(sel) => {
            let last = v.rows.len() - 1;
            let target = if down {
                least(sel + by, last)
            } else {
                least(monus(sel as int, by), last)
            };
            let stop = if down {
                stop_from(v.rows, target)
            } else {
                stop_before(v.rows, target + 1)
            };
            if 0 <= stop < v.rows.len() {
                stop
            } else {
                nearest(v.rows, target) as int
            }
        },
    }
}

pub open spec fn moved(v: AppView, down: bool, by: int) -> Outcome {
    if v.rows.len() == 0 {
        (v, Seq::empty())
    } else {
        chosen(v, move_target(v, down, by))
    }
}

fn stop_at_or_after(rows: &Vec<Row>, from: usize) -> (r: usize)
    requires
        from <= rows@.len(),
    ensures
        r == stop_from(rows@, from as int),
{
    let mut i = from;
    while i < rows.len()
        invariant
            i <= rows@.len(),
            stop_from(rows@, from as int) == stop_from(rows@, i as int),
        decreases rows@.len() - i,
    {
        if rows[i].selectable() {
            return i;
        }
        i += 1;
    }
    rows.len()
}

fn stop_at_or_before(rows: &Vec<Row>, to: usize) -> (r: Option<usize>)
    requires
        to <= rows@.len(),
    ensures
        match r {
            Some(i) => stop_before(rows@, to as int) == i,
            None => stop_before(rows@, to as int) == -1,
        },
{
    let mut n = to;
    while n > 0
        invariant
            n <= rows@.len(),
            stop_before(rows@, to as int) == stop_before(rows@, n as int),
        decreases n,
    {
        if rows[n - 1].selectable() {
            return Some(n - 1);
        }
        n -= 1;
    }
    None
}

impl App {
    /// Moves the selection by rows, to one at which keys stop.
    pub fn move_by(&mut self, down: bool, by: usize) -> (r: Vec<Effect>)
        requires
            sound(old(self)@),
        ensures
            (final(self)@, effects(r@)) == moved(old(self)@, down, by as int),
            sound(final(self)@),
    {
        let total = self.rows.len();
        if total == 0 {
            return no_effects();
        }
        let sel = match self.selected {
            Some(sel) => sel,
            None => {
                let first = self.nearest_selectable(0);
                return self.select(first);
            },
        };
        let last = total - 1;
        let target = if down {
            down_by(sel, by, last)
        } else {
            smaller(up_by(sel, by), last)
        };
        let stop = if down {
            let i = stop_at_or_after(&self.rows, target);
            if i < total {
                Some(i)
            } else {
                None
            }
        } else {
            stop_at_or_before(&self.rows, target + 1)
        };
        proof {
            crate::scm_app::app::lemma_stop_before(self.rows@, target + 1);
            crate::scm_app::app::lemma_stop_from(self.rows@, target as int);
        }
        let next = match stop {
            Some(i) => i,
            None => self.nearest_selectable(target),
        };
        self.select(next)
    }

    /// Scrolls the list; the selection stays.
    pub fn scroll_view(&mut self, down: bool)
        ensures
            final(self)@ == (AppView {
                scroll: if down {
                    least(old(self)@.scroll + 3, monus(old(self)@.rows.len() as int, 1))
                } else {
                    least(monus(old(self)@.scroll, 3), monus(old(self)@.rows.len() as int, 1))
                },
                ..old(self)@
            }),
    {
        let last = take_off(self.rows.len(), 1);
        self.scroll = if down {
            down_by(self.scroll, 3, last)
        } else {
            smaller(up_by(self.scroll, 3), last)
        };
    }
}

// ---- Showing diffs ----

pub open spec fn diff_kind(e: EntryView, staged: bool) -> Seq<char> {
    if staged {
        "staged"@
    } else if e.letter == 'U' {
        "untracked"@
    } else {
        "worktree"@
    }
}

/// A changed file's diff is shown.
pub open spec fn diff_opened(v: AppView, repo: int, e: EntryView, staged: bool) -> Outcome {
    if v.pane_id is None {
        (flashed(v, "diff preview needs a herdr pane"@, true), Seq::empty())
    } else if repo < v.repos.len() {
        (
            v,
            seq![
                EffectView::Preview(
                    payload(
                        RequestView::Diff {
                            root: v.repos[repo].root,
                            rel: e.path,
                            kind: diff_kind(e, staged),
                            line: None,
                        },
                    ),
                ),
            ],
        )
    } else {
        (v, Seq::empty())
    }
}

/// A file's diff between two revisions is shown.
pub open spec fn ref_diff_opened(v: AppView, repo: int, f: RefFileView) -> Outcome {
    if v.pane_id is None {
        (flashed(v, "diff preview needs a herdr pane"@, true), Seq::empty())
    } else if repo < v.repos.len() {
        (
            v,
            seq![
                EffectView::Preview(
                    payload(
                        RequestView::RefDiff {
                            root: v.repos[repo].root,
                            old_spec: f.old_spec,
                            new_spec: f.new_spec,
                            rel: f.entry.path,
                            old_rel: f.entry.orig,
                        },
                    ),
                ),
            ],
        )
    } else {
        (v, Seq::empty())
    }
}

/// The file of a commit, branch, stash or tag at this place is shown.
pub open spec fn history_file_opened(v: AppView, index: int) -> Outcome {
    match v.expanded_ref {
        Some(e) if index < e.files.len() => ref_diff_opened(v, v.active, e.files[index]),
        _ => (v, Seq::empty()),
    }
}

/// The file that a row below a drawer's line shows.
pub open spec fn history_row(v: AppView, i: int) -> Option<RowView> {
    match v.expanded_ref {
        Some(e) if i < e.rows.len() => Some(e.rows[i]),
        _ => None,
    }
}

impl App {
    /// Shows a changed file's diff.
    pub fn open_diff(&mut self, repo: usize, entry: &FileEntry, staged: bool) -> (r: Vec<Effect>)
        requires
            sound(old(self)@),
        ensures
            (final(self)@, effects(r@)) == diff_opened(old(self)@, repo as int, entry@, staged),
            sound(final(self)@),
    {
        if self.pane_id.is_none() {
            self.flash = Some(("diff preview needs a herdr pane".to_string(), true));
            return no_effects();
        }
        if repo >= self.repos.len() {
            return no_effects();
        }
        assert(self@.repos[repo as int] == self.repos@[repo as int]@);
        let kind = if staged {
            "staged"
        } else if entry.letter == 'U' {
            "untracked"
        } else {
            "worktree"
        };
        let text = diff_request(self.repos[repo].git.root(), entry.path.as_str(), kind);
        one_effect(Effect::Preview(text))
    }

    /// Shows a file's diff between two revisions.
    pub fn open_ref_diff(&mut self, repo: usize, file: &RefFile) -> (r: Vec<Effect>)
        requires
            sound(old(self)@),
        ensures
            (final(self)@, effects(r@)) == ref_diff_opened(old(self)@, repo as int, file@),
            sound(final(self)@),
    {
        if self.pane_id.is_none() {
            self.flash = Some(("diff preview needs a herdr pane".to_string(), true));
            return no_effects();
        }
        if repo >= self.repos.len() {
            return no_effects();
        }
        assert(self@.repos[repo as int] == self.repos@[repo as int]@);
        let orig = match &file.entry.orig {
            Some(s) => Some(s.as_str()),
            None => None,
        };
        let text = ref_diff_request(
            self.repos[repo].git.root(),
            file.old_spec.as_str(),
            file.new_spec.as_str(),
            file.entry.path.as_str(),
            orig,
        );
        one_effect(Effect::Preview(text))
    }

    /// Shows the diff of a file of a commit, branch, stash or tag.
    pub fn open_history_file(&mut self, index: usize) -> (r: Vec<Effect>)
        requires
            sound(old(self)@),
        ensures
            (final(self)@, effects(r@)) == history_file_opened(old(self)@, index as int),
            sound(final(self)@),
    {
        let file = match &self.expanded_ref {
            Some(e) => {
                assert(e@.files.len() == e.files@.len());
                if index < e.files.len() {
                    e.files[index].clone()
                } else {
                    return no_effects();
                }
            },
            None => {
                return no_effects();
            },
        };
        let active = self.active;
        self.open_ref_diff(active, &file)
    }

    /// Shows why something failed, where it did.
    pub fn report(&mut self, result: Result<(), String>)
        ensures
            final(self)@ == (match result {
                Ok(()) => old(self)@,
                Err(e) => flashed(old(self)@, e@, true),
            }),
    {
        if let Err(e) = result {
            self.flash = Some((e, true));
        }
    }
}

/// The diff of the selected row is shown.
pub open spec fn selected_diff_opened(v: AppView) -> Outcome {
    match selected_row(v) {
        Some(Row::Staged(r, i)) => match entry_at(v, r, i, true) {
            Some(e) => diff_opened(v, r as int, e, true),
            None => (v, Seq::empty()),
        },
        Some(Row::Unstaged(r, i)) => match entry_at(v, r, i, false) {
            Some(e) => diff_opened(v, r as int, e, false),
            None => (v, Seq::empty()),
        },
        Some(Row::HistoryTree(i)) => match history_row(v, i as int) {
            Some(RowView::File { index, .. }) => history_file_opened(v, index as int),
            _ => (v, Seq::empty()),
        },
        _ => (v, Seq::empty()),
    }
}

pub open spec fn selected_row(v: AppView) -> Option<Row> {
    match v.selected {
        Some(i) if i < v.rows.len() => Some(v.rows[i as int]),
        _ => None,
    }
}

impl App {
    pub fn row_selected(&self) -> (r: Option<Row>)
        ensures
            r == selected_row(self@),
    {
        match self.selected {
            Some(i) => if i < self.rows.len() {
                Some(self.rows[i])
            } else {
                None
            },
            None => None,
        }
    }

    fn copied_entry(&self, repo: usize, row: usize, staged: bool) -> (r: Option<FileEntry>)
        ensures
            (match r {
                Some(e) => Some(e@),
                None => None,
            }) == entry_at(self@, repo, row, staged),
    {
        match self.status_entry(repo, row, staged) {
            Some(e) => Some(e.clone()),
            None => None,
        }
    }

    /// The row below a drawer's line.
    pub fn history_row(&self, i: usize) -> (r: Option<TreeRow>)
        ensures
            (match r {
                Some(row) => Some(row@),
                None => None,
            }) == history_row(self@, i as int),
    {
        match &self.expanded_ref {
            Some(e) => {
                assert(e@.rows.len() == e.rows@.len());
                if i < e.rows.len() {
                    Some(e.rows[i].clone())
                } else {
                    None
                }
            },
            None => None,
        }
    }

    /// Shows the diff of the selected row.
    pub fn open_selected_diff(&mut self) -> (r: Vec<Effect>)
        requires
            sound(old(self)@),
        ensures
            (final(self)@, effects(r@)) == selected_diff_opened(old(self)@),
            sound(final(self)@),
    {
        match self.row_selected() {
            Some(Row::Staged(r, i)) => match self.copied_entry(r, i, true) {
                Some(e) => self.open_diff(r, &e, true),
                None => no_effects(),
            },
            Some(Row::Unstaged(r, i)) => match self.copied_entry(r, i, false) {
                Some(e) => self.open_diff(r, &e, false),
                None => no_effects(),
            },
            Some(Row::HistoryTree(i)) => match self.history_row(i) {
                Some(TreeRow::File { index, .. }) => self.open_history_file(index),
                _ => no_effects(),
            },
            _ => no_effects(),
        }
    }
}

// ---- Opening drawers' lines ----

/// A drawer's line is selected.
pub open spec fn line_chosen(v: AppView, kind: Drawer, index: usize) -> Outcome {
    match place_of(v.rows, Row::DrawerLine(kind, index)) {
        Some(i) => chosen(v, i as int),
        None => (v, Seq::empty()),
    }
}

pub open spec fn ref_at(v: AppView, kind: Drawer, index: int) -> Option<DrawerRefView> {
    let p = panel(v, kind);
    if index < p.refs.len() {
        Some(p.refs[index])
    } else {
        None
    }
}

/// Whether files can be listed for what a line points at.
pub open spec fn has_files(r: DrawerRefView) -> bool {
    r is Commit || r is Tag || r is Branch || r is Stash
}

/// The files below a line are hidden, or asked for.
pub open spec fn ref_toggled(v: AppView, kind: Drawer, index: usize) -> Outcome {
    match ref_at(v, kind, index as int) {
        None => (v, Seq::empty()),
        Some(target) => if v.expanded_ref matches Some(e) && e.kind == kind && e.target == target {
            andthen(
                rebuilt(AppView { expanded_ref: None, ..v }),
                |a: AppView| line_chosen(a, kind, index),
            )
        } else if v.active < v.repos.len() && has_files(target) {
            (v, seq![EffectView::LoadRef(kind, index)])
        } else {
            (v, Seq::empty())
        },
    }
}

/// The files of what a line points at were read.
pub open spec fn ref_read(
    v: AppView,
    kind: Drawer,
    index: usize,
    files: Result<Seq<RefFileView>, Seq<char>>,
) -> Outcome {
    match ref_at(v, kind, index as int) {
        None => (v, Seq::empty()),
        Some(target) => {
            let e = ExpandedView {
                kind,
                target,
                files: match files {
                    Ok(f) => f,
                    Err(_) => Seq::empty(),
                },
                rows: Seq::empty(),
                collapsed: Set::empty(),
                error: match files {
                    Ok(_) => None,
                    Err(m) => Some(
                        if kind == Drawer::Tags {
                            "tag does not point to a commit"@
                        } else {
                            m
                        },
                    ),
                },
            };
            andthen(
                rebuilt(
                    AppView {
                        expanded_ref: Some(with_ref_rows(e, v.settings.scm_file_view)),
                        ..v
                    },
                ),
                |a: AppView| line_chosen(a, kind, index),
            )
        },
    }
}

/// A drawer's line is opened: a followed file's diff, the files of what it points
/// at, or the commit itself.
pub open spec fn line_opened(v: AppView, kind: Drawer, index: usize) -> Outcome {
    let p = panel(v, kind);
    if kind == Drawer::FileHistory {
        if index < p.files.len() && p.files[index as int] is Some {
            ref_diff_opened(v, v.active, p.files[index as int]->0)
        } else {
            (v, Seq::empty())
        }
    } else if has_file_tree(kind) {
        ref_toggled(v, kind, index)
    } else if kind != Drawer::Graph {
        (v, Seq::empty())
    } else if v.pane_id is None {
        (flashed(v, "preview needs a herdr pane"@, true), Seq::empty())
    } else if v.active < v.repos.len() {
        match ref_at(v, kind, index as int) {
            Some(DrawerRefView::Commit(hash)) => (
                v,
                seq![
                    EffectView::Preview(
                        payload(
                            RequestView::Show {
                                root: v.repos[v.active].root,
                                spec: hash,
                                path: None,
                            },
                        ),
                    ),
                ],
            ),
            _ => (v, Seq::empty()),
        }
    } else {
        (v, Seq::empty())
    }
}

pub open spec fn files_read(r: Result<Vec<RefFile>, String>) -> Result<Seq<RefFileView>, Seq<char>> {
    match r {
        Ok(v) => Ok(ref_files_view(v@)),
        Err(e) => Err(e@),
    }
}

impl App {
    /// Selects a drawer's line.
    pub fn select_drawer_line(&mut self, kind: Drawer, index: usize) -> (r: Vec<Effect>)
        requires
            sound(old(self)@),
        ensures
            (final(self)@, effects(r@)) == line_chosen(old(self)@, kind, index),
            sound(final(self)@),
    {
        match find_row(&self.rows, Row::DrawerLine(kind, index)) {
            Some(i) => self.select(i),
            None => no_effects(),
        }
    }

    /// What a drawer's line points at.
    pub fn drawer_ref(&self, kind: Drawer, index: usize) -> (r: Option<DrawerRef>)
        requires
            sound(self@),
        ensures
            (match r {
                Some(d) => Some(d@),
                None => None,
            }) == ref_at(self@, kind, index as int),
    {
        let at = kind.index();
        assert(self@.drawers.len() == self.drawers@.len());
        assert(self@.drawers[at as int] == self.drawers@[at as int]@);
        let p = &self.drawers[at];
        assert(p@.refs.len() == p.refs@.len());
        if index < p.refs.len() {
            Some(p.refs[index].clone())
        } else {
            None
        }
    }

    /// Hides the files below a line, or asks for them.
    pub fn toggle_expanded_ref(&mut self, kind: Drawer, index: usize) -> (r: Vec<Effect>)
        requires
            sound(old(self)@),
        ensures
            (final(self)@, effects(r@)) == ref_toggled(old(self)@, kind, index),
            sound(final(self)@),
    {
        let target = match self.drawer_ref(kind, index) {
            Some(target) => target,
            None => {
                return no_effects();
            },
        };
        let open = match &self.expanded_ref {
            Some(e) => e.kind == kind && e.target.same(&target),
            None => false,
        };
        if open {
            self.expanded_ref = None;
            let a = self.rebuild();
            let b = self.select_drawer_line(kind, index);
            return both(a, b);
        }
        if self.active >= self.repos.len() {
            return no_effects();
        }
        match target {
            DrawerRef::Commit(_)
            | DrawerRef::Tag(_)
            | DrawerRef::Branch { .. }
            | DrawerRef::Stash(_) => one_effect(Effect::LoadRef(kind, index)),
            _ => no_effects(),
        }
    }

    /// Shows the files that were read for a line, or why there are none.
    pub fn ref_loaded(&mut self, kind: Drawer, index: usize, result: Result<Vec<RefFile>, String>) -> (r:
        Vec<Effect>)
        requires
            sound(old(self)@),
        ensures
            (final(self)@, effects(r@)) == ref_read(old(self)@, kind, index, files_read(result)),
            sound(final(self)@),
    {
        let target = match self.drawer_ref(kind, index) {
            Some(target) => target,
            None => {
                return no_effects();
            },
        };
        let (files, error) = match result {
            Ok(files) => (files, None),
            Err(e) => {
                let none: Vec<RefFile> = Vec::new();
                assert(ref_files_view(none@) =~= Seq::empty());
                if kind == Drawer::Tags {
                    (none, Some("tag does not point to a commit".to_string()))
                } else {
                    (none, Some(e))
                }
            },
        };
        let mut expanded = ExpandedRef::new(kind, target, files, error);
        expanded.rebuild_rows(self.settings.scm_file_view);
        self.expanded_ref = Some(expanded);
        let a = self.rebuild();
        let b = self.select_drawer_line(kind, index);
        both(a, b)
    }

    /// Opens a drawer's line.
    pub fn open_drawer_ref(&mut self, kind: Drawer, index: usize) -> (r: Vec<Effect>)
        requires
            sound(old(self)@),
        ensures
            (final(self)@, effects(r@)) == line_opened(old(self)@, kind, index),
            sound(final(self)@),
    {
        if kind == Drawer::FileHistory {
            let at = kind.index();
            assert(self@.drawers.len() == self.drawers@.len());
            assert(self@.drawers[at as int] == self.drawers@[at as int]@);
            let p = &self.drawers[at];
            assert(p@.files.len() == p.files@.len());
            if index >= p.files.len() {
                return no_effects();
            }
            assert(p@.files[index as int] == opt_file(p.files@[index as int]));
            let file = match &p.files[index] {
                Some(f) => f.clone(),
                None => {
                    return no_effects();
                },
            };
            let active = self.active;
            return self.open_ref_diff(active, &file);
        }
        if kind.supports_file_tree() {
            return self.toggle_expanded_ref(kind, index);
        }
        if kind != Drawer::Graph {
            return no_effects();
        }
        if self.pane_id.is_none() {
            self.flash = Some(("preview needs a herdr pane".to_string(), true));
            return no_effects();
        }
        let active = self.active;
        if active >= self.repos.len() {
            return no_effects();
        }
        assert(self@.repos[active as int] == self.repos@[active as int]@);
        match self.drawer_ref(kind, index) {
            Some(DrawerRef::Commit(hash)) => one_effect(
                Effect::Preview(show_request(self.repos[active].git.root(), hash.as_str(), None)),
            ),
            _ => no_effects(),
        }
    }
}

// ---- Directories ----

/// A directory of a repository's changes is collapsed or opened.
pub open spec fn directory_toggled(v: AppView, repo: usize, row: usize, staged: bool) -> Outcome {
    match tree_row(v, repo, row, staged) {
        Some(RowView::Directory { path, expanded, .. }) => rebuilt(
            AppView {
                repos: v.repos.update(
                    repo as int,
                    with_toggled(v.repos[repo as int], path, expanded, staged),
                ),
                ..v
            },
        ),
        _ => (v, Seq::empty()),
    }
}

pub open spec fn with_toggled(r: RepoView, path: Seq<char>, expanded: bool, staged: bool) -> RepoView {
    if staged {
        RepoView { staged_dirs: toggled_path(r.staged_dirs, path, expanded), ..r }
    } else {
        RepoView { changes_dirs: toggled_path(r.changes_dirs, path, expanded), ..r }
    }
}

impl Repo {
    fn toggle_directory(&mut self, path: &str, expanded: bool, staged: bool)
        ensures
            final(self)@ == with_toggled(old(self)@, path@, expanded, staged),
    {
        if staged {
            toggle_collapsed_path(&mut self.staged_dirs, path, expanded);
        } else {
            toggle_collapsed_path(&mut self.changes_dirs, path, expanded);
        }
    }
}

/// A directory below a drawer's line is collapsed or opened.
pub open spec fn history_directory_toggled(v: AppView, row: int) -> Outcome {
    match (v.expanded_ref, history_row(v, row)) {
        (Some(e), Some(RowView::Directory { path, expanded, .. })) => rebuilt(
            AppView {
                expanded_ref: Some(
                    ExpandedView { collapsed: toggled_path(e.collapsed, path, expanded), ..e },
                ),
                ..v
            },
        ),
        _ => (v, Seq::empty()),
    }
}

impl App {
    pub fn toggle_status_directory(&mut self, repo: usize, row: usize, staged: bool) -> (r: Vec<Effect>)
        requires
            sound(old(self)@),
        ensures
            (final(self)@, effects(r@)) == directory_toggled(old(self)@, repo, row, staged),
            sound(final(self)@),
    {
        let (path, open) = match self.status_tree_row(repo, row, staged) {
            Some(TreeRow::Directory { path, expanded, .. }) => (path.clone(), *expanded),
            _ => {
                return no_effects();
            },
        };
        let ghost all = self@.repos;
        assert(all[repo as int] == self.repos@[repo as int]@);
        self.repos[repo].toggle_directory(path.as_str(), open, staged);
        proof {
            crate::scm_app::app::lemma_cursors_stay(
                all,
                repo as int,
                with_toggled(all[repo as int], path@, open, staged),
            );
        }
        assert(repos_view(self.repos@) =~= all.update(
            repo as int,
            with_toggled(all[repo as int], path@, open, staged),
        ));
        self.rebuild()
    }

    pub fn toggle_history_directory(&mut self, row: usize) -> (r: Vec<Effect>)
        requires
            sound(old(self)@),
        ensures
            (final(self)@, effects(r@)) == history_directory_toggled(old(self)@, row as int),
            sound(final(self)@),
    {
        let (path, open) = match self.history_row(row) {
            Some(TreeRow::Directory { path, expanded, .. }) => (path, expanded),
            _ => {
                return no_effects();
            },
        };
        if let Some(mut e) = self.expanded_ref.take() {
            toggle_collapsed_path(&mut e.collapsed, path.as_str(), open);
            self.expanded_ref = Some(e);
        }
        self.rebuild()
    }
}

/// What the arrow keys do at a row of a repository's changes.
pub open spec fn status_nav(
    v: AppView,
    sel: usize,
    repo: usize,
    index: usize,
    staged: bool,
    expand: bool,
) -> Outcome {
    match tree_row(v, repo, index, staged) {
        None => (v, Seq::empty()),
        Some(row) => {
            let rows = if staged {
                v.repos[repo as int].staged_rows
            } else {
                v.repos[repo as int].changes_rows
            };
            match nav_target(row, rows, index as int, expand) {
                Some(t) => {
                    let wanted = if staged {
                        Row::Staged(repo, t)
                    } else {
                        Row::Unstaged(repo, t)
                    };
                    match place_of(v.rows, wanted) {
                        Some(g) => chosen(v, g as int),
                        None => chosen(v, sel as int),
                    }
                },
                None => if row is Directory && row_open(row) != expand {
                    directory_toggled(v, repo, index, staged)
                } else {
                    (v, Seq::empty())
                },
            }
        },
    }
}

/// What the arrow keys do at a row below a drawer's line.
pub open spec fn history_nav(v: AppView, sel: usize, index: usize, expand: bool) -> Outcome {
    match history_row(v, index as int) {
        None => (v, Seq::empty()),
        Some(row) => match nav_target(row, v.expanded_ref->0.rows, index as int, expand) {
            Some(t) => match place_of(v.rows, Row::HistoryTree(t)) {
                Some(g) => chosen(v, g as int),
                None => (v, Seq::empty()),
            },
            None => if row is Directory && row_open(row) != expand {
                history_directory_toggled(v, index as int)
            } else {
                chosen(v, sel as int)
            },
        },
    }
}

/// What the arrow keys do at the selected row.
pub open spec fn navigated(v: AppView, expand: bool) -> Outcome {
    match selected_row(v) {
        Some(Row::Staged(r, i)) => status_nav(v, v.selected->0, r, i, true, expand),
        Some(Row::Unstaged(r, i)) => status_nav(v, v.selected->0, r, i, false, expand),
        Some(Row::HistoryTree(i)) => history_nav(v, v.selected->0, i, expand),
        _ => (v, Seq::empty()),
    }
}

fn is_open_directory(row: &TreeRow) -> (r: (bool, bool))
    ensures
        r.0 == (row@ is Directory),
        r.1 == row_open(row@),
{
    match row {
        TreeRow::Directory { expanded, .. } => (true, *expanded),
        TreeRow::File { .. } => (false, false),
    }
}

impl App {
    fn status_tree_nav(&mut self, sel: usize, repo: usize, index: usize, staged: bool, expand: bool) -> (r:
        Vec<Effect>)
        requires
            sound(old(self)@),
        ensures
            (final(self)@, effects(r@)) == status_nav(old(self)@, sel, repo, index, staged, expand),
            sound(final(self)@),
    {
        let row = match self.status_tree_row(repo, index, staged) {
            Some(row) => row.clone(),
            None => {
                return no_effects();
            },
        };
        assert(self@.repos[repo as int] == self.repos@[repo as int]@);
        let found = &self.repos[repo];
        assert(found@.staged_rows.len() == found.staged_rows@.len());
        assert(found@.changes_rows.len() == found.changes_rows@.len());
        let target = if staged {
            tree_nav_target(&row, &found.staged_rows, index, expand)
        } else {
            tree_nav_target(&row, &found.changes_rows, index, expand)
        };
        if let Some(t) = target {
            let wanted = if staged {
                Row::Staged(repo, t)
            } else {
                Row::Unstaged(repo, t)
            };
            return match find_row(&self.rows, wanted) {
                Some(g) => self.select(g),
                None => self.select(sel),
            };
        }
        let (directory, open) = is_open_directory(&row);
        if directory && open != expand {
            self.toggle_status_directory(repo, index, staged)
        } else {
            no_effects()
        }
    }

    fn history_tree_nav(&mut self, sel: usize, index: usize, expand: bool) -> (r: Vec<Effect>)
        requires
            sound(old(self)@),
        ensures
            (final(self)@, effects(r@)) == history_nav(old(self)@, sel, index, expand),
            sound(final(self)@),
    {
        let row = match self.history_row(index) {
            Some(row) => row,
            None => {
                return no_effects();
            },
        };
        let target = match &self.expanded_ref {
            Some(e) => {
                assert(e@.rows.len() == e.rows@.len());
                tree_nav_target(&row, &e.rows, index, expand)
            },
            None => None,
        };
        if let Some(t) = target {
            return match find_row(&self.rows, Row::HistoryTree(t)) {
                Some(g) => self.select(g),
                None => no_effects(),
            };
        }
        let (directory, open) = is_open_directory(&row);
        if directory && open != expand {
            self.toggle_history_directory(index)
        } else {
            self.select(sel)
        }
    }

    /// The right and left arrow keys: into and out of directories.
    pub fn tree_nav(&mut self, expand: bool) -> (r: Vec<Effect>)
        requires
            sound(old(self)@),
        ensures
            (final(self)@, effects(r@)) == navigated(old(self)@, expand),
            sound(final(self)@),
    {
        let sel = match self.selected {
            Some(sel) => sel,
            None => {
                return no_effects();
            },
        };
        match self.row_selected() {
            Some(Row::Staged(repo, index)) => self.status_tree_nav(sel, repo, index, true, expand),
            Some(Row::Unstaged(repo, index)) => self.status_tree_nav(
                sel,
                repo,
                index,
                false,
                expand,
            ),
            Some(Row::HistoryTree(index)) => self.history_tree_nav(sel, index, expand),
            _ => no_effects(),
        }
    }
}

} // verus!
