//! The part of the source control view that the sidebars of a workspace share.

use vstd::prelude::*;

use crate::git::{RefFile, RefFileView};
use crate::input::{least, monus, smaller, take_off};
use crate::path_set::PathSet;
use crate::scm_app::actions::{files_read, history_row, ref_read};
use crate::scm_app::app::{
    both, cursor_placed, cursors_placed, effects, no_effects, panel, rebuilt, row_path, sound, App,
    AppView, Effect, Outcome,
};
use crate::scm_app::drawers::{
    all_drawers, app_drawer, law_drawers_keep_their_identity, refs_view, sync_drawer, sync_ref, synced_drawer, synced_ref, Drawer,
    DrawerRefView, ScmDrawer, ScmRef, ScmRefView,
};
use crate::scm_app::layout::{Row, ScmFileView};
use crate::scm_app::state::{
    panels_view, repos_view, with_ref_rows, with_rows, DrawerPanel, ExpandedView, Focus, PanelView,
    Repo, RepoView,
};
use crate::text::{eq_text, opt_text};

verus! {

/// A row, named so that another sidebar finds it too.
pub enum ScmAnchor {
    Repo(String),
    Message(String),
    Commit(String),
    StagedHeader(String),
    ChangesHeader(String),
    Staged { repo: String, path: String },
    Changes { repo: String, path: String },
    DrawerHeader(ScmDrawer),
    DrawerLine { drawer: ScmDrawer, target: ScmRef },
    HistoryPath(String),
    HistoryNotice,
}

#[verifier::ext_equal]
pub enum AnchorView {
    Repo(Seq<char>),
    Message(Seq<char>),
    Commit(Seq<char>),
    StagedHeader(Seq<char>),
    ChangesHeader(Seq<char>),
    Staged { repo: Seq<char>, path: Seq<char> },
    Changes { repo: Seq<char>, path: Seq<char> },
    DrawerHeader(ScmDrawer),
    DrawerLine { drawer: ScmDrawer, target: ScmRefView },
    HistoryPath(Seq<char>),
    HistoryNotice,
}

impl View for ScmAnchor {
    type V = AnchorView;

    open spec fn view(&self) -> AnchorView {
        match *self {
            ScmAnchor::Repo(r) => AnchorView::Repo(r@),
            ScmAnchor::Message(r) => AnchorView::Message(r@),
            ScmAnchor::Commit(r) => AnchorView::Commit(r@),
            ScmAnchor::StagedHeader(r) => AnchorView::StagedHeader(r@),
            ScmAnchor::ChangesHeader(r) => AnchorView::ChangesHeader(r@),
            ScmAnchor::Staged { repo, path } => AnchorView::Staged { repo: repo@, path: path@ },
            ScmAnchor::Changes { repo, path } => AnchorView::Changes { repo: repo@, path: path@ },
            ScmAnchor::DrawerHeader(d) => AnchorView::DrawerHeader(d),
            ScmAnchor::DrawerLine { drawer, target } => AnchorView::DrawerLine {
                drawer,
                target: target@,
            },
            ScmAnchor::HistoryPath(p) => AnchorView::HistoryPath(p@),
            ScmAnchor::HistoryNotice => AnchorView::HistoryNotice,
        }
    }
}

impl ScmAnchor {
    pub fn same(&self, other: &ScmAnchor) -> (r: bool)
        ensures
            r == (self@ == other@),
    {
        match (self, other) {
            (ScmAnchor::Repo(a), ScmAnchor::Repo(b)) => eq_text(a.as_str(), b.as_str()),
            (ScmAnchor::Message(a), ScmAnchor::Message(b)) => eq_text(a.as_str(), b.as_str()),
            (ScmAnchor::Commit(a), ScmAnchor::Commit(b)) => eq_text(a.as_str(), b.as_str()),
            (ScmAnchor::StagedHeader(a), ScmAnchor::StagedHeader(b)) => eq_text(
                a.as_str(),
                b.as_str(),
            ),
            (ScmAnchor::ChangesHeader(a), ScmAnchor::ChangesHeader(b)) => eq_text(
                a.as_str(),
                b.as_str(),
            ),
            (
                ScmAnchor::Staged { repo: a, path: x },
                ScmAnchor::Staged { repo: b, path: y },
            ) => eq_text(a.as_str(), b.as_str()) && eq_text(x.as_str(), y.as_str()),
            (
                ScmAnchor::Changes { repo: a, path: x },
                ScmAnchor::Changes { repo: b, path: y },
            ) => eq_text(a.as_str(), b.as_str()) && eq_text(x.as_str(), y.as_str()),
            (ScmAnchor::DrawerHeader(a), ScmAnchor::DrawerHeader(b)) => *a == *b,
            (
                ScmAnchor::DrawerLine { drawer: a, target: x },
                ScmAnchor::DrawerLine { drawer: b, target: y },
            ) => *a == *b && x.same(y),
            (ScmAnchor::HistoryPath(a), ScmAnchor::HistoryPath(b)) => eq_text(
                a.as_str(),
                b.as_str(),
            ),
            (ScmAnchor::HistoryNotice, ScmAnchor::HistoryNotice) => true,
            _ => false,
        }
    }
}

pub open spec fn anchor_opt(a: Option<ScmAnchor>) -> Option<AnchorView> {
    match a {
        Some(a) => Some(a@),
        None => None,
    }
}

/// How a repository is shown.
pub struct ScmRepoState {
    pub root: String,
    pub collapsed: bool,
    pub staged_collapsed: bool,
    pub changes_collapsed: bool,
    pub staged_dirs: PathSet,
    pub changes_dirs: PathSet,
}

#[verifier::ext_equal]
pub struct RepoStateView {
    pub root: Seq<char>,
    pub collapsed: bool,
    pub staged_collapsed: bool,
    pub changes_collapsed: bool,
    pub staged_dirs: Set<Seq<char>>,
    pub changes_dirs: Set<Seq<char>>,
}

impl View for ScmRepoState {
    type V = RepoStateView;

    open spec fn view(&self) -> RepoStateView {
        RepoStateView {
            root: self.root@,
            collapsed: self.collapsed,
            staged_collapsed: self.staged_collapsed,
            changes_collapsed: self.changes_collapsed,
            staged_dirs: self.staged_dirs@,
            changes_dirs: self.changes_dirs@,
        }
    }
}

pub open spec fn repo_states(v: Seq<ScmRepoState>) -> Seq<RepoStateView> {
    v.map_values(|r: ScmRepoState| r@)
}

/// The line below which files are shown.
pub struct ExpandedScmRef {
    pub drawer: ScmDrawer,
    pub target: ScmRef,
    pub collapsed: PathSet,
}

#[verifier::ext_equal]
pub struct SharedRefView {
    pub drawer: ScmDrawer,
    pub target: ScmRefView,
    pub collapsed: Set<Seq<char>>,
}

impl View for ExpandedScmRef {
    type V = SharedRefView;

    open spec fn view(&self) -> SharedRefView {
        SharedRefView { drawer: self.drawer, target: self.target@, collapsed: self.collapsed@ }
    }
}

pub open spec fn shared_ref(e: Option<ExpandedScmRef>) -> Option<SharedRefView> {
    match e {
        Some(e) => Some(e@),
        None => None,
    }
}

/// What the sidebars of a workspace share of the view.
pub struct ScmState {
    pub active_repo: Option<String>,
    pub focus: Focus,
    pub selected: Option<ScmAnchor>,
    pub top: Option<ScmAnchor>,
    /// How many rows stand above that anchor.
    pub top_offset: usize,
    pub repos: Vec<ScmRepoState>,
    pub drawers: Vec<ScmDrawer>,
    pub expanded_ref: Option<ExpandedScmRef>,
}

#[verifier::ext_equal]
pub struct ScmStateView {
    pub active_repo: Option<Seq<char>>,
    pub focus: Focus,
    pub selected: Option<AnchorView>,
    pub top: Option<AnchorView>,
    pub top_offset: int,
    pub repos: Seq<RepoStateView>,
    pub drawers: Seq<ScmDrawer>,
    pub expanded_ref: Option<SharedRefView>,
}

impl View for ScmState {
    type V = ScmStateView;

    open spec fn view(&self) -> ScmStateView {
        ScmStateView {
            active_repo: opt_text(self.active_repo),
            focus: self.focus,
            selected: anchor_opt(self.selected),
            top: anchor_opt(self.top),
            top_offset: self.top_offset as int,
            repos: repo_states(self.repos@),
            drawers: self.drawers@,
            expanded_ref: shared_ref(self.expanded_ref),
        }
    }
}

// ---- Anchors ----

pub open spec fn root_of(v: AppView, repo: usize) -> Option<Seq<char>> {
    if repo < v.repos.len() {
        Some(v.repos[repo as int].root)
    } else {
        None
    }
}

/// The path that a row below a drawer's line shows.
pub open spec fn history_path(v: AppView, i: int) -> Option<Seq<char>> {
    match history_row(v, i) {
        Some(crate::change_tree::RowView::Directory { path, .. }) => Some(path),
        Some(crate::change_tree::RowView::File { index, .. }) => {
            let files = v.expanded_ref->0.files;
            if index < files.len() {
                Some(files[index as int].entry.path)
            } else {
                None
            }
        },
        None => None,
    }
}

/// A row as another sidebar finds it.
pub open spec fn anchor_of(v: AppView, row: Row) -> Option<AnchorView> {
    match row {
        Row::RepoHeader(r) => match root_of(v, r) {
            Some(root) => Some(AnchorView::Repo(root)),
            None => None,
        },
        Row::Message(r) => match root_of(v, r) {
            Some(root) => Some(AnchorView::Message(root)),
            None => None,
        },
        Row::Commit(r) => match root_of(v, r) {
            Some(root) => Some(AnchorView::Commit(root)),
            None => None,
        },
        Row::StagedHeader(r) => match root_of(v, r) {
            Some(root) => Some(AnchorView::StagedHeader(root)),
            None => None,
        },
        Row::ChangesHeader(r) => match root_of(v, r) {
            Some(root) => Some(AnchorView::ChangesHeader(root)),
            None => None,
        },
        Row::Staged(r, i) => match (root_of(v, r), row_path(v, r, i, true)) {
            (Some(repo), Some(path)) => Some(AnchorView::Staged { repo, path }),
            _ => None,
        },
        Row::Unstaged(r, i) => match (root_of(v, r), row_path(v, r, i, false)) {
            (Some(repo), Some(path)) => Some(AnchorView::Changes { repo, path }),
            _ => None,
        },
        Row::DrawerHeader(d) => Some(AnchorView::DrawerHeader(synced_drawer(d))),
        Row::DrawerLine(d, line) => if line < panel(v, d).refs.len() {
            Some(
                AnchorView::DrawerLine {
                    drawer: synced_drawer(d),
                    target: synced_ref(panel(v, d).refs[line as int]),
                },
            )
        } else {
            None
        },
        Row::HistoryTree(i) => match history_path(v, i as int) {
            Some(path) => Some(AnchorView::HistoryPath(path)),
            None => None,
        },
        Row::HistoryNotice => Some(AnchorView::HistoryNotice),
        Row::RepoSeparator => None,
    }
}

pub open spec fn anchor_at(v: AppView, i: int) -> Option<AnchorView> {
    if 0 <= i < v.rows.len() {
        anchor_of(v, v.rows[i])
    } else {
        None
    }
}

/// The first row at or after `i` with this anchor, or the number of rows.
pub open spec fn anchored(v: AppView, a: AnchorView, i: int) -> int
    decreases v.rows.len() - i,
{
    if i >= v.rows.len() {
        v.rows.len() as int
    } else if anchor_at(v, i) == Some(a) {
        i
    } else {
        anchored(v, a, i + 1)
    }
}

pub open spec fn found_anchor(v: AppView, a: Option<AnchorView>) -> Option<usize> {
    match a {
        Some(a) => {
            let i = anchored(v, a, 0);
            if i < v.rows.len() {
                Some(i as usize)
            } else {
                None
            }
        },
        None => None,
    }
}

/// The first row at or after `i` that has an anchor, or the number of rows.
pub open spec fn next_anchored(v: AppView, i: int) -> int
    decreases v.rows.len() - i,
{
    if i >= v.rows.len() {
        v.rows.len() as int
    } else if anchor_at(v, i) is Some {
        i
    } else {
        next_anchored(v, i + 1)
    }
}

/// The last row before `n` that has an anchor, or -1.
pub open spec fn last_anchored(v: AppView, n: int) -> int
    decreases n,
{
    if n <= 0 {
        -1
    } else if anchor_at(v, n - 1) is Some {
        n - 1
    } else {
        last_anchored(v, n - 1)
    }
}

/// The anchor at the top of the list, and how many rows stand above it.
pub open spec fn top_of(v: AppView) -> (Option<AnchorView>, int) {
    let i = next_anchored(v, v.scroll);
    if i < v.rows.len() {
        (anchor_at(v, i), i - v.scroll)
    } else {
        let j = last_anchored(v, v.scroll);
        (
            if j >= 0 {
                anchor_at(v, j)
            } else {
                None
            },
            0,
        )
    }
}

impl App {
    fn repo_root(&self, repo: usize) -> (r: Option<String>)
        ensures
            opt_text(r) == root_of(self@, repo),
    {
        if repo < self.repos.len() {
            assert(self@.repos[repo as int] == self.repos@[repo as int]@);
            Some(self.repos[repo].git.root().to_string())
        } else {
            None
        }
    }

    fn expanded_ref_path(&self, row: usize) -> (r: Option<String>)
        ensures
            opt_text(r) == history_path(self@, row as int),
    {
        match self.history_row(row) {
            Some(crate::change_tree::Row::Directory { path, .. }) => Some(path),
            Some(crate::change_tree::Row::File { index, .. }) => match &self.expanded_ref {
                Some(e) => {
                    assert(e@.files.len() == e.files@.len());
                    if index < e.files.len() {
                        Some(e.files[index].entry.path.clone())
                    } else {
                        None
                    }
                },
                None => None,
            },
            None => None,
        }
    }

    fn change_anchor(&self, repo: usize, row: usize, staged: bool) -> (r: Option<ScmAnchor>)
        ensures
            anchor_opt(r) == anchor_of(
                self@,
                if staged {
                    Row::Staged(repo, row)
                } else {
                    Row::Unstaged(repo, row)
                },
            ),
    {
        let repo_dir = match self.repo_root(repo) {
            Some(root) => root,
            None => {
                return None;
            },
        };
        let path = match self.status_row_path(repo, row, staged) {
            Some(path) => path,
            None => {
                return None;
            },
        };
        if staged {
            Some(ScmAnchor::Staged { repo: repo_dir, path })
        } else {
            Some(ScmAnchor::Changes { repo: repo_dir, path })
        }
    }

    fn repo_anchor(&self, row: Row) -> (r: Option<ScmAnchor>)
        requires
            row is RepoHeader || row is Message || row is Commit || row is StagedHeader
                || row is ChangesHeader,
        ensures
            anchor_opt(r) == anchor_of(self@, row),
    {
        let repo = match row.repo() {
            Some(repo) => repo,
            None => {
                return None;
            },
        };
        let root = match self.repo_root(repo) {
            Some(root) => root,
            None => {
                return None;
            },
        };
        Some(
            match row {
                Row::RepoHeader(_) => ScmAnchor::Repo(root),
                Row::Message(_) => ScmAnchor::Message(root),
                Row::Commit(_) => ScmAnchor::Commit(root),
                Row::StagedHeader(_) => ScmAnchor::StagedHeader(root),
                _ => ScmAnchor::ChangesHeader(root),
            },
        )
    }

    fn row_anchor(&self, row: Row) -> (r: Option<ScmAnchor>)
        requires
            sound(self@),
        ensures
            anchor_opt(r) == anchor_of(self@, row),
    {
        match row {
            Row::Staged(repo, i) => self.change_anchor(repo, i, true),
            Row::Unstaged(repo, i) => self.change_anchor(repo, i, false),
            Row::DrawerHeader(d) => Some(ScmAnchor::DrawerHeader(sync_drawer(d))),
            Row::DrawerLine(d, line) => match self.drawer_ref(d, line) {
                Some(target) => Some(
                    ScmAnchor::DrawerLine { drawer: sync_drawer(d), target: sync_ref(&target) },
                ),
                None => None,
            },
            Row::HistoryTree(i) => match self.expanded_ref_path(i) {
                Some(path) => Some(ScmAnchor::HistoryPath(path)),
                None => None,
            },
            Row::HistoryNotice => Some(ScmAnchor::HistoryNotice),
            Row::RepoSeparator => None,
            _ => self.repo_anchor(row),
        }
    }

    /// A row as another sidebar finds it.
    pub fn anchor_at(&self, index: usize) -> (r: Option<ScmAnchor>)
        requires
            sound(self@),
        ensures
            anchor_opt(r) == anchor_at(self@, index as int),
    {
        if index < self.rows.len() {
            self.row_anchor(self.rows[index])
        } else {
            None
        }
    }

    /// The row of an anchor.
    pub fn find_anchor(&self, anchor: &ScmAnchor) -> (r: Option<usize>)
        requires
            sound(self@),
        ensures
            r == found_anchor(self@, Some(anchor@)),
            r matches Some(i) ==> i < self@.rows.len(),
    {
        let mut i: usize = 0;
        while i < self.rows.len()
            invariant
                sound(self@),
                i <= self.rows@.len(),
                anchored(self@, anchor@, 0) == anchored(self@, anchor@, i as int),
            decreases self.rows@.len() - i,
        {
            let here = match self.anchor_at(i) {
                Some(a) => a.same(anchor),
                None => false,
            };
            if here {
                return Some(i);
            }
            i += 1;
        }
        None
    }

    /// The anchor at the top of the list, and how many rows stand above it.
    pub fn top_anchor(&self) -> (r: (Option<ScmAnchor>, usize))
        requires
            sound(self@),
        ensures
            (anchor_opt(r.0), r.1 as int) == top_of(self@),
    {
        let mut i = self.scroll;
        let ghost start = self@.scroll;
        while i < self.rows.len()
            invariant
                sound(self@),
                start == self@.scroll,
                self.scroll <= i,
                next_anchored(self@, start) == next_anchored(self@, i as int),
            decreases self.rows@.len() - i,
        {
            let a = self.anchor_at(i);
            if a.is_some() {
                return (a, i - self.scroll);
            }
            i += 1;
        }
        let mut n = self.scroll;
        while n > 0
            invariant
                sound(self@),
                start == self@.scroll,
                next_anchored(self@, start) >= self.rows@.len(),
                last_anchored(self@, start) == last_anchored(self@, n as int),
            decreases n,
        {
            let a = self.anchor_at(n - 1);
            if a.is_some() {
                return (a, 0);
            }
            n -= 1;
        }
        (None, 0)
    }
}

// ---- Sharing ----

pub open spec fn repo_state(r: RepoView) -> RepoStateView {
    RepoStateView {
        root: r.root,
        collapsed: r.collapsed,
        staged_collapsed: r.staged_collapsed,
        changes_collapsed: r.changes_collapsed,
        staged_dirs: r.staged_dirs,
        changes_dirs: r.changes_dirs,
    }
}

/// The open ones of the first `n` drawers.
pub open spec fn open_drawers(drawers: Seq<PanelView>, n: int) -> Seq<ScmDrawer>
    decreases n,
{
    if n <= 0 {
        Seq::empty()
    } else {
        let rest = open_drawers(drawers, n - 1);
        if drawers[n - 1].expanded {
            rest.push(synced_drawer(all_drawers()[n - 1]))
        } else {
            rest
        }
    }
}

pub open spec fn shared_of(e: Option<ExpandedView>) -> Option<SharedRefView> {
    match e {
        Some(e) => Some(
            SharedRefView {
                drawer: synced_drawer(e.kind),
                target: synced_ref(e.target),
                collapsed: e.collapsed,
            },
        ),
        None => None,
    }
}

/// What the sidebars of a workspace share of the view.
pub open spec fn state_of(v: AppView) -> ScmStateView {
    ScmStateView {
        active_repo: if v.active < v.repos.len() {
            Some(v.repos[v.active].root)
        } else {
            None
        },
        focus: v.focus,
        selected: match v.selected {
            Some(i) => anchor_at(v, i as int),
            None => None,
        },
        top: top_of(v).0,
        top_offset: top_of(v).1,
        repos: v.repos.map_values(|r: RepoView| repo_state(r)),
        drawers: open_drawers(v.drawers, 8),
        expanded_ref: shared_of(v.expanded_ref),
    }
}

impl App {
    fn shared_repos(&self) -> (r: Vec<ScmRepoState>)
        ensures
            repo_states(r@) == self@.repos.map_values(|r: RepoView| repo_state(r)),
    {
        let ghost want = self@.repos.map_values(|r: RepoView| repo_state(r));
        let mut out: Vec<ScmRepoState> = Vec::new();
        let mut i: usize = 0;
        while i < self.repos.len()
            invariant
                i <= self.repos@.len(),
                want == self@.repos.map_values(|r: RepoView| repo_state(r)),
                repo_states(out@) =~= want.take(i as int),
            decreases self.repos@.len() - i,
        {
            let ghost before = repo_states(out@);
            let repo = &self.repos[i];
            assert(self@.repos[i as int] == repo@);
            let one = ScmRepoState {
                root: repo.git.root().to_string(),
                collapsed: repo.collapsed,
                staged_collapsed: repo.staged_collapsed,
                changes_collapsed: repo.changes_collapsed,
                staged_dirs: repo.staged_dirs.clone(),
                changes_dirs: repo.changes_dirs.clone(),
            };
            out.push(one);
            assert(repo_states(out@) =~= before.push(one@));
            assert(one@ == repo_state(repo@));
            i += 1;
        }
        assert(self@.repos.len() == self.repos@.len());
        assert(want.take(i as int) =~= want);
        out
    }

    fn shared_drawers(&self) -> (r: Vec<ScmDrawer>)
        requires
            sound(self@),
        ensures
            r@ == open_drawers(self@.drawers, 8),
    {
        let kinds = Drawer::all();
        let mut out: Vec<ScmDrawer> = Vec::new();
        let mut i: usize = 0;
        assert(self@.drawers.len() == self.drawers@.len());
        while i < 8
            invariant
                i <= 8,
                self.drawers@.len() == 8,
                kinds@ == all_drawers(),
                out@ == open_drawers(self@.drawers, i as int),
            decreases 8 - i,
        {
            assert(self@.drawers[i as int] == self.drawers@[i as int]@);
            if self.drawers[i].expanded {
                out.push(sync_drawer(kinds[i]));
            }
            i += 1;
        }
        out
    }

    fn shared_expanded(&self) -> (r: Option<ExpandedScmRef>)
        ensures
            shared_ref(r) == shared_of(self@.expanded_ref),
    {
        match &self.expanded_ref {
            Some(e) => Some(
                ExpandedScmRef {
                    drawer: sync_drawer(e.kind),
                    target: sync_ref(&e.target),
                    collapsed: e.collapsed.clone(),
                },
            ),
            None => None,
        }
    }

    /// What the sidebars of a workspace share of the view.
    pub fn workspace_state(&self) -> (r: ScmState)
        requires
            sound(self@),
        ensures
            r@ == state_of(self@),
    {
        let selected = match self.selected {
            Some(i) => self.anchor_at(i),
            None => None,
        };
        let (top, top_offset) = self.top_anchor();
        let active_repo = self.repo_root(self.active);
        ScmState {
            active_repo,
            focus: self.focus,
            selected,
            top,
            top_offset,
            repos: self.shared_repos(),
            drawers: self.shared_drawers(),
            expanded_ref: self.shared_expanded(),
        }
    }
}

// ---- Following another sidebar ----

/// The file whose history another sidebar follows.
pub open spec fn shared_file(s: ScmStateView) -> Option<Seq<char>> {
    match s.selected {
        Some(AnchorView::Staged { path, .. }) => Some(path),
        Some(AnchorView::Changes { path, .. }) => Some(path),
        _ => None,
    }
}

/// Whether more than the selection differs.
pub open spec fn structure_differs(v: AppView, s: ScmStateView) -> bool {
    let now = state_of(v);
    ||| now.active_repo != s.active_repo
    ||| now.repos != s.repos
    ||| now.drawers != s.drawers
    ||| now.expanded_ref != s.expanded_ref
    ||| (s.drawers.contains(ScmDrawer::FileHistory) && shared_file(s) != v.history_target)
}

/// The selection and the place in the list are taken over.
pub open spec fn placed_as(v: AppView, s: ScmStateView) -> AppView {
    let selected = found_anchor(v, s.selected);
    let top = match found_anchor(v, s.top) {
        Some(i) => monus(i as int, s.top_offset),
        None => match selected {
            Some(i) => i as int,
            None => 0,
        },
    };
    AppView {
        selected,
        scroll: least(top, monus(v.rows.len() as int, 1)),
        snap: false,
        hovered: None,
        mouse_pos: None,
        ..v
    }
}

/// The first of the shared repositories at or after `i` with this root, or their
/// number.
pub open spec fn shared_at(repos: Seq<RepoStateView>, root: Seq<char>, i: int) -> int
    decreases repos.len() - i,
{
    if i >= repos.len() {
        repos.len() as int
    } else if repos[i].root == root {
        i
    } else {
        shared_at(repos, root, i + 1)
    }
}

/// The first repository at or after `i` with this root, or their number.
pub open spec fn repo_at(repos: Seq<RepoView>, root: Seq<char>, i: int) -> int
    decreases repos.len() - i,
{
    if i >= repos.len() {
        repos.len() as int
    } else if repos[i].root == root {
        i
    } else {
        repo_at(repos, root, i + 1)
    }
}

/// A repository as another sidebar shows it.
pub open spec fn shown_as(r: RepoView, shared: Seq<RepoStateView>, view: ScmFileView) -> RepoView {
    let i = shared_at(shared, r.root, 0);
    if i < shared.len() {
        with_rows(
            RepoView {
                collapsed: shared[i].collapsed,
                staged_collapsed: shared[i].staged_collapsed,
                changes_collapsed: shared[i].changes_collapsed,
                staged_dirs: shared[i].staged_dirs,
                changes_dirs: shared[i].changes_dirs,
                ..r
            },
            view,
        )
    } else {
        r
    }
}

/// Every repository as another sidebar shows it.
#[verifier::opaque]
pub open spec fn all_shown(
    repos: Seq<RepoView>,
    shared: Seq<RepoStateView>,
    view: ScmFileView,
) -> Seq<RepoView> {
    repos.map_values(|r: RepoView| shown_as(r, shared, view))
}

/// The drawers, open where another sidebar has them open.
#[verifier::opaque]
pub open spec fn opened_as(drawers: Seq<PanelView>, open: Seq<ScmDrawer>) -> Seq<PanelView> {
    Seq::new(
        8,
        |i: int|
            PanelView {
                expanded: open.contains(synced_drawer(all_drawers()[i])),
                ..drawers[i]
            },
    )
}

/// The repository that another sidebar works on.
pub open spec fn shared_active(v: AppView, s: ScmStateView) -> int {
    match s.active_repo {
        Some(root) => if repo_at(v.repos, root, 0) < v.repos.len() {
            repo_at(v.repos, root, 0)
        } else {
            v.active
        },
        None => v.active,
    }
}

/// The file whose history is followed with another sidebar.
pub open spec fn shared_target(v: AppView, s: ScmStateView) -> Option<Seq<char>> {
    if shared_file(s) is Some {
        shared_file(s)
    } else {
        v.history_target
    }
}

/// Repositories and drawers are opened and closed as in another sidebar, before
/// the drawers are read.
pub open spec fn arranged_as(v: AppView, s: ScmStateView) -> AppView {
    AppView {
        active: shared_active(v, s),
        repos: all_shown(v.repos, s.repos, v.settings.scm_file_view),
        history_target: shared_target(v, s),
        drawers: opened_as(v.drawers, s.drawers),
        expanded_ref: None,
        ..v
    }
}

/// What another sidebar shares is taken over; whether the drawers are to be read
/// before it is done.
pub open spec fn state_applied(v: AppView, s: ScmStateView) -> (AppView, bool) {
    let a = AppView { focus: s.focus, ..v };
    if structure_differs(v, s) {
        (arranged_as(a, s), true)
    } else {
        (placed_as(a, s), false)
    }
}

/// The first line at or after `i` that points at this, or their number.
pub open spec fn line_at(refs: Seq<DrawerRefView>, target: ScmRefView, i: int) -> int
    decreases refs.len() - i,
{
    if i >= refs.len() {
        refs.len() as int
    } else if synced_ref(refs[i]) == target {
        i
    } else {
        line_at(refs, target, i + 1)
    }
}

/// The line whose files another sidebar shows.
pub open spec fn shared_line(v: AppView, s: ScmStateView, kind: Drawer) -> Option<usize> {
    match s.expanded_ref {
        Some(e) => {
            let i = line_at(panel(v, kind).refs, e.target, 0);
            if i < panel(v, kind).refs.len() {
                Some(i as usize)
            } else {
                None
            }
        },
        None => None,
    }
}

impl ScmState {
    fn file(&self) -> (r: Option<String>)
        ensures
            opt_text(r) == shared_file(self@),
    {
        match &self.selected {
            Some(ScmAnchor::Staged { path, .. }) => Some(path.clone()),
            Some(ScmAnchor::Changes { path, .. }) => Some(path.clone()),
            _ => None,
        }
    }

    fn has_drawer(&self, drawer: ScmDrawer) -> (r: bool)
        ensures
            r == self@.drawers.contains(drawer),
    {
        let mut i: usize = 0;
        while i < self.drawers.len()
            invariant
                i <= self.drawers@.len(),
                forall|k: int| 0 <= k < i ==> self.drawers@[k] != drawer,
            decreases self.drawers@.len() - i,
        {
            if self.drawers[i] == drawer {
                assert(self.drawers@.contains(drawer));
                return true;
            }
            i += 1;
        }
        false
    }
}

fn same_opt(a: &Option<String>, b: &Option<String>) -> (r: bool)
    ensures
        r == (opt_text(*a) == opt_text(*b)),
{
    match (a, b) {
        (Some(a), Some(b)) => eq_text(a.as_str(), b.as_str()),
        (None, None) => true,
        _ => false,
    }
}

fn same_drawers(a: &Vec<ScmDrawer>, b: &Vec<ScmDrawer>) -> (r: bool)
    ensures
        r == (a@ == b@),
{
    if a.len() != b.len() {
        return false;
    }
    let mut i: usize = 0;
    while i < a.len()
        invariant
            i <= a@.len(),
            a@.len() == b@.len(),
            forall|k: int| 0 <= k < i ==> a@[k] == b@[k],
        decreases a@.len() - i,
    {
        if a[i] != b[i] {
            return false;
        }
        i += 1;
    }
    assert(a@ =~= b@);
    true
}

fn same_repo(a: &ScmRepoState, b: &ScmRepoState) -> (r: bool)
    ensures
        r == (a@ == b@),
{
    eq_text(a.root.as_str(), b.root.as_str()) && a.collapsed == b.collapsed && a.staged_collapsed
        == b.staged_collapsed && a.changes_collapsed == b.changes_collapsed && a.staged_dirs.same(
        &b.staged_dirs,
    ) && a.changes_dirs.same(&b.changes_dirs)
}

fn same_repos(a: &Vec<ScmRepoState>, b: &Vec<ScmRepoState>) -> (r: bool)
    ensures
        r == (repo_states(a@) == repo_states(b@)),
{
    let ghost x = repo_states(a@);
    let ghost y = repo_states(b@);
    assert(x.len() == a@.len() && y.len() == b@.len());
    if a.len() != b.len() {
        return false;
    }
    let mut i: usize = 0;
    while i < a.len()
        invariant
            i <= a@.len(),
            a@.len() == b@.len(),
            x == repo_states(a@),
            y == repo_states(b@),
            forall|k: int| 0 <= k < i ==> x[k] == y[k],
        decreases a@.len() - i,
    {
        assert(x[i as int] == a@[i as int]@ && y[i as int] == b@[i as int]@);
        if !same_repo(&a[i], &b[i]) {
            return false;
        }
        i += 1;
    }
    assert(x =~= y);
    true
}

fn same_expanded(a: &Option<ExpandedScmRef>, b: &Option<ExpandedScmRef>) -> (r: bool)
    ensures
        r == (shared_ref(*a) == shared_ref(*b)),
{
    match (a, b) {
        (Some(a), Some(b)) => a.drawer == b.drawer && a.target.same(&b.target)
            && a.collapsed.same(&b.collapsed),
        (None, None) => true,
        _ => false,
    }
}

impl Repo {
    fn show_as(&mut self, shared: &Vec<ScmRepoState>, view: ScmFileView)
        ensures
            final(self)@ == shown_as(old(self)@, repo_states(shared@), view),
    {
        let ghost all = repo_states(shared@);
        let ghost root = self@.root;
        assert(all.len() == shared@.len());
        let mut i: usize = 0;
        while i < shared.len() && !eq_text(shared[i].root.as_str(), self.git.root())
            invariant
                i <= shared@.len(),
                all == repo_states(shared@),
                self@ == old(self)@,
                root == self@.root,
                shared_at(all, root, 0) == shared_at(all, root, i as int),
            decreases shared@.len() - i,
        {
            assert(all[i as int] == shared@[i as int]@);
            i += 1;
        }
        if i < shared.len() {
            assert(all[i as int] == shared@[i as int]@);
            let s = &shared[i];
            self.collapsed = s.collapsed;
            self.staged_collapsed = s.staged_collapsed;
            self.changes_collapsed = s.changes_collapsed;
            self.staged_dirs = s.staged_dirs.clone();
            self.changes_dirs = s.changes_dirs.clone();
            self.rebuild_file_rows(view);
        }
    }
}

impl App {
    fn differs(&self, state: &ScmState) -> (r: bool)
        requires
            sound(self@),
        ensures
            r == structure_differs(self@, state@),
    {
        let now = self.workspace_state();
        let follows = state.has_drawer(ScmDrawer::FileHistory);
        let file = state.file();
        !same_opt(&now.active_repo, &state.active_repo) || !same_repos(&now.repos, &state.repos)
            || !same_drawers(&now.drawers, &state.drawers) || !same_expanded(
            &now.expanded_ref,
            &state.expanded_ref,
        ) || (follows && !same_opt(&file, &self.history_target))
    }

    /// Takes over the selection and the place in the list.
    pub fn finish_workspace_state(&mut self, state: &ScmState)
        requires
            sound(old(self)@),
        ensures
            final(self)@ == placed_as(old(self)@, state@),
            sound(final(self)@),
    {
        let selected = match &state.selected {
            Some(a) => self.find_anchor(a),
            None => None,
        };
        let top = match &state.top {
            Some(a) => self.find_anchor(a),
            None => None,
        };
        let top = match top {
            Some(i) => take_off(i, state.top_offset),
            None => match selected {
                Some(i) => i,
                None => 0,
            },
        };
        self.selected = selected;
        self.scroll = smaller(top, take_off(self.rows.len(), 1));
        self.snap = false;
        self.hovered = None;
        self.mouse_pos = None;
    }

    fn find_repo(&self, root: &str) -> (r: usize)
        ensures
            r == repo_at(self@.repos, root@, 0),
    {
        let mut i: usize = 0;
        while i < self.repos.len()
            invariant
                i <= self.repos@.len(),
                repo_at(self@.repos, root@, 0) == repo_at(self@.repos, root@, i as int),
            decreases self.repos@.len() - i,
        {
            assert(self@.repos[i as int] == self.repos@[i as int]@);
            if eq_text(self.repos[i].git.root(), root) {
                return i;
            }
            i += 1;
        }
        assert(self@.repos.len() == self.repos@.len());
        self.repos.len()
    }

    fn show_repos_as(&mut self, shared: &Vec<ScmRepoState>)
        ensures
            final(self)@ == (AppView {
                repos: all_shown(
                    old(self)@.repos,
                    repo_states(shared@),
                    old(self)@.settings.scm_file_view,
                ),
                ..old(self)@
            }),
            final(self)@.repos.len() == old(self)@.repos.len(),
            cursors_placed(old(self)@.repos) ==> cursors_placed(final(self)@.repos),
    {
        reveal(all_shown);
        reveal(cursors_placed);
        let view = self.settings.scm_file_view;
        let ghost all = self@.repos;
        let ghost want = all.map_values(|r: RepoView| shown_as(r, repo_states(shared@), view));
        let mut repos: Vec<Repo> = Vec::new();
        std::mem::swap(&mut repos, &mut self.repos);
        let total = repos.len();
        let mut k: usize = 0;
        while k < total
            invariant
                k <= total,
                total == repos@.len(),
                all.len() == total,
                want == all.map_values(
                    |r: RepoView| shown_as(r, repo_states(shared@), view),
                ),
                forall|j: int| 0 <= j < k ==> (#[trigger] repos@[j])@ == want[j],
                forall|j: int| k <= j < total ==> (#[trigger] repos@[j])@ == all[j],
            decreases total - k,
        {
            let ghost before = repos@;
            repos[k].show_as(shared, view);
            assert(repos@[k as int]@ == want[k as int]);
            assert forall|j: int| 0 <= j < total && j != k implies #[trigger] repos@[j]
                == before[j] by {};
            k += 1;
        }
        assert(repos_view(repos@) =~= want);
        assert forall|i: int| 0 <= i < total && cursor_placed(all[i]) implies cursor_placed(
            #[trigger] want[i],
        ) by {
            assert(want[i] == shown_as(all[i], repo_states(shared@), view));
        }
        assert(cursors_placed(all) ==> cursors_placed(want));
        self.repos = repos;
    }

    fn open_drawers_as(&mut self, state: &ScmState)
        requires
            old(self)@.drawers.len() == 8,
        ensures
            final(self)@ == (AppView {
                drawers: opened_as(old(self)@.drawers, state@.drawers),
                ..old(self)@
            }),
            final(self)@.drawers.len() == 8,
    {
        reveal(opened_as);
        let ghost all = self@.drawers;
        let ghost want = Seq::new(
            8,
            |i: int|
                PanelView {
                    expanded: state@.drawers.contains(synced_drawer(all_drawers()[i])),
                    ..all[i]
                },
        );
        let kinds = Drawer::all();
        let mut drawers: Vec<DrawerPanel> = Vec::new();
        std::mem::swap(&mut drawers, &mut self.drawers);
        let mut k: usize = 0;
        while k < 8
            invariant
                k <= 8,
                drawers@.len() == 8,
                kinds@ == all_drawers(),
                want.len() == 8,
                all.len() == 8,
                forall|j: int| 0 <= j < 8 ==> want[j] == (PanelView {
                    expanded: state@.drawers.contains(synced_drawer(all_drawers()[j])),
                    ..all[j]
                }),
                forall|j: int| 0 <= j < k ==> (#[trigger] drawers@[j])@ == want[j],
                forall|j: int| k <= j < 8 ==> (#[trigger] drawers@[j])@ == all[j],
            decreases 8 - k,
        {
            let ghost before = drawers@;
            let open = state.has_drawer(sync_drawer(kinds[k]));
            drawers[k].expanded = open;
            assert(drawers@[k as int]@ == want[k as int]);
            assert forall|j: int| 0 <= j < 8 && j != k implies #[trigger] drawers@[j]
                == before[j] by {};
            k += 1;
        }
        assert(panels_view(drawers@) =~= want);
        self.drawers = drawers;
    }

    fn shared_active(&self, state: &ScmState) -> (r: usize)
        ensures
            r == shared_active(self@, state@),
    {
        match &state.active_repo {
            Some(root) => {
                let i = self.find_repo(root.as_str());
                assert(self@.repos.len() == self.repos@.len());
                if i < self.repos.len() {
                    i
                } else {
                    self.active
                }
            },
            None => self.active,
        }
    }

    fn shared_target(&self, state: &ScmState) -> (r: Option<String>)
        ensures
            opt_text(r) == shared_target(self@, state@),
    {
        match state.file() {
            Some(path) => Some(path),
            None => match &self.history_target {
                Some(path) => Some(path.clone()),
                None => None,
            },
        }
    }

    fn arrange_as(&mut self, state: &ScmState)
        requires
            sound(old(self)@),
        ensures
            final(self)@ == arranged_as(old(self)@, state@),
            sound(final(self)@),
    {
        let active = self.shared_active(state);
        let target = self.shared_target(state);
        self.show_repos_as(&state.repos);
        self.open_drawers_as(state);
        self.active = active;
        self.history_target = target;
        self.expanded_ref = None;
    }

    /// Takes over what another sidebar shares; whether the drawers are to be read
    /// before it is done.
    pub fn apply_workspace_state(&mut self, state: &ScmState) -> (r: bool)
        requires
            sound(old(self)@),
        ensures
            (final(self)@, r) == state_applied(old(self)@, state@),
            sound(final(self)@),
    {
        let differs = self.differs(state);
        self.focus = state.focus;
        if !differs {
            self.finish_workspace_state(state);
            return false;
        }
        self.arrange_as(state);
        true
    }

    fn find_shared_line(&self, target: &ScmRef, kind: Drawer) -> (r: Option<usize>)
        requires
            sound(self@),
        ensures
            ({
                let refs = panel(self@, kind).refs;
                let i = line_at(refs, target@, 0);
                r == (if i < refs.len() {
                    Some(i as usize)
                } else {
                    None
                })
            }),
    {
        let at = kind.index();
        assert(self@.drawers.len() == self.drawers@.len());
        assert(self@.drawers[at as int] == self.drawers@[at as int]@);
        let p = &self.drawers[at];
        let ghost refs = p@.refs;
        assert(refs.len() == p.refs@.len());
        let mut i: usize = 0;
        while i < p.refs.len()
            invariant
                i <= p.refs@.len(),
                refs == refs_view(p.refs@),
                refs == panel(self@, kind).refs,
                refs.len() == p.refs@.len(),
                line_at(refs, target@, 0) == line_at(refs, target@, i as int),
            decreases p.refs@.len() - i,
        {
            assert(refs[i as int] == p.refs@[i as int]@);
            if sync_ref(&p.refs[i]).same(target) {
                return Some(i);
            }
            i += 1;
        }
        None
    }

    /// Goes on after the drawers were read: asks for the files of the line whose
    /// files another sidebar shows.
    pub fn workspace_drawers_loaded(&mut self, state: &ScmState) -> (r: (
        Vec<Effect>,
        Option<(Drawer, usize)>,
    ))
        requires
            sound(old(self)@),
        ensures
            (final(self)@, effects((r.0)@)) == rebuilt(old(self)@),
            match state@.expanded_ref {
                Some(e) => match r.1 {
                    Some((kind, i)) => synced_drawer(kind) == e.drawer && shared_line(
                        final(self)@,
                        state@,
                        kind,
                    ) == Some(i),
                    None => forall|kind: Drawer|
                        synced_drawer(kind) == e.drawer ==> #[trigger] shared_line(
                            final(self)@,
                            state@,
                            kind,
                        ) is None,
                },
                None => r.1 is None,
            },
            sound(final(self)@),
    {
        let e = self.rebuild();
        let line = match &state.expanded_ref {
            Some(shared) => {
                let kind = app_drawer(shared.drawer);
                match self.find_shared_line(&shared.target, kind) {
                    Some(i) => Some((kind, i)),
                    None => None,
                }
            },
            None => None,
        };
        (e, line)
    }

    /// Goes on after the files of a line were read: shows them with the directories
    /// collapsed that another sidebar has collapsed.
    pub fn workspace_ref_loaded(
        &mut self,
        state: &ScmState,
        kind: Drawer,
        index: usize,
        result: Result<Vec<RefFile>, String>,
    ) -> (r: Vec<Effect>)
        requires
            sound(old(self)@),
        ensures
            (final(self)@, effects(r@)) == ref_taken_over(
                old(self)@,
                state@,
                kind,
                index,
                files_read(result),
            ),
            sound(final(self)@),
    {
        let e = self.ref_loaded(kind, index, result);
        let shared = match &state.expanded_ref {
            Some(shared) => shared,
            None => {
                return both(e, no_effects());
            },
        };
        if let Some(mut x) = self.expanded_ref.take() {
            x.collapsed = shared.collapsed.clone();
            x.rebuild_rows(self.settings.scm_file_view);
            self.expanded_ref = Some(x);
            let f = self.rebuild();
            return both(e, f);
        }
        both(e, no_effects())
    }
}

/// The files of a line are shown as in another sidebar.
pub open spec fn ref_taken_over(
    v: AppView,
    s: ScmStateView,
    kind: Drawer,
    index: usize,
    files: Result<Seq<RefFileView>, Seq<char>>,
) -> Outcome {
    let (a, e) = ref_read(v, kind, index, files);
    let (b, f) = match (a.expanded_ref, s.expanded_ref) {
        (Some(x), Some(shared)) => rebuilt(
            AppView {
                expanded_ref: Some(
                    with_ref_rows(
                        ExpandedView { collapsed: shared.collapsed, ..x },
                        a.settings.scm_file_view,
                    ),
                ),
                ..a
            },
        ),
        _ => (a, Seq::empty()),
    };
    (b, e + f)
}

proof fn lemma_anchored(v: AppView, a: AnchorView, i: int)
    requires
        0 <= i,
    ensures
        anchored(v, a, i) < v.rows.len() ==> anchor_at(v, anchored(v, a, i)) == Some(a),
        forall|k: int|
            i <= k < v.rows.len() && #[trigger] anchor_at(v, k) == Some(a) ==> anchored(v, a, i)
                <= k,
    decreases v.rows.len() - i,
{
    if i < v.rows.len() && anchor_at(v, i) != Some(a) {
        lemma_anchored(v, a, i + 1);
    }
}

/// What a sidebar shares finds its way back: taking over one's own state selects
/// a row with the same name, and nothing has to be read.
pub proof fn law_own_state_changes_no_selection(v: AppView)
    requires
        v.rows.len() <= usize::MAX,
        !state_of(v).drawers.contains(ScmDrawer::FileHistory),
    ensures
        ({
            let s = state_of(v);
            let (w, read) = state_applied(v, s);
            &&& !read
            &&& w.rows == v.rows
            &&& w.focus == v.focus
            &&& state_of(w).selected == s.selected
        }),
{
    let s = state_of(v);
    let w = placed_as(AppView { focus: s.focus, ..v }, s);
    assert(state_applied(v, s) == (w, false));
    if let Some(a) = s.selected {
        let i = v.selected->0 as int;
        let u = AppView { focus: s.focus, ..v };
        assert forall|k: int| #[trigger] anchor_at(u, k) == anchor_at(v, k) by {
            lemma_anchor_depends(v, u, k);
        }
        lemma_anchored(u, a, 0);
        assert(anchor_at(u, i) == Some(a));
        let k = anchored(u, a, 0);
        assert(k <= i);
        assert(w.selected == Some(k as usize));
        lemma_anchor_depends(u, w, k);
    }
}

/// Where two sidebars list the same rows, and no row above the topmost one has its
/// name, what one shares is all that the other shares once it took it over: the
/// selection and the place in the list among it.
pub proof fn law_shared_state_is_taken_over(u: AppView, w: AppView)
    requires
        u.rows == w.rows,
        u.repos == w.repos,
        u.drawers == w.drawers,
        u.expanded_ref == w.expanded_ref,
        u.active == w.active,
        0 < u.rows.len() <= usize::MAX,
        0 <= u.scroll,
        top_of(u).0 matches Some(a) ==> next_anchored(u, u.scroll) >= u.rows.len() || anchored(
            u,
            a,
            0,
        ) == next_anchored(u, u.scroll),
        state_of(u).drawers.contains(ScmDrawer::FileHistory) ==> shared_file(state_of(u))
            == w.history_target,
    ensures
        !state_applied(w, state_of(u)).1,
        state_of(state_applied(w, state_of(u)).0) == state_of(u),
{
    let s = state_of(u);
    let x = AppView { focus: s.focus, ..w };
    let p = placed_as(x, s);
    lemma_structure_is_shared(u, w);
    assert(state_applied(w, s) == (p, false));
    lemma_structure_is_shared(u, p);
    lemma_place_is_found(u, x);
    lemma_selection_is_found(u, x);
    assert(p.focus == s.focus);
}

/// Where two sidebars have the same repositories, each with its own root, one that
/// takes over what the other shares folds the repositories and opens the drawers
/// as the other does, and works on the same repository.
pub proof fn law_shared_arrangement_is_taken_over(u: AppView, v: AppView)
    requires
        u.drawers.len() == 8,
        v.repos.len() == u.repos.len(),
        forall|k: int| 0 <= k < u.repos.len() ==> (#[trigger] v.repos[k]).root == u.repos[k].root,
        forall|i: int, j: int|
            0 <= i < j < u.repos.len() ==> (#[trigger] u.repos[i]).root != (
            #[trigger] u.repos[j]).root,
        0 <= u.active < u.repos.len(),
    ensures
        ({
            let a = state_of(arranged_as(v, state_of(u)));
            &&& a.repos == state_of(u).repos
            &&& a.drawers == state_of(u).drawers
            &&& a.active_repo == state_of(u).active_repo
        }),
{
    reveal(all_shown);
    reveal(opened_as);
    let s = state_of(u);
    let a = arranged_as(v, s);
    assert forall|k: int| 0 <= k < u.repos.len() implies #[trigger] state_of(a).repos[k]
        == s.repos[k] by {
        assert(s.repos[k] == repo_state(u.repos[k]));
        assert forall|j: int| 0 <= j < k implies (#[trigger] s.repos[j]).root != s.repos[k].root by {
            assert(u.repos[j].root != u.repos[k].root);
        }
        lemma_shared_at(s.repos, k, 0);
        assert(v.repos[k].root == u.repos[k].root);
        assert(a.repos[k] == shown_as(v.repos[k], s.repos, v.settings.scm_file_view));
    }
    assert(state_of(a).repos =~= s.repos);
    assert forall|i: int| 0 <= i < 8 implies (#[trigger] a.drawers[i]).expanded
        == u.drawers[i].expanded by {
        lemma_open_contains(u.drawers, 8, i);
    }
    lemma_same_open(a.drawers, u.drawers, 8);
    let n = u.active as int;
    assert forall|j: int| 0 <= j < n implies (#[trigger] v.repos[j]).root != v.repos[n].root by {
        assert(u.repos[j].root != u.repos[n].root);
    }
    lemma_repo_at(v.repos, n, 0);
    assert(v.repos[n].root == u.repos[n].root);
    assert(a.active == n);
    assert(a.repos[n].root == u.repos[n].root) by {
        assert(state_of(a).repos[n] == s.repos[n]);
    }
}

proof fn lemma_shared_at(repos: Seq<RepoStateView>, k: int, i: int)
    requires
        0 <= i <= k < repos.len(),
        forall|j: int| i <= j < k ==> (#[trigger] repos[j]).root != repos[k].root,
    ensures
        shared_at(repos, repos[k].root, i) == k,
    decreases k - i,
{
    if i < k {
        lemma_shared_at(repos, k, i + 1);
    }
}

proof fn lemma_repo_at(repos: Seq<RepoView>, k: int, i: int)
    requires
        0 <= i <= k < repos.len(),
        forall|j: int| i <= j < k ==> (#[trigger] repos[j]).root != repos[k].root,
    ensures
        repo_at(repos, repos[k].root, i) == k,
    decreases k - i,
{
    if i < k {
        lemma_repo_at(repos, k, i + 1);
    }
}

proof fn lemma_open_contains(drawers: Seq<PanelView>, n: int, i: int)
    requires
        0 <= n <= 8,
        0 <= i < 8,
    ensures
        open_drawers(drawers, n).contains(synced_drawer(all_drawers()[i])) <==> i < n
            && drawers[i].expanded,
    decreases n,
{
    if n > 0 {
        lemma_open_contains(drawers, n - 1, i);
        let rest = open_drawers(drawers, n - 1);
        let d = synced_drawer(all_drawers()[n - 1]);
        let want = synced_drawer(all_drawers()[i]);
        assert(d == want <==> i == n - 1) by {
            law_drawers_keep_their_identity(all_drawers()[n - 1], all_drawers()[i]);
        }
        if drawers[n - 1].expanded {
            let all = rest.push(d);
            assert(all[rest.len() as int] == d);
            if rest.contains(want) {
                let k = choose|k: int| 0 <= k < rest.len() && rest[k] == want;
                assert(all[k] == want);
            }
            if all.contains(want) && d != want {
                let k = choose|k: int| 0 <= k < all.len() && all[k] == want;
                assert(rest[k] == want);
            }
        }
    }
}

proof fn lemma_same_open(a: Seq<PanelView>, b: Seq<PanelView>, n: int)
    requires
        n <= 8,
        forall|i: int| 0 <= i < n ==> (#[trigger] a[i]).expanded == b[i].expanded,
    ensures
        open_drawers(a, n) == open_drawers(b, n),
    decreases n,
{
    if n > 0 {
        lemma_same_open(a, b, n - 1);
        assert(a[n - 1].expanded == b[n - 1].expanded);
    }
}

proof fn lemma_structure_is_shared(u: AppView, w: AppView)
    requires
        u.repos == w.repos,
        u.drawers == w.drawers,
        u.expanded_ref == w.expanded_ref,
        u.active == w.active,
    ensures
        state_of(w).repos == state_of(u).repos,
        state_of(w).drawers == state_of(u).drawers,
        state_of(w).expanded_ref == state_of(u).expanded_ref,
        state_of(w).active_repo == state_of(u).active_repo,
{
}

proof fn lemma_selection_is_found(u: AppView, w: AppView)
    requires
        u.rows == w.rows,
        u.repos == w.repos,
        u.drawers == w.drawers,
        u.expanded_ref == w.expanded_ref,
        u.rows.len() <= usize::MAX,
    ensures
        state_of(placed_as(w, state_of(u))).selected == state_of(u).selected,
{
    let s = state_of(u);
    let p = placed_as(w, s);
    if let Some(a) = s.selected {
        let i = u.selected->0 as int;
        lemma_anchored(w, a, 0);
        lemma_anchor_depends(u, w, i);
        assert(anchor_at(w, i) == Some(a));
        let k = anchored(w, a, 0);
        assert(k <= i);
        assert(p.selected == Some(k as usize));
        lemma_anchor_depends(w, p, k);
    }
}

proof fn lemma_next_anchored(v: AppView, i: int)
    requires
        0 <= i,
    ensures
        next_anchored(v, i) < v.rows.len() ==> i <= next_anchored(v, i) && anchor_at(
            v,
            next_anchored(v, i),
        ) is Some,
        next_anchored(v, i) >= v.rows.len() ==> forall|k: int|
            i <= k < v.rows.len() ==> #[trigger] anchor_at(v, k) is None,
    decreases v.rows.len() - i,
{
    if i < v.rows.len() && anchor_at(v, i) is None {
        lemma_next_anchored(v, i + 1);
    }
}

proof fn lemma_last_anchored(v: AppView, n: int)
    ensures
        last_anchored(v, n) >= 0 ==> last_anchored(v, n) < n && anchor_at(
            v,
            last_anchored(v, n),
        ) is Some,
        last_anchored(v, n) >= -1,
        last_anchored(v, n) < 0 ==> forall|k: int|
            0 <= k < n ==> #[trigger] anchor_at(v, k) is None,
    decreases n,
{
    if n > 0 && anchor_at(v, n - 1) is None {
        lemma_last_anchored(v, n - 1);
    }
}

proof fn lemma_anchors_depend(v: AppView, w: AppView)
    requires
        v.rows == w.rows,
        v.repos == w.repos,
        v.drawers == w.drawers,
        v.expanded_ref == w.expanded_ref,
    ensures
        forall|k: int| #[trigger] anchor_at(v, k) == anchor_at(w, k),
        forall|a: AnchorView, k: int|
            0 <= k ==> #[trigger] anchored(v, a, k) == anchored(w, a, k),
        forall|k: int| 0 <= k ==> #[trigger] next_anchored(v, k) == next_anchored(w, k),
        forall|k: int| #[trigger] last_anchored(v, k) == last_anchored(w, k),
{
    assert forall|k: int| #[trigger] anchor_at(v, k) == anchor_at(w, k) by {
        lemma_anchor_depends(v, w, k);
    }
    assert forall|a: AnchorView, k: int| 0 <= k implies #[trigger] anchored(v, a, k) == anchored(
        w,
        a,
        k,
    ) by {
        lemma_search_depends(v, w, a, k);
    }
    assert forall|k: int| 0 <= k implies #[trigger] next_anchored(v, k) == next_anchored(w, k) by {
        lemma_next_depends(v, w, k);
    }
    assert forall|k: int| #[trigger] last_anchored(v, k) == last_anchored(w, k) by {
        lemma_last_depends(v, w, k);
    }
}

proof fn lemma_search_depends(v: AppView, w: AppView, a: AnchorView, k: int)
    requires
        v.rows == w.rows,
        forall|j: int| #[trigger] anchor_at(v, j) == anchor_at(w, j),
    ensures
        anchored(v, a, k) == anchored(w, a, k),
    decreases v.rows.len() - k,
{
    if k < v.rows.len() {
        lemma_search_depends(v, w, a, k + 1);
        assert(anchor_at(v, k) == anchor_at(w, k));
    }
}

proof fn lemma_next_depends(v: AppView, w: AppView, k: int)
    requires
        v.rows == w.rows,
        forall|j: int| #[trigger] anchor_at(v, j) == anchor_at(w, j),
    ensures
        next_anchored(v, k) == next_anchored(w, k),
    decreases v.rows.len() - k,
{
    if k < v.rows.len() {
        lemma_next_depends(v, w, k + 1);
        assert(anchor_at(v, k) == anchor_at(w, k));
    }
}

proof fn lemma_last_depends(v: AppView, w: AppView, k: int)
    requires
        v.rows == w.rows,
        forall|j: int| #[trigger] anchor_at(v, j) == anchor_at(w, j),
    ensures
        last_anchored(v, k) == last_anchored(w, k),
    decreases k,
{
    if k > 0 {
        lemma_last_depends(v, w, k - 1);
        assert(anchor_at(v, k - 1) == anchor_at(w, k - 1));
    }
}

proof fn lemma_place_is_found(u: AppView, w: AppView)
    requires
        u.rows == w.rows,
        u.repos == w.repos,
        u.drawers == w.drawers,
        u.expanded_ref == w.expanded_ref,
        0 < u.rows.len() <= usize::MAX,
        0 <= u.scroll,
        top_of(u).0 matches Some(a) ==> next_anchored(u, u.scroll) >= u.rows.len() || anchored(
            u,
            a,
            0,
        ) == next_anchored(u, u.scroll),
    ensures
        top_of(placed_as(w, state_of(u))) == top_of(u),
{
    let s = state_of(u);
    let p = placed_as(w, s);
    lemma_anchors_depend(u, w);
    lemma_anchors_depend(u, p);
    let i = next_anchored(u, u.scroll);
    lemma_next_anchored(u, u.scroll);
    lemma_last_anchored(u, u.scroll);
    if i < u.rows.len() {
        let a = anchor_at(u, i)->0;
        assert(s.top == Some(a));
        assert(anchored(w, a, 0) == anchored(u, a, 0));
        assert(found_anchor(w, s.top) == Some(i as usize));
        assert(p.scroll == u.scroll);
        assert(next_anchored(p, p.scroll) == i);
    } else {
        let j = last_anchored(u, u.scroll);
        if j >= 0 {
            let a = anchor_at(u, j)->0;
            lemma_anchored(w, a, 0);
            assert(anchor_at(w, j) == Some(a));
            let k = anchored(w, a, 0);
            assert(k <= j);
            lemma_anchored(u, a, 0);
            assert(anchor_at(u, k) == Some(a));
            assert(found_anchor(w, s.top) == Some(k as usize));
            assert(p.scroll == k);
            assert(next_anchored(p, k) == k);
            assert(anchor_at(p, k) == Some(a));
        } else {
            assert forall|k: int| 0 <= k < u.rows.len() implies #[trigger] anchor_at(u, k) is None by {
                assert(k < u.scroll || u.scroll <= k);
            }
            assert(s.top is None && s.selected is None);
            assert(p.scroll == 0);
            assert forall|k: int| 0 <= k < p.rows.len() implies #[trigger] anchor_at(p, k) is None by {
                assert(anchor_at(u, k) == anchor_at(p, k));
            }
            lemma_none_anchored(p, 0);
            assert(last_anchored(p, 0) == -1);
        }
    }
}

proof fn lemma_none_anchored(v: AppView, k: int)
    requires
        0 <= k,
        forall|j: int| 0 <= j < v.rows.len() ==> #[trigger] anchor_at(v, j) is None,
    ensures
        next_anchored(v, k) >= v.rows.len(),
    decreases v.rows.len() - k,
{
    if k < v.rows.len() {
        lemma_none_anchored(v, k + 1);
    }
}

proof fn lemma_anchor_depends(v: AppView, w: AppView, k: int)
    requires
        v.rows == w.rows,
        v.repos == w.repos,
        v.drawers == w.drawers,
        v.expanded_ref == w.expanded_ref,
    ensures
        anchor_at(v, k) == anchor_at(w, k),
{
}

} // verus!
