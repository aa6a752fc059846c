//! The state of the source control view, and the rows it shows.

use vstd::prelude::*;

use crate::change_tree::{rows_view, tree_items, Row as TreeRow, RowView, Tree};
use crate::git::{
    entries, history_view, no_status, ref_files_view, EntryView, FileEntry, FileHistoryEntry, Git,
    HistoryView, RefFile, RefFileView, Status, StatusView,
};
use crate::path_set::PathSet;
use crate::scm_app::drawers::{
    parse_drawer_ref, pointed_at, pretty_remote_line, pretty_worktree_line, refs_view, shown_remote,
    shown_worktree, Drawer, DrawerRef, DrawerRefView,
};
use crate::scm_app::layout::{numbered_paths, shown_rows, visible_change_rows, ScmFileView};
use crate::text::{cat, cat3, opt_text, texts};

verus! {

#[derive(Clone, Copy, PartialEq, Eq, Debug, Structural)]
pub enum Focus {
    Message,
    Commit,
    List,
}

// ---- Repositories ----

/// A repository and how it is shown, with a commit message of its own.
pub struct Repo {
    pub git: Git,
    pub name: String,
    pub status: Status,
    pub collapsed: bool,
    pub staged_collapsed: bool,
    pub changes_collapsed: bool,
    pub staged_rows: Vec<TreeRow>,
    pub changes_rows: Vec<TreeRow>,
    pub staged_dirs: PathSet,
    pub changes_dirs: PathSet,
    pub message: Vec<char>,
    pub cursor: usize,
}

#[verifier::ext_equal]
pub struct RepoView {
    pub root: Seq<char>,
    pub name: Seq<char>,
    pub status: StatusView,
    pub collapsed: bool,
    pub staged_collapsed: bool,
    pub changes_collapsed: bool,
    pub staged_rows: Seq<RowView>,
    pub changes_rows: Seq<RowView>,
    pub staged_dirs: Set<Seq<char>>,
    pub changes_dirs: Set<Seq<char>>,
    pub message: Seq<char>,
    pub cursor: int,
}

impl View for Repo {
    type V = RepoView;

    open spec fn view(&self) -> RepoView {
        RepoView {
            root: self.git@,
            name: self.name@,
            status: self.status@,
            collapsed: self.collapsed,
            staged_collapsed: self.staged_collapsed,
            changes_collapsed: self.changes_collapsed,
            staged_rows: rows_view(self.staged_rows@),
            changes_rows: rows_view(self.changes_rows@),
            staged_dirs: self.staged_dirs@,
            changes_dirs: self.changes_dirs@,
            message: self.message@,
            cursor: self.cursor as int,
        }
    }
}

pub open spec fn repos_view(v: Seq<Repo>) -> Seq<RepoView> {
    v.map_values(|r: Repo| r@)
}

/// The branch, with a star where something is changed.
pub open spec fn decorated_branch(s: StatusView) -> Seq<char> {
    if s.staged.len() == 0 && s.unstaged.len() == 0 {
        s.branch
    } else {
        s.branch + "*"@
    }
}

/// A repository with the rows of its changes made anew.
pub open spec fn with_rows(r: RepoView, view: ScmFileView) -> RepoView {
    RepoView {
        staged_rows: shown_rows(view, r.status.staged, r.staged_dirs),
        changes_rows: shown_rows(view, r.status.unstaged, r.changes_dirs),
        ..r
    }
}

pub fn tree_of(list: &Vec<FileEntry>) -> (r: Tree)
    ensures
        r@ == tree_items(numbered_paths(entries(list@))),
{
    let ghost all = numbered_paths(entries(list@));
    let mut paths: Vec<(usize, &str)> = Vec::new();
    let mut i: usize = 0;
    while i < list.len()
        invariant
            i <= list@.len(),
            all == numbered_paths(entries(list@)),
            crate::change_tree::numbered(paths@) =~= all.take(i as int),
        decreases list@.len() - i,
    {
        let ghost before = crate::change_tree::numbered(paths@);
        let path = list[i].path.as_str();
        paths.push((i, path));
        assert(crate::change_tree::numbered(paths@) =~= before.push((i, path@)));
        assert(all[i as int] == (i, list@[i as int].path@));
        i += 1;
    }
    assert(all.take(i as int) =~= all);
    Tree::new(&paths)
}

fn rows_for(view: ScmFileView, list: &Vec<FileEntry>, collapsed: &PathSet) -> (r: Vec<TreeRow>)
    ensures
        rows_view(r@) == shown_rows(view, entries(list@), collapsed@),
{
    let tree = tree_of(list);
    assert(entries(list@).len() == list@.len());
    visible_change_rows(view, &tree, collapsed, list.len())
}

impl Repo {
    pub fn new(git: Git) -> (r: Repo)
        ensures
            r@ == (RepoView {
                root: git@,
                name: crate::git::file_name(git@).unwrap_or(git@),
                status: no_status(),
                collapsed: false,
                staged_collapsed: false,
                changes_collapsed: false,
                staged_rows: Seq::empty(),
                changes_rows: Seq::empty(),
                staged_dirs: Set::empty(),
                changes_dirs: Set::empty(),
                message: Seq::empty(),
                cursor: 0,
            }),
    {
        let name = git.name();
        let r = Repo {
            name,
            git,
            status: Status::default(),
            collapsed: false,
            staged_collapsed: false,
            changes_collapsed: false,
            staged_rows: Vec::new(),
            changes_rows: Vec::new(),
            staged_dirs: PathSet::new(),
            changes_dirs: PathSet::new(),
            message: Vec::new(),
            cursor: 0,
        };
        assert(r@.staged_rows =~= Seq::empty());
        assert(r@.changes_rows =~= Seq::empty());
        assert(r@.message =~= Seq::empty());
        r
    }

    pub fn branch_decor(&self) -> (r: String)
        ensures
            r@ == decorated_branch(self@.status),
    {
        assert(self@.status.staged.len() == self.status.staged@.len());
        assert(self@.status.unstaged.len() == self.status.unstaged@.len());
        if self.status.staged.len() == 0 && self.status.unstaged.len() == 0 {
            self.status.branch.clone()
        } else {
            cat(self.status.branch.as_str(), "*")
        }
    }

    pub fn rebuild_file_rows(&mut self, view: ScmFileView)
        ensures
            final(self)@ == with_rows(old(self)@, view),
    {
        self.staged_rows = rows_for(view, &self.status.staged, &self.staged_dirs);
        self.changes_rows = rows_for(view, &self.status.unstaged, &self.changes_dirs);
    }
}

// ---- Drawers ----

/// A drawer's contents.
pub struct DrawerPanel {
    pub expanded: bool,
    pub lines: Vec<String>,
    /// What each line points at.
    pub refs: Vec<DrawerRef>,
    /// The file that each line of a file's history shows.
    pub files: Vec<Option<RefFile>>,
}

#[verifier::ext_equal]
pub struct PanelView {
    pub expanded: bool,
    pub lines: Seq<Seq<char>>,
    pub refs: Seq<DrawerRefView>,
    pub files: Seq<Option<RefFileView>>,
}

pub open spec fn opt_file(f: Option<RefFile>) -> Option<RefFileView> {
    match f {
        Some(f) => Some(f@),
        None => None,
    }
}

pub open spec fn opt_files(v: Seq<Option<RefFile>>) -> Seq<Option<RefFileView>> {
    v.map_values(|f: Option<RefFile>| opt_file(f))
}

impl View for DrawerPanel {
    type V = PanelView;

    open spec fn view(&self) -> PanelView {
        PanelView {
            expanded: self.expanded,
            lines: texts(self.lines@),
            refs: refs_view(self.refs@),
            files: opt_files(self.files@),
        }
    }
}

pub open spec fn panels_view(v: Seq<DrawerPanel>) -> Seq<PanelView> {
    v.map_values(|p: DrawerPanel| p@)
}

pub open spec fn no_panel() -> PanelView {
    PanelView { expanded: false, lines: Seq::empty(), refs: Seq::empty(), files: Seq::empty() }
}

impl DrawerPanel {
    pub fn closed() -> (r: DrawerPanel)
        ensures
            r@ == no_panel(),
    {
        let r = DrawerPanel {
            expanded: false,
            lines: Vec::new(),
            refs: Vec::new(),
            files: Vec::new(),
        };
        assert(r@ =~= no_panel());
        r
    }
}

/// What was read for a drawer.
pub enum PanelLoad {
    Lines(Result<Vec<String>, String>),
    History(Result<Vec<FileHistoryEntry>, String>),
    /// No file is followed.
    NoFile,
}

#[verifier::ext_equal]
pub enum LoadView {
    Lines(Seq<Seq<char>>),
    History(Seq<HistoryView>),
    Failed(Seq<char>),
    NoFile,
}

impl View for PanelLoad {
    type V = LoadView;

    open spec fn view(&self) -> LoadView {
        match *self {
            PanelLoad::Lines(Ok(v)) => LoadView::Lines(texts(v@)),
            PanelLoad::Lines(Err(e)) => LoadView::Failed(e@),
            PanelLoad::History(Ok(v)) => LoadView::History(history_view(v@)),
            PanelLoad::History(Err(e)) => LoadView::Failed(e@),
            PanelLoad::NoFile => LoadView::NoFile,
        }
    }
}

/// A line as a drawer shows it.
pub open spec fn shown_line(kind: Drawer, line: Seq<char>) -> Seq<char> {
    match kind {
        Drawer::Worktrees => shown_worktree(line),
        Drawer::Remotes => shown_remote(line),
        _ => line,
    }
}

/// The lines that were read, as a drawer shows them and what they point at.
pub open spec fn panel_of_lines(expanded: bool, kind: Drawer, lines: Seq<Seq<char>>) -> PanelView {
    PanelView {
        expanded,
        lines: lines.map_values(|l: Seq<char>| shown_line(kind, l)),
        refs: lines.map_values(|l: Seq<char>| pointed_at(kind, l)),
        files: lines.map_values(|l: Seq<char>| None),
    }
}

/// A remark in place of a file's history.
pub open spec fn remark(expanded: bool, text: Seq<char>) -> PanelView {
    PanelView {
        expanded,
        lines: seq![text],
        refs: seq![DrawerRefView::Nothing],
        files: seq![None],
    }
}

pub open spec fn in_brackets(s: Seq<char>) -> Seq<char> {
    "("@ + s + ")"@
}

/// A drawer after it was read.
pub open spec fn panel_after(p: PanelView, kind: Drawer, load: LoadView) -> PanelView {
    match load {
        LoadView::Lines(lines) => panel_of_lines(
            p.expanded,
            kind,
            if lines.len() == 0 {
                seq!["(none)"@]
            } else {
                lines
            },
        ),
        LoadView::Failed(e) => if kind == Drawer::FileHistory {
            remark(p.expanded, in_brackets(e))
        } else {
            panel_of_lines(p.expanded, kind, seq![in_brackets(e)])
        },
        LoadView::NoFile => remark(p.expanded, "(select a file above)"@),
        LoadView::History(v) => if v.len() == 0 {
            remark(p.expanded, "(none)"@)
        } else {
            PanelView {
                expanded: p.expanded,
                lines: v.map_values(|h: HistoryView| h.line),
                refs: v.map_values(|h: HistoryView| DrawerRefView::Commit(h.file.new_spec)),
                files: v.map_values(|h: HistoryView| Some(h.file)),
            }
        },
    }
}

impl DrawerPanel {
    fn fill(&mut self, kind: Drawer, raw: Vec<String>)
        ensures
            final(self)@ == panel_of_lines(old(self)@.expanded, kind, texts(raw@)),
    {
        let ghost all = texts(raw@);
        let mut lines: Vec<String> = Vec::new();
        let mut refs: Vec<DrawerRef> = Vec::new();
        let mut files: Vec<Option<RefFile>> = Vec::new();
        let ghost want = panel_of_lines(self.expanded, kind, all);
        let mut i: usize = 0;
        while i < raw.len()
            invariant
                i <= raw@.len(),
                all == texts(raw@),
                want == panel_of_lines(self.expanded, kind, all),
                texts(lines@) =~= want.lines.take(i as int),
                refs_view(refs@) =~= want.refs.take(i as int),
                opt_files(files@) =~= want.files.take(i as int),
            decreases raw@.len() - i,
        {
            let ghost a = texts(lines@);
            let ghost b = refs_view(refs@);
            let ghost c = opt_files(files@);
            let line = raw[i].as_str();
            assert(all[i as int] == line@);
            let one = parse_drawer_ref(kind, line);
            let shown = match kind {
                Drawer::Worktrees => pretty_worktree_line(line),
                Drawer::Remotes => pretty_remote_line(line),
                _ => line.to_string(),
            };
            refs.push(one);
            lines.push(shown);
            files.push(None);
            assert(refs_view(refs@) =~= b.push(one@));
            assert(texts(lines@) =~= a.push(shown@));
            assert(opt_files(files@) =~= c.push(None));
            i += 1;
        }
        self.lines = lines;
        self.refs = refs;
        self.files = files;
        assert(self@ =~= want);
    }

    fn remark(&mut self, text: String)
        ensures
            final(self)@ == remark(old(self)@.expanded, text@),
    {
        let mut lines: Vec<String> = Vec::new();
        let mut refs: Vec<DrawerRef> = Vec::new();
        let mut files: Vec<Option<RefFile>> = Vec::new();
        lines.push(text);
        refs.push(DrawerRef::Nothing);
        files.push(None);
        self.lines = lines;
        self.refs = refs;
        self.files = files;
        assert(self@ =~= remark(old(self)@.expanded, text@));
    }

    fn follow(&mut self, entries: Vec<FileHistoryEntry>)
        ensures
            final(self)@ == (PanelView {
                expanded: old(self)@.expanded,
                lines: history_view(entries@).map_values(|h: HistoryView| h.line),
                refs: history_view(entries@).map_values(
                    |h: HistoryView| DrawerRefView::Commit(h.file.new_spec),
                ),
                files: history_view(entries@).map_values(|h: HistoryView| Some(h.file)),
            }),
    {
        let ghost all = history_view(entries@);
        let mut lines: Vec<String> = Vec::new();
        let mut refs: Vec<DrawerRef> = Vec::new();
        let mut files: Vec<Option<RefFile>> = Vec::new();
        let mut i: usize = 0;
        while i < entries.len()
            invariant
                i <= entries@.len(),
                all == history_view(entries@),
                texts(lines@) =~= all.take(i as int).map_values(|h: HistoryView| h.line),
                refs_view(refs@) =~= all.take(i as int).map_values(
                    |h: HistoryView| DrawerRefView::Commit(h.file.new_spec),
                ),
                opt_files(files@) =~= all.take(i as int).map_values(
                    |h: HistoryView| Some(h.file),
                ),
            decreases entries@.len() - i,
        {
            let ghost a = texts(lines@);
            let ghost b = refs_view(refs@);
            let ghost c = opt_files(files@);
            let e = &entries[i];
            assert(all[i as int] == e@);
            assert(all.take(i + 1) =~= all.take(i as int).push(e@));
            let line = e.line.clone();
            let file = e.file.clone();
            let commit = DrawerRef::Commit(e.file.new_spec.clone());
            lines.push(line);
            refs.push(commit);
            files.push(Some(file));
            assert(texts(lines@) =~= a.push(e@.line));
            assert(refs_view(refs@) =~= b.push(DrawerRefView::Commit(e@.file.new_spec)));
            assert(opt_files(files@) =~= c.push(Some(e@.file)));
            i += 1;
        }
        assert(all.take(i as int) =~= all);
        self.lines = lines;
        self.refs = refs;
        self.files = files;
    }

    /// Takes what was read for the drawer.
    pub fn load(&mut self, kind: Drawer, load: PanelLoad)
        ensures
            final(self)@ == panel_after(old(self)@, kind, load@),
    {
        match load {
            PanelLoad::Lines(Ok(lines)) => {
                assert(texts(lines@).len() == lines@.len());
                if lines.len() == 0 {
                    self.fill_one(kind, "(none)".to_string());
                } else {
                    self.fill(kind, lines);
                }
            },
            PanelLoad::Lines(Err(e)) | PanelLoad::History(Err(e)) => {
                let text = cat3("(", e.as_str(), ")");
                if kind == Drawer::FileHistory {
                    self.remark(text);
                } else {
                    self.fill_one(kind, text);
                }
            },
            PanelLoad::History(Ok(entries)) => {
                assert(history_view(entries@).len() == entries@.len());
                if entries.len() == 0 {
                    self.remark("(none)".to_string());
                } else {
                    self.follow(entries);
                }
            },
            PanelLoad::NoFile => self.remark("(select a file above)".to_string()),
        }
    }

    fn fill_one(&mut self, kind: Drawer, line: String)
        ensures
            final(self)@ == panel_of_lines(old(self)@.expanded, kind, seq![line@]),
    {
        let mut one: Vec<String> = Vec::new();
        one.push(line);
        assert(texts(one@) =~= seq![line@]);
        self.fill(kind, one);
    }
}

/// Each line of a drawer that was read points at something, and has a file or
/// none.
pub proof fn law_drawer_lists_are_parallel(p: PanelView, kind: Drawer, load: LoadView)
    ensures
        panel_after(p, kind, load).refs.len() == panel_after(p, kind, load).lines.len(),
        panel_after(p, kind, load).files.len() == panel_after(p, kind, load).lines.len(),
        panel_after(p, kind, load).lines.len() > 0,
        panel_after(p, kind, load).expanded == p.expanded,
{
}

// ---- Files of a commit, branch, stash or tag ----

/// The files of a commit, branch, stash or tag, shown below its line.
pub struct ExpandedRef {
    pub kind: Drawer,
    pub target: DrawerRef,
    pub files: Vec<RefFile>,
    pub rows: Vec<TreeRow>,
    pub collapsed: PathSet,
    pub error: Option<String>,
}

#[verifier::ext_equal]
pub struct ExpandedView {
    pub kind: Drawer,
    pub target: DrawerRefView,
    pub files: Seq<RefFileView>,
    pub rows: Seq<RowView>,
    pub collapsed: Set<Seq<char>>,
    pub error: Option<Seq<char>>,
}

impl View for ExpandedRef {
    type V = ExpandedView;

    open spec fn view(&self) -> ExpandedView {
        ExpandedView {
            kind: self.kind,
            target: self.target@,
            files: ref_files_view(self.files@),
            rows: rows_view(self.rows@),
            collapsed: self.collapsed@,
            error: opt_text(self.error),
        }
    }
}

pub open spec fn expanded_view(e: Option<ExpandedRef>) -> Option<ExpandedView> {
    match e {
        Some(e) => Some(e@),
        None => None,
    }
}

/// The changes of the files, without their revisions.
pub open spec fn file_entries(files: Seq<RefFileView>) -> Seq<EntryView> {
    files.map_values(|f: RefFileView| f.entry)
}

pub open spec fn with_ref_rows(e: ExpandedView, view: ScmFileView) -> ExpandedView {
    ExpandedView { rows: shown_rows(view, file_entries(e.files), e.collapsed), ..e }
}

impl ExpandedRef {
    pub fn new(kind: Drawer, target: DrawerRef, files: Vec<RefFile>, error: Option<String>) -> (r:
        ExpandedRef)
        ensures
            r@ == (ExpandedView {
                kind,
                target: target@,
                files: ref_files_view(files@),
                rows: Seq::empty(),
                collapsed: Set::empty(),
                error: opt_text(error),
            }),
    {
        let r = ExpandedRef {
            kind,
            target,
            files,
            rows: Vec::new(),
            collapsed: PathSet::new(),
            error,
        };
        assert(r@.rows =~= Seq::empty());
        r
    }

    /// The changes of the files, without their revisions.
    pub fn entries(&self) -> (r: Vec<FileEntry>)
        ensures
            entries(r@) == file_entries(self@.files),
    {
        let ghost all = file_entries(self@.files);
        let mut list: Vec<FileEntry> = Vec::new();
        let mut i: usize = 0;
        while i < self.files.len()
            invariant
                i <= self.files@.len(),
                all == file_entries(ref_files_view(self.files@)),
                entries(list@) =~= all.take(i as int),
            decreases self.files@.len() - i,
        {
            let ghost before = entries(list@);
            let e = self.files[i].entry.clone();
            list.push(e);
            assert(entries(list@) =~= before.push(e@));
            assert(all[i as int] == self.files@[i as int].entry@);
            i += 1;
        }
        assert(all.take(i as int) =~= all);
        list
    }

    pub fn rebuild_rows(&mut self, view: ScmFileView)
        ensures
            final(self)@ == with_ref_rows(old(self)@, view),
    {
        let list = self.entries();
        self.rows = rows_for(view, &list, &self.collapsed);
    }
}

} // verus!
