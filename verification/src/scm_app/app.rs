//! The source control view as a whole: its rows, its selection, and what it asks
//! of git and of the host.

use vstd::prelude::*;

use crate::change_tree::{Row as TreeRow, RowView};
use crate::git::{entries, EntryView, FileEntry};
use crate::input::{least, no_rect, smaller, Platform, Rect};
use crate::scm_app::drawers::{all_drawers, drawer_index, Drawer};
use crate::scm_app::layout::{row_repo, row_selectable, Row, ScmFileView};
use crate::scm_app::overlay::{overlay_view, Overlay, OverlayView};
use crate::scm_app::state::{
    expanded_view, panels_view, repos_view, with_ref_rows, with_rows, DrawerPanel, ExpandedRef,
    ExpandedView, Focus, PanelView, Repo, RepoView,
};
use crate::sidebar::{IconTheme, Settings, TitleAction};
use crate::text::{eq_text, opt_text, texts};

verus! {

/// Where the list was drawn last.
#[derive(Clone, Copy, PartialEq, Eq, Debug, Structural)]
pub struct BodyGeom {
    pub left: u16,
    pub top: u16,
    pub height: u16,
    pub width: u16,
    pub offset: usize,
}

pub open spec fn no_geom() -> BodyGeom {
    BodyGeom { left: 0, top: 0, height: 0, width: 0, offset: 0 }
}

/// What can be clicked besides the list, as it was drawn last.
#[derive(Clone, Copy, PartialEq, Eq, Debug)]
pub struct ClickZones {
    pub activity_row: u16,
    pub explorer: (u16, u16),
    pub source_control: (u16, u16),
    pub search: (u16, u16),
    pub gear: Rect,
    pub redraw: Rect,
    pub repo_header: Rect,
    pub message: Rect,
    pub sparkle: Rect,
    pub button: Rect,
    pub sync: Rect,
}

pub open spec fn no_zones() -> ClickZones {
    ClickZones {
        activity_row: 0,
        explorer: (0, 0),
        source_control: (0, 0),
        search: (0, 0),
        gear: no_rect(),
        redraw: no_rect(),
        repo_header: no_rect(),
        message: no_rect(),
        sparkle: no_rect(),
        button: no_rect(),
        sync: no_rect(),
    }
}

/// What the view asks for.
pub enum Effect {
    /// Read the drawers that are open, and then say so; `keep` the selection's
    /// place.
    ReloadDrawers { keep: bool },
    /// Read the status of every repository.
    Refresh,
    Stage(usize, FileEntry),
    Unstage(usize, FileEntry),
    StageAll(usize),
    UnstageAll(usize),
    StagePaths(usize, Vec<String>),
    UnstagePaths(usize, Vec<String>),
    Discard(usize, FileEntry),
    /// Run git with these arguments.
    Run(usize, Vec<String>),
    Commit(usize, String),
    /// Select a section's header.
    SelectHeader(usize, bool),
    /// Select what stands where this path stood.
    SelectNear(usize, bool, String),
    /// Show this in the preview.
    Preview(String),
    ClosePreview,
    /// Read the files of what this line points at.
    LoadRef(Drawer, usize),
    Copy(String),
    Reveal(String),
    /// Open a file; the second text names it.
    OpenExternal(String, String),
    SaveSettings,
    /// Read the changes to suggest a message for.
    Suggest(usize),
    Sync(usize),
    /// Close the sidebar's pane.
    Hide,
    /// Let the views share a pane, or part them.
    Unify(bool),
    PickFolder,
}

#[verifier::ext_equal]
pub enum EffectView {
    ReloadDrawers { keep: bool },
    Refresh,
    Stage(usize, EntryView),
    Unstage(usize, EntryView),
    StageAll(usize),
    UnstageAll(usize),
    StagePaths(usize, Seq<Seq<char>>),
    UnstagePaths(usize, Seq<Seq<char>>),
    Discard(usize, EntryView),
    Run(usize, Seq<Seq<char>>),
    Commit(usize, Seq<char>),
    SelectHeader(usize, bool),
    SelectNear(usize, bool, Seq<char>),
    Preview(Seq<char>),
    ClosePreview,
    LoadRef(Drawer, usize),
    Copy(Seq<char>),
    Reveal(Seq<char>),
    OpenExternal(Seq<char>, Seq<char>),
    SaveSettings,
    Suggest(usize),
    Sync(usize),
    Hide,
    Unify(bool),
    PickFolder,
}

impl View for Effect {
    type V = EffectView;

    open spec fn view(&self) -> EffectView {
        match *self {
            Effect::ReloadDrawers { keep } => EffectView::ReloadDrawers { keep },
            Effect::Refresh => EffectView::Refresh,
            Effect::Stage(r, e) => EffectView::Stage(r, e@),
            Effect::Unstage(r, e) => EffectView::Unstage(r, e@),
            Effect::StageAll(r) => EffectView::StageAll(r),
            Effect::UnstageAll(r) => EffectView::UnstageAll(r),
            Effect::StagePaths(r, p) => EffectView::StagePaths(r, texts(p@)),
            Effect::UnstagePaths(r, p) => EffectView::UnstagePaths(r, texts(p@)),
            Effect::Discard(r, e) => EffectView::Discard(r, e@),
            Effect::Run(r, a) => EffectView::Run(r, texts(a@)),
            Effect::Commit(r, m) => EffectView::Commit(r, m@),
            Effect::SelectHeader(r, s) => EffectView::SelectHeader(r, s),
            Effect::SelectNear(r, s, p) => EffectView::SelectNear(r, s, p@),
            Effect::Preview(p) => EffectView::Preview(p@),
            Effect::ClosePreview => EffectView::ClosePreview,
            Effect::LoadRef(k, i) => EffectView::LoadRef(k, i),
            Effect::Copy(t) => EffectView::Copy(t@),
            Effect::Reveal(p) => EffectView::Reveal(p@),
            Effect::OpenExternal(p, n) => EffectView::OpenExternal(p@, n@),
            Effect::SaveSettings => EffectView::SaveSettings,
            Effect::Suggest(r) => EffectView::Suggest(r),
            Effect::Sync(r) => EffectView::Sync(r),
            Effect::Hide => EffectView::Hide,
            Effect::Unify(on) => EffectView::Unify(on),
            Effect::PickFolder => EffectView::PickFolder,
        }
    }
}

pub open spec fn effects(v: Seq<Effect>) -> Seq<EffectView> {
    v.map_values(|e: Effect| e@)
}

pub fn no_effects() -> (r: Vec<Effect>)
    ensures
        effects(r@) == Seq::<EffectView>::empty(),
{
    let r: Vec<Effect> = Vec::new();
    assert(effects(r@) =~= Seq::empty());
    r
}

pub fn one_effect(e: Effect) -> (r: Vec<Effect>)
    ensures
        effects(r@) == seq![e@],
{
    let mut r: Vec<Effect> = Vec::new();
    r.push(e);
    assert(effects(r@) =~= seq![e@]);
    r
}

pub fn push_effect(out: &mut Vec<Effect>, e: Effect)
    ensures
        effects(final(out)@) == effects(old(out)@).push(e@),
{
    let ghost before = effects(out@);
    out.push(e);
    assert(effects(out@) =~= before.push(e@));
}

pub fn both(a: Vec<Effect>, b: Vec<Effect>) -> (r: Vec<Effect>)
    ensures
        effects(r@) == effects(a@) + effects(b@),
{
    let ghost x = effects(a@);
    let ghost y = effects(b@);
    let mut out = a;
    let mut rest = b;
    out.append(&mut rest);
    assert(effects(out@) =~= x + y);
    out
}

/// The source control view.
pub struct App {
    /// The repositories that can be seen from the folder.
    pub repos: Vec<Repo>,
    /// Why there is none.
    pub discover_err: String,
    /// The repository that messages, drawers and syncing are about.
    pub active: usize,
    pub cwd: String,
    pub rows: Vec<Row>,
    pub selected: Option<usize>,
    pub scroll: usize,
    /// Whether the selection is to be scrolled into sight.
    pub snap: bool,
    pub focus: Focus,
    pub theme: IconTheme,
    pub drawers: Vec<DrawerPanel>,
    pub expanded_ref: Option<ExpandedRef>,
    /// The file whose history is followed.
    pub history_target: Option<String>,
    /// A notice, and whether it is an error.
    pub flash: Option<(String, bool)>,
    pub suggesting: bool,
    pub syncing: bool,
    pub overlay: Option<Overlay>,
    pub hovered: Option<usize>,
    pub body: BodyGeom,
    pub zones: ClickZones,
    pub redraw_requested: bool,
    pub title_zones: Vec<(Rect, TitleAction)>,
    pub repo_title_zones: Vec<(Rect, usize, TitleAction)>,
    /// When the mouse was last used, in milliseconds.
    pub last_mouse: Option<u64>,
    pub mouse_pos: Option<(u16, u16)>,
    pub last_click: Option<(usize, u64)>,
    pub page: usize,
    pub last_width: u16,
    pub last_height: u16,
    pub settings: Settings,
    /// Whether the other views are there.
    pub other: bool,
    pub pane_id: Option<String>,
    pub platform: Platform,
    /// Whether a folder is being picked.
    pub picking: bool,
    /// When the pane was last said to be alive.
    pub last_beat: u64,
}

pub struct AppView {
    pub repos: Seq<RepoView>,
    pub discover_err: Seq<char>,
    pub active: int,
    pub cwd: Seq<char>,
    pub rows: Seq<Row>,
    pub selected: Option<usize>,
    pub scroll: int,
    pub snap: bool,
    pub focus: Focus,
    pub theme: IconTheme,
    pub drawers: Seq<PanelView>,
    pub expanded_ref: Option<ExpandedView>,
    pub history_target: Option<Seq<char>>,
    pub flash: Option<(Seq<char>, bool)>,
    pub suggesting: bool,
    pub syncing: bool,
    pub overlay: Option<OverlayView>,
    pub hovered: Option<usize>,
    pub body: BodyGeom,
    pub zones: ClickZones,
    pub redraw_requested: bool,
    pub title_zones: Seq<(Rect, TitleAction)>,
    pub repo_title_zones: Seq<(Rect, usize, TitleAction)>,
    pub last_mouse: Option<u64>,
    pub mouse_pos: Option<(u16, u16)>,
    pub last_click: Option<(usize, u64)>,
    pub page: usize,
    pub last_width: u16,
    pub last_height: u16,
    pub settings: Settings,
    pub other: bool,
    pub pane_id: Option<Seq<char>>,
    pub platform: Platform,
    pub picking: bool,
    pub last_beat: u64,
}

pub open spec fn flash_view(f: Option<(String, bool)>) -> Option<(Seq<char>, bool)> {
    match f {
        Some((text, bad)) => Some((text@, bad)),
        None => None,
    }
}

impl View for App {
    type V = AppView;

    open spec fn view(&self) -> AppView {
        AppView {
            repos: repos_view(self.repos@),
            discover_err: self.discover_err@,
            active: self.active as int,
            cwd: self.cwd@,
            rows: self.rows@,
            selected: self.selected,
            scroll: self.scroll as int,
            snap: self.snap,
            focus: self.focus,
            theme: self.theme,
            drawers: panels_view(self.drawers@),
            expanded_ref: expanded_view(self.expanded_ref),
            history_target: opt_text(self.history_target),
            flash: flash_view(self.flash),
            suggesting: self.suggesting,
            syncing: self.syncing,
            overlay: overlay_view(self.overlay),
            hovered: self.hovered,
            body: self.body,
            zones: self.zones,
            redraw_requested: self.redraw_requested,
            title_zones: self.title_zones@,
            repo_title_zones: self.repo_title_zones@,
            last_mouse: self.last_mouse,
            mouse_pos: self.mouse_pos,
            last_click: self.last_click,
            page: self.page,
            last_width: self.last_width,
            last_height: self.last_height,
            settings: self.settings,
            other: self.other,
            pane_id: opt_text(self.pane_id),
            platform: self.platform,
            picking: self.picking,
            last_beat: self.last_beat,
        }
    }
}

pub type Outcome = (AppView, Seq<EffectView>);

/// Every row's repository is there.
#[verifier::opaque]
pub open spec fn rows_named(rows: Seq<Row>, n: int) -> bool {
    forall|i: int| 0 <= i < rows.len() ==> row_named(#[trigger] rows[i], n)
}

pub open spec fn row_named(row: Row, n: int) -> bool {
    row_repo(row) matches Some(r) ==> r < n
}

pub open spec fn cursor_placed(r: RepoView) -> bool {
    0 <= r.cursor <= r.message.len()
}

#[verifier::opaque]
pub open spec fn cursors_placed(repos: Seq<RepoView>) -> bool {
    forall|i: int| 0 <= i < repos.len() ==> cursor_placed(#[trigger] repos[i])
}

/// The cursors stay placed where one repository is replaced by one whose cursor is
/// placed.
pub proof fn lemma_cursors_stay(repos: Seq<RepoView>, i: int, r: RepoView)
    requires
        cursors_placed(repos),
        0 <= i < repos.len(),
        cursor_placed(repos[i]) ==> cursor_placed(r),
    ensures
        cursors_placed(repos.update(i, r)),
        cursor_placed(repos[i]),
{
    reveal(cursors_placed);
    assert(cursor_placed(repos[i]));
    assert forall|k: int| 0 <= k < repos.len() implies cursor_placed(
        #[trigger] repos.update(i, r)[k],
    ) by {
        if k != i {
            assert(repos.update(i, r)[k] == repos[k]);
        }
    }
}

/// Rows are named where each is.
pub proof fn lemma_row_is_named(rows: Seq<Row>, n: int, i: int)
    requires
        rows_named(rows, n),
        0 <= i < rows.len(),
    ensures
        row_named(rows[i], n),
{
    reveal(rows_named);
}

/// The selection is one of the rows.
pub open spec fn selection_listed(v: AppView) -> bool {
    v.selected matches Some(sel) ==> sel < v.rows.len()
}

/// There is a panel for each drawer, rows name repositories that are there, the
/// selection is one of them, each message's cursor stands in it, and a menu has an
/// entry that is chosen.
pub open spec fn sound(v: AppView) -> bool {
    &&& v.drawers.len() == 8
    &&& rows_named(v.rows, v.repos.len() as int)
    &&& selection_listed(v)
    &&& cursors_placed(v.repos)
    &&& v.overlay matches Some(o) ==> entry_chosen(o)
}

/// A menu has an entry that is chosen.
pub open spec fn entry_chosen(o: OverlayView) -> bool {
    o matches OverlayView::Menu { entries, selected, .. } ==> selected < entries.len()
}

pub open spec fn flashed(v: AppView, text: Seq<char>, bad: bool) -> AppView {
    AppView { flash: Some((text, bad)), ..v }
}

// ---- Looking things up ----

pub open spec fn panel(v: AppView, kind: Drawer) -> PanelView {
    v.drawers[drawer_index(kind)]
}

/// The row of a repository's staged or other changes.
pub open spec fn tree_row(v: AppView, repo: usize, row: usize, staged: bool) -> Option<RowView> {
    if repo < v.repos.len() {
        let rows = if staged {
            v.repos[repo as int].staged_rows
        } else {
            v.repos[repo as int].changes_rows
        };
        if row < rows.len() {
            Some(rows[row as int])
        } else {
            None
        }
    } else {
        None
    }
}

pub open spec fn changes(r: RepoView, staged: bool) -> Seq<EntryView> {
    if staged {
        r.status.staged
    } else {
        r.status.unstaged
    }
}

/// The changed file that a row shows.
pub open spec fn entry_at(v: AppView, repo: usize, row: usize, staged: bool) -> Option<EntryView> {
    match tree_row(v, repo, row, staged) {
        Some(RowView::File { index, .. }) => {
            let list = changes(v.repos[repo as int], staged);
            if index < list.len() {
                Some(list[index as int])
            } else {
                None
            }
        },
        _ => None,
    }
}

/// The directory that a row shows.
pub open spec fn directory_at(v: AppView, repo: usize, row: usize, staged: bool) -> Option<Seq<char>> {
    match tree_row(v, repo, row, staged) {
        Some(RowView::Directory { path, .. }) => Some(path),
        _ => None,
    }
}

/// The path that a row shows.
pub open spec fn row_path(v: AppView, repo: usize, row: usize, staged: bool) -> Option<Seq<char>> {
    match tree_row(v, repo, row, staged) {
        Some(RowView::Directory { path, .. }) => Some(path),
        Some(RowView::File { .. }) => match entry_at(v, repo, row, staged) {
            Some(e) => Some(e.path),
            None => None,
        },
        None => None,
    }
}

pub open spec fn opt_entry(e: Option<&FileEntry>) -> Option<EntryView> {
    match e {
        Some(e) => Some(e@),
        None => None,
    }
}

pub open spec fn opt_row(e: Option<&TreeRow>) -> Option<RowView> {
    match e {
        Some(e) => Some(e@),
        None => None,
    }
}

impl App {
    pub fn status_tree_row(&self, repo: usize, row: usize, staged: bool) -> (r: Option<&TreeRow>)
        ensures
            opt_row(r) == tree_row(self@, repo, row, staged),
    {
        if repo >= self.repos.len() {
            return None;
        }
        let found = &self.repos[repo];
        assert(self@.repos[repo as int] == found@);
        assert(found@.staged_rows.len() == found.staged_rows@.len());
        assert(found@.changes_rows.len() == found.changes_rows@.len());
        if staged {
            if row < found.staged_rows.len() {
                Some(&found.staged_rows[row])
            } else {
                None
            }
        } else if row < found.changes_rows.len() {
            Some(&found.changes_rows[row])
        } else {
            None
        }
    }

    pub fn status_entry(&self, repo: usize, row: usize, staged: bool) -> (r: Option<&FileEntry>)
        ensures
            opt_entry(r) == entry_at(self@, repo, row, staged),
    {
        let index = match self.status_tree_row(repo, row, staged) {
            Some(TreeRow::File { index, .. }) => *index,
            _ => {
                return None;
            },
        };
        let found = &self.repos[repo];
        assert(self@.repos[repo as int] == found@);
        let list = if staged {
            &found.status.staged
        } else {
            &found.status.unstaged
        };
        assert(changes(found@, staged) == entries(list@));
        if index < list.len() {
            Some(&list[index])
        } else {
            None
        }
    }

    pub fn status_directory(&self, repo: usize, row: usize, staged: bool) -> (r: Option<String>)
        ensures
            opt_text(r) == directory_at(self@, repo, row, staged),
    {
        match self.status_tree_row(repo, row, staged) {
            Some(TreeRow::Directory { path, .. }) => Some(path.clone()),
            _ => None,
        }
    }

    pub fn status_row_path(&self, repo: usize, row: usize, staged: bool) -> (r: Option<String>)
        ensures
            opt_text(r) == row_path(self@, repo, row, staged),
    {
        match self.status_tree_row(repo, row, staged) {
            Some(TreeRow::Directory { path, .. }) => Some(path.clone()),
            Some(TreeRow::File { .. }) => match self.status_entry(repo, row, staged) {
                Some(e) => Some(e.path.clone()),
                None => None,
            },
            None => None,
        }
    }

    /// Whether there is more than one repository.
    pub fn multi(&self) -> (r: bool)
        ensures
            r == (self@.repos.len() > 1),
    {
        self.repos.len() > 1
    }

    /// Whether the views share the pane.
    pub fn merged(&self) -> (r: bool)
        ensures
            r == merged(self@),
    {
        self.settings.merged && self.other
    }

    pub fn has_overlay(&self) -> (r: bool)
        ensures
            r == (self@.overlay is Some),
    {
        self.overlay.is_some()
    }

    pub fn root(&self) -> (r: String)
        ensures
            r@ == self@.cwd,
    {
        self.cwd.clone()
    }

    pub fn workspace_width(&self) -> (r: u16)
        ensures
            r == self@.last_width,
    {
        self.last_width
    }

    /// Whether a redraw was asked for since the last call.
    pub fn take_redraw_request(&mut self) -> (r: bool)
        ensures
            r == old(self)@.redraw_requested,
            final(self)@ == (AppView { redraw_requested: false, ..old(self)@ }),
    {
        let asked = self.redraw_requested;
        self.redraw_requested = false;
        asked
    }

    pub fn workspace_sync_enabled(&self) -> (r: bool)
        ensures
            r == merged(self@),
    {
        self.merged()
    }

    /// The columns that the pane has and is to have, where those differ.
    pub fn apply_workspace_width(&self, width: u16) -> (r: Option<(u16, u16)>)
        ensures
            r == (if width > 0 && width != self@.last_width && self@.pane_id is Some {
                Some((self@.last_width, width))
            } else {
                None
            }),
    {
        if width > 0 && width != self.last_width && self.pane_id.is_some() {
            Some((self.last_width, width))
        } else {
            None
        }
    }

    fn flash(&mut self, text: String, bad: bool)
        ensures
            final(self)@ == flashed(old(self)@, text@, bad),
    {
        self.flash = Some((text, bad));
    }
}

pub open spec fn merged(v: AppView) -> bool {
    v.settings.merged && v.other
}

// ---- Rows ----

pub open spec fn sep_if(multi: bool) -> Seq<Row> {
    if multi {
        seq![Row::RepoSeparator]
    } else {
        Seq::empty()
    }
}

/// The rows of what is staged.
#[verifier::opaque]
pub open spec fn staged_section(r: RepoView, k: usize) -> Seq<Row> {
    if r.status.staged.len() == 0 {
        Seq::empty()
    } else {
        seq![Row::StagedHeader(k)] + if r.staged_collapsed {
            Seq::empty()
        } else {
            Seq::new(r.staged_rows.len(), |i: int| Row::Staged(k, i as usize))
        }
    }
}

/// The rows of what is not staged.
#[verifier::opaque]
pub open spec fn changes_section(r: RepoView, k: usize) -> Seq<Row> {
    seq![Row::ChangesHeader(k)] + if r.changes_collapsed {
        Seq::empty()
    } else {
        Seq::new(r.changes_rows.len(), |i: int| Row::Unstaged(k, i as usize))
    }
}

/// The rows of one repository. Where there are several, each has a header, a
/// message box and a button.
pub open spec fn repo_rows(r: RepoView, k: usize, multi: bool) -> Seq<Row> {
    (if multi {
        seq![Row::RepoHeader(k)]
    } else {
        Seq::empty()
    }) + (if r.collapsed {
        Seq::empty()
    } else {
        (if multi {
            seq![Row::Message(k), Row::Commit(k)]
        } else {
            Seq::empty()
        }) + staged_section(r, k) + changes_section(r, k)
    }) + sep_if(multi)
}

/// The rows of the first `n` repositories.
pub open spec fn repos_rows(repos: Seq<RepoView>, multi: bool, n: int) -> Seq<Row>
    decreases n,
{
    if n <= 0 {
        Seq::empty()
    } else {
        repos_rows(repos, multi, n - 1) + repo_rows(repos[n - 1], (n - 1) as usize, multi)
    }
}

/// Whether the files of a drawer's line are shown.
pub open spec fn line_open(e: Option<ExpandedView>, p: PanelView, kind: Drawer, line: int) -> bool {
    match e {
        Some(e) => e.kind == kind && line < p.refs.len() && p.refs[line] == e.target,
        None => false,
    }
}

/// The files below a drawer's line.
pub open spec fn file_rows(e: ExpandedView) -> Seq<Row> {
    if e.error is Some || e.files.len() == 0 {
        seq![Row::HistoryNotice]
    } else {
        Seq::new(e.rows.len(), |i: int| Row::HistoryTree(i as usize))
    }
}

/// The first `n` lines of a drawer, with the files below those that are open.
pub open spec fn line_rows(e: Option<ExpandedView>, p: PanelView, kind: Drawer, n: int) -> Seq<Row>
    decreases n,
{
    if n <= 0 {
        Seq::empty()
    } else {
        line_rows(e, p, kind, n - 1) + seq![Row::DrawerLine(kind, (n - 1) as usize)] + if line_open(
            e,
            p,
            kind,
            n - 1,
        ) {
            file_rows(e->0)
        } else {
            Seq::empty()
        }
    }
}

/// The rows of the first `n` drawers.
pub open spec fn drawers_rows(e: Option<ExpandedView>, drawers: Seq<PanelView>, n: int) -> Seq<Row>
    decreases n,
{
    if n <= 0 {
        Seq::empty()
    } else {
        let kind = all_drawers()[n - 1];
        drawers_rows(e, drawers, n - 1) + seq![Row::DrawerHeader(kind)] + if drawers[n
            - 1].expanded {
            line_rows(e, drawers[n - 1], kind, drawers[n - 1].lines.len() as int)
        } else {
            Seq::empty()
        }
    }
}

/// All rows: the repositories, parted from the drawers below them.
pub open spec fn listed(v: AppView) -> Seq<Row> {
    let multi = v.repos.len() > 1;
    sep_if(multi) + repos_rows(v.repos, multi, v.repos.len() as int) + sep_if(v.repos.len() == 1)
        + drawers_rows(v.expanded_ref, v.drawers, 8)
}

/// The first row at or after `i` at which keys stop, or the number of rows.
pub open spec fn stop_from(rows: Seq<Row>, i: int) -> int
    decreases rows.len() - i,
{
    if i >= rows.len() {
        rows.len() as int
    } else if row_selectable(rows[i]) {
        i
    } else {
        stop_from(rows, i + 1)
    }
}

/// The last row before `n` at which keys stop, or -1.
pub open spec fn stop_before(rows: Seq<Row>, n: int) -> int
    decreases n,
{
    if n <= 0 {
        -1
    } else if row_selectable(rows[n - 1]) {
        n - 1
    } else {
        stop_before(rows, n - 1)
    }
}

/// The row nearest to `from` at which keys stop: it, the next, or the one before.
pub open spec fn nearest(rows: Seq<Row>, from: int) -> usize {
    let a = stop_from(rows, from);
    let b = stop_before(rows, from);
    if a < rows.len() {
        a as usize
    } else if b >= 0 {
        b as usize
    } else {
        0
    }
}

pub proof fn lemma_stop_from(rows: Seq<Row>, i: int)
    requires
        0 <= i <= rows.len(),
    ensures
        i <= stop_from(rows, i) <= rows.len(),
        stop_from(rows, i) < rows.len() ==> row_selectable(rows[stop_from(rows, i)]),
        forall|k: int| i <= k < stop_from(rows, i) ==> !row_selectable(#[trigger] rows[k]),
    decreases rows.len() - i,
{
    if i < rows.len() && !row_selectable(rows[i]) {
        lemma_stop_from(rows, i + 1);
    }
}

pub proof fn lemma_stop_before(rows: Seq<Row>, n: int)
    requires
        0 <= n <= rows.len(),
    ensures
        -1 <= stop_before(rows, n) < n || stop_before(rows, n) == -1,
        stop_before(rows, n) >= 0 ==> row_selectable(rows[stop_before(rows, n)]),
        forall|k: int| stop_before(rows, n) < k < n ==> !row_selectable(#[trigger] rows[k]),
    decreases n,
{
    if n > 0 && !row_selectable(rows[n - 1]) {
        lemma_stop_before(rows, n - 1);
    }
}

/// Where keys stop anywhere, the nearest stop is one.
pub proof fn law_nearest_is_a_stop(rows: Seq<Row>, from: int, stop: int)
    requires
        0 <= from <= rows.len(),
        0 <= stop < rows.len() <= usize::MAX,
        row_selectable(rows[stop]),
    ensures
        nearest(rows, from) < rows.len(),
        row_selectable(rows[nearest(rows, from) as int]),
        from < rows.len() && row_selectable(rows[from]) ==> nearest(rows, from) == from,
{
    lemma_stop_from(rows, from);
    lemma_stop_before(rows, from);
    if stop >= from {
        assert(stop_from(rows, from) <= stop) by {
            if stop_from(rows, from) > stop {
                assert(!row_selectable(rows[stop]));
            }
        }
    } else {
        assert(stop_before(rows, from) >= stop) by {
            if stop_before(rows, from) < stop {
                assert(!row_selectable(rows[stop]));
            }
        }
    }
}

fn nearest_stop(rows: &Vec<Row>, from: usize) -> (r: usize)
    requires
        from <= rows@.len(),
    ensures
        r == nearest(rows@, from as int),
        rows@.len() > 0 ==> r < rows@.len(),
{
    proof {
        lemma_stop_before(rows@, from as int);
    }
    let mut i = from;
    while i < rows.len()
        invariant
            i <= rows@.len(),
            stop_from(rows@, from as int) == stop_from(rows@, i as int),
        decreases rows@.len() - i,
    {
        if rows[i].selectable() {
            return i;
        }
        i += 1;
    }
    let mut n = from;
    while n > 0
        invariant
            n <= rows@.len(),
            stop_from(rows@, from as int) == rows@.len(),
            stop_before(rows@, from as int) == stop_before(rows@, n as int),
        decreases n,
    {
        if rows[n - 1].selectable() {
            return n - 1;
        }
        n -= 1;
    }
    0
}

// ---- Keeping rows and selection together ----

/// The repositories with their rows made anew.
pub open spec fn repos_with_rows(repos: Seq<RepoView>, view: ScmFileView) -> Seq<RepoView> {
    repos.map_values(|r: RepoView| with_rows(r, view))
}

/// Another repository becomes the active one.
pub open spec fn activated(v: AppView, repo: int) -> AppView {
    AppView { active: repo, history_target: None, expanded_ref: None, ..v }
}

/// The active repository and the followed file go with the selection.
#[verifier::opaque]
pub open spec fn followed(v: AppView) -> Outcome {
    let row = match v.selected {
        Some(i) if i < v.rows.len() => Some(v.rows[i as int]),
        _ => None,
    };
    match row {
        None => (v, Seq::empty()),
        Some(row) => if row_repo(row) matches Some(r) && r != v.active && r < v.repos.len() {
            (
                activated(v, row_repo(row)->0 as int),
                seq![EffectView::ReloadDrawers { keep: true }],
            )
        } else {
            let path = match row {
                Row::Staged(r, i) if r == v.active => match entry_at(v, r, i, true) {
                    Some(e) => Some(e.path),
                    None => None,
                },
                Row::Unstaged(r, i) if r == v.active => match entry_at(v, r, i, false) {
                    Some(e) => Some(e.path),
                    None => None,
                },
                _ => None,
            };
            if path is Some && path != v.history_target {
                (
                    AppView { history_target: path, ..v },
                    if panel(v, Drawer::FileHistory).expanded {
                        seq![EffectView::ReloadDrawers { keep: true }]
                    } else {
                        Seq::empty()
                    },
                )
            } else {
                (v, Seq::empty())
            }
        },
    }
}

/// The rows made anew, before anything follows the selection.
#[verifier::opaque]
pub open spec fn relisted(v: AppView) -> AppView {
    let a = AppView {
        hovered: None,
        repo_title_zones: Seq::empty(),
        repos: repos_with_rows(v.repos, v.settings.scm_file_view),
        expanded_ref: match v.expanded_ref {
            Some(e) => Some(with_ref_rows(e, v.settings.scm_file_view)),
            None => None,
        },
        ..v
    };
    let rows = listed(a);
    AppView {
        rows,
        selected: match a.selected {
            Some(sel) => Some(nearest(rows, least(sel as int, rows.len() - 1))),
            None => None,
        },
        scroll: least(a.scroll, rows.len() - 1),
        ..a
    }
}

/// The rows made anew.
pub open spec fn rebuilt(v: AppView) -> Outcome {
    followed(relisted(v))
}

/// A row is selected.
pub open spec fn chosen(v: AppView, index: int) -> Outcome {
    if v.rows.len() == 0 {
        (v, Seq::empty())
    } else {
        followed(
            AppView {
                selected: Some(least(index, v.rows.len() - 1) as usize),
                snap: true,
                ..v
            },
        )
    }
}

proof fn lemma_rows_cat(a: Seq<Row>, b: Seq<Row>, n: int)
    requires
        rows_named(a, n),
        rows_named(b, n),
    ensures
        rows_named(a + b, n),
{
    reveal(rows_named);
    assert forall|i: int| 0 <= i < (a + b).len() implies row_named(#[trigger] (a + b)[i], n) by {
        if i < a.len() {
            assert((a + b)[i] == a[i]);
        } else {
            assert((a + b)[i] == b[i - a.len()]);
        }
    }
}

proof fn lemma_repo_rows_named(r: RepoView, k: usize, multi: bool, n: int)
    requires
        k < n,
    ensures
        rows_named(repo_rows(r, k, multi), n),
{
    reveal(rows_named);
    reveal(staged_section);
    reveal(changes_section);
}

proof fn lemma_repos_rows_named(repos: Seq<RepoView>, multi: bool, n: int)
    requires
        n <= repos.len() <= usize::MAX,
    ensures
        rows_named(repos_rows(repos, multi, n), repos.len() as int),
    decreases n,
{
    reveal(rows_named);
    if n > 0 {
        lemma_repos_rows_named(repos, multi, n - 1);
        lemma_repo_rows_named(repos[n - 1], (n - 1) as usize, multi, repos.len() as int);
        lemma_rows_cat(
            repos_rows(repos, multi, n - 1),
            repo_rows(repos[n - 1], (n - 1) as usize, multi),
            repos.len() as int,
        );
    }
}

proof fn lemma_line_rows_named(e: Option<ExpandedView>, p: PanelView, kind: Drawer, n: int, m: int)
    ensures
        rows_named(line_rows(e, p, kind, n), m),
    decreases n,
{
    reveal(rows_named);
    if n > 0 {
        lemma_line_rows_named(e, p, kind, n - 1, m);
        let a = line_rows(e, p, kind, n - 1);
        let b = seq![Row::DrawerLine(kind, (n - 1) as usize)];
        let c = if line_open(e, p, kind, n - 1) {
            file_rows(e->0)
        } else {
            Seq::empty()
        };
        assert(rows_named(b, m));
        assert(rows_named(c, m));
        lemma_rows_cat(a, b, m);
        lemma_rows_cat(a + b, c, m);
    }
}

proof fn lemma_drawers_rows_named(e: Option<ExpandedView>, drawers: Seq<PanelView>, n: int, m: int)
    ensures
        rows_named(drawers_rows(e, drawers, n), m),
        drawers_rows(e, drawers, n).len() >= n,
    decreases n,
{
    reveal(rows_named);
    if n > 0 {
        lemma_drawers_rows_named(e, drawers, n - 1, m);
        let kind = all_drawers()[n - 1];
        let a = drawers_rows(e, drawers, n - 1);
        let b = seq![Row::DrawerHeader(kind)];
        let c = if drawers[n - 1].expanded {
            line_rows(e, drawers[n - 1], kind, drawers[n - 1].lines.len() as int)
        } else {
            Seq::empty()
        };
        lemma_line_rows_named(e, drawers[n - 1], kind, drawers[n - 1].lines.len() as int, m);
        assert(rows_named(b, m));
        assert(rows_named(c, m));
        lemma_rows_cat(a, b, m);
        lemma_rows_cat(a + b, c, m);
    }
}

/// Every row that is listed names a repository that is there, and the drawers'
/// headers are always listed.
pub proof fn law_listed_rows_are_sound(v: AppView)
    requires
        v.repos.len() <= usize::MAX,
    ensures
        rows_named(listed(v), v.repos.len() as int),
        listed(v).len() >= 8,
{
    reveal(rows_named);
    let n = v.repos.len() as int;
    let multi = v.repos.len() > 1;
    lemma_repos_rows_named(v.repos, multi, n);
    lemma_drawers_rows_named(v.expanded_ref, v.drawers, 8, n);
    let a = sep_if(multi);
    let b = repos_rows(v.repos, multi, n);
    let c = sep_if(v.repos.len() == 1);
    let d = drawers_rows(v.expanded_ref, v.drawers, 8);
    lemma_rows_cat(a, b, n);
    lemma_rows_cat(a + b, c, n);
    lemma_rows_cat(a + b + c, d, n);
}

/// There are rows after they were made anew.
pub proof fn lemma_rebuilt_has_rows(v: AppView)
    ensures
        rebuilt(v).0.rows.len() >= 8,
{
    reveal(followed);
    reveal(relisted);
    let a = AppView {
        hovered: None,
        repo_title_zones: Seq::empty(),
        repos: repos_with_rows(v.repos, v.settings.scm_file_view),
        expanded_ref: match v.expanded_ref {
            Some(e) => Some(with_ref_rows(e, v.settings.scm_file_view)),
            None => None,
        },
        ..v
    };
    lemma_drawers_rows_named(a.expanded_ref, a.drawers, 8, 0);
}

fn push_rows(out: &mut Vec<Row>, n: usize, staged: bool, k: usize)
    ensures
        final(out)@ == old(out)@ + Seq::new(
            n as nat,
            |i: int|
                if staged {
                    Row::Staged(k, i as usize)
                } else {
                    Row::Unstaged(k, i as usize)
                },
        ),
{
    let ghost want = Seq::new(
        n as nat,
        |i: int|
            if staged {
                Row::Staged(k, i as usize)
            } else {
                Row::Unstaged(k, i as usize)
            },
    );
    let mut i: usize = 0;
    assert(old(out)@ + want.take(0) =~= old(out)@);
    while i < n
        invariant
            i <= n,
            want.len() == n,
            forall|j: int| 0 <= j < n ==> want[j] == (if staged {
                Row::Staged(k, j as usize)
            } else {
                Row::Unstaged(k, j as usize)
            }),
            out@ =~= old(out)@ + want.take(i as int),
        decreases n - i,
    {
        out.push(
            if staged {
                Row::Staged(k, i)
            } else {
                Row::Unstaged(k, i)
            },
        );
        i += 1;
    }
    assert(want.take(i as int) =~= want);
}

fn push_staged(out: &mut Vec<Row>, repo: &Repo, k: usize)
    ensures
        final(out)@ == old(out)@ + staged_section(repo@, k),
{
    let ghost r = repo@;
    proof {
        reveal(staged_section);
    }
    assert(r.status.staged.len() == repo.status.staged@.len());
    assert(r.staged_rows.len() == repo.staged_rows@.len());
    if repo.status.staged.len() > 0 {
        out.push(Row::StagedHeader(k));
        if !repo.staged_collapsed {
            push_rows(out, repo.staged_rows.len(), true, k);
        }
    }
    assert(out@ =~= old(out)@ + staged_section(r, k));
}

fn push_changes(out: &mut Vec<Row>, repo: &Repo, k: usize)
    ensures
        final(out)@ == old(out)@ + changes_section(repo@, k),
{
    let ghost r = repo@;
    proof {
        reveal(changes_section);
    }
    assert(r.changes_rows.len() == repo.changes_rows@.len());
    out.push(Row::ChangesHeader(k));
    if !repo.changes_collapsed {
        push_rows(out, repo.changes_rows.len(), false, k);
    }
    assert(out@ =~= old(out)@ + changes_section(r, k));
}

fn push_repo_rows(out: &mut Vec<Row>, repo: &Repo, k: usize, multi: bool)
    ensures
        final(out)@ == old(out)@ + repo_rows(repo@, k, multi),
{
    let ghost r = repo@;
    let ghost start = out@;
    let ghost a = staged_section(r, k);
    let ghost b = changes_section(r, k);
    if multi {
        out.push(Row::RepoHeader(k));
        if !repo.collapsed {
            out.push(Row::Message(k));
            out.push(Row::Commit(k));
            push_staged(out, repo, k);
            push_changes(out, repo, k);
            out.push(Row::RepoSeparator);
            assert(out@ =~= start + (seq![Row::RepoHeader(k)] + (seq![
                Row::Message(k),
                Row::Commit(k),
            ] + a + b) + seq![Row::RepoSeparator]));
        } else {
            out.push(Row::RepoSeparator);
            assert(out@ =~= start + (seq![Row::RepoHeader(k)] + Seq::empty() + seq![
                Row::RepoSeparator,
            ]));
        }
    } else if !repo.collapsed {
        push_staged(out, repo, k);
        push_changes(out, repo, k);
        assert(out@ =~= start + (Seq::empty() + (Seq::empty() + a + b) + Seq::empty()));
    } else {
        assert(out@ =~= start + (Seq::<Row>::empty() + Seq::empty() + Seq::empty()));
    }
}

fn push_file_rows(out: &mut Vec<Row>, e: &ExpandedRef)
    ensures
        final(out)@ == old(out)@ + file_rows(e@),
{
    assert(e@.files.len() == e.files@.len());
    assert(e@.rows.len() == e.rows@.len());
    if e.error.is_some() || e.files.len() == 0 {
        out.push(Row::HistoryNotice);
        assert(out@ =~= old(out)@ + file_rows(e@));
        return;
    }
    let ghost want = file_rows(e@);
    let n = e.rows.len();
    let mut i: usize = 0;
    assert(old(out)@ + want.take(0) =~= old(out)@);
    while i < n
        invariant
            i <= n,
            want.len() == n,
            forall|j: int| 0 <= j < n ==> want[j] == Row::HistoryTree(j as usize),
            out@ =~= old(out)@ + want.take(i as int),
        decreases n - i,
    {
        out.push(Row::HistoryTree(i));
        i += 1;
    }
    assert(want.take(i as int) =~= want);
}

fn shows_files(expanded: &Option<ExpandedRef>, panel: &DrawerPanel, kind: Drawer, line: usize) -> (r:
    bool)
    ensures
        r == line_open(expanded_view(*expanded), panel@, kind, line as int),
{
    match expanded {
        Some(e) => {
            assert(panel@.refs.len() == panel.refs@.len());
            if e.kind == kind && line < panel.refs.len() {
                assert(panel@.refs[line as int] == panel.refs@[line as int]@);
                panel.refs[line].same(&e.target)
            } else {
                false
            }
        },
        None => false,
    }
}

fn push_line_rows(
    out: &mut Vec<Row>,
    expanded: &Option<ExpandedRef>,
    panel: &DrawerPanel,
    kind: Drawer,
)
    ensures
        final(out)@ == old(out)@ + line_rows(
            expanded_view(*expanded),
            panel@,
            kind,
            panel@.lines.len() as int,
        ),
{
    let ghost e = expanded_view(*expanded);
    let ghost p = panel@;
    assert(p.lines.len() == panel.lines@.len());
    let mut i: usize = 0;
    assert(old(out)@ + line_rows(e, p, kind, 0) =~= old(out)@);
    while i < panel.lines.len()
        invariant
            i <= panel.lines@.len(),
            e == expanded_view(*expanded),
            p == panel@,
            out@ =~= old(out)@ + line_rows(e, p, kind, i as int),
        decreases panel.lines@.len() - i,
    {
        let ghost before = out@;
        out.push(Row::DrawerLine(kind, i));
        let ghost lined = out@;
        if shows_files(expanded, panel, kind, i) {
            if let Some(x) = expanded {
                push_file_rows(out, x);
            }
            assert(out@ =~= lined + file_rows(e->0));
        }
        assert(out@ =~= old(out)@ + line_rows(e, p, kind, i + 1));
        i += 1;
    }
}

fn push_drawer_rows(out: &mut Vec<Row>, expanded: &Option<ExpandedRef>, drawers: &Vec<DrawerPanel>)
    requires
        drawers@.len() == 8,
    ensures
        final(out)@ == old(out)@ + drawers_rows(
            expanded_view(*expanded),
            panels_view(drawers@),
            8,
        ),
{
    let ghost e = expanded_view(*expanded);
    let ghost all = panels_view(drawers@);
    let kinds = Drawer::all();
    let mut i: usize = 0;
    assert(old(out)@ + drawers_rows(e, all, 0) =~= old(out)@);
    while i < 8
        invariant
            i <= 8,
            drawers@.len() == 8,
            kinds@ == all_drawers(),
            e == expanded_view(*expanded),
            all == panels_view(drawers@),
            out@ =~= old(out)@ + drawers_rows(e, all, i as int),
        decreases 8 - i,
    {
        let kind = kinds[i];
        let panel = &drawers[i];
        assert(all[i as int] == panel@);
        out.push(Row::DrawerHeader(kind));
        let ghost headed = out@;
        if panel.expanded {
            push_line_rows(out, expanded, panel, kind);
        }
        assert(out@ =~= old(out)@ + drawers_rows(e, all, i + 1));
        i += 1;
    }
}

impl App {
    fn list_rows(&self) -> (r: Vec<Row>)
        requires
            self@.drawers.len() == 8,
        ensures
            r@ == listed(self@),
    {
        let multi = self.repos.len() > 1;
        let mut out: Vec<Row> = Vec::new();
        if multi {
            out.push(Row::RepoSeparator);
        }
        let ghost all = self@.repos;
        let ghost start = out@;
        assert(start =~= sep_if(multi));
        let mut k: usize = 0;
        assert(start + repos_rows(all, multi, 0) =~= start);
        while k < self.repos.len()
            invariant
                k <= self.repos@.len(),
                all == repos_view(self.repos@),
                out@ =~= start + repos_rows(all, multi, k as int),
            decreases self.repos@.len() - k,
        {
            assert(all[k as int] == self.repos@[k as int]@);
            push_repo_rows(&mut out, &self.repos[k], k, multi);
            assert(out@ =~= start + repos_rows(all, multi, k + 1));
            k += 1;
        }
        assert(all.len() == self.repos@.len());
        if self.repos.len() == 1 {
            out.push(Row::RepoSeparator);
        }
        let ghost parted = out@;
        assert(self@.drawers.len() == self.drawers@.len());
        push_drawer_rows(&mut out, &self.expanded_ref, &self.drawers);
        assert(out@ =~= listed(self@));
        out
    }

    /// The rows of each repository's changes are made anew.
    fn remake_rows(&mut self)
        ensures
            final(self)@ == (AppView {
                repos: repos_with_rows(old(self)@.repos, old(self)@.settings.scm_file_view),
                expanded_ref: match old(self)@.expanded_ref {
                    Some(e) => Some(with_ref_rows(e, old(self)@.settings.scm_file_view)),
                    None => None,
                },
                ..old(self)@
            }),
    {
        let view = self.settings.scm_file_view;
        let ghost all = self@.repos;
        let ghost want = repos_with_rows(all, view);
        let mut repos: Vec<Repo> = Vec::new();
        std::mem::swap(&mut repos, &mut self.repos);
        let total = repos.len();
        let mut k: usize = 0;
        while k < total
            invariant
                k <= total,
                total == repos@.len(),
                all.len() == total,
                want == repos_with_rows(all, view),
                forall|j: int| 0 <= j < k ==> (#[trigger] repos@[j])@ == want[j],
                forall|j: int| k <= j < total ==> (#[trigger] repos@[j])@ == all[j],
            decreases total - k,
        {
            let ghost before = repos@;
            repos[k].rebuild_file_rows(view);
            assert(repos@[k as int]@ == want[k as int]);
            assert forall|j: int| 0 <= j < total && j != k implies #[trigger] repos@[j] == before[j] by {};
            k += 1;
        }
        assert(repos_view(repos@) =~= want);
        self.repos = repos;
        if let Some(mut e) = self.expanded_ref.take() {
            e.rebuild_rows(view);
            self.expanded_ref = Some(e);
        }
    }

    fn relist(&mut self)
        requires
            sound(old(self)@),
        ensures
            final(self)@ == relisted(old(self)@),
            sound(final(self)@),
    {
        self.hovered = None;
        self.repo_title_zones = Vec::new();
        self.remake_rows();
        let ghost a = self@;
        assert(a.repo_title_zones =~= Seq::empty());
        let rows = self.list_rows();
        proof {
            reveal(relisted);
            assert(self.repos@.len() <= usize::MAX) by {
                assert(self.repos.len() == self.repos@.len());
            }
            law_listed_rows_are_sound(a);
            reveal(cursors_placed);
            assert forall|i: int| 0 <= i < a.repos.len() implies cursor_placed(
                #[trigger] a.repos[i],
            ) by {
                assert(cursor_placed(old(self)@.repos[i]));
            }
        }
        let last = rows.len() - 1;
        let next = match self.selected {
            Some(sel) => Some(nearest_stop(&rows, smaller(sel, last))),
            None => None,
        };
        self.selected = next;
        self.scroll = smaller(self.scroll, last);
        self.rows = rows;
    }

    /// Makes the rows anew.
    pub fn rebuild(&mut self) -> (r: Vec<Effect>)
        requires
            sound(old(self)@),
        ensures
            (final(self)@, effects(r@)) == rebuilt(old(self)@),
            sound(final(self)@),
    {
        self.relist();
        self.follow_selection()
    }

    /// Another repository becomes the active one.
    pub fn set_active_repo(&mut self, repo: usize) -> (r: Vec<Effect>)
        requires
            sound(old(self)@),
        ensures
            (final(self)@, effects(r@)) == (if repo == old(self)@.active || repo
                >= old(self)@.repos.len() {
                (old(self)@, Seq::empty())
            } else {
                (activated(old(self)@, repo as int), seq![EffectView::ReloadDrawers { keep: true }])
            }),
            sound(final(self)@),
    {
        if repo == self.active || repo >= self.repos.len() {
            return no_effects();
        }
        self.active = repo;
        self.history_target = None;
        self.expanded_ref = None;
        one_effect(Effect::ReloadDrawers { keep: true })
    }

    /// Lets the active repository and the followed file go with the selection.
    pub fn follow_selection(&mut self) -> (r: Vec<Effect>)
        requires
            sound(old(self)@),
        ensures
            (final(self)@, effects(r@)) == followed(old(self)@),
            sound(final(self)@),
    {
        proof {
            reveal(followed);
        }
        let row = match self.selected {
            Some(i) => if i < self.rows.len() {
                self.rows[i]
            } else {
                return no_effects();
            },
            None => {
                return no_effects();
            },
        };
        if let Some(r) = row.repo() {
            if r != self.active && r < self.repos.len() {
                return self.set_active_repo(r);
            }
        }
        let path = match row {
            Row::Staged(r, i) => if r == self.active {
                self.path_of(r, i, true)
            } else {
                None
            },
            Row::Unstaged(r, i) => if r == self.active {
                self.path_of(r, i, false)
            } else {
                None
            },
            _ => None,
        };
        let path = match path {
            Some(path) => path,
            None => {
                return no_effects();
            },
        };
        let same = match &self.history_target {
            Some(target) => eq_text(target.as_str(), path.as_str()),
            None => false,
        };
        if same {
            return no_effects();
        }
        self.history_target = Some(path);
        let at = Drawer::FileHistory.index();
        assert(self@.drawers.len() == self.drawers@.len());
        assert(self@.drawers[at as int] == self.drawers@[at as int]@);
        if self.drawers[at].expanded {
            one_effect(Effect::ReloadDrawers { keep: true })
        } else {
            no_effects()
        }
    }

    fn path_of(&self, repo: usize, row: usize, staged: bool) -> (r: Option<String>)
        ensures
            opt_text(r) == (match entry_at(self@, repo, row, staged) {
                Some(e) => Some(e.path),
                None => None,
            }),
    {
        match self.status_entry(repo, row, staged) {
            Some(e) => Some(e.path.clone()),
            None => None,
        }
    }

    /// Selects a row.
    pub fn select(&mut self, index: usize) -> (r: Vec<Effect>)
        requires
            sound(old(self)@),
        ensures
            (final(self)@, effects(r@)) == chosen(old(self)@, index as int),
            sound(final(self)@),
    {
        if self.rows.len() == 0 {
            return no_effects();
        }
        self.selected = Some(smaller(index, self.rows.len() - 1));
        self.snap = true;
        self.follow_selection()
    }

    /// The row nearest to `from` at which keys stop.
    pub fn nearest_selectable(&self, from: usize) -> (r: usize)
        requires
            from <= self@.rows.len(),
        ensures
            r == nearest(self@.rows, from as int),
    {
        nearest_stop(&self.rows, from)
    }
}

} // verus!
