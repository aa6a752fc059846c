//! How the source control view starts, and what it does as time passes.

use vstd::prelude::*;

use crate::git::{file_name, no_status, roots, Git};
use crate::input::{Platform, Rect};
use crate::scm_app::app::{
    cursor_placed, cursors_placed, flashed, merged, no_geom, no_zones, one_effect, rows_named,
    sound, App, AppView, BodyGeom, ClickZones, Effect, EffectView,
};
use crate::scm_app::layout::ScmFileView;
use crate::scm_app::state::{no_panel, panels_view, repos_view, DrawerPanel, Focus, Repo, RepoView};
use crate::sidebar::{IconTheme, Settings};
use crate::text::{cat, opt_text};

verus! {

/// The time between two signs that the pane is alive, in milliseconds.
pub const BEAT: u64 = 5000;

/// A repository of which nothing has been read.
pub open spec fn unread(root: Seq<char>) -> RepoView {
    RepoView {
        root,
        name: file_name(root).unwrap_or(root),
        status: no_status(),
        collapsed: false,
        staged_collapsed: false,
        changes_collapsed: false,
        staged_rows: Seq::empty(),
        changes_rows: Seq::empty(),
        staged_dirs: Set::empty(),
        changes_dirs: Set::empty(),
        message: Seq::empty(),
        cursor: 0,
    }
}

pub open spec fn all_unread(roots: Seq<Seq<char>>) -> Seq<RepoView> {
    roots.map_values(|r: Seq<char>| unread(r))
}

fn repos_of(found: Vec<Git>) -> (r: Vec<Repo>)
    ensures
        repos_view(r@) == all_unread(roots(found@)),
        cursors_placed(repos_view(r@)),
{
    let ghost want = all_unread(roots(found@));
    let mut out: Vec<Repo> = Vec::new();
    let mut i: usize = 0;
    while i < found.len()
        invariant
            i <= found@.len(),
            want == all_unread(roots(found@)),
            want.len() == found@.len(),
            repos_view(out@) =~= want.take(i as int),
        decreases found@.len() - i,
    {
        let ghost before = repos_view(out@);
        let repo = Repo::new(found[i].clone());
        assert(roots(found@)[i as int] == found@[i as int]@);
        assert(want[i as int] == unread(found@[i as int]@));
        assert(repo@ == want[i as int]);
        out.push(repo);
        assert(repos_view(out@) =~= before.push(repo@));
        i += 1;
    }
    assert(want.take(i as int) =~= want);
    proof {
        reveal(cursors_placed);
        assert forall|k: int| 0 <= k < want.len() implies cursor_placed(#[trigger] want[k]) by {}
    }
    out
}

/// Why nothing was found.
pub open spec fn why_none(found: int, reason: Option<Seq<char>>) -> Seq<char> {
    if found > 0 {
        ""@
    } else {
        match reason {
            Some(reason) => reason,
            None => "no repositories found"@,
        }
    }
}

/// A view that has just started.
pub open spec fn fresh(
    cwd: Seq<char>,
    found: Seq<Seq<char>>,
    reason: Option<Seq<char>>,
    settings: Settings,
    theme: IconTheme,
    other: bool,
    pane_id: Option<Seq<char>>,
    platform: Platform,
    now: u64,
) -> AppView {
    AppView {
        repos: all_unread(found),
        discover_err: why_none(found.len() as int, reason),
        active: 0,
        cwd,
        rows: Seq::empty(),
        selected: None,
        scroll: 0,
        snap: false,
        focus: Focus::List,
        theme,
        drawers: Seq::new(8, |i: int| no_panel()),
        expanded_ref: None,
        history_target: None,
        flash: None,
        suggesting: false,
        syncing: false,
        overlay: None,
        hovered: None,
        body: no_geom(),
        zones: no_zones(),
        redraw_requested: false,
        title_zones: Seq::empty(),
        repo_title_zones: Seq::empty(),
        last_mouse: None,
        mouse_pos: None,
        last_click: None,
        page: 20,
        last_width: 40,
        last_height: 24,
        settings,
        other,
        pane_id,
        platform,
        picking: false,
        last_beat: now,
    }
}

fn closed_panels() -> (r: Vec<DrawerPanel>)
    ensures
        panels_view(r@) == Seq::new(8, |i: int| no_panel()),
{
    let mut out: Vec<DrawerPanel> = Vec::new();
    let mut i: usize = 0;
    while i < 8
        invariant
            i <= 8,
            panels_view(out@) =~= Seq::new(i as nat, |k: int| no_panel()),
        decreases 8 - i,
    {
        let ghost before = panels_view(out@);
        let p = DrawerPanel::closed();
        out.push(p);
        assert(panels_view(out@) =~= before.push(p@));
        i += 1;
    }
    out
}

fn empty_geom() -> (r: BodyGeom)
    ensures
        r == no_geom(),
{
    BodyGeom { left: 0, top: 0, height: 0, width: 0, offset: 0 }
}

fn empty_zones() -> (r: ClickZones)
    ensures
        r == no_zones(),
{
    ClickZones {
        activity_row: 0,
        explorer: (0, 0),
        source_control: (0, 0),
        search: (0, 0),
        gear: Rect::default(),
        redraw: Rect::default(),
        repo_header: Rect::default(),
        message: Rect::default(),
        sparkle: Rect::default(),
        button: Rect::default(),
        sync: Rect::default(),
    }
}

fn reason_text(found: usize, reason: Option<String>) -> (r: String)
    ensures
        r@ == why_none(found as int, opt_text(reason)),
{
    if found > 0 {
        return "".to_string();
    }
    match reason {
        Some(reason) => reason,
        None => "no repositories found".to_string(),
    }
}

/// The name of the pane: what the views share, or this view's own.
pub open spec fn pane_label(v: AppView, shared: Seq<char>, own: Seq<char>) -> Seq<char> {
    if merged(v) {
        shared
    } else {
        own
    }
}

/// What a dialog to pick a folder ended with.
pub enum Picked {
    /// It is still open.
    Waiting,
    /// The dialog is gone without an answer.
    Lost,
    Cancelled,
    /// A folder was picked, but it cannot be opened.
    Unusable(String),
}

impl App {
    /// A view that starts in a folder, with the repositories found there or the
    /// reason that there are none. Its repositories are still to be read.
    pub fn new(
        cwd: String,
        found: Vec<Git>,
        reason: Option<String>,
        settings: Settings,
        theme: IconTheme,
        other: bool,
        pane_id: Option<String>,
        platform: Platform,
        now: u64,
    ) -> (r: (App, Vec<Effect>))
        ensures
            (r.0)@ == fresh(
                cwd@,
                roots(found@),
                opt_text(reason),
                settings,
                theme,
                other,
                opt_text(pane_id),
                platform,
                now,
            ),
            crate::scm_app::app::effects((r.1)@) == seq![EffectView::Refresh],
            sound((r.0)@),
    {
        let count = found.len();
        assert(roots(found@).len() == found@.len());
        let repos = repos_of(found);
        let app = App {
            repos,
            discover_err: reason_text(count, reason),
            active: 0,
            cwd,
            rows: Vec::new(),
            selected: None,
            scroll: 0,
            snap: false,
            focus: Focus::List,
            theme,
            drawers: closed_panels(),
            expanded_ref: None,
            history_target: None,
            flash: None,
            suggesting: false,
            syncing: false,
            overlay: None,
            hovered: None,
            body: empty_geom(),
            zones: empty_zones(),
            redraw_requested: false,
            title_zones: Vec::new(),
            repo_title_zones: Vec::new(),
            last_mouse: None,
            mouse_pos: None,
            last_click: None,
            page: 20,
            last_width: 40,
            last_height: 24,
            settings,
            other,
            pane_id,
            platform,
            picking: false,
            last_beat: now,
        };
        proof {
            assert(app@.rows =~= Seq::empty());
            assert(app@.title_zones =~= Seq::empty());
            assert(app@.repo_title_zones =~= Seq::empty());
            reveal(rows_named);
        }
        (app, one_effect(Effect::Refresh))
    }

    /// Whether repositories are still looked for.
    pub fn looks_for_repos(&self) -> (r: bool)
        ensures
            r == (self@.repos.len() == 0),
    {
        assert(self@.repos.len() == self.repos@.len());
        self.repos.len() == 0
    }

    /// Takes repositories over that came to be after the start.
    pub fn repos_found(&mut self, found: Vec<Git>)
        requires
            sound(old(self)@),
        ensures
            final(self)@ == (if old(self)@.repos.len() > 0 || found@.len() == 0 {
                old(self)@
            } else {
                AppView { repos: all_unread(roots(found@)), discover_err: ""@, ..old(self)@ }
            }),
            sound(final(self)@),
    {
        if !self.looks_for_repos() || found.len() == 0 {
            return;
        }
        proof {
            reveal(rows_named);
            assert forall|i: int| 0 <= i < self@.rows.len() implies crate::scm_app::app::row_named(
                #[trigger] self@.rows[i],
                found@.len() as int,
            ) by {
                assert(crate::scm_app::app::row_named(self@.rows[i], 0));
            }
            assert(roots(found@).len() == found@.len());
        }
        let repos = repos_of(found);
        self.repos = repos;
        self.discover_err = "".to_string();
    }

    /// Shows changes as another sidebar set it.
    pub fn file_view_loaded(&mut self, view: ScmFileView)
        requires
            sound(old(self)@),
        ensures
            final(self)@ == (AppView {
                settings: Settings { scm_file_view: view, ..old(self)@.settings },
                ..old(self)@
            }),
            sound(final(self)@),
    {
        let settings = Settings { scm_file_view: view, ..self.settings };
        self.settings = settings;
    }

    /// Whether it is time for a sign that the pane is alive.
    pub fn heartbeat(&mut self, now: u64) -> (r: bool)
        ensures
            now - old(self)@.last_beat < BEAT ==> final(self)@ == old(self)@ && !r,
            now - old(self)@.last_beat >= BEAT ==> final(self)@ == (AppView {
                last_beat: now,
                ..old(self)@
            }) && r == (old(self)@.pane_id is Some),
    {
        if now < self.last_beat || now - self.last_beat < BEAT {
            return false;
        }
        self.last_beat = now;
        self.pane_id.is_some()
    }

    /// The name of the pane: what the views share, or this view's own.
    pub fn identity_label(&self, shared: &str, own: &str) -> (r: String)
        ensures
            r@ == pane_label(self@, shared@, own@),
    {
        if self.merged() {
            shared.to_string()
        } else {
            own.to_string()
        }
    }

    /// Goes on after a look at the dialog to pick a folder.
    pub fn poll_picker(&mut self, picked: Picked)
        requires
            sound(old(self)@),
        ensures
            final(self)@ == (if !old(self)@.picking {
                old(self)@
            } else {
                match picked {
                    Picked::Waiting => old(self)@,
                    Picked::Lost => AppView { picking: false, ..old(self)@ },
                    Picked::Cancelled => AppView { picking: false, flash: None, ..old(self)@ },
                    Picked::Unusable(path) => flashed(
                        AppView { picking: false, ..old(self)@ },
                        "cannot open "@ + path@,
                        true,
                    ),
                }
            }),
            sound(final(self)@),
    {
        if !self.picking {
            return;
        }
        match picked {
            Picked::Waiting => {},
            Picked::Lost => {
                self.picking = false;
            },
            Picked::Cancelled => {
                self.picking = false;
                self.flash = None;
            },
            Picked::Unusable(path) => {
                self.picking = false;
                self.flash = Some((cat("cannot open ", path.as_str()), true));
            },
        }
    }
}

} // verus!
