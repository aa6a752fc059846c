//! What stands round the list of the source control view, and over it.

use vstd::prelude::*;

use crate::change_tree::{Row as TreeRow, RowView};
use crate::git::{entries, StatusView};
use crate::input::{
    cells_off, cells_on, fewer, least, more, monus, most, no_rect, smaller, take_off, Rect,
};
use crate::scan::{digits, digits_of};
use crate::scm_app::actions::history_row;
use crate::scm_app::app::{changes, entry_at, merged, sound, tree_row, App, AppView, ClickZones};
use crate::scm_app::geometry::top_line;
use crate::scm_app::items::{DELETED, UNTRACKED};
use crate::scm_app::layout::{
    change_tree_tooltip, find_row, inline_field_width, message_rows, message_window, place_of,
    tooltip_of, wrap_message, ChangeTooltip, Row, TooltipView, MESSAGE_MAX_ROWS,
};
use crate::scm_app::operations::nothing_open;
use crate::scm_app::overlay::{menu_view, MenuEntry, MenuEntryView, Overlay, OverlayView};
use crate::scm_app::state::{file_entries, Focus, RepoView};
use crate::sidebar::TitleAction;
use crate::text::{cat, cat3, opt_text, text_of, texts};

verus! {

// ---- Heights ----

/// How many rows of the only repository's message its box shows, beside a button
/// that is `sparkle` columns wide.
pub open spec fn single_rows(v: AppView, width: int, sparkle: int) -> int {
    if v.active < v.repos.len() {
        let repo = v.repos[v.active];
        least(
            message_rows(repo.message, repo.cursor, most(monus(width, 3 + sparkle), 1)).len() as int,
            MESSAGE_MAX_ROWS as int,
        )
    } else {
        1
    }
}

/// Whether the message box and its buttons stand above the list: for the only
/// repository, while it is open.
pub open spec fn controls_shown(v: AppView) -> bool {
    v.repos.len() == 1 && !v.repos[0].collapsed
}

/// How high the parts above the list are.
#[derive(Clone, Copy, PartialEq, Eq, Debug, Structural)]
pub struct Heights {
    pub activity: u16,
    pub message: u16,
    pub button: u16,
    pub sync: u16,
}

pub open spec fn heights_of(v: AppView, width: int, sparkle: int) -> Heights {
    let shown = controls_shown(v);
    Heights {
        activity: if merged(v) {
            3
        } else {
            0
        },
        message: if shown {
            (2 + single_rows(v, width, sparkle)) as u16
        } else {
            0
        },
        button: if shown {
            1
        } else {
            0
        },
        sync: if shown && sync_text(v) is Some {
            1
        } else {
            0
        },
    }
}

/// What is said where there is no repository.
pub open spec fn no_repo_text(reason: Seq<char>) -> Seq<char> {
    "Not a git repository.\n\n"@ + reason
        + "\n\nOpen this pane inside a repo,\nor press q to quit."@
}

// ---- Syncing ----

/// The commits to push and to pull.
pub open spec fn counts_of(ahead: usize, behind: usize) -> Seq<char> {
    digits(ahead as nat) + "↑ "@ + digits(behind as nat) + "↓"@
}

/// The label of the button that syncs, where there is something to sync.
pub open spec fn sync_text(v: AppView) -> Option<Seq<char>> {
    if v.syncing {
        Some("⇅ Syncing…"@)
    } else if v.active < v.repos.len() {
        let s = v.repos[v.active].status;
        if !s.has_upstream || s.ahead + s.behind == 0 {
            None
        } else {
            Some("⇅ Sync Changes  "@ + counts_of(s.ahead, s.behind))
        }
    } else {
        None
    }
}

fn counts_text(ahead: usize, behind: usize) -> (r: String)
    ensures
        r@ == counts_of(ahead, behind),
{
    let a = digits_of(ahead);
    let b = digits_of(behind);
    let a = text_of(&a);
    let b = text_of(&b);
    let start = cat3(a.as_str(), "↑ ", b.as_str());
    cat(start.as_str(), "↓")
}

// ---- Headers ----

/// The commits to push and to pull, where there are any.
pub open spec fn tail_counts(s: StatusView) -> Seq<char> {
    if s.ahead + s.behind > 0 {
        " "@ + counts_of(s.ahead, s.behind)
    } else {
        ""@
    }
}

/// The title: the only repository's name.
pub open spec fn title_text(v: AppView) -> Seq<char> {
    if v.active < v.repos.len() && v.repos.len() == 1 {
        v.repos[v.active].name
    } else {
        "Source Control"@
    }
}

/// What stands at the right of the title: the branch, and with several repositories
/// the name of the one that is worked on.
pub open spec fn header_note(v: AppView) -> Seq<char> {
    if v.active < v.repos.len() {
        let repo = v.repos[v.active];
        if v.repos.len() > 1 {
            repo.name + " · "@ + repo.status.branch + " "@
        } else {
            repo.status.branch + tail_counts(repo.status) + " "@
        }
    } else {
        ""@
    }
}

/// What stands at the right of a repository's row.
pub open spec fn repo_note(icon: Seq<char>, repo: RepoView) -> Seq<char> {
    icon + " "@ + crate::scm_app::state::decorated_branch(repo.status) + tail_counts(repo.status)
}

fn tail_counts_text(ahead: usize, behind: usize) -> (r: String)
    ensures
        r@ == (if ahead + behind > 0 {
            " "@ + counts_of(ahead, behind)
        } else {
            ""@
        }),
{
    if ahead > 0 || behind > 0 {
        cat(" ", counts_text(ahead, behind).as_str())
    } else {
        "".to_string()
    }
}

// ---- Clicks ----

/// The columns of the view switcher, its chips one after the other with a column
/// between them, and of the buttons at its right.
pub open spec fn activity_placed(
    zones: ClickZones,
    area: Rect,
    explorer: u16,
    git: u16,
    search: u16,
    gear: u16,
) -> ClickZones {
    let a = area.x + 1;
    let b = a + explorer + 1;
    let c = b + git + 1;
    let gear_x = area.x + monus(area.width as int, gear as int);
    ClickZones {
        activity_row: (area.y + 1) as u16,
        explorer: (a as u16, (a + explorer) as u16),
        source_control: (b as u16, (b + git) as u16),
        search: (c as u16, (c + search) as u16),
        gear: Rect { x: gear_x as u16, y: (area.y + 1) as u16, width: gear, height: 1 },
        redraw: Rect {
            x: monus(gear_x, 3) as u16,
            y: (area.y + 1) as u16,
            width: 3,
            height: 1,
        },
        ..zones
    }
}

/// The title row: the part that folds everything, and in a pane of its own the
/// buttons at the right.
pub open spec fn header_placed(v: AppView, area: Rect, gear: u16) -> ClickZones {
    if merged(v) {
        ClickZones {
            repo_header: Rect { x: area.x, y: area.y, width: area.width, height: 1 },
            ..v.zones
        }
    } else {
        ClickZones {
            repo_header: Rect {
                x: area.x,
                y: area.y,
                width: monus(area.width as int, gear + 3) as u16,
                height: 1,
            },
            redraw: Rect {
                x: (area.x + monus(area.width as int, gear + 3)) as u16,
                y: area.y,
                width: 3,
                height: 1,
            },
            gear: Rect {
                x: (area.x + monus(area.width as int, gear as int)) as u16,
                y: area.y,
                width: gear,
                height: 1,
            },
            ..v.zones
        }
    }
}

impl App {
    /// How many rows of the only repository's message its box shows.
    pub fn single_message_rows(&self, width: u16, sparkle: u16) -> (r: usize)
        ensures
            r == single_rows(self@, width as int, sparkle as int),
            r <= 4,
    {
        if self.active >= self.repos.len() {
            return 1;
        }
        let repo = &self.repos[self.active];
        assert(self@.repos[self.active as int] == repo@);
        let field = take_off(width as usize, 3 + sparkle as usize);
        let field = if field > 1 {
            field
        } else {
            1
        };
        let (rows, _, _) = wrap_message(&repo.message, repo.cursor, field);
        assert(texts(rows@).len() == rows@.len());
        smaller(rows.len(), MESSAGE_MAX_ROWS)
    }

    /// Whether the message box and its buttons stand above the list.
    pub fn shows_controls(&self) -> (r: bool)
        ensures
            r == controls_shown(self@),
    {
        assert(self@.repos.len() == self.repos@.len());
        if self.repos.len() != 1 {
            return false;
        }
        assert(self@.repos[0] == self.repos@[0]@);
        !self.repos[0].collapsed
    }

    /// What is said where there is no repository.
    pub fn no_repo_message(&self) -> (r: String)
        ensures
            r@ == no_repo_text(self@.discover_err),
    {
        cat3(
            "Not a git repository.\n\n",
            self.discover_err.as_str(),
            "\n\nOpen this pane inside a repo,\nor press q to quit.",
        )
    }

    /// How high the parts above the list are.
    pub fn heights(&self, width: u16, sparkle: u16) -> (r: Heights)
        ensures
            r == heights_of(self@, width as int, sparkle as int),
    {
        let shown = self.shows_controls();
        let rows = self.single_message_rows(width, sparkle);
        let activity = if self.merged() {
            3
        } else {
            0
        };
        if !shown {
            return Heights { activity, message: 0, button: 0, sync: 0 };
        }
        let sync = if self.sync_label().is_some() {
            1
        } else {
            0
        };
        Heights { activity, message: 2 + rows as u16, button: 1, sync }
    }

    /// Starts to draw in an area: takes its size over, and forgets where a message
    /// box stood that is no longer there.
    pub fn begin_draw(&mut self, area: Rect)
        requires
            sound(old(self)@),
        ensures
            final(self)@ == (AppView {
                last_width: area.width,
                last_height: area.height,
                zones: if old(self)@.repos.len() > 0 && !controls_shown(old(self)@) {
                    ClickZones {
                        message: no_rect(),
                        sparkle: no_rect(),
                        button: no_rect(),
                        sync: no_rect(),
                        ..old(self)@.zones
                    }
                } else {
                    old(self)@.zones
                },
                ..old(self)@
            }),
            sound(final(self)@),
    {
        assert(self@.repos.len() == self.repos@.len());
        let gone = self.repos.len() > 0 && !self.shows_controls();
        let zones = if gone {
            ClickZones {
                message: Rect::default(),
                sparkle: Rect::default(),
                button: Rect::default(),
                sync: Rect::default(),
                ..self.zones
            }
        } else {
            self.zones
        };
        self.last_width = area.width;
        self.last_height = area.height;
        self.zones = zones;
    }

    /// Takes over how high the list is, for keys that move by a page.
    pub fn set_page(&mut self, height: u16)
        requires
            sound(old(self)@),
        ensures
            final(self)@ == (AppView {
                page: most(monus(height as int, 1), 1) as usize,
                ..old(self)@
            }),
            sound(final(self)@),
    {
        let page = take_off(height as usize, 1);
        let page = if page > 1 {
            page
        } else {
            1
        };
        self.page = page;
    }

    /// The label of the button that syncs, where there is something to sync.
    pub fn sync_label(&self) -> (r: Option<String>)
        ensures
            opt_text(r) == sync_text(self@),
    {
        if self.syncing {
            return Some("⇅ Syncing…".to_string());
        }
        if self.active >= self.repos.len() {
            return None;
        }
        assert(self@.repos[self.active as int] == self.repos@[self.active as int]@);
        let s = &self.repos[self.active].status;
        if !s.has_upstream || (s.ahead == 0 && s.behind == 0) {
            return None;
        }
        Some(cat("⇅ Sync Changes  ", counts_text(s.ahead, s.behind).as_str()))
    }

    /// The title: the only repository's name.
    pub fn header_title(&self) -> (r: String)
        ensures
            r@ == title_text(self@),
    {
        assert(self@.repos.len() == self.repos@.len());
        if self.repos.len() == 1 && self.active < 1 {
            assert(self@.repos[0] == self.repos@[0]@);
            self.repos[0].name.clone()
        } else {
            "Source Control".to_string()
        }
    }

    /// What stands at the right of the title.
    pub fn header_right(&self) -> (r: String)
        ensures
            r@ == header_note(self@),
    {
        assert(self@.repos.len() == self.repos@.len());
        if self.active >= self.repos.len() {
            return "".to_string();
        }
        let repo = &self.repos[self.active];
        assert(self@.repos[self.active as int] == repo@);
        let s = &repo.status;
        if self.repos.len() > 1 {
            let start = cat3(repo.name.as_str(), " · ", s.branch.as_str());
            cat(start.as_str(), " ")
        } else {
            cat3(s.branch.as_str(), tail_counts_text(s.ahead, s.behind).as_str(), " ")
        }
    }

    /// What stands at the right of a repository's row.
    pub fn repo_right(&self, repo: usize, icon: &str) -> (r: String)
        requires
            repo < self@.repos.len(),
        ensures
            r@ == repo_note(icon@, self@.repos[repo as int]),
    {
        let item = &self.repos[repo];
        assert(self@.repos[repo as int] == item@);
        let start = cat3(icon, " ", item.branch_decor().as_str());
        cat(
            start.as_str(),
            tail_counts_text(item.status.ahead, item.status.behind).as_str(),
        )
    }

    /// The buttons of the title row: the second folds everything, or unfolds it.
    pub fn header_actions(&self) -> (r: Vec<TitleAction>)
        requires
            sound(self@),
        ensures
            r@ == seq![
                TitleAction::Refresh,
                if nothing_open(self@) {
                    TitleAction::ExpandAll
                } else {
                    TitleAction::CollapseAll
                },
            ],
    {
        let fold = if self.fully_collapsed() {
            TitleAction::ExpandAll
        } else {
            TitleAction::CollapseAll
        };
        let mut r: Vec<TitleAction> = Vec::new();
        r.push(TitleAction::Refresh);
        r.push(fold);
        assert(r@ =~= seq![TitleAction::Refresh, fold]);
        r
    }

    /// Remembers where the view switcher was drawn, from the widths of its chips.
    pub fn place_activity_bar(
        &mut self,
        area: Rect,
        explorer: u16,
        git: u16,
        search: u16,
        gear: u16,
    )
        requires
            sound(old(self)@),
            area.x + explorer + git + search + 3 <= u16::MAX,
            area.x + area.width <= u16::MAX,
            area.y < u16::MAX,
        ensures
            final(self)@ == (AppView {
                zones: activity_placed(old(self)@.zones, area, explorer, git, search, gear),
                ..old(self)@
            }),
            sound(final(self)@),
    {
        let a = area.x + 1;
        let b = a + explorer + 1;
        let c = b + git + 1;
        let y = area.y + 1;
        let gear_x = area.x + cells_off(area.width, gear);
        self.zones = ClickZones {
            activity_row: y,
            explorer: (a, a + explorer),
            source_control: (b, b + git),
            search: (c, c + search),
            gear: Rect::new(gear_x, y, gear, 1),
            redraw: Rect::new(cells_off(gear_x, 3), y, 3, 1),
            ..self.zones
        };
    }

    /// Remembers where the title row was drawn, from the width of its button.
    pub fn place_header(&mut self, area: Rect, gear: u16)
        requires
            sound(old(self)@),
            area.x + area.width <= u16::MAX,
            gear <= u16::MAX - 3,
        ensures
            final(self)@ == (AppView {
                zones: header_placed(old(self)@, area, gear),
                ..old(self)@
            }),
            sound(final(self)@),
    {
        let zones = if self.merged() {
            ClickZones { repo_header: Rect::new(area.x, area.y, area.width, 1), ..self.zones }
        } else {
            let left = cells_off(area.width, gear + 3);
            ClickZones {
                repo_header: Rect::new(area.x, area.y, left, 1),
                redraw: Rect::new(area.x + left, area.y, 3, 1),
                gear: Rect::new(area.x + cells_off(area.width, gear), area.y, gear, 1),
                ..self.zones
            }
        };
        self.zones = zones;
    }

    /// Remembers where the message box and its buttons were drawn.
    pub fn place_controls(&mut self, message: Rect, sparkle: Rect, button: Rect, sync: Rect)
        requires
            sound(old(self)@),
        ensures
            final(self)@ == (AppView {
                zones: ClickZones { message, sparkle, button, sync, ..old(self)@.zones },
                ..old(self)@
            }),
            sound(final(self)@),
    {
        let zones = ClickZones { message, sparkle, button, sync, ..self.zones };
        self.zones = zones;
    }
}

/// The chips of the view switcher do not overlap.
pub proof fn law_chips_do_not_overlap(
    zones: ClickZones,
    area: Rect,
    explorer: u16,
    git: u16,
    search: u16,
    gear: u16,
)
    requires
        area.x + explorer + git + search + 3 <= u16::MAX,
    ensures
        ({
            let z = activity_placed(zones, area, explorer, git, search, gear);
            &&& z.explorer.0 <= z.explorer.1 < z.source_control.0 <= z.source_control.1
            &&& z.source_control.1 < z.search.0 <= z.search.1
        }),
{
}

// ---- The cursor ----

/// Where the cursor stands in a message box: its row among the shown ones, and its
/// column.
pub open spec fn cursor_cell(message: Seq<char>, cursor: int, field: int) -> (int, int) {
    let rows = message_rows(message, cursor, field).len() as int;
    let line = cursor / most(field, 1);
    let top = monus(line + 1, least(rows, MESSAGE_MAX_ROWS as int));
    (line - top, cursor % most(field, 1))
}

/// Where the terminal's cursor stands in the box of the repository that is worked
/// on, where the box is in the list and its row in sight.
pub open spec fn inline_cursor(v: AppView, area: Rect) -> Option<(int, int)> {
    if v.repos.len() <= 1 || v.focus != Focus::Message || v.active >= v.repos.len() {
        None
    } else {
        match place_of(v.rows, Row::Message(v.active as usize)) {
            None => None,
            Some(i) => match top_line(v, i as int) {
                None => None,
                Some(y) => {
                    let repo = v.repos[v.active];
                    let (line, column) = cursor_cell(
                        repo.message,
                        repo.cursor,
                        monus(v.last_width as int, 5),
                    );
                    let cy = y + 1 + line;
                    if y + 1 < area.y + area.height && cy + 1 < area.y + area.height {
                        Some((area.x + 1 + column, cy))
                    } else {
                        None
                    }
                },
            },
        }
    }
}

/// Where the cursor stands in a message box: its row among the shown ones, and its
/// column.
pub fn cursor_in_box(message: &[char], cursor: usize, field: usize) -> (r: (usize, usize))
    requires
        cursor < usize::MAX,
    ensures
        (r.0 as int, r.1 as int) == cursor_cell(message@, cursor as int, field as int),
        r.1 < most(field as int, 1),
{
    let (rows, line, column) = wrap_message(message, cursor, field);
    assert(texts(rows@).len() == rows@.len());
    proof {
        assert(cursor as int / most(field as int, 1) <= cursor) by (nonlinear_arith)
            requires
                cursor >= 0,
                most(field as int, 1) >= 1,
        ;
    }
    let (top, _) = message_window(rows.len(), line, true);
    proof {
        lemma_rows_count(message@, cursor as int, field as int);
        assert(top <= line);
    }
    (line - top, column)
}

proof fn lemma_rows_count(message: Seq<char>, cursor: int, field: int)
    ensures
        message_rows(message, cursor, field).len() >= 1,
{
}

impl App {
    /// Where the terminal's cursor stands in a message box of the list.
    pub fn message_cursor(&self, area: Rect) -> (r: Option<(u32, usize)>)
        requires
            sound(self@),
            self@.active < self@.repos.len() ==> self@.repos[self@.active].cursor < usize::MAX,
        ensures
            match r {
                Some((x, y)) => inline_cursor(self@, area) == Some((x as int, y as int)),
                None => inline_cursor(self@, area) is None,
            },
    {
        assert(self@.repos.len() == self.repos@.len());
        if self.repos.len() <= 1 || self.focus != Focus::Message || self.active >= self.repos.len() {
            return None;
        }
        let index = match find_row(&self.rows, Row::Message(self.active)) {
            Some(i) => i,
            None => {
                return None;
            },
        };
        let y = match self.row_y(index) {
            Some(y) => y as usize,
            None => {
                return None;
            },
        };
        let repo = &self.repos[self.active];
        assert(self@.repos[self.active as int] == repo@);
        let field = inline_field_width(self.last_width) as usize;
        let (line, column) = cursor_in_box(&repo.message, repo.cursor, field);
        let bottom = area.y as usize + area.height as usize;
        if y + 1 >= bottom || line >= bottom || y + 1 + line + 1 >= bottom {
            return None;
        }
        Some((area.x as u32 + 1 + column as u32, y + 1 + line))
    }
}

// ---- Under the mouse ----

/// What is shown of the change under the mouse.
pub open spec fn hovered_tooltip(v: AppView, lingering: bool) -> Option<TooltipView> {
    if !lingering || v.hovered is None || v.hovered->0 >= v.rows.len() {
        None
    } else {
        match v.rows[v.hovered->0 as int] {
            Row::Staged(repo, row) => match tree_row(v, repo, row, true) {
                Some(t) => tooltip_of(
                    t,
                    entry_at(v, repo, row, true),
                    changes(v.repos[repo as int], true),
                    v.platform,
                ),
                None => None,
            },
            Row::Unstaged(repo, row) => match tree_row(v, repo, row, false) {
                Some(t) => tooltip_of(
                    t,
                    entry_at(v, repo, row, false),
                    changes(v.repos[repo as int], false),
                    v.platform,
                ),
                None => None,
            },
            Row::HistoryTree(row) => match history_row(v, row as int) {
                Some(t) => {
                    let files = file_entries(v.expanded_ref->0.files);
                    tooltip_of(
                        t,
                        match t {
                            RowView::File { index, .. } => if index < files.len() {
                                Some(files[index as int])
                            } else {
                                None
                            },
                            _ => None,
                        },
                        files,
                        v.platform,
                    )
                },
                None => None,
            },
            _ => None,
        }
    }
}

pub open spec fn tooltip_opt(t: Option<ChangeTooltip>) -> Option<TooltipView> {
    match t {
        Some(t) => Some(t@),
        None => None,
    }
}

impl App {
    fn status_tooltip(&self, repo: usize, row: usize, staged: bool) -> (r: Option<ChangeTooltip>)
        ensures
            tooltip_opt(r) == (match tree_row(self@, repo, row, staged) {
                Some(t) => tooltip_of(
                    t,
                    entry_at(self@, repo, row, staged),
                    changes(self@.repos[repo as int], staged),
                    self@.platform,
                ),
                None => None,
            }),
    {
        match self.status_tree_row(repo, row, staged) {
            Some(t) => {
                let entry = self.status_entry(repo, row, staged);
                assert(self@.repos[repo as int] == self.repos@[repo as int]@);
                let status = &self.repos[repo].status;
                if staged {
                    change_tree_tooltip(t, entry, &status.staged, self.platform)
                } else {
                    change_tree_tooltip(t, entry, &status.unstaged, self.platform)
                }
            },
            None => None,
        }
    }

    fn history_tooltip(&self, row: usize) -> (r: Option<ChangeTooltip>)
        ensures
            tooltip_opt(r) == (match history_row(self@, row as int) {
                Some(t) => {
                    let files = file_entries(self@.expanded_ref->0.files);
                    tooltip_of(
                        t,
                        match t {
                            RowView::File { index, .. } => if index < files.len() {
                                Some(files[index as int])
                            } else {
                                None
                            },
                            _ => None,
                        },
                        files,
                        self@.platform,
                    )
                },
                None => None,
            }),
    {
        let t = match self.history_row(row) {
            Some(t) => t,
            None => {
                return None;
            },
        };
        match &self.expanded_ref {
            Some(e) => {
                let files = e.entries();
                let ghost all = entries(files@);
                assert(all.len() == files@.len());
                let entry = match &t {
                    TreeRow::File { index, .. } => if *index < files.len() {
                        assert(all[*index as int] == files@[*index as int]@);
                        Some(&files[*index])
                    } else {
                        None
                    },
                    TreeRow::Directory { .. } => None,
                };
                change_tree_tooltip(&t, entry, &files, self.platform)
            },
            None => None,
        }
    }

    /// What is shown of the change under the mouse, while the mouse lingers.
    pub fn hovered_change_tooltip(&self, lingering: bool) -> (r: Option<ChangeTooltip>)
        ensures
            tooltip_opt(r) == hovered_tooltip(self@, lingering),
    {
        if !lingering {
            return None;
        }
        let i = match self.hovered {
            Some(i) => i,
            None => {
                return None;
            },
        };
        if i >= self.rows.len() {
            return None;
        }
        match self.rows[i] {
            Row::Staged(repo, row) => self.status_tooltip(repo, row, true),
            Row::Unstaged(repo, row) => self.status_tooltip(repo, row, false),
            Row::HistoryTree(row) => self.history_tooltip(row),
            _ => None,
        }
    }
}

/// How wide a tooltip is: its widest text and a border, within bounds.
pub open spec fn tooltip_width(bounds: Rect, text: int) -> int {
    most(least(text + 4, bounds.width as int), 14)
}

/// How many of its lines of path are shown, above one of counts.
pub open spec fn tooltip_lines(bounds: Rect, lines: int, counts: bool) -> int {
    least(
        lines,
        monus(
            monus(bounds.height as int, 2),
            if counts {
                1
            } else {
                0
            },
        ),
    )
}

/// Where a tooltip stands: below its row, or above it where there is no room.
pub open spec fn tooltip_area(
    bounds: Rect,
    row_y: u16,
    anchor: u16,
    width: int,
    height: int,
) -> Rect {
    let right = least(bounds.x + bounds.width, u16::MAX as int);
    let bottom = least(bounds.y + bounds.height, u16::MAX as int);
    let below = least(row_y + 1, u16::MAX as int);
    Rect {
        x: least(
            most(monus(anchor as int, 1), bounds.x as int),
            monus(right, width),
        ) as u16,
        y: if least(below + height, u16::MAX as int) <= bottom {
            below as u16
        } else {
            most(monus(row_y as int, height), bounds.y as int) as u16
        },
        width: width as u16,
        height: height as u16,
    }
}

/// How wide a tooltip is, where there is room for one.
pub fn tooltip_columns(bounds: Rect, text: usize) -> (r: Option<u16>)
    ensures
        r == (if bounds.width < 14 || bounds.height < 3 {
            None
        } else {
            Some(tooltip_width(bounds, text as int) as u16)
        }),
{
    if bounds.width < 14 || bounds.height < 3 {
        return None;
    }
    let most_text = bounds.width as usize - 4;
    let width = if text < most_text {
        text + 4
    } else {
        bounds.width as usize
    };
    Some(
        if width > 14 {
            width as u16
        } else {
            14
        },
    )
}

/// How many lines of path a tooltip shows.
pub fn tooltip_rows(bounds: Rect, lines: usize, counts: bool) -> (r: usize)
    ensures
        r == tooltip_lines(bounds, lines as int, counts),
        r <= u16::MAX - 2 || bounds.height == 0,
{
    let room = take_off(bounds.height as usize, 2);
    smaller(
        lines,
        take_off(
            room,
            if counts {
                1
            } else {
                0
            },
        ),
    )
}

/// Where a tooltip stands.
pub fn place_tooltip(bounds: Rect, row_y: u16, anchor: u16, width: u16, height: u16) -> (r: Rect)
    requires
        bounds.x + width <= bounds.x + bounds.width <= u16::MAX,
    ensures
        r == tooltip_area(bounds, row_y, anchor, width as int, height as int),
{
    let right = cells_on(bounds.x, bounds.width);
    let bottom = cells_on(bounds.y, bounds.height);
    let below = cells_on(row_y, 1);
    let x = fewer(more(cells_off(anchor, 1), bounds.x), cells_off(right, width));
    let y = if cells_on(below, height) <= bottom {
        below
    } else {
        more(cells_off(row_y, height), bounds.y)
    };
    Rect::new(x, y, width, height)
}

/// A tooltip that is no wider than its bounds stays within their columns.
pub proof fn law_tooltips_stay_in_their_columns(
    bounds: Rect,
    row_y: u16,
    anchor: u16,
    width: int,
    height: int,
)
    requires
        0 <= width <= bounds.width,
        bounds.x + bounds.width <= u16::MAX,
    ensures
        ({
            let r = tooltip_area(bounds, row_y, anchor, width, height);
            bounds.x <= r.x && r.x + width <= bounds.x + bounds.width
        }),
{
}

// ---- The foot ----

/// What the foot says, and its color: a question, or else a notice.
pub open spec fn foot_text(v: AppView) -> Option<(Seq<char>, u32)> {
    match v.overlay {
        Some(OverlayView::ConfirmDiscard { entry, .. }) => Some(
            ("Discard changes to '"@ + entry.path + "'? (y/N)"@, DELETED),
        ),
        Some(OverlayView::ConfirmGit { prompt, .. }) => Some((prompt, DELETED)),
        _ => match v.flash {
            Some((text, bad)) => Some(
                if bad {
                    (text, DELETED)
                } else {
                    ("✓ "@ + text, UNTRACKED)
                },
            ),
            None => None,
        },
    }
}

/// The keys, and what they do.
pub open spec fn key_hints(v: AppView) -> Seq<(Seq<char>, Seq<char>)> {
    let own = seq![
        ("⏎"@, "stage"@),
        ("a"@, "all"@),
        ("u"@, "none"@),
        ("c"@, "msg"@),
        ("A"@, "suggest"@),
        ("o"@, "diff"@),
        ("b"@, "hide"@),
        ("S"@, "sync"@),
        ("s"@, "settings"@),
        ("r"@, "refresh"@),
        ("q"@, "quit"@),
    ];
    if merged(v) {
        own + seq![("1"@, "files"@), ("2"@, "git"@), ("3"@, "search"@)]
    } else {
        own
    }
}

pub open spec fn pairs(v: Seq<(&str, &str)>) -> Seq<(Seq<char>, Seq<char>)> {
    v.map_values(|p: (&str, &str)| (p.0@, p.1@))
}

impl App {
    /// What the foot says, and its color.
    pub fn footer_message(&self) -> (r: Option<(String, u32)>)
        ensures
            (match r {
                Some((text, color)) => Some((text@, color)),
                None => None,
            }) == foot_text(self@),
    {
        match &self.overlay {
            Some(Overlay::ConfirmDiscard { entry, .. }) => {
                return Some((cat3("Discard changes to '", entry.path.as_str(), "'? (y/N)"), DELETED));
            },
            Some(Overlay::ConfirmGit { prompt, .. }) => {
                return Some((prompt.clone(), DELETED));
            },
            _ => {},
        }
        match &self.flash {
            Some((text, bad)) => Some(
                if *bad {
                    (text.clone(), DELETED)
                } else {
                    (cat("✓ ", text.as_str()), UNTRACKED)
                },
            ),
            None => None,
        }
    }

    /// The keys, and what they do.
    pub fn hints(&self) -> (r: Vec<(&'static str, &'static str)>)
        ensures
            pairs(r@) == key_hints(self@),
    {
        let mut hints: Vec<(&'static str, &'static str)> = Vec::new();
        hints.push(("⏎", "stage"));
        hints.push(("a", "all"));
        hints.push(("u", "none"));
        hints.push(("c", "msg"));
        hints.push(("A", "suggest"));
        hints.push(("o", "diff"));
        hints.push(("b", "hide"));
        hints.push(("S", "sync"));
        hints.push(("s", "settings"));
        hints.push(("r", "refresh"));
        hints.push(("q", "quit"));
        if self.merged() {
            hints.push(("1", "files"));
            hints.push(("2", "git"));
            hints.push(("3", "search"));
        }
        assert(pairs(hints@) =~= key_hints(self@));
        hints
    }

    /// Whether the foot shows the keys while it has nothing else to say.
    pub fn show_hotkeys(&self) -> (r: bool)
        ensures
            r == self@.settings.show_hotkeys,
    {
        self.settings.show_hotkeys
    }
}

// ---- Popups ----

/// How wide the widest of the first `n` labels is.
pub open spec fn widest_label(entries: Seq<MenuEntryView>, n: int) -> int
    decreases n,
{
    if n <= 0 {
        0
    } else {
        most(
            widest_label(entries, n - 1),
            match entries[n - 1] {
                MenuEntryView::Action(_, label) => label.len() as int,
                MenuEntryView::Separator => 0,
            },
        )
    }
}

/// Where a menu stands: below the click, within the pane.
pub open spec fn menu_area(
    x: u16,
    y: u16,
    entries: Seq<MenuEntryView>,
    columns: u16,
    rows: u16,
) -> Rect {
    let width = least(widest_label(entries, entries.len() as int) + 4, columns as int);
    let height = least(entries.len() as int + 2, rows as int);
    Rect {
        x: least(x as int, monus(columns as int, width)) as u16,
        y: least(y + 1, monus(rows as int, height)) as u16,
        width: width as u16,
        height: height as u16,
    }
}

/// Where the settings stand: in the middle, and a third of the way down.
pub open spec fn settings_area(rows: int, hints: int, columns: u16, lines: u16) -> Rect {
    let width = least(30, columns as int);
    let height = least(rows + 5 + hints, lines as int);
    Rect {
        x: (monus(columns as int, width) / 2) as u16,
        y: (monus(lines as int, height) / 3) as u16,
        width: width as u16,
        height: height as u16,
    }
}

/// A menu lies within the pane.
pub proof fn law_menus_stay_in_the_pane(
    x: u16,
    y: u16,
    entries: Seq<MenuEntryView>,
    columns: u16,
    rows: u16,
)
    ensures
        ({
            let r = menu_area(x, y, entries, columns, rows);
            r.x + r.width <= columns && r.y + r.height <= rows
        }),
{
    lemma_widest(entries, entries.len() as int);
}

proof fn lemma_widest(entries: Seq<MenuEntryView>, n: int)
    ensures
        widest_label(entries, n) >= 0,
    decreases n,
{
    if n > 0 {
        lemma_widest(entries, n - 1);
    }
}

fn widest(entries: &Vec<MenuEntry>) -> (r: usize)
    ensures
        r == widest_label(menu_view(entries@), entries@.len() as int),
{
    let ghost all = menu_view(entries@);
    let mut w: usize = 0;
    let mut i: usize = 0;
    while i < entries.len()
        invariant
            i <= entries@.len(),
            all == menu_view(entries@),
            w == widest_label(all, i as int),
        decreases entries@.len() - i,
    {
        assert(all[i as int] == entries@[i as int]@);
        if let MenuEntry::Action(_, label) = entries[i] {
            let n = label.unicode_len();
            if n > w {
                w = n;
            }
        }
        i += 1;
    }
    w
}

/// Where a menu stands.
pub fn place_popup(x: u16, y: u16, entries: &Vec<MenuEntry>, columns: u16, rows: u16) -> (r: Rect)
    ensures
        r == menu_area(x, y, menu_view(entries@), columns, rows),
{
    assert(menu_view(entries@).len() == entries@.len());
    let w = widest(entries);
    let width = if w < columns as usize && w + 4 < columns as usize {
        w as u16 + 4
    } else {
        columns
    };
    let n = entries.len();
    let height = if n < rows as usize && n + 2 < rows as usize {
        n as u16 + 2
    } else {
        rows
    };
    let below = y as u32 + 1;
    let lowest = cells_off(rows, height);
    let top = if below < lowest as u32 {
        below as u16
    } else {
        lowest
    };
    Rect::new(fewer(x, cells_off(columns, width)), top, width, height)
}

/// Where the settings stand.
pub fn place_settings(rows: u16, hints: u16, columns: u16, lines: u16) -> (r: Rect)
    requires
        rows + hints + 5 <= u16::MAX,
    ensures
        r == settings_area(rows as int, hints as int, columns, lines),
{
    let width = fewer(30, columns);
    let height = fewer(rows + 5 + hints, lines);
    Rect::new(cells_off(columns, width) / 2, cells_off(lines, height) / 3, width, height)
}

impl App {
    /// Places the open menu, and remembers where.
    pub fn place_menu(&mut self) -> (r: Option<Rect>)
        requires
            sound(old(self)@),
        ensures
            match old(self)@.overlay {
                Some(OverlayView::Menu { x, y, target, entries, selected, .. }) => {
                    let rect = menu_area(
                        x,
                        y,
                        entries,
                        old(self)@.last_width,
                        old(self)@.last_height,
                    );
                    &&& r == Some(rect)
                    &&& final(self)@ == (AppView {
                        overlay: Some(
                            OverlayView::Menu { x, y, target, entries, selected, rect },
                        ),
                        ..old(self)@
                    })
                },
                _ => r is None && final(self)@ == old(self)@,
            },
            sound(final(self)@),
    {
        match self.overlay.take() {
            Some(Overlay::Menu { x, y, target, entries, selected, .. }) => {
                let rect = place_popup(x, y, &entries, self.last_width, self.last_height);
                self.overlay = Some(Overlay::Menu { x, y, target, entries, selected, rect });
                Some(rect)
            },
            other => {
                self.overlay = other;
                None
            },
        }
    }

    /// Remembers where the settings or the themes were drawn.
    pub fn place_choices(&mut self, area: Rect, first: usize)
        requires
            sound(old(self)@),
        ensures
            final(self)@ == (match old(self)@.overlay {
                Some(OverlayView::Settings { selected, .. }) => AppView {
                    overlay: Some(OverlayView::Settings { selected, rect: area }),
                    ..old(self)@
                },
                Some(OverlayView::ThemePicker { selected, .. }) => AppView {
                    overlay: Some(
                        OverlayView::ThemePicker { selected, scroll: first, rect: area },
                    ),
                    ..old(self)@
                },
                _ => old(self)@,
            }),
            sound(final(self)@),
    {
        match self.overlay.take() {
            Some(Overlay::Settings { selected, .. }) => {
                self.overlay = Some(Overlay::Settings { selected, rect: area });
            },
            Some(Overlay::ThemePicker { selected, .. }) => {
                self.overlay = Some(Overlay::ThemePicker { selected, scroll: first, rect: area });
            },
            other => {
                self.overlay = other;
            },
        }
    }
}

} // verus!
