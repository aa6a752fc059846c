//! Where the parts of the source control view stand, and what they say.

use vstd::prelude::*;

use crate::change_tree::{Row as TreeRow, RowView};
use crate::input::{least, monus, most, smaller, take_off, Rect};
use crate::scm_app::app::{panel, selection_listed, sound, App, AppView, BodyGeom};
use crate::scm_app::drawers::{has_file_tree, Drawer, DrawerRef, DrawerRefView};
use crate::scm_app::geometry::{height_of, lines_between, row_under};
use crate::scm_app::items::{file_name_of, last_name, ChangeTail, HOVER_BG};
use crate::scm_app::layout::{content_columns, list_content_width, Row, ScmFileView};
use crate::scm_app::state::Focus;
use crate::style::{bg_style, no_style, Color, Style};
use crate::text::opt_text;

verus! {

// ---- The list ----

/// The first place at or after `scroll` from which row `sel` is in sight, in `h`
/// lines.
pub open spec fn snapped(v: AppView, scroll: int, sel: int, h: int) -> int
    decreases sel - scroll,
{
    if scroll >= sel || lines_between(v, scroll, sel + 1) <= h {
        scroll
    } else {
        snapped(v, scroll + 1, sel, h)
    }
}

/// Where the list begins: no further than its last row, and where keys moved the
/// selection, so that it is in sight.
pub open spec fn scroll_for(v: AppView, h: int) -> int {
    let scroll = least(v.scroll, monus(v.rows.len() as int, 1));
    match v.selected {
        Some(sel) => if !v.snap {
            scroll
        } else if sel < scroll {
            sel as int
        } else {
            snapped(v, scroll, sel as int, h)
        },
        None => scroll,
    }
}

/// The row after the last of which something is in sight, in `left` lines.
pub open spec fn end_of(v: AppView, i: int, left: int) -> int
    decreases v.rows.len() - i,
{
    if i >= v.rows.len() || left <= 0 {
        i
    } else {
        end_of(v, i + 1, left - height_of(v, v.rows[i]))
    }
}

/// How many rows are in sight.
pub open spec fn rows_in_sight(v: AppView, area: Rect) -> int {
    let h = most(area.height as int, 1);
    end_of(v, scroll_for(v, h), h) - scroll_for(v, h)
}

/// The list in an area of the screen.
pub open spec fn list_placed(v: AppView, area: Rect) -> AppView {
    let scroll = scroll_for(v, most(area.height as int, 1));
    let a = AppView {
        scroll,
        snap: false,
        body: BodyGeom {
            left: area.x,
            top: area.y,
            height: area.height,
            width: area.width,
            offset: scroll as usize,
        },
        ..v
    };
    AppView {
        hovered: match v.mouse_pos {
            Some((_, y)) => row_under(a, y),
            None => None,
        },
        body: BodyGeom {
            width: content_columns(area.width, v.rows.len() as int, rows_in_sight(v, area)),
            ..a.body
        },
        ..a
    }
}

proof fn lemma_heights_depend(v: AppView, w: AppView)
    requires
        v.rows == w.rows,
        v.repos == w.repos,
        v.last_width == w.last_width,
    ensures
        forall|i: int, left: int| #[trigger] end_of(v, i, left) == end_of(w, i, left),
        forall|i: int, to: int| #[trigger] lines_between(v, i, to) == lines_between(w, i, to),
{
    assert forall|i: int, left: int| #[trigger] end_of(v, i, left) == end_of(w, i, left) by {
        lemma_end_depends(v, w, i, left);
    }
    assert forall|i: int, to: int| #[trigger] lines_between(v, i, to) == lines_between(
        w,
        i,
        to,
    ) by {
        lemma_lines_depend(v, w, i, to);
    }
}

proof fn lemma_end_depends(v: AppView, w: AppView, i: int, left: int)
    requires
        v.rows == w.rows,
        v.repos == w.repos,
        v.last_width == w.last_width,
    ensures
        end_of(v, i, left) == end_of(w, i, left),
    decreases v.rows.len() - i,
{
    if i < v.rows.len() && left > 0 {
        lemma_end_depends(v, w, i + 1, left - height_of(v, v.rows[i]));
    }
}

proof fn lemma_lines_depend(v: AppView, w: AppView, i: int, to: int)
    requires
        v.rows == w.rows,
        v.repos == w.repos,
        v.last_width == w.last_width,
    ensures
        lines_between(v, i, to) == lines_between(w, i, to),
    decreases to - i,
{
    if i < to {
        lemma_lines_depend(v, w, i + 1, to);
    }
}

proof fn lemma_lines_count(v: AppView, i: int, to: int)
    ensures
        lines_between(v, i, to) >= 0,
    decreases to - i,
{
    if i < to {
        lemma_lines_count(v, i + 1, to);
    }
}

/// After keys moved the selection it is in sight: the rows from the top of the list
/// through the selected one fit, or it stands at the top.
pub proof fn law_selection_comes_into_sight(v: AppView, area: Rect)
    requires
        v.snap,
        v.scroll >= 0,
        v.selected is Some,
        selection_listed(v),
    ensures
        ({
            let w = list_placed(v, area);
            let sel = v.selected->0 as int;
            &&& 0 <= w.scroll <= sel
            &&& w.scroll == sel || lines_between(w, w.scroll, sel + 1) <= most(
                area.height as int,
                1,
            )
        }),
{
    let h = most(area.height as int, 1);
    let sel = v.selected->0 as int;
    let start = least(v.scroll, monus(v.rows.len() as int, 1));
    if sel >= start {
        lemma_snapped(v, start, sel, h);
    }
    lemma_heights_depend(v, list_placed(v, area));
}

proof fn lemma_snapped(v: AppView, scroll: int, sel: int, h: int)
    requires
        scroll <= sel,
    ensures
        scroll <= snapped(v, scroll, sel, h) <= sel,
        snapped(v, scroll, sel, h) == sel || lines_between(v, snapped(v, scroll, sel, h), sel + 1)
            <= h,
    decreases sel - scroll,
{
    if scroll < sel && lines_between(v, scroll, sel + 1) > h {
        lemma_snapped(v, scroll + 1, sel, h);
    }
}

impl App {
    /// Whether the rows `from` through `to` fit in `h` lines.
    fn fits(&self, from: usize, to: usize, h: usize) -> (r: bool)
        requires
            to < self@.rows.len(),
        ensures
            r == (lines_between(self@, from as int, to + 1) <= h),
    {
        let ghost whole = lines_between(self@, from as int, to + 1);
        let total = self.rows.len();
        let mut left = h;
        let mut i = from;
        while i <= to
            invariant
                from <= i || i > to,
                i <= to + 1 || i == from,
                to < self.rows@.len(),
                total == self.rows@.len(),
                left <= h,
                whole == h - left + lines_between(self@, i as int, to + 1),
                whole == lines_between(self@, from as int, to + 1),
            decreases to + 1 - i,
        {
            let n = self.row_height(self.rows[i]) as usize;
            if n > left {
                proof {
                    lemma_lines_count(self@, i + 1, to + 1);
                }
                return false;
            }
            left -= n;
            i += 1;
        }
        true
    }

    fn scroll_to(&self, h: usize) -> (r: usize)
        requires
            selection_listed(self@),
        ensures
            r == scroll_for(self@, h as int),
            r <= self@.rows.len(),
    {
        let start = smaller(self.scroll, take_off(self.rows.len(), 1));
        let sel = match self.selected {
            Some(sel) => sel,
            None => {
                return start;
            },
        };
        if !self.snap {
            return start;
        }
        if sel < start {
            return sel;
        }
        let mut scroll = start;
        while scroll < sel
            invariant
                scroll <= sel,
                sel < self@.rows.len(),
                snapped(self@, start as int, sel as int, h as int) == snapped(
                    self@,
                    scroll as int,
                    sel as int,
                    h as int,
                ),
                scroll_for(self@, h as int) == snapped(
                    self@,
                    start as int,
                    sel as int,
                    h as int,
                ),
            decreases sel - scroll,
        {
            if self.fits(scroll, sel, h) {
                return scroll;
            }
            scroll += 1;
        }
        scroll
    }

    fn last_in_sight(&self, from: usize, h: usize) -> (r: usize)
        requires
            from <= self@.rows.len(),
        ensures
            r == end_of(self@, from as int, h as int),
            from <= r <= self@.rows.len(),
    {
        let ghost want = end_of(self@, from as int, h as int);
        let mut end = from;
        let mut left = h;
        while end < self.rows.len() && left > 0
            invariant
                from <= end <= self.rows@.len(),
                want == end_of(self@, end as int, left as int),
            decreases self.rows@.len() - end,
        {
            let n = self.row_height(self.rows[end]) as usize;
            if n >= left {
                assert(want == end_of(self@, end + 1, left - n));
                assert(want == end + 1);
                left = 0;
            } else {
                left -= n;
            }
            end += 1;
        }
        end
    }

    /// Lays the list out in an area of the screen; how many rows are in sight.
    pub fn place_list(&mut self, area: Rect) -> (r: usize)
        requires
            sound(old(self)@),
        ensures
            final(self)@ == list_placed(old(self)@, area),
            r == rows_in_sight(old(self)@, area),
            sound(final(self)@),
    {
        let h = if area.height == 0 {
            1
        } else {
            area.height as usize
        };
        let scroll = self.scroll_to(h);
        let end = self.last_in_sight(scroll, h);
        let visible = end - scroll;
        let width = list_content_width(area.width, self.rows.len(), visible);
        self.scroll = scroll;
        self.snap = false;
        self.body = BodyGeom {
            left: area.x,
            top: area.y,
            height: area.height,
            width: area.width,
            offset: scroll,
        };
        let hovered = match self.mouse_pos {
            Some((_, y)) => self.row_at(y),
            None => None,
        };
        self.hovered = hovered;
        self.body = BodyGeom {
            left: area.x,
            top: area.y,
            height: area.height,
            width,
            offset: scroll,
        };
        visible
    }
}

// ---- The rows ----

/// What a row of the list is, as far as the state of the view decides it.
pub enum RowContent {
    Repo { repo: usize, active: bool },
    Message { repo: usize, focused: bool },
    Commit { active: bool, focused: bool },
    Section { staged: bool, collapsed: bool, count: usize, action: Option<char> },
    /// A drawer's head; `file` is followed in it.
    Drawer { kind: Drawer, collapsed: bool, file: Option<String> },
    /// A drawer's line; whether its files are shown, where it can have some.
    Line { kind: Drawer, index: usize, expanded: Option<bool> },
    Change { repo: usize, staged: bool, row: usize, tail: ChangeTail, tree: bool },
    History { row: usize, tail: ChangeTail, tree: bool },
    Notice,
    Separator,
}

#[verifier::ext_equal]
#[allow(inconsistent_fields)]
pub enum ContentView {
    Repo { repo: usize, active: bool },
    Message { repo: usize, focused: bool },
    Commit { active: bool, focused: bool },
    Section { staged: bool, collapsed: bool, count: usize, action: Option<char> },
    Drawer { kind: Drawer, collapsed: bool, file: Option<Seq<char>> },
    Line { kind: Drawer, index: usize, expanded: Option<bool> },
    Change { repo: usize, staged: bool, row: usize, tail: ChangeTail, tree: bool },
    History { row: usize, tail: ChangeTail, tree: bool },
    Notice,
    Separator,
}

impl View for RowContent {
    type V = ContentView;

    open spec fn view(&self) -> ContentView {
        match *self {
            RowContent::Repo { repo, active } => ContentView::Repo { repo, active },
            RowContent::Message { repo, focused } => ContentView::Message { repo, focused },
            RowContent::Commit { active, focused } => ContentView::Commit { active, focused },
            RowContent::Section { staged, collapsed, count, action } => ContentView::Section {
                staged,
                collapsed,
                count,
                action,
            },
            RowContent::Drawer { kind, collapsed, file } => ContentView::Drawer {
                kind,
                collapsed,
                file: opt_text(file),
            },
            RowContent::Line { kind, index, expanded } => ContentView::Line {
                kind,
                index,
                expanded,
            },
            RowContent::Change { repo, staged, row, tail, tree } => ContentView::Change {
                repo,
                staged,
                row,
                tail,
                tree,
            },
            RowContent::History { row, tail, tree } => ContentView::History { row, tail, tree },
            RowContent::Notice => ContentView::Notice,
            RowContent::Separator => ContentView::Separator,
        }
    }
}

/// A sign that is only there under the mouse.
pub open spec fn sign_if(hovered: bool, sign: char) -> Option<char> {
    if hovered {
        Some(sign)
    } else {
        None
    }
}

/// The signs of staging and unstaging.
pub open spec fn sign_for(staged: bool) -> char {
    if staged {
        '−'
    } else {
        '+'
    }
}

/// Whether files can be shown below a line.
pub open spec fn has_files(kind: Drawer, target: DrawerRefView) -> bool {
    has_file_tree(kind) && (target is Commit || target is Branch || target is Stash
        || target is Tag)
}

/// Whether the files of a line are shown, where it can have some.
pub open spec fn line_state(v: AppView, kind: Drawer, i: usize) -> Option<bool> {
    let refs = panel(v, kind).refs;
    if i < refs.len() && has_files(kind, refs[i as int]) {
        Some(
            match v.expanded_ref {
                Some(e) => e.kind == kind && e.target == refs[i as int],
                None => false,
            },
        )
    } else {
        None
    }
}

/// What the row at `i` is.
pub open spec fn content_of(v: AppView, i: int) -> ContentView {
    let hovered = v.hovered == Some(i as usize);
    let tree = v.settings.scm_file_view == ScmFileView::Tree;
    match v.rows[i] {
        Row::RepoHeader(r) => ContentView::Repo { repo: r, active: r == v.active },
        Row::Message(r) => ContentView::Message {
            repo: r,
            focused: r == v.active && v.focus == Focus::Message,
        },
        Row::Commit(r) => ContentView::Commit {
            active: r == v.active,
            focused: r == v.active && v.focus == Focus::Commit,
        },
        Row::StagedHeader(r) => ContentView::Section {
            staged: true,
            collapsed: v.repos[r as int].staged_collapsed,
            count: v.repos[r as int].status.staged.len() as usize,
            action: sign_if(hovered, sign_for(true)),
        },
        Row::ChangesHeader(r) => ContentView::Section {
            staged: false,
            collapsed: v.repos[r as int].changes_collapsed,
            count: v.repos[r as int].status.unstaged.len() as usize,
            action: sign_if(hovered, sign_for(false)),
        },
        Row::DrawerHeader(kind) => ContentView::Drawer {
            kind,
            collapsed: !panel(v, kind).expanded,
            file: match v.history_target {
                Some(path) => if kind == Drawer::FileHistory {
                    Some(last_name(path))
                } else {
                    None
                },
                None => None,
            },
        },
        Row::DrawerLine(kind, index) => ContentView::Line {
            kind,
            index,
            expanded: line_state(v, kind, index),
        },
        Row::Staged(repo, row) => ContentView::Change {
            repo,
            staged: true,
            row,
            tail: ChangeTail::Status { action: sign_if(hovered, sign_for(true)), menu: hovered },
            tree,
        },
        Row::Unstaged(repo, row) => ContentView::Change {
            repo,
            staged: false,
            row,
            tail: ChangeTail::Status { action: sign_if(hovered, sign_for(false)), menu: hovered },
            tree,
        },
        Row::RepoSeparator => ContentView::Separator,
        Row::HistoryTree(row) => ContentView::History {
            row,
            tail: ChangeTail::History {
                menu: hovered && crate::scm_app::actions::history_row(v, row as int) matches Some(
                    RowView::File { .. },
                ),
            },
            tree,
        },
        Row::HistoryNotice => ContentView::Notice,
    }
}

/// How a row is set off: where it is selected, and else under the mouse.
pub open spec fn style_of_row(v: AppView, i: int) -> Style {
    if v.selected == Some(i as usize) {
        if v.focus == Focus::List {
            Style { bold: true, ..bg_style(Color::DarkGray) }
        } else {
            bg_style(Color::Rgb(0x2a2d2e))
        }
    } else if v.hovered == Some(i as usize) && v.rows[i] != Row::RepoSeparator {
        bg_style(Color::Rgb(HOVER_BG))
    } else {
        no_style()
    }
}

fn sign_when(hovered: bool, sign: char) -> (r: Option<char>)
    ensures
        r == sign_if(hovered, sign),
{
    if hovered {
        Some(sign)
    } else {
        None
    }
}

impl App {
    fn line_expanded(&self, kind: Drawer, index: usize) -> (r: Option<bool>)
        requires
            sound(self@),
        ensures
            r == line_state(self@, kind, index),
    {
        let target = match self.drawer_ref(kind, index) {
            Some(target) => target,
            None => {
                return None;
            },
        };
        let files = match &target {
            DrawerRef::Commit(_) => true,
            DrawerRef::Branch { .. } => true,
            DrawerRef::Stash(_) => true,
            DrawerRef::Tag(_) => true,
            _ => false,
        };
        if !files || !kind.supports_file_tree() {
            return None;
        }
        match &self.expanded_ref {
            Some(e) => Some(e.kind == kind && e.target.same(&target)),
            None => Some(false),
        }
    }

    fn section_content(&self, repo: usize, staged: bool, hovered: bool) -> (r: RowContent)
        requires
            repo < self@.repos.len(),
        ensures
            r@ == (ContentView::Section {
                staged,
                collapsed: if staged {
                    self@.repos[repo as int].staged_collapsed
                } else {
                    self@.repos[repo as int].changes_collapsed
                },
                count: if staged {
                    self@.repos[repo as int].status.staged.len() as usize
                } else {
                    self@.repos[repo as int].status.unstaged.len() as usize
                },
                action: sign_if(hovered, sign_for(staged)),
            }),
    {
        let item = &self.repos[repo];
        assert(self@.repos[repo as int] == item@);
        assert(item@.status.staged.len() == item.status.staged@.len());
        assert(item@.status.unstaged.len() == item.status.unstaged@.len());
        if staged {
            RowContent::Section {
                staged,
                collapsed: item.staged_collapsed,
                count: item.status.staged.len(),
                action: sign_when(hovered, '−'),
            }
        } else {
            RowContent::Section {
                staged,
                collapsed: item.changes_collapsed,
                count: item.status.unstaged.len(),
                action: sign_when(hovered, '+'),
            }
        }
    }

    fn drawer_content(&self, kind: Drawer) -> (r: RowContent)
        requires
            sound(self@),
        ensures
            r@ == (ContentView::Drawer {
                kind,
                collapsed: !panel(self@, kind).expanded,
                file: match self@.history_target {
                    Some(path) => if kind == Drawer::FileHistory {
                        Some(last_name(path))
                    } else {
                        None
                    },
                    None => None,
                },
            }),
    {
        let at = kind.index();
        assert(self@.drawers.len() == self.drawers@.len());
        assert(self@.drawers[at as int] == self.drawers@[at as int]@);
        let file = match &self.history_target {
            Some(path) => if kind == Drawer::FileHistory {
                Some(file_name_of(path.as_str()))
            } else {
                None
            },
            None => None,
        };
        RowContent::Drawer { kind, collapsed: !self.drawers[at].expanded, file }
    }

    fn history_content(&self, row: usize, hovered: bool) -> (r: RowContent)
        ensures
            r@ == (ContentView::History {
                row,
                tail: ChangeTail::History {
                    menu: hovered && crate::scm_app::actions::history_row(
                        self@,
                        row as int,
                    ) matches Some(RowView::File { .. }),
                },
                tree: self@.settings.scm_file_view == ScmFileView::Tree,
            }),
    {
        let file = match self.history_row(row) {
            Some(TreeRow::File { .. }) => true,
            _ => false,
        };
        RowContent::History {
            row,
            tail: ChangeTail::History { menu: hovered && file },
            tree: self.settings.scm_file_view == ScmFileView::Tree,
        }
    }

    /// What a row of the list is.
    pub fn row_content(&self, i: usize) -> (r: RowContent)
        requires
            sound(self@),
            i < self@.rows.len(),
        ensures
            r@ == content_of(self@, i as int),
    {
        proof {
            crate::scm_app::app::lemma_row_is_named(self@.rows, self@.repos.len() as int, i as int);
        }
        let hovered = match self.hovered {
            Some(h) => h == i,
            None => false,
        };
        let tree = self.settings.scm_file_view == ScmFileView::Tree;
        match self.rows[i] {
            Row::RepoHeader(r) => RowContent::Repo { repo: r, active: r == self.active },
            Row::Message(r) => RowContent::Message {
                repo: r,
                focused: r == self.active && self.focus == Focus::Message,
            },
            Row::Commit(r) => RowContent::Commit {
                active: r == self.active,
                focused: r == self.active && self.focus == Focus::Commit,
            },
            Row::StagedHeader(r) => self.section_content(r, true, hovered),
            Row::ChangesHeader(r) => self.section_content(r, false, hovered),
            Row::DrawerHeader(kind) => self.drawer_content(kind),
            Row::DrawerLine(kind, index) => RowContent::Line {
                kind,
                index,
                expanded: self.line_expanded(kind, index),
            },
            Row::Staged(repo, row) => RowContent::Change {
                repo,
                staged: true,
                row,
                tail: ChangeTail::Status { action: sign_when(hovered, '−'), menu: hovered },
                tree,
            },
            Row::Unstaged(repo, row) => RowContent::Change {
                repo,
                staged: false,
                row,
                tail: ChangeTail::Status { action: sign_when(hovered, '+'), menu: hovered },
                tree,
            },
            Row::RepoSeparator => RowContent::Separator,
            Row::HistoryTree(row) => self.history_content(row, hovered),
            Row::HistoryNotice => RowContent::Notice,
        }
    }

    /// How a row is set off.
    pub fn row_style(&self, i: usize) -> (r: Style)
        requires
            i < self@.rows.len(),
        ensures
            r == style_of_row(self@, i as int),
    {
        let selected = match self.selected {
            Some(s) => s == i,
            None => false,
        };
        if selected {
            return if self.focus == Focus::List {
                Style::default().bg(Color::DarkGray).bold()
            } else {
                Style::default().bg(Color::Rgb(0x2a2d2e))
            };
        }
        let hovered = match self.hovered {
            Some(h) => h == i,
            None => false,
        };
        let separator = match self.rows[i] {
            Row::RepoSeparator => true,
            _ => false,
        };
        if hovered && !separator {
            Style::default().bg(Color::Rgb(HOVER_BG))
        } else {
            Style::default()
        }
    }
}

} // verus!
