//! What the mouse does in the source control view.

use vstd::prelude::*;

use crate::change_tree::{Row as TreeRow, RowView};
use crate::input::{cells_off, hits, inside, least, monus, take_off, Mouse, MouseKind, Rect};
use crate::scm_app::actions::{
    diff_opened, directory_toggled, history_directory_toggled, history_file_opened, history_row,
    line_opened,
};
use crate::scm_app::app::{
    both, chosen, directory_at, effects, entry_at, followed, lemma_row_is_named, merged, no_effects,
    rebuilt, sound, tree_row, App, AppView, Effect, EffectView, Outcome,
};
use crate::scm_app::drawers::Drawer;
use crate::scm_app::geometry::{hit_row, row_under};
use crate::scm_app::keys::{hidden, reselected, stay, switched, without_overlay, Answer, SETTINGS};
use crate::scm_app::layout::{
    change_action_hit, change_menu_hit, change_tree_chevron_hit, change_tree_chevron_hit_at,
    chevron_at, on_action, on_menu, on_sign, section_action_hit, Row,
};
use crate::scm_app::menus::{
    context_menu, entry_done, lemma_under_is_row, setting_done, settings_at, theme_chosen,
    with_overlay,
};
use crate::scm_app::operations::{
    all_begun, all_collapsed, all_expanded, begin_all, begin_move, commit_begun, directory_begun,
    move_effect, repo_toggled, row_done, suggestion_begun, sync_begun,
};
use crate::scm_app::overlay::{
    menu_view, setting_place, MenuEntry, MenuEntryView, Overlay, OverlayView, Setting,
};
use crate::scm_app::state::Focus;
use crate::sidebar::{Exit, SideView, TitleAction};
use crate::viewer::preview::{down_by, up_by};

verus! {

/// Two clicks on a row within this many milliseconds are a double click.
pub const DOUBLE_CLICK: u64 = 450;

/// Effects, and then a step.
pub open spec fn after_effects(e: Seq<EffectView>, o: Outcome) -> Outcome {
    (o.0, e + o.1)
}

// ---- What is shown over the list ----

/// The setting under the mouse.
pub open spec fn setting_under(rect: Rect, x: u16, y: u16) -> Option<usize> {
    if rect.x < x < rect.x + monus(rect.width as int, 1) && rect.y < y < rect.y + 1 + SETTINGS {
        Some((y - rect.y - 1) as usize)
    } else {
        None
    }
}

/// The entry of a menu under the mouse, where it does something.
pub open spec fn entry_under(rect: Rect, entries: Seq<MenuEntryView>, x: u16, y: u16) -> Option<usize> {
    let i = y - rect.y - 1;
    if rect.width >= 2 && rect.height >= 2 && rect.x + 1 <= x < rect.x + rect.width - 1 && rect.y + 1
        <= y < rect.y + rect.height - 1 && i < entries.len() && entries[i] is Action {
        Some(i as usize)
    } else {
        None
    }
}

/// What the mouse does while a diff theme is chosen. `picked` is the theme under
/// it.
pub open spec fn picker_mouse(
    v: AppView,
    selected: usize,
    rect: Rect,
    mouse: Mouse,
    picked: Option<usize>,
    themes: usize,
) -> Outcome {
    let o = v.overlay->0;
    match mouse.kind {
        MouseKind::Moved => match picked {
            Some(i) => (with_overlay(v, reselected(o, i)), Seq::empty()),
            None => (v, Seq::empty()),
        },
        MouseKind::ScrollUp => (
            with_overlay(v, reselected(o, monus(selected as int, 3) as usize)),
            Seq::empty(),
        ),
        MouseKind::ScrollDown => (
            with_overlay(
                v,
                reselected(o, least(selected + 3, monus(themes as int, 1)) as usize),
            ),
            Seq::empty(),
        ),
        MouseKind::LeftDown => match picked {
            Some(i) => theme_chosen(v, i, themes),
            None => if inside(rect, mouse.column, mouse.row) {
                (v, Seq::empty())
            } else {
                (with_overlay(v, settings_at(setting_place(Setting::DiffTheme))), Seq::empty())
            },
        },
        _ => (v, Seq::empty()),
    }
}

/// What the mouse does in the settings.
pub open spec fn settings_mouse(v: AppView, rect: Rect, mouse: Mouse, themes: usize) -> Outcome {
    let o = v.overlay->0;
    let under = setting_under(rect, mouse.column, mouse.row);
    match mouse.kind {
        MouseKind::Moved => match under {
            Some(i) => (with_overlay(v, reselected(o, i)), Seq::empty()),
            None => (v, Seq::empty()),
        },
        MouseKind::LeftDown => match under {
            Some(i) => setting_done(with_overlay(v, reselected(o, i)), i, themes),
            None => if inside(rect, mouse.column, mouse.row) {
                (v, Seq::empty())
            } else {
                (without_overlay(v), Seq::empty())
            },
        },
        _ => (v, Seq::empty()),
    }
}

/// What the mouse does in a menu.
pub open spec fn menu_mouse(v: AppView, rect: Rect, entries: Seq<MenuEntryView>, mouse: Mouse) -> Outcome {
    let o = v.overlay->0;
    let under = entry_under(rect, entries, mouse.column, mouse.row);
    match mouse.kind {
        MouseKind::Moved => match under {
            Some(i) => (with_overlay(v, reselected(o, i)), Seq::empty()),
            None => (v, Seq::empty()),
        },
        MouseKind::LeftDown => match under {
            Some(i) => entry_done(with_overlay(v, reselected(o, i))),
            None => (without_overlay(v), Seq::empty()),
        },
        MouseKind::RightDown => context_menu(without_overlay(v), mouse.column, mouse.row),
        _ => (v, Seq::empty()),
    }
}

/// What the mouse does while something is shown over the list.
pub open spec fn overlay_mouse_step(v: AppView, mouse: Mouse, picked: Option<usize>, themes: usize) -> Outcome {
    match v.overlay {
        Some(OverlayView::ThemePicker { selected, rect, .. }) => picker_mouse(
            v,
            selected,
            rect,
            mouse,
            picked,
            themes,
        ),
        Some(OverlayView::Settings { rect, .. }) => settings_mouse(v, rect, mouse, themes),
        Some(OverlayView::Menu { rect, entries, .. }) => menu_mouse(v, rect, entries, mouse),
        _ => (v, Seq::empty()),
    }
}

fn find_setting(rect: Rect, x: u16, y: u16) -> (r: Option<usize>)
    ensures
        r == setting_under(rect, x, y),
{
    let right = rect.x as u32 + cells_off(rect.width, 1) as u32;
    let bottom = rect.y as u32 + 1 + SETTINGS as u32;
    if x > rect.x && (x as u32) < right && y > rect.y && (y as u32) < bottom {
        Some((y - rect.y - 1) as usize)
    } else {
        None
    }
}

fn find_entry(rect: Rect, entries: &Vec<MenuEntry>, x: u16, y: u16) -> (r: Option<usize>)
    ensures
        r == entry_under(rect, menu_view(entries@), x, y),
        r matches Some(i) ==> i < entries@.len(),
{
    let ghost all = menu_view(entries@);
    assert(all.len() == entries@.len());
    if rect.width < 2 || rect.height < 2 {
        return None;
    }
    let right = rect.x as u32 + rect.width as u32 - 1;
    let bottom = rect.y as u32 + rect.height as u32 - 1;
    if x > rect.x && (x as u32) < right && y > rect.y && (y as u32) < bottom {
        let i = (y - rect.y - 1) as usize;
        if i < entries.len() {
            assert(all[i as int] == entries@[i as int]@);
            if let MenuEntry::Action(_, _) = entries[i] {
                return Some(i);
            }
        }
    }
    None
}

impl App {
    fn on_picker_mouse(
        &mut self,
        selected: usize,
        rect: Rect,
        mouse: &Mouse,
        picked: Option<usize>,
        themes: usize,
    ) -> (r: Vec<Effect>)
        requires
            sound(old(self)@),
            old(self)@.overlay is Some,
            old(self)@.overlay->0 is ThemePicker,
        ensures
            (final(self)@, effects(r@)) == picker_mouse(
                old(self)@,
                selected,
                rect,
                *mouse,
                picked,
                themes,
            ),
            sound(final(self)@),
    {
        if mouse.kind == MouseKind::Moved {
            if let Some(i) = picked {
                self.choose_line(i);
            }
            return no_effects();
        }
        if mouse.kind == MouseKind::ScrollUp {
            self.choose_line(up_by(selected, 3));
            return no_effects();
        }
        if mouse.kind == MouseKind::ScrollDown {
            self.choose_line(down_by(selected, 3, take_off(themes, 1)));
            return no_effects();
        }
        if mouse.kind == MouseKind::LeftDown {
            if let Some(i) = picked {
                return self.choose_diff_theme(i, themes);
            }
            if !hits(rect, mouse.column, mouse.row) {
                self.open_settings_at(Setting::DiffTheme);
            }
        }
        no_effects()
    }

    fn on_settings_mouse(&mut self, rect: Rect, mouse: &Mouse, themes: usize) -> (r: Vec<Effect>)
        requires
            sound(old(self)@),
            old(self)@.overlay is Some,
            old(self)@.overlay->0 is Settings,
        ensures
            (final(self)@, effects(r@)) == settings_mouse(old(self)@, rect, *mouse, themes),
            sound(final(self)@),
    {
        let under = find_setting(rect, mouse.column, mouse.row);
        if mouse.kind == MouseKind::Moved {
            if let Some(i) = under {
                self.choose_line(i);
            }
            return no_effects();
        }
        if mouse.kind == MouseKind::LeftDown {
            if let Some(i) = under {
                self.choose_line(i);
                return self.toggle_setting(i, themes);
            }
            if !hits(rect, mouse.column, mouse.row) {
                self.overlay = None;
            }
        }
        no_effects()
    }

    fn on_menu_mouse(&mut self, mouse: &Mouse, under: Option<usize>) -> (r: Vec<Effect>)
        requires
            sound(old(self)@),
            old(self)@.overlay is Some,
            old(self)@.overlay->0 is Menu,
            ({
                let o = old(self)@.overlay->0;
                under == entry_under(o->Menu_rect, o->entries, mouse.column, mouse.row)
            }),
            under matches Some(i) ==> crate::scm_app::app::entry_chosen(
                reselected(old(self)@.overlay->0, i),
            ),
        ensures
            (final(self)@, effects(r@)) == menu_mouse(
                old(self)@,
                old(self)@.overlay->0->Menu_rect,
                old(self)@.overlay->0->entries,
                *mouse,
            ),
            sound(final(self)@),
    {
        if mouse.kind == MouseKind::Moved {
            if let Some(i) = under {
                self.choose_line(i);
            }
            return no_effects();
        }
        if mouse.kind == MouseKind::LeftDown {
            if let Some(i) = under {
                self.choose_line(i);
                return self.activate_menu_entry();
            }
            self.overlay = None;
            return no_effects();
        }
        if mouse.kind == MouseKind::RightDown {
            self.overlay = None;
            return self.open_context_menu(mouse.column, mouse.row);
        }
        no_effects()
    }

    /// The mouse while something is shown over the list. `picked` is the diff theme
    /// under it while one is chosen, and `themes` is how many there are.
    pub fn overlay_mouse(&mut self, mouse: &Mouse, picked: Option<usize>, themes: usize) -> (r: Vec<Effect>)
        requires
            sound(old(self)@),
        ensures
            (final(self)@, effects(r@)) == overlay_mouse_step(old(self)@, *mouse, picked, themes),
            sound(final(self)@),
    {
        let (kind, at, area, under): (u8, usize, Rect, Option<usize>) = match &self.overlay {
            Some(Overlay::ThemePicker { selected, rect, .. }) => (0, *selected, *rect, None),
            Some(Overlay::Settings { rect, .. }) => (1, 0, *rect, None),
            Some(Overlay::Menu { entries, rect, .. }) => {
                assert(menu_view(entries@).len() == entries@.len());
                (2, 0, *rect, find_entry(*rect, entries, mouse.column, mouse.row))
            },
            _ => (3, 0, Rect::default(), None),
        };
        if kind == 0 {
            return self.on_picker_mouse(at, area, mouse, picked, themes);
        }
        if kind == 1 {
            return self.on_settings_mouse(area, mouse, themes);
        }
        if kind == 2 {
            return self.on_menu_mouse(mouse, under);
        }
        no_effects()
    }
}

// ---- Clicks beside the list ----

/// Whether a column lies in a range.
pub open spec fn in_range(x: u16, range: (u16, u16)) -> bool {
    range.0 <= x < range.1
}

/// Whether a column lies in a range.
pub fn within(x: u16, range: (u16, u16)) -> (r: bool)
    ensures
        r == in_range(x, range),
{
    range.0 <= x && x < range.1
}

/// The view whose button is under the mouse.
pub open spec fn view_under(v: AppView, x: u16, y: u16) -> Option<SideView> {
    if !merged(v) || y != v.zones.activity_row {
        None
    } else if in_range(x, v.zones.explorer) {
        Some(SideView::Explorer)
    } else if in_range(x, v.zones.source_control) {
        Some(SideView::SourceControl)
    } else if in_range(x, v.zones.search) {
        Some(SideView::Search)
    } else {
        None
    }
}

/// The first title button at or after `i` under the mouse.
pub open spec fn title_under(zones: Seq<(Rect, TitleAction)>, x: u16, y: u16, i: int) -> Option<TitleAction>
    decreases zones.len() - i,
{
    if i >= zones.len() {
        None
    } else if inside(zones[i].0, x, y) {
        Some(zones[i].1)
    } else {
        title_under(zones, x, y, i + 1)
    }
}

/// The first button of a repository's row at or after `i` under the mouse.
pub open spec fn repo_title_under(zones: Seq<(Rect, usize, TitleAction)>, x: u16, y: u16, i: int) -> Option<
    (usize, TitleAction),
>
    decreases zones.len() - i,
{
    if i >= zones.len() {
        None
    } else if inside(zones[i].0, x, y) {
        Some((zones[i].1, zones[i].2))
    } else {
        repo_title_under(zones, x, y, i + 1)
    }
}

pub open spec fn title_click(v: AppView, action: TitleAction) -> Outcome {
    match action {
        TitleAction::Refresh => (v, seq![EffectView::Refresh]),
        TitleAction::CollapseAll => all_collapsed(v),
        TitleAction::ExpandAll => all_expanded(v),
        _ => (v, Seq::empty()),
    }
}

/// A click on a button of a repository's row.
pub open spec fn repo_title_click(v: AppView, y: u16, repo: usize, action: TitleAction) -> Outcome {
    let a = AppView { focus: Focus::List, ..v };
    let (b, e) = match row_under(a, y) {
        Some(i) => chosen(a, i as int),
        None => (a, Seq::empty()),
    };
    after_effects(
        e,
        match action {
            TitleAction::Sync => sync_begun(b, repo as int),
            TitleAction::Commit => commit_begun(b, repo),
            _ => (b, Seq::empty()),
        },
    )
}

/// A click on the header, the message box or a button.
pub open spec fn zone_click(v: AppView, x: u16, y: u16) -> Option<Outcome> {
    let z = v.zones;
    if inside(z.redraw, x, y) {
        Some((AppView { redraw_requested: true, ..v }, Seq::empty()))
    } else if inside(z.gear, x, y) {
        Some((with_overlay(v, settings_at(0)), Seq::empty()))
    } else if title_under(v.title_zones, x, y, 0) is Some {
        Some(title_click(v, title_under(v.title_zones, x, y, 0)->0))
    } else if v.repos.len() <= 1 && inside(z.repo_header, x, y) {
        Some(repo_toggled(AppView { focus: Focus::List, ..v }, 0))
    } else if repo_title_under(v.repo_title_zones, x, y, 0) is Some {
        let (repo, action) = repo_title_under(v.repo_title_zones, x, y, 0)->0;
        Some(repo_title_click(v, y, repo, action))
    } else if inside(z.sparkle, x, y) {
        Some((v, suggestion_begun(v)))
    } else if inside(z.message, x, y) {
        Some((AppView { focus: Focus::Message, ..v }, Seq::empty()))
    } else if inside(z.button, x, y) {
        Some(commit_begun(AppView { focus: Focus::Commit, ..v }, v.active as usize))
    } else if inside(z.sync, x, y) {
        Some(sync_begun(v, v.active))
    } else {
        None
    }
}

impl App {
    fn find_title(&self, x: u16, y: u16) -> (r: Option<TitleAction>)
        ensures
            r == title_under(self@.title_zones, x, y, 0),
    {
        let mut i: usize = 0;
        while i < self.title_zones.len()
            invariant
                i <= self.title_zones@.len(),
                title_under(self.title_zones@, x, y, 0) == title_under(
                    self.title_zones@,
                    x,
                    y,
                    i as int,
                ),
            decreases self.title_zones@.len() - i,
        {
            let (rect, action) = self.title_zones[i];
            if hits(rect, x, y) {
                return Some(action);
            }
            i += 1;
        }
        None
    }

    fn find_repo_title(&self, x: u16, y: u16) -> (r: Option<(usize, TitleAction)>)
        ensures
            r == repo_title_under(self@.repo_title_zones, x, y, 0),
    {
        let mut i: usize = 0;
        while i < self.repo_title_zones.len()
            invariant
                i <= self.repo_title_zones@.len(),
                repo_title_under(self.repo_title_zones@, x, y, 0) == repo_title_under(
                    self.repo_title_zones@,
                    x,
                    y,
                    i as int,
                ),
            decreases self.repo_title_zones@.len() - i,
        {
            let (rect, repo, action) = self.repo_title_zones[i];
            if hits(rect, x, y) {
                return Some((repo, action));
            }
            i += 1;
        }
        None
    }

    fn find_view(&self, x: u16, y: u16) -> (r: Option<SideView>)
        ensures
            r == view_under(self@, x, y),
    {
        if !self.merged() || y != self.zones.activity_row {
            None
        } else if within(x, self.zones.explorer) {
            Some(SideView::Explorer)
        } else if within(x, self.zones.source_control) {
            Some(SideView::SourceControl)
        } else if within(x, self.zones.search) {
            Some(SideView::Search)
        } else {
            None
        }
    }

    fn click_title(&mut self, action: TitleAction) -> (r: Vec<Effect>)
        requires
            sound(old(self)@),
        ensures
            (final(self)@, effects(r@)) == title_click(old(self)@, action),
            sound(final(self)@),
    {
        match action {
            TitleAction::Refresh => self.refresh(),
            TitleAction::CollapseAll => self.collapse_all(),
            TitleAction::ExpandAll => self.expand_all(),
            _ => no_effects(),
        }
    }

    fn click_repo_title(&mut self, y: u16, repo: usize, action: TitleAction) -> (r: Vec<Effect>)
        requires
            sound(old(self)@),
        ensures
            (final(self)@, effects(r@)) == repo_title_click(old(self)@, y, repo, action),
            sound(final(self)@),
    {
        self.focus = Focus::List;
        let e = match self.row_at(y) {
            Some(index) => self.select(index),
            None => no_effects(),
        };
        let f = match action {
            TitleAction::Sync => self.sync_repo(repo),
            TitleAction::Commit => self.commit_repo(repo),
            _ => no_effects(),
        };
        both(e, f)
    }

    fn click_zone(&mut self, x: u16, y: u16) -> (r: Option<Vec<Effect>>)
        requires
            sound(old(self)@),
        ensures
            match r {
                Some(e) => zone_click(old(self)@, x, y) == Some((final(self)@, effects(e@))),
                None => zone_click(old(self)@, x, y) is None && final(self)@ == old(self)@,
            },
            sound(final(self)@),
    {
        let z = self.zones;
        if hits(z.redraw, x, y) {
            self.redraw_requested = true;
            return Some(no_effects());
        }
        if hits(z.gear, x, y) {
            self.open_settings();
            return Some(no_effects());
        }
        if let Some(action) = self.find_title(x, y) {
            return Some(self.click_title(action));
        }
        if !self.multi() && hits(z.repo_header, x, y) {
            self.focus = Focus::List;
            return Some(self.toggle_repo(0));
        }
        if let Some((repo, action)) = self.find_repo_title(x, y) {
            return Some(self.click_repo_title(y, repo, action));
        }
        if hits(z.sparkle, x, y) {
            return Some(self.suggest_message());
        }
        if hits(z.message, x, y) {
            self.focus = Focus::Message;
            return Some(no_effects());
        }
        if hits(z.button, x, y) {
            self.focus = Focus::Commit;
            return Some(self.commit());
        }
        if hits(z.sync, x, y) {
            return Some(self.sync_changes());
        }
        None
    }
}

// ---- Clicks in the list ----

/// A click on a directory among the changes: on its action, its arrow, or
/// elsewhere.
pub open spec fn directory_click(
    v: AppView,
    repo: usize,
    row: usize,
    staged: bool,
    path: Seq<char>,
    click: Click,
) -> Outcome {
    if click.shown && on_action(click.row_x, click.width) {
        directory_begun(v, repo, path, staged)
    } else if chevron_at(click.row_x, tree_row(v, repo, row, staged), 0) || click.double {
        directory_toggled(v, repo, row, staged)
    } else {
        (v, Seq::empty())
    }
}

/// A click on a changed file: on its action, or elsewhere.
pub open spec fn file_click(v: AppView, repo: usize, row: usize, staged: bool, click: Click) -> Outcome {
    match entry_at(v, repo, row, staged) {
        Some(entry) => if click.shown && on_action(click.row_x, click.width) {
            (v, seq![move_effect(repo, entry, staged), EffectView::Refresh])
        } else {
            diff_opened(v, repo as int, entry, staged)
        },
        None => (v, Seq::empty()),
    }
}

/// A click on a changed file or directory: on its menu, or elsewhere.
pub open spec fn change_click(
    v: AppView,
    index: usize,
    repo: usize,
    row: usize,
    staged: bool,
    click: Click,
) -> Outcome {
    let (a, e) = chosen(AppView { focus: Focus::List, ..v }, index as int);
    after_effects(
        e,
        if click.shown && on_menu(click.row_x, click.width, true) {
            context_menu(a, click.x, click.y)
        } else {
            match directory_at(a, repo, row, staged) {
                Some(path) => directory_click(a, repo, row, staged, path, click),
                None => file_click(a, repo, row, staged, click),
            }
        },
    )
}

/// A click in the list.
#[derive(Clone, Copy, PartialEq, Eq, Debug, Structural)]
pub struct Click {
    pub x: u16,
    pub y: u16,
    /// The column within the row.
    pub row_x: u16,
    /// How wide rows are.
    pub width: u16,
    /// Which line of the row was clicked.
    pub line: u16,
    /// Whether the row's buttons are shown.
    pub shown: bool,
    pub double: bool,
}

/// A click on a section's header: on its sign, or elsewhere.
pub open spec fn header_click(v: AppView, index: usize, repo: usize, staged: bool, click: Click) -> Outcome {
    let (a, e) = chosen(AppView { focus: Focus::List, ..v }, index as int);
    let r = v.repos[repo as int];
    let sign = if staged {
        on_sign(click.row_x, "Staged Changes"@, click.width, r.status.staged.len())
    } else {
        on_sign(click.row_x, "Changes"@, click.width, r.status.unstaged.len())
    };
    after_effects(
        e,
        if click.shown && sign {
            (a, all_begun(repo, !staged))
        } else {
            row_done(a)
        },
    )
}

/// A click on a message box: on its button, or elsewhere.
pub open spec fn message_click(v: AppView, repo: usize, click: Click) -> Outcome {
    let (a, e) = if repo == v.active || repo >= v.repos.len() {
        (v, Seq::empty())
    } else {
        (
            crate::scm_app::app::activated(v, repo as int),
            seq![EffectView::ReloadDrawers { keep: true }],
        )
    };
    let (b, f) = rebuilt(a);
    let (c, g) = if click.line == 1 && click.row_x >= monus(click.width as int, 4) {
        (b, suggestion_begun(b))
    } else {
        (AppView { focus: Focus::Message, ..b }, Seq::empty())
    };
    let (d, h) = followed(c);
    (d, e + f + g + h)
}

/// A click on a row below a drawer's line.
pub open spec fn history_click(v: AppView, index: usize, i: usize, click: Click) -> Outcome {
    let (a, e) = chosen(AppView { focus: Focus::List, ..v }, index as int);
    let row = history_row(a, i as int);
    after_effects(
        e,
        match row {
            Some(RowView::File { index: file, .. }) => if click.shown && on_menu(
                click.row_x,
                click.width,
                false,
            ) {
                context_menu(a, click.x, click.y)
            } else {
                history_file_opened(a, file as int)
            },
            Some(RowView::Directory { .. }) => if chevron_at(click.row_x, row, 4) || click.double {
                history_directory_toggled(a, i as int)
            } else {
                (a, Seq::empty())
            },
            None => (a, Seq::empty()),
        },
    )
}

/// A click on a row that does what it does.
pub open spec fn plain_click(v: AppView, index: usize) -> Outcome {
    let (a, e) = chosen(AppView { focus: Focus::List, ..v }, index as int);
    after_effects(e, row_done(a))
}

pub open spec fn line_click(v: AppView, index: usize, kind: Drawer, i: usize) -> Outcome {
    let (a, e) = chosen(AppView { focus: Focus::List, ..v }, index as int);
    after_effects(e, line_opened(a, kind, i))
}

/// A click on a row.
pub open spec fn row_click(v: AppView, index: usize, click: Click) -> Outcome {
    match v.rows[index as int] {
        Row::Staged(r, i) => change_click(v, index, r, i, true, click),
        Row::Unstaged(r, i) => change_click(v, index, r, i, false, click),
        Row::Message(r) => message_click(v, r, click),
        Row::Commit(r) => if click.line == 1 {
            commit_begun(v, r)
        } else {
            (v, Seq::empty())
        },
        Row::RepoHeader(_) => plain_click(v, index),
        Row::StagedHeader(r) => header_click(v, index, r, true, click),
        Row::ChangesHeader(r) => header_click(v, index, r, false, click),
        Row::DrawerHeader(_) => plain_click(v, index),
        Row::DrawerLine(kind, i) => line_click(v, index, kind, i),
        Row::HistoryTree(i) => history_click(v, index, i, click),
        _ => (v, Seq::empty()),
    }
}

/// Whether a click follows another on the same row.
pub open spec fn is_double(last: Option<(usize, u64)>, index: usize, now: u64) -> bool {
    match last {
        Some((previous, at)) => previous == index && monus(now as int, at as int) < DOUBLE_CLICK,
        None => false,
    }
}

/// A click in the list.
pub open spec fn list_click(v: AppView, x: u16, y: u16, now: u64) -> Outcome {
    match hit_row(v, y) {
        None => (v, Seq::empty()),
        Some((index, line)) => row_click(
            AppView { last_click: Some((index, now)), ..v },
            index,
            Click {
                x,
                y,
                row_x: monus(x as int, v.body.left as int) as u16,
                width: v.body.width,
                line,
                shown: v.hovered == Some(index),
                double: is_double(v.last_click, index, now),
            },
        ),
    }
}

/// A click. `on_collapse` says whether it is on the button that hides the sidebar.
pub open spec fn click_step(v: AppView, x: u16, y: u16, on_collapse: bool, now: u64) -> Answer {
    let a = AppView { flash: None, ..v };
    if on_collapse {
        stay(hidden(a))
    } else if view_under(a, x, y) is Some {
        switched(a, view_under(a, x, y)->0)
    } else if zone_click(a, x, y) is Some {
        stay(zone_click(a, x, y)->0)
    } else {
        stay(list_click(a, x, y, now))
    }
}

/// What the mouse does.
pub open spec fn mouse_step(
    v: AppView,
    mouse: Mouse,
    picked: Option<usize>,
    themes: usize,
    on_collapse: bool,
    now: u64,
) -> Answer {
    let a = AppView {
        last_mouse: Some(now),
        mouse_pos: Some((mouse.column, mouse.row)),
        ..v
    };
    if a.overlay is Some {
        stay(overlay_mouse_step(a, mouse, picked, themes))
    } else {
        match mouse.kind {
            MouseKind::Moved => (
                AppView { hovered: row_under(a, mouse.row), ..a },
                Seq::empty(),
                None,
            ),
            MouseKind::ScrollUp => (
                AppView {
                    scroll: least(monus(a.scroll, 3), monus(a.rows.len() as int, 1)),
                    ..a
                },
                Seq::empty(),
                None,
            ),
            MouseKind::ScrollDown => (
                AppView { scroll: least(a.scroll + 3, monus(a.rows.len() as int, 1)), ..a },
                Seq::empty(),
                None,
            ),
            MouseKind::LeftDown => click_step(
                AppView { hovered: row_under(a, mouse.row), ..a },
                mouse.column,
                mouse.row,
                on_collapse,
                now,
            ),
            MouseKind::RightDown => stay(
                context_menu(AppView { flash: None, ..a }, mouse.column, mouse.row),
            ),
            _ => (a, Seq::empty(), None),
        }
    }
}

impl App {
    fn click_directory(&mut self, repo: usize, row: usize, staged: bool, path: String, click: Click) -> (r:
        Vec<Effect>)
        requires
            sound(old(self)@),
        ensures
            (final(self)@, effects(r@)) == directory_click(
                old(self)@,
                repo,
                row,
                staged,
                path@,
                click,
            ),
            sound(final(self)@),
    {
        if click.shown && change_action_hit(click.row_x, click.width) {
            return self.run_directory(repo, path.as_str(), staged);
        }
        let arrow = change_tree_chevron_hit(
            click.row_x,
            self.status_tree_row(repo, row, staged),
        );
        if arrow || click.double {
            return self.toggle_status_directory(repo, row, staged);
        }
        no_effects()
    }

    fn click_file(&mut self, repo: usize, row: usize, staged: bool, click: Click) -> (r: Vec<Effect>)
        requires
            sound(old(self)@),
        ensures
            (final(self)@, effects(r@)) == file_click(old(self)@, repo, row, staged, click),
            sound(final(self)@),
    {
        let entry = match self.status_entry(repo, row, staged) {
            Some(entry) => entry.clone(),
            None => {
                return no_effects();
            },
        };
        if click.shown && change_action_hit(click.row_x, click.width) {
            return begin_move(repo, entry, staged);
        }
        self.open_diff(repo, &entry, staged)
    }

    fn click_change(&mut self, index: usize, repo: usize, row: usize, staged: bool, click: Click) -> (r: Vec<
        Effect,
    >)
        requires
            sound(old(self)@),
        ensures
            (final(self)@, effects(r@)) == change_click(
                old(self)@,
                index,
                repo,
                row,
                staged,
                click,
            ),
            sound(final(self)@),
    {
        self.focus = Focus::List;
        let e = self.select(index);
        if click.shown && change_menu_hit(click.row_x, click.width, true) {
            let f = self.open_context_menu(click.x, click.y);
            return both(e, f);
        }
        let f = match self.status_directory(repo, row, staged) {
            Some(path) => self.click_directory(repo, row, staged, path, click),
            None => self.click_file(repo, row, staged, click),
        };
        both(e, f)
    }

    fn click_header(&mut self, index: usize, repo: usize, staged: bool, click: Click) -> (r: Vec<Effect>)
        requires
            sound(old(self)@),
            repo < old(self)@.repos.len(),
        ensures
            (final(self)@, effects(r@)) == header_click(old(self)@, index, repo, staged, click),
            sound(final(self)@),
    {
        proof {
            lemma_titles_are_short();
            assert(self@.repos[repo as int] == self.repos@[repo as int]@);
        }
        let sign = if staged {
            section_action_hit(
                click.row_x,
                "Staged Changes",
                click.width,
                self.repos[repo].status.staged.len(),
            )
        } else {
            section_action_hit(
                click.row_x,
                "Changes",
                click.width,
                self.repos[repo].status.unstaged.len(),
            )
        };
        self.focus = Focus::List;
        let e = self.select(index);
        if click.shown && sign {
            return both(e, begin_all(repo, !staged));
        }
        let f = self.activate();
        both(e, f)
    }

    fn click_message(&mut self, repo: usize, click: Click) -> (r: Vec<Effect>)
        requires
            sound(old(self)@),
        ensures
            (final(self)@, effects(r@)) == message_click(old(self)@, repo, click),
            sound(final(self)@),
    {
        let e = self.set_active_repo(repo);
        let f = self.rebuild();
        let suggest = click.line == 1 && click.row_x >= cells_off(click.width, 4);
        let next = if suggest {
            self.focus
        } else {
            Focus::Message
        };
        let g = if suggest {
            self.suggest_message()
        } else {
            no_effects()
        };
        self.focus = next;
        let h = self.follow_selection();
        both(both(both(e, f), g), h)
    }

    fn click_history(&mut self, index: usize, i: usize, click: Click) -> (r: Vec<Effect>)
        requires
            sound(old(self)@),
        ensures
            (final(self)@, effects(r@)) == history_click(old(self)@, index, i, click),
            sound(final(self)@),
    {
        self.focus = Focus::List;
        let e = self.select(index);
        let row = match self.history_row(i) {
            Some(row) => row,
            None => {
                return both(e, no_effects());
            },
        };
        if let TreeRow::File { index: file, .. } = row {
            if click.shown && change_menu_hit(click.row_x, click.width, false) {
                let f = self.open_context_menu(click.x, click.y);
                return both(e, f);
            }
            let f = self.open_history_file(file);
            return both(e, f);
        }
        if change_tree_chevron_hit_at(click.row_x, Some(&row), 4) || click.double {
            let f = self.toggle_history_directory(i);
            return both(e, f);
        }
        both(e, no_effects())
    }

    fn click_plain(&mut self, index: usize) -> (r: Vec<Effect>)
        requires
            sound(old(self)@),
        ensures
            (final(self)@, effects(r@)) == plain_click(old(self)@, index),
            sound(final(self)@),
    {
        self.focus = Focus::List;
        let e = self.select(index);
        let f = self.activate();
        both(e, f)
    }

    fn click_line(&mut self, index: usize, kind: Drawer, i: usize) -> (r: Vec<Effect>)
        requires
            sound(old(self)@),
        ensures
            (final(self)@, effects(r@)) == line_click(old(self)@, index, kind, i),
            sound(final(self)@),
    {
        self.focus = Focus::List;
        let e = self.select(index);
        let f = self.open_drawer_ref(kind, i);
        both(e, f)
    }

    fn click_row(&mut self, index: usize, click: Click) -> (r: Vec<Effect>)
        requires
            sound(old(self)@),
            index < old(self)@.rows.len(),
        ensures
            (final(self)@, effects(r@)) == row_click(old(self)@, index, click),
            sound(final(self)@),
    {
        proof {
            lemma_row_is_named(self@.rows, self@.repos.len() as int, index as int);
        }
        match self.rows[index] {
            Row::Staged(r, i) => self.click_change(index, r, i, true, click),
            Row::Unstaged(r, i) => self.click_change(index, r, i, false, click),
            Row::Message(r) => self.click_message(r, click),
            Row::Commit(r) => if click.line == 1 {
                self.commit_repo(r)
            } else {
                no_effects()
            },
            Row::RepoHeader(_) => self.click_plain(index),
            Row::StagedHeader(r) => self.click_header(index, r, true, click),
            Row::ChangesHeader(r) => self.click_header(index, r, false, click),
            Row::DrawerHeader(_) => self.click_plain(index),
            Row::DrawerLine(kind, i) => self.click_line(index, kind, i),
            Row::HistoryTree(i) => self.click_history(index, i, click),
            _ => no_effects(),
        }
    }

    fn click_list(&mut self, x: u16, y: u16, now: u64) -> (r: Vec<Effect>)
        requires
            sound(old(self)@),
        ensures
            (final(self)@, effects(r@)) == list_click(old(self)@, x, y, now),
            sound(final(self)@),
    {
        let (index, line) = match self.row_hit(y) {
            Some(hit) => hit,
            None => {
                return no_effects();
            },
        };
        proof {
            lemma_under_is_row(self@, y);
        }
        let double = match self.last_click {
            Some((previous, at)) => previous == index && (now < at || now - at < DOUBLE_CLICK),
            None => false,
        };
        let shown = match self.hovered {
            Some(h) => h == index,
            None => false,
        };
        self.last_click = Some((index, now));
        let click = Click {
            x,
            y,
            row_x: cells_off(x, self.body.left),
            width: self.body.width,
            line,
            shown,
            double,
        };
        self.click_row(index, click)
    }

    /// A click. `on_collapse` says whether it is on the button that hides the
    /// sidebar.
    pub fn left_click(&mut self, x: u16, y: u16, on_collapse: bool, now: u64) -> (r: (
        Vec<Effect>,
        Option<Exit>,
    ))
        requires
            sound(old(self)@),
        ensures
            (final(self)@, effects((r.0)@), r.1) == click_step(old(self)@, x, y, on_collapse, now),
            sound(final(self)@),
    {
        self.flash = None;
        if on_collapse {
            return (self.hide_pane(), None);
        }
        if let Some(view) = self.find_view(x, y) {
            return self.switch_to(view);
        }
        if let Some(e) = self.click_zone(x, y) {
            return (e, None);
        }
        (self.click_list(x, y, now), None)
    }

    /// The mouse. `picked` is the diff theme under it while one is chosen, and
    /// `themes` is how many there are.
    pub fn on_mouse(
        &mut self,
        mouse: Mouse,
        picked: Option<usize>,
        themes: usize,
        on_collapse: bool,
        now: u64,
    ) -> (r: (Vec<Effect>, Option<Exit>))
        requires
            sound(old(self)@),
        ensures
            (final(self)@, effects((r.0)@), r.1) == mouse_step(
                old(self)@,
                mouse,
                picked,
                themes,
                on_collapse,
                now,
            ),
            sound(final(self)@),
    {
        self.last_mouse = Some(now);
        self.mouse_pos = Some((mouse.column, mouse.row));
        if self.overlay.is_some() {
            return (self.overlay_mouse(&mouse, picked, themes), None);
        }
        if mouse.kind == MouseKind::Moved {
            self.hovered = self.row_at(mouse.row);
            return (no_effects(), None);
        }
        if mouse.kind == MouseKind::ScrollUp {
            self.scroll_view(false);
            return (no_effects(), None);
        }
        if mouse.kind == MouseKind::ScrollDown {
            self.scroll_view(true);
            return (no_effects(), None);
        }
        if mouse.kind == MouseKind::LeftDown {
            self.hovered = self.row_at(mouse.row);
            return self.left_click(mouse.column, mouse.row, on_collapse, now);
        }
        if mouse.kind == MouseKind::RightDown {
            self.flash = None;
            return (self.open_context_menu(mouse.column, mouse.row), None);
        }
        (no_effects(), None)
    }

    /// The pane lost the focus: nothing is under the mouse any more.
    pub fn on_focus_lost(&mut self)
        requires
            sound(old(self)@),
        ensures
            final(self)@ == (AppView {
                hovered: None,
                mouse_pos: None,
                last_mouse: None,
                title_zones: Seq::empty(),
                repo_title_zones: Seq::empty(),
                ..old(self)@
            }),
            sound(final(self)@),
    {
        self.hovered = None;
        self.mouse_pos = None;
        self.last_mouse = None;
        self.title_zones = Vec::new();
        self.repo_title_zones = Vec::new();
        assert(self@.title_zones =~= Seq::empty());
        assert(self@.repo_title_zones =~= Seq::empty());
    }
}

proof fn lemma_titles_are_short()
    ensures
        crate::scan::utf8_len("Staged Changes"@) <= 100,
        crate::scan::utf8_len("Changes"@) <= 100,
{
    reveal_strlit("Staged Changes");
    reveal_strlit("Changes");
    crate::scan::lemma_utf8_len_bounds("Staged Changes"@);
    crate::scan::lemma_utf8_len_bounds("Changes"@);
}

} // verus!
