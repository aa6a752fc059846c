//! What the mouse does in the search view.

use vstd::prelude::*;

use crate::input::{hits, inside, monus, Mouse, MouseKind, Rect};
use crate::scm_app::mouse::{in_range, within};
use crate::search_app::app::{
    cancelled, cleared, effects, no_effects, one_effect, preview_opened, query_error, search_asked,
    App, AppView, BodyGeom, Effect, EffectView, Focus, Outcome, Overlay, ToggleKind,
};
use crate::search_app::events::{
    exit_taken, focused, hidden, scrolled_down, scrolled_up, setting_entered, settings_over,
    switched, theme_chosen, toggle_flipped, with_overlay, without_overlay, Answer, DIFF_THEME,
    SETTINGS,
};
use crate::sidebar::{Exit, SideView};

verus! {

// ---- What lies where ----

/// The line of a bordered list of `total` lines at a cell.
pub open spec fn line_under(rect: Rect, column: u16, row: u16, total: int) -> Option<usize> {
    let line = row - rect.y - 1;
    if rect.x < column && column + 1 < rect.x + rect.width && rect.y < row && row + 1 < rect.y
        + rect.height && line < total {
        Some(line as usize)
    } else {
        None
    }
}

/// The line of a bordered list of `total` lines at a cell.
pub fn settings_index(rect: Rect, column: u16, row: u16, total: usize) -> (r: Option<usize>)
    ensures
        r == line_under(rect, column, row, total as int),
{
    let right = rect.x as u32 + rect.width as u32;
    let bottom = rect.y as u32 + rect.height as u32;
    if rect.x < column && column as u32 + 1 < right && rect.y < row && row as u32 + 1 < bottom {
        let line = (row - rect.y - 1) as usize;
        if line < total {
            return Some(line);
        }
    }
    None
}

/// The result at a line of the screen.
pub open spec fn result_under(body: BodyGeom, count: int, y: u16) -> Option<usize> {
    let i = body.offset + (y - body.top);
    if body.top <= y < body.top + body.height && i < count {
        Some(i as usize)
    } else {
        None
    }
}

/// The result at a line of the screen.
pub fn row_index_at(body: BodyGeom, row_count: usize, mouse_row: u16) -> (r: Option<usize>)
    ensures
        r == result_under(body, row_count as int, mouse_row),
{
    if mouse_row < body.top || mouse_row as u32 >= body.top as u32 + body.height as u32 {
        return None;
    }
    let line = (mouse_row - body.top) as usize;
    if body.offset < row_count && line < row_count - body.offset {
        Some(body.offset + line)
    } else {
        None
    }
}

/// How wide the results are: one column less where a scrollbar is shown.
pub fn list_content_width(width: u16, total: usize, visible: usize) -> (r: u16)
    ensures
        r == monus(
            width as int,
            if total > visible {
                1
            } else {
                0
            },
        ),
{
    if total > visible && width > 0 {
        width - 1
    } else {
        width
    }
}

/// The view whose chip is at a cell.
pub open spec fn chip_under(v: AppView, x: u16, y: u16) -> Option<SideView> {
    if !v.settings.merged || y != v.activity.row {
        None
    } else if in_range(x, v.activity.explorer) {
        Some(SideView::Explorer)
    } else if in_range(x, v.activity.source_control) {
        Some(SideView::SourceControl)
    } else if in_range(x, v.activity.search) {
        Some(SideView::Search)
    } else {
        None
    }
}

/// The first toggle at or after `i` at a cell, or their number.
pub open spec fn toggle_under(rects: Seq<(Rect, ToggleKind)>, x: u16, y: u16, i: int) -> int
    decreases rects.len() - i,
{
    if i >= rects.len() {
        rects.len() as int
    } else if inside(rects[i].0, x, y) {
        i
    } else {
        toggle_under(rects, x, y, i + 1)
    }
}

// ---- Over the view ----

/// What the mouse does over the view. `picked` is the diff theme under it.
#[verifier::opaque]
pub open spec fn overlay_mouse_step(
    v: AppView,
    o: Overlay,
    mouse: Mouse,
    picked: Option<usize>,
    themes: usize,
) -> Outcome {
    if mouse.kind != MouseKind::LeftDown {
        (v, Seq::empty())
    } else {
        match o {
            Overlay::Settings { rect, .. } => match line_under(
                rect,
                mouse.column,
                mouse.row,
                SETTINGS as int,
            ) {
                Some(i) => setting_entered(v, i, rect, themes),
                None => if inside(rect, mouse.column, mouse.row) {
                    (v, Seq::empty())
                } else {
                    (without_overlay(v), Seq::empty())
                },
            },
            Overlay::ThemePicker { rect, .. } => match picked {
                Some(i) => theme_chosen(without_overlay(v), i, themes),
                None => if inside(rect, mouse.column, mouse.row) {
                    (v, Seq::empty())
                } else {
                    (with_overlay(v, settings_over(DIFF_THEME)), Seq::empty())
                },
            },
        }
    }
}

// ---- Clicks ----

/// The query and the results are cleared.
pub open spec fn all_cleared(v: AppView) -> Outcome {
    let (a, e) = cancelled(AppView { pending_search: None, ..v });
    (cleared(AppView { query: Seq::empty(), inline_error: None, ..a }), e)
}

/// The filters are folded, or unfolded; the focus leaves what is hidden.
pub open spec fn filters_toggled(v: AppView) -> AppView {
    let collapsed = !v.filters_collapsed;
    AppView {
        filters_collapsed: collapsed,
        focus: if collapsed && (v.focus == Focus::Include || v.focus == Focus::Exclude) {
            Focus::Results
        } else {
            v.focus
        },
        ..v
    }
}

/// A find is clicked: it is selected, and shown in the preview.
pub open spec fn result_clicked(v: AppView, y: u16) -> Outcome {
    match result_under(v.body, v.rows.len() as int, y) {
        Some(i) => if v.rows[i as int] is Match {
            preview_opened(AppView { focus: Focus::Results, selected: Some(i), ..v })
        } else {
            (v, Seq::empty())
        },
        None => (v, Seq::empty()),
    }
}

/// A toggle is clicked.
pub open spec fn toggle_clicked(v: AppView, i: int) -> Outcome {
    toggle_flipped(
        AppView {
            toggle_focus: if v.focus == Focus::Toggles {
                i as usize
            } else {
                v.toggle_focus
            },
            ..v
        },
        v.toggle_rects[i].1,
    )
}

/// What a click does among the fields and the results.
#[verifier::opaque]
pub open spec fn field_clicked(v: AppView, x: u16, y: u16) -> Outcome {
    let i = toggle_under(v.toggle_rects, x, y, 0);
    if inside(v.zones.field_include, x, y) {
        (focused(v, Focus::Include), Seq::empty())
    } else if inside(v.zones.field_exclude, x, y) {
        (focused(v, Focus::Exclude), Seq::empty())
    } else if i < v.toggle_rects.len() {
        toggle_clicked(v, i)
    } else if inside(v.zones.field_query, x, y) {
        (focused(v, Focus::Query), Seq::empty())
    } else {
        result_clicked(v, y)
    }
}

/// What a click does on the buttons, and else below them.
#[verifier::opaque]
pub open spec fn button_clicked(v: AppView, x: u16, y: u16, on_collapse: bool) -> Outcome {
    if inside(v.zones.gear, x, y) {
        (with_overlay(v, settings_over(0)), Seq::empty())
    } else if on_collapse {
        hidden(v)
    } else if v.rg_error is Some {
        (
            v,
            if inside(v.zones.retry_button, x, y) {
                seq![EffectView::CheckRg]
            } else {
                Seq::empty()
            },
        )
    } else if inside(v.zones.search_button, x, y) {
        search_asked(v, true, query_error(v))
    } else if inside(v.zones.clear_button, x, y) {
        all_cleared(v)
    } else if inside(v.zones.filters_toggle, x, y) {
        (filters_toggled(v), Seq::empty())
    } else {
        field_clicked(v, x, y)
    }
}

/// What a left click does.
pub open spec fn clicked(v: AppView, x: u16, y: u16, on_collapse: bool) -> Answer {
    match chip_under(v, x, y) {
        Some(view) => switched(v, view),
        None => if inside(v.zones.redraw, x, y) {
            (AppView { redraw_requested: true, ..v }, Seq::empty(), None)
        } else {
            exit_taken(button_clicked(v, x, y, on_collapse))
        },
    }
}

/// The mouse is moved, or its wheel.
pub open spec fn moved(v: AppView, mouse: Mouse) -> AppView {
    if v.rg_error is Some {
        v
    } else {
        match mouse.kind {
            MouseKind::ScrollUp => scrolled_up(v, 3),
            MouseKind::ScrollDown => scrolled_down(v, 3),
            MouseKind::Moved => AppView {
                hovered: match result_under(v.body, v.rows.len() as int, mouse.row) {
                    Some(i) => if v.rows[i as int] is Match {
                        Some(i)
                    } else {
                        None
                    },
                    None => None,
                },
                ..v
            },
            _ => v,
        }
    }
}

/// What the mouse does. `picked` is the diff theme under it, and `on_collapse`
/// whether it is on the button that closes the sidebar.
pub open spec fn mouse_step(
    v: AppView,
    mouse: Mouse,
    picked: Option<usize>,
    themes: usize,
    on_collapse: bool,
    now: u64,
) -> Answer {
    let a = AppView {
        last_mouse: Some(now),
        mouse_pos: Some((mouse.column, mouse.row)),
        notice: None,
        ..v
    };
    match v.overlay {
        Some(o) => exit_taken(overlay_mouse_step(a, o, mouse, picked, themes)),
        None => if mouse.kind == MouseKind::LeftDown {
            clicked(a, mouse.column, mouse.row, on_collapse)
        } else {
            exit_taken((moved(a, mouse), Seq::empty()))
        },
    }
}

/// Only a click acts: a mouse that is merely moved opens, starts and asks for
/// nothing.
pub proof fn law_hovering_does_nothing(
    v: AppView,
    mouse: Mouse,
    picked: Option<usize>,
    themes: usize,
    on_collapse: bool,
    now: u64,
)
    requires
        mouse.kind == MouseKind::Moved,
    ensures
        ({
            let (w, e, exit) = mouse_step(v, mouse, picked, themes, on_collapse, now);
            &&& e.len() == 0
            &&& exit == v.pending_exit
            &&& w.overlay == v.overlay
            &&& w.settings == v.settings
            &&& w.redraw_requested == v.redraw_requested
            &&& w.focus == v.focus
            &&& w.selected == v.selected
        }),
{
    reveal(overlay_mouse_step);
}

impl App {
    fn settings_mouse(&mut self, o: Overlay, rect: Rect, mouse: Mouse, themes: usize) -> (r: Vec<
        Effect,
    >)
        requires
            o matches Overlay::Settings { rect: r, .. } && r == rect,
            mouse.kind == MouseKind::LeftDown,
        ensures
            (final(self)@, effects(r@)) == overlay_mouse_step(
                old(self)@,
                o,
                mouse,
                None,
                themes,
            ),
    {
        reveal(overlay_mouse_step);
        if let Some(i) = settings_index(rect, mouse.column, mouse.row, SETTINGS) {
            return self.enter_setting(i, rect, themes);
        }
        if hits(rect, mouse.column, mouse.row) {
            return no_effects();
        }
        self.overlay = None;
        no_effects()
    }

    fn picker_mouse(
        &mut self,
        o: Overlay,
        rect: Rect,
        mouse: Mouse,
        picked: Option<usize>,
        themes: usize,
    ) -> (r: Vec<Effect>)
        requires
            o matches Overlay::ThemePicker { rect: r, .. } && r == rect,
            mouse.kind == MouseKind::LeftDown,
        ensures
            (final(self)@, effects(r@)) == overlay_mouse_step(
                old(self)@,
                o,
                mouse,
                picked,
                themes,
            ),
    {
        reveal(overlay_mouse_step);
        if let Some(i) = picked {
            self.overlay = None;
            return self.choose_diff_theme(i, themes);
        }
        if hits(rect, mouse.column, mouse.row) {
            return no_effects();
        }
        self.back_to_settings();
        no_effects()
    }

    /// What the mouse does over the view.
    pub fn handle_overlay_mouse(
        &mut self,
        o: Overlay,
        mouse: Mouse,
        picked: Option<usize>,
        themes: usize,
    ) -> (r: Vec<Effect>)
        ensures
            (final(self)@, effects(r@)) == overlay_mouse_step(
                old(self)@,
                o,
                mouse,
                picked,
                themes,
            ),
    {
        if mouse.kind != MouseKind::LeftDown {
            reveal(overlay_mouse_step);
            return no_effects();
        }
        match o {
            Overlay::Settings { rect, .. } => {
                proof {
                    reveal(overlay_mouse_step);
                }
                self.settings_mouse(o, rect, mouse, themes)
            },
            Overlay::ThemePicker { rect, .. } => self.picker_mouse(o, rect, mouse, picked, themes),
        }
    }

    fn clear_all(&mut self) -> (r: Vec<Effect>)
        ensures
            (final(self)@, effects(r@)) == all_cleared(old(self)@),
    {
        self.pending_search = None;
        let e = self.cancel_running();
        self.query = String::new();
        assert(self@.query =~= Seq::empty());
        self.inline_error = None;
        self.clear_results();
        e
    }

    fn toggle_filters(&mut self)
        ensures
            final(self)@ == filters_toggled(old(self)@),
    {
        let collapsed = !self.filters_collapsed;
        let focus = if collapsed && (self.focus == Focus::Include || self.focus == Focus::Exclude) {
            Focus::Results
        } else {
            self.focus
        };
        self.filters_collapsed = collapsed;
        self.focus = focus;
    }

    fn click_result(&mut self, y: u16) -> (r: Vec<Effect>)
        ensures
            (final(self)@, effects(r@)) == result_clicked(old(self)@, y),
    {
        let i = match row_index_at(self.body, self.rows.len(), y) {
            Some(i) => i,
            None => {
                return no_effects();
            },
        };
        if !self.rows[i].selectable() {
            return no_effects();
        }
        self.focus = Focus::Results;
        self.selected = Some(i);
        self.open_selected_preview()
    }

    fn toggle_at(&self, x: u16, y: u16) -> (r: usize)
        ensures
            r == toggle_under(self@.toggle_rects, x, y, 0),
            r <= self@.toggle_rects.len(),
    {
        let mut i: usize = 0;
        while i < self.toggle_rects.len()
            invariant
                i <= self.toggle_rects@.len(),
                toggle_under(self@.toggle_rects, x, y, 0) == toggle_under(
                    self@.toggle_rects,
                    x,
                    y,
                    i as int,
                ),
            decreases self.toggle_rects@.len() - i,
        {
            let (rect, _) = self.toggle_rects[i];
            if hits(rect, x, y) {
                return i;
            }
            i += 1;
        }
        self.toggle_rects.len()
    }

    fn click_toggle(&mut self, i: usize) -> (r: Vec<Effect>)
        requires
            i < old(self)@.toggle_rects.len(),
        ensures
            (final(self)@, effects(r@)) == toggle_clicked(old(self)@, i as int),
    {
        let (_, kind) = self.toggle_rects[i];
        let at = if self.focus == Focus::Toggles {
            i
        } else {
            self.toggle_focus
        };
        self.toggle_focus = at;
        self.flip_toggle(kind)
    }

    fn click_field(&mut self, x: u16, y: u16) -> (r: Vec<Effect>)
        ensures
            (final(self)@, effects(r@)) == field_clicked(old(self)@, x, y),
    {
        reveal(field_clicked);
        if hits(self.zones.field_include, x, y) {
            self.focus = Focus::Include;
            return no_effects();
        }
        if hits(self.zones.field_exclude, x, y) {
            self.focus = Focus::Exclude;
            return no_effects();
        }
        let i = self.toggle_at(x, y);
        if i < self.toggle_rects.len() {
            return self.click_toggle(i);
        }
        if hits(self.zones.field_query, x, y) {
            self.focus = Focus::Query;
            return no_effects();
        }
        self.click_result(y)
    }

    fn click_button(&mut self, x: u16, y: u16, on_collapse: bool) -> (r: Vec<Effect>)
        ensures
            (final(self)@, effects(r@)) == button_clicked(old(self)@, x, y, on_collapse),
    {
        reveal(button_clicked);
        if hits(self.zones.gear, x, y) {
            self.open_settings();
            return no_effects();
        }
        if on_collapse {
            return self.hide_pane();
        }
        if self.rg_error.is_some() {
            return if hits(self.zones.retry_button, x, y) {
                one_effect(Effect::CheckRg)
            } else {
                no_effects()
            };
        }
        if hits(self.zones.search_button, x, y) {
            return self.start_search(true);
        }
        if hits(self.zones.clear_button, x, y) {
            return self.clear_all();
        }
        if hits(self.zones.filters_toggle, x, y) {
            self.toggle_filters();
            return no_effects();
        }
        self.click_field(x, y)
    }

    fn chip_at(&self, x: u16, y: u16) -> (r: Option<SideView>)
        ensures
            r == chip_under(self@, x, y),
    {
        if !self.settings.merged || y != self.activity.row {
            return None;
        }
        if within(x, self.activity.explorer) {
            return Some(SideView::Explorer);
        }
        if within(x, self.activity.source_control) {
            return Some(SideView::SourceControl);
        }
        if within(x, self.activity.search) {
            return Some(SideView::Search);
        }
        None
    }

    /// What a left click does.
    pub fn left_click(&mut self, x: u16, y: u16, on_collapse: bool) -> (r: (
        Vec<Effect>,
        Option<Exit>,
    ))
        ensures
            (final(self)@, effects((r.0)@), r.1) == clicked(old(self)@, x, y, on_collapse),
    {
        if let Some(view) = self.chip_at(x, y) {
            return self.switch_to(view);
        }
        if hits(self.zones.redraw, x, y) {
            self.redraw_requested = true;
            return (no_effects(), None);
        }
        let e = self.click_button(x, y, on_collapse);
        let exit = self.take_exit();
        (e, exit)
    }

    fn hover(&mut self, y: u16)
        requires
            old(self)@.rg_error is None,
        ensures
            final(self)@ == (AppView {
                hovered: match result_under(old(self)@.body, old(self)@.rows.len() as int, y) {
                    Some(i) => if old(self)@.rows[i as int] is Match {
                        Some(i)
                    } else {
                        None
                    },
                    None => None,
                },
                ..old(self)@
            }),
    {
        let hovered = match row_index_at(self.body, self.rows.len(), y) {
            Some(i) => if self.rows[i].selectable() {
                Some(i)
            } else {
                None
            },
            None => None,
        };
        self.hovered = hovered;
    }

    fn on_motion(&mut self, mouse: Mouse)
        ensures
            final(self)@ == moved(old(self)@, mouse),
    {
        if self.rg_error.is_some() {
            return;
        }
        match mouse.kind {
            MouseKind::ScrollUp => {
                self.scroll_up(3);
            },
            MouseKind::ScrollDown => {
                self.scroll_down(3);
            },
            MouseKind::Moved => {
                self.hover(mouse.row);
            },
            _ => {},
        }
    }

    /// What the mouse does.
    pub fn on_mouse(
        &mut self,
        mouse: Mouse,
        picked: Option<usize>,
        themes: usize,
        on_collapse: bool,
        now: u64,
    ) -> (r: (Vec<Effect>, Option<Exit>))
        ensures
            (final(self)@, effects((r.0)@), r.1) == mouse_step(
                old(self)@,
                mouse,
                picked,
                themes,
                on_collapse,
                now,
            ),
    {
        self.last_mouse = Some(now);
        self.mouse_pos = Some((mouse.column, mouse.row));
        self.notice = None;
        if let Some(o) = self.overlay {
            return self.on_overlay_mouse(o, mouse, picked, themes);
        }
        if mouse.kind == MouseKind::LeftDown {
            return self.left_click(mouse.column, mouse.row, on_collapse);
        }
        self.on_motion(mouse);
        let exit = self.take_exit();
        (no_effects(), exit)
    }

    fn on_overlay_mouse(
        &mut self,
        o: Overlay,
        mouse: Mouse,
        picked: Option<usize>,
        themes: usize,
    ) -> (r: (Vec<Effect>, Option<Exit>))
        ensures
            (final(self)@, effects((r.0)@), r.1) == exit_taken(
                overlay_mouse_step(old(self)@, o, mouse, picked, themes),
            ),
    {
        let e = self.handle_overlay_mouse(o, mouse, picked, themes);
        let exit = self.take_exit();
        (e, exit)
    }
}

} // verus!
