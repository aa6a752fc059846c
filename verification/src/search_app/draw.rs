//! Where the parts of the search view stand, and what they say.

use vstd::prelude::*;

use crate::cells::{text_width, width_of};
use crate::input::{cells_off, fewer, least, more, monus, most, no_rect, smaller, take_off, Rect};
use crate::scan::{digits, digits_of};
use crate::scm_app::items::{blank, cells_in, no_spans, room_after, row, row_of, span, text_in};
use crate::search_app::app::{
    ActivityZones, App, AppView, BodyGeom, DisplayRow, FilterField, GroupView, MatchView, Overlay,
    SearchGroup, SearchMatch, ToggleKind, Zones,
};
use crate::search_app::events::SETTINGS;
use crate::search_app::snippet::{
    between_chars, highlight_spans, highlighted, law_shown_ranges_are_whole, snippet_of,
    snippet_window,
};
use crate::sidebar::IconTheme;
use crate::style::{
    bg_style, fg_style, no_style, patched, push_span, push_spans, spans_view, Color, Line,
    LineView, Span, SpanView, Style,
};
use crate::syntax::{push_spaces, spaces};
use crate::viewer::load::{SEARCH_HIGHLIGHT_BG, SEARCH_HIGHLIGHT_FG};
use crate::text::{cat, cat3, chars_of, push_all, push_text, text_of, text_slice};

verus! {

pub const APP_BG: u32 = 0x1f2233;

pub const SURFACE_BG: u32 = 0x3b4056;

pub const SURFACE_BG_MUTED: u32 = 0x2a2f43;

pub const SURFACE_BORDER: u32 = 0x70758f;

pub const ACCENT: u32 = 0xd5aeff;

pub const TEXT_MAIN: u32 = 0xe7ebf7;

pub const TEXT_MUTED: u32 = 0xacb3c8;

pub const HOVER_BG: u32 = 0x303549;

pub const COUNT_BG: u32 = 0x4c5067;

pub const COUNT_FG: u32 = 0xf0f3fa;

pub const SELECTED_BG: u32 = 0x2b3045;

/// Text on a background.
pub open spec fn on(fg: u32, bg: u32) -> Style {
    Style { fg: Some(Color::Rgb(fg)), bg: Some(Color::Rgb(bg)), ..no_style() }
}

fn colored(fg: u32, bg: u32) -> (r: Style)
    ensures
        r == on(fg, bg),
{
    Style::default().fg(Color::Rgb(fg)).bg(Color::Rgb(bg))
}

// ---- Labels ----

pub open spec fn label_of(kind: ToggleKind) -> Seq<char> {
    match kind {
        ToggleKind::Case => " Aa "@,
        ToggleKind::WholeWord => " ab "@,
        ToggleKind::Regex => " .* "@,
    }
}

pub fn toggle_label(kind: ToggleKind) -> (r: String)
    ensures
        r@ == label_of(kind),
{
    match kind {
        ToggleKind::Case => " Aa ".to_string(),
        ToggleKind::WholeWord => " ab ".to_string(),
        ToggleKind::Regex => " .* ".to_string(),
    }
}

/// How a toggle looks; `lit` is the background of one that is on.
pub open spec fn style_of_toggle(
    kind: ToggleKind,
    is_on: bool,
    active: bool,
    enabled: bool,
    lit: Color,
) -> Style {
    Style {
        bg: Some(
            if is_on {
                lit
            } else if active {
                Color::Rgb(HOVER_BG)
            } else {
                Color::Rgb(SURFACE_BG)
            },
        ),
        fg: Some(
            Color::Rgb(
                if is_on {
                    ACCENT
                } else if active {
                    TEXT_MAIN
                } else {
                    TEXT_MUTED
                },
            ),
        ),
        bold: is_on,
        dim: !enabled,
        italic: false,
        underlined: kind == ToggleKind::WholeWord,
    }
}

pub fn toggle_style(kind: ToggleKind, is_on: bool, active: bool, enabled: bool, lit: Color) -> (r:
    Style)
    ensures
        r == style_of_toggle(kind, is_on, active, enabled, lit),
{
    let bg = if is_on {
        lit
    } else if active {
        Color::Rgb(HOVER_BG)
    } else {
        Color::Rgb(SURFACE_BG)
    };
    let fg = if is_on {
        ACCENT
    } else if active {
        TEXT_MAIN
    } else {
        TEXT_MUTED
    };
    Style {
        bg: Some(bg),
        fg: Some(Color::Rgb(fg)),
        bold: is_on,
        dim: !enabled,
        italic: false,
        underlined: kind == ToggleKind::WholeWord,
    }
}

pub fn action_icon_search(theme: IconTheme) -> (r: &'static str)
    ensures
        r@ == (match theme {
            IconTheme::Material => "\u{f002}"@,
            IconTheme::Emoji => "🔎"@,
        }),
{
    match theme {
        IconTheme::Material => "\u{f002}",
        IconTheme::Emoji => "🔎",
    }
}

pub fn action_icon_busy(theme: IconTheme) -> (r: &'static str)
    ensures
        r@ == (match theme {
            IconTheme::Material => "\u{eb37}"@,
            IconTheme::Emoji => "⟳"@,
        }),
{
    match theme {
        IconTheme::Material => "\u{eb37}",
        IconTheme::Emoji => "⟳",
    }
}

pub fn action_icon_clear(theme: IconTheme) -> (r: &'static str)
    ensures
        r@ == (match theme {
            IconTheme::Material => "\u{f00d}"@,
            IconTheme::Emoji => "✕"@,
        }),
{
    match theme {
        IconTheme::Material => "\u{f00d}",
        IconTheme::Emoji => "✕",
    }
}

// ---- The parts ----

/// How high the view switcher and each filter is.
#[derive(Clone, Copy, PartialEq, Eq, Debug, Structural)]
pub struct Heights {
    pub activity: u16,
    pub filter: u16,
}

/// The border of a field: set off where it is in focus, and else under the mouse.
pub open spec fn border_of(in_focus: bool, hovered: bool) -> u32 {
    if in_focus {
        ACCENT
    } else if hovered {
        TEXT_MUTED
    } else {
        SURFACE_BORDER
    }
}

pub fn field_border(in_focus: bool, hovered: bool) -> (r: u32)
    ensures
        r == border_of(in_focus, hovered),
{
    if in_focus {
        ACCENT
    } else if hovered {
        TEXT_MUTED
    } else {
        SURFACE_BORDER
    }
}

/// How many columns of a field its text has, beside a cursor.
pub fn field_room(width: u16, cursor: bool, fewest: usize) -> (r: usize)
    ensures
        r == most(
            monus(
                width as int,
                if cursor {
                    1
                } else {
                    0
                },
            ),
            fewest as int,
        ),
{
    let room = take_off(
        width as usize,
        if cursor {
            1
        } else {
            0
        },
    );
    if room > fewest {
        room
    } else {
        fewest
    }
}

/// What a field shows: a hint where it is empty and not in focus, and else the end
/// of its text; then a cursor, where it is typed in.
pub open spec fn field_row(
    hint: Seq<char>,
    is_empty: bool,
    tail: Seq<char>,
    in_focus: bool,
    enabled: bool,
    bold: bool,
) -> Seq<SpanView> {
    let text = if is_empty && !in_focus {
        span(hint, Style { dim: true, ..on(TEXT_MUTED, SURFACE_BG) })
    } else {
        span(
            tail,
            if enabled {
                Style { bold, ..on(TEXT_MAIN, SURFACE_BG) }
            } else {
                Style { dim: true, ..on(TEXT_MUTED, SURFACE_BG_MUTED) }
            },
        )
    };
    if in_focus && enabled {
        seq![text, span("█"@, on(ACCENT, SURFACE_BG))]
    } else {
        seq![text]
    }
}

pub fn field_spans(
    hint: &str,
    is_empty: bool,
    tail: String,
    in_focus: bool,
    enabled: bool,
    bold: bool,
) -> (r: Vec<Span>)
    ensures
        spans_view(r@) == field_row(hint@, is_empty, tail@, in_focus, enabled, bold),
{
    let mut spans = no_spans();
    if is_empty && !in_focus {
        push_span(&mut spans, text_in(hint, colored(TEXT_MUTED, SURFACE_BG).dim()));
    } else {
        let style = if enabled {
            Style { bold, ..colored(TEXT_MAIN, SURFACE_BG) }
        } else {
            colored(TEXT_MUTED, SURFACE_BG_MUTED).dim()
        };
        push_span(&mut spans, Span { text: tail, style });
    }
    if in_focus && enabled {
        push_span(&mut spans, text_in("█", colored(ACCENT, SURFACE_BG)));
    }
    assert(spans_view(spans@) =~= field_row(hint@, is_empty, tail@, in_focus, enabled, bold));
    spans
}

/// What the line below the fields says, and whether it is an error.
pub open spec fn status_of(v: AppView) -> Option<(Seq<char>, bool)> {
    match v.inline_error {
        Some(e) => Some((" "@ + e, true)),
        None => if v.searching {
            Some((" Searching…"@, false))
        } else {
            match v.summary {
                Some(s) => Some((" "@ + s, false)),
                None => None,
            }
        },
    }
}

/// The keys, and what they do.
pub open spec fn key_hints() -> Seq<(Seq<char>, Seq<char>)> {
    seq![
        ("tab"@, "next field"@),
        ("⏎"@, "search/open"@),
        ("↑↓"@, "results"@),
        ("1 2 3"@, "views"@),
        ("s"@, "settings"@),
        ("b"@, "hide"@),
    ]
}

/// Whether the foot shows the keys.
pub open spec fn shows_hints(v: AppView) -> bool {
    v.notice is None && v.overlay is None && v.settings.show_hotkeys
}

impl App {
    /// Starts to draw in an area: takes its size over, and forgets where filters
    /// stood that are folded.
    pub fn begin_draw(&mut self, area: Rect) -> (r: Heights)
        ensures
            final(self)@ == (AppView {
                last_width: area.width,
                last_height: area.height,
                zones: if old(self)@.filters_collapsed {
                    Zones {
                        field_include: no_rect(),
                        field_exclude: no_rect(),
                        ..old(self)@.zones
                    }
                } else {
                    old(self)@.zones
                },
                ..old(self)@
            }),
            r == (Heights {
                activity: if old(self)@.settings.merged {
                    3
                } else {
                    0
                },
                filter: if old(self)@.filters_collapsed {
                    0
                } else {
                    3
                },
            }),
    {
        let zones = if self.filters_collapsed {
            Zones { field_include: Rect::default(), field_exclude: Rect::default(), ..self.zones }
        } else {
            self.zones
        };
        self.last_width = area.width;
        self.last_height = area.height;
        self.zones = zones;
        Heights {
            activity: if self.settings.merged {
                3
            } else {
                0
            },
            filter: if self.filters_collapsed {
                0
            } else {
                3
            },
        }
    }

    /// Takes over how high the results are, for keys that move by a page.
    pub fn set_page(&mut self, height: u16)
        ensures
            final(self)@ == (AppView {
                page: most(monus(height as int, 1), 1) as usize,
                ..old(self)@
            }),
    {
        let page = take_off(height as usize, 1);
        let page = if page > 1 {
            page
        } else {
            1
        };
        self.page = page;
    }

    /// What the line below the fields says, and whether it is an error.
    pub fn status_text(&self) -> (r: Option<(String, bool)>)
        ensures
            (match r {
                Some((text, bad)) => Some((text@, bad)),
                None => None,
            }) == status_of(self@),
    {
        if let Some(e) = &self.inline_error {
            return Some((cat(" ", e.as_str()), true));
        }
        if self.searching {
            return Some((" Searching…".to_string(), false));
        }
        match &self.summary {
            Some(s) => Some((cat(" ", s.as_str()), false)),
            None => None,
        }
    }

    /// The keys, and what they do.
    pub fn hints(&self) -> (r: Vec<(&'static str, &'static str)>)
        ensures
            crate::scm_app::chrome::pairs(r@) == key_hints(),
    {
        let mut r: Vec<(&'static str, &'static str)> = Vec::new();
        r.push(("tab", "next field"));
        r.push(("⏎", "search/open"));
        r.push(("↑↓", "results"));
        r.push(("1 2 3", "views"));
        r.push(("s", "settings"));
        r.push(("b", "hide"));
        assert(crate::scm_app::chrome::pairs(r@) =~= key_hints());
        r
    }

    /// Whether the foot shows the keys.
    pub fn footer_hints(&self) -> (r: bool)
        ensures
            r == shows_hints(self@),
    {
        self.notice.is_none() && self.overlay.is_none() && self.settings.show_hotkeys
    }
}

// ---- Clicks ----

/// The columns of the view switcher, and of the buttons at its right.
pub open spec fn activity_at(area: Rect, explorer: u16, git: u16, search: u16) -> ActivityZones {
    let a = area.x + 1;
    let b = a + explorer + 1;
    let c = b + git + 1;
    ActivityZones {
        row: (area.y + 1) as u16,
        explorer: (a as u16, (a + explorer) as u16),
        source_control: (b as u16, (b + git) as u16),
        search: (c as u16, (c + search) as u16),
    }
}

/// The title row's buttons, from the right: in a pane of its own the settings and
/// redrawing, then clearing and searching.
pub open spec fn header_at(
    v: AppView,
    area: Rect,
    run: u16,
    clear: u16,
    gear: u16,
) -> Zones {
    let right = if v.settings.merged {
        0
    } else {
        gear + 3
    };
    let clear_x = area.x + monus(area.width as int, right + clear);
    let a = Zones {
        search_button: Rect {
            x: monus(clear_x, run as int) as u16,
            y: area.y,
            width: run,
            height: 1,
        },
        clear_button: Rect { x: clear_x as u16, y: area.y, width: clear, height: 1 },
        ..v.zones
    };
    if v.settings.merged {
        a
    } else {
        Zones {
            redraw: Rect {
                x: (area.x + monus(area.width as int, gear + 3)) as u16,
                y: area.y,
                width: 3,
                height: 1,
            },
            gear: Rect {
                x: (area.x + monus(area.width as int, gear as int)) as u16,
                y: area.y,
                width: gear,
                height: 1,
            },
            ..a
        }
    }
}

/// A column to the right, for the gap after a toggle, while there is room.
pub open spec fn gap_after(x: int, area: Rect) -> int {
    if x < area.x + area.width {
        x + 1
    } else {
        x
    }
}

/// The toggles, one after the other, at the right of an area.
pub open spec fn toggles_at(area: Rect, a: u16, b: u16, c: u16) -> Seq<(Rect, ToggleKind)> {
    let x = area.x + monus(area.width as int, a + b + c + 2);
    let y = gap_after(x + a, area);
    let z = gap_after(y + b, area);
    seq![
        (Rect { x: x as u16, y: area.y, width: a, height: 1 }, ToggleKind::Case),
        (Rect { x: y as u16, y: area.y, width: b, height: 1 }, ToggleKind::WholeWord),
        (Rect { x: z as u16, y: area.y, width: c, height: 1 }, ToggleKind::Regex),
    ]
}

/// No two toggles share a column.
pub proof fn law_toggles_do_not_overlap(area: Rect, a: u16, b: u16, c: u16)
    requires
        area.x + area.width + a + b + c + 2 <= u16::MAX,
    ensures
        ({
            let t = toggles_at(area, a, b, c);
            &&& t[0].0.x + t[0].0.width <= t[1].0.x
            &&& t[1].0.x + t[1].0.width <= t[2].0.x
        }),
{
}

fn place_gap(x: u16, area: Rect) -> (r: u16)
    requires
        area.x + area.width <= u16::MAX,
        x < u16::MAX,
    ensures
        r == gap_after(x as int, area),
{
    if x < area.x + area.width {
        x + 1
    } else {
        x
    }
}

impl App {
    /// Remembers where the view switcher was drawn, from the widths of its chips.
    pub fn place_activity_bar(
        &mut self,
        area: Rect,
        explorer: u16,
        git: u16,
        search: u16,
        gear: u16,
    )
        requires
            area.x + explorer + git + search + 3 <= u16::MAX,
            area.x + area.width <= u16::MAX,
            area.y < u16::MAX,
        ensures
            final(self)@ == (AppView {
                activity: activity_at(area, explorer, git, search),
                zones: Zones {
                    gear: Rect {
                        x: (area.x + monus(area.width as int, gear as int)) as u16,
                        y: (area.y + 1) as u16,
                        width: gear,
                        height: 1,
                    },
                    redraw: Rect {
                        x: monus(area.x + monus(area.width as int, gear as int), 3) as u16,
                        y: (area.y + 1) as u16,
                        width: 3,
                        height: 1,
                    },
                    ..old(self)@.zones
                },
                ..old(self)@
            }),
    {
        let a = area.x + 1;
        let b = a + explorer + 1;
        let c = b + git + 1;
        let y = area.y + 1;
        let gear_x = area.x + cells_off(area.width, gear);
        self.activity = ActivityZones {
            row: y,
            explorer: (a, a + explorer),
            source_control: (b, b + git),
            search: (c, c + search),
        };
        let zones = Zones {
            gear: Rect::new(gear_x, y, gear, 1),
            redraw: Rect::new(cells_off(gear_x, 3), y, 3, 1),
            ..self.zones
        };
        self.zones = zones;
    }

    /// Remembers where the title row was drawn, from the widths of its buttons.
    pub fn place_header(&mut self, area: Rect, run: u16, clear: u16, gear: u16)
        requires
            area.x + area.width <= u16::MAX,
            clear + gear + 3 <= u16::MAX,
        ensures
            final(self)@ == (AppView {
                zones: header_at(old(self)@, area, run, clear, gear),
                ..old(self)@
            }),
    {
        let right = if self.settings.merged {
            0
        } else {
            gear + 3
        };
        let clear_x = area.x + cells_off(area.width, right + clear);
        let placed = Zones {
            search_button: Rect::new(cells_off(clear_x, run), area.y, run, 1),
            clear_button: Rect::new(clear_x, area.y, clear, 1),
            ..self.zones
        };
        let zones = if self.settings.merged {
            placed
        } else {
            Zones {
                redraw: Rect::new(area.x + cells_off(area.width, gear + 3), area.y, 3, 1),
                gear: Rect::new(area.x + cells_off(area.width, gear), area.y, gear, 1),
                ..placed
            }
        };
        self.zones = zones;
    }

    /// Remembers where the toggles were drawn, from the widths of their labels.
    pub fn place_toggles(&mut self, area: Rect, a: u16, b: u16, c: u16)
        requires
            area.x + area.width + a + b + c + 2 <= u16::MAX,
        ensures
            final(self)@ == (AppView {
                toggle_rects: toggles_at(area, a, b, c),
                ..old(self)@
            }),
    {
        let x = area.x + cells_off(area.width, a + b + c + 2);
        let y = place_gap(x + a, area);
        let z = place_gap(y + b, area);
        let mut rects: Vec<(Rect, ToggleKind)> = Vec::new();
        rects.push((Rect::new(x, area.y, a, 1), ToggleKind::Case));
        rects.push((Rect::new(y, area.y, b, 1), ToggleKind::WholeWord));
        rects.push((Rect::new(z, area.y, c, 1), ToggleKind::Regex));
        assert(rects@ =~= toggles_at(area, a, b, c));
        self.toggle_rects = rects;
    }

    /// Remembers where the query was drawn, and where the filters are folded.
    pub fn place_query(&mut self, query: Rect, filters: Rect)
        ensures
            final(self)@ == (AppView {
                zones: Zones { field_query: query, filters_toggle: filters, ..old(self)@.zones },
                ..old(self)@
            }),
    {
        let zones = Zones { field_query: query, filters_toggle: filters, ..self.zones };
        self.zones = zones;
    }

    /// Remembers where a filter was drawn.
    pub fn place_filter(&mut self, field: FilterField, area: Rect)
        ensures
            final(self)@ == (AppView {
                zones: match field {
                    FilterField::Include => Zones { field_include: area, ..old(self)@.zones },
                    FilterField::Exclude => Zones { field_exclude: area, ..old(self)@.zones },
                },
                ..old(self)@
            }),
    {
        let zones = match field {
            FilterField::Include => Zones { field_include: area, ..self.zones },
            FilterField::Exclude => Zones { field_exclude: area, ..self.zones },
        };
        self.zones = zones;
    }
}

/// Where it is said that ripgrep is missing.
pub open spec fn error_area(area: Rect) -> Rect {
    let width = most(least(area.width as int, 44), 16);
    Rect {
        x: (area.x + monus(area.width as int, width) / 2) as u16,
        y: (area.y + monus(area.height as int, 5) / 3) as u16,
        width: width as u16,
        height: 5,
    }
}

/// Where it is said that ripgrep is missing.
pub fn place_error(area: Rect) -> (r: Rect)
    requires
        area.x + area.width <= u16::MAX,
        area.y + area.height <= u16::MAX,
    ensures
        r == error_area(area),
{
    let width = more(fewer(area.width, 44), 16);
    Rect::new(
        area.x + cells_off(area.width, width) / 2,
        area.y + cells_off(area.height, 5) / 3,
        width,
        5,
    )
}

/// Where the settings stand: in the middle, and a third of the way down.
pub open spec fn settings_area(columns: u16, lines: u16) -> Rect {
    let width = most(least(30, columns as int), 24);
    let height = most(least(SETTINGS + 2, lines as int), 6);
    Rect {
        x: (monus(columns as int, width) / 2) as u16,
        y: (monus(lines as int, height) / 3) as u16,
        width: width as u16,
        height: height as u16,
    }
}

/// Where the settings stand.
pub fn place_settings(columns: u16, lines: u16) -> (r: Rect)
    ensures
        r == settings_area(columns, lines),
{
    let width = more(fewer(30, columns), 24);
    let height = more(fewer(SETTINGS as u16 + 2, lines), 6);
    Rect::new(cells_off(columns, width) / 2, cells_off(lines, height) / 3, width, height)
}

impl App {
    /// Remembers where the button was drawn that looks for ripgrep again.
    pub fn place_retry(&mut self, area: Rect)
        ensures
            final(self)@ == (AppView {
                zones: Zones { retry_button: area, ..old(self)@.zones },
                ..old(self)@
            }),
    {
        let zones = Zones { retry_button: area, ..self.zones };
        self.zones = zones;
    }

    /// Remembers where the settings or the themes were drawn.
    pub fn place_choices(&mut self, area: Rect, first: usize)
        ensures
            final(self)@ == (AppView {
                overlay: match old(self)@.overlay {
                    Some(Overlay::Settings { selected, .. }) => Some(
                        Overlay::Settings { selected, rect: area },
                    ),
                    Some(Overlay::ThemePicker { selected, .. }) => Some(
                        Overlay::ThemePicker { selected, scroll: first, rect: area },
                    ),
                    None => None,
                },
                ..old(self)@
            }),
    {
        let overlay = match self.overlay {
            Some(Overlay::Settings { selected, .. }) => Some(
                Overlay::Settings { selected, rect: area },
            ),
            Some(Overlay::ThemePicker { selected, .. }) => Some(
                Overlay::ThemePicker { selected, scroll: first, rect: area },
            ),
            None => None,
        };
        self.overlay = overlay;
    }
}

// ---- Results ----

/// Where the results begin: no further than fills the area, and where keys moved the
/// selection, so that it is in sight.
pub open spec fn scroll_for(v: AppView, h: int) -> int {
    let scroll = least(v.scroll as int, monus(v.rows.len() as int, h));
    match v.selected {
        Some(sel) => if !v.snap {
            scroll
        } else if sel < scroll {
            sel as int
        } else if sel >= scroll + h {
            sel + 1 - h
        } else {
            scroll
        },
        None => scroll,
    }
}

/// The results in an area of the screen.
pub open spec fn results_placed(v: AppView, area: Rect) -> AppView {
    if v.rows.len() == 0 {
        AppView { body: BodyGeom { top: area.y, height: area.height, offset: 0 }, ..v }
    } else {
        let scroll = scroll_for(v, most(area.height as int, 1)) as usize;
        AppView {
            scroll,
            snap: false,
            body: BodyGeom { top: area.y, height: area.height, offset: scroll },
            ..v
        }
    }
}

/// After keys moved the selection it is in sight.
pub proof fn law_selection_comes_into_sight(v: AppView, area: Rect)
    requires
        v.snap,
        v.rows.len() > 0,
        v.selected matches Some(sel) && sel < v.rows.len(),
    ensures
        ({
            let w = results_placed(v, area);
            let sel = v.selected->0;
            w.scroll <= sel < w.scroll + most(area.height as int, 1)
        }),
{
}

impl App {
    /// Lays the results out in an area of the screen.
    pub fn place_results(&mut self, area: Rect)
        ensures
            final(self)@ == results_placed(old(self)@, area),
    {
        if self.rows.len() == 0 {
            self.body = BodyGeom { top: area.y, height: area.height, offset: 0 };
            return;
        }
        let h = if area.height == 0 {
            1
        } else {
            area.height as usize
        };
        let start = smaller(self.scroll, take_off(self.rows.len(), h));
        let scroll = match self.selected {
            Some(sel) => if !self.snap {
                start
            } else if sel < start {
                sel
            } else if sel - start >= h {
                sel - h + 1
            } else {
                start
            },
            None => start,
        };
        self.scroll = scroll;
        self.snap = false;
        self.body = BodyGeom { top: area.y, height: area.height, offset: scroll };
    }
}

/// The position of the last slash or backslash before `to`, or -1.
pub open spec fn last_slash(path: Seq<char>, to: int) -> int
    decreases to,
{
    if to <= 0 {
        -1
    } else if path[to - 1] == '/' || path[to - 1] == '\\' {
        to - 1
    } else {
        last_slash(path, to - 1)
    }
}

/// How much of a path is left without slashes at its end.
pub open spec fn trimmed_to(path: Seq<char>, to: int) -> int
    decreases to,
{
    if to > 0 && (path[to - 1] == '/' || path[to - 1] == '\\') {
        trimmed_to(path, to - 1)
    } else {
        to
    }
}

/// The name of a file, and the folder that it lies in.
pub open spec fn file_and_parent(path: Seq<char>) -> (Seq<char>, Seq<char>) {
    let at = last_slash(path, path.len() as int) + 1;
    (path.skip(at), path.take(trimmed_to(path, at)))
}

/// The name of a file, and the folder that it lies in.
pub fn split_file(path: &str) -> (r: (String, String))
    ensures
        ((r.0)@, (r.1)@) == file_and_parent(path@),
{
    let v = chars_of(path);
    let total = v.len();
    let mut at = total;
    while at > 0 && v[at - 1] != '/' && v[at - 1] != '\\'
        invariant
            at <= total,
            total == v@.len(),
            last_slash(v@, total as int) == last_slash(v@, at as int),
        decreases at,
    {
        at -= 1;
    }
    assert(last_slash(v@, total as int) + 1 == at);
    let mut end = at;
    while end > 0 && (v[end - 1] == '/' || v[end - 1] == '\\')
        invariant
            end <= at <= total,
            total == v@.len(),
            trimmed_to(v@, at as int) == trimmed_to(v@, end as int),
        decreases end,
    {
        end -= 1;
    }
    let file = text_slice(&v, at, total);
    let parent = text_slice(&v, 0, end);
    assert(file@ =~= path@.skip(at as int));
    assert(parent@ =~= path@.take(end as int));
    (file, parent)
}

/// The count at the end of a file's row.
pub open spec fn badge_text(n: nat) -> Seq<char> {
    " "@ + digits(n) + " "@
}

/// How many columns are left for the folder in a file's row.
pub open spec fn parent_room(g: GroupView, glyph: Seq<char>, width: int) -> int {
    monus(
        width,
        width_of("▾ "@ + glyph + " "@ + file_and_parent(g.path).0) as int + width_of(
            badge_text(g.matches.len()),
        ) + 2,
    )
}

/// The start of a file's row: its icon, its name, and its folder where there is
/// room. `cut` is the folder, as far as it fits.
pub open spec fn header_left(
    g: GroupView,
    glyph: Seq<char>,
    color: Option<Color>,
    cut: Seq<char>,
    width: int,
) -> Seq<SpanView> {
    let (file, parent) = file_and_parent(g.path);
    let head = seq![
        span("▾ "@, on(ACCENT, APP_BG)),
        span(
            glyph + " "@,
            Style {
                fg: Some(
                    match color {
                        Some(c) => c,
                        None => Color::Rgb(ACCENT),
                    },
                ),
                ..bg_style(Color::Rgb(APP_BG))
            },
        ),
        span(file, Style { bold: true, ..on(TEXT_MAIN, APP_BG) }),
    ];
    if parent.len() > 0 && parent_room(g, glyph, width) > 4 {
        head.push(span("  "@ + cut, on(TEXT_MUTED, APP_BG)))
    } else {
        head
    }
}

/// A file's row, with how much was found in it at the right.
pub open spec fn header_row(
    g: GroupView,
    glyph: Seq<char>,
    color: Option<Color>,
    cut: Seq<char>,
    width: int,
) -> LineView {
    let badge = badge_text(g.matches.len());
    let left = header_left(g, glyph, color, cut, width);
    row_of(
        left.push(
            span(
                spaces(monus(width, cells_in(left) as int + width_of(badge)) as nat),
                no_style(),
            ),
        ).push(
            span(badge, Style { bold: true, ..on(COUNT_FG, COUNT_BG) }),
        ),
    )
}

/// How a find's row is set off.
pub open spec fn match_base(hovered: bool, selected: bool) -> Style {
    bg_style(
        Color::Rgb(
            if selected {
                SELECTED_BG
            } else if hovered {
                HOVER_BG
            } else {
                APP_BG
            },
        ),
    )
}

/// A find's line number, in four columns or more.
pub open spec fn number_text(n: usize) -> Seq<char> {
    "  "@ + spaces(monus(4, digits(n as nat).len() as int) as nat) + digits(n as nat) + " "@
}

/// A find's row: the number of its line, and the part of the line round it.
pub open spec fn match_row(
    m: MatchView,
    hovered: bool,
    selected: bool,
    width: int,
) -> LineView {
    let base = match_base(hovered, selected);
    let prefix = number_text(m.line_number);
    let (text, ranges) = snippet_of(
        m.line_text,
        m.submatches,
        monus(width, width_of(prefix) as int),
    );
    let spans = seq![span(prefix, patched(base, fg_style(Color::Rgb(TEXT_MUTED))))] + highlighted(
        text,
        ranges,
        patched(base, fg_style(Color::Rgb(TEXT_MAIN))),
        on(SEARCH_HIGHLIGHT_FG, SEARCH_HIGHLIGHT_BG),
    );
    let used = cells_in(spans);
    row_of(
        if used < width {
            spans.push(span(spaces((width - used) as nat), base))
        } else {
            spans
        },
    )
}

fn badge_of(n: usize) -> (r: String)
    ensures
        r@ == badge_text(n as nat),
{
    let d = digits_of(n);
    cat3(" ", text_of(&d).as_str(), " ")
}

fn number_of(n: usize) -> (r: String)
    ensures
        r@ == number_text(n),
{
    let d = digits_of(n);
    let mut v: Vec<char> = Vec::new();
    push_text(&mut v, "  ");
    push_spaces(&mut v, take_off(4, d.len()));
    push_all(&mut v, &d);
    push_text(&mut v, " ");
    assert(v@ =~= number_text(n));
    text_of(&v)
}

impl SearchGroup {
    /// The folder that a file's row shows, before it is cut, and how many columns it
    /// has.
    pub fn parent_to_cut(&self, glyph: &str, width: usize) -> (r: Option<(String, usize)>)
        ensures
            match r {
                Some((text, room)) => text@ == file_and_parent(self@.path).1 && room == parent_room(
                    self@,
                    glyph@,
                    width as int,
                ) && text@.len() > 0 && room > 4,
                None => file_and_parent(self@.path).1.len() == 0 || parent_room(
                    self@,
                    glyph@,
                    width as int,
                ) <= 4,
            },
    {
        assert(self@.matches.len() == self.matches@.len());
        let (file, parent) = split_file(self.path.as_str());
        let start = cat3("▾ ", glyph, " ");
        let head = cat(start.as_str(), file.as_str());
        let badge = badge_of(self.matches.len());
        let room = take_off(
            take_off(take_off(width, text_width(head.as_str())), text_width(badge.as_str())),
            2,
        );
        if parent.as_str().unicode_len() > 0 && room > 4 {
            Some((parent, room))
        } else {
            None
        }
    }

    /// A file's row.
    pub fn header_item(&self, glyph: &str, color: Option<Color>, cut: String, width: usize) -> (r:
        Line)
        ensures
            r@ == header_row(self@, glyph@, color, cut@, width as int),
    {
        assert(self@.matches.len() == self.matches@.len());
        let shown = self.parent_to_cut(glyph, width).is_some();
        let (file, _) = split_file(self.path.as_str());
        let badge = badge_of(self.matches.len());
        let icon_color = match color {
            Some(c) => c,
            None => Color::Rgb(ACCENT),
        };
        let mut spans = no_spans();
        push_span(&mut spans, text_in("▾ ", colored(ACCENT, APP_BG)));
        push_span(
            &mut spans,
            Span {
                text: cat(glyph, " "),
                style: Style::default().bg(Color::Rgb(APP_BG)).fg(icon_color),
            },
        );
        push_span(
            &mut spans,
            Span { text: file, style: colored(TEXT_MAIN, APP_BG).bold() },
        );
        if shown {
            push_span(
                &mut spans,
                Span { text: cat("  ", cut.as_str()), style: colored(TEXT_MUTED, APP_BG) },
            );
        }
        assert(spans_view(spans@) =~= header_left(self@, glyph@, color, cut@, width as int));
        let pad = take_off(room_after(width, &spans), text_width(badge.as_str()));
        push_span(&mut spans, blank(pad));
        push_span(
            &mut spans,
            Span { text: badge, style: colored(COUNT_FG, COUNT_BG).bold() },
        );
        assert(spans_view(spans@) =~= header_row(
            self@,
            glyph@,
            color,
            cut@,
            width as int,
        ).spans);
        row(spans)
    }
}

/// How a find's row is set off.
pub fn match_style(hovered: bool, selected: bool) -> (r: Style)
    ensures
        r == match_base(hovered, selected),
{
    Style::default().bg(
        Color::Rgb(
            if selected {
                SELECTED_BG
            } else if hovered {
                HOVER_BG
            } else {
                APP_BG
            },
        ),
    )
}

impl SearchMatch {
    /// A find's row. Finds that cut a character in two cannot be shown.
    pub fn match_item(&self, hovered: bool, selected: bool, width: usize) -> (r: Line)
        requires
            between_chars(self@.line_text, self@.submatches),
            width <= u16::MAX,
        ensures
            r@ == match_row(self@, hovered, selected, width as int),
    {
        let base = match_style(hovered, selected);
        let prefix = number_of(self.line_number);
        let room = take_off(width, text_width(prefix.as_str()));
        let (text, ranges) = snippet_window(self.line_text.as_str(), &self.submatches, room);
        let len = crate::bytes::byte_len(self.line_text.as_str());
        proof {
            law_shown_ranges_are_whole(self@.line_text, self@.submatches, room as int);
        }
        let mut spans = no_spans();
        push_span(
            &mut spans,
            Span { text: prefix, style: base.patch(Style::default().fg(Color::Rgb(TEXT_MUTED))) },
        );
        let ghost head = spans_view(spans@);
        let marked = highlight_spans(
            text.as_str(),
            &ranges,
            base.patch(Style::default().fg(Color::Rgb(TEXT_MAIN))),
            colored(SEARCH_HIGHLIGHT_FG, SEARCH_HIGHLIGHT_BG),
        );
        push_spans(&mut spans, &marked);
        assert(head =~= seq![span(prefix@, patched(base, fg_style(Color::Rgb(TEXT_MUTED))))]);
        let left = room_after(width, &spans);
        if left > 0 {
            push_span(
                &mut spans,
                Span { text: crate::scm_app::items::blank_text(left), style: base },
            );
        }
        row(spans)
    }
}

/// A row of the results; one that is gone is empty.
pub open spec fn result_row(
    v: AppView,
    r: DisplayRow,
    hovered: bool,
    selected: bool,
    width: int,
    glyph: Seq<char>,
    color: Option<Color>,
    cut: Seq<char>,
) -> LineView {
    match r {
        DisplayRow::Header(g) => if g < v.groups.len() {
            header_row(v.groups[g as int], glyph, color, cut, width)
        } else {
            row_of(Seq::empty())
        },
        DisplayRow::Match { group, item } => if group < v.groups.len() && item
            < v.groups[group as int].matches.len() {
            match_row(v.groups[group as int].matches[item as int], hovered, selected, width)
        } else {
            row_of(Seq::empty())
        },
    }
}

/// Whether what a row shows can be shown: its finds begin and end between
/// characters.
pub open spec fn row_whole(v: AppView, r: DisplayRow) -> bool {
    r matches DisplayRow::Match { group, item } ==> group < v.groups.len() && item
        < v.groups[group as int].matches.len() ==> between_chars(
        v.groups[group as int].matches[item as int].line_text,
        v.groups[group as int].matches[item as int].submatches,
    )
}

impl App {
    /// A row of the results; one that is gone is empty.
    pub fn result_item(
        &self,
        r: DisplayRow,
        hovered: bool,
        selected: bool,
        width: usize,
        glyph: &str,
        color: Option<Color>,
        cut: String,
    ) -> (line: Line)
        requires
            row_whole(self@, r),
            width <= u16::MAX,
        ensures
            line@ == result_row(
                self@,
                r,
                hovered,
                selected,
                width as int,
                glyph@,
                color,
                cut@,
            ),
    {
        assert(self@.groups.len() == self.groups@.len());
        match r {
            DisplayRow::Header(g) => {
                if g >= self.groups.len() {
                    return row(no_spans());
                }
                assert(self@.groups[g as int] == self.groups@[g as int]@);
                self.groups[g].header_item(glyph, color, cut, width)
            },
            DisplayRow::Match { group, item } => {
                if group >= self.groups.len() {
                    return row(no_spans());
                }
                let g = &self.groups[group];
                assert(self@.groups[group as int] == g@);
                assert(g@.matches.len() == g.matches@.len());
                if item >= g.matches.len() {
                    return row(no_spans());
                }
                assert(g@.matches[item as int] == g.matches@[item as int]@);
                g.matches[item].match_item(hovered, selected, width)
            },
        }
    }
}

} // verus!
