//! What keys and the mouse do in the search view.

use vstd::prelude::*;

use crate::input::{least, monus, no_rect, take_off, Key, KeyCode, Rect};
use crate::search_app::app::{
    effects, first_match, last_match, no_effects, one_effect, preview_opened, push_effect,
    query_error, search_asked, selected_at, selection_moved, toggles, App, AppView, Effect,
    EffectView, Focus, Outcome, Overlay, ToggleKind, SEARCH_DEBOUNCE,
};
use crate::sidebar::{on_off, on_off_word, Exit, IconTheme, Settings, SideView};
use crate::syntax::place_in;
use crate::text::{chars_of, text_slice};
use crate::viewer::preview::{down_by, up_by};

verus! {

/// What an event does: the state after it, what it asks for, and whether the view
/// ends.
pub type Answer = (AppView, Seq<EffectView>, Option<Exit>);

/// The end that was asked for is announced, once.
pub open spec fn exit_taken(o: Outcome) -> Answer {
    (AppView { pending_exit: None, ..o.0 }, o.1, o.0.pending_exit)
}

// ---- Settings ----

#[derive(Clone, Copy, PartialEq, Eq, Debug, Structural)]
pub enum Setting {
    UnifiedSidebar,
    IconTheme,
    DiffTheme,
    HideUnmodified,
    AutoOpen,
    Hotkeys,
}

/// How many settings there are.
pub const SETTINGS: usize = 6;

/// The place of the diff theme among the settings.
pub const DIFF_THEME: usize = 2;

pub open spec fn setting_at(i: usize) -> Option<Setting> {
    if i == 0 {
        Some(Setting::UnifiedSidebar)
    } else if i == 1 {
        Some(Setting::IconTheme)
    } else if i == 2 {
        Some(Setting::DiffTheme)
    } else if i == 3 {
        Some(Setting::HideUnmodified)
    } else if i == 4 {
        Some(Setting::Hotkeys)
    } else if i == 5 {
        Some(Setting::AutoOpen)
    } else {
        None
    }
}

pub fn setting_in_row(i: usize) -> (r: Option<Setting>)
    ensures
        r == setting_at(i),
{
    if i == 0 {
        Some(Setting::UnifiedSidebar)
    } else if i == 1 {
        Some(Setting::IconTheme)
    } else if i == 2 {
        Some(Setting::DiffTheme)
    } else if i == 3 {
        Some(Setting::HideUnmodified)
    } else if i == 4 {
        Some(Setting::Hotkeys)
    } else if i == 5 {
        Some(Setting::AutoOpen)
    } else {
        None
    }
}

pub open spec fn setting_label(s: Setting) -> Seq<char> {
    match s {
        Setting::UnifiedSidebar => "Unified sidebar"@,
        Setting::IconTheme => "Icon theme"@,
        Setting::DiffTheme => "Diff theme"@,
        Setting::HideUnmodified => "Hide unmodified lines"@,
        Setting::Hotkeys => "Footer hotkeys"@,
        Setting::AutoOpen => "Auto-open sidebar"@,
    }
}

/// What a setting is set to; `theme` is the diff theme's name, as far as it fits.
pub open spec fn setting_value(v: AppView, s: Setting, theme: Seq<char>) -> Seq<char> {
    match s {
        Setting::UnifiedSidebar => on_off(v.settings.merged),
        Setting::IconTheme => match v.theme {
            IconTheme::Material => "material"@,
            IconTheme::Emoji => "emoji"@,
        },
        Setting::DiffTheme => theme,
        Setting::HideUnmodified => on_off(v.settings.hide_unmodified),
        Setting::Hotkeys => if v.settings.show_hotkeys {
            "shown"@
        } else {
            "hidden"@
        },
        Setting::AutoOpen => on_off(v.settings.auto_open),
    }
}

pub open spec fn settings_over(selected: usize) -> Overlay {
    Overlay::Settings { selected, rect: no_rect() }
}

pub open spec fn with_overlay(v: AppView, o: Overlay) -> AppView {
    AppView { overlay: Some(o), ..v }
}

pub open spec fn without_overlay(v: AppView) -> AppView {
    AppView { overlay: None, ..v }
}

pub open spec fn theme_picker(v: AppView, themes: usize) -> Overlay {
    Overlay::ThemePicker {
        selected: if v.settings.diff_theme < themes {
            v.settings.diff_theme
        } else {
            0
        },
        scroll: 0,
        rect: no_rect(),
    }
}

/// The views share a pane, or no longer do; then this view gives its pane up.
pub open spec fn unified(v: AppView) -> Outcome {
    let on = !v.settings.merged;
    (
        AppView {
            settings: Settings {
                merged: on,
                active: if on {
                    SideView::Search
                } else {
                    SideView::Explorer
                },
                ..v.settings
            },
            pending_exit: if on {
                v.pending_exit
            } else {
                Some(Exit::Switch)
            },
            overlay: None,
            ..v
        },
        seq![EffectView::SaveSettings, EffectView::Identify],
    )
}

/// A setting that is on or off is changed.
pub open spec fn flipped(s: Settings, setting: Setting) -> Settings {
    match setting {
        Setting::HideUnmodified => Settings { hide_unmodified: !s.hide_unmodified, ..s },
        Setting::Hotkeys => Settings { show_hotkeys: !s.show_hotkeys, ..s },
        Setting::AutoOpen => Settings { auto_open: !s.auto_open, ..s },
        _ => s,
    }
}

/// A setting is changed. `themes` is how many diff themes there are.
pub open spec fn setting_toggled(v: AppView, setting: Setting, themes: usize) -> Outcome {
    match setting {
        Setting::UnifiedSidebar => unified(v),
        Setting::IconTheme => (
            AppView {
                theme: v.theme.other(),
                settings: Settings { icons: Some(v.theme.other()), ..v.settings },
                ..v
            },
            seq![EffectView::SaveSettings],
        ),
        Setting::DiffTheme => (with_overlay(v, theme_picker(v, themes)), Seq::empty()),
        _ => (
            AppView { settings: flipped(v.settings, setting), ..v },
            seq![EffectView::SaveSettings],
        ),
    }
}

pub open spec fn setting_done(v: AppView, index: usize, themes: usize) -> Outcome {
    match setting_at(index) {
        Some(setting) => setting_toggled(v, setting, themes),
        None => (v, Seq::empty()),
    }
}

/// A diff theme is chosen.
pub open spec fn theme_chosen(v: AppView, index: usize, themes: usize) -> Outcome {
    if index < themes {
        (
            with_overlay(
                AppView { settings: Settings { diff_theme: index, ..v.settings }, ..v },
                settings_over(DIFF_THEME),
            ),
            seq![EffectView::SaveSettings],
        )
    } else {
        (v, Seq::empty())
    }
}

/// A line of the settings is entered; most leave the settings open.
pub open spec fn setting_entered(v: AppView, index: usize, rect: Rect, themes: usize) -> Outcome {
    let (a, e) = setting_done(without_overlay(v), index, themes);
    match setting_at(index) {
        Some(Setting::UnifiedSidebar) => (a, e),
        Some(Setting::DiffTheme) => (a, e),
        _ => (with_overlay(a, Overlay::Settings { selected: index, rect }), e),
    }
}

/// A setting's row: its label and its value.
pub fn setting_row(s: Setting, settings: Settings, icons: IconTheme, theme: &str) -> (r: (
    &'static str,
    String,
))
    ensures
        r.0@ == setting_label(s),
        forall|v: AppView|
            v.settings == settings && v.theme == icons ==> r.1@ == #[trigger] setting_value(
                v,
                s,
                theme@,
            ),
{
    match s {
        Setting::UnifiedSidebar => ("Unified sidebar", on_off_word(settings.merged).to_string()),
        Setting::IconTheme => (
            "Icon theme",
            match icons {
                IconTheme::Material => "material".to_string(),
                IconTheme::Emoji => "emoji".to_string(),
            },
        ),
        Setting::DiffTheme => ("Diff theme", theme.to_string()),
        Setting::HideUnmodified => (
            "Hide unmodified lines",
            on_off_word(settings.hide_unmodified).to_string(),
        ),
        Setting::Hotkeys => (
            "Footer hotkeys",
            if settings.show_hotkeys {
                "shown".to_string()
            } else {
                "hidden".to_string()
            },
        ),
        Setting::AutoOpen => ("Auto-open sidebar", on_off_word(settings.auto_open).to_string()),
    }
}

pub open spec fn setting_rows(v: AppView, theme: Seq<char>) -> Seq<(Setting, Seq<char>, Seq<char>)> {
    Seq::new(
        SETTINGS as nat,
        |i: int|
            {
                let s = setting_at(i as usize)->0;
                (s, setting_label(s), setting_value(v, s, theme))
            },
    )
}

pub open spec fn rows_shown(v: Seq<(Setting, &str, String)>) -> Seq<
    (Setting, Seq<char>, Seq<char>),
> {
    v.map_values(|r: (Setting, &str, String)| (r.0, r.1@, r.2@))
}

fn flip(s: Settings, setting: Setting) -> (r: Settings)
    ensures
        r == flipped(s, setting),
{
    match setting {
        Setting::HideUnmodified => Settings { hide_unmodified: !s.hide_unmodified, ..s },
        Setting::Hotkeys => Settings { show_hotkeys: !s.show_hotkeys, ..s },
        Setting::AutoOpen => Settings { auto_open: !s.auto_open, ..s },
        _ => s,
    }
}

impl App {
    /// The settings, with their labels and values.
    pub fn settings_rows(&self, theme: &str) -> (r: Vec<(Setting, &'static str, String)>)
        ensures
            rows_shown(r@) == setting_rows(self@, theme@),
    {
        let ghost want = setting_rows(self@, theme@);
        let mut out: Vec<(Setting, &'static str, String)> = Vec::new();
        let mut i: usize = 0;
        while i < SETTINGS
            invariant
                i <= SETTINGS,
                want == setting_rows(self@, theme@),
                rows_shown(out@) =~= want.take(i as int),
            decreases SETTINGS - i,
        {
            if let Some(s) = setting_in_row(i) {
                let ghost before = rows_shown(out@);
                let (label, value) = setting_row(s, self.settings, self.theme, theme);
                assert(value@ == setting_value(self@, s, theme@));
                out.push((s, label, value));
                assert(rows_shown(out@) =~= before.push((s, label@, value@)));
                assert(want[i as int] == (s, label@, value@));
            }
            i += 1;
        }
        assert(want.take(i as int) =~= want);
        out
    }

    pub fn open_settings(&mut self)
        ensures
            final(self)@ == with_overlay(old(self)@, settings_over(0)),
    {
        self.overlay = Some(Overlay::Settings { selected: 0, rect: Rect::default() });
    }

    fn open_theme_picker(&mut self, themes: usize)
        ensures
            final(self)@ == with_overlay(old(self)@, theme_picker(old(self)@, themes)),
    {
        let selected = place_in(self.settings.diff_theme, themes);
        self.overlay = Some(Overlay::ThemePicker { selected, scroll: 0, rect: Rect::default() });
    }

    pub(crate) fn back_to_settings(&mut self)
        ensures
            final(self)@ == with_overlay(old(self)@, settings_over(DIFF_THEME)),
    {
        self.overlay = Some(Overlay::Settings { selected: DIFF_THEME, rect: Rect::default() });
    }

    fn toggle_unified(&mut self) -> (r: Vec<Effect>)
        ensures
            (final(self)@, effects(r@)) == unified(old(self)@),
    {
        let on = !self.settings.merged;
        let settings = Settings {
            merged: on,
            active: if on {
                SideView::Search
            } else {
                SideView::Explorer
            },
            ..self.settings
        };
        let exit = if on {
            self.pending_exit
        } else {
            Some(Exit::Switch)
        };
        self.settings = settings;
        self.pending_exit = exit;
        self.overlay = None;
        let mut e = one_effect(Effect::SaveSettings);
        push_effect(&mut e, Effect::Identify);
        assert(effects(e@) =~= seq![EffectView::SaveSettings, EffectView::Identify]);
        e
    }

    /// Changes a setting.
    pub fn toggle_setting(&mut self, index: usize, themes: usize) -> (r: Vec<Effect>)
        ensures
            (final(self)@, effects(r@)) == setting_done(old(self)@, index, themes),
    {
        let setting = match setting_in_row(index) {
            Some(setting) => setting,
            None => {
                return no_effects();
            },
        };
        if setting == Setting::UnifiedSidebar {
            return self.toggle_unified();
        }
        if setting == Setting::IconTheme {
            let theme = self.theme.toggled();
            let settings = Settings { icons: Some(theme), ..self.settings };
            self.theme = theme;
            self.settings = settings;
            return one_effect(Effect::SaveSettings);
        }
        if setting == Setting::DiffTheme {
            self.open_theme_picker(themes);
            return no_effects();
        }
        self.settings = flip(self.settings, setting);
        one_effect(Effect::SaveSettings)
    }

    /// Takes a diff theme.
    pub fn choose_diff_theme(&mut self, index: usize, themes: usize) -> (r: Vec<Effect>)
        ensures
            (final(self)@, effects(r@)) == theme_chosen(old(self)@, index, themes),
    {
        if index >= themes {
            return no_effects();
        }
        let settings = Settings { diff_theme: index, ..self.settings };
        self.settings = settings;
        self.back_to_settings();
        one_effect(Effect::SaveSettings)
    }

    pub(crate) fn enter_setting(&mut self, index: usize, rect: Rect, themes: usize) -> (r: Vec<Effect>)
        ensures
            (final(self)@, effects(r@)) == setting_entered(old(self)@, index, rect, themes),
    {
        self.overlay = None;
        let e = self.toggle_setting(index, themes);
        let leaves = match setting_in_row(index) {
            Some(Setting::UnifiedSidebar) => true,
            Some(Setting::DiffTheme) => true,
            _ => false,
        };
        if leaves {
            return e;
        }
        self.overlay = Some(Overlay::Settings { selected: index, rect });
        e
    }
}

// ---- Keys over the view ----

/// The line of an overlay that a key moves to.
pub open spec fn overlay_move(o: Overlay, code: KeyCode, themes: usize) -> usize {
    match o {
        Overlay::Settings { selected, .. } => match code {
            KeyCode::Up | KeyCode::Char('k') => monus(selected as int, 1) as usize,
            KeyCode::Down | KeyCode::Char('j') => least(selected + 1, SETTINGS - 1) as usize,
            _ => selected,
        },
        Overlay::ThemePicker { selected, .. } => {
            let last = monus(themes as int, 1);
            match code {
                KeyCode::Up | KeyCode::Char('k') => monus(selected as int, 1) as usize,
                KeyCode::Down | KeyCode::Char('j') => least(selected + 1, last) as usize,
                KeyCode::Home | KeyCode::Char('g') => 0,
                KeyCode::End | KeyCode::Char('G') => last as usize,
                KeyCode::PageUp => monus(selected as int, 10) as usize,
                KeyCode::PageDown => least(selected + 10, last) as usize,
                _ => selected,
            }
        },
    }
}

/// The overlay with another line chosen, which is in sight.
pub open spec fn reselected(o: Overlay, i: usize) -> Overlay {
    match o {
        Overlay::Settings { rect, .. } => Overlay::Settings { selected: i, rect },
        Overlay::ThemePicker { scroll, rect, .. } => Overlay::ThemePicker {
            selected: i,
            scroll: if i < scroll {
                i
            } else {
                scroll
            },
            rect,
        },
    }
}

pub open spec fn enters(code: KeyCode) -> bool {
    code == KeyCode::Enter || code == KeyCode::Char(' ')
}

/// What a key does over the view.
#[verifier::opaque]
pub open spec fn overlay_key_step(v: AppView, o: Overlay, code: KeyCode, themes: usize) -> Outcome {
    match o {
        Overlay::Settings { selected, rect } => if code == KeyCode::Esc {
            (without_overlay(v), Seq::empty())
        } else if enters(code) {
            setting_entered(v, selected, rect, themes)
        } else {
            (with_overlay(v, reselected(o, overlay_move(o, code, themes))), Seq::empty())
        },
        Overlay::ThemePicker { selected, .. } => if code == KeyCode::Esc {
            (with_overlay(v, settings_over(DIFF_THEME)), Seq::empty())
        } else if enters(code) {
            theme_chosen(without_overlay(v), selected, themes)
        } else {
            (with_overlay(v, reselected(o, overlay_move(o, code, themes))), Seq::empty())
        },
    }
}

fn move_in(o: Overlay, code: KeyCode, themes: usize) -> (r: usize)
    ensures
        r == overlay_move(o, code, themes),
{
    match o {
        Overlay::Settings { selected, .. } => match code {
            KeyCode::Up | KeyCode::Char('k') => up_by(selected, 1),
            KeyCode::Down | KeyCode::Char('j') => down_by(selected, 1, SETTINGS - 1),
            _ => selected,
        },
        Overlay::ThemePicker { selected, .. } => {
            let last = take_off(themes, 1);
            match code {
                KeyCode::Up | KeyCode::Char('k') => up_by(selected, 1),
                KeyCode::Down | KeyCode::Char('j') => down_by(selected, 1, last),
                KeyCode::Home | KeyCode::Char('g') => 0,
                KeyCode::End | KeyCode::Char('G') => last,
                KeyCode::PageUp => up_by(selected, 10),
                KeyCode::PageDown => down_by(selected, 10, last),
                _ => selected,
            }
        },
    }
}

fn reselect(o: Overlay, i: usize) -> (r: Overlay)
    ensures
        r == reselected(o, i),
{
    match o {
        Overlay::Settings { rect, .. } => Overlay::Settings { selected: i, rect },
        Overlay::ThemePicker { scroll, rect, .. } => Overlay::ThemePicker {
            selected: i,
            scroll: if i < scroll {
                i
            } else {
                scroll
            },
            rect,
        },
    }
}

impl App {
    fn settings_key(&mut self, o: Overlay, selected: usize, rect: Rect, code: KeyCode, themes: usize)
        -> (r: Vec<Effect>)
        requires
            o == (Overlay::Settings { selected, rect }),
        ensures
            (final(self)@, effects(r@)) == overlay_key_step(old(self)@, o, code, themes),
    {
        reveal(overlay_key_step);
        if code == KeyCode::Esc {
            self.overlay = None;
            return no_effects();
        }
        if code == KeyCode::Enter || code == KeyCode::Char(' ') {
            return self.enter_setting(selected, rect, themes);
        }
        self.overlay = Some(reselect(o, move_in(o, code, themes)));
        no_effects()
    }

    fn picker_key(&mut self, o: Overlay, selected: usize, code: KeyCode, themes: usize) -> (r: Vec<
        Effect,
    >)
        requires
            o matches Overlay::ThemePicker { selected: s, .. } && s == selected,
        ensures
            (final(self)@, effects(r@)) == overlay_key_step(old(self)@, o, code, themes),
    {
        reveal(overlay_key_step);
        if code == KeyCode::Esc {
            self.back_to_settings();
            return no_effects();
        }
        if code == KeyCode::Enter || code == KeyCode::Char(' ') {
            self.overlay = None;
            return self.choose_diff_theme(selected, themes);
        }
        self.overlay = Some(reselect(o, move_in(o, code, themes)));
        no_effects()
    }

    /// What a key does over the view.
    pub fn handle_overlay_key(&mut self, o: Overlay, code: KeyCode, themes: usize) -> (r: Vec<
        Effect,
    >)
        ensures
            (final(self)@, effects(r@)) == overlay_key_step(old(self)@, o, code, themes),
    {
        match o {
            Overlay::Settings { selected, rect } => self.settings_key(
                o,
                selected,
                rect,
                code,
                themes,
            ),
            Overlay::ThemePicker { selected, .. } => self.picker_key(o, selected, code, themes),
        }
    }
}

// ---- Fields and toggles ----

/// The text of the field that is typed in.
pub open spec fn input_of(v: AppView) -> Seq<char> {
    match v.focus {
        Focus::Include => v.included,
        Focus::Exclude => v.excluded,
        _ => v.query,
    }
}

/// The field that is typed in holds this; a search is due.
pub open spec fn edited(v: AppView, text: Seq<char>, now: u64) -> AppView {
    let a = match v.focus {
        Focus::Include => AppView { included: text, ..v },
        Focus::Exclude => AppView { excluded: text, ..v },
        _ => AppView { query: text, ..v },
    };
    AppView {
        inline_error: None,
        pending_search: Some(least(now + SEARCH_DEBOUNCE, u64::MAX as int) as u64),
        ..a
    }
}

pub open spec fn without_last(s: Seq<char>) -> Seq<char> {
    if s.len() > 0 {
        s.drop_last()
    } else {
        s
    }
}

pub open spec fn focus_after(v: AppView) -> Focus {
    match v.focus {
        Focus::Query => Focus::Toggles,
        Focus::Toggles => if v.filters_collapsed {
            Focus::Results
        } else {
            Focus::Include
        },
        Focus::Include => Focus::Exclude,
        Focus::Exclude => Focus::Results,
        Focus::Results => Focus::Query,
    }
}

pub open spec fn focus_before(v: AppView) -> Focus {
    match v.focus {
        Focus::Query => Focus::Results,
        Focus::Toggles => Focus::Query,
        Focus::Include => Focus::Toggles,
        Focus::Exclude => Focus::Include,
        Focus::Results => if v.filters_collapsed {
            Focus::Toggles
        } else {
            Focus::Exclude
        },
    }
}

pub open spec fn focused(v: AppView, focus: Focus) -> AppView {
    AppView { focus, ..v }
}

/// Tab and shift-tab undo each other, where the focus is not in a field that is
/// hidden.
pub proof fn law_focus_goes_there_and_back(v: AppView)
    requires
        v.filters_collapsed ==> v.focus != Focus::Include && v.focus != Focus::Exclude,
    ensures
        focus_before(focused(v, focus_after(v))) == v.focus,
        focus_after(focused(v, focus_before(v))) == v.focus,
{
}

/// Down goes to the results.
pub open spec fn to_results(v: AppView) -> AppView {
    selected_at(focused(v, Focus::Results), first_match(v.rows))
}

/// A toggle is flipped, and the search begins anew.
pub open spec fn toggle_flipped(v: AppView, kind: ToggleKind) -> Outcome {
    let a = match kind {
        ToggleKind::Regex => AppView { regex: !v.regex, inline_error: None, ..v },
        ToggleKind::Case => AppView { case_sensitive: !v.case_sensitive, inline_error: None, ..v },
        ToggleKind::WholeWord => AppView { whole_word: !v.whole_word, inline_error: None, ..v },
    };
    search_asked(a, false, query_error(a))
}

pub open spec fn toggle_in_focus(v: AppView) -> ToggleKind {
    toggles()[least(v.toggle_focus as int, 2)]
}

/// What a key does in a field.
pub open spec fn input_key_step(v: AppView, key: Key, now: u64) -> Outcome {
    let text = input_of(v);
    match key.code {
        KeyCode::Tab => (focused(v, focus_after(v)), Seq::empty()),
        KeyCode::BackTab => (focused(v, focus_before(v)), Seq::empty()),
        KeyCode::Enter => search_asked(v, true, query_error(v)),
        KeyCode::Esc => if v.focus == Focus::Query {
            (edited(v, Seq::empty(), now), Seq::empty())
        } else {
            (v, Seq::empty())
        },
        KeyCode::Backspace => (edited(v, without_last(text), now), Seq::empty()),
        KeyCode::Char(c) => if c == 'u' && key.modifiers.control {
            (edited(v, Seq::empty(), now), Seq::empty())
        } else {
            (edited(v, text.push(c), now), Seq::empty())
        },
        KeyCode::Down => (to_results(v), Seq::empty()),
        _ => (v, Seq::empty()),
    }
}

/// What a key does at the toggles.
pub open spec fn toggle_key_step(v: AppView, code: KeyCode) -> Outcome {
    match code {
        KeyCode::Left | KeyCode::Char('h') => (
            AppView { toggle_focus: monus(v.toggle_focus as int, 1) as usize, ..v },
            Seq::empty(),
        ),
        KeyCode::Right | KeyCode::Char('l') => (
            AppView { toggle_focus: least(v.toggle_focus + 1, 2) as usize, ..v },
            Seq::empty(),
        ),
        KeyCode::Tab => (focused(v, focus_after(v)), Seq::empty()),
        KeyCode::BackTab => (focused(v, focus_before(v)), Seq::empty()),
        KeyCode::Enter | KeyCode::Char(' ') => toggle_flipped(v, toggle_in_focus(v)),
        KeyCode::Down => (to_results(v), Seq::empty()),
        _ => (v, Seq::empty()),
    }
}

/// How far the results can be scrolled down.
pub open spec fn scrolled_down(v: AppView, by: int) -> AppView {
    AppView { scroll: least(v.scroll + by, monus(v.rows.len() as int, 1)) as usize, ..v }
}

pub open spec fn scrolled_up(v: AppView, by: int) -> AppView {
    AppView { scroll: monus(v.scroll as int, by) as usize, ..v }
}

/// What a key does in the results.
pub open spec fn results_key_step(v: AppView, code: KeyCode) -> Outcome {
    match code {
        KeyCode::Up | KeyCode::Char('k') => (selection_moved(v, false), Seq::empty()),
        KeyCode::Down | KeyCode::Char('j') => (selection_moved(v, true), Seq::empty()),
        KeyCode::PageUp => (scrolled_up(v, v.page as int), Seq::empty()),
        KeyCode::PageDown => (scrolled_down(v, v.page as int), Seq::empty()),
        KeyCode::Home | KeyCode::Char('g') => (
            selected_at(AppView { scroll: 0, ..v }, first_match(v.rows)),
            Seq::empty(),
        ),
        KeyCode::End | KeyCode::Char('G') => (selected_at(v, last_match(v.rows)), Seq::empty()),
        KeyCode::Enter => preview_opened(v),
        KeyCode::Tab => (focused(v, focus_after(v)), Seq::empty()),
        KeyCode::BackTab => (focused(v, focus_before(v)), Seq::empty()),
        _ => (v, Seq::empty()),
    }
}

/// The sidebar's pane is closed.
pub open spec fn hidden(v: AppView) -> Outcome {
    if v.pane_id is Some {
        (AppView { pending_exit: Some(Exit::Quit), ..v }, seq![EffectView::Hide])
    } else {
        (v, Seq::empty())
    }
}

/// Another view takes the pane.
pub open spec fn switched(v: AppView, view: SideView) -> Answer {
    if !v.settings.merged || view == SideView::Search {
        (v, Seq::empty(), None)
    } else {
        (
            AppView { settings: Settings { active: view, ..v.settings }, ..v },
            seq![EffectView::SaveSettings],
            Some(Exit::Switch),
        )
    }
}

/// The view that a key goes to.
pub open spec fn view_key(code: KeyCode) -> Option<SideView> {
    match code {
        KeyCode::Char('1') => Some(SideView::Explorer),
        KeyCode::Char('2') => Some(SideView::SourceControl),
        KeyCode::Char('3') => Some(SideView::Search),
        _ => None,
    }
}

pub open spec fn typing(v: AppView) -> bool {
    v.focus == Focus::Query || v.focus == Focus::Include || v.focus == Focus::Exclude
}

/// Keys that act wherever nothing is typed.
pub open spec fn shortcut(v: AppView, code: KeyCode) -> Outcome {
    match code {
        KeyCode::Char('s') => (with_overlay(v, settings_over(0)), Seq::empty()),
        KeyCode::Char('b') => hidden(v),
        _ => (v, Seq::empty()),
    }
}

/// What a key does where the focus is; without ripgrep it can only be looked for
/// again.
#[verifier::opaque]
pub open spec fn focus_key_step(v: AppView, key: Key, now: u64) -> Outcome {
    if v.rg_error is Some {
        if key.code == KeyCode::Enter || key.code == KeyCode::Char('r') {
            (v, seq![EffectView::CheckRg])
        } else {
            (v, Seq::empty())
        }
    } else {
        match v.focus {
            Focus::Toggles => toggle_key_step(v, key.code),
            Focus::Results => results_key_step(v, key.code),
            _ => input_key_step(v, key, now),
        }
    }
}

/// What a key does where nothing is typed.
#[verifier::opaque]
pub open spec fn command_step(v: AppView, key: Key, now: u64) -> Answer {
    let (a, e) = shortcut(v, key.code);
    let (b, f) = focus_key_step(a, key, now);
    exit_taken((b, e + f))
}

/// What a key does.
pub open spec fn key_step(v: AppView, key: Key, themes: usize, now: u64) -> Answer {
    if !key.press {
        (v, Seq::empty(), None)
    } else {
        let a = AppView { notice: None, ..v };
        match v.overlay {
            Some(o) => exit_taken(overlay_key_step(a, o, key.code, themes)),
            None => if typing(v) {
                exit_taken(focus_key_step(a, key, now))
            } else {
                match view_key(key.code) {
                    Some(view) => switched(a, view),
                    None => command_step(a, key, now),
                }
            },
        }
    }
}

fn key_view(code: KeyCode) -> (r: Option<SideView>)
    ensures
        r == view_key(code),
{
    match code {
        KeyCode::Char('1') => Some(SideView::Explorer),
        KeyCode::Char('2') => Some(SideView::SourceControl),
        KeyCode::Char('3') => Some(SideView::Search),
        _ => None,
    }
}

impl App {
    fn input(&self) -> (r: Vec<char>)
        ensures
            r@ == input_of(self@),
    {
        match self.focus {
            Focus::Include => chars_of(self.included.as_str()),
            Focus::Exclude => chars_of(self.excluded.as_str()),
            _ => chars_of(self.query.as_str()),
        }
    }

    fn set_input(&mut self, text: String, now: u64)
        ensures
            final(self)@ == edited(old(self)@, text@, now),
    {
        self.inline_error = None;
        self.schedule_search(now);
        if self.focus == Focus::Include {
            self.included = text;
            return;
        }
        if self.focus == Focus::Exclude {
            self.excluded = text;
            return;
        }
        self.query = text;
    }

    /// The field or part after the one in focus.
    pub fn next_focus(&self) -> (r: Focus)
        ensures
            r == focus_after(self@),
    {
        match self.focus {
            Focus::Query => Focus::Toggles,
            Focus::Toggles => if self.filters_collapsed {
                Focus::Results
            } else {
                Focus::Include
            },
            Focus::Include => Focus::Exclude,
            Focus::Exclude => Focus::Results,
            Focus::Results => Focus::Query,
        }
    }

    /// The field or part before the one in focus.
    pub fn prev_focus(&self) -> (r: Focus)
        ensures
            r == focus_before(self@),
    {
        match self.focus {
            Focus::Query => Focus::Results,
            Focus::Toggles => Focus::Query,
            Focus::Include => Focus::Toggles,
            Focus::Exclude => Focus::Include,
            Focus::Results => if self.filters_collapsed {
                Focus::Toggles
            } else {
                Focus::Exclude
            },
        }
    }

    fn to_results(&mut self)
        ensures
            final(self)@ == to_results(old(self)@),
    {
        self.focus = Focus::Results;
        self.select_first_result();
    }

    /// The toggle that keys act on.
    pub fn focused_toggle(&self) -> (r: ToggleKind)
        ensures
            r == toggle_in_focus(self@),
    {
        if self.toggle_focus == 0 {
            ToggleKind::Case
        } else if self.toggle_focus == 1 {
            ToggleKind::WholeWord
        } else {
            ToggleKind::Regex
        }
    }

    /// Whether a toggle is on.
    pub fn toggle_on(&self, kind: ToggleKind) -> (r: bool)
        ensures
            r == (match kind {
                ToggleKind::Regex => self@.regex,
                ToggleKind::Case => self@.case_sensitive,
                ToggleKind::WholeWord => self@.whole_word,
            }),
    {
        match kind {
            ToggleKind::Regex => self.regex,
            ToggleKind::Case => self.case_sensitive,
            ToggleKind::WholeWord => self.whole_word,
        }
    }

    /// Flips a toggle, and searches anew.
    pub fn flip_toggle(&mut self, kind: ToggleKind) -> (r: Vec<Effect>)
        ensures
            (final(self)@, effects(r@)) == toggle_flipped(old(self)@, kind),
    {
        let regex = self.regex != (kind == ToggleKind::Regex);
        let case_sensitive = self.case_sensitive != (kind == ToggleKind::Case);
        let whole_word = self.whole_word != (kind == ToggleKind::WholeWord);
        self.regex = regex;
        self.case_sensitive = case_sensitive;
        self.whole_word = whole_word;
        self.inline_error = None;
        self.start_search(false)
    }

    fn edit(&mut self, key: Key, now: u64)
        requires
            key.code is Char || key.code == KeyCode::Backspace || key.code == KeyCode::Esc,
            key.code == KeyCode::Esc ==> old(self)@.focus == Focus::Query,
        ensures
            (final(self)@, Seq::<EffectView>::empty()) == input_key_step(old(self)@, key, now),
    {
        let mut v = self.input();
        let total = v.len();
        let text = match key.code {
            KeyCode::Backspace => {
                let n = take_off(total, 1);
                let t = text_slice(&v, 0, n);
                assert(t@ =~= without_last(v@));
                t
            },
            KeyCode::Char(c) => if c == 'u' && key.modifiers.control {
                let t = String::new();
                assert(t@ =~= Seq::empty());
                t
            } else {
                v.push(c);
                crate::text::text_of(&v)
            },
            _ => {
                let t = String::new();
                assert(t@ =~= Seq::empty());
                t
            },
        };
        self.set_input(text, now);
    }

    /// What a key does in a field.
    pub fn on_input_key(&mut self, key: Key, now: u64) -> (r: Vec<Effect>)
        ensures
            (final(self)@, effects(r@)) == input_key_step(old(self)@, key, now),
    {
        match key.code {
            KeyCode::Tab => {
                self.focus = self.next_focus();
                no_effects()
            },
            KeyCode::BackTab => {
                self.focus = self.prev_focus();
                no_effects()
            },
            KeyCode::Enter => self.start_search(true),
            KeyCode::Esc => {
                if self.focus == Focus::Query {
                    self.edit(key, now);
                }
                no_effects()
            },
            KeyCode::Backspace | KeyCode::Char(_) => {
                self.edit(key, now);
                no_effects()
            },
            KeyCode::Down => {
                self.to_results();
                no_effects()
            },
            _ => no_effects(),
        }
    }

    /// What a key does at the toggles.
    pub fn on_toggle_key(&mut self, code: KeyCode) -> (r: Vec<Effect>)
        ensures
            (final(self)@, effects(r@)) == toggle_key_step(old(self)@, code),
    {
        match code {
            KeyCode::Left | KeyCode::Char('h') => {
                self.toggle_focus = take_off(self.toggle_focus, 1);
                no_effects()
            },
            KeyCode::Right | KeyCode::Char('l') => {
                self.toggle_focus = if self.toggle_focus == 0 {
                    1
                } else {
                    2
                };
                no_effects()
            },
            KeyCode::Tab => {
                self.focus = self.next_focus();
                no_effects()
            },
            KeyCode::BackTab => {
                self.focus = self.prev_focus();
                no_effects()
            },
            KeyCode::Enter | KeyCode::Char(' ') => {
                let kind = self.focused_toggle();
                self.flip_toggle(kind)
            },
            KeyCode::Down => {
                self.to_results();
                no_effects()
            },
            _ => no_effects(),
        }
    }

    pub(crate) fn scroll_down(&mut self, by: usize)
        ensures
            final(self)@ == scrolled_down(old(self)@, by as int),
    {
        self.scroll = down_by(self.scroll, by, take_off(self.rows.len(), 1));
    }

    pub(crate) fn scroll_up(&mut self, by: usize)
        ensures
            final(self)@ == scrolled_up(old(self)@, by as int),
    {
        self.scroll = take_off(self.scroll, by);
    }

    /// What a key does in the results.
    pub fn on_results_key(&mut self, code: KeyCode) -> (r: Vec<Effect>)
        ensures
            (final(self)@, effects(r@)) == results_key_step(old(self)@, code),
    {
        match code {
            KeyCode::Up | KeyCode::Char('k') => {
                self.move_selection(false);
                no_effects()
            },
            KeyCode::Down | KeyCode::Char('j') => {
                self.move_selection(true);
                no_effects()
            },
            KeyCode::PageUp => {
                self.scroll_up(self.page);
                no_effects()
            },
            KeyCode::PageDown => {
                self.scroll_down(self.page);
                no_effects()
            },
            KeyCode::Home | KeyCode::Char('g') => {
                self.scroll = 0;
                self.select_first_result();
                no_effects()
            },
            KeyCode::End | KeyCode::Char('G') => {
                self.select_last_result();
                no_effects()
            },
            KeyCode::Enter => self.open_selected_preview(),
            KeyCode::Tab => {
                self.focus = self.next_focus();
                no_effects()
            },
            KeyCode::BackTab => {
                self.focus = self.prev_focus();
                no_effects()
            },
            _ => no_effects(),
        }
    }

    /// Another view takes the pane.
    pub fn switch_to(&mut self, view: SideView) -> (r: (Vec<Effect>, Option<Exit>))
        ensures
            (final(self)@, effects((r.0)@), r.1) == switched(old(self)@, view),
    {
        if !self.settings.merged || view == SideView::Search {
            return (no_effects(), None);
        }
        let settings = Settings { active: view, ..self.settings };
        self.settings = settings;
        (one_effect(Effect::SaveSettings), Some(Exit::Switch))
    }

    /// Closes the sidebar's pane.
    pub fn hide_pane(&mut self) -> (r: Vec<Effect>)
        ensures
            (final(self)@, effects(r@)) == hidden(old(self)@),
    {
        if self.pane_id.is_none() {
            return no_effects();
        }
        self.pending_exit = Some(Exit::Quit);
        one_effect(Effect::Hide)
    }

    fn run_shortcut(&mut self, code: KeyCode) -> (r: Vec<Effect>)
        ensures
            (final(self)@, effects(r@)) == shortcut(old(self)@, code),
    {
        match code {
            KeyCode::Char('s') => {
                self.open_settings();
                no_effects()
            },
            KeyCode::Char('b') => self.hide_pane(),
            _ => no_effects(),
        }
    }

    fn on_focus_key(&mut self, key: Key, now: u64) -> (r: Vec<Effect>)
        ensures
            (final(self)@, effects(r@)) == focus_key_step(old(self)@, key, now),
    {
        reveal(focus_key_step);
        if self.rg_error.is_some() {
            return if key.code == KeyCode::Enter || key.code == KeyCode::Char('r') {
                one_effect(Effect::CheckRg)
            } else {
                no_effects()
            };
        }
        match self.focus {
            Focus::Toggles => self.on_toggle_key(key.code),
            Focus::Results => self.on_results_key(key.code),
            _ => self.on_input_key(key, now),
        }
    }

    pub(crate) fn take_exit(&mut self) -> (r: Option<Exit>)
        ensures
            r == old(self)@.pending_exit,
            final(self)@ == (AppView { pending_exit: None, ..old(self)@ }),
    {
        let r = self.pending_exit;
        self.pending_exit = None;
        r
    }

    /// What a key does. `themes` is how many diff themes there are.
    pub fn on_key(&mut self, key: Key, themes: usize, now: u64) -> (r: (Vec<Effect>, Option<Exit>))
        ensures
            (final(self)@, effects((r.0)@), r.1) == key_step(old(self)@, key, themes, now),
    {
        if !key.press {
            return (no_effects(), None);
        }
        self.notice = None;
        if let Some(o) = self.overlay {
            return self.on_overlay_key(o, key.code, themes);
        }
        let typing = self.focus == Focus::Query || self.focus == Focus::Include || self.focus
            == Focus::Exclude;
        if typing {
            return self.on_typed_key(key, now);
        }
        match key_view(key.code) {
            Some(view) => self.switch_to(view),
            None => self.on_command_key(key, now),
        }
    }

    fn on_overlay_key(&mut self, o: Overlay, code: KeyCode, themes: usize) -> (r: (
        Vec<Effect>,
        Option<Exit>,
    ))
        ensures
            (final(self)@, effects((r.0)@), r.1) == exit_taken(
                overlay_key_step(old(self)@, o, code, themes),
            ),
    {
        let e = self.handle_overlay_key(o, code, themes);
        let exit = self.take_exit();
        (e, exit)
    }

    fn on_typed_key(&mut self, key: Key, now: u64) -> (r: (Vec<Effect>, Option<Exit>))
        ensures
            (final(self)@, effects((r.0)@), r.1) == exit_taken(
                focus_key_step(old(self)@, key, now),
            ),
    {
        let e = self.on_focus_key(key, now);
        let exit = self.take_exit();
        (e, exit)
    }

    fn on_command_key(&mut self, key: Key, now: u64) -> (r: (Vec<Effect>, Option<Exit>))
        ensures
            (final(self)@, effects((r.0)@), r.1) == command_step(old(self)@, key, now),
    {
        reveal(command_step);
        let mut e = self.run_shortcut(key.code);
        let ghost x = effects(e@);
        let mut f = self.on_focus_key(key, now);
        let ghost y = effects(f@);
        e.append(&mut f);
        assert(effects(e@) =~= x + y);
        let exit = self.take_exit();
        (e, exit)
    }
}

} // verus!
