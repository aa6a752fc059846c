//! What keys do in the source control view.

use vstd::prelude::*;

use crate::git::{EntryView, FileEntry};
use crate::input::{least, monus, take_off, Key, KeyCode};
use crate::scm_app::actions::{moved, navigated, selected_diff_opened};
use crate::scm_app::app::{
    chosen, cursor_placed, effects, lemma_cursors_stay, merged, no_effects, one_effect, sound, App,
    AppView, Effect, EffectView, Outcome,
};
use crate::scm_app::menus::{
    entry_done, git_run, repo_gone, setting_done, settings_at, theme_chosen, themed, with_overlay,
};
use crate::scm_app::operations::{
    all_begun, commit_begun, row_done, suggestion_begun, sync_begun,
};
use crate::scm_app::overlay::{
    menu_view, setting_place, step_menu, stepped, Overlay, OverlayView, Setting,
};
use crate::scm_app::state::{repos_view, Focus, Repo, RepoView};
use crate::sidebar::{Exit, Settings, SideView};
use crate::viewer::preview::{down_by, up_by};

verus! {

/// How many rows the settings have.
pub const SETTINGS: usize = 8;

/// What an event does: the state after it, what it asks for, and whether the view
/// ends.
pub type Answer = (AppView, Seq<EffectView>, Option<Exit>);

pub open spec fn stay(o: Outcome) -> Answer {
    (o.0, o.1, None)
}

// ---- What is shown over the list ----

/// The overlay with another line chosen.
pub open spec fn reselected(o: OverlayView, i: usize) -> OverlayView {
    match o {
        OverlayView::Menu { x, y, target, entries, selected, rect } => OverlayView::Menu {
            x,
            y,
            target,
            entries,
            selected: i,
            rect,
        },
        OverlayView::Settings { selected, rect } => OverlayView::Settings { selected: i, rect },
        OverlayView::ThemePicker { selected, scroll, rect } => OverlayView::ThemePicker {
            selected: i,
            scroll,
            rect,
        },
        _ => o,
    }
}

/// The line of an overlay that a key moves to.
pub open spec fn overlay_move(o: OverlayView, code: KeyCode, themes: usize) -> Option<usize> {
    match o {
        OverlayView::Menu { entries, selected, .. } => match code {
            KeyCode::Up | KeyCode::Char('k') => Some(stepped(entries, selected, false)),
            KeyCode::Down | KeyCode::Char('j') => Some(stepped(entries, selected, true)),
            _ => None,
        },
        OverlayView::Settings { selected, .. } => match code {
            KeyCode::Up | KeyCode::Char('k') => Some(monus(selected as int, 1) as usize),
            KeyCode::Down | KeyCode::Char('j') => Some(least(selected + 1, SETTINGS - 1) as usize),
            _ => None,
        },
        OverlayView::ThemePicker { selected, .. } => {
            let last = monus(themes as int, 1);
            match code {
                KeyCode::Up | KeyCode::Char('k') => Some(monus(selected as int, 1) as usize),
                KeyCode::Down | KeyCode::Char('j') => Some(least(selected + 1, last) as usize),
                KeyCode::PageUp => Some(monus(selected as int, 10) as usize),
                KeyCode::PageDown => Some(least(selected + 10, last) as usize),
                KeyCode::Home | KeyCode::Char('g') => Some(0),
                KeyCode::End | KeyCode::Char('G') => Some(last as usize),
                _ => None,
            }
        },
        _ => None,
    }
}

pub open spec fn yes(code: KeyCode) -> bool {
    code == KeyCode::Char('y') || code == KeyCode::Char('Y')
}

pub open spec fn enters(code: KeyCode) -> bool {
    code == KeyCode::Enter || code == KeyCode::Char(' ')
}

pub open spec fn without_overlay(v: AppView) -> AppView {
    AppView { overlay: None, ..v }
}

/// The changes of a file are discarded.
pub open spec fn discard_begun(v: AppView, repo: usize, e: EntryView) -> Outcome {
    if repo < v.repos.len() {
        (v, seq![EffectView::Discard(repo, e)])
    } else {
        repo_gone(v)
    }
}

/// What a key that does not move does in an overlay.
pub open spec fn overlay_command(v: AppView, o: OverlayView, code: KeyCode, themes: usize) -> Outcome {
    match o {
        OverlayView::Menu { .. } => if code == KeyCode::Esc {
            (without_overlay(v), Seq::empty())
        } else if code == KeyCode::Enter {
            entry_done(v)
        } else {
            (v, Seq::empty())
        },
        OverlayView::ThemePicker { selected, .. } => if code == KeyCode::Esc || code
            == KeyCode::Char('q') {
            (with_overlay(v, settings_at(setting_place(Setting::DiffTheme))), Seq::empty())
        } else if enters(code) {
            theme_chosen(v, selected, themes)
        } else {
            (v, Seq::empty())
        },
        OverlayView::Settings { selected, .. } => if code == KeyCode::Esc || code
            == KeyCode::Char('q') || code == KeyCode::Char('s') {
            (without_overlay(v), Seq::empty())
        } else if enters(code) {
            setting_done(v, selected, themes)
        } else {
            (v, Seq::empty())
        },
        OverlayView::ConfirmDiscard { repo, entry } => if yes(code) {
            discard_begun(without_overlay(v), repo, entry)
        } else {
            (without_overlay(v), Seq::empty())
        },
        OverlayView::ConfirmGit { repo, args, .. } => if yes(code) {
            git_run(without_overlay(v), repo, args)
        } else {
            (without_overlay(v), Seq::empty())
        },
    }
}

/// What a key does in an overlay.
pub open spec fn overlay_key_step(v: AppView, code: KeyCode, themes: usize) -> Outcome {
    match v.overlay {
        None => (v, Seq::empty()),
        Some(o) => match overlay_move(o, code, themes) {
            Some(i) => (with_overlay(v, reselected(o, i)), Seq::empty()),
            None => overlay_command(v, o, code, themes),
        },
    }
}

fn reselect(o: Overlay, i: usize) -> (r: Overlay)
    ensures
        r@ == reselected(o@, i),
{
    match o {
        Overlay::Menu { x, y, target, entries, selected: _, rect } => Overlay::Menu {
            x,
            y,
            target,
            entries,
            selected: i,
            rect,
        },
        Overlay::Settings { selected: _, rect } => Overlay::Settings { selected: i, rect },
        Overlay::ThemePicker { selected: _, scroll, rect } => Overlay::ThemePicker {
            selected: i,
            scroll,
            rect,
        },
        other => other,
    }
}

fn move_in(o: &Overlay, code: KeyCode, themes: usize) -> (r: Option<usize>)
    requires
        crate::scm_app::app::entry_chosen(o@),
    ensures
        r == overlay_move(o@, code, themes),
        r matches Some(i) ==> crate::scm_app::app::entry_chosen(reselected(o@, i)),
{
    match o {
        Overlay::Menu { entries, selected, .. } => {
            assert(menu_view(entries@).len() == entries@.len());
            proof {
                assert(entries.len() == entries@.len());
                crate::scm_app::overlay::law_steps_skip_separators(
                    menu_view(entries@),
                    *selected,
                    true,
                );
                crate::scm_app::overlay::law_steps_skip_separators(
                    menu_view(entries@),
                    *selected,
                    false,
                );
            }
            match code {
                KeyCode::Up | KeyCode::Char('k') => Some(step_menu(entries, *selected, false)),
                KeyCode::Down | KeyCode::Char('j') => Some(step_menu(entries, *selected, true)),
                _ => None,
            }
        },
        Overlay::Settings { selected, .. } => match code {
            KeyCode::Up | KeyCode::Char('k') => Some(up_by(*selected, 1)),
            KeyCode::Down | KeyCode::Char('j') => Some(down_by(*selected, 1, SETTINGS - 1)),
            _ => None,
        },
        Overlay::ThemePicker { selected, .. } => {
            let last = take_off(themes, 1);
            match code {
                KeyCode::Up | KeyCode::Char('k') => Some(up_by(*selected, 1)),
                KeyCode::Down | KeyCode::Char('j') => Some(down_by(*selected, 1, last)),
                KeyCode::PageUp => Some(up_by(*selected, 10)),
                KeyCode::PageDown => Some(down_by(*selected, 10, last)),
                KeyCode::Home | KeyCode::Char('g') => Some(0),
                KeyCode::End | KeyCode::Char('G') => Some(last),
                _ => None,
            }
        },
        _ => None,
    }
}

fn says_yes(code: KeyCode) -> (r: bool)
    ensures
        r == yes(code),
{
    code == KeyCode::Char('y') || code == KeyCode::Char('Y')
}

impl App {
    /// Chooses another line of the overlay.
    pub fn choose_line(&mut self, i: usize)
        requires
            sound(old(self)@),
            old(self)@.overlay matches Some(o) ==> crate::scm_app::app::entry_chosen(
                reselected(o, i),
            ),
        ensures
            final(self)@ == (match old(self)@.overlay {
                Some(o) => with_overlay(old(self)@, reselected(o, i)),
                None => old(self)@,
            }),
            sound(final(self)@),
    {
        let next = match self.overlay.take() {
            Some(o) => Some(reselect(o, i)),
            None => None,
        };
        self.overlay = next;
    }

    fn picker_command(&mut self, selected: usize, code: KeyCode, themes: usize) -> (r: Vec<Effect>)
        requires
            sound(old(self)@),
        ensures
            (final(self)@, effects(r@)) == (if code == KeyCode::Esc || code == KeyCode::Char('q') {
                (
                    with_overlay(old(self)@, settings_at(setting_place(Setting::DiffTheme))),
                    Seq::empty(),
                )
            } else if enters(code) {
                theme_chosen(old(self)@, selected, themes)
            } else {
                (old(self)@, Seq::empty())
            }),
            sound(final(self)@),
    {
        if code == KeyCode::Esc || code == KeyCode::Char('q') {
            self.open_settings_at(Setting::DiffTheme);
            return no_effects();
        }
        if code == KeyCode::Enter || code == KeyCode::Char(' ') {
            return self.choose_diff_theme(selected, themes);
        }
        no_effects()
    }

    fn settings_command(&mut self, selected: usize, code: KeyCode, themes: usize) -> (r: Vec<Effect>)
        requires
            sound(old(self)@),
        ensures
            (final(self)@, effects(r@)) == (if code == KeyCode::Esc || code == KeyCode::Char('q')
                || code == KeyCode::Char('s') {
                (without_overlay(old(self)@), Seq::empty())
            } else if enters(code) {
                setting_done(old(self)@, selected, themes)
            } else {
                (old(self)@, Seq::empty())
            }),
            sound(final(self)@),
    {
        if code == KeyCode::Esc || code == KeyCode::Char('q') || code == KeyCode::Char('s') {
            self.overlay = None;
            return no_effects();
        }
        if code == KeyCode::Enter || code == KeyCode::Char(' ') {
            return self.toggle_setting(selected, themes);
        }
        no_effects()
    }

    fn menu_command(&mut self, code: KeyCode) -> (r: Vec<Effect>)
        requires
            sound(old(self)@),
        ensures
            (final(self)@, effects(r@)) == (if code == KeyCode::Esc {
                (without_overlay(old(self)@), Seq::empty())
            } else if code == KeyCode::Enter {
                entry_done(old(self)@)
            } else {
                (old(self)@, Seq::empty())
            }),
            sound(final(self)@),
    {
        if code == KeyCode::Esc {
            self.overlay = None;
            return no_effects();
        }
        if code == KeyCode::Enter {
            return self.activate_menu_entry();
        }
        no_effects()
    }

    fn discard(&mut self, repo: usize, entry: FileEntry) -> (r: Vec<Effect>)
        requires
            sound(old(self)@),
        ensures
            (final(self)@, effects(r@)) == discard_begun(old(self)@, repo, entry@),
            sound(final(self)@),
    {
        if repo < self.repos.len() {
            return one_effect(Effect::Discard(repo, entry));
        }
        self.flash = Some(("repository is gone".to_string(), true));
        one_effect(Effect::Refresh)
    }

    fn answer(&mut self, code: KeyCode) -> (r: Vec<Effect>)
        requires
            sound(old(self)@),
            old(self)@.overlay matches Some(OverlayView::ConfirmDiscard { .. })
                || old(self)@.overlay matches Some(OverlayView::ConfirmGit { .. }),
        ensures
            (final(self)@, effects(r@)) == overlay_command(
                old(self)@,
                old(self)@.overlay->0,
                code,
                0,
            ),
            sound(final(self)@),
    {
        let asked = self.overlay.take();
        if !says_yes(code) {
            return no_effects();
        }
        match asked {
            Some(Overlay::ConfirmDiscard { repo, entry }) => self.discard(repo, entry),
            Some(Overlay::ConfirmGit { repo, args, .. }) => self.run_git(repo, args),
            _ => no_effects(),
        }
    }

    /// A key while something is shown over the list. `themes` is how many diff
    /// themes there are.
    pub fn overlay_key(&mut self, code: KeyCode, themes: usize) -> (r: Vec<Effect>)
        requires
            sound(old(self)@),
        ensures
            (final(self)@, effects(r@)) == overlay_key_step(old(self)@, code, themes),
            sound(final(self)@),
    {
        let next = match &self.overlay {
            Some(o) => move_in(o, code, themes),
            None => {
                return no_effects();
            },
        };
        if let Some(i) = next {
            self.choose_line(i);
            return no_effects();
        }
        let (kind, selected): (u8, usize) = match &self.overlay {
            Some(Overlay::Menu { .. }) => (0, 0),
            Some(Overlay::ThemePicker { selected, .. }) => (1, *selected),
            Some(Overlay::Settings { selected, .. }) => (2, *selected),
            _ => (3, 0),
        };
        if kind == 0 {
            return self.menu_command(code);
        }
        if kind == 1 {
            return self.picker_command(selected, code, themes);
        }
        if kind == 2 {
            return self.settings_command(selected, code, themes);
        }
        self.answer(code)
    }
}

// ---- Messages ----

/// What a key does to a message.
pub open spec fn message_typed(r: RepoView, key: Key) -> RepoView {
    let n = r.message.len() as int;
    let c = r.cursor;
    match key.code {
        KeyCode::Backspace => if c > 0 {
            RepoView { message: r.message.remove(c - 1), cursor: c - 1, ..r }
        } else {
            r
        },
        KeyCode::Delete => if c < n {
            RepoView { message: r.message.remove(c), ..r }
        } else {
            r
        },
        KeyCode::Left => RepoView { cursor: monus(c, 1), ..r },
        KeyCode::Right => RepoView { cursor: least(c + 1, n), ..r },
        KeyCode::Home => RepoView { cursor: 0, ..r },
        KeyCode::End => RepoView { cursor: n, ..r },
        KeyCode::Char(ch) => if key.modifiers.control {
            if ch == 'u' {
                RepoView { message: Seq::empty(), cursor: 0, ..r }
            } else {
                r
            }
        } else {
            RepoView { message: r.message.insert(c, ch), cursor: c + 1, ..r }
        },
        _ => r,
    }
}

/// Where a key moves the focus from the message box.
pub open spec fn focus_from_message(code: KeyCode) -> Focus {
    match code {
        KeyCode::Esc => Focus::List,
        KeyCode::Tab => Focus::Commit,
        KeyCode::BackTab => Focus::List,
        KeyCode::Down => Focus::Commit,
        _ => Focus::Message,
    }
}

/// What a key does in the message box.
pub open spec fn message_key(v: AppView, key: Key) -> Outcome {
    if key.code == KeyCode::Enter {
        commit_begun(v, v.active as usize)
    } else {
        (
            AppView {
                focus: focus_from_message(key.code),
                repos: if v.active < v.repos.len() {
                    v.repos.update(v.active, message_typed(v.repos[v.active], key))
                } else {
                    v.repos
                },
                ..v
            },
            Seq::empty(),
        )
    }
}

impl Repo {
    fn type_in(&mut self, key: Key)
        requires
            cursor_placed(old(self)@),
        ensures
            final(self)@ == message_typed(old(self)@, key),
            cursor_placed(final(self)@),
    {
        let c = self.cursor;
        let n = self.message.len();
        match key.code {
            KeyCode::Backspace => {
                if c > 0 {
                    self.message.remove(c - 1);
                    self.cursor = c - 1;
                }
            },
            KeyCode::Delete => {
                if c < n {
                    self.message.remove(c);
                }
            },
            KeyCode::Left => self.cursor = up_by(c, 1),
            KeyCode::Right => self.cursor = down_by(c, 1, n),
            KeyCode::Home => self.cursor = 0,
            KeyCode::End => self.cursor = n,
            KeyCode::Char(ch) => {
                if key.modifiers.control {
                    if ch == 'u' {
                        self.message = Vec::new();
                        self.cursor = 0;
                        assert(self.message@ =~= Seq::empty());
                    }
                } else {
                    self.message.insert(c, ch);
                    assert(self.message.len() == self.message@.len());
                    self.cursor = c + 1;
                }
            },
            _ => {},
        }
    }
}

impl App {
    /// A key in the message box.
    pub fn on_message_key(&mut self, key: Key) -> (r: Vec<Effect>)
        requires
            sound(old(self)@),
            old(self)@.focus == Focus::Message,
        ensures
            (final(self)@, effects(r@)) == message_key(old(self)@, key),
            sound(final(self)@),
    {
        if key.code == KeyCode::Enter {
            return self.commit();
        }
        self.focus = match key.code {
            KeyCode::Esc => Focus::List,
            KeyCode::Tab => Focus::Commit,
            KeyCode::BackTab => Focus::List,
            KeyCode::Down => Focus::Commit,
            _ => Focus::Message,
        };
        let active = self.active;
        if active >= self.repos.len() {
            return no_effects();
        }
        let ghost all = self@.repos;
        proof {
            assert(all[active as int] == self.repos@[active as int]@);
            lemma_cursors_stay(all, active as int, all[active as int]);
        }
        self.repos[active].type_in(key);
        proof {
            lemma_cursors_stay(all, active as int, message_typed(all[active as int], key));
        }
        assert(repos_view(self.repos@) =~= all.update(
            active as int,
            message_typed(all[active as int], key),
        ));
        no_effects()
    }
}

/// What a key does at the button.
pub open spec fn button_key(v: AppView, code: KeyCode) -> Outcome {
    match code {
        KeyCode::Enter | KeyCode::Char(' ') => commit_begun(v, v.active as usize),
        KeyCode::Esc | KeyCode::Tab | KeyCode::Down => (
            AppView { focus: Focus::List, ..v },
            Seq::empty(),
        ),
        KeyCode::BackTab | KeyCode::Up => (AppView { focus: Focus::Message, ..v }, Seq::empty()),
        _ => (v, Seq::empty()),
    }
}

/// Another view takes the pane, where the views share it.
pub open spec fn switched(v: AppView, view: SideView) -> Answer {
    if !merged(v) || view == SideView::SourceControl {
        (v, Seq::empty(), None)
    } else {
        (
            AppView { settings: Settings { active: view, ..v.settings }, ..v },
            seq![EffectView::SaveSettings],
            Some(Exit::Switch),
        )
    }
}

/// The focus that a key moves to from the list.
pub open spec fn focus_from_list(code: KeyCode) -> Option<Focus> {
    match code {
        KeyCode::Tab => Some(Focus::Message),
        KeyCode::BackTab => Some(Focus::Commit),
        KeyCode::Char('c') => Some(Focus::Message),
        _ => None,
    }
}

/// The view that a key switches to.
pub open spec fn view_of_key(code: KeyCode) -> Option<SideView> {
    match code {
        KeyCode::Char('1') => Some(SideView::Explorer),
        KeyCode::Char('2') => Some(SideView::SourceControl),
        KeyCode::Char('3') => Some(SideView::Search),
        _ => None,
    }
}

/// What a key does to the selection.
pub open spec fn selection_key(v: AppView, code: KeyCode) -> Option<Outcome> {
    match code {
        KeyCode::Up | KeyCode::Char('k') => Some(moved(v, false, 1)),
        KeyCode::Down | KeyCode::Char('j') => Some(moved(v, true, 1)),
        KeyCode::PageUp => Some(moved(v, false, v.page as int)),
        KeyCode::PageDown => Some(moved(v, true, v.page as int)),
        KeyCode::Home | KeyCode::Char('g') => Some(chosen(v, 0)),
        KeyCode::End | KeyCode::Char('G') => Some(chosen(v, monus(v.rows.len() as int, 1))),
        KeyCode::Left | KeyCode::Char('h') => Some(navigated(v, false)),
        KeyCode::Right | KeyCode::Char('l') => Some(navigated(v, true)),
        KeyCode::Enter | KeyCode::Char(' ') => Some(row_done(v)),
        KeyCode::Char('o') => Some(selected_diff_opened(v)),
        _ => None,
    }
}

/// What a key does to the repositories and the sidebar.
pub open spec fn command_key(v: AppView, code: KeyCode) -> Outcome {
    let active = v.active < v.repos.len();
    match code {
        KeyCode::Esc => (
            v,
            if v.pane_id is Some {
                seq![EffectView::ClosePreview]
            } else {
                Seq::empty()
            },
        ),
        KeyCode::Char('a') => (
            v,
            if active {
                all_begun(v.active as usize, true)
            } else {
                Seq::empty()
            },
        ),
        KeyCode::Char('u') => (
            v,
            if active {
                all_begun(v.active as usize, false)
            } else {
                Seq::empty()
            },
        ),
        KeyCode::Char('r') => (v, seq![EffectView::Refresh]),
        KeyCode::Char('i') => themed(v, v.theme.other()),
        KeyCode::Char('A') => (v, suggestion_begun(v)),
        KeyCode::Char('s') => (with_overlay(v, settings_at(0)), Seq::empty()),
        KeyCode::Char('S') => sync_begun(v, v.active),
        KeyCode::Char('b') => hidden(v),
        _ => (v, Seq::empty()),
    }
}

/// The sidebar goes, where it has a pane.
pub open spec fn hidden(v: AppView) -> Outcome {
    (
        v,
        if v.pane_id is Some {
            seq![EffectView::Hide]
        } else {
            Seq::empty()
        },
    )
}

/// What a key does in the list.
pub open spec fn list_key(v: AppView, code: KeyCode) -> Answer {
    if code == KeyCode::Char('q') {
        (v, Seq::empty(), Some(Exit::Quit))
    } else if view_of_key(code) is Some {
        switched(v, view_of_key(code)->0)
    } else if focus_from_list(code) is Some {
        (AppView { focus: focus_from_list(code)->0, ..v }, Seq::empty(), None)
    } else if selection_key(v, code) is Some {
        stay(selection_key(v, code)->0)
    } else {
        stay(command_key(v, code))
    }
}

/// What a key does.
pub open spec fn key_step(v: AppView, key: Key, themes: usize) -> Answer {
    if !key.press {
        (v, Seq::empty(), None)
    } else {
        let a = AppView { flash: None, ..v };
        if a.overlay is Some {
            stay(overlay_key_step(a, key.code, themes))
        } else {
            match a.focus {
                Focus::Message => stay(message_key(a, key)),
                Focus::Commit => stay(button_key(a, key.code)),
                Focus::List => list_key(a, key.code),
            }
        }
    }
}

impl App {
    /// A key at the button.
    pub fn on_button_key(&mut self, code: KeyCode) -> (r: Vec<Effect>)
        requires
            sound(old(self)@),
        ensures
            (final(self)@, effects(r@)) == button_key(old(self)@, code),
            sound(final(self)@),
    {
        if code == KeyCode::Enter || code == KeyCode::Char(' ') {
            return self.commit();
        }
        let next = match code {
            KeyCode::Esc | KeyCode::Tab | KeyCode::Down => Focus::List,
            KeyCode::BackTab | KeyCode::Up => Focus::Message,
            _ => self.focus,
        };
        self.focus = next;
        no_effects()
    }

    /// Lets another view take the pane, where the views share it.
    pub fn switch_to(&mut self, view: SideView) -> (r: (Vec<Effect>, Option<Exit>))
        requires
            sound(old(self)@),
        ensures
            (final(self)@, effects((r.0)@), r.1) == switched(old(self)@, view),
            sound(final(self)@),
    {
        if !self.merged() || view == SideView::SourceControl {
            return (no_effects(), None);
        }
        self.settings.active = view;
        (one_effect(Effect::SaveSettings), Some(Exit::Switch))
    }

    /// Closes the sidebar's pane.
    pub fn hide_pane(&self) -> (r: Vec<Effect>)
        ensures
            (self@, effects(r@)) == hidden(self@),
    {
        if self.pane_id.is_some() {
            one_effect(Effect::Hide)
        } else {
            no_effects()
        }
    }

    /// Closes the preview beside the sidebar.
    pub fn close_preview(&self) -> (r: Vec<Effect>)
        ensures
            effects(r@) == (if self@.pane_id is Some {
                seq![EffectView::ClosePreview]
            } else {
                Seq::empty()
            }),
    {
        if self.pane_id.is_some() {
            one_effect(Effect::ClosePreview)
        } else {
            no_effects()
        }
    }

    fn on_selection_key(&mut self, code: KeyCode) -> (r: Option<Vec<Effect>>)
        requires
            sound(old(self)@),
        ensures
            match r {
                Some(e) => selection_key(old(self)@, code) == Some((final(self)@, effects(e@))),
                None => selection_key(old(self)@, code) is None && final(self)@ == old(self)@,
            },
            sound(final(self)@),
    {
        let page = self.page;
        let last = take_off(self.rows.len(), 1);
        match code {
            KeyCode::Up | KeyCode::Char('k') => Some(self.move_by(false, 1)),
            KeyCode::Down | KeyCode::Char('j') => Some(self.move_by(true, 1)),
            KeyCode::PageUp => Some(self.move_by(false, page)),
            KeyCode::PageDown => Some(self.move_by(true, page)),
            KeyCode::Home | KeyCode::Char('g') => Some(self.select(0)),
            KeyCode::End | KeyCode::Char('G') => Some(self.select(last)),
            KeyCode::Left | KeyCode::Char('h') => Some(self.tree_nav(false)),
            KeyCode::Right | KeyCode::Char('l') => Some(self.tree_nav(true)),
            KeyCode::Enter | KeyCode::Char(' ') => Some(self.activate()),
            KeyCode::Char('o') => Some(self.open_selected_diff()),
            _ => None,
        }
    }

    fn on_command_key(&mut self, code: KeyCode) -> (r: Vec<Effect>)
        requires
            sound(old(self)@),
        ensures
            (final(self)@, effects(r@)) == command_key(old(self)@, code),
            sound(final(self)@),
    {
        match code {
            KeyCode::Esc => self.close_preview(),
            KeyCode::Char('a') => self.stage_all(),
            KeyCode::Char('u') => self.unstage_all(),
            KeyCode::Char('r') => self.refresh(),
            KeyCode::Char('i') => {
                let theme = self.theme.toggled();
                self.set_theme(theme)
            },
            KeyCode::Char('A') => self.suggest_message(),
            KeyCode::Char('s') => {
                self.open_settings();
                no_effects()
            },
            KeyCode::Char('S') => self.sync_changes(),
            KeyCode::Char('b') => self.hide_pane(),
            _ => no_effects(),
        }
    }

    /// A key in the list.
    pub fn on_list_key(&mut self, code: KeyCode) -> (r: (Vec<Effect>, Option<Exit>))
        requires
            sound(old(self)@),
        ensures
            (final(self)@, effects((r.0)@), r.1) == list_key(old(self)@, code),
            sound(final(self)@),
    {
        if code == KeyCode::Char('q') {
            return (no_effects(), Some(Exit::Quit));
        }
        if code == KeyCode::Char('1') {
            return self.switch_to(SideView::Explorer);
        }
        if code == KeyCode::Char('2') {
            return self.switch_to(SideView::SourceControl);
        }
        if code == KeyCode::Char('3') {
            return self.switch_to(SideView::Search);
        }
        if code == KeyCode::Tab || code == KeyCode::Char('c') {
            self.focus = Focus::Message;
            return (no_effects(), None);
        }
        if code == KeyCode::BackTab {
            self.focus = Focus::Commit;
            return (no_effects(), None);
        }
        if let Some(e) = self.on_selection_key(code) {
            return (e, None);
        }
        (self.on_command_key(code), None)
    }

    /// A key. `themes` is how many diff themes there are.
    pub fn on_key(&mut self, key: Key, themes: usize) -> (r: (Vec<Effect>, Option<Exit>))
        requires
            sound(old(self)@),
        ensures
            (final(self)@, effects((r.0)@), r.1) == key_step(old(self)@, key, themes),
            sound(final(self)@),
    {
        if !key.press {
            return (no_effects(), None);
        }
        self.flash = None;
        if self.overlay.is_some() {
            return (self.overlay_key(key.code, themes), None);
        }
        match self.focus {
            Focus::Message => (self.on_message_key(key), None),
            Focus::Commit => (self.on_button_key(key.code), None),
            Focus::List => self.on_list_key(key.code),
        }
    }
}

} // verus!
