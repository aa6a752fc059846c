//! Context menus, questions and settings of the source control view.

use vstd::prelude::*;

use crate::change_tree::{Row as TreeRow, RowView};
use crate::git::{EntryView, FileEntry};
use crate::input::{monus, no_rect, take_off, Platform, Rect};
use crate::paths::{join_native, native, native_path, native_under};
use crate::scan::{digits, digits_of};
use crate::scm_app::actions::{diff_opened, history_row, line_opened, ref_at, ref_diff_opened};
use crate::scm_app::app::{
    both, chosen, directory_at, effects, entry_at, flashed, merged, no_effects, one_effect,
    push_effect, rebuilt, sound, App, AppView, Effect, EffectView, Outcome,
};
use crate::scm_app::drawers::{Drawer, DrawerRef, DrawerRefView};
use crate::scm_app::geometry::row_under;
use crate::scm_app::layout::{Row, ScmFileView};
use crate::scm_app::operations::{begin_move, directory_begun, move_effect};
use crate::scm_app::overlay::{
    directory_menu, directory_menu_entries, drawer_menu, drawer_menu_entries, file_menu,
    file_menu_entries, history_file_menu, history_file_menu_entries, menu_view, overlay_view,
    setting_index, setting_in, setting_in_row, setting_place, MenuAction, MenuEntry, MenuEntryView,
    MenuTarget, Overlay, OverlayView, Setting, TargetView,
};
use crate::sidebar::{IconTheme, Settings, SideView};
use crate::text::{cat3, opt_text, text_of, texts};

verus! {

// ---- Opening menus ----

pub open spec fn menu_at(x: u16, y: u16, target: TargetView, entries: Seq<MenuEntryView>) -> OverlayView {
    OverlayView::Menu { x, y, target, entries, selected: 0, rect: no_rect() }
}

pub open spec fn with_overlay(v: AppView, o: OverlayView) -> AppView {
    AppView { overlay: Some(o), ..v }
}

/// The menu of a changed file or directory is opened.
pub open spec fn change_menu(v: AppView, x: u16, y: u16, repo: usize, row: usize, staged: bool) -> AppView {
    match directory_at(v, repo, row, staged) {
        Some(path) => with_overlay(
            v,
            menu_at(x, y, TargetView::Directory { repo, path, staged }, directory_menu(staged)),
        ),
        None => match entry_at(v, repo, row, staged) {
            Some(entry) => with_overlay(
                v,
                menu_at(
                    x,
                    y,
                    TargetView::File { repo, entry, staged },
                    file_menu(entry.letter, staged),
                ),
            ),
            None => v,
        },
    }
}

/// The menu of a drawer's line is opened, where it has one.
pub open spec fn line_menu(v: AppView, x: u16, y: u16, kind: Drawer, index: usize) -> AppView {
    match ref_at(v, kind, index as int) {
        Some(target) => match drawer_menu(kind, target) {
            Some(entries) => with_overlay(
                v,
                menu_at(x, y, TargetView::Drawer { kind, index }, entries),
            ),
            None => v,
        },
        None => v,
    }
}

/// The menu of a file below a drawer's line is opened.
pub open spec fn history_menu(v: AppView, x: u16, y: u16, i: usize) -> AppView {
    match history_row(v, i as int) {
        Some(RowView::File { index, .. }) => if index < v.expanded_ref->0.files.len() {
            with_overlay(
                v,
                menu_at(
                    x,
                    y,
                    TargetView::HistoryFile {
                        repo: v.active as usize,
                        file: v.expanded_ref->0.files[index as int],
                    },
                    history_file_menu(),
                ),
            )
        } else {
            v
        },
        _ => v,
    }
}

/// The menu of a row is opened.
pub open spec fn row_menu(v: AppView, x: u16, y: u16, row: Row) -> AppView {
    match row {
        Row::Staged(r, i) => change_menu(v, x, y, r, i, true),
        Row::Unstaged(r, i) => change_menu(v, x, y, r, i, false),
        Row::DrawerLine(kind, i) => line_menu(v, x, y, kind, i),
        Row::HistoryTree(i) => history_menu(v, x, y, i),
        _ => v,
    }
}

/// The menu of the row under the mouse is opened, and the row is selected.
pub open spec fn context_menu(v: AppView, x: u16, y: u16) -> Outcome {
    match row_under(v, y) {
        None => (v, Seq::empty()),
        Some(index) => if v.rows[index as int] is RepoSeparator {
            (v, Seq::empty())
        } else {
            let (a, e) = chosen(v, index as int);
            (row_menu(a, x, y, v.rows[index as int]), e)
        },
    }
}

fn menu_over(x: u16, y: u16, target: MenuTarget, entries: Vec<MenuEntry>) -> (r: Option<Overlay>)
    ensures
        overlay_view(r) == Some(menu_at(x, y, target@, menu_view(entries@))),
{
    Some(Overlay::Menu { x, y, target, entries, selected: 0, rect: Rect::default() })
}

impl App {
    fn change_menu(&self, x: u16, y: u16, repo: usize, row: usize, staged: bool) -> (r: Option<Overlay>)
        ensures
            change_menu(self@, x, y, repo, row, staged) == (match r {
                Some(o) => with_overlay(self@, o@),
                None => self@,
            }),
            r matches Some(o) ==> crate::scm_app::app::entry_chosen(o@),
    {
        if let Some(path) = self.status_directory(repo, row, staged) {
            return menu_over(
                x,
                y,
                MenuTarget::Directory { repo, path, staged },
                directory_menu_entries(staged),
            );
        }
        match self.status_entry(repo, row, staged) {
            Some(e) => {
                let entry = e.clone();
                let entries = file_menu_entries(entry.letter, staged);
                menu_over(x, y, MenuTarget::File { repo, entry, staged }, entries)
            },
            None => None,
        }
    }

    fn line_menu(&self, x: u16, y: u16, kind: Drawer, index: usize) -> (r: Option<Overlay>)
        requires
            sound(self@),
        ensures
            line_menu(self@, x, y, kind, index) == (match r {
                Some(o) => with_overlay(self@, o@),
                None => self@,
            }),
            r matches Some(o) ==> crate::scm_app::app::entry_chosen(o@),
    {
        let target = match self.drawer_ref(kind, index) {
            Some(target) => target,
            None => {
                return None;
            },
        };
        match drawer_menu_entries(kind, &target) {
            Some(entries) => menu_over(x, y, MenuTarget::Drawer { kind, index }, entries),
            None => None,
        }
    }

    fn history_menu(&self, x: u16, y: u16, i: usize) -> (r: Option<Overlay>)
        ensures
            history_menu(self@, x, y, i) == (match r {
                Some(o) => with_overlay(self@, o@),
                None => self@,
            }),
            r matches Some(o) ==> crate::scm_app::app::entry_chosen(o@),
    {
        let index = match self.history_row(i) {
            Some(TreeRow::File { index, .. }) => index,
            _ => {
                return None;
            },
        };
        match &self.expanded_ref {
            Some(e) => {
                assert(e@.files.len() == e.files@.len());
                if index < e.files.len() {
                    let file = e.files[index].clone();
                    menu_over(
                        x,
                        y,
                        MenuTarget::HistoryFile { repo: self.active, file },
                        history_file_menu_entries(),
                    )
                } else {
                    None
                }
            },
            None => None,
        }
    }

    fn menu_for(&self, x: u16, y: u16, row: Row) -> (r: Option<Overlay>)
        requires
            sound(self@),
        ensures
            row_menu(self@, x, y, row) == (match r {
                Some(o) => with_overlay(self@, o@),
                None => self@,
            }),
            r matches Some(o) ==> crate::scm_app::app::entry_chosen(o@),
    {
        match row {
            Row::Staged(r, i) => self.change_menu(x, y, r, i, true),
            Row::Unstaged(r, i) => self.change_menu(x, y, r, i, false),
            Row::DrawerLine(kind, i) => self.line_menu(x, y, kind, i),
            Row::HistoryTree(i) => self.history_menu(x, y, i),
            _ => None,
        }
    }

    /// Opens the menu of the row under the mouse.
    pub fn open_context_menu(&mut self, x: u16, y: u16) -> (r: Vec<Effect>)
        requires
            sound(old(self)@),
        ensures
            (final(self)@, effects(r@)) == context_menu(old(self)@, x, y),
            sound(final(self)@),
    {
        let index = match self.row_at(y) {
            Some(index) => index,
            None => {
                return no_effects();
            },
        };
        proof {
            lemma_under_is_row(self@, y);
        }
        let row = self.rows[index];
        if let Row::RepoSeparator = row {
            return no_effects();
        }
        let e = self.select(index);
        if let Some(o) = self.menu_for(x, y, row) {
            self.overlay = Some(o);
            return e;
        }
        e
    }
}

/// A row under the mouse is one of the rows.
pub proof fn lemma_under_is_row(v: AppView, y: u16)
    ensures
        row_under(v, y) matches Some(i) ==> i < v.rows.len(),
        crate::scm_app::geometry::hit_row(v, y) matches Some((i, _)) ==> i < v.rows.len(),
{
    if v.body.top <= y < v.body.top + v.body.height {
        lemma_below_is_row(v, v.body.offset as int, y - v.body.top);
    }
}

proof fn lemma_below_is_row(v: AppView, i: int, line: int)
    requires
        0 <= i,
    ensures
        crate::scm_app::geometry::row_below(v, i, line) matches Some((k, _)) ==> k < v.rows.len(),
    decreases v.rows.len() - i,
{
    if i < v.rows.len() && line >= crate::scm_app::geometry::height_of(v, v.rows[i]) {
        lemma_below_is_row(v, i + 1, line - crate::scm_app::geometry::height_of(v, v.rows[i]));
    }
}

// ---- What menu entries do ----

/// A repository that is no longer there.
pub open spec fn repo_gone(v: AppView) -> Outcome {
    (flashed(v, "repository is gone"@, true), seq![EffectView::Refresh])
}

/// The directory of a repository, or the folder.
pub open spec fn base_dir(v: AppView, repo: usize) -> Seq<char> {
    if repo < v.repos.len() {
        v.repos[repo as int].root
    } else {
        v.cwd
    }
}

/// What an entry of a changed file's menu does.
pub open spec fn file_action(
    v: AppView,
    action: MenuAction,
    repo: usize,
    e: EntryView,
    staged: bool,
) -> Outcome {
    let rel = native(e.path, v.platform);
    let path = native_under(base_dir(v, repo), rel, v.platform);
    match action {
        MenuAction::StageOrUnstage => if repo < v.repos.len() {
            (v, seq![move_effect(repo, e, staged), EffectView::Refresh])
        } else {
            repo_gone(v)
        },
        MenuAction::OpenDiff => diff_opened(v, repo as int, e, staged),
        MenuAction::Discard => (
            with_overlay(v, OverlayView::ConfirmDiscard { repo, entry: e }),
            Seq::empty(),
        ),
        MenuAction::CopyPath => (v, seq![EffectView::Copy(path)]),
        MenuAction::CopyRelativePath => (v, seq![EffectView::Copy(rel)]),
        MenuAction::Reveal => (v, seq![EffectView::Reveal(path)]),
        MenuAction::OpenExternal => (v, seq![EffectView::OpenExternal(path, rel)]),
        _ => (v, Seq::empty()),
    }
}

/// How git names what a line points at.
pub open spec fn ref_name(r: DrawerRefView) -> Option<Seq<char>> {
    match r {
        DrawerRefView::Commit(h) => Some(h),
        DrawerRefView::Stash(n) => Some("stash@{"@ + digits(n as nat) + "}"@),
        DrawerRefView::Branch { name, .. } => Some(name),
        DrawerRefView::Remote { name, .. } => Some(name),
        DrawerRefView::Tag(t) => Some(t),
        DrawerRefView::Worktree(p) => Some(p),
        DrawerRefView::Nothing => None,
    }
}

/// The command of an entry that git carries out at once.
pub open spec fn git_command(action: MenuAction, name: Seq<char>) -> Option<Seq<Seq<char>>> {
    match action {
        MenuAction::Checkout => Some(seq!["checkout"@, name]),
        MenuAction::MergeInto => Some(seq!["merge"@, "--no-edit"@, name]),
        MenuAction::CherryPick => Some(seq!["cherry-pick"@, name]),
        MenuAction::Revert => Some(seq!["revert"@, "--no-edit"@, name]),
        MenuAction::StashApply => Some(seq!["stash"@, "apply"@, name]),
        MenuAction::StashPop => Some(seq!["stash"@, "pop"@, name]),
        MenuAction::FetchRemote => Some(seq!["fetch"@, name]),
        _ => None,
    }
}

/// The question and the command of an entry that destroys something.
pub open spec fn asked_command(action: MenuAction, name: Seq<char>) -> Option<
    (Seq<char>, Seq<Seq<char>>),
> {
    match action {
        MenuAction::RemoveWorktree => Some(
            ("Remove worktree '"@ + name + "'? (y/N)"@, seq!["worktree"@, "remove"@, name]),
        ),
        MenuAction::ResetHere => Some(
            (
                "Reset current branch to "@ + name + " (mixed)? (y/N)"@,
                seq!["reset"@, "--mixed"@, name],
            ),
        ),
        MenuAction::DeleteBranch => Some(
            ("Delete branch '"@ + name + "'? (y/N)"@, seq!["branch"@, "-D"@, name]),
        ),
        MenuAction::StashDrop => Some(
            ("Drop "@ + name + "? (y/N)"@, seq!["stash"@, "drop"@, name]),
        ),
        MenuAction::DeleteTag => Some(
            ("Delete tag '"@ + name + "'? (y/N)"@, seq!["tag"@, "-d"@, name]),
        ),
        _ => None,
    }
}

/// A git command is run.
pub open spec fn git_run(v: AppView, repo: usize, args: Seq<Seq<char>>) -> Outcome {
    if repo < v.repos.len() {
        (v, seq![EffectView::Run(repo, args)])
    } else {
        repo_gone(v)
    }
}

/// What copying a line's target copies: a remote's address, or the name.
pub open spec fn copied_name(r: DrawerRefView, name: Seq<char>) -> Seq<char> {
    match r {
        DrawerRefView::Remote { url, .. } if url.len() > 0 => url,
        _ => name,
    }
}

/// What an entry of a drawer line's menu does.
pub open spec fn line_action(v: AppView, action: MenuAction, kind: Drawer, index: usize) -> Outcome {
    match ref_at(v, kind, index as int) {
        None => (v, Seq::empty()),
        Some(target) => match ref_name(target) {
            None => (v, Seq::empty()),
            Some(name) => if git_command(action, name) is Some {
                git_run(v, v.active as usize, git_command(action, name)->0)
            } else if asked_command(action, name) is Some {
                let (prompt, args) = asked_command(action, name)->0;
                (
                    with_overlay(
                        v,
                        OverlayView::ConfirmGit { repo: v.active as usize, prompt, args },
                    ),
                    Seq::empty(),
                )
            } else {
                match action {
                    MenuAction::OpenDiff => if kind == Drawer::FileHistory {
                        line_opened(v, kind, index)
                    } else {
                        (v, Seq::empty())
                    },
                    MenuAction::ShowRef => line_opened(v, kind, index),
                    MenuAction::Reveal => (v, seq![EffectView::Reveal(name)]),
                    MenuAction::CopyRef => (v, seq![EffectView::Copy(copied_name(target, name))]),
                    _ => (v, Seq::empty()),
                }
            },
        },
    }
}

/// What a menu's entry does.
pub open spec fn entry_action(v: AppView, action: MenuAction, target: TargetView) -> Outcome {
    match target {
        TargetView::File { repo, entry, staged } => file_action(v, action, repo, entry, staged),
        TargetView::Drawer { kind, index } => line_action(v, action, kind, index),
        TargetView::Directory { repo, path, staged } => match action {
            MenuAction::StageOrUnstage => directory_begun(v, repo, path, staged),
            MenuAction::CopyRelativePath => (v, seq![EffectView::Copy(native(path, v.platform))]),
            _ => (v, Seq::empty()),
        },
        TargetView::HistoryFile { repo, file } => match action {
            MenuAction::OpenDiff => ref_diff_opened(v, repo as int, file),
            MenuAction::CopyRelativePath => (
                v,
                seq![EffectView::Copy(native(file.entry.path, v.platform))],
            ),
            _ => (v, Seq::empty()),
        },
    }
}

/// The chosen entry of a menu is carried out, and the menu goes.
pub open spec fn entry_done(v: AppView) -> Outcome {
    match v.overlay {
        Some(OverlayView::Menu { target, entries, selected, .. }) => {
            let a = AppView { overlay: None, ..v };
            match entries[selected as int] {
                MenuEntryView::Action(action, _) => entry_action(a, action, target),
                MenuEntryView::Separator => (a, Seq::empty()),
            }
        },
        _ => (AppView { overlay: None, ..v }, Seq::empty()),
    }
}

fn words2(a: &str, b: &str) -> (r: Vec<String>)
    ensures
        texts(r@) == seq![a@, b@],
{
    let mut v: Vec<String> = Vec::new();
    v.push(a.to_string());
    v.push(b.to_string());
    assert(texts(v@) =~= seq![a@, b@]);
    v
}

fn words3(a: &str, b: &str, c: &str) -> (r: Vec<String>)
    ensures
        texts(r@) == seq![a@, b@, c@],
{
    let mut v: Vec<String> = Vec::new();
    v.push(a.to_string());
    v.push(b.to_string());
    v.push(c.to_string());
    assert(texts(v@) =~= seq![a@, b@, c@]);
    v
}

fn command_of(action: MenuAction, name: &str) -> (r: Option<Vec<String>>)
    ensures
        (match r {
            Some(v) => Some(texts(v@)),
            None => None,
        }) == git_command(action, name@),
{
    match action {
        MenuAction::Checkout => Some(words2("checkout", name)),
        MenuAction::MergeInto => Some(words3("merge", "--no-edit", name)),
        MenuAction::CherryPick => Some(words2("cherry-pick", name)),
        MenuAction::Revert => Some(words3("revert", "--no-edit", name)),
        MenuAction::StashApply => Some(words3("stash", "apply", name)),
        MenuAction::StashPop => Some(words3("stash", "pop", name)),
        MenuAction::FetchRemote => Some(words2("fetch", name)),
        _ => None,
    }
}

fn question_of(action: MenuAction, name: &str) -> (r: Option<(String, Vec<String>)>)
    ensures
        (match r {
            Some((p, v)) => Some((p@, texts(v@))),
            None => None,
        }) == asked_command(action, name@),
{
    match action {
        MenuAction::RemoveWorktree => Some(
            (cat3("Remove worktree '", name, "'? (y/N)"), words3("worktree", "remove", name)),
        ),
        MenuAction::ResetHere => Some(
            (
                cat3("Reset current branch to ", name, " (mixed)? (y/N)"),
                words3("reset", "--mixed", name),
            ),
        ),
        MenuAction::DeleteBranch => Some(
            (cat3("Delete branch '", name, "'? (y/N)"), words3("branch", "-D", name)),
        ),
        MenuAction::StashDrop => Some(
            (cat3("Drop ", name, "? (y/N)"), words3("stash", "drop", name)),
        ),
        MenuAction::DeleteTag => Some(
            (cat3("Delete tag '", name, "'? (y/N)"), words3("tag", "-d", name)),
        ),
        _ => None,
    }
}

fn name_of(target: &DrawerRef) -> (r: Option<String>)
    ensures
        opt_text(r) == ref_name(target@),
{
    match target {
        DrawerRef::Commit(h) => Some(h.clone()),
        DrawerRef::Stash(n) => {
            let d = text_of(&digits_of(*n));
            Some(cat3("stash@{", d.as_str(), "}"))
        },
        DrawerRef::Branch { name, .. } => Some(name.clone()),
        DrawerRef::Remote { name, .. } => Some(name.clone()),
        DrawerRef::Tag(t) => Some(t.clone()),
        DrawerRef::Worktree(p) => Some(p.clone()),
        DrawerRef::Nothing => None,
    }
}

impl App {
    fn base_dir(&self, repo: usize) -> (r: String)
        ensures
            r@ == base_dir(self@, repo),
    {
        if repo < self.repos.len() {
            assert(self@.repos[repo as int] == self.repos@[repo as int]@);
            self.repos[repo].git.root().to_string()
        } else {
            self.cwd.clone()
        }
    }

    fn gone(&mut self) -> (r: Vec<Effect>)
        requires
            sound(old(self)@),
        ensures
            (final(self)@, effects(r@)) == repo_gone(old(self)@),
            sound(final(self)@),
    {
        self.flash = Some(("repository is gone".to_string(), true));
        one_effect(Effect::Refresh)
    }

    /// Carries out an entry of a changed file's menu.
    pub fn file_menu_action(&mut self, action: MenuAction, repo: usize, entry: FileEntry, staged: bool) -> (r:
        Vec<Effect>)
        requires
            sound(old(self)@),
        ensures
            (final(self)@, effects(r@)) == file_action(old(self)@, action, repo, entry@, staged),
            sound(final(self)@),
    {
        match action {
            MenuAction::StageOrUnstage => if repo < self.repos.len() {
                begin_move(repo, entry, staged)
            } else {
                self.gone()
            },
            MenuAction::OpenDiff => self.open_diff(repo, &entry, staged),
            MenuAction::Discard => {
                self.overlay = Some(Overlay::ConfirmDiscard { repo, entry });
                no_effects()
            },
            MenuAction::CopyPath => {
                let dir = self.base_dir(repo);
                let rel = native_path(entry.path.as_str(), self.platform);
                one_effect(Effect::Copy(join_native(dir.as_str(), rel.as_str(), self.platform)))
            },
            MenuAction::CopyRelativePath => one_effect(
                Effect::Copy(native_path(entry.path.as_str(), self.platform)),
            ),
            MenuAction::Reveal => {
                let dir = self.base_dir(repo);
                let rel = native_path(entry.path.as_str(), self.platform);
                one_effect(Effect::Reveal(join_native(dir.as_str(), rel.as_str(), self.platform)))
            },
            MenuAction::OpenExternal => {
                let dir = self.base_dir(repo);
                let rel = native_path(entry.path.as_str(), self.platform);
                let path = join_native(dir.as_str(), rel.as_str(), self.platform);
                one_effect(Effect::OpenExternal(path, rel))
            },
            _ => no_effects(),
        }
    }

    /// Runs a git command.
    pub fn run_git(&mut self, repo: usize, args: Vec<String>) -> (r: Vec<Effect>)
        requires
            sound(old(self)@),
        ensures
            (final(self)@, effects(r@)) == git_run(old(self)@, repo, texts(args@)),
            sound(final(self)@),
    {
        if repo < self.repos.len() {
            one_effect(Effect::Run(repo, args))
        } else {
            self.gone()
        }
    }

    /// Carries out an entry of a drawer line's menu.
    pub fn drawer_menu_action(&mut self, action: MenuAction, kind: Drawer, index: usize) -> (r: Vec<Effect>)
        requires
            sound(old(self)@),
        ensures
            (final(self)@, effects(r@)) == line_action(old(self)@, action, kind, index),
            sound(final(self)@),
    {
        let target = match self.drawer_ref(kind, index) {
            Some(target) => target,
            None => {
                return no_effects();
            },
        };
        let name = match name_of(&target) {
            Some(name) => name,
            None => {
                return no_effects();
            },
        };
        let active = self.active;
        if let Some(args) = command_of(action, name.as_str()) {
            return self.run_git(active, args);
        }
        if let Some((prompt, args)) = question_of(action, name.as_str()) {
            self.overlay = Some(Overlay::ConfirmGit { repo: active, prompt, args });
            return no_effects();
        }
        match action {
            MenuAction::OpenDiff => if kind == Drawer::FileHistory {
                self.open_drawer_ref(kind, index)
            } else {
                no_effects()
            },
            MenuAction::ShowRef => self.open_drawer_ref(kind, index),
            MenuAction::Reveal => one_effect(Effect::Reveal(name)),
            MenuAction::CopyRef => {
                let text = match &target {
                    DrawerRef::Remote { url, .. } => if url.as_str().is_empty() {
                        name
                    } else {
                        url.clone()
                    },
                    _ => name,
                };
                one_effect(Effect::Copy(text))
            },
            _ => no_effects(),
        }
    }

    fn menu_action(&mut self, action: MenuAction, target: MenuTarget) -> (r: Vec<Effect>)
        requires
            sound(old(self)@),
        ensures
            (final(self)@, effects(r@)) == entry_action(old(self)@, action, target@),
            sound(final(self)@),
    {
        match target {
            MenuTarget::File { repo, entry, staged } => self.file_menu_action(
                action,
                repo,
                entry,
                staged,
            ),
            MenuTarget::Drawer { kind, index } => self.drawer_menu_action(action, kind, index),
            MenuTarget::Directory { repo, path, staged } => match action {
                MenuAction::StageOrUnstage => self.run_directory(repo, path.as_str(), staged),
                MenuAction::CopyRelativePath => one_effect(
                    Effect::Copy(native_path(path.as_str(), self.platform)),
                ),
                _ => no_effects(),
            },
            MenuTarget::HistoryFile { repo, file } => match action {
                MenuAction::OpenDiff => self.open_ref_diff(repo, &file),
                MenuAction::CopyRelativePath => one_effect(
                    Effect::Copy(native_path(file.entry.path.as_str(), self.platform)),
                ),
                _ => no_effects(),
            },
        }
    }

    /// Carries out the chosen entry of the menu.
    pub fn activate_menu_entry(&mut self) -> (r: Vec<Effect>)
        requires
            sound(old(self)@),
        ensures
            (final(self)@, effects(r@)) == entry_done(old(self)@),
            sound(final(self)@),
    {
        let open = self.overlay.take();
        if let Some(Overlay::Menu { target, entries, selected, .. }) = open {
            assert(menu_view(entries@).len() == entries@.len());
            assert(menu_view(entries@)[selected as int] == entries@[selected as int]@);
            if let MenuEntry::Action(action, _) = entries[selected] {
                return self.menu_action(action, target);
            }
        }
        no_effects()
    }
}

// ---- Settings ----

pub open spec fn settings_at(selected: usize) -> OverlayView {
    OverlayView::Settings { selected, rect: no_rect() }
}

/// The place of a theme in a list of `count`.
pub open spec fn theme_at(theme: usize, count: usize) -> usize {
    if theme < count {
        theme
    } else {
        0
    }
}

pub open spec fn theme_picker(v: AppView, count: usize) -> OverlayView {
    let at = theme_at(v.settings.diff_theme, count);
    OverlayView::ThemePicker {
        selected: at,
        scroll: monus(at as int, 5) as usize,
        rect: no_rect(),
    }
}

/// The views share the pane from now on, or no longer do.
pub open spec fn unified(v: AppView, on: bool) -> Outcome {
    if on == merged(v) || !v.other {
        (v, Seq::empty())
    } else {
        (
            AppView {
                settings: Settings { merged: on, active: SideView::SourceControl, ..v.settings },
                ..v
            },
            seq![EffectView::SaveSettings, EffectView::Unify(on)],
        )
    }
}

pub open spec fn themed(v: AppView, theme: IconTheme) -> Outcome {
    (
        AppView { theme, settings: Settings { icons: Some(theme), ..v.settings }, ..v },
        seq![EffectView::SaveSettings],
    )
}

pub open spec fn other_view(view: ScmFileView) -> ScmFileView {
    match view {
        ScmFileView::List => ScmFileView::Tree,
        ScmFileView::Tree => ScmFileView::List,
    }
}

/// A folder is picked, where the system can show a dialog for that.
pub open spec fn picker_opened(v: AppView) -> Outcome {
    if v.platform == Platform::Other {
        (flashed(v, "no native picker here — use c in the Files view"@, true), Seq::empty())
    } else if v.picking {
        (v, Seq::empty())
    } else {
        (
            AppView {
                picking: true,
                ..flashed(v, "folder picker open… (check your other windows)"@, false)
            },
            seq![EffectView::PickFolder],
        )
    }
}

/// A setting is changed. `themes` is how many diff themes there are.
pub open spec fn setting_toggled(v: AppView, setting: Setting, themes: usize) -> Outcome {
    let s = v.settings;
    let saved = seq![EffectView::SaveSettings];
    match setting {
        Setting::UnifiedSidebar => if v.other {
            unified(AppView { overlay: None, ..v }, !merged(v))
        } else {
            (v, Seq::empty())
        },
        Setting::IconTheme => themed(v, v.theme.other()),
        Setting::DiffTheme => (with_overlay(v, theme_picker(v, themes)), Seq::empty()),
        Setting::ScmView => {
            let (a, e) = rebuilt(
                AppView {
                    settings: Settings { scm_file_view: other_view(s.scm_file_view), ..s },
                    ..v
                },
            );
            (a, saved + e)
        },
        Setting::Folder => picker_opened(AppView { overlay: None, ..v }),
        _ => (AppView { settings: flipped(s, setting), ..v }, saved),
    }
}

/// The settings with one that is on or off the other way.
pub open spec fn flipped(s: Settings, setting: Setting) -> Settings {
    match setting {
        Setting::HideUnmodified => Settings { hide_unmodified: !s.hide_unmodified, ..s },
        Setting::Hotkeys => Settings { show_hotkeys: !s.show_hotkeys, ..s },
        Setting::AutoOpen => Settings { auto_open: !s.auto_open, ..s },
        _ => s,
    }
}

fn flipped_settings(s: Settings, setting: Setting) -> (r: Settings)
    ensures
        r == flipped(s, setting),
{
    match setting {
        Setting::HideUnmodified => Settings { hide_unmodified: !s.hide_unmodified, ..s },
        Setting::Hotkeys => Settings { show_hotkeys: !s.show_hotkeys, ..s },
        Setting::AutoOpen => Settings { auto_open: !s.auto_open, ..s },
        _ => s,
    }
}

pub open spec fn setting_done(v: AppView, index: usize, themes: usize) -> Outcome {
    match setting_in(index as int) {
        Some(setting) => setting_toggled(v, setting, themes),
        None => (v, Seq::empty()),
    }
}

/// A diff theme is chosen.
pub open spec fn theme_chosen(v: AppView, index: usize, themes: usize) -> Outcome {
    if index < themes {
        (
            with_overlay(
                AppView { settings: Settings { diff_theme: index, ..v.settings }, ..v },
                settings_at(setting_place(Setting::DiffTheme)),
            ),
            seq![EffectView::SaveSettings],
        )
    } else {
        (v, Seq::empty())
    }
}

impl App {
    pub fn open_settings(&mut self)
        requires
            sound(old(self)@),
        ensures
            final(self)@ == with_overlay(old(self)@, settings_at(0)),
            sound(final(self)@),
    {
        self.overlay = Some(Overlay::Settings { selected: 0, rect: Rect::default() });
    }

    pub fn open_settings_at(&mut self, setting: Setting)
        requires
            sound(old(self)@),
        ensures
            final(self)@ == with_overlay(old(self)@, settings_at(setting_place(setting))),
            sound(final(self)@),
    {
        let selected = setting_index(setting);
        self.overlay = Some(Overlay::Settings { selected, rect: Rect::default() });
    }

    pub fn open_theme_picker(&mut self, themes: usize)
        requires
            sound(old(self)@),
        ensures
            final(self)@ == with_overlay(old(self)@, theme_picker(old(self)@, themes)),
            sound(final(self)@),
    {
        let selected = crate::syntax::place_in(self.settings.diff_theme, themes);
        self.overlay = Some(
            Overlay::ThemePicker {
                selected,
                scroll: take_off(selected, 5),
                rect: Rect::default(),
            },
        );
    }

    /// Lets the views share the pane, or parts them.
    pub fn set_unified(&mut self, on: bool) -> (r: Vec<Effect>)
        requires
            sound(old(self)@),
        ensures
            (final(self)@, effects(r@)) == unified(old(self)@, on),
            sound(final(self)@),
    {
        if on == self.merged() || !self.other {
            return no_effects();
        }
        self.settings.merged = on;
        self.settings.active = SideView::SourceControl;
        let mut e = one_effect(Effect::SaveSettings);
        push_effect(&mut e, Effect::Unify(on));
        assert(effects(e@) =~= seq![EffectView::SaveSettings, EffectView::Unify(on)]);
        e
    }

    /// Draws icons in another way from now on.
    pub fn set_theme(&mut self, theme: IconTheme) -> (r: Vec<Effect>)
        requires
            sound(old(self)@),
        ensures
            (final(self)@, effects(r@)) == themed(old(self)@, theme),
            sound(final(self)@),
    {
        self.theme = theme;
        self.settings.icons = Some(theme);
        one_effect(Effect::SaveSettings)
    }

    /// Lets a folder be picked.
    pub fn change_folder_dialog(&mut self) -> (r: Vec<Effect>)
        requires
            sound(old(self)@),
        ensures
            (final(self)@, effects(r@)) == picker_opened(old(self)@),
            sound(final(self)@),
    {
        if self.platform == Platform::Other {
            self.flash = Some(
                ("no native picker here — use c in the Files view".to_string(), true),
            );
            return no_effects();
        }
        if self.picking {
            return no_effects();
        }
        self.picking = true;
        self.flash = Some(
            ("folder picker open… (check your other windows)".to_string(), false),
        );
        one_effect(Effect::PickFolder)
    }

    /// Changes a setting.
    pub fn toggle_setting(&mut self, index: usize, themes: usize) -> (r: Vec<Effect>)
        requires
            sound(old(self)@),
        ensures
            (final(self)@, effects(r@)) == setting_done(old(self)@, index, themes),
            sound(final(self)@),
    {
        let setting = match setting_in_row(index) {
            Some(setting) => setting,
            None => {
                return no_effects();
            },
        };
        if setting == Setting::UnifiedSidebar {
            if !self.other {
                return no_effects();
            }
            self.overlay = None;
            let on = !self.merged();
            return self.set_unified(on);
        }
        if setting == Setting::IconTheme {
            let theme = self.theme.toggled();
            return self.set_theme(theme);
        }
        if setting == Setting::DiffTheme {
            self.open_theme_picker(themes);
            return no_effects();
        }
        if setting == Setting::ScmView {
            return self.toggle_file_view();
        }
        if setting == Setting::Folder {
            self.overlay = None;
            return self.change_folder_dialog();
        }
        self.settings = flipped_settings(self.settings, setting);
        one_effect(Effect::SaveSettings)
    }

    fn toggle_file_view(&mut self) -> (r: Vec<Effect>)
        requires
            sound(old(self)@),
        ensures
            (final(self)@, effects(r@)) == setting_toggled(old(self)@, Setting::ScmView, 0),
            sound(final(self)@),
    {
        self.settings.scm_file_view = match self.settings.scm_file_view {
            ScmFileView::List => ScmFileView::Tree,
            ScmFileView::Tree => ScmFileView::List,
        };
        let saved = one_effect(Effect::SaveSettings);
        let e = self.rebuild();
        both(saved, e)
    }

    /// Takes a diff theme.
    pub fn choose_diff_theme(&mut self, index: usize, themes: usize) -> (r: Vec<Effect>)
        requires
            sound(old(self)@),
        ensures
            (final(self)@, effects(r@)) == theme_chosen(old(self)@, index, themes),
            sound(final(self)@),
    {
        if index >= themes {
            return no_effects();
        }
        self.settings.diff_theme = index;
        self.open_settings_at(Setting::DiffTheme);
        one_effect(Effect::SaveSettings)
    }
}

} // verus!
