//! The operations on repositories that keys and the mouse begin.

use vstd::prelude::*;

use crate::change_tree::{dir_paths, tree_items, walk};
use crate::git::{entries, EntryView, FileEntry};
use crate::input::least;
use crate::scan::{less, lex_less, trim, trimmed, Class};
use crate::scm_app::actions::{
    directory_toggled, history_directory_toggled, history_file_opened, history_row, line_opened,
    selected_row,
};
use crate::scm_app::app::{
    changes, chosen, cursor_placed, cursors_placed, directory_at, effects, entry_at, flashed,
    lemma_cursors_stay, lemma_row_is_named, no_effects, one_effect, panel, push_effect, rebuilt,
    row_path, sound, App, AppView, Effect, EffectView, Outcome,
};
use crate::scm_app::drawers::{drawer_index, Drawer};
use crate::scm_app::layout::{
    directory_pathspecs, header_row, numbered_paths, outside_sources, place_of, status_header_index,
    Row,
};
use crate::scm_app::state::{
    panels_view, repos_view, tree_of, Focus, PanelView, Repo, RepoView,
};
use crate::text::{chars_of, lower, lowercase, opt_text, text_of, texts};

verus! {

// ---- Sections ----

/// A section's header is selected, or that of the other changes.
pub open spec fn header_chosen(v: AppView, repo: usize, staged: bool) -> Outcome {
    match place_of(v.rows, header_row(repo, staged)) {
        Some(i) => chosen(v, i as int),
        None => match place_of(v.rows, header_row(repo, false)) {
            Some(i) => chosen(v, i as int),
            None => (v, Seq::empty()),
        },
    }
}

/// The rows among the first `n` that show a change of this section, with their
/// paths in lower case.
pub open spec fn section_paths(v: AppView, repo: usize, staged: bool, n: int) -> Seq<(usize, Seq<char>)>
    decreases n,
{
    if n <= 0 {
        Seq::empty()
    } else {
        let rest = section_paths(v, repo, staged, n - 1);
        match path_in_section(v, repo, staged, v.rows[n - 1]) {
            Some(path) => rest.push(((n - 1) as usize, lower(path))),
            None => rest,
        }
    }
}

pub open spec fn path_in_section(v: AppView, repo: usize, staged: bool, row: Row) -> Option<Seq<char>> {
    match row {
        Row::Staged(r, i) if staged && r == repo => row_path(v, r, i, true),
        Row::Unstaged(r, i) if !staged && r == repo => row_path(v, r, i, false),
        _ => None,
    }
}

/// The first of the least paths that are not before `from`.
pub open spec fn first_from(paths: Seq<(usize, Seq<char>)>, from: Seq<char>) -> Option<(usize, Seq<char>)>
    decreases paths.len(),
{
    if paths.len() == 0 {
        None
    } else {
        let rest = first_from(paths.drop_last(), from);
        let p = paths.last();
        if lex_less(p.1, from) {
            rest
        } else {
            match rest {
                Some(b) => if lex_less(p.1, b.1) {
                    Some(p)
                } else {
                    rest
                },
                None => Some(p),
            }
        }
    }
}

/// The last of the greatest paths.
pub open spec fn last_of_all(paths: Seq<(usize, Seq<char>)>) -> Option<(usize, Seq<char>)>
    decreases paths.len(),
{
    if paths.len() == 0 {
        None
    } else {
        let rest = last_of_all(paths.drop_last());
        let p = paths.last();
        match rest {
            Some(b) => if lex_less(p.1, b.1) {
                rest
            } else {
                Some(p)
            },
            None => Some(p),
        }
    }
}

/// The row that stands where a path stood: the next path in order, or else the
/// last, or else the section's header.
pub open spec fn near_row(v: AppView, repo: usize, staged: bool, preferred: Seq<char>) -> Option<usize> {
    let paths = section_paths(v, repo, staged, v.rows.len() as int);
    match first_from(paths, lower(preferred)) {
        Some(p) => Some(p.0),
        None => match last_of_all(paths) {
            Some(p) => Some(p.0),
            None => match place_of(v.rows, header_row(repo, staged)) {
                Some(i) => Some(i),
                None => if staged {
                    place_of(v.rows, header_row(repo, false))
                } else {
                    None
                },
            },
        },
    }
}

pub open spec fn near_chosen(v: AppView, repo: usize, staged: bool, preferred: Seq<char>) -> Outcome {
    match near_row(v, repo, staged, preferred) {
        Some(i) => chosen(v, i as int),
        None => (v, Seq::empty()),
    }
}

pub open spec fn paths_view(v: Seq<(usize, Vec<char>)>) -> Seq<(usize, Seq<char>)> {
    v.map_values(|p: (usize, Vec<char>)| (p.0, p.1@))
}

fn find_first_from(paths: &Vec<(usize, Vec<char>)>, from: &[char]) -> (r: Option<usize>)
    ensures
        r == (match first_from(paths_view(paths@), from@) {
            Some(p) => Some(p.0),
            None => None,
        }),
{
    let ghost all = paths_view(paths@);
    let mut best: Option<usize> = None;
    let mut i: usize = 0;
    assert(all.take(0) =~= Seq::empty());
    while i < paths.len()
        invariant
            i <= paths@.len(),
            all == paths_view(paths@),
            match best {
                Some(k) => k < i && first_from(all.take(i as int), from@) == Some(all[k as int]),
                None => first_from(all.take(i as int), from@) is None,
            },
        decreases paths@.len() - i,
    {
        assert(all.take(i + 1).drop_last() =~= all.take(i as int));
        assert(all.take(i + 1).last() == all[i as int]);
        if !less(&paths[i].1, from) {
            let better = match best {
                Some(k) => less(&paths[i].1, &paths[k].1),
                None => true,
            };
            if better {
                best = Some(i);
            }
        }
        i += 1;
    }
    assert(all.take(i as int) =~= all);
    match best {
        Some(k) => Some(paths[k].0),
        None => None,
    }
}

fn find_last_of_all(paths: &Vec<(usize, Vec<char>)>) -> (r: Option<usize>)
    ensures
        r == (match last_of_all(paths_view(paths@)) {
            Some(p) => Some(p.0),
            None => None,
        }),
{
    let ghost all = paths_view(paths@);
    let mut best: Option<usize> = None;
    let mut i: usize = 0;
    assert(all.take(0) =~= Seq::empty());
    while i < paths.len()
        invariant
            i <= paths@.len(),
            all == paths_view(paths@),
            match best {
                Some(k) => k < i && last_of_all(all.take(i as int)) == Some(all[k as int]),
                None => last_of_all(all.take(i as int)) is None,
            },
        decreases paths@.len() - i,
    {
        assert(all.take(i + 1).drop_last() =~= all.take(i as int));
        assert(all.take(i + 1).last() == all[i as int]);
        let better = match best {
            Some(k) => !less(&paths[i].1, &paths[k].1),
            None => true,
        };
        if better {
            best = Some(i);
        }
        i += 1;
    }
    assert(all.take(i as int) =~= all);
    match best {
        Some(k) => Some(paths[k].0),
        None => None,
    }
}

impl App {
    /// Selects a section's header, or that of the other changes.
    pub fn select_status_header(&mut self, repo: usize, staged: bool) -> (r: Vec<Effect>)
        requires
            sound(old(self)@),
        ensures
            (final(self)@, effects(r@)) == header_chosen(old(self)@, repo, staged),
            sound(final(self)@),
    {
        match status_header_index(&self.rows, repo, staged) {
            Some(i) => self.select(i),
            None => match status_header_index(&self.rows, repo, false) {
                Some(i) => self.select(i),
                None => no_effects(),
            },
        }
    }

    fn section_path(&self, repo: usize, staged: bool, row: Row) -> (r: Option<String>)
        ensures
            opt_text(r) == path_in_section(self@, repo, staged, row),
    {
        match row {
            Row::Staged(r, i) => if staged && r == repo {
                self.status_row_path(r, i, true)
            } else {
                None
            },
            Row::Unstaged(r, i) => if !staged && r == repo {
                self.status_row_path(r, i, false)
            } else {
                None
            },
            _ => None,
        }
    }

    fn list_section_paths(&self, repo: usize, staged: bool) -> (r: Vec<(usize, Vec<char>)>)
        ensures
            paths_view(r@) == section_paths(self@, repo, staged, self@.rows.len() as int),
    {
        let mut out: Vec<(usize, Vec<char>)> = Vec::new();
        let mut i: usize = 0;
        assert(paths_view(out@) =~= Seq::empty());
        while i < self.rows.len()
            invariant
                i <= self.rows@.len(),
                paths_view(out@) == section_paths(self@, repo, staged, i as int),
            decreases self.rows@.len() - i,
        {
            let ghost before = paths_view(out@);
            if let Some(path) = self.section_path(repo, staged, self.rows[i]) {
                let low = chars_of(lowercase(path.as_str()).as_str());
                out.push((i, low));
                assert(paths_view(out@) =~= before.push((i, lower(path@))));
            }
            i += 1;
        }
        out
    }

    /// Selects what stands where a path stood.
    pub fn select_nearest_status_row(&mut self, repo: usize, staged: bool, preferred: &str) -> (r: Vec<
        Effect,
    >)
        requires
            sound(old(self)@),
        ensures
            (final(self)@, effects(r@)) == near_chosen(old(self)@, repo, staged, preferred@),
            sound(final(self)@),
    {
        let paths = self.list_section_paths(repo, staged);
        let from = chars_of(lowercase(preferred).as_str());
        let found = match find_first_from(&paths, &from) {
            Some(i) => Some(i),
            None => find_last_of_all(&paths),
        };
        let found = match found {
            Some(i) => Some(i),
            None => match status_header_index(&self.rows, repo, staged) {
                Some(i) => Some(i),
                None => if staged {
                    status_header_index(&self.rows, repo, false)
                } else {
                    None
                },
            },
        };
        match found {
            Some(i) => self.select(i),
            None => no_effects(),
        }
    }
}

// ---- Staging ----

/// A changed file is staged, or unstaged.
pub open spec fn op_begun(v: AppView, repo: usize, row: usize, staged: bool) -> Outcome {
    match entry_at(v, repo, row, staged) {
        Some(e) => (v, seq![move_effect(repo, e, staged), EffectView::Refresh]),
        None => (v, Seq::empty()),
    }
}

pub open spec fn move_effect(repo: usize, e: EntryView, staged: bool) -> EffectView {
    if staged {
        EffectView::Unstage(repo, e)
    } else {
        EffectView::Stage(repo, e)
    }
}

/// Everything below a directory is staged, or unstaged.
pub open spec fn directory_begun(v: AppView, repo: usize, path: Seq<char>, staged: bool) -> Outcome {
    if repo < v.repos.len() {
        let list = changes(v.repos[repo as int], staged);
        let paths = outside_sources(path, list, list.len() as int);
        (
            v,
            seq![
                if staged {
                    EffectView::UnstagePaths(repo, paths)
                } else {
                    EffectView::StagePaths(repo, paths)
                },
                EffectView::Refresh,
                EffectView::SelectNear(repo, staged, path),
            ],
        )
    } else {
        (v, Seq::empty())
    }
}

/// All changes of a repository are staged, or unstaged.
pub open spec fn all_begun(repo: usize, stage: bool) -> Seq<EffectView> {
    seq![
        if stage {
            EffectView::StageAll(repo)
        } else {
            EffectView::UnstageAll(repo)
        },
        EffectView::Refresh,
        EffectView::SelectHeader(repo, stage),
    ]
}

pub fn begin_move(repo: usize, entry: FileEntry, staged: bool) -> (r: Vec<Effect>)
    ensures
        effects(r@) == seq![move_effect(repo, entry@, staged), EffectView::Refresh],
{
    let mut e = one_effect(
        if staged {
            Effect::Unstage(repo, entry)
        } else {
            Effect::Stage(repo, entry)
        },
    );
    push_effect(&mut e, Effect::Refresh);
    assert(effects(e@) =~= seq![move_effect(repo, entry@, staged), EffectView::Refresh]);
    e
}

pub fn begin_all(repo: usize, stage: bool) -> (r: Vec<Effect>)
    ensures
        effects(r@) == all_begun(repo, stage),
{
    let mut e = one_effect(
        if stage {
            Effect::StageAll(repo)
        } else {
            Effect::UnstageAll(repo)
        },
    );
    push_effect(&mut e, Effect::Refresh);
    push_effect(&mut e, Effect::SelectHeader(repo, stage));
    assert(effects(e@) =~= all_begun(repo, stage));
    e
}

impl App {
    /// Stages or unstages a changed file.
    pub fn run_op(&self, repo: usize, row: usize, staged: bool) -> (r: Vec<Effect>)
        ensures
            (self@, effects(r@)) == op_begun(self@, repo, row, staged),
    {
        match self.status_entry(repo, row, staged) {
            Some(e) => begin_move(repo, e.clone(), staged),
            None => no_effects(),
        }
    }

    /// Stages or unstages everything below a directory.
    pub fn run_directory(&self, repo: usize, path: &str, staged: bool) -> (r: Vec<Effect>)
        ensures
            (self@, effects(r@)) == directory_begun(self@, repo, path@, staged),
    {
        if repo >= self.repos.len() {
            return no_effects();
        }
        let found = &self.repos[repo];
        assert(self@.repos[repo as int] == found@);
        let list = if staged {
            &found.status.staged
        } else {
            &found.status.unstaged
        };
        assert(changes(found@, staged) == entries(list@));
        assert(entries(list@).len() == list@.len());
        let paths = directory_pathspecs(path, list);
        let ghost given = texts(paths@);
        let mut e = one_effect(
            if staged {
                Effect::UnstagePaths(repo, paths)
            } else {
                Effect::StagePaths(repo, paths)
            },
        );
        push_effect(&mut e, Effect::Refresh);
        push_effect(&mut e, Effect::SelectNear(repo, staged, path.to_string()));
        assert(effects(e@) =~= directory_begun(self@, repo, path@, staged).1);
        e
    }

    /// Stages all changes of the active repository.
    pub fn stage_all(&self) -> (r: Vec<Effect>)
        ensures
            effects(r@) == (if self@.active < self@.repos.len() {
                all_begun(self@.active as usize, true)
            } else {
                Seq::empty()
            }),
    {
        if self.active < self.repos.len() {
            begin_all(self.active, true)
        } else {
            no_effects()
        }
    }

    /// Unstages all changes of the active repository.
    pub fn unstage_all(&self) -> (r: Vec<Effect>)
        ensures
            effects(r@) == (if self@.active < self@.repos.len() {
                all_begun(self@.active as usize, false)
            } else {
                Seq::empty()
            }),
    {
        if self.active < self.repos.len() {
            begin_all(self.active, false)
        } else {
            no_effects()
        }
    }
}

// ---- Committing, suggesting and syncing ----

/// A commit is begun, where there is a message and something is staged.
pub open spec fn commit_begun(v: AppView, index: usize) -> Outcome {
    if index >= v.repos.len() {
        (v, Seq::empty())
    } else {
        let r = v.repos[index as int];
        let message = trim(r.message, Class::White);
        if message.len() == 0 {
            (
                AppView {
                    active: index as int,
                    focus: Focus::Message,
                    ..flashed(v, "Commit message is empty."@, true)
                },
                Seq::empty(),
            )
        } else if r.status.staged.len() == 0 {
            (flashed(v, "No staged changes to commit."@, true), Seq::empty())
        } else {
            (v, seq![EffectView::Commit(index, message)])
        }
    }
}

/// How a commit ended. Its message goes only where it was made.
pub open spec fn commit_ended(v: AppView, index: usize, result: Result<Seq<char>, Seq<char>>) -> AppView {
    match result {
        Ok(summary) => if index < v.repos.len() {
            AppView {
                repos: v.repos.update(
                    index as int,
                    RepoView { message: Seq::empty(), cursor: 0, ..v.repos[index as int] },
                ),
                focus: Focus::List,
                ..flashed(v, summary, false)
            }
        } else {
            v
        },
        Err(e) => flashed(v, e, true),
    }
}

pub open spec fn suggestion_begun(v: AppView) -> Seq<EffectView> {
    if v.suggesting || v.active >= v.repos.len() {
        Seq::empty()
    } else {
        seq![EffectView::Suggest(v.active as usize)]
    }
}

/// The changes to suggest a message for were read: how long their diff is without
/// white space around it, and how many new files there are.
pub open spec fn suggestion_read(v: AppView, found: Result<(Seq<char>, nat), Seq<char>>) -> AppView {
    match found {
        Ok((diff, files)) => if trim(diff, Class::White).len() == 0 && files == 0 {
            flashed(v, "no changes to describe"@, true)
        } else {
            AppView { suggesting: true, ..flashed(v, "✧ generating commit message…"@, false) }
        },
        Err(e) => flashed(v, e, true),
    }
}

/// A message was suggested, or could not be.
pub open spec fn suggestion_ended(v: AppView, message: Option<Seq<char>>) -> AppView {
    match message {
        Some(m) => AppView {
            repos: if v.active < v.repos.len() {
                v.repos.update(
                    v.active,
                    RepoView { message: m, cursor: m.len() as int, ..v.repos[v.active] },
                )
            } else {
                v.repos
            },
            focus: Focus::Message,
            suggesting: false,
            ..flashed(v, "✧ suggestion ready — edit or ⏎ to commit"@, false)
        },
        None => AppView { suggesting: false, ..flashed(v, "✧ generation failed"@, true) },
    }
}

pub open spec fn sync_begun(v: AppView, index: int) -> Outcome {
    if v.syncing || index >= v.repos.len() {
        (v, Seq::empty())
    } else if !v.repos[index].status.has_upstream {
        (flashed(v, "no upstream to sync with"@, true), Seq::empty())
    } else {
        (AppView { syncing: true, ..v }, seq![EffectView::Sync(index as usize)])
    }
}

impl App {
    /// Commits what is staged, with the repository's message.
    pub fn commit_repo(&mut self, index: usize) -> (r: Vec<Effect>)
        requires
            sound(old(self)@),
        ensures
            (final(self)@, effects(r@)) == commit_begun(old(self)@, index),
            sound(final(self)@),
    {
        if index >= self.repos.len() {
            return no_effects();
        }
        assert(self@.repos[index as int] == self.repos@[index as int]@);
        let message = trimmed(&self.repos[index].message, Class::White);
        if message.len() == 0 {
            self.active = index;
            self.flash = Some(("Commit message is empty.".to_string(), true));
            self.focus = Focus::Message;
            return no_effects();
        }
        assert(self@.repos[index as int].status.staged.len()
            == self.repos@[index as int].status.staged@.len());
        if self.repos[index].status.staged.len() == 0 {
            self.flash = Some(("No staged changes to commit.".to_string(), true));
            return no_effects();
        }
        one_effect(Effect::Commit(index, text_of(&message)))
    }

    /// Commits what is staged in the active repository.
    pub fn commit(&mut self) -> (r: Vec<Effect>)
        requires
            sound(old(self)@),
        ensures
            (final(self)@, effects(r@)) == commit_begun(old(self)@, old(self)@.active as usize),
            sound(final(self)@),
    {
        let active = self.active;
        self.commit_repo(active)
    }

    /// Goes on after a commit.
    pub fn committed(&mut self, index: usize, result: Result<String, String>) -> (r: Vec<Effect>)
        requires
            sound(old(self)@),
        ensures
            final(self)@ == commit_ended(old(self)@, index, crate::git::outcome(result)),
            effects(r@) == seq![EffectView::Refresh],
            sound(final(self)@),
    {
        match result {
            Ok(summary) => {
                if index < self.repos.len() {
                    let ghost all = self@.repos;
                    assert(all[index as int] == self.repos@[index as int]@);
                    self.flash = Some((summary, false));
                    self.repos[index].message = Vec::new();
                    self.repos[index].cursor = 0;
                    self.focus = Focus::List;
                    assert(self.repos@[index as int]@.message =~= Seq::empty());
                    proof {
                        lemma_cursors_stay(
                            all,
                            index as int,
                            RepoView { message: Seq::empty(), cursor: 0, ..all[index as int] },
                        );
                    }
                    assert(repos_view(self.repos@) =~= all.update(
                        index as int,
                        RepoView { message: Seq::empty(), cursor: 0, ..all[index as int] },
                    ));
                }
            },
            Err(e) => {
                self.flash = Some((e, true));
            },
        }
        one_effect(Effect::Refresh)
    }

    /// Asks for the changes to suggest a message for.
    pub fn suggest_message(&self) -> (r: Vec<Effect>)
        ensures
            effects(r@) == suggestion_begun(self@),
    {
        if self.suggesting || self.active >= self.repos.len() {
            no_effects()
        } else {
            one_effect(Effect::Suggest(self.active))
        }
    }

    /// Begins to suggest a message, where there is something to describe; whether it
    /// did.
    pub fn suggestion_loaded(&mut self, found: Result<(String, usize), String>) -> (r: bool)
        ensures
            final(self)@ == suggestion_read(
                old(self)@,
                match found {
                    Ok((diff, files)) => Ok((diff@, files as nat)),
                    Err(e) => Err(e@),
                },
            ),
            r == (match found {
                Ok((diff, files)) => trim(diff@, Class::White).len() > 0 || files > 0,
                Err(_) => false,
            }),
    {
        match found {
            Ok((diff, files)) => {
                let blank = trimmed(&chars_of(diff.as_str()), Class::White).len() == 0;
                if blank && files == 0 {
                    self.flash = Some(("no changes to describe".to_string(), true));
                    false
                } else {
                    self.suggesting = true;
                    self.flash = Some(("✧ generating commit message…".to_string(), false));
                    true
                }
            },
            Err(e) => {
                self.flash = Some((e, true));
                false
            },
        }
    }

    /// Takes a suggested message, or that there is none.
    pub fn suggested(&mut self, message: Option<String>)
        requires
            sound(old(self)@),
        ensures
            final(self)@ == suggestion_ended(old(self)@, opt_text(message)),
            sound(final(self)@),
    {
        self.suggesting = false;
        match message {
            Some(message) => {
                let active = self.active;
                if active < self.repos.len() {
                    let ghost all = self@.repos;
                    assert(all[active as int] == self.repos@[active as int]@);
                    let v = chars_of(message.as_str());
                    let n = v.len();
                    self.repos[active].message = v;
                    self.repos[active].cursor = n;
                    proof {
                        lemma_cursors_stay(
                            all,
                            active as int,
                            RepoView {
                                message: message@,
                                cursor: message@.len() as int,
                                ..all[active as int]
                            },
                        );
                    }
                    assert(repos_view(self.repos@) =~= all.update(
                        active as int,
                        RepoView {
                            message: message@,
                            cursor: message@.len() as int,
                            ..all[active as int]
                        },
                    ));
                }
                self.focus = Focus::Message;
                self.flash = Some(
                    ("✧ suggestion ready — edit or ⏎ to commit".to_string(), false),
                );
            },
            None => {
                self.flash = Some(("✧ generation failed".to_string(), true));
            },
        }
    }

    /// Begins to sync a repository with its upstream.
    pub fn sync_repo(&mut self, index: usize) -> (r: Vec<Effect>)
        requires
            sound(old(self)@),
        ensures
            (final(self)@, effects(r@)) == sync_begun(old(self)@, index as int),
            sound(final(self)@),
    {
        if self.syncing || index >= self.repos.len() {
            return no_effects();
        }
        assert(self@.repos[index as int] == self.repos@[index as int]@);
        if !self.repos[index].status.has_upstream {
            self.flash = Some(("no upstream to sync with".to_string(), true));
            return no_effects();
        }
        self.syncing = true;
        one_effect(Effect::Sync(index))
    }

    pub fn sync_changes(&mut self) -> (r: Vec<Effect>)
        requires
            sound(old(self)@),
        ensures
            (final(self)@, effects(r@)) == sync_begun(old(self)@, old(self)@.active),
            sound(final(self)@),
    {
        let active = self.active;
        self.sync_repo(active)
    }

    /// How syncing ended; `None` where nothing is known of it.
    pub fn synced(&mut self, result: Option<Result<String, String>>)
        ensures
            final(self)@ == (AppView {
                syncing: false,
                flash: match result {
                    Some(Ok(summary)) => Some((summary@, false)),
                    Some(Err(e)) => Some((e@, true)),
                    None => Some(("sync failed"@, true)),
                },
                ..old(self)@
            }),
    {
        self.syncing = false;
        self.flash = match result {
            Some(Ok(summary)) => Some((summary, false)),
            Some(Err(e)) => Some((e, true)),
            None => Some(("sync failed".to_string(), true)),
        };
    }

    /// How a git command ended that was run as it was given.
    pub fn ran(&mut self, args: &Vec<String>, result: Result<String, String>) -> (r: Vec<Effect>)
        requires
            sound(old(self)@),
        ensures
            final(self)@ == (match result {
                Ok(_) => flashed(
                    old(self)@,
                    "git "@ + crate::text::join(texts(args@), " "@) + " ✓"@,
                    false,
                ),
                Err(e) => flashed(old(self)@, e@, true),
            }),
            effects(r@) == seq![EffectView::Refresh],
            sound(final(self)@),
    {
        match result {
            Ok(_) => {
                let words = joined(args);
                self.flash = Some((crate::text::cat3("git ", words.as_str(), " ✓"), false));
            },
            Err(e) => {
                self.flash = Some((e, true));
            },
        }
        one_effect(Effect::Refresh)
    }

    /// How discarding the changes of a file ended.
    pub fn discarded(&mut self, path: &str, result: Result<(), String>) -> (r: Vec<Effect>)
        requires
            sound(old(self)@),
        ensures
            final(self)@ == (match result {
                Ok(()) => flashed(old(self)@, "discarded "@ + path@, false),
                Err(e) => flashed(old(self)@, e@, true),
            }),
            effects(r@) == seq![EffectView::Refresh],
            sound(final(self)@),
    {
        match result {
            Ok(()) => {
                self.flash = Some((crate::text::cat("discarded ", path), false));
            },
            Err(e) => {
                self.flash = Some((e, true));
            },
        }
        one_effect(Effect::Refresh)
    }

    /// How copying a text ended.
    pub fn copied(&mut self, text: &str, result: Result<(), String>)
        ensures
            final(self)@ == (match result {
                Ok(()) => flashed(old(self)@, "copied: "@ + text@, false),
                Err(e) => flashed(old(self)@, "copy failed: "@ + e@, true),
            }),
    {
        self.flash = Some(
            match result {
                Ok(()) => (crate::text::cat("copied: ", text), false),
                Err(e) => (crate::text::cat("copy failed: ", e.as_str()), true),
            },
        );
    }

    /// How opening a file ended.
    pub fn opened(&mut self, name: &str, result: Result<(), String>)
        ensures
            final(self)@ == (match result {
                Ok(()) => flashed(old(self)@, "opened: "@ + name@, false),
                Err(e) => flashed(old(self)@, "open failed: "@ + e@, true),
            }),
    {
        self.flash = Some(
            match result {
                Ok(()) => (crate::text::cat("opened: ", name), false),
                Err(e) => (crate::text::cat("open failed: ", e.as_str()), true),
            },
        );
    }
}

fn joined(args: &Vec<String>) -> (r: String)
    ensures
        r@ == crate::text::join(texts(args@), " "@),
{
    let ghost all = texts(args@);
    let mut out: Vec<char> = Vec::new();
    let mut i: usize = 0;
    assert(all.take(0) =~= Seq::empty());
    assert(out@ =~= crate::text::join(all.take(0), " "@));
    while i < args.len()
        invariant
            i <= args@.len(),
            all == texts(args@),
            out@ == crate::text::join(all.take(i as int), " "@),
        decreases args@.len() - i,
    {
        proof {
            crate::text::lemma_join_push(all.take(i as int), " "@, all[i as int]);
            assert(all.take(i + 1) =~= all.take(i as int).push(all[i as int]));
        }
        let ghost before = out@;
        if i > 0 {
            crate::text::push_text(&mut out, " ");
        } else {
            assert(before =~= Seq::empty());
        }
        crate::text::push_text(&mut out, args[i].as_str());
        assert(out@ =~= crate::text::join(all.take(i + 1), " "@));
        i += 1;
    }
    assert(all.take(i as int) =~= all);
    text_of(&out)
}

// ---- Collapsing and expanding ----

pub open spec fn all_dirs(list: Seq<EntryView>) -> Set<Seq<char>> {
    dir_paths(walk(tree_items(numbered_paths(list)), Seq::empty(), 0, Set::empty()))
}

pub open spec fn repo_collapsed(r: RepoView) -> RepoView {
    RepoView {
        collapsed: true,
        staged_collapsed: true,
        changes_collapsed: true,
        staged_dirs: r.staged_dirs.union(all_dirs(r.status.staged)),
        changes_dirs: r.changes_dirs.union(all_dirs(r.status.unstaged)),
        ..r
    }
}

pub open spec fn repo_expanded(r: RepoView) -> RepoView {
    RepoView {
        collapsed: false,
        staged_collapsed: false,
        changes_collapsed: false,
        staged_dirs: Set::empty(),
        changes_dirs: Set::empty(),
        ..r
    }
}

/// Every repository is collapsed, with all directories of its changes.
pub open spec fn all_collapsed(v: AppView) -> Outcome {
    rebuilt(
        AppView {
            repos: v.repos.map_values(|r: RepoView| repo_collapsed(r)),
            focus: Focus::List,
            scroll: 0,
            ..v
        },
    )
}

/// Every repository is opened, with all directories of its changes.
pub open spec fn all_expanded(v: AppView) -> Outcome {
    rebuilt(
        AppView { repos: v.repos.map_values(|r: RepoView| repo_expanded(r)), scroll: 0, ..v },
    )
}

pub open spec fn nothing_open(v: AppView) -> bool {
    forall|i: int| 0 <= i < v.repos.len() ==> (#[trigger] v.repos[i]).collapsed
}

impl Repo {
    fn collapse(&mut self)
        ensures
            final(self)@ == repo_collapsed(old(self)@),
    {
        self.collapsed = true;
        self.staged_collapsed = true;
        self.changes_collapsed = true;
        let a = tree_of(&self.status.staged);
        a.collapse_all(&mut self.staged_dirs);
        let b = tree_of(&self.status.unstaged);
        b.collapse_all(&mut self.changes_dirs);
    }

    fn expand(&mut self)
        ensures
            final(self)@ == repo_expanded(old(self)@),
    {
        self.collapsed = false;
        self.staged_collapsed = false;
        self.changes_collapsed = false;
        self.staged_dirs.clear();
        self.changes_dirs.clear();
    }
}

impl App {
    fn fold_repos(&mut self, fold: bool)
        ensures
            final(self)@ == (AppView {
                repos: old(self)@.repos.map_values(
                    |r: RepoView|
                        if fold {
                            repo_collapsed(r)
                        } else {
                            repo_expanded(r)
                        },
                ),
                ..old(self)@
            }),
    {
        let ghost all = self@.repos;
        let mut repos: Vec<Repo> = Vec::new();
        std::mem::swap(&mut repos, &mut self.repos);
        let total = repos.len();
        let mut k: usize = 0;
        while k < total
            invariant
                k <= total,
                total == repos@.len(),
                all.len() == total,
                forall|j: int| 0 <= j < k ==> (#[trigger] repos@[j])@ == (if fold {
                    repo_collapsed(all[j])
                } else {
                    repo_expanded(all[j])
                }),
                forall|j: int| k <= j < total ==> (#[trigger] repos@[j])@ == all[j],
            decreases total - k,
        {
            let ghost before = repos@;
            if fold {
                repos[k].collapse();
            } else {
                repos[k].expand();
            }
            assert forall|j: int| 0 <= j < total && j != k implies #[trigger] repos@[j]
                == before[j] by {};
            k += 1;
        }
        assert(repos_view(repos@) =~= all.map_values(
            |r: RepoView|
                if fold {
                    repo_collapsed(r)
                } else {
                    repo_expanded(r)
                },
        ));
        self.repos = repos;
    }

    /// Collapses every repository. The drawers stay as they are.
    pub fn collapse_all(&mut self) -> (r: Vec<Effect>)
        requires
            sound(old(self)@),
        ensures
            (final(self)@, effects(r@)) == all_collapsed(old(self)@),
            sound(final(self)@),
    {
        self.fold_repos(true);
        proof {
            assert(self@.repos =~= old(self)@.repos.map_values(|r: RepoView| repo_collapsed(r)));
            reveal(cursors_placed);
            assert forall|i: int| 0 <= i < self@.repos.len() implies cursor_placed(
                #[trigger] self@.repos[i],
            ) by {
                assert(cursor_placed(old(self)@.repos[i]));
            }
        }
        self.focus = Focus::List;
        self.scroll = 0;
        self.rebuild()
    }

    /// Opens every repository. The drawers stay as they are.
    pub fn expand_all(&mut self) -> (r: Vec<Effect>)
        requires
            sound(old(self)@),
        ensures
            (final(self)@, effects(r@)) == all_expanded(old(self)@),
            sound(final(self)@),
    {
        self.fold_repos(false);
        proof {
            assert(self@.repos =~= old(self)@.repos.map_values(|r: RepoView| repo_expanded(r)));
            reveal(cursors_placed);
            assert forall|i: int| 0 <= i < self@.repos.len() implies cursor_placed(
                #[trigger] self@.repos[i],
            ) by {
                assert(cursor_placed(old(self)@.repos[i]));
            }
        }
        self.scroll = 0;
        self.rebuild()
    }

    /// Whether every repository is collapsed.
    pub fn fully_collapsed(&self) -> (r: bool)
        ensures
            r == nothing_open(self@),
    {
        let mut i: usize = 0;
        while i < self.repos.len()
            invariant
                i <= self.repos@.len(),
                forall|k: int| 0 <= k < i ==> (#[trigger] self@.repos[k]).collapsed,
            decreases self.repos@.len() - i,
        {
            assert(self@.repos[i as int] == self.repos@[i as int]@);
            if !self.repos[i].collapsed {
                return false;
            }
            i += 1;
        }
        assert(self@.repos.len() == self.repos@.len());
        true
    }
}

/// Collapsing all leaves every repository collapsed, expanding all leaves every
/// repository and directory open, and neither touches the drawers.
pub proof fn law_folding_spares_the_drawers(v: AppView)
    ensures
        nothing_open(all_collapsed(v).0),
        all_collapsed(v).0.drawers == v.drawers,
        forall|i: int|
            0 <= i < v.repos.len() ==> !(#[trigger] all_expanded(v).0.repos[i]).collapsed
                && !all_expanded(v).0.repos[i].staged_collapsed && !all_expanded(
                v,
            ).0.repos[i].changes_collapsed && all_expanded(v).0.repos[i].staged_dirs == Set::<
                Seq<char>,
            >::empty() && all_expanded(v).0.repos[i].changes_dirs == Set::<Seq<char>>::empty(),
        all_expanded(v).0.drawers == v.drawers,
{
    reveal(crate::scm_app::app::followed);
    reveal(crate::scm_app::app::relisted);
}

// ---- Doing what a row does ----

pub open spec fn repo_toggled(v: AppView, repo: usize) -> Outcome {
    if repo < v.repos.len() {
        rebuilt(
            AppView {
                repos: v.repos.update(
                    repo as int,
                    RepoView {
                        collapsed: !v.repos[repo as int].collapsed,
                        ..v.repos[repo as int]
                    },
                ),
                ..v
            },
        )
    } else {
        (v, Seq::empty())
    }
}

/// A repository with a section collapsed that was not, or the other way round.
pub open spec fn with_section(r: RepoView, staged: bool) -> RepoView {
    if staged {
        RepoView { staged_collapsed: !r.staged_collapsed, ..r }
    } else {
        RepoView { changes_collapsed: !r.changes_collapsed, ..r }
    }
}

impl Repo {
    fn toggle_section(&mut self, staged: bool)
        ensures
            final(self)@ == with_section(old(self)@, staged),
    {
        if staged {
            self.staged_collapsed = !self.staged_collapsed;
        } else {
            self.changes_collapsed = !self.changes_collapsed;
        }
    }
}

pub open spec fn section_toggled(v: AppView, repo: usize, staged: bool) -> Outcome {
    rebuilt(
        AppView {
            repos: v.repos.update(repo as int, with_section(v.repos[repo as int], staged)),
            ..v
        },
    )
}

pub open spec fn drawer_toggled(v: AppView, kind: Drawer) -> Outcome {
    let p = panel(v, kind);
    (
        AppView {
            drawers: v.drawers.update(
                drawer_index(kind),
                PanelView { expanded: !p.expanded, ..p },
            ),
            ..v
        },
        seq![EffectView::ReloadDrawers { keep: false }],
    )
}

/// What the selected row does: it opens or collapses, moves a file between staged
/// and not, or shows something.
pub open spec fn row_done(v: AppView) -> Outcome {
    match selected_row(v) {
        None => (v, Seq::empty()),
        Some(row) => match row {
            Row::DrawerLine(kind, i) => line_opened(v, kind, i),
            Row::HistoryTree(i) => match history_row(v, i as int) {
                Some(crate::change_tree::RowView::Directory { .. }) => history_directory_toggled(
                    v,
                    i as int,
                ),
                Some(crate::change_tree::RowView::File { index, .. }) => history_file_opened(
                    v,
                    index as int,
                ),
                None => (v, Seq::empty()),
            },
            Row::RepoHeader(r) => repo_toggled(v, r),
            Row::StagedHeader(r) => section_toggled(v, r, true),
            Row::ChangesHeader(r) => section_toggled(v, r, false),
            Row::DrawerHeader(kind) => drawer_toggled(v, kind),
            Row::Staged(r, i) => change_done(v, r, i, true),
            Row::Unstaged(r, i) => change_done(v, r, i, false),
            _ => (v, Seq::empty()),
        },
    }
}

pub open spec fn change_done(v: AppView, repo: usize, row: usize, staged: bool) -> Outcome {
    if directory_at(v, repo, row, staged) is Some {
        directory_toggled(v, repo, row, staged)
    } else {
        op_begun(v, repo, row, staged)
    }
}

impl App {
    pub fn toggle_repo(&mut self, repo: usize) -> (r: Vec<Effect>)
        requires
            sound(old(self)@),
        ensures
            (final(self)@, effects(r@)) == repo_toggled(old(self)@, repo),
            sound(final(self)@),
    {
        if repo >= self.repos.len() {
            return no_effects();
        }
        let ghost all = self@.repos;
        assert(all[repo as int] == self.repos@[repo as int]@);
        let next = !self.repos[repo].collapsed;
        self.repos[repo].collapsed = next;
        proof {
            lemma_cursors_stay(
                all,
                repo as int,
                RepoView { collapsed: next, ..all[repo as int] },
            );
        }
        assert(repos_view(self.repos@) =~= all.update(
            repo as int,
            RepoView { collapsed: !all[repo as int].collapsed, ..all[repo as int] },
        ));
        self.rebuild()
    }

    fn toggle_section(&mut self, repo: usize, staged: bool) -> (r: Vec<Effect>)
        requires
            sound(old(self)@),
            repo < old(self)@.repos.len(),
        ensures
            (final(self)@, effects(r@)) == section_toggled(old(self)@, repo, staged),
            sound(final(self)@),
    {
        let ghost all = self@.repos;
        assert(all[repo as int] == self.repos@[repo as int]@);
        self.repos[repo].toggle_section(staged);
        proof {
            lemma_cursors_stay(all, repo as int, with_section(all[repo as int], staged));
        }
        assert(repos_view(self.repos@) =~= all.update(
            repo as int,
            with_section(all[repo as int], staged),
        ));
        self.rebuild()
    }

    fn toggle_drawer(&mut self, kind: Drawer) -> (r: Vec<Effect>)
        requires
            sound(old(self)@),
        ensures
            (final(self)@, effects(r@)) == drawer_toggled(old(self)@, kind),
            sound(final(self)@),
    {
        let at = kind.index();
        let ghost before = self@.drawers;
        assert(before.len() == self.drawers@.len());
        assert(before[at as int] == self.drawers@[at as int]@);
        let next = !self.drawers[at].expanded;
        self.drawers[at].expanded = next;
        assert(panels_view(self.drawers@) =~= before.update(
            at as int,
            PanelView { expanded: next, ..before[at as int] },
        ));
        one_effect(Effect::ReloadDrawers { keep: false })
    }

    fn activate_change(&mut self, repo: usize, row: usize, staged: bool) -> (r: Vec<Effect>)
        requires
            sound(old(self)@),
        ensures
            (final(self)@, effects(r@)) == change_done(old(self)@, repo, row, staged),
            sound(final(self)@),
    {
        if self.status_directory(repo, row, staged).is_some() {
            self.toggle_status_directory(repo, row, staged)
        } else {
            self.run_op(repo, row, staged)
        }
    }

    /// Does what the selected row does.
    pub fn activate(&mut self) -> (r: Vec<Effect>)
        requires
            sound(old(self)@),
        ensures
            (final(self)@, effects(r@)) == row_done(old(self)@),
            sound(final(self)@),
    {
        let row = match self.row_selected() {
            Some(row) => row,
            None => {
                return no_effects();
            },
        };
        proof {
            let i = self@.selected->0;
            lemma_row_is_named(self@.rows, self@.repos.len() as int, i as int);
        }
        match row {
            Row::DrawerLine(kind, i) => self.open_drawer_ref(kind, i),
            Row::HistoryTree(i) => match self.history_row(i) {
                Some(crate::change_tree::Row::Directory { .. }) => self.toggle_history_directory(i),
                Some(crate::change_tree::Row::File { index, .. }) => self.open_history_file(index),
                None => no_effects(),
            },
            Row::RepoHeader(r) => self.toggle_repo(r),
            Row::StagedHeader(r) => self.toggle_section(r, true),
            Row::ChangesHeader(r) => self.toggle_section(r, false),
            Row::DrawerHeader(kind) => self.toggle_drawer(kind),
            Row::Staged(r, i) => self.activate_change(r, i, true),
            Row::Unstaged(r, i) => self.activate_change(r, i, false),
            _ => no_effects(),
        }
    }
}

} // verus!
