//! Context menus, questions and settings shown over the list.

use vstd::prelude::*;

use crate::git::{EntryView, FileEntry, RefFile, RefFileView};
use crate::input::Rect;
use crate::scm_app::drawers::{Drawer, DrawerRef, DrawerRefView};
use crate::sidebar::{on_off, on_off_word, IconTheme, Settings};
use crate::text::texts;

verus! {

/// What a context menu is about.
pub enum MenuTarget {
    File { repo: usize, entry: FileEntry, staged: bool },
    Drawer { kind: Drawer, index: usize },
    Directory { repo: usize, path: String, staged: bool },
    HistoryFile { repo: usize, file: RefFile },
}

#[verifier::ext_equal]
pub enum TargetView {
    File { repo: usize, entry: EntryView, staged: bool },
    Drawer { kind: Drawer, index: usize },
    Directory { repo: usize, path: Seq<char>, staged: bool },
    HistoryFile { repo: usize, file: RefFileView },
}

impl View for MenuTarget {
    type V = TargetView;

    open spec fn view(&self) -> TargetView {
        match *self {
            MenuTarget::File { repo, entry, staged } => TargetView::File {
                repo,
                entry: entry@,
                staged,
            },
            MenuTarget::Drawer { kind, index } => TargetView::Drawer { kind, index },
            MenuTarget::Directory { repo, path, staged } => TargetView::Directory {
                repo,
                path: path@,
                staged,
            },
            MenuTarget::HistoryFile { repo, file } => TargetView::HistoryFile {
                repo,
                file: file@,
            },
        }
    }
}

/// What a menu's entries do.
#[derive(Clone, Copy, PartialEq, Eq, Debug, Structural)]
pub enum MenuAction {
    OpenDiff,
    StageOrUnstage,
    Discard,
    CopyPath,
    CopyRelativePath,
    OpenExternal,
    Reveal,
    ShowRef,
    Checkout,
    MergeInto,
    DeleteBranch,
    CherryPick,
    Revert,
    ResetHere,
    StashApply,
    StashPop,
    StashDrop,
    FetchRemote,
    CopyRef,
    DeleteTag,
    RemoveWorktree,
}

/// A line of a menu.
#[derive(Clone, Copy, Debug)]
pub enum MenuEntry {
    Action(MenuAction, &'static str),
    Separator,
}

#[verifier::ext_equal]
pub enum MenuEntryView {
    Action(MenuAction, Seq<char>),
    Separator,
}

impl View for MenuEntry {
    type V = MenuEntryView;

    open spec fn view(&self) -> MenuEntryView {
        match *self {
            MenuEntry::Action(a, label) => MenuEntryView::Action(a, label@),
            MenuEntry::Separator => MenuEntryView::Separator,
        }
    }
}

pub open spec fn menu_view(v: Seq<MenuEntry>) -> Seq<MenuEntryView> {
    v.map_values(|e: MenuEntry| e@)
}

/// What is shown over the list, and takes the keys and the mouse.
pub enum Overlay {
    Menu {
        x: u16,
        y: u16,
        target: MenuTarget,
        entries: Vec<MenuEntry>,
        selected: usize,
        rect: Rect,
    },
    ConfirmDiscard { repo: usize, entry: FileEntry },
    /// Asks before git destroys something.
    ConfirmGit { repo: usize, prompt: String, args: Vec<String> },
    Settings { selected: usize, rect: Rect },
    ThemePicker { selected: usize, scroll: usize, rect: Rect },
}

#[verifier::ext_equal]
pub enum OverlayView {
    Menu {
        x: u16,
        y: u16,
        target: TargetView,
        entries: Seq<MenuEntryView>,
        selected: usize,
        rect: Rect,
    },
    ConfirmDiscard { repo: usize, entry: EntryView },
    ConfirmGit { repo: usize, prompt: Seq<char>, args: Seq<Seq<char>> },
    Settings { selected: usize, rect: Rect },
    ThemePicker { selected: usize, scroll: usize, rect: Rect },
}

impl View for Overlay {
    type V = OverlayView;

    open spec fn view(&self) -> OverlayView {
        match *self {
            Overlay::Menu { x, y, target, entries, selected, rect } => OverlayView::Menu {
                x,
                y,
                target: target@,
                entries: menu_view(entries@),
                selected,
                rect,
            },
            Overlay::ConfirmDiscard { repo, entry } => OverlayView::ConfirmDiscard {
                repo,
                entry: entry@,
            },
            Overlay::ConfirmGit { repo, prompt, args } => OverlayView::ConfirmGit {
                repo,
                prompt: prompt@,
                args: texts(args@),
            },
            Overlay::Settings { selected, rect } => OverlayView::Settings { selected, rect },
            Overlay::ThemePicker { selected, scroll, rect } => OverlayView::ThemePicker {
                selected,
                scroll,
                rect,
            },
        }
    }
}

pub open spec fn overlay_view(o: Option<Overlay>) -> Option<OverlayView> {
    match o {
        Some(o) => Some(o@),
        None => None,
    }
}

// ---- Moving in a menu ----

/// The first entry at or after `i` that does something, or the number of
/// entries.
pub open spec fn action_from(v: Seq<MenuEntryView>, i: int) -> int
    decreases v.len() - i,
{
    if i >= v.len() {
        v.len() as int
    } else if v[i] is Action {
        i
    } else {
        action_from(v, i + 1)
    }
}

/// The last of the entries before `n` that does something, or -1.
pub open spec fn action_before(v: Seq<MenuEntryView>, n: int) -> int
    decreases n,
{
    if n <= 0 {
        -1
    } else if v[n - 1] is Action {
        n - 1
    } else {
        action_before(v, n - 1)
    }
}

/// The next entry that does something, or the same at the ends.
pub open spec fn stepped(v: Seq<MenuEntryView>, from: usize, down: bool) -> usize {
    if down {
        let i = action_from(v, from + 1);
        if i < v.len() {
            i as usize
        } else {
            from
        }
    } else {
        let i = action_before(v, from as int);
        if i >= 0 {
            i as usize
        } else {
            from
        }
    }
}

pub fn step_menu(entries: &[MenuEntry], from: usize, down: bool) -> (r: usize)
    requires
        from <= entries@.len(),
    ensures
        r == stepped(menu_view(entries@), from, down),
{
    let ghost all = menu_view(entries@);
    assert(all.len() == entries@.len());
    let total = entries.len();
    if down {
        if from >= total {
            return from;
        }
        let mut i = from + 1;
        while i < total
            invariant
                from + 1 <= i,
                i <= total,
                total == entries@.len(),
                all == menu_view(entries@),
                down,
                action_from(all, from + 1) == action_from(all, i as int),
            decreases total - i,
        {
            assert(all[i as int] == entries@[i as int]@);
            if let MenuEntry::Action(_, _) = entries[i] {
                return i;
            }
            i += 1;
        }
        return from;
    }
    let mut n = from;
    while n > 0
        invariant
            n <= entries@.len(),
            all == menu_view(entries@),
            !down,
            action_before(all, from as int) == action_before(all, n as int),
        decreases n,
    {
        assert(all[n - 1] == entries@[n - 1]@);
        if let MenuEntry::Action(_, _) = entries[n - 1] {
            return n - 1;
        }
        n -= 1;
    }
    from
}

/// A step leads to an entry that does something, or nowhere.
pub proof fn law_steps_skip_separators(v: Seq<MenuEntryView>, from: usize, down: bool)
    requires
        from < v.len() <= usize::MAX,
    ensures
        stepped(v, from, down) == from || v[stepped(v, from, down) as int] is Action,
        stepped(v, from, down) < v.len(),
        down ==> stepped(v, from, down) >= from,
        !down ==> stepped(v, from, down) <= from,
{
    lemma_action_from(v, from + 1);
    lemma_action_before(v, from as int);
}

proof fn lemma_action_from(v: Seq<MenuEntryView>, i: int)
    requires
        0 <= i,
    ensures
        action_from(v, i) < v.len() ==> v[action_from(v, i)] is Action && action_from(v, i) >= i,
    decreases v.len() - i,
{
    if i < v.len() && !(v[i] is Action) {
        lemma_action_from(v, i + 1);
    }
}

proof fn lemma_action_before(v: Seq<MenuEntryView>, n: int)
    requires
        n <= v.len(),
    ensures
        action_before(v, n) >= 0 ==> v[action_before(v, n)] is Action && action_before(v, n) < n,
    decreases n,
{
    if n > 0 && !(v[n - 1] is Action) {
        lemma_action_before(v, n - 1);
    }
}

// ---- The menus ----

pub open spec fn act(a: MenuAction, label: Seq<char>) -> MenuEntryView {
    MenuEntryView::Action(a, label)
}

pub open spec fn stage_word(staged: bool) -> Seq<char> {
    if staged {
        "Unstage Changes"@
    } else {
        "Stage Changes"@
    }
}

fn stage_label(staged: bool) -> (r: &'static str)
    ensures
        r@ == stage_word(staged),
{
    if staged {
        "Unstage Changes"
    } else {
        "Stage Changes"
    }
}

/// The menu of a changed file. A deleted one cannot be opened, and what is staged
/// cannot be discarded.
pub open spec fn file_menu(letter: char, staged: bool) -> Seq<MenuEntryView> {
    seq![act(MenuAction::OpenDiff, "Open Diff"@)] + (if letter != 'D' {
        seq![act(MenuAction::OpenExternal, "Open with Default App"@)]
    } else {
        Seq::empty()
    }) + seq![act(MenuAction::StageOrUnstage, stage_word(staged))] + (if !staged {
        seq![act(MenuAction::Discard, "Discard Changes…"@)]
    } else {
        Seq::empty()
    }) + seq![
        MenuEntryView::Separator,
        act(MenuAction::CopyPath, "Copy Path"@),
        act(MenuAction::CopyRelativePath, "Copy Relative Path"@),
        MenuEntryView::Separator,
        act(MenuAction::Reveal, "Reveal in File Explorer"@),
    ]
}

pub fn file_menu_entries(letter: char, staged: bool) -> (r: Vec<MenuEntry>)
    ensures
        menu_view(r@) == file_menu(letter, staged),
{
    let mut v: Vec<MenuEntry> = Vec::new();
    v.push(MenuEntry::Action(MenuAction::OpenDiff, "Open Diff"));
    if letter != 'D' {
        v.push(MenuEntry::Action(MenuAction::OpenExternal, "Open with Default App"));
    }
    v.push(MenuEntry::Action(MenuAction::StageOrUnstage, stage_label(staged)));
    if !staged {
        v.push(MenuEntry::Action(MenuAction::Discard, "Discard Changes…"));
    }
    v.push(MenuEntry::Separator);
    v.push(MenuEntry::Action(MenuAction::CopyPath, "Copy Path"));
    v.push(MenuEntry::Action(MenuAction::CopyRelativePath, "Copy Relative Path"));
    v.push(MenuEntry::Separator);
    v.push(MenuEntry::Action(MenuAction::Reveal, "Reveal in File Explorer"));
    assert(menu_view(v@) =~= file_menu(letter, staged));
    v
}

pub open spec fn directory_menu(staged: bool) -> Seq<MenuEntryView> {
    seq![
        act(MenuAction::StageOrUnstage, stage_word(staged)),
        MenuEntryView::Separator,
        act(MenuAction::CopyRelativePath, "Copy Relative Path"@),
    ]
}

pub fn directory_menu_entries(staged: bool) -> (r: Vec<MenuEntry>)
    ensures
        menu_view(r@) == directory_menu(staged),
{
    let mut v: Vec<MenuEntry> = Vec::new();
    v.push(MenuEntry::Action(MenuAction::StageOrUnstage, stage_label(staged)));
    v.push(MenuEntry::Separator);
    v.push(MenuEntry::Action(MenuAction::CopyRelativePath, "Copy Relative Path"));
    assert(menu_view(v@) =~= directory_menu(staged));
    v
}

pub open spec fn history_file_menu() -> Seq<MenuEntryView> {
    seq![
        act(MenuAction::OpenDiff, "Open Diff"@),
        MenuEntryView::Separator,
        act(MenuAction::CopyRelativePath, "Copy Relative Path"@),
    ]
}

pub fn history_file_menu_entries() -> (r: Vec<MenuEntry>)
    ensures
        menu_view(r@) == history_file_menu(),
{
    let mut v: Vec<MenuEntry> = Vec::new();
    v.push(MenuEntry::Action(MenuAction::OpenDiff, "Open Diff"));
    v.push(MenuEntry::Separator);
    v.push(MenuEntry::Action(MenuAction::CopyRelativePath, "Copy Relative Path"));
    assert(menu_view(v@) =~= history_file_menu());
    v
}

/// What can be done with a commit.
pub open spec fn commit_menu() -> Seq<MenuEntryView> {
    seq![
        act(MenuAction::Checkout, "Checkout (Detached)"@),
        act(MenuAction::CherryPick, "Cherry-Pick"@),
        act(MenuAction::Revert, "Revert"@),
        act(MenuAction::ResetHere, "Reset Current Branch Here…"@),
        MenuEntryView::Separator,
        act(MenuAction::CopyRef, "Copy Hash"@),
    ]
}

/// The menu of a drawer's line, where it has one.
pub open spec fn drawer_menu(kind: Drawer, target: DrawerRefView) -> Option<Seq<MenuEntryView>> {
    match target {
        DrawerRefView::Nothing => None,
        DrawerRefView::Commit(_) => match kind {
            Drawer::FileHistory => Some(
                seq![act(MenuAction::OpenDiff, "Open File Diff"@), MenuEntryView::Separator]
                    + commit_menu(),
            ),
            Drawer::Graph => Some(
                seq![act(MenuAction::ShowRef, "Show Changes"@), MenuEntryView::Separator]
                    + commit_menu(),
            ),
            Drawer::Commits => Some(commit_menu()),
            _ => None,
        },
        DrawerRefView::Branch { current, .. } => Some(
            if current {
                seq![act(MenuAction::CopyRef, "Copy Branch Name"@)]
            } else {
                seq![
                    act(MenuAction::Checkout, "Checkout Branch"@),
                    act(MenuAction::MergeInto, "Merge into Current Branch"@),
                    MenuEntryView::Separator,
                    act(MenuAction::DeleteBranch, "Delete Branch…"@),
                    MenuEntryView::Separator,
                    act(MenuAction::CopyRef, "Copy Branch Name"@),
                ]
            },
        ),
        DrawerRefView::Stash(_) => Some(
            seq![
                act(MenuAction::StashApply, "Apply Stash"@),
                act(MenuAction::StashPop, "Pop Stash"@),
                MenuEntryView::Separator,
                act(MenuAction::StashDrop, "Drop Stash…"@),
            ],
        ),
        DrawerRefView::Remote { .. } => Some(
            seq![act(MenuAction::FetchRemote, "Fetch"@), act(MenuAction::CopyRef, "Copy URL"@)],
        ),
        DrawerRefView::Tag(_) => Some(
            seq![
                act(MenuAction::Checkout, "Checkout Tag"@),
                MenuEntryView::Separator,
                act(MenuAction::DeleteTag, "Delete Tag…"@),
                MenuEntryView::Separator,
                act(MenuAction::CopyRef, "Copy Tag Name"@),
            ],
        ),
        DrawerRefView::Worktree(_) => Some(
            seq![
                act(MenuAction::Reveal, "Reveal in File Explorer"@),
                act(MenuAction::CopyRef, "Copy Path"@),
                MenuEntryView::Separator,
                act(MenuAction::RemoveWorktree, "Remove Worktree…"@),
            ],
        ),
    }
}

fn push_commit_menu(v: &mut Vec<MenuEntry>)
    ensures
        menu_view(final(v)@) == menu_view(old(v)@) + commit_menu(),
{
    let ghost before = menu_view(v@);
    v.push(MenuEntry::Action(MenuAction::Checkout, "Checkout (Detached)"));
    v.push(MenuEntry::Action(MenuAction::CherryPick, "Cherry-Pick"));
    v.push(MenuEntry::Action(MenuAction::Revert, "Revert"));
    v.push(MenuEntry::Action(MenuAction::ResetHere, "Reset Current Branch Here…"));
    v.push(MenuEntry::Separator);
    v.push(MenuEntry::Action(MenuAction::CopyRef, "Copy Hash"));
    assert(menu_view(v@) =~= before + commit_menu());
}

fn commit_entries(kind: Drawer) -> (r: Option<Vec<MenuEntry>>)
    ensures
        (match r {
            Some(v) => Some(menu_view(v@)),
            None => None,
        }) == drawer_menu(kind, DrawerRefView::Commit(Seq::empty())),
{
    let mut v: Vec<MenuEntry> = Vec::new();
    match kind {
        Drawer::FileHistory => {
            v.push(MenuEntry::Action(MenuAction::OpenDiff, "Open File Diff"));
            v.push(MenuEntry::Separator);
            assert(menu_view(v@) =~= seq![
                act(MenuAction::OpenDiff, "Open File Diff"@),
                MenuEntryView::Separator,
            ]);
        },
        Drawer::Graph => {
            v.push(MenuEntry::Action(MenuAction::ShowRef, "Show Changes"));
            v.push(MenuEntry::Separator);
            assert(menu_view(v@) =~= seq![
                act(MenuAction::ShowRef, "Show Changes"@),
                MenuEntryView::Separator,
            ]);
        },
        Drawer::Commits => {
            assert(menu_view(v@) =~= Seq::empty());
        },
        _ => {
            return None;
        },
    }
    push_commit_menu(&mut v);
    assert(Seq::<MenuEntryView>::empty() + commit_menu() =~= commit_menu());
    Some(v)
}

fn branch_entries(current: bool) -> (r: Vec<MenuEntry>)
    ensures
        Some(menu_view(r@)) == drawer_menu(
            Drawer::Branches,
            (DrawerRefView::Branch { name: Seq::empty(), current }),
        ),
{
    let mut v: Vec<MenuEntry> = Vec::new();
    if !current {
        v.push(MenuEntry::Action(MenuAction::Checkout, "Checkout Branch"));
        v.push(MenuEntry::Action(MenuAction::MergeInto, "Merge into Current Branch"));
        v.push(MenuEntry::Separator);
        v.push(MenuEntry::Action(MenuAction::DeleteBranch, "Delete Branch…"));
        v.push(MenuEntry::Separator);
    }
    v.push(MenuEntry::Action(MenuAction::CopyRef, "Copy Branch Name"));
    if current {
        assert(menu_view(v@) =~= seq![act(MenuAction::CopyRef, "Copy Branch Name"@)]);
    } else {
        assert(menu_view(v@) =~= seq![
            act(MenuAction::Checkout, "Checkout Branch"@),
            act(MenuAction::MergeInto, "Merge into Current Branch"@),
            MenuEntryView::Separator,
            act(MenuAction::DeleteBranch, "Delete Branch…"@),
            MenuEntryView::Separator,
            act(MenuAction::CopyRef, "Copy Branch Name"@),
        ]);
    }
    v
}

fn other_entries(target: &DrawerRef) -> (r: Vec<MenuEntry>)
    requires
        target@ is Stash || target@ is Remote || target@ is Tag || target@ is Worktree,
    ensures
        Some(menu_view(r@)) == drawer_menu(Drawer::Tags, target@),
{
    let mut v: Vec<MenuEntry> = Vec::new();
    match target {
        DrawerRef::Stash(_) => {
            v.push(MenuEntry::Action(MenuAction::StashApply, "Apply Stash"));
            v.push(MenuEntry::Action(MenuAction::StashPop, "Pop Stash"));
            v.push(MenuEntry::Separator);
            v.push(MenuEntry::Action(MenuAction::StashDrop, "Drop Stash…"));
        },
        DrawerRef::Remote { .. } => {
            v.push(MenuEntry::Action(MenuAction::FetchRemote, "Fetch"));
            v.push(MenuEntry::Action(MenuAction::CopyRef, "Copy URL"));
        },
        DrawerRef::Tag(_) => {
            v.push(MenuEntry::Action(MenuAction::Checkout, "Checkout Tag"));
            v.push(MenuEntry::Separator);
            v.push(MenuEntry::Action(MenuAction::DeleteTag, "Delete Tag…"));
            v.push(MenuEntry::Separator);
            v.push(MenuEntry::Action(MenuAction::CopyRef, "Copy Tag Name"));
        },
        _ => {
            v.push(MenuEntry::Action(MenuAction::Reveal, "Reveal in File Explorer"));
            v.push(MenuEntry::Action(MenuAction::CopyRef, "Copy Path"));
            v.push(MenuEntry::Separator);
            v.push(MenuEntry::Action(MenuAction::RemoveWorktree, "Remove Worktree…"));
        },
    }
    assert(menu_view(v@) =~= drawer_menu(Drawer::Tags, target@)->0);
    v
}

pub fn drawer_menu_entries(kind: Drawer, target: &DrawerRef) -> (r: Option<Vec<MenuEntry>>)
    ensures
        (match r {
            Some(v) => Some(menu_view(v@)),
            None => None,
        }) == drawer_menu(kind, target@),
{
    match target {
        DrawerRef::Nothing => None,
        DrawerRef::Commit(_) => commit_entries(kind),
        DrawerRef::Branch { current, .. } => Some(branch_entries(*current)),
        _ => Some(other_entries(target)),
    }
}

// ---- Settings ----

/// A row of the settings.
#[derive(Clone, Copy, PartialEq, Eq, Debug, Structural)]
pub enum Setting {
    UnifiedSidebar,
    IconTheme,
    DiffTheme,
    HideUnmodified,
    ScmView,
    AutoOpen,
    Hotkeys,
    Folder,
}

/// The settings in the order of their rows.
pub open spec fn all_settings() -> Seq<Setting> {
    seq![
        Setting::UnifiedSidebar,
        Setting::IconTheme,
        Setting::DiffTheme,
        Setting::HideUnmodified,
        Setting::ScmView,
        Setting::Hotkeys,
        Setting::AutoOpen,
        Setting::Folder,
    ]
}

/// A setting as it is shown: its name, its value, and whether it can be changed.
pub struct SettingRow {
    pub setting: Setting,
    pub label: &'static str,
    pub value: String,
    pub enabled: bool,
}

#[verifier::ext_equal]
pub struct SettingView {
    pub setting: Setting,
    pub label: Seq<char>,
    pub value: Seq<char>,
    pub enabled: bool,
}

impl View for SettingRow {
    type V = SettingView;

    open spec fn view(&self) -> SettingView {
        SettingView {
            setting: self.setting,
            label: self.label@,
            value: self.value@,
            enabled: self.enabled,
        }
    }
}

pub open spec fn settings_view(v: Seq<SettingRow>) -> Seq<SettingView> {
    v.map_values(|r: SettingRow| r@)
}

/// How a setting is shown. `merged` says whether the views share the pane, which
/// only can be where `other` says that the other view is there; `theme_name`,
/// `view_name` and `folder` are the names of the diff theme, of the way files are
/// listed, and of the folder.
pub open spec fn setting_shown(
    setting: Setting,
    s: Settings,
    theme: IconTheme,
    merged: bool,
    other: bool,
    theme_name: Seq<char>,
    view_name: Seq<char>,
    folder: Seq<char>,
) -> SettingView {
    match setting {
        Setting::UnifiedSidebar => SettingView {
            setting,
            label: "Unified sidebar"@,
            value: on_off(merged),
            enabled: other,
        },
        Setting::IconTheme => SettingView {
            setting,
            label: "Icon theme"@,
            value: match theme {
                IconTheme::Material => "material"@,
                IconTheme::Emoji => "emoji"@,
            },
            enabled: true,
        },
        Setting::DiffTheme => SettingView {
            setting,
            label: "Diff theme"@,
            value: theme_name,
            enabled: true,
        },
        Setting::HideUnmodified => SettingView {
            setting,
            label: "Hide unmodified lines"@,
            value: on_off(s.hide_unmodified),
            enabled: true,
        },
        Setting::ScmView => SettingView {
            setting,
            label: "SCM file view"@,
            value: view_name,
            enabled: true,
        },
        Setting::Hotkeys => SettingView {
            setting,
            label: "Footer hotkeys"@,
            value: if s.show_hotkeys {
                "shown"@
            } else {
                "hidden"@
            },
            enabled: true,
        },
        Setting::AutoOpen => SettingView {
            setting,
            label: "Auto-open sidebar"@,
            value: on_off(s.auto_open),
            enabled: true,
        },
        Setting::Folder => SettingView {
            setting,
            label: "Change folder…"@,
            value: folder,
            enabled: true,
        },
    }
}

fn show_setting(
    setting: Setting,
    s: Settings,
    theme: IconTheme,
    merged: bool,
    other: bool,
    theme_name: &str,
    view_name: &str,
    folder: &str,
) -> (r: SettingRow)
    ensures
        r@ == setting_shown(setting, s, theme, merged, other, theme_name@, view_name@, folder@),
{
    let (label, value, enabled): (&'static str, &str, bool) = match setting {
        Setting::UnifiedSidebar => ("Unified sidebar", on_off_word(merged), other),
        Setting::IconTheme => {
            let value = match theme {
                IconTheme::Material => "material",
                IconTheme::Emoji => "emoji",
            };
            ("Icon theme", value, true)
        },
        Setting::DiffTheme => ("Diff theme", theme_name, true),
        Setting::HideUnmodified => {
            ("Hide unmodified lines", on_off_word(s.hide_unmodified), true)
        },
        Setting::ScmView => ("SCM file view", view_name, true),
        Setting::Hotkeys => {
            let value = if s.show_hotkeys {
                "shown"
            } else {
                "hidden"
            };
            ("Footer hotkeys", value, true)
        },
        Setting::AutoOpen => ("Auto-open sidebar", on_off_word(s.auto_open), true),
        Setting::Folder => ("Change folder…", folder, true),
    };
    SettingRow { setting, label, value: value.to_string(), enabled }
}

/// The settings in the order of their rows.
pub fn settings_order() -> (r: Vec<Setting>)
    ensures
        r@ == all_settings(),
{
    let mut v: Vec<Setting> = Vec::new();
    v.push(Setting::UnifiedSidebar);
    v.push(Setting::IconTheme);
    v.push(Setting::DiffTheme);
    v.push(Setting::HideUnmodified);
    v.push(Setting::ScmView);
    v.push(Setting::Hotkeys);
    v.push(Setting::AutoOpen);
    v.push(Setting::Folder);
    assert(v@ =~= all_settings());
    v
}

/// The rows of the settings.
pub fn settings_rows(
    s: Settings,
    theme: IconTheme,
    merged: bool,
    other: bool,
    theme_name: &str,
    view_name: &str,
    folder: &str,
) -> (r: Vec<SettingRow>)
    ensures
        settings_view(r@) == all_settings().map_values(
            |t: Setting| setting_shown(t, s, theme, merged, other, theme_name@, view_name@, folder@),
        ),
{
    let order = settings_order();
    let ghost want = all_settings().map_values(
        |t: Setting| setting_shown(t, s, theme, merged, other, theme_name@, view_name@, folder@),
    );
    let mut out: Vec<SettingRow> = Vec::new();
    let mut i: usize = 0;
    while i < order.len()
        invariant
            i <= order@.len(),
            order@ == all_settings(),
            want == all_settings().map_values(
                |t: Setting| setting_shown(t, s, theme, merged, other, theme_name@, view_name@, folder@),
            ),
            settings_view(out@) =~= want.take(i as int),
        decreases order@.len() - i,
    {
        let ghost before = settings_view(out@);
        let row = show_setting(order[i], s, theme, merged, other, theme_name, view_name, folder);
        out.push(row);
        assert(settings_view(out@) =~= before.push(row@));
        i += 1;
    }
    assert(want.take(i as int) =~= want);
    out
}

/// The place of a setting's row.
pub open spec fn setting_place(s: Setting) -> usize {
    match s {
        Setting::UnifiedSidebar => 0,
        Setting::IconTheme => 1,
        Setting::DiffTheme => 2,
        Setting::HideUnmodified => 3,
        Setting::ScmView => 4,
        Setting::Hotkeys => 5,
        Setting::AutoOpen => 6,
        Setting::Folder => 7,
    }
}

/// The place of a setting's row.
pub fn setting_index(s: Setting) -> (r: usize)
    ensures
        r == setting_place(s),
        all_settings()[r as int] == s,
{
    match s {
        Setting::UnifiedSidebar => 0,
        Setting::IconTheme => 1,
        Setting::DiffTheme => 2,
        Setting::HideUnmodified => 3,
        Setting::ScmView => 4,
        Setting::Hotkeys => 5,
        Setting::AutoOpen => 6,
        Setting::Folder => 7,
    }
}

/// The setting in a row.
#[verifier::opaque]
pub open spec fn setting_in(index: int) -> Option<Setting> {
    if 0 <= index < all_settings().len() {
        Some(all_settings()[index])
    } else {
        None
    }
}

/// The setting in a row.
pub fn setting_in_row(index: usize) -> (r: Option<Setting>)
    ensures
        r == setting_in(index as int),
{
    proof {
        reveal(setting_in);
    }
    let order = settings_order();
    if index < order.len() {
        Some(order[index])
    } else {
        None
    }
}

} // verus!
