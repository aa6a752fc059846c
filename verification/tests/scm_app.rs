use herdr_sidebar::change_tree::Row as ChangeTreeRow;
use herdr_sidebar::git::{parse_status, DiffStat, FileEntry, Git, RefFile};
use herdr_sidebar::input::{Key, KeyCode, Mouse, MouseKind, Platform, Rect};
use herdr_sidebar::path_set::PathSet;
use herdr_sidebar::scm_app::app::{App, Effect};
use herdr_sidebar::scm_app::chrome::{
    cursor_in_box, place_popup, place_tooltip, tooltip_columns, tooltip_rows,
};
use herdr_sidebar::scm_app::draw::RowContent;
use herdr_sidebar::scm_app::drawers::{
    app_drawer, parse_drawer_ref, pretty_remote_line, pretty_worktree_line, sync_drawer, Drawer,
    DrawerRef,
};
use herdr_sidebar::scm_app::items::{
    change_tree_item, commit_button_item, diff_stat_spans, drawer_line, drawer_line_text,
    letter_color, message_box_item, repo_separator_line, section_item, ChangeTail, ADDED,
    BADGE_BLUE, BUTTON_BLUE, DELETED, MODIFIED,
};
use herdr_sidebar::scm_app::layout::{
    change_action_hit, change_menu_hit, change_tail_width, change_tree_tooltip,
    directory_pathspecs, inline_field_width, inline_sparkle, list_content_width, message_window,
    section_action_hit, section_action_start, status_header_index, toggle_collapsed_path,
    tree_nav_target, wrap_message, Row, ScmFileView,
};
use herdr_sidebar::scm_app::lifecycle::{Picked, BEAT};
use herdr_sidebar::scm_app::overlay::{
    drawer_menu_entries, file_menu_entries, setting_in_row, setting_index, settings_order,
    settings_rows, step_menu, MenuAction, MenuEntry, Overlay, Setting,
};
use herdr_sidebar::scm_app::state::{Focus, PanelLoad};
use herdr_sidebar::scm_app::workspace::{ScmAnchor, ScmState};
use herdr_sidebar::sidebar::{Exit, IconTheme, Settings, SideView, TitleAction};
use herdr_sidebar::style::{Color, Line, RowStep, Span, Style};

fn entry(path: &str, orig: Option<&str>, letter: char, stat: DiffStat) -> FileEntry {
    FileEntry { path: path.to_string(), orig: orig.map(str::to_string), letter, stat }
}

fn text(line: &Line) -> String {
    line.spans.iter().map(|span| span.text.as_str()).collect()
}

fn columns(line: &Line) -> usize {
    line.spans.iter().map(|span| ratatui::text::Span::raw(span.text.as_str()).width()).sum()
}

fn plain_span(text: &str) -> Span {
    Span { text: text.to_string(), style: Style::default() }
}

fn settings() -> Settings {
    Settings {
        merged: false,
        active: SideView::SourceControl,
        icons: None,
        diff_theme: 0,
        hide_unmodified: true,
        scm_file_view: ScmFileView::Tree,
        show_hotkeys: true,
        auto_open: false,
    }
}

/// Carries out what a refresh asks for, with `statuses` for what git says of each
/// repository.
fn refresh(app: &mut App, statuses: &[&str]) {
    for (i, raw) in statuses.iter().enumerate() {
        app.status_loaded(i, Ok(parse_status(raw)));
    }
    let effects = app.refreshed();
    assert!(matches!(effects[..], [Effect::ReloadDrawers { .. }]));
    app.drawers_loaded(true);
}

fn app_of(roots: &[&str], statuses: &[&str]) -> App {
    let found = roots.iter().map(|root| Git::at_root(root)).collect();
    let (mut app, effects) = App::new(
        "/work".to_string(),
        found,
        None,
        settings(),
        IconTheme::Material,
        true,
        None,
        Platform::Other,
        0,
    );
    assert!(matches!(effects[..], [Effect::Refresh]));
    refresh(&mut app, statuses);
    app
}

fn one_repo() -> App {
    app_of(&["/work"], &["## main\0 M src/main.rs\0?? docs/note.md\0"])
}

fn row(app: &App, wanted: Row) -> usize {
    app.rows.iter().position(|row| *row == wanted).expect("row is listed")
}

fn left(column: u16, row: u16) -> Mouse {
    Mouse { kind: MouseKind::LeftDown, column, row }
}

fn same_anchor(a: &Option<ScmAnchor>, b: &Option<ScmAnchor>) -> bool {
    match (a, b) {
        (Some(a), Some(b)) => a.same(b),
        (None, None) => true,
        _ => false,
    }
}

fn same_state(a: &ScmState, b: &ScmState) -> bool {
    a.active_repo == b.active_repo
        && a.focus == b.focus
        && same_anchor(&a.selected, &b.selected)
        && same_anchor(&a.top, &b.top)
        && a.top_offset == b.top_offset
        && a.drawers == b.drawers
        && a.expanded_ref.is_some() == b.expanded_ref.is_some()
        && a.repos.len() == b.repos.len()
        && a.repos.iter().zip(b.repos.iter()).all(|(a, b)| {
            a.root == b.root
                && a.collapsed == b.collapsed
                && a.staged_collapsed == b.staged_collapsed
                && a.changes_collapsed == b.changes_collapsed
                && a.staged_dirs.same(&b.staged_dirs)
                && a.changes_dirs.same(&b.changes_dirs)
        })
}

fn take_over(app: &mut App, state: &ScmState) {
    if app.apply_workspace_state(state) {
        let (_, line) = app.workspace_drawers_loaded(state);
        assert!(line.is_none());
        app.finish_workspace_state(state);
    }
}

#[test]
fn drawer_lines_parse_into_actionable_refs() {
    assert_eq!(
        parse_drawer_ref(Drawer::Commits, "a1b2c3d Add telemetry module"),
        DrawerRef::Commit("a1b2c3d".into())
    );
    // Graph edge-only lines carry no commit; subject words never match
    // (uppercase or non-hex letters, or too short).
    assert_eq!(parse_drawer_ref(Drawer::Graph, "| \\"), DrawerRef::Nothing);
    assert_eq!(
        parse_drawer_ref(Drawer::Graph, "* deadbee (HEAD -> main) Added decoded fallback"),
        DrawerRef::Commit("deadbee".into())
    );
    assert_eq!(
        parse_drawer_ref(Drawer::Branches, "* main"),
        DrawerRef::Branch { name: "main".into(), current: true }
    );
    assert_eq!(
        parse_drawer_ref(Drawer::Branches, "  origin/main"),
        DrawerRef::Branch { name: "origin/main".into(), current: false }
    );
    assert_eq!(
        parse_drawer_ref(Drawer::Stashes, "stash@{2}: WIP on main: 1a2b3c4 x"),
        DrawerRef::Stash(2)
    );
    assert_eq!(
        parse_drawer_ref(Drawer::Remotes, "origin  https://github.com/a/b.git"),
        DrawerRef::Remote { name: "origin".into(), url: "https://github.com/a/b.git".into() }
    );
    assert_eq!(parse_drawer_ref(Drawer::Tags, "v0.1.0"), DrawerRef::Tag("v0.1.0".into()));
    assert_eq!(parse_drawer_ref(Drawer::Tags, "(none)"), DrawerRef::Nothing);
    assert_eq!(
        parse_drawer_ref(Drawer::Worktrees, "C:/Users/x/proj  a1b2c3d [main]"),
        DrawerRef::Worktree("C:/Users/x/proj".into())
    );
    assert_eq!(parse_drawer_ref(Drawer::Worktrees, "(none)"), DrawerRef::Nothing);
}

#[test]
fn drawer_lines_prettify_for_display() {
    assert_eq!(
        pretty_worktree_line("C:/Users/x/Projects/herdr  7c12b6d [main]"),
        "herdr  ⎇ main"
    );
    assert_eq!(
        pretty_worktree_line("C:/x/wt-fix  1a2b3c4 (detached HEAD)"),
        "wt-fix  (detached)"
    );
    assert_eq!(pretty_worktree_line("(none)"), "(none)");
    assert_eq!(
        pretty_remote_line("origin  https://github.com/alexarthurs/herdr-sidebar.git"),
        "origin  alexarthurs/herdr-sidebar"
    );
    assert_eq!(pretty_remote_line("up  git@github.com:me/repo.git"), "up  me/repo");
    assert_eq!(
        pretty_remote_line("origin  C:/Users/x/Projects/.demo-origin.git"),
        "origin  .demo-origin"
    );
    assert_eq!(pretty_remote_line("(none)"), "(none)");
}

#[test]
fn menu_navigation_skips_separators_and_clamps() {
    let entries = [
        MenuEntry::Action(MenuAction::StageOrUnstage, "Stage Changes"),
        MenuEntry::Separator,
        MenuEntry::Action(MenuAction::CopyPath, "Copy Path"),
    ];
    assert_eq!(step_menu(&entries, 0, false), 0);
    assert_eq!(step_menu(&entries, 0, true), 2, "skips the separator");
    assert_eq!(step_menu(&entries, 2, true), 2);
}

#[test]
fn drawer_titles_are_title_case_and_include_worktrees() {
    let titles: Vec<&str> = Drawer::all().iter().map(|d| d.title()).collect();
    assert_eq!(
        titles,
        [
            "Graph",
            "Commits",
            "File History",
            "Branches",
            "Worktrees",
            "Remotes",
            "Stashes",
            "Tags"
        ]
    );
}

#[test]
fn modern_history_drawers_are_explicit() {
    assert!(Drawer::Commits.supports_file_tree());
    assert!(Drawer::Branches.supports_file_tree());
    assert!(Drawer::Stashes.supports_file_tree());
    assert!(Drawer::Tags.supports_file_tree());
    assert!(!Drawer::Graph.supports_file_tree());
    assert!(!Drawer::FileHistory.supports_file_tree());
}

#[test]
fn collapse_all_switches_to_expand_all_without_touching_drawers() {
    let mut app = app_of(&["/work", "/work/child"], &["## main\0", "## main\0"]);
    assert!(app.multi());
    for repo in &mut app.repos {
        repo.staged_dirs.insert("src");
        repo.changes_dirs.insert("docs");
    }
    app.drawers[Drawer::Graph.index()].expanded = true;
    app.drawers[Drawer::Commits.index()].expanded = false;

    app.collapse_all();
    assert!(app.fully_collapsed());
    assert!(app.repos.iter().all(|repo| {
        repo.collapsed && repo.staged_collapsed && repo.changes_collapsed
    }));
    assert!(app.drawers[Drawer::Graph.index()].expanded);
    assert!(!app.drawers[Drawer::Commits.index()].expanded);

    app.expand_all();
    assert!(!app.fully_collapsed());
    assert!(app.repos.iter().all(|repo| {
        !repo.collapsed
            && !repo.staged_collapsed
            && !repo.changes_collapsed
            && repo.staged_dirs.len() == 0
            && repo.changes_dirs.len() == 0
    }));
    assert!(app.drawers[Drawer::Graph.index()].expanded);
    assert!(!app.drawers[Drawer::Commits.index()].expanded);
}

#[test]
fn single_repo_collapse_hides_controls_and_status_sections() {
    let mut app = app_of(&["/work"], &["## main...origin/main [ahead 1]\0"]);
    app.drawers[Drawer::Graph.index()].expanded = true;
    let area = Rect::new(0, 0, 60, 24);

    app.begin_draw(area);
    let shown = app.heights(60, 2);
    assert!(shown.message > 0);
    assert_eq!(shown.button, 1);
    assert_eq!(shown.sync, 1);
    let some = Rect::new(0, 1, 60, 1);
    app.place_controls(some, some, some, some);

    app.collapse_all();
    app.begin_draw(area);
    assert!(app.fully_collapsed());
    assert_eq!(app.focus, Focus::List);
    assert_eq!(app.zones.message, Rect::default());
    assert_eq!(app.zones.button, Rect::default());
    assert_eq!(app.zones.sync, Rect::default());
    assert!(!app.rows.iter().any(|row| matches!(
        row,
        Row::StagedHeader(_) | Row::ChangesHeader(_) | Row::Staged(_, _) | Row::Unstaged(_, _)
    )));
    assert!(app.drawers[Drawer::Graph.index()].expanded);

    app.expand_all();
    let shown = app.heights(60, 2);
    assert!(!app.fully_collapsed());
    assert!(shown.message > 0);
    assert_eq!(shown.button, 1);
    assert_eq!(shown.sync, 1);
    assert!(app.rows.iter().any(|row| matches!(row, Row::ChangesHeader(_))));
    assert!(app.drawers[Drawer::Graph.index()].expanded);
}

#[test]
fn single_repo_title_click_toggles_that_repo() {
    let mut app = app_of(&["/work"], &["## main\0"]);
    app.last_width = 60;
    app.last_height = 24;
    app.zones.repo_header = Rect::new(0, 2, 50, 1);

    app.on_mouse(left(5, 2), None, 32, false, 1000);
    assert!(app.repos[0].collapsed);
    app.on_mouse(left(5, 2), None, 32, false, 2000);
    assert!(!app.repos[0].collapsed);
}

#[test]
fn multi_repo_widgets_and_drawer_lines_stay_inside_content_width() {
    for icon in ["\u{f0a30}", "✧"] {
        let tail = inline_sparkle(icon);
        assert_eq!(ratatui::text::Span::raw(tail.as_str()).width(), 3);
    }
    assert_eq!(usize::from(inline_field_width(42)) + 2 + 3, 42);

    let button = commit_button_item(true, false, 42);
    assert_eq!(columns(&button), 42);
    assert!(text(&button).ends_with(' '));
    assert_eq!(button.spans[0].style.bg, Some(Color::Rgb(BUTTON_BLUE)));
    assert!(!text(&button).contains('∨'));
}

#[test]
fn change_action_has_a_stable_three_column_hit_zone() {
    assert!(!change_action_hit(34, 40));
    assert!(change_action_hit(35, 40));
    assert!(change_action_hit(37, 40));
    assert!(!change_action_hit(38, 40));
}

#[test]
fn change_rows_reserve_action_width_only_while_hovered() {
    assert_eq!(change_tail_width(true, false, true), 2);
    assert_eq!(change_tail_width(true, true, true), 8);
    assert_eq!(change_tail_width(false, false, true), 2);
    assert_eq!(change_tail_width(false, true, true), 5);
    assert_eq!(change_tail_width(true, false, false), 0);
}

#[test]
fn change_menu_precedes_the_existing_action_and_status_cells() {
    assert!(!change_menu_hit(31, 40, true));
    assert!(change_menu_hit(32, 40, true));
    assert!(change_menu_hit(34, 40, true));
    assert!(!change_menu_hit(35, 40, true));

    assert!(!change_menu_hit(34, 40, false));
    assert!(change_menu_hit(35, 40, false));
    assert!(change_menu_hit(37, 40, false));
    assert!(!change_menu_hit(38, 40, false));
}

#[test]
fn section_action_hit_tracks_the_glyph_before_the_count_badge() {
    assert_eq!(section_action_start("Changes", 28, 73), 21);
    assert!(section_action_hit(20, "Changes", 28, 73));
    assert!(section_action_hit(21, "Changes", 28, 73));
    assert!(section_action_hit(22, "Changes", 28, 73));
    assert!(!section_action_hit(23, "Changes", 28, 73));
    assert!(!section_action_hit(24, "Changes", 28, 73));
}

#[test]
fn bulk_status_moves_target_the_destination_header() {
    let mut staged = vec![Row::StagedHeader(0)];
    staged.extend((0..73).map(|index| Row::Staged(0, index)));
    staged.push(Row::ChangesHeader(0));
    assert_eq!(status_header_index(&staged, 0, true), Some(0));
    assert_eq!(status_header_index(&staged, 0, false), Some(74));

    assert_eq!(status_header_index(&[Row::ChangesHeader(0)], 0, false), Some(0));
}

#[test]
fn repo_separator_is_full_width_and_not_selectable() {
    assert!(!Row::RepoSeparator.selectable());
    let line = repo_separator_line(28);
    assert_eq!(columns(&line), 28);

    let app = one_repo();
    let graph = row(&app, Row::DrawerHeader(Drawer::Graph));
    assert!(matches!(app.rows[graph - 1], Row::RepoSeparator));
}

#[test]
fn overflowing_lists_reserve_the_scrollbar_column_before_action_layout() {
    assert_eq!(list_content_width(30, 3, 20), 30);
    assert_eq!(list_content_width(30, 73, 20), 29);
    assert_eq!(list_content_width(1, 73, 20), 1);
    assert_eq!(list_content_width(0, 73, 20), 0);

    let content_width = list_content_width(30, 73, 20);
    assert!(change_menu_hit(21, content_width, true));
    assert!(change_menu_hit(23, content_width, true));
    assert!(change_action_hit(24, content_width));
    assert!(change_action_hit(26, content_width));
    assert!(!change_action_hit(27, content_width));
    assert!(!change_action_hit(29, content_width));
}

#[test]
fn directory_actions_use_one_prefix_and_preserve_external_rename_sources() {
    let entries = vec![
        entry("src/nested/one.rs", None, 'M', DiffStat::default()),
        entry("src/two.rs", Some("legacy/two.rs"), 'R', DiffStat::default()),
        entry("README.md", None, 'M', DiffStat::default()),
    ];
    assert_eq!(directory_pathspecs("src", &entries), ["src", "legacy/two.rs"]);
}

#[test]
fn every_change_row_offers_the_full_path_and_stats_tooltip() {
    let path = "plugins/herdr-sidebar/src/a_very_long_filename.rs";
    let stat = DiffStat { added: Some(417), deleted: Some(14) };
    let list = [entry(path, None, 'M', stat)];
    let file = ChangeTreeRow::File { index: 0, depth: 0 };
    let tooltip = change_tree_tooltip(&file, Some(&list[0]), &list, Platform::Other).unwrap();
    assert_eq!(tooltip.path, path);
    assert_eq!(tooltip.stat, stat);

    let directory = ChangeTreeRow::Directory {
        path: "plugins/herdr-sidebar".into(),
        name: "plugins/herdr-sidebar".into(),
        depth: 0,
        expanded: true,
    };
    let list = [
        entry(path, None, 'M', stat),
        entry("README.md", None, 'M', DiffStat { added: Some(3), deleted: None }),
    ];
    let tooltip = change_tree_tooltip(&directory, None, &list, Platform::Other).unwrap();
    assert_eq!(tooltip.path, "plugins/herdr-sidebar");
    assert_eq!(tooltip.stat, stat);
    let tooltip = change_tree_tooltip(&directory, None, &list, Platform::Windows).unwrap();
    assert_eq!(tooltip.path, "plugins\\herdr-sidebar");
    assert_eq!(tooltip.stat, stat);
}

#[test]
fn expanding_a_compacted_path_clears_collapsed_ancestors() {
    let mut collapsed = PathSet::new();
    collapsed.insert("src");
    collapsed.insert("other");
    toggle_collapsed_path(&mut collapsed, "src/components", false);
    assert_eq!(collapsed.paths()[..], ["other".to_string()]);
    toggle_collapsed_path(&mut collapsed, "src/components", true);
    assert!(collapsed.contains("src/components"));
}

#[test]
fn workspace_state_restores_scm_tree_and_viewport_anchors() {
    let mut source = one_repo();
    source.repos[0].staged_collapsed = true;
    source.repos[0].changes_dirs.insert("docs");
    source.repos[0].rebuild_file_rows(source.settings.scm_file_view);
    source.rebuild();
    source.selected = (0..source.rows.len()).find(|index| {
        matches!(
            source.anchor_at(*index),
            Some(ScmAnchor::Changes { ref path, .. }) if path == "src/main.rs"
        )
    });
    assert!(source.selected.is_some());
    source.scroll = row(&source, Row::ChangesHeader(0));
    source.focus = Focus::Commit;
    let expected = source.workspace_state();

    let mut target = one_repo();
    take_over(&mut target, &expected);
    assert!(same_state(&target.workspace_state(), &expected));
}

#[test]
fn workspace_state_keeps_the_multi_repo_separator_above_the_top_anchor() {
    let roots = ["/work", "/work/packages/child"];
    let statuses = ["## main\0?? packages/\0", "## main\0"];
    let mut source = app_of(&roots, &statuses);
    assert!(source.multi());
    assert!(matches!(source.rows.first(), Some(Row::RepoSeparator)));
    source.scroll = 0;
    let shared = source.workspace_state();
    assert_eq!(shared.top_offset, 1);
    assert!(matches!(shared.top, Some(ScmAnchor::Repo(_))));

    let mut target = app_of(&roots, &statuses);
    target.scroll = 4;
    take_over(&mut target, &shared);
    assert_eq!(target.scroll, 0);
    assert!(matches!(target.rows.first(), Some(Row::RepoSeparator)));
    assert!(same_state(&target.workspace_state(), &shared));
}

#[test]
fn drawers_are_shared_under_their_own_names() {
    for (i, drawer) in Drawer::all().into_iter().enumerate() {
        assert_eq!(drawer.index(), i);
        assert_eq!(app_drawer(sync_drawer(drawer)), drawer);
    }
}

#[test]
fn a_view_without_repositories_says_why() {
    let (app, _) = App::new(
        "/tmp".to_string(),
        Vec::new(),
        Some("git is missing".to_string()),
        settings(),
        IconTheme::Emoji,
        false,
        None,
        Platform::Other,
        0,
    );
    assert_eq!(app.discover_err, "git is missing");
    assert_eq!(
        app.no_repo_message(),
        "Not a git repository.\n\ngit is missing\n\nOpen this pane inside a repo,\nor press q to quit."
    );
    assert_eq!(app.header_title(), "Source Control");
}

#[test]
fn rows_of_one_repository_begin_with_its_changes() {
    let app = one_repo();
    assert_eq!(app.rows[0], Row::ChangesHeader(0));
    assert_eq!(app.header_title(), "work");
    assert_eq!(app.header_right(), "main ");
    assert_eq!(app.repos[0].status.unstaged.len(), 2);
    assert!(matches!(
        app.row_content(0),
        RowContent::Section { staged: false, collapsed: false, count: 2, .. }
    ));
}

#[test]
fn a_commit_needs_a_message_and_staged_changes() {
    let mut app = one_repo();
    assert!(app.commit().is_empty());
    assert_eq!(app.flash, Some(("Commit message is empty.".to_string(), true)));
    assert_eq!(app.focus, Focus::Message);
    for c in " fix ".chars() {
        app.on_message_key(Key::plain(KeyCode::Char(c)));
    }
    assert!(app.commit().is_empty());
    assert_eq!(app.flash, Some(("No staged changes to commit.".to_string(), true)));
    refresh(&mut app, &["## main\0M  src/main.rs\0"]);
    match &app.commit()[..] {
        [Effect::Commit(0, message)] => assert_eq!(message, "fix"),
        _ => panic!("expected a commit"),
    }
    let effects = app.committed(0, Ok("[main 1234567] fix".to_string()));
    assert!(matches!(effects[..], [Effect::Refresh]));
    assert!(app.repos[0].message.is_empty());
    assert_eq!(app.flash, Some(("[main 1234567] fix".to_string(), false)));
}

#[test]
fn a_failed_commit_keeps_its_message() {
    let mut app = one_repo();
    app.on_message_key(Key::plain(KeyCode::Char('x')));
    app.committed(0, Err("hook failed".to_string()));
    assert_eq!(app.repos[0].message, ['x']);
    assert_eq!(app.flash, Some(("hook failed".to_string(), true)));
}

#[test]
fn syncing_needs_an_upstream() {
    let mut app = one_repo();
    assert!(app.sync_changes().is_empty());
    assert_eq!(app.flash, Some(("no upstream to sync with".to_string(), true)));
    refresh(&mut app, &["## main...origin/main [ahead 2, behind 1]\0"]);
    assert_eq!(app.sync_label().as_deref(), Some("⇅ Sync Changes  2↑ 1↓"));
    assert!(matches!(app.sync_changes()[..], [Effect::Sync(0)]));
    assert!(app.syncing);
    assert!(app.sync_changes().is_empty(), "one sync at a time");
    app.synced(Some(Ok("Already up to date.".to_string())));
    assert!(!app.syncing);
}

#[test]
fn suggestions_fill_the_message_box() {
    let mut app = one_repo();
    assert!(matches!(app.suggest_message()[..], [Effect::Suggest(0)]));
    assert!(!app.suggestion_loaded(Ok((" \n".to_string(), 0))));
    assert_eq!(app.flash, Some(("no changes to describe".to_string(), true)));
    assert!(app.suggestion_loaded(Ok(("+x".to_string(), 0))));
    assert!(app.suggesting);
    app.suggested(Some("Add x".to_string()));
    assert_eq!(app.repos[0].message.iter().collect::<String>(), "Add x");
    assert_eq!(app.focus, Focus::Message);
    app.suggested(None);
    assert_eq!(app.flash, Some(("✧ generation failed".to_string(), true)));
}

#[test]
fn directories_fold_in_the_tree() {
    let mut app = one_repo();
    let before = app.rows.len();
    let docs = (0..app.repos[0].changes_rows.len())
        .find(|i| app.status_directory(0, *i, false).as_deref() == Some("docs"))
        .unwrap();
    app.toggle_status_directory(0, docs, false);
    assert!(app.repos[0].changes_dirs.contains("docs"));
    assert_eq!(app.rows.len(), before - 1);
    app.toggle_status_directory(0, docs, false);
    assert_eq!(app.rows.len(), before);
}

#[test]
fn arrows_walk_the_tree() {
    let rows = [
        ChangeTreeRow::Directory {
            path: "src".into(),
            name: "src".into(),
            depth: 0,
            expanded: true,
        },
        ChangeTreeRow::File { index: 0, depth: 1 },
    ];
    assert_eq!(tree_nav_target(&rows[0], &rows, 0, true), Some(1));
    assert_eq!(tree_nav_target(&rows[0], &rows, 0, false), None);
    assert_eq!(tree_nav_target(&rows[1], &rows, 1, false), Some(0));
    assert_eq!(tree_nav_target(&rows[1], &rows, 1, true), None);
}

#[test]
fn rows_are_hit_where_they_are_drawn() {
    let mut app = app_of(&["/work", "/work/child"], &["## main\0", "## main\0"]);
    app.begin_draw(Rect::new(0, 0, 40, 30));
    let visible = app.place_list(Rect::new(0, 3, 40, 25));
    assert!(visible > 0);
    for index in 0..visible {
        if let Some(y) = app.row_y(app.scroll + index) {
            assert_eq!(app.row_at(y), Some(app.scroll + index));
        }
    }
    assert_eq!(app.row_at(2), None);
}

#[test]
fn the_selected_row_comes_into_sight() {
    let mut app = one_repo();
    let last = app.rows.len() - 1;
    app.select(last);
    app.snap = true;
    app.place_list(Rect::new(0, 0, 40, 3));
    assert!(app.row_y(last).is_some());
}

#[test]
fn the_context_menu_of_a_new_file_can_discard_it() {
    let labels: Vec<&str> = file_menu_entries('U', false)
        .iter()
        .filter_map(|entry| match entry {
            MenuEntry::Action(_, label) => Some(*label),
            MenuEntry::Separator => None,
        })
        .collect();
    assert!(labels.contains(&"Stage Changes"));
    assert!(labels.iter().any(|label| label.contains("Discard")));
    let staged = file_menu_entries('M', true);
    assert!(staged
        .iter()
        .any(|entry| matches!(entry, MenuEntry::Action(MenuAction::StageOrUnstage, "Unstage Changes"))));
    assert!(drawer_menu_entries(Drawer::Graph, &DrawerRef::Nothing).is_none());
}

#[test]
fn discarding_asks_first() {
    let mut app = one_repo();
    app.file_menu_action(
        MenuAction::Discard,
        0,
        entry("src/main.rs", None, 'M', DiffStat::default()),
        false,
    );
    assert!(matches!(app.overlay, Some(Overlay::ConfirmDiscard { .. })));
    let effects = app.overlay_key(KeyCode::Char('n'), 32);
    assert!(effects.is_empty());
    assert!(app.overlay.is_none());
    app.file_menu_action(
        MenuAction::Discard,
        0,
        entry("src/main.rs", None, 'M', DiffStat::default()),
        false,
    );
    let effects = app.overlay_key(KeyCode::Char('y'), 32);
    assert!(effects.iter().any(|e| matches!(e, Effect::Discard(0, _))));
}

#[test]
fn settings_stand_in_their_rows() {
    for (i, setting) in settings_order().into_iter().enumerate() {
        assert_eq!(setting_index(setting), i);
        assert_eq!(setting_in_row(i), Some(setting));
    }
    assert_eq!(setting_in_row(8), None);
    let rows = settings_rows(
        settings(),
        IconTheme::Emoji,
        false,
        true,
        "Nord",
        "tree",
        "work",
    );
    assert_eq!(rows.len(), 8);
    assert_eq!(rows[setting_index(Setting::IconTheme)].value, "emoji");
    assert_eq!(rows[setting_index(Setting::DiffTheme)].value, "Nord");
    assert_eq!(rows[setting_index(Setting::HideUnmodified)].value, "on");
    assert_eq!(rows[setting_index(Setting::Hotkeys)].value, "shown");
}

#[test]
fn quitting_ends_the_view() {
    let mut app = one_repo();
    let (_, exit) = app.on_key(Key::plain(KeyCode::Char('q')), 32);
    assert_eq!(exit, Some(Exit::Quit));
}

#[test]
fn messages_wrap_into_their_box() {
    let message: Vec<char> = "hello world".chars().collect();
    let (rows, row, column) = wrap_message(&message, 11, 6);
    assert_eq!(rows.concat(), "hello world");
    assert_eq!(rows, ["hello ", "world"]);
    assert_eq!((row, column), (1, 5));
    assert_eq!(message_window(10, 9, true), (6, 4));
    assert_eq!(cursor_in_box(&message, 11, 6), (1, 5));
}

#[test]
fn message_boxes_are_as_wide_as_the_pane() {
    let message: Vec<char> = "hi".chars().collect();
    let lines = message_box_item(&message, 2, "main", true, " ✧ ", 30);
    assert_eq!(lines.len(), 3);
    assert!(lines.iter().all(|line| columns(line) == 30));
    assert!(text(&lines[1]).contains("hi"));
}

#[test]
fn section_counts_stand_at_the_right() {
    let line = section_item("Changes", false, Some(73), 28, Some('+'));
    assert_eq!(columns(&line), 28);
    assert!(text(&line).starts_with(" ▾ Changes"));
    assert!(text(&line).ends_with("+  73  "));
    assert!(line.spans.iter().any(|s| s.style.bg == Some(Color::Rgb(BADGE_BLUE))));
    assert_eq!(text(&section_item("Graph", true, None, 28, None)), " ▸ Graph");
}

#[test]
fn counts_of_nothing_are_left_out() {
    let spans = diff_stat_spans(DiffStat { added: Some(3), deleted: Some(0) });
    assert_eq!(spans.len(), 1);
    assert_eq!(spans[0].text, "+3");
    assert_eq!(spans[0].style.fg, Some(Color::Rgb(ADDED)));
    let spans = diff_stat_spans(DiffStat { added: Some(1), deleted: Some(2) });
    assert_eq!(spans[2].text, "-2");
    assert_eq!(spans[2].style.fg, Some(Color::Rgb(DELETED)));
    assert!(diff_stat_spans(DiffStat::default()).is_empty());
    assert_eq!(letter_color('M'), Color::Rgb(MODIFIED));
}

/// A row, each text of it cut to its room, and what was asked to be cut.
fn change_line(
    row: &ChangeTreeRow,
    entry: Option<&FileEntry>,
    tail: ChangeTail,
    tree: bool,
    platform: Platform,
) -> (Line, Vec<(String, usize)>) {
    let mut asked = Vec::new();
    let mut cuts: Vec<String> = Vec::new();
    loop {
        match change_tree_item(row, entry, 30, plain_span("R"), tail, tree, 1, platform, &cuts) {
            RowStep::Cut(text, room) => {
                cuts.push(text.chars().take(room).collect());
                asked.push((text, room));
            }
            RowStep::Done(line) => return (line, asked),
        }
    }
}

#[test]
fn change_rows_end_with_their_letter() {
    let (line, asked) = change_line(
        &ChangeTreeRow::File { index: 0, depth: 0 },
        Some(&entry("src/main.rs", None, 'M', DiffStat::default())),
        ChangeTail::Status { action: Some('+'), menu: true },
        true,
        Platform::Other,
    );
    assert_eq!(columns(&line), 30);
    assert!(text(&line).contains("main.rs"));
    assert!(text(&line).ends_with(" + M "));
    // Four columns of indent, one of the icon, and nine behind the texts.
    assert_eq!(asked, vec![("main.rs".to_string(), 16)]);
}

#[test]
fn further_texts_of_a_change_share_what_is_left() {
    let change = entry("src/api/mod.rs", Some("old/api.rs"), 'R', DiffStat::default());
    let file = ChangeTreeRow::File { index: 0, depth: 0 };
    let tail = ChangeTail::History { menu: false };
    let (line, asked) = change_line(&file, Some(&change), tail, false, Platform::Other);
    assert_eq!(
        asked,
        vec![
            ("mod.rs".to_string(), 22),
            (" src/api".to_string(), 16),
            (" ← old/api.rs".to_string(), 8),
        ]
    );
    assert_eq!(columns(&line), 30);
    assert_eq!(text(&line), "    Rmod.rs src/api ← old/a R ");
    let (_, asked) = change_line(&file, Some(&change), tail, true, Platform::Windows);
    assert_eq!(asked[1].0, " ← old\\api.rs");
    assert_eq!(asked.len(), 2);
    let (line, asked) = change_line(&file, None, tail, false, Platform::Other);
    assert!(asked.is_empty() && text(&line).is_empty());
}

#[test]
fn drawer_lines_show_whether_they_are_open() {
    assert!(drawer_line_text("a1b2c3d fix", Some(true)).contains("▾"));
    assert!(drawer_line_text("a1b2c3d fix", Some(false)).contains("▸"));
    let line = drawer_line(Drawer::Commits, "a1b2c3d fix", "   a1b2c3d fix".to_string());
    assert_eq!(text(&line), "   a1b2c3d fix");
}

#[test]
fn drawer_lines_and_their_refs_stand_side_by_side() {
    let mut app = one_repo();
    app.drawers[Drawer::Branches.index()].expanded = true;
    app.panel_loaded(
        Drawer::Branches,
        PanelLoad::Lines(Ok(vec!["* main".to_string(), "  topic".to_string()])),
    );
    app.drawers_loaded(true);
    assert_eq!(
        app.drawer_ref(Drawer::Branches, 1),
        Some(DrawerRef::Branch { name: "topic".into(), current: false })
    );
    let at = row(&app, Row::DrawerLine(Drawer::Branches, 1));
    app.select(at);
    assert!(matches!(
        app.toggle_expanded_ref(Drawer::Branches, 1)[..],
        [Effect::LoadRef(Drawer::Branches, 1)]
    ));
    let file = RefFile {
        entry: entry("a.rs", None, 'A', DiffStat::default()),
        old_spec: "topic^".into(),
        new_spec: "topic".into(),
    };
    app.ref_loaded(Drawer::Branches, 1, Ok(vec![file]));
    assert!(app.rows.iter().any(|row| matches!(row, Row::HistoryTree(_))));
    app.panel_loaded(Drawer::Branches, PanelLoad::Lines(Err("gone".to_string())));
    assert_eq!(app.drawers[Drawer::Branches.index()].refs.len(), 1);
}

#[test]
fn popups_stay_in_the_pane() {
    let entries = file_menu_entries('M', false);
    let rect = place_popup(38, 22, &entries, 40, 24);
    assert!(rect.x + rect.width <= 40);
    assert!(rect.y + rect.height <= 24);
}

#[test]
fn tooltips_stay_in_their_columns() {
    let bounds = Rect::new(0, 0, 40, 20);
    assert_eq!(tooltip_columns(bounds, 100), Some(40));
    assert_eq!(tooltip_columns(bounds, 20), Some(24));
    assert_eq!(tooltip_rows(bounds, 3, true), 3);
    let area = place_tooltip(bounds, 18, 30, 24, 5);
    assert!(area.x + area.width <= 40);
    assert!(area.y + area.height <= 18);
}

#[test]
fn chips_of_the_view_switcher_stand_apart() {
    let mut app = one_repo();
    app.place_activity_bar(Rect::new(0, 0, 40, 3), 4, 4, 4, 3);
    assert_eq!(app.zones.explorer, (1, 5));
    assert_eq!(app.zones.source_control, (6, 10));
    assert_eq!(app.zones.search, (11, 15));
    assert_eq!(app.zones.activity_row, 1);
}

#[test]
fn a_dialog_reports_once() {
    let mut app = one_repo();
    app.picking = true;
    app.poll_picker(Picked::Waiting);
    assert!(app.picking);
    app.poll_picker(Picked::Unusable("no such folder".to_string()));
    assert!(!app.picking);
    assert!(matches!(app.flash, Some((_, true))));
}

#[test]
fn the_heart_beats_every_five_seconds() {
    let mut app = one_repo();
    app.pane_id = Some("p1".to_string());
    assert!(!app.heartbeat(BEAT - 1));
    assert!(app.heartbeat(BEAT));
    assert!(!app.heartbeat(BEAT + 1));
}

#[test]
fn the_buttons_of_the_title_fold_what_is_open() {
    let mut app = app_of(&["/work", "/work/child"], &["## main\0", "## main\0"]);
    assert!(app.header_actions().contains(&TitleAction::CollapseAll));
    app.collapse_all();
    assert!(app.header_actions().contains(&TitleAction::ExpandAll));
}

#[test]
fn moving_by_more_than_the_list_stops_at_its_ends() {
    let mut app = one_repo();
    app.select(0);
    app.move_by(true, 1000);
    let last = (0..app.rows.len()).rev().find(|i| app.rows[*i].selectable());
    assert_eq!(app.selected, last);
    app.move_by(false, 1000);
    let first = (0..app.rows.len()).find(|i| app.rows[*i].selectable());
    assert_eq!(app.selected, first);
}
