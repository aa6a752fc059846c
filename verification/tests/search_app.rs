use herdr_sidebar::input::{Key, KeyCode, Mouse, MouseKind, Rect};
use herdr_sidebar::scm_app::layout::ScmFileView;
use herdr_sidebar::search_app::app::{
    ActivityZones, App, BodyGeom, DisplayRow, Effect, Focus, Overlay, SearchEvent, SearchGroup,
    SearchMatch, Spawned, ToggleKind, SEARCH_DEBOUNCE,
};
use herdr_sidebar::search_app::draw::{split_file, toggle_label};
use herdr_sidebar::search_app::events::{setting_in_row, Setting, SETTINGS};
use herdr_sidebar::search_app::mouse::{list_content_width, row_index_at, settings_index};
use herdr_sidebar::search_app::query::{
    build_preview_regex, read_match, search_command, split_globs, validate_pattern, SearchState,
    UiMatch,
};
use herdr_sidebar::search_app::snippet::{highlight_spans, ranges_are_whole, snippet_window};
use herdr_sidebar::sidebar::{Exit, IconTheme, Settings, SideView};
use herdr_sidebar::style::{Color, Line, Style};

fn settings() -> Settings {
    Settings {
        merged: false,
        active: SideView::Search,
        icons: None,
        diff_theme: 0,
        hide_unmodified: true,
        scm_file_view: ScmFileView::Tree,
        show_hotkeys: true,
        auto_open: false,
    }
}

fn new_app() -> App {
    App::new("/tmp".to_string(), None, settings(), IconTheme::Material, None, 0)
}

fn state(query: &str) -> SearchState {
    SearchState {
        query: query.to_string(),
        included: String::new(),
        excluded: String::new(),
        regex: false,
        case_sensitive: false,
        whole_word: false,
    }
}

fn found(path: &str, number: usize, line: &str, ranges: &[(usize, usize)]) -> UiMatch {
    UiMatch {
        path: path.to_string(),
        line_number: number,
        line_text: line.to_string(),
        submatches: ranges.to_vec(),
    }
}

fn mouse(kind: MouseKind, column: u16, row: u16) -> Mouse {
    Mouse { kind, column, row }
}

fn type_in(app: &mut App, text: &str, now: u64) {
    for c in text.chars() {
        app.on_key(Key::plain(KeyCode::Char(c)), 32, now);
    }
}

fn text(line: &Line) -> String {
    line.spans.iter().map(|span| span.text.as_str()).collect()
}

#[test]
fn split_globs_trims_and_skips_empty_entries() {
    assert_eq!(
        split_globs("src/**/*.rs, Cargo.toml , ,tests/**"),
        ["src/**/*.rs", "Cargo.toml", "tests/**",]
    );
}

#[test]
fn snippet_window_keeps_the_first_match_visible() {
    let line = "prefix prefix prefix SEARCH suffix suffix";
    let start = line.find("SEARCH").unwrap();
    let (snippet, ranges) = snippet_window(line, &[(start, start + 6)], 18);
    assert!(snippet.contains("SEARCH"), "{snippet:?}");
    assert_eq!(ranges.len(), 1);
    assert_eq!(&snippet[ranges[0].0..ranges[0].1], "SEARCH");
}

#[test]
fn preview_regex_wraps_whole_words_for_literal_searches() {
    let re = build_preview_regex("main", false, false, true).unwrap();
    assert!(re.is_match("fn main()"));
    assert!(!re.is_match("maintain"));
}

#[test]
fn auto_search_with_empty_query_clears_without_error() {
    let mut app = new_app();
    app.groups.push(SearchGroup {
        path: "src/main.rs".into(),
        matches: vec![SearchMatch {
            line_number: 1,
            line_text: "fn main() {}".into(),
            submatches: vec![(3, 7)],
        }],
    });
    app.rebuild_rows();
    app.summary = Some("stale".into());

    app.start_search(false);

    assert!(app.inline_error.is_none());
    assert!(app.groups.is_empty());
    assert!(app.rows.is_empty());
    assert!(app.summary.is_none());
    assert!(!app.searching);
}

#[test]
fn query_toggle_clicks_update_state() {
    let mut app = new_app();
    app.begin_draw(Rect::new(0, 0, 40, 20));
    app.place_toggles(Rect::new(1, 3, 38, 1), 4, 4, 4);

    assert!(app.focused_toggle() == ToggleKind::Case);
    for (rect, kind) in app.toggle_rects.clone() {
        app.on_mouse(mouse(MouseKind::LeftDown, rect.x, rect.y), None, 32, false, 0);
        assert!(app.toggle_on(kind), "{} did not toggle on", toggle_label(kind));
    }

    assert!(app.case_sensitive);
    assert!(app.whole_word);
    assert!(app.regex);
    assert!(app.focus == Focus::Query);
}

#[test]
fn rg_command_applies_search_toggles_and_filters() {
    let state = SearchState {
        query: "ignored".into(),
        included: "src/**/*.rs".into(),
        excluded: "target/**".into(),
        regex: true,
        case_sensitive: true,
        whole_word: true,
    };
    let args = search_command(&state, "app.*");

    assert!(args.iter().any(|arg| arg == "--word-regexp"));
    assert!(!args.iter().any(|arg| arg == "--fixed-strings"));
    assert!(!args.iter().any(|arg| arg == "--ignore-case"));
    assert!(args.windows(2).any(|args| args == ["-g", "src/**/*.rs"]));
    assert!(args.windows(2).any(|args| args == ["-g", "!target/**"]));
    assert!(args.windows(2).any(|args| args == ["-e", "app.*"]));
}

#[test]
fn hovering_activity_bar_does_not_switch_views() {
    let mut app = new_app();
    let before = app.settings.active;
    app.activity = ActivityZones {
        row: 1,
        explorer: (0, 3),
        source_control: (4, 7),
        search: (8, 11),
    };
    let (_, exit) = app.on_mouse(mouse(MouseKind::Moved, 5, 1), None, 32, false, 0);
    assert!(exit.is_none());
    assert_eq!(app.settings.active, before);
}

#[test]
fn hovering_header_buttons_does_not_activate_them() {
    let mut app = new_app();
    app.settings.merged = true;
    app.begin_draw(Rect::new(0, 0, 40, 20));
    app.place_activity_bar(Rect::new(0, 0, 40, 3), 4, 4, 4, 3);

    for rect in [app.zones.gear, app.zones.redraw] {
        app.on_mouse(mouse(MouseKind::Moved, rect.x, rect.y), None, 32, false, 0);
    }

    assert!(app.overlay.is_none());
    assert!(!app.redraw_requested);
}

#[test]
fn clicking_the_activity_bar_switches_views() {
    let mut app = new_app();
    app.settings.merged = true;
    app.place_activity_bar(Rect::new(0, 0, 40, 3), 4, 4, 4, 3);
    let (_, exit) = app.on_mouse(
        mouse(MouseKind::LeftDown, app.activity.explorer.0, app.activity.row),
        None,
        32,
        false,
        0,
    );
    assert_eq!(exit, Some(Exit::Switch));
    assert_eq!(app.settings.active, SideView::Explorer);
}

#[test]
fn literal_searches_ignore_case_and_patterns() {
    let args = search_command(&state("x"), "a.b");
    assert!(args.iter().any(|arg| arg == "--fixed-strings"));
    assert!(args.iter().any(|arg| arg == "--ignore-case"));
    assert!(!args.iter().any(|arg| arg == "--word-regexp"));
    let re = build_preview_regex("a.b", false, false, false).unwrap();
    assert!(re.is_match("A.B"));
    assert!(!re.is_match("axb"));
    let re = build_preview_regex("a.b", true, true, false).unwrap();
    assert!(re.is_match("axb"));
    assert!(!re.is_match("AXB"));
}

#[test]
fn broken_patterns_are_refused() {
    assert!(validate_pattern("(", true, false, false).is_err());
    assert!(validate_pattern("(", false, false, false).is_ok());
    let mut app = new_app();
    app.regex = true;
    app.query = "(".to_string();
    let effects = app.start_search(true);
    assert!(effects.is_empty());
    assert!(app.inline_error.is_some());
    assert!(!app.searching);
}

#[test]
fn a_search_without_a_query_says_so() {
    let mut app = new_app();
    assert!(app.start_search(true).is_empty());
    assert_eq!(app.inline_error.as_deref(), Some("Enter a search term"));
}

#[test]
fn typing_searches_after_a_pause() {
    let mut app = new_app();
    type_in(&mut app, "fn", 1000);
    assert_eq!(app.query, "fn");
    assert_eq!(app.pending_search, Some(1000 + SEARCH_DEBOUNCE));
    assert!(app.tick(1000).is_empty());
    match &app.tick(1000 + SEARCH_DEBOUNCE)[..] {
        [Effect::Search(args)] => assert!(args.iter().any(|arg| arg == "fn")),
        _ => panic!("expected a search"),
    }
    assert!(app.searching);
    app.search_spawned(Spawned::Running);
    app.poll_running(vec![
        SearchEvent::Match(found("src/a.rs", 3, "fn a()", &[(0, 2)])),
        SearchEvent::Match(found("src/b.rs", 1, "fn b()", &[(0, 2)])),
        SearchEvent::Match(found("src/a.rs", 9, "fn c()", &[(0, 2)])),
        SearchEvent::Finished,
    ]);
    assert_eq!(app.groups.len(), 2, "one group for each file");
    assert_eq!(app.groups[0].matches.len(), 2);
    assert_eq!(app.summary.as_deref(), Some("3 matches in 2 files"));
    assert!(!app.running);
    assert_eq!(
        app.rows,
        [
            DisplayRow::Header(0),
            DisplayRow::Match { group: 0, item: 0 },
            DisplayRow::Match { group: 0, item: 1 },
            DisplayRow::Header(1),
            DisplayRow::Match { group: 1, item: 0 },
        ]
    );
    app.select_first_result();
    assert_eq!(app.selected, Some(1));
    app.move_selection(true);
    app.move_selection(true);
    assert_eq!(app.selected, Some(4), "heads are skipped");
    app.move_selection(true);
    assert_eq!(app.selected, Some(4));
    app.select_last_result();
    assert_eq!(app.selected, Some(4));
    assert!(app.open_selected_preview().is_empty(), "a preview needs a pane");
    app.pane_id = Some("p1".to_string());
    assert!(matches!(app.open_selected_preview()[..], [Effect::Preview(_)]));
}

#[test]
fn a_new_search_stops_the_running_one() {
    let mut app = new_app();
    app.query = "x".to_string();
    app.start_search(true);
    app.search_spawned(Spawned::Running);
    let effects = app.start_search(true);
    assert!(matches!(effects[..], [Effect::Cancel, Effect::Search(_)]));
}

#[test]
fn ripgrep_can_be_missing() {
    let mut app = new_app();
    app.query = "x".to_string();
    app.start_search(true);
    app.search_spawned(Spawned::Missing);
    assert_eq!(app.rg_error.as_deref(), Some("ripgrep (`rg`) is not available."));
    assert!(!app.searching);
    app.rg_checked(true);
    assert_eq!(app.rg_error, None);
    app.start_search(true);
    app.search_spawned(Spawned::Unreadable);
    assert_eq!(app.inline_error.as_deref(), Some("Search failed to capture rg output"));
}

#[test]
fn nothing_found_is_said() {
    let mut app = new_app();
    app.query = "x".to_string();
    app.start_search(true);
    app.search_spawned(Spawned::Running);
    app.poll_running(vec![SearchEvent::Finished]);
    assert_eq!(app.summary.as_deref(), Some("No results"));
}

#[test]
fn messages_of_ripgrep_are_read() {
    let m = read_match(
        "match",
        Some("././src/a.rs".to_string()),
        Some("let x;\r\n".to_string()),
        None,
        vec![(4, 5)],
    )
    .unwrap();
    assert_eq!(m.path, "src/a.rs");
    assert_eq!(m.line_text, "let x;");
    assert_eq!(m.line_number, 1);
    assert!(read_match("begin", Some("a".into()), Some("b".into()), Some(1), vec![]).is_none());
    assert!(read_match("match", None, Some("b".into()), Some(1), vec![]).is_none());
}

#[test]
fn shared_queries_are_taken_over() {
    let mut app = new_app();
    app.query = "needle".to_string();
    app.whole_word = true;
    let shared = app.workspace_state();
    let mut other = new_app();
    other.apply_workspace_state(&shared);
    assert!(other.workspace_state().same(&shared));
    assert_eq!(other.query, "needle");
}

#[test]
fn tab_goes_through_the_fields_and_back() {
    let mut app = new_app();
    for _ in 0..5 {
        let before = app.focus;
        app.focus = app.next_focus();
        assert!(app.prev_focus() == before);
    }
}

#[test]
fn snippets_are_cut_at_characters() {
    let line = "äöüäöüäöüäöü";
    let (snippet, ranges) = snippet_window(line, &[(6, 8)], 20);
    assert!(ranges_are_whole(&snippet, &ranges));
    assert!(!ranges_are_whole("ä", &[(0, 1)]));
}

#[test]
fn wide_characters_leave_the_first_find_in_sight() {
    let line = "abcd😀xy😀 and more text";
    let at = line.find("😀 ").unwrap();
    let (snippet, ranges) = snippet_window(line, &[(at, at + 4)], 11);
    assert_eq!(&snippet[ranges[0].0..ranges[0].1], "😀");
}

#[test]
fn finds_are_highlighted() {
    let base = Style::default();
    let lit = Style::default().fg(Color::Yellow);
    let spans = highlight_spans("one two", &[(4, 7)], base, lit);
    assert_eq!(spans.len(), 2);
    assert_eq!((spans[0].text.as_str(), spans[0].style), ("one ", base));
    assert_eq!((spans[1].text.as_str(), spans[1].style), ("two", lit));
}

#[test]
fn result_rows_show_their_lines() {
    let mut app = new_app();
    app.push_match(found("src/a.rs", 3, "fn a()", &[(0, 2)]));
    assert_eq!(split_file("src/a.rs"), ("a.rs".to_string(), "src".to_string()));
    let line = app.result_item(app.rows[1], false, true, 30, "R", None, String::new());
    assert!(text(&line).contains("fn a()"));
    let head = app.result_item(app.rows[0], false, false, 30, "R", None, "src".to_string());
    assert!(text(&head).contains("a.rs"));
    assert!(text(&head).contains('1'));
}

#[test]
fn settings_have_their_rows() {
    assert_eq!(SETTINGS, 6);
    assert_eq!(setting_in_row(2), Some(Setting::DiffTheme));
    assert_eq!(setting_in_row(6), None);
    let mut app = new_app();
    app.open_settings();
    assert!(matches!(app.overlay, Some(Overlay::Settings { selected: 0, .. })));
    let rows = app.settings_rows("Nord");
    assert_eq!(rows.len(), 6);
    assert_eq!(rows[2].2, "Nord");
    let (_, exit) = app.on_key(Key::plain(KeyCode::Esc), 32, 0);
    assert!(exit.is_none());
    assert!(app.overlay.is_none());
}

#[test]
fn rows_are_found_under_the_mouse() {
    let body = BodyGeom { top: 5, height: 3, offset: 2 };
    assert_eq!(row_index_at(body, 10, 5), Some(2));
    assert_eq!(row_index_at(body, 10, 7), Some(4));
    assert_eq!(row_index_at(body, 10, 8), None);
    assert_eq!(row_index_at(body, 3, 6), None);
    assert_eq!(list_content_width(30, 73, 20), 29);
    let rect = Rect::new(2, 2, 30, 12);
    assert_eq!(settings_index(rect, 1, 3, 6), None);
}

#[test]
fn a_preview_that_failed_is_noticed() {
    let mut app = new_app();
    app.preview_ended(Err("no pane".to_string()));
    assert!(app.notice.is_some());
}
