use herdr_sidebar::diffview::{render_expanded, DiffSource, DiffSourceKind, RenderedDiff};
use herdr_sidebar::input::{Key, KeyCode, Modifiers, Mouse, MouseKind, Platform, Rect};
use herdr_sidebar::style::{plain_line, Color, Line, Span, Style};
use herdr_sidebar::syntax::{Grammars, DEFAULT_DIFF_THEME};
use herdr_sidebar::viewer::comments::{
    agent_targets, bracketed_paste, copy_to_clipboard, export_comments_with, footer_entries,
    format_comments, is_copy_shortcut, pending_comment, remove_comments_for_file, AgentPane,
    ClipboardStep, CommentDraft, FooterAction, PendingComment, SavedComment,
    COPY_SELECTION_LABEL, COPY_SELECTION_LABEL_MAC,
};
use herdr_sidebar::viewer::doc::{Doc, SOURCE_LINE_HIGHLIGHT};
use herdr_sidebar::viewer::draw::{doc_row_at, editor_rows, highlight_cells, layout_footer};
use herdr_sidebar::viewer::load::{
    diff_args, load_diff, load_file, load_show, prepare_new_request, ref_diff_args,
    rendered_markdown, show_args, wants_rendering, GitOutput, Search, MAX_LINES,
};
use herdr_sidebar::viewer::park::{build_tree, can_restore, replay, restore_parked, ParkedPane};
use herdr_sidebar::viewer::peers::{focused_peer_in_tab, viewer_pane_in_tab, PeerPane};
use herdr_sidebar::viewer::preview::{Effect, InlinePreview, NOTICE_DURATION, REFRESH};
use herdr_sidebar::viewer::request::{
    control_path, control_request, diff_line_request, diff_request, file_line_request,
    file_request, inline_request, owner_pane_id, parse_request, ref_diff_request,
    request_file_path, request_path, same_preview_file, same_request, search_file_request, show_request, Request,
    INLINE_CONTROL_PREFIX,
};
use herdr_sidebar::viewer::rows::{
    HitPoint, SelectableRow, SourceKind, TextPoint, TextSelection,
};
use herdr_sidebar::viewer::standalone::{
    close_in_tab, open_in_pane, read_control, read_inline_control, Idle, OpenStep, Standalone,
    Turn,
};
use herdr_sidebar::viewer::wrap::reflow_diff_lines;

fn text(line: &Line) -> String {
    line.spans.iter().map(|span| span.text.as_str()).collect()
}

fn columns(line: &Line) -> usize {
    line.spans.iter().map(|span| ratatui::text::Span::raw(span.text.as_str()).width()).sum()
}

fn plain_span(text: &str) -> Span {
    Span { text: text.to_string(), style: Style::default() }
}

fn point(row: usize, byte: usize) -> TextPoint {
    TextPoint { row, byte }
}

fn hit(before: (usize, usize), after: (usize, usize)) -> HitPoint {
    HitPoint { before: point(before.0, before.1), after: point(after.0, after.1) }
}

fn diff_row(text: &str, old: Option<usize>, new: Option<usize>, kind: DiffSourceKind) -> SelectableRow {
    SelectableRow::diff(DiffSource { text: text.to_string(), old_line: old, new_line: new, kind })
}

fn sources(rendered: Vec<Option<DiffSource>>) -> Vec<Option<SelectableRow>> {
    rendered.into_iter().map(|source| source.map(SelectableRow::diff)).collect()
}

fn diff_doc(name: &str, rendered: RenderedDiff) -> Doc {
    Doc::new(name.to_string(), String::new(), rendered.lines, false, rendered.folds)
        .with_sources(sources(rendered.sources))
}

fn file_doc(name: &str, lines: &[&str]) -> Doc {
    let rows = lines
        .iter()
        .enumerate()
        .map(|(i, line)| Some(SelectableRow::file(line, i + 1)))
        .collect();
    Doc::new(
        name.to_string(),
        String::new(),
        lines.iter().map(|line| plain_line(line)).collect(),
        true,
        Vec::new(),
    )
    .with_sources(rows)
}

fn pending(location: &str, snippet: &str, removed: bool, document: Request) -> PendingComment {
    PendingComment {
        location: location.to_string(),
        snippet: snippet.to_string(),
        removed,
        document,
        range: TextSelection { anchor: point(1, 2), cursor: point(1, 5) },
    }
}

fn comment(location: &str, snippet: &str, document: Request, body: &str) -> SavedComment {
    SavedComment { pending: pending(location, snippet, false, document), body: body.to_string() }
}

fn peer(pane: &str, tab: &str, focused: bool, stamp: Option<Option<&str>>) -> PeerPane {
    PeerPane {
        pane_id: Some(pane.to_string()),
        tab_id: Some(tab.to_string()),
        focused,
        label: None,
        viewer_stamp: stamp.map(|stamp| stamp.map(str::to_string)),
    }
}

fn agent(pane: &str, tab: &str, agent: Option<&str>, title: Option<&str>) -> AgentPane {
    AgentPane {
        pane_id: pane.to_string(),
        tab_id: tab.to_string(),
        agent: agent.map(str::to_string),
        display_agent: None,
        title: title.map(str::to_string),
        terminal_title_stripped: None,
    }
}

fn control_key(code: KeyCode) -> Key {
    let plain = Key::plain(code);
    Key { modifiers: Modifiers { control: true, ..plain.modifiers }, ..plain }
}

fn press(column: u16, row: u16) -> Mouse {
    Mouse { kind: MouseKind::LeftDown, column, row }
}

#[test]
fn requests_roundtrip() {
    let f = file_request("C:/x/y.rs");
    assert_eq!(parse_request(&f), Some(Request::File("C:/x/y.rs".into())));
    let f = file_line_request("C:/x/y.rs", 42);
    assert_eq!(
        parse_request(&f),
        Some(Request::FileLine { path: "C:/x/y.rs".into(), line: 42 })
    );
    let sf = search_file_request("C:/x/y.rs", 42, "main", false, false, true);
    assert_eq!(
        parse_request(&sf),
        Some(Request::SearchFile {
            path: "C:/x/y.rs".into(),
            line: 42,
            query: "main".into(),
            regex: false,
            case_sensitive: false,
            whole_word: true,
        })
    );
    let s = show_request("C:/repo", "stash@{1}", None);
    assert_eq!(
        parse_request(&s),
        Some(Request::Show { root: "C:/repo".into(), spec: "stash@{1}".into(), path: None })
    );
    let s = show_request("C:/repo", "a1b2c3d", Some("src/a.rs"));
    assert_eq!(
        parse_request(&s),
        Some(Request::Show {
            root: "C:/repo".into(),
            spec: "a1b2c3d".into(),
            path: Some("src/a.rs".into()),
        })
    );
    let d = diff_request("C:/repo", "src/a.rs", "staged");
    assert_eq!(
        parse_request(&d),
        Some(Request::Diff {
            root: "C:/repo".into(),
            rel: "src/a.rs".into(),
            kind: "staged".into(),
            line: None,
        })
    );
    let d = diff_line_request("C:/repo", "src/a.rs", "worktree", 42);
    assert_eq!(
        parse_request(&d),
        Some(Request::Diff {
            root: "C:/repo".into(),
            rel: "src/a.rs".into(),
            kind: "worktree".into(),
            line: Some(42),
        })
    );
    let d = ref_diff_request("C:/repo", "parent", "commit", "src/new.rs", Some("old.rs"));
    assert_eq!(
        parse_request(&d),
        Some(Request::RefDiff {
            root: "C:/repo".into(),
            old_spec: "parent".into(),
            new_spec: "commit".into(),
            rel: "src/new.rs".into(),
            old_rel: Some("old.rs".into()),
        })
    );
    // Legacy bare path still works.
    assert_eq!(parse_request("C:/plain.txt"), Some(Request::File("C:/plain.txt".into())));
    assert_eq!(parse_request("  "), None);
}

#[test]
fn file_line_preview_keeps_source_lines_and_centers_target() {
    let g = Grammars::load();
    let body = (1..=100).map(|line| format!("line {line}")).collect::<Vec<_>>().join("\n");
    let request = Request::FileLine { path: "/tmp/notes.md".into(), line: 42 };
    assert!(!wants_rendering("/tmp/notes.md", None, Some(42)));
    let mut doc = load_file(
        &g,
        "/tmp/notes.md",
        Ok(body.into_bytes()),
        None,
        Some(42),
        DEFAULT_DIFF_THEME,
        None,
    );
    prepare_new_request(&mut doc, &request, true, 0);
    doc.apply_source_line_center(21);

    assert!(doc.numbered, "line anchors must bypass glow reformatting");
    assert_eq!(doc.scroll, 31);
    assert_eq!(doc.active_source_highlight(0), Some(41));
    assert_eq!(doc.active_source_highlight(SOURCE_LINE_HIGHLIGHT), None);
    assert_eq!(text(&doc.lines[41]), "line 42");
}

#[test]
fn diff_line_anchor_uses_the_current_file_line() {
    let rows = vec![
        Some(diff_row("old", Some(41), None, DiffSourceKind::Deleted)),
        Some(diff_row("new", None, Some(42), DiffSourceKind::Added)),
    ];
    let mut doc = Doc::new(
        "a.rs".into(),
        "diff".into(),
        vec![plain_line("old"), plain_line("new")],
        false,
        vec![None, None],
    )
    .with_sources(rows);

    assert!(doc.request_diff_line(42, true, 0));
    doc.apply_source_line_center(1);

    assert_eq!(doc.scroll, 1);
    assert_eq!(doc.active_source_highlight(0), Some(1));
    assert!(
        !doc.request_diff_line(41, true, 0),
        "deleted-side lines are not current-file anchors"
    );
}

#[test]
fn go_file_preview_expands_tabs_without_reformatting_source() {
    let g = Grammars::load();
    let source = "func main() {\n\tif true {\n\t\tprintln(\"ok\")\n\t}\n}\n";
    let doc = load_file(
        &g,
        "/tmp/main.go",
        Ok(source.as_bytes().to_vec()),
        None,
        None,
        DEFAULT_DIFF_THEME,
        None,
    );
    assert_eq!(text(&doc.lines[1]), "    if true {");
    assert_eq!(text(&doc.lines[2]), "        println(\"ok\")");
    assert_eq!(doc.sources[1].as_ref().unwrap().raw, "\tif true {");
}

#[test]
fn inline_control_keeps_the_pre_zoom_sidebar_width() {
    let request = file_request("/tmp/main.rs");
    let raw = format!("{INLINE_CONTROL_PREFIX}37\n{request}");
    let (width, payload) = control_request(&raw);
    assert_eq!(width, Some(37));
    assert_eq!(parse_request(&payload), Some(Request::File("/tmp/main.rs".into())));
}

#[test]
fn focused_peer_is_scoped_to_the_sidebar_tab() {
    let panes = vec![
        peer("w1:p1", "w1:t1", false, None),
        peer("w1:p2", "w1:t1", true, None),
        peer("w1:p3", "w1:t2", false, None),
    ];
    assert_eq!(focused_peer_in_tab(&panes, "w1:p1").as_deref(), Some("w1:p2"));
    assert_eq!(focused_peer_in_tab(&panes, "w1:p3"), None);

    let owner_focused =
        vec![peer("w1:p1", "w1:t1", true, None), peer("w1:p2", "w1:t1", false, None)];
    assert_eq!(focused_peer_in_tab(&owner_focused, "w1:p1"), None);
    assert_eq!(focused_peer_in_tab(&Vec::new(), "w1:p1"), None);
}

#[test]
fn long_diff_rows_wrap_with_gutter_style_and_source_mapping() {
    let row_bg = Color::Rgb(0x281414);
    let word_bg = Color::Rgb(0x501e1e);
    let code = "abcdefghij-WRAP_TAIL_VISIBLE";
    let long = Line {
        spans: vec![
            plain_span("12 "),
            plain_span("▌ "),
            Span { text: code.to_string(), style: Style::default().fg(Color::White).bg(word_bg) },
        ],
        style: Style::default().bg(row_bg),
    };
    let short = plain_line("short");

    let rows = vec![
        Some(SelectableRow::new(
            code.to_string(),
            SourceKind::Diff { old_line: Some(12), new_line: None, kind: DiffSourceKind::Deleted },
        )),
        None,
    ];
    let (lines, rows, fragments) = reflow_diff_lines(&vec![long, short], &rows, 12);
    let wrapped = rows.iter().take_while(|&&row| row == 0).count();
    assert!(wrapped > 1);
    assert!(lines[..wrapped].iter().skip(1).all(|line| text(line).starts_with("     ")));
    let rebuilt = lines[..wrapped]
        .iter()
        .map(|line| text(line).chars().skip(5).collect::<String>())
        .map(|chunk| chunk.trim_end().to_string())
        .collect::<String>();
    assert_eq!(rebuilt, code);
    assert!(lines[..wrapped].iter().all(|line| columns(line) == 12));
    assert!(lines[..wrapped]
        .iter()
        .flat_map(|line| &line.spans)
        .any(|span| span.style.bg == Some(word_bg)));
    assert!(rows[..wrapped].iter().all(|&row| row == 0));
    assert_eq!(rows[wrapped], 1);
    assert_eq!(
        fragments[..wrapped].iter().map(|row| row.source_row).collect::<Vec<_>>(),
        vec![0; wrapped]
    );
}

#[test]
fn first_change_centers_once_after_diff_reflow() {
    let mut lines = vec![
        Line {
            spans: vec![plain_span(" 1 "), plain_span("▌ "), plain_span("abcdefghij")],
            style: Style::default(),
        },
        plain_line("context 1"),
        plain_line("first change"),
    ];
    lines.extend((2..=7).map(|n| plain_line(&format!("context {n}"))));
    let folds = vec![None; lines.len()];
    let rows = lines.iter().map(|_| None).collect();
    let mut doc = Doc::new("x.rs".into(), String::new(), lines, false, folds).with_sources(rows);
    doc.first_change = Some(2);
    doc.request_first_change_center();
    doc.ensure_visual_lines(10);

    assert_eq!(doc.visual_rows.iter().position(|row| *row == 2), Some(3));
    doc.apply_first_change_center(5);
    assert_eq!(doc.scroll, 1);

    doc.scroll = 4;
    doc.apply_first_change_center(5);
    assert_eq!(doc.scroll, 4, "centering must not repeat after user scrolling");
}

#[test]
fn diff_body_click_maps_to_the_scrolled_document_row() {
    let mouse = press(12, 7);
    assert_eq!(doc_row_at(Rect::new(10, 5, 20, 4), 10, &mouse), Some(12));
    assert_eq!(doc_row_at(Rect::new(10, 8, 20, 4), 10, &mouse), None);
}

#[test]
fn character_selection_maps_tabs_wide_graphemes_and_raw_text() {
    let raw = "a\t中🙂e";
    let source = SelectableRow::file(raw, 1);
    let line = plain_line("a   中🙂e");
    let mut doc = Doc::new("x.txt".into(), String::new(), vec![line], true, Vec::new())
        .with_sources(vec![Some(source)]);

    // One-cell line-number gutter, one separating space, then source cells.
    let chinese = doc.hit_point(0, 2 + 4).unwrap();
    let emoji = doc.hit_point(0, 2 + 7).unwrap();
    doc.begin_selection(chinese);
    doc.drag_selection(emoji);

    assert_eq!(doc.selected_text().as_deref(), Some("中🙂"));
    assert_eq!(doc.selection_cells(0), Some((4, 8)));
    let exported = doc.selection_export().unwrap();
    assert_eq!(exported.snippet, "中🙂");
    assert_eq!(doc.range_cells(0, exported.range), Some((4, 8)));
    assert!(exported.range.contains_hit(chinese));
    assert!(exported.range.contains_hit(emoji));
    assert!(!exported.range.contains_hit(doc.hit_point(0, 2 + 8).unwrap()));
    let comment_style = Style::default().bg(Color::Yellow);
    let highlighted = highlight_cells(&doc.lines[0], (4, 8), comment_style);
    assert_eq!(
        highlighted
            .spans
            .iter()
            .filter(|span| span.style.bg == Some(Color::Yellow))
            .map(|span| span.text.as_str())
            .collect::<String>(),
        "中🙂"
    );
    assert_eq!(
        (exported.start_line, exported.start_column, exported.end_line, exported.end_column),
        (1, 3, 1, 4)
    );
}

#[test]
fn reverse_selection_and_fold_boundaries_stay_in_selectable_source() {
    let rows =
        vec![Some(SelectableRow::file("alpha", 1)), None, Some(SelectableRow::file("omega", 3))];
    let mut doc = Doc::new(
        "x.txt".into(),
        String::new(),
        vec![plain_line("alpha"), plain_line("fold"), plain_line("omega")],
        true,
        Vec::new(),
    )
    .with_sources(rows);
    doc.begin_selection(hit((2, 5), (2, 5)));
    doc.drag_selection(hit((0, 0), (0, 1)));

    assert_eq!(doc.selected_text().as_deref(), Some("omega"));
    assert_eq!(doc.selected_range().unwrap().0.row, 2);

    doc.begin_selection(hit((0, 0), (0, 1)));
    doc.drag_selection(hit((2, 4), (2, 5)));
    assert_eq!(doc.selected_text().as_deref(), Some("alpha"));
    assert_eq!(doc.selected_range().unwrap().1.row, 0);
}

#[test]
fn expanding_a_fold_preserves_the_visible_diff_anchor() {
    let g = Grammars::load();
    let mut diff = String::from("@@ -1,20 +1,20 @@\n");
    for line in 1..=20 {
        if line == 10 {
            diff.push_str("-let old = 10;\n+let new = 10;\n");
        } else {
            diff.push_str(&format!(" let line_{line} = {line};\n"));
        }
    }
    let collapsed = render_expanded(&g, "x.rs", &diff, DEFAULT_DIFF_THEME, &Vec::new(), true);
    let fold = collapsed.folds.iter().flatten().copied().next().unwrap();
    let mut before = diff_doc("x.rs", collapsed);
    let anchor = before.view_anchor(80, 20).unwrap();
    assert_eq!(anchor.screen_row, 1, "the leading fold occupies row zero");

    let expanded = render_expanded(&g, "x.rs", &diff, DEFAULT_DIFF_THEME, &vec![fold], true);
    let mut after = diff_doc("x.rs", expanded);
    assert!(after.restore_view_anchor(&anchor, 80));
    assert!(after.scroll > before.scroll, "new context must become reachable above");

    let restored_row = after.source_row_at(after.scroll + anchor.screen_row).unwrap();
    let restored = after.sources[restored_row].as_ref().unwrap();
    assert_eq!(restored.kind, anchor.kind);
    assert_eq!(restored.raw, anchor.raw);
}

#[test]
fn wrapped_diff_selection_uses_source_bytes_not_visual_rows() {
    let g = Grammars::load();
    let diff = "@@ -1,1 +1,1 @@\n-abcdefghij\n+ABCDEFGHIJ\n";
    let rendered = render_expanded(&g, "x.txt", diff, DEFAULT_DIFF_THEME, &Vec::new(), false);
    let mut doc = diff_doc("x.txt", rendered);
    doc.ensure_visual_lines(10); // 5-cell gutter, 5 source cells per visual row.

    let start = doc.hit_point(0, 5 + 3).unwrap();
    let end = doc.hit_point(1, 5 + 4).unwrap();
    doc.begin_selection(start);
    doc.drag_selection(end);

    assert_eq!(doc.selected_text().as_deref(), Some("defghij"));
    let exported = doc.selection_export().unwrap();
    assert_eq!(exported.snippet, "-defghij");
    assert!(exported.removed);
}

#[test]
fn mixed_diff_selection_keeps_markers_and_uses_the_new_location() {
    let g = Grammars::load();
    let diff = "@@ -4,1 +4,1 @@\n-old name\n+new name\n";
    let rendered = render_expanded(&g, "x.txt", diff, DEFAULT_DIFF_THEME, &Vec::new(), false);
    let mut doc = diff_doc("x.txt", rendered);
    let source_kinds = doc
        .sources
        .iter()
        .map(|source| source.as_ref().map(|source| source.kind))
        .collect::<Vec<_>>();
    assert_eq!(
        source_kinds,
        [
            None,
            Some(SourceKind::Diff {
                old_line: Some(4),
                new_line: None,
                kind: DiffSourceKind::Deleted,
            }),
            Some(SourceKind::Diff {
                old_line: None,
                new_line: Some(4),
                kind: DiffSourceKind::Added,
            }),
        ]
    );
    doc.begin_selection(hit((1, 0), (1, 1)));
    doc.drag_selection(hit((2, 7), (2, 8)));

    let exported = doc.selection_export().unwrap();
    assert_eq!(exported.snippet, "-old name\n+new name");
    assert_eq!((exported.start_line, exported.end_line), (4, 4));
    assert!(!exported.removed);
}

#[test]
fn comments_format_and_bracketed_paste_are_stable() {
    let comments = vec![SavedComment {
        pending: pending("src/a.rs:2:3-2:5", "x```y", true, Request::File("src/a.rs".into())),
        body: "Explain this".into(),
    }];
    let formatted = format_comments(&comments);
    assert!(formatted.contains("## `src/a.rs:2:3-2:5` (removed)"));
    assert!(formatted.contains("````\nx```y\n````"));
    assert!(formatted.ends_with("Explain this"));

    let pasted = bracketed_paste("a\x1b[200~b\x1b[201~c");
    assert_eq!(pasted, "\x1b[200~abc\x1b[201~");
}

#[test]
fn copy_shortcut_matches_the_platform() {
    let plain = Key::plain(KeyCode::Char('c'));
    let control = Modifiers { control: true, ..plain.modifiers };
    let command = Modifiers { command: true, ..plain.modifiers };
    for (platform, primary, other) in [
        (Platform::Mac, command, control),
        (Platform::Other, control, command),
        (Platform::Windows, control, command),
    ] {
        assert!(is_copy_shortcut(&Key { modifiers: primary, ..plain }, platform));
        assert!(!is_copy_shortcut(&Key { modifiers: other, ..plain }, platform));
        let shifted = Modifiers { shift: true, ..primary };
        assert!(!is_copy_shortcut(&Key { modifiers: shifted, ..plain }, platform));
    }
    let entries = footer_entries(Platform::Mac, true, false);
    assert_eq!(entries[1], (FooterAction::CopySelection, " ⌘C Copy "));
    assert_eq!(ratatui::text::Span::raw(COPY_SELECTION_LABEL_MAC).width(), 9);
}

#[test]
fn saved_comment_footer_appends_copy_and_send_agent() {
    assert_eq!(
        footer_entries(Platform::Other, false, true),
        vec![
            (FooterAction::CopyComments, " y Copy "),
            (FooterAction::Send, " s Send Agent "),
        ]
    );
    assert!(footer_entries(Platform::Other, false, false).is_empty());
    assert_eq!(
        footer_entries(Platform::Other, true, true),
        vec![
            (FooterAction::Comment, " c Comment "),
            (FooterAction::CopySelection, COPY_SELECTION_LABEL),
        ]
    );
}

#[test]
fn clear_comments_removes_only_the_current_file() {
    let same = "src/main.rs".to_string();
    let mut comments = vec![
        comment("x:1:1-1:2", "x", Request::File(same.clone()), "Comment"),
        comment(
            "x:1:1-1:2",
            "x",
            Request::FileLine { path: same.clone(), line: 2 },
            "Comment",
        ),
        comment("x:1:1-1:2", "x", Request::File("src/lib.rs".into()), "Comment"),
    ];

    assert_eq!(
        remove_comments_for_file(
            &mut comments,
            &Request::SearchFile {
                path: same,
                line: 3,
                query: "main".into(),
                regex: false,
                case_sensitive: false,
                whole_word: false,
            },
        ),
        2
    );
    assert_eq!(comments.len(), 1);
    assert_eq!(
        request_file_path(&comments[0].pending.document),
        Some("src/lib.rs".to_string())
    );
}

#[test]
fn comment_exports_consume_only_after_success() {
    let one = || {
        comment(
            "src/main.rs:2:3-2:5",
            "bad()",
            Request::File("src/main.rs".into()),
            "Please rename this.",
        )
    };

    let mut failed = vec![one()];
    let result = export_comments_with(&mut failed, |_| Err("offline".into()));
    assert_eq!(result, Err("offline".into()));
    assert_eq!(failed.len(), 1, "failed export must retain comments");

    let mut sent = String::new();
    let count = export_comments_with(&mut failed, |text| {
        sent.push_str(text);
        Ok(())
    })
    .unwrap();
    assert_eq!(count, 1);
    assert!(failed.is_empty());
    assert!(sent.contains("src/main.rs:2:3-2:5"));
    assert!(sent.contains("Please rename this."));
}

#[test]
fn agent_targets_are_limited_to_the_sidebar_tab() {
    let panes = vec![
        agent("w1:p1", "w1:t1", None, None),
        agent("w1:p2", "w1:t1", Some("pi"), Some("Reader")),
        agent("w1:p3", "w1:t1", None, Some("Shell")),
        agent("w1:p4", "w1:t2", Some("aider"), Some("Other tab")),
        agent("w2:p1", "w2:t1", Some("codex"), Some("Other workspace")),
    ];
    let targets = agent_targets(&panes, "w1:p1").map_err(|_| ()).unwrap();
    assert_eq!(targets.len(), 1);
    assert_eq!(targets[0].pane_id, "w1:p2");
    assert_eq!(targets[0].label, "Reader");
}

#[test]
fn agent_target_lookup_fails_when_the_sidebar_pane_is_gone() {
    let panes = vec![agent("w1:p2", "w1:t1", Some("pi"), None)];
    assert!(agent_targets(&panes, "w1:p1").is_err());
}

#[test]
fn comment_editor_moves_and_deletes_on_grapheme_boundaries() {
    let mut draft = CommentDraft {
        pending: PendingComment {
            location: "x:1:1-1:1".into(),
            snippet: "x".into(),
            removed: false,
            document: Request::File("x".into()),
            range: TextSelection { anchor: point(0, 0), cursor: point(0, 1) },
        },
        input: "a中🙂".into(),
        caret: "a中🙂".len(),
    };
    draft.move_left();
    draft.backspace();
    assert_eq!(draft.input, "a🙂");
    assert_eq!(draft.caret, 1);
    draft.insert("\n二");
    draft.move_vertical(false);
    assert_eq!(draft.caret, 1);
}

#[test]
fn comment_editor_expands_tabs_and_tracks_wide_text_cursor_cells() {
    let input = "a\t中🙂";
    let (rows, row, column) = editor_rows(input, 2, 8);
    assert_eq!(rows, ["a   中🙂"]);
    assert_eq!((row, column), (0, 4));
}

#[test]
fn viewer_lookup_reports_staleness() {
    let now = 100_000;
    let panes = |stamp: &str| {
        vec![
            peer("w1:p1", "w1:t1", false, None),
            peer("w1:p2", "w1:t1", false, Some(Some(stamp))),
        ]
    };
    assert_eq!(
        viewer_pane_in_tab(&panes("99998"), "w1:p1", now, 30),
        Some(("w1:p2".into(), false))
    );
    assert_eq!(
        viewer_pane_in_tab(&panes("99001"), "w1:p1", now, 30),
        Some(("w1:p2".into(), true))
    );
}

#[test]
fn control_files_name_their_pane() {
    let path = control_path("/tmp/scratch", "w1:p2");
    assert_eq!(owner_pane_id(&path).as_deref(), Some("w1:p2"));
    let raw = inline_request(44, &file_request("/tmp/a"));
    assert_eq!(read_inline_control(&raw), Some((44, Request::File("/tmp/a".into()))));
    assert_eq!(read_control(&raw), Some(Request::File("/tmp/a".into())));
    assert_eq!(read_inline_control("/tmp/a"), None);
}

#[test]
fn requests_on_one_file_are_one_preview() {
    let a = Request::File("/x/a.rs".into());
    let b = Request::FileLine { path: "/x/a.rs".into(), line: 3 };
    let c = Request::Diff {
        root: "/x".into(),
        rel: "a.rs".into(),
        kind: "worktree".into(),
        line: None,
    };
    assert!(same_preview_file(&a, &b));
    assert!(same_preview_file(&a, &c));
    assert!(!same_preview_file(&a, &Request::File("/x/b.rs".into())));
}

#[test]
fn git_is_asked_for_what_is_shown() {
    let args = diff_args("src/a.rs", "staged", true, Platform::Other);
    assert!(args.iter().any(|arg| arg == "--cached"));
    assert_eq!(args.last().map(String::as_str), Some("src/a.rs"));
    let args = ref_diff_args("a", "b", "new.rs", Some("old.rs"), false, Platform::Other);
    assert!(args.iter().any(|arg| arg == "old.rs"));
    let args = show_args("stash@{0}", None, Platform::Other);
    assert!(args.iter().any(|arg| arg == "stash@{0}"));
    let tail = |platform| diff_args("src/a.rs", "untracked", true, platform).split_off(3);
    assert_eq!(tail(Platform::Other), ["--no-index", "/dev/null", "--", "src/a.rs"]);
    assert_eq!(tail(Platform::Windows), ["--no-index", "NUL", "--", "src\\a.rs"]);
    let args = ref_diff_args("a", "b", "x/new.rs", Some("x/old.rs"), false, Platform::Windows);
    assert_eq!(args[7..], ["x\\old.rs", "x\\new.rs"]);
}

#[test]
fn what_git_says_is_shown() {
    let g = Grammars::load();
    let failed = GitOutput::Failed("no git".into());
    let doc = load_diff(
        &g, "/x", "a.rs", "worktree", &failed, DEFAULT_DIFF_THEME, true, &Vec::new(),
    );
    assert!(doc.lines.iter().any(|line| text(line).contains("no git")));
    let ran = GitOutput::Ran {
        stdout: "@@ -1,1 +1,1 @@\n-a\n+b\n".into(),
        stderr: String::new(),
    };
    let doc = load_diff(
        &g, "/x", "a.rs", "worktree", &ran, DEFAULT_DIFF_THEME, true, &Vec::new(),
    );
    assert_eq!(doc.lines.len(), 2);
    assert_eq!(doc.first_change, Some(0));
    let shown = GitOutput::Ran { stdout: "x".into(), stderr: String::new() };
    let doc = load_show("/x", "v1", &shown, vec![plain_line("x")]);
    assert_eq!(text(&doc.lines[0]), "x");
}

#[test]
fn search_finds_are_marked_in_files() {
    let g = Grammars::load();
    let search = Search {
        query: "ne.dle".into(),
        regex: true,
        case_sensitive: true,
        whole_word: false,
    };
    let doc = load_file(
        &g,
        "/tmp/a.qqzz",
        Ok(b"hay needle hay".to_vec()),
        Some(&search),
        None,
        DEFAULT_DIFF_THEME,
        None,
    );
    let marked: String = doc.lines[0]
        .spans
        .iter()
        .filter(|span| span.style.bg.is_some())
        .map(|span| span.text.as_str())
        .collect();
    assert_eq!(marked, "needle");
    let binary = load_file(
        &g, "/tmp/a.bin", Ok(vec![1, 0, 2]), None, None, DEFAULT_DIFF_THEME, None,
    );
    assert!(!binary.numbered);
    let gone = load_file(
        &g, "/tmp/a", Err("no such file".into()), None, None, DEFAULT_DIFF_THEME, None,
    );
    assert!(gone.lines.iter().any(|line| text(line).contains("no such file")));
}

fn preview() -> InlinePreview {
    let peers = vec![peer("w1:p1", "w1:t1", false, None), peer("w1:p2", "w1:t1", true, None)];
    let (preview, effects) =
        InlinePreview::for_current_pane(Some("w1:p1".into()), &peers, "/tmp/s", 3, true, Platform::Other, 0);
    assert!(matches!(effects[..], [Effect::RemoveControl(_)]));
    preview
}

fn open_preview() -> InlinePreview {
    let mut p = preview();
    let effects = p.sync(Some((40, Request::File("/tmp/a.txt".into()))), 3, true);
    assert!(matches!(effects[..], [Effect::Load(_)]));
    assert_eq!(p.sidebar_width, 40);
    p.show(Request::File("/tmp/a.txt".into()), file_doc("a.txt", &["alpha", "beta"]), 0);
    p
}

#[test]
fn a_preview_opens_and_closes() {
    let mut p = open_preview();
    assert!(p.is_open());
    assert_eq!(p.restore_focus.as_deref(), Some("w1:p2"));
    assert!(p.sync(Some((40, Request::File("/tmp/a.txt".into()))), 3, true).is_empty());
    let effects = p.close();
    assert!(matches!(
        effects[..],
        [Effect::RemoveControl(_), Effect::ZoomOff(_), Effect::Focus(_)]
    ));
    assert!(!p.is_open());
    assert!(p.close().is_empty());
}

#[test]
fn comments_are_written_kept_and_sent() {
    let mut p = open_preview();
    assert!(p.start_comment(None, 0).is_empty());
    assert_eq!(p.notice.as_ref().map(|n| n.0.as_str()), Some("Select text first"));
    if let Some(doc) = &mut p.doc {
        doc.begin_selection(hit((0, 0), (0, 1)));
        doc.drag_selection(hit((0, 4), (0, 5)));
    }
    assert!(matches!(p.start_comment(None, 0)[..], [Effect::EnablePaste]));
    assert!(p.save_comment(0).is_empty(), "a blank comment is not kept");
    p.on_paste("rename\nthis");
    assert!(matches!(p.save_comment(0)[..], [Effect::DisablePaste]));
    assert_eq!(p.current_comment_count(), 1);
    assert_eq!(p.comments[0].pending.snippet, "alpha");
    assert!(matches!(p.copy_comments(0)[..], [Effect::CopyComments(_)]));
    p.comments_copy_ended(false, 0);
    assert_eq!(p.comments.len(), 1, "a failure keeps the comments");
    assert!(matches!(p.choose_agent(0)[..], [Effect::ListAgents(_)]));
    let found = agent_targets(
        &vec![agent("w1:p1", "w1:t1", None, None), agent("w1:p2", "w1:t1", Some("pi"), None)],
        "w1:p1",
    )
    .ok();
    match &p.agents_listed(found, 0)[..] {
        [Effect::SendComments(pane, message)] => {
            assert_eq!(pane, "w1:p2");
            assert!(message.contains("rename"));
        }
        _ => panic!("expected the comments to be sent"),
    }
    p.comments_send_ended("w1:p2", true, 0);
    assert!(p.comments.is_empty());
    assert!(!p.is_open());
}

#[test]
fn notices_end() {
    let mut p = open_preview();
    p.start_comment(None, 0);
    assert!(p.notice.is_some());
    p.tick(3, true, NOTICE_DURATION - 1);
    assert!(p.notice.is_some());
    p.tick(3, true, NOTICE_DURATION);
    assert!(p.notice.is_none());
}

#[test]
fn settings_reload_what_is_shown() {
    let mut p = open_preview();
    assert!(matches!(p.tick(4, true, 1)[..], [Effect::Reload { center: false }]));
    assert!(matches!(p.tick(4, false, 2)[..], [Effect::Reload { center: true }]));
    assert!(p.tick(4, false, 2 + REFRESH / 2).is_empty());
}

#[test]
fn a_standalone_viewer_follows_its_control_file() {
    let mut s = Standalone::new(None, 3, true, 0);
    assert_eq!(s.doc.name, "(nothing to show)");
    let (_, next) = s.idle(Some(Request::File("/tmp/a".into())), 3, true);
    assert_eq!(next, Idle::Load);
    s.show(file_doc("a", &["one", "two"]), 0);
    assert_eq!(s.on_key(Key::plain(KeyCode::Char('q'))), Turn::Close);
    assert_eq!(s.on_mouse(press(3, 0)), Turn::Close);
    assert_eq!(s.on_key(Key::plain(KeyCode::Down)), Turn::Stay);
}

#[test]
fn opening_is_all_or_nothing() {
    let payload = file_request("/tmp/a");
    match open_in_pane("w1:p1", "/tmp/s", &payload, None, Some(33), &Vec::new()) {
        OpenStep::Write(path, raw) => {
            assert_eq!(path, control_path("/tmp/s", "w1:p1"));
            assert_eq!(control_request(&raw).0, Some(33));
        }
        _ => panic!("expected a control file"),
    }
    let step = |done: Vec<Result<(), String>>| {
        open_in_pane("w1:p1", "/tmp/s", &payload, None, None, &done)
    };
    assert!(matches!(step(vec![Ok(())]), OpenStep::Zoom(pane) if pane == "w1:p1"));
    assert!(matches!(step(vec![Ok(()), Ok(())]), OpenStep::Done(Ok(()))));
    assert!(matches!(step(vec![Ok(()), Err("x".into())]), OpenStep::Remove(_)));
    assert!(matches!(step(vec![Ok(()), Err("x".into()), Ok(())]), OpenStep::Done(Err(_))));
    assert!(matches!(step(vec![Err("full".into())]), OpenStep::Done(Err(_))));
    assert!(close_in_tab("w1:p1", "/tmp/s", false).is_empty());
    assert_eq!(close_in_tab("w1:p1", "/tmp/s", true).len(), 2);
}

#[test]
fn parked_panes_come_back_where_they_stood() {
    let pane = |id: &str, x: i64, y: i64, width: i64, height: i64| ParkedPane {
        id: id.to_string(),
        x,
        y,
        width,
        height,
    };
    let panes = vec![
        pane("a", 0, 0, 40, 20),
        pane("b", 40, 0, 40, 10),
        pane("c", 40, 10, 40, 10),
    ];
    assert!(can_restore(&panes));
    assert!(!can_restore(&Vec::new()));
    assert!(!can_restore(&vec![pane("a", i64::MAX, 0, 1, 1)]));
    let moves = replay(&build_tree(&panes));
    assert_eq!(moves.len(), 2);
    assert_eq!((moves[0].pane.as_str(), moves[0].target.as_str()), ("b", "a"));
    assert!(moves[0].right);
    assert_eq!(moves[0].part * 2, moves[0].whole);
    assert_eq!((moves[1].pane.as_str(), moves[1].target.as_str()), ("c", "b"));
    assert!(!moves[1].right);
    let restore = restore_parked("w1:p1", None, &panes);
    assert_eq!(restore.first, "a");
    assert_eq!(restore.anchor, "w1:p1");

    let pinwheel = vec![
        pane("a", 0, 0, 2, 1),
        pane("b", 2, 0, 1, 2),
        pane("c", 1, 2, 2, 1),
        pane("d", 0, 1, 1, 2),
    ];
    let restore = restore_parked("w1:p1", Some("w1:p9"), &pinwheel);
    assert_eq!(restore.anchor, "w1:p9");
    let mut back = vec![restore.first.clone()];
    for step in &restore.moves {
        assert!(back.contains(&step.target));
        back.push(step.pane.clone());
    }
    back.sort();
    assert_eq!(back, ["a", "b", "c", "d"]);
}

#[test]
fn the_clipboard_is_tried_in_turn() {
    let program = |platform, tried: Vec<Result<(), String>>| {
        match copy_to_clipboard(platform, &tried) {
            ClipboardStep::Run(program, _) => program.to_string(),
            ClipboardStep::Done(done) => format!("{done:?}"),
        }
    };
    let failed = |n: usize| vec![Err("no".to_string()); n];
    assert_eq!(program(Platform::Other, failed(0)), "wl-copy");
    assert_eq!(program(Platform::Other, failed(1)), "xclip");
    assert_eq!(program(Platform::Other, failed(2)), "xsel");
    assert_eq!(program(Platform::Other, failed(3)), "Err(\"no\")");
    assert_eq!(program(Platform::Mac, failed(0)), "pbcopy");
    assert_eq!(program(Platform::Mac, failed(1)), "Err(\"no\")");
    assert_eq!(program(Platform::Windows, failed(0)), "clip.exe");
    assert_eq!(program(Platform::Other, vec![Ok(())]), "Ok(())");
}

#[test]
fn paths_are_compared_by_their_parts() {
    let request = Request::FileLine { path: "/r//a/./b.rs".into(), line: 3 };
    assert_eq!(request_path(&request, Some("/r")).as_deref(), Some("a/./b.rs"));
    assert_eq!(request_path(&request, Some("/r/a/")).as_deref(), Some("b.rs"));
    assert_eq!(request_path(&request, Some("/ra")).as_deref(), Some("/r//a/./b.rs"));
    assert_eq!(request_path(&request, None).as_deref(), Some("/r//a/./b.rs"));
    let same = Request::FileLine { path: "/r/a/b.rs".into(), line: 3 };
    assert!(same_request(&request, &same));
    assert!(!same_request(&request, &Request::FileLine { path: "/r/a/b.rs".into(), line: 4 }));
    assert!(!same_request(&request, &Request::File("/r/a/b.rs".into())));
    let show = |root: &str, spec: &str| Request::Show {
        root: root.into(),
        spec: spec.into(),
        path: None,
    };
    assert!(same_request(&show("/r/", "v1"), &show("/r", "v1")));
    assert!(!same_request(&show("/r", "v1"), &show("/r", "v1/")));
}

#[test]
fn comments_say_where_they_stand() {
    let mut doc = file_doc("a.rs", &["alpha", "beta"]);
    doc.begin_selection(hit((1, 0), (1, 1)));
    doc.drag_selection(hit((1, 3), (1, 4)));
    let export = doc.selection_export().unwrap();
    let p = pending_comment(&Request::File("/work/src/a.rs".into()), export, Some("/work"))
        .unwrap();
    assert_eq!(p.snippet, "beta");
    assert!(p.location.starts_with("src/a.rs:2:1"));
}

#[test]
fn footers_fit_their_row() {
    let footer = layout_footer(Platform::Other, true, false, 0, Rect::new(0, 9, 60, 1), None);
    assert_eq!(footer.actions.len(), 2);
    assert!(footer.actions[0].0.x + footer.actions[0].0.width <= footer.actions[1].0.x);
    assert!(footer.actions.iter().all(|(rect, _)| rect.x + rect.width <= 60));
}

#[test]
fn json_requests_are_objects_or_lists_of_their_fields() {
    let asked = Some(Request::FileLine { path: "/a".into(), line: 7 });
    assert_eq!(file_line_request("/a", 7), "fileline\t{\"line\":7,\"path\":\"/a\"}");
    assert_eq!(parse_request("fileline\t{\"path\":\"/a\",\"line\":7}"), asked);
    assert_eq!(parse_request("fileline\t{\"x\":[1],\"line\":7,\"path\":\"/a\"}"), asked);
    assert_eq!(parse_request("fileline\t[\"/a\",7]"), asked);
    assert_eq!(parse_request("fileline\t[\"/a\"]"), None);
    assert_eq!(parse_request("fileline\t[\"/a\",7,8]"), None);
    assert_eq!(parse_request("fileline\t{\"path\":\"/a\"}"), None);
    assert_eq!(parse_request("fileline\t{\"path\":\"/a\",\"line\":-1}"), None);
    assert_eq!(parse_request("fileline\t{\"path\":\"/a\",\"line\":1.5}"), None);
    assert_eq!(parse_request("fileline\t{\"path\":null,\"line\":7}"), None);
    assert_eq!(parse_request("fileline\t7"), None);
    assert_eq!(parse_request("fileline\t{"), None);
    let hit = search_file_request("/a\tb", 3, "q\"", true, false, true);
    assert_eq!(
        parse_request(&hit),
        Some(Request::SearchFile {
            path: "/a\tb".into(),
            line: 3,
            query: "q\"".into(),
            regex: true,
            case_sensitive: false,
            whole_word: true,
        })
    );
    assert_eq!(
        parse_request("searchfile\t[\"/a\",3,\"q\",true,false,\"yes\"]"),
        None
    );
}

#[test]
fn markdown_that_was_not_rendered_is_not_shown() {
    let rows = |n: usize| -> Vec<Line> { (0..n).map(|_| plain_line("x")).collect() };
    assert_eq!(rendered_markdown(true, "x\n", rows(1)).map(|v| v.len()), Some(1));
    assert!(rendered_markdown(false, "x\n", rows(1)).is_none());
    assert!(rendered_markdown(true, " \n\t", rows(1)).is_none());
    assert!(rendered_markdown(true, "x", rows(0)).is_none());
    assert_eq!(
        rendered_markdown(true, "x", rows(MAX_LINES + 2)).map(|v| v.len()),
        Some(MAX_LINES)
    );
}
