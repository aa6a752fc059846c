use herdr_sidebar::style::{Color, Span, Style};
use herdr_sidebar::syntax::{
    diff_theme_from_name, diff_theme_index, diff_themes, expand_tabs, highlight, highlight_side,
    preview_highlight_styles, styles_for, Grammars, LineHighlighter, ThemeColors,
    DEFAULT_DIFF_THEME, MAX_HIGHLIGHT_LINE_LEN,
};

fn text(spans: &[Span]) -> String {
    spans.iter().map(|span| span.text.as_str()).collect()
}

fn packed(color: syntect::highlighting::Color) -> Color {
    Color::Rgb(u32::from_be_bytes([0, color.r, color.g, color.b]))
}

#[test]
fn known_extensions_highlight_with_colors() {
    let g = Grammars::load();
    let lines =
        highlight(&g, "main.rs", "fn main() {}\n", 10, DEFAULT_DIFF_THEME).expect("rust grammar");
    assert_eq!(lines.len(), 1);
    // The `fn` keyword must carry a non-default foreground color.
    let colored = lines[0].iter().any(|s| s.text.contains("fn") && s.style.fg.is_some());
    assert!(colored, "expected a colored keyword span");
    assert_eq!(text(&lines[0]), "fn main() {}");
}

#[test]
fn tabs_expand_to_four_column_stops_across_styled_spans() {
    let red = Style::default().fg(Color::Red);
    let blue = Style::default().fg(Color::Blue);
    let spans = expand_tabs(&vec![
        Span { text: "\tif".to_string(), style: red },
        Span { text: "\tvalue".to_string(), style: blue },
    ]);

    assert_eq!(text(&spans), "    if  value");
    assert_eq!(spans[0].style, red);
    assert_eq!(spans[1].style, blue);
}

#[test]
fn extended_grammars_cover_typescript_and_toml() {
    let g = Grammars::load();
    assert!(highlight(
        &g,
        "app.ts",
        "const x: string = \"hi\";\n",
        10,
        DEFAULT_DIFF_THEME
    )
    .is_some());
    assert!(highlight(
        &g,
        "Cargo.toml",
        "[package]\nname = \"x\"\n",
        10,
        DEFAULT_DIFF_THEME
    )
    .is_some());
}

#[test]
fn unknown_extensions_fall_back_to_none() {
    let g = Grammars::load();
    assert!(highlight(&g, "data.qqzz", "gibberish content\n", 10, DEFAULT_DIFF_THEME).is_none());
}

#[test]
fn pathologically_long_lines_skip_highlighting_instead_of_hanging() {
    let g = Grammars::load();
    let long_line = format!("const x = \"{}\";\n", "a".repeat(MAX_HIGHLIGHT_LINE_LEN + 1));
    let lines = highlight(&g, "bundle.min.js", &long_line, 10, DEFAULT_DIFF_THEME)
        .expect("js grammar matches");
    assert_eq!(lines.len(), 1);
    assert_eq!(text(&lines[0]), long_line.trim_end_matches('\n'));

    let mut hl = LineHighlighter::new(&g, "bundle.min.js", DEFAULT_DIFF_THEME);
    let spans = hl.line(&g, long_line.trim_end_matches('\n'));
    assert_eq!(spans.len(), 1);
    assert_eq!(spans[0].text, long_line.trim_end_matches('\n'));
}

#[test]
fn diff_themes_roundtrip() {
    let themes = diff_themes();
    assert_eq!(themes.len(), 32);
    for (i, theme) in themes.iter().enumerate() {
        assert_eq!(diff_theme_from_name(theme), Some(i));
        assert_eq!(&themes[diff_theme_index(i)], theme);
    }
}

#[test]
fn preview_highlights_use_the_selected_theme_colors() {
    let names = two_face::theme::EmbeddedLazyThemeSet::theme_names();
    let set = two_face::theme::extra();
    let settings = &set.get(names[DEFAULT_DIFF_THEME]).settings;
    let g = Grammars::load();
    let highlights = preview_highlight_styles(&g, DEFAULT_DIFF_THEME).unwrap();

    assert_eq!(
        highlights.selection.bg,
        settings
            .selection
            .or(settings.find_highlight)
            .or(settings.inactive_selection)
            .or(settings.line_highlight)
            .or(settings.background)
            .map(packed)
    );
    assert_eq!(
        highlights.comment.bg,
        settings
            .find_highlight
            .or(settings.inactive_selection)
            .or(settings.line_highlight)
            .or(settings.selection)
            .or(settings.background)
            .map(packed)
    );
}

#[test]
fn the_default_theme_is_catppuccin() {
    assert_eq!(diff_themes()[DEFAULT_DIFF_THEME], "Catppuccin Mocha");
    assert_eq!(diff_theme_from_name("no such theme"), None);
    assert_eq!(diff_theme_index(10_000), 0);
}

#[test]
fn a_theme_without_colors_gives_plain_styles() {
    let none = ThemeColors {
        foreground: None,
        background: None,
        caret: None,
        line_highlight: None,
        accent: None,
        find_highlight: None,
        find_highlight_foreground: None,
        selection: None,
        selection_foreground: None,
        inactive_selection: None,
        inactive_selection_foreground: None,
    };
    let styles = styles_for(none);
    assert_eq!(styles.comment_border, Color::Reset);
    let styles = styles_for(ThemeColors { selection: Some(0x112233), ..none });
    assert_eq!(styles.selection.bg, Some(Color::Rgb(0x112233)));
}

#[test]
fn sides_of_a_diff_are_highlighted_line_by_line() {
    let g = Grammars::load();
    let list = vec!["fn a() {}".to_string(), "let b = 1;".to_string()];
    let rows = highlight_side(&g, "x.rs", DEFAULT_DIFF_THEME, &list);
    assert_eq!(rows.len(), 2);
    assert_eq!(text(&rows[0]), "fn a() {}");
    assert_eq!(text(&rows[1]), "let b = 1;");
}
