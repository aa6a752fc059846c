use herdr_sidebar::diffview::{
    assemble, fold_ranges, parse_events, render, render_expanded, word_ranges, Ev, FoldId, ADD_BG,
    ADD_WORD_BG, DEL_BG, DEL_WORD_BG,
};
use herdr_sidebar::style::{Color, Line, Span};
use herdr_sidebar::syntax::{Grammars, DEFAULT_DIFF_THEME};

const DIFF: &str = "diff --git a/src/app.ts b/src/app.ts\nindex 111..222 100644\n--- a/src/app.ts\n+++ b/src/app.ts\n@@ -1,4 +1,5 @@\n import { search } from \"./search\";\n-console.log(\"scm-playground up\");\n+console.log(\"scm oh yeah\");\n+// TODO: debounce input\n search(\"hello\");\n";

fn text(line: &Line) -> String {
    line.spans.iter().map(|span| span.text.as_str()).collect()
}

fn bg(color: u32) -> Option<Color> {
    Some(Color::Rgb(color))
}

fn long_diff() -> String {
    let mut diff = String::from("@@ -1,20 +1,20 @@\n");
    for n in 1..=20 {
        if n == 10 {
            diff.push_str("-line 10\n+LINE 10\n");
        } else {
            diff.push_str(&format!(" line {n}\n"));
        }
    }
    diff
}

#[test]
fn diff_parses_gutters_tints_and_word_ranges() {
    let g = Grammars::load();
    let lines = render(&g, "app.ts", DIFF, DEFAULT_DIFF_THEME);
    assert_eq!(lines.len(), 5);
    // Context row: one number, no tint.
    assert!(text(&lines[0]).starts_with(" 1   "));
    assert_eq!(lines[0].style.bg, None);
    // Deletion and addition use the same clean bar gutter; color carries
    // which side they belong to.
    assert!(text(&lines[1]).starts_with(" 2 ▌ "));
    assert_eq!(lines[1].style.bg, bg(DEL_BG));
    assert!(text(&lines[2]).starts_with(" 2 ▌ "));
    assert_eq!(lines[2].style.bg, bg(ADD_BG));
    // The paired del/add carry a darker word-level tint on the middle.
    let word_tinted = lines[1].spans.iter().any(|s| s.style.bg == bg(DEL_WORD_BG));
    assert!(word_tinted, "expected word-level tint on the deletion");
    // The unpaired trailing addition has no word tint.
    let plain_add = lines[3].spans.iter().all(|s| s.style.bg != bg(ADD_WORD_BG));
    assert!(plain_add);
}

#[test]
fn deleted_line_starting_with_dashes_does_not_desync_gutters() {
    // A deleted SQL/Lua-style "-- comment" line looks exactly like a
    // "--- a/file" header if the parser isn't hunk-aware.
    let diff = "diff --git a/q.sql b/q.sql\nindex 111..222 100644\n--- a/q.sql\n+++ b/q.sql\n@@ -1,3 +1,2 @@\n SELECT 1;\n--- trailing comment\n SELECT 2;\n";
    let g = Grammars::load();
    let lines = render(&g, "q.sql", diff, DEFAULT_DIFF_THEME);
    assert_eq!(lines.len(), 3, "the deleted comment line must render");
    assert!(text(&lines[0]).starts_with(" 1   "));
    assert!(text(&lines[1]).contains("-- trailing comment"));
    // Old-side numbering must not skip: line 3 is old line 3, not 2.
    assert!(matches!(&parse_events(diff)[2], Ev::Ctx(3, 2, _)));
}

#[test]
fn hunk_boundaries_and_binary_lines_survive() {
    let g = Grammars::load();
    let two_hunks = "@@ -1,1 +1,1 @@\n ctx\n@@ -9,1 +9,1 @@\n ctx2\n";
    let lines = render(&g, "x.rs", two_hunks, DEFAULT_DIFF_THEME);
    assert_eq!(lines.len(), 3);
    assert!(text(&lines[1]).contains("⋯  7 unmodified lines"));
    let bin = render(
        &g,
        "x.bin",
        "Binary files a/x.bin and b/x.bin differ\n",
        DEFAULT_DIFF_THEME,
    );
    assert_eq!(bin.len(), 1);
}

#[test]
fn leading_omitted_context_reports_the_fold_size() {
    let g = Grammars::load();
    let lines = render(
        &g,
        "x.txt",
        "@@ -10,2 +10,2 @@\n-old\n+new\n same\n",
        DEFAULT_DIFF_THEME,
    );
    assert_eq!(text(&lines[0]), "    ⋯  9 unmodified lines");
}

#[test]
fn retained_context_fold_expands_by_its_anchor() {
    let g = Grammars::load();
    let diff = long_diff();

    let collapsed = render_expanded(&g, "x.txt", &diff, DEFAULT_DIFF_THEME, &Vec::new(), true);
    assert_eq!(collapsed.lines.len(), collapsed.folds.len());
    let (row, fold) = collapsed
        .folds
        .iter()
        .enumerate()
        .find_map(|(row, fold)| fold.map(|fold| (row, fold)))
        .expect("long leading context should fold");
    assert!(text(&collapsed.lines[row]).contains("6 unmodified lines"));

    let expanded = render_expanded(&g, "x.txt", &diff, DEFAULT_DIFF_THEME, &vec![fold], true);
    assert_eq!(expanded.lines.len(), collapsed.lines.len() + 5);
    assert!(expanded.lines.iter().any(|line| text(line).contains("line 1")));

    let shown = render_expanded(&g, "x.txt", &diff, DEFAULT_DIFF_THEME, &Vec::new(), false);
    assert_eq!(shown.lines.len(), 21);
    assert_eq!(shown.first_change, Some(9));
    assert!(shown.folds.iter().all(Option::is_none));
    assert!(shown.lines.iter().all(|line| !text(line).contains("unmodified lines")));
}

#[test]
fn expanding_one_fold_leaves_the_other_rows() {
    let g = Grammars::load();
    let diff = long_diff();
    let closed = render_expanded(&g, "x.txt", &diff, DEFAULT_DIFF_THEME, &Vec::new(), true);
    let rows: Vec<usize> = (0..closed.folds.len()).filter(|&i| closed.folds[i].is_some()).collect();
    assert_eq!(rows.len(), 2);
    let fold = closed.folds[rows[0]].unwrap();
    let hidden: Vec<_> =
        closed.hidden_search_sources.iter().filter(|s| s.fold == Some(fold)).collect();
    let open = render_expanded(&g, "x.txt", &diff, DEFAULT_DIFF_THEME, &vec![fold], true);
    assert_eq!(open.lines.len(), closed.lines.len() + hidden.len() - 1);
    assert_eq!(open.sources[..rows[0]], closed.sources[..rows[0]]);
    for (k, source) in hidden.iter().enumerate() {
        assert_eq!(open.sources[rows[0] + k].as_ref(), Some(&source.source));
    }
    assert_eq!(open.sources[rows[0] + hidden.len()..], closed.sources[rows[0] + 1..]);
    assert_eq!(open.folds[rows[1] + hidden.len() - 1], closed.folds[rows[1]]);
}

#[test]
fn folds_keep_a_margin_of_context() {
    let evs = parse_events(&long_diff());
    let folds = fold_ranges(&evs);
    assert_eq!(folds.len(), 2);
    assert_eq!((folds[0].start, folds[0].end), (0, 6));
    assert_eq!(folds[0].id, FoldId { old_no: 1, new_no: 1 });
}

#[test]
fn only_paired_lines_have_word_ranges() {
    let evs = parse_events("@@ -1,1 +1,2 @@\n-let a = 1;\n+let a = 2;\n+more\n");
    let ranges = word_ranges(&evs);
    assert_eq!(ranges[0], Some((8, 9)));
    assert_eq!(ranges[1], Some((8, 9)));
    assert_eq!(ranges[2], None);
}

#[test]
fn rows_carry_the_text_they_came_from() {
    let evs = parse_events("@@ -1,1 +1,1 @@\n-old\n+new\n");
    let old: Vec<Vec<Span>> = vec![vec![]];
    let new: Vec<Vec<Span>> = vec![vec![]];
    let shown = assemble(&evs, &old, &new, &Vec::new(), false);
    assert_eq!(shown.lines.len(), 2);
    assert_eq!(shown.first_change, Some(0));
    let source = shown.sources[1].as_ref().unwrap();
    assert_eq!(source.text, "new");
    assert_eq!(source.new_line, Some(1));
}
