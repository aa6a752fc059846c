use herdr_sidebar::input::{Key, KeyCode, Mouse, MouseKind, Rect};
use herdr_sidebar::open_mailbox::Target;
use herdr_sidebar::quick_open::{
    entries_from_rg, entry_rank, find_best, fuzzy_rank, index_entries, result_item, result_parts,
    safe_relative, Action, App, Entry, RgReply,
};
use herdr_sidebar::style::{Color, RowStep, Span, Style};

fn file(path: &str) -> Entry {
    Entry { path: path.to_string(), is_dir: false }
}

fn dir(path: &str) -> Entry {
    Entry { path: path.to_string(), is_dir: true }
}

fn ended(success: bool, code: Option<i32>, stderr: &str, stdout: &[u8]) -> RgReply {
    RgReply::Ended {
        success,
        code,
        status: "exit status: 2".to_string(),
        stderr: stderr.as_bytes().to_vec(),
        stdout: stdout.to_vec(),
    }
}

#[test]
fn fuzzy_match_prefers_basename_and_consecutive_letters() {
    let direct = file("src/main.rs");
    let scattered = file("main/src/thing.rs");
    assert!(entry_rank(&direct, "main") < entry_rank(&scattered, "main"));
    assert_eq!(fuzzy_rank("src/main.rs", "smr"), Some((7, 0, 11)));
    assert_eq!(fuzzy_rank("src/main.rs", "xyz"), None);
}

#[test]
fn rg_files_also_create_searchable_parent_directories() {
    let entries = entries_from_rg(b"src/main.rs\0src/api/mod.rs\0").unwrap();
    assert!(entries.contains(&dir("src")));
    assert!(entries.contains(&dir("src/api")));
    assert!(entries.contains(&file("src/main.rs")));
}

#[test]
fn mailbox_rejects_paths_that_escape_the_root() {
    assert!(safe_relative("src/main.rs"));
    assert!(!safe_relative("../secret"));
    assert!(!safe_relative("/tmp/secret"));
}

#[test]
fn letters_are_found_whatever_their_case() {
    assert!(fuzzy_rank("SRC/Main.rs", "main").is_some());
    assert!(fuzzy_rank("src/ÉTÉ.rs", "été").is_some());
}

#[test]
fn paths_out_of_the_root_are_not_listed() {
    let entries = entries_from_rg(b"../secret\0/etc/passwd\0a.rs\0a.rs\0").unwrap();
    assert_eq!(entries, vec![file("a.rs")]);
}

#[test]
fn bytes_that_are_no_text_become_marks() {
    let entries = entries_from_rg(b"caf\xff.rs\0").unwrap();
    assert_eq!(entries, vec![file("caf\u{fffd}.rs")]);
}

#[test]
fn a_listing_that_finds_nothing_is_no_failure() {
    assert_eq!(index_entries(ended(false, Some(1), "", b"")), Ok(vec![]));
    assert_eq!(index_entries(ended(true, Some(0), "", b"a.rs\0")), Ok(vec![file("a.rs")]));
    assert_eq!(
        index_entries(ended(false, Some(2), " bad glob \n", b"")),
        Err("bad glob".to_string())
    );
    assert_eq!(
        index_entries(ended(false, None, "", b"")),
        Err("ripgrep exited with exit status: 2".to_string())
    );
    assert_eq!(
        index_entries(RgReply::Missing),
        Err("ripgrep (`rg`) is not available.".to_string())
    );
    assert_eq!(
        index_entries(RgReply::NotStarted("no memory".to_string())),
        Err("Failed to start ripgrep: no memory".to_string())
    );
}

#[test]
fn best_results_come_first() {
    let entries = vec![file("docs/remain.txt"), file("src/main.rs"), file("other.rs")];
    let (count, order) = find_best(&entries, "main");
    assert_eq!(count, 2);
    assert_eq!(order, vec![1, 0]);
}

fn ready(entries: Vec<Entry>) -> App {
    let mut app = App::new("/repo".to_string());
    app.retry(Ok(Target { pane_id: "p1".to_string(), root: "/repo".to_string() }));
    app.poll_index(Ok(entries));
    app
}

#[test]
fn typing_narrows_and_enter_sends() {
    let mut app = ready(vec![file("src/main.rs"), file("other.rs")]);
    assert_eq!(app.match_count, 2);
    for c in "main".chars() {
        let _ = app.on_key(Key::plain(KeyCode::Char(c)));
    }
    assert_eq!(app.match_count, 1);
    match app.on_key(Key::plain(KeyCode::Enter)) {
        Action::Send(pane, request) => {
            assert_eq!(pane, "p1");
            assert_eq!(request.path, "src/main.rs");
            assert!(!request.is_dir);
        }
        _ => panic!("the result is sent"),
    }
    assert!(matches!(app.on_key(Key::plain(KeyCode::Esc)), Action::Close));
}

#[test]
fn the_selection_stays_on_a_result() {
    let mut app = ready(vec![file("a.rs"), file("b.rs")]);
    for _ in 0..5 {
        let _ = app.on_key(Key::plain(KeyCode::Down));
    }
    assert_eq!(app.selected, 1);
    for _ in 0..5 {
        let _ = app.on_key(Key::plain(KeyCode::Up));
    }
    assert_eq!(app.selected, 0);
}

#[test]
fn a_click_opens_the_result_under_it() {
    let mut app = ready(vec![file("a.rs"), file("b.rs")]);
    app.draw_results(Rect::new(0, 3, 40, 10));
    let click = Mouse { kind: MouseKind::LeftDown, column: 2, row: 4 };
    match app.on_mouse(click) {
        Action::Send(_, request) => assert_eq!(request.path, "b.rs"),
        _ => panic!("the row is opened"),
    }
}

#[test]
fn counts_say_what_is_left_out() {
    let app = ready(vec![file("a.rs")]);
    assert_eq!(app.count_text(), "1 matches");
    let many: Vec<Entry> = (0..600).map(|n| file(&format!("f{n}.rs"))).collect();
    assert_eq!(ready(many).count_text(), "600 matches · showing 500");
}

#[test]
fn results_show_their_name_before_their_folder() {
    let entry = file("src/api/mod.rs");
    let (name, parent) = result_parts(&entry);
    assert_eq!((name.as_str(), parent.as_str()), ("mod.rs", "src/api"));
    let icon = || Span { text: "i".to_string(), style: Style::default() };
    let mut asked = Vec::new();
    let mut cuts: Vec<String> = Vec::new();
    let row = loop {
        match result_item(&entry, icon(), true, None, 22, &cuts) {
            RowStep::Cut(text, room) => {
                cuts.push(text.chars().take(room).collect());
                asked.push(room);
            }
            RowStep::Done(row) => break row,
        }
    };
    assert_eq!(asked, [12, 12]);
    let text: String = row.spans.iter().map(|s| s.text.as_str()).collect();
    assert_eq!(text, "i mod.rs  src/api");
    assert!(row.spans[2].style.bold);
    assert_eq!(row.style.bg, Some(Color::DarkGray));
}

#[test]
fn the_status_line_ends_with_the_count() {
    let app = ready(vec![file("a.rs")]);
    match app.draw_status(20, &Vec::new()) {
        RowStep::Cut(text, room) => assert_eq!((text.as_str(), room), (app.root.as_str(), 8)),
        RowStep::Done(_) => panic!("the directory is cut first"),
    }
    match app.draw_status(20, &vec!["/repo".to_string()]) {
        RowStep::Done(line) => {
            let text: String = line.spans.iter().map(|s| s.text.as_str()).collect();
            assert_eq!(text, "/repo      1 matches");
        }
        RowStep::Cut(..) => panic!("nothing is left to cut"),
    }
}

#[test]
fn paths_keep_their_spelling() {
    let entries = entries_from_rg(b"a//b.rs\0a/c/./d.rs\0a/b.rs\0").unwrap();
    assert_eq!(
        entries,
        vec![dir("a"), file("a//b.rs"), dir("a/c"), file("a/c/./d.rs")]
    );
    assert_eq!(result_parts(&entries[1]), ("b.rs".to_string(), "a".to_string()));
    assert_eq!(result_parts(&entries[3]), ("d.rs".to_string(), "a/c".to_string()));
}
