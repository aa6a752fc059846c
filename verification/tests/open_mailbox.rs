use herdr_sidebar::input::Platform;
use herdr_sidebar::git::{DiffStat, FileEntry, Status};
use herdr_sidebar::open_mailbox::{
    deliver, locate_target, open_clicked_link, parse_line_hint, parse_link, path_line_suffix,
    percent_decode, preferred_diff_kind, request_path, safe_component, safe_relative, Context,
    Delivery, Inbox, LinkFacts, LinkStep, OpenRequest, PaneInfo,
};

fn status_entry(path: &str, letter: char) -> FileEntry {
    FileEntry { path: path.into(), orig: None, letter, stat: DiffStat::default() }
}

fn request(path: &str) -> OpenRequest {
    OpenRequest {
        root: "/repo".into(),
        path: path.into(),
        is_dir: false,
        line: None,
        diff: None,
    }
}

#[test]
fn request_paths_are_per_pane() {
    assert_ne!(safe_component("pane:a"), safe_component("pane:b"));
    assert_eq!(safe_component("pane:a"), "pane_a");
}

#[test]
fn hyperlink_diff_prefers_worktree_then_untracked_then_staged() {
    let mut status = Status::default();
    status.staged.push(status_entry("both.rs", 'M'));
    status.unstaged.push(status_entry("both.rs", 'M'));
    status.unstaged.push(status_entry("new.rs", 'U'));
    status.staged.push(status_entry("staged.rs", 'A'));

    assert_eq!(preferred_diff_kind(&status, "both.rs"), Some("worktree"));
    assert_eq!(preferred_diff_kind(&status, "new.rs"), Some("untracked"));
    assert_eq!(preferred_diff_kind(&status, "staged.rs"), Some("staged"));
    assert_eq!(preferred_diff_kind(&status, "clean.rs"), None);
}

#[test]
fn rejects_paths_that_escape_the_root() {
    assert!(safe_relative("src/main.rs"));
    assert!(!safe_relative("../secret"));
    assert!(!safe_relative("/tmp/secret"));
}

#[test]
fn parses_file_url_fragment_and_percent_encoding() {
    let link = parse_link("file:///tmp/a%20file.rs#L42C7", false, Platform::Other).unwrap();
    assert_eq!(link.path, "/tmp/a file.rs");
    assert_eq!(link.line, Some(42));
}

#[test]
fn parses_file_url_line_query() {
    let link = parse_link("file:///tmp/main.rs?line=17", false, Platform::Other).unwrap();
    assert_eq!(link.path, "/tmp/main.rs");
    assert_eq!(link.line, Some(17));
}

#[test]
fn parses_absolute_path_line_and_column_suffix() {
    let link = parse_link("/tmp/main.rs:23:9", false, Platform::Other).unwrap();
    assert_eq!(link.path, "/tmp/main.rs");
    assert_eq!(link.line, Some(23));
}

#[test]
fn rejects_remote_file_url() {
    assert!(parse_link("file://server/share/main.rs", false, Platform::Other).is_err());
}

#[test]
fn file_urls_name_drives_and_hosts_where_paths_do() {
    let path = |raw: &str| parse_link(raw, true, Platform::Windows).map(|link| link.path);
    assert_eq!(path("file:///C:/a%20b/c.rs"), Ok("C:\\a b\\c.rs".to_string()));
    assert_eq!(path("file://localhost/C:/c.rs"), Ok("C:\\c.rs".to_string()));
    assert_eq!(path("file://server/share/c.rs"), Ok("\\\\server\\share\\c.rs".to_string()));
    assert_eq!(path("C:/c.rs"), Ok("C:/c.rs".to_string()));
    assert!(path("file:///tmp/c.rs").is_err());
    assert!(path("/tmp/c.rs").is_err());
    assert!(path("C:c.rs").is_err());
}

#[test]
fn names_with_colons_win_over_line_suffixes() {
    let link = parse_link("/tmp/odd:7", true, Platform::Other).unwrap();
    assert_eq!(link.path, "/tmp/odd:7");
    assert_eq!(link.line, None);
    assert_eq!(path_line_suffix("/tmp/a:7"), Some(("/tmp/a".to_string(), 7)));
    assert_eq!(path_line_suffix("/tmp/a"), None);
}

#[test]
fn percent_escapes_are_decoded_as_text() {
    assert_eq!(percent_decode("a%2Fb%C3%A9"), Ok("a/bé".to_string()));
    assert!(percent_decode("a%2").is_err());
    assert!(percent_decode("a%zz").is_err());
    assert!(percent_decode("%ff").is_err());
    assert_eq!(parse_line_hint("L42C7"), Some(42));
    assert_eq!(parse_line_hint("nope"), None);
}

#[test]
fn mailboxes_lie_below_the_state_directory() {
    let path = request_path(Some("/state"), "pane:1").unwrap();
    assert!(path.starts_with("/state/"));
    assert!(path.contains("pane_1"));
    assert_eq!(request_path(None, "pane:1"), None);
}

#[test]
fn a_waiting_request_stays_until_it_is_taken() {
    let mut inbox = Inbox::for_current_pane(Some("p"), Some("/state"));
    assert!(inbox.source().is_some());
    assert!(inbox.poll(Some(request("src/a.rs"))));
    assert!(inbox.poll(Some(request("src/b.rs"))));
    assert_eq!(inbox.take(None).map(|r| r.path), Some("src/a.rs".to_string()));
    assert!(inbox.take(None).is_none());
    // What would leave the root never arrives.
    assert!(inbox.take(Some(request("../secret"))).is_none());
}

#[test]
fn put_back_requests_wait_again() {
    let mut inbox = Inbox::for_current_pane(Some("p"), Some("/state"));
    inbox.put_back(request("src/a.rs"));
    assert_eq!(inbox.peek(None).map(|r| r.path.clone()), Some("src/a.rs".to_string()));
    assert_eq!(inbox.take(None).map(|r| r.path), Some("src/a.rs".to_string()));
}

#[test]
fn requests_are_written_aside_and_then_moved_into_place() {
    let first = deliver(Some("/state"), "p", "42", request("a.rs"), &[]);
    assert!(matches!(first, Delivery::MakeDir(_)));
    let second = deliver(Some("/state"), "p", "42", request("a.rs"), &[Ok(())]);
    assert!(matches!(second, Delivery::Encode(_)));
    match deliver(Some("/state"), "p", "42", request("a.rs"), &[Err("full".to_string())]) {
        Delivery::Done(Err(_)) => {}
        _ => panic!("a failure ends it"),
    }
    match deliver(None, "p", "42", request("a.rs"), &[]) {
        Delivery::Done(Err(_)) => {}
        _ => panic!("there is no mailbox"),
    }
}

#[test]
fn links_that_are_not_files_are_not_opened() {
    let facts = LinkFacts {
        present: None,
        canonical: None,
        target: None,
        root: None,
        is_dir: None,
        diff: None,
    };
    assert!(matches!(open_clicked_link(None, &facts, Platform::Other), LinkStep::Fail(_)));
    assert!(matches!(
        open_clicked_link(Some("file://server/share/main.rs"), &facts, Platform::Other),
        LinkStep::Fail(_)
    ));
    assert!(matches!(open_clicked_link(Some("/tmp/main.rs"), &facts, Platform::Other), LinkStep::Present(_)));
}

fn pane(id: &str, tab: &str, stamp: Option<&str>) -> PaneInfo {
    PaneInfo {
        pane_id: Some(id.to_string()),
        workspace_id: Some("w1".to_string()),
        tab_id: Some(tab.to_string()),
        cwd: Some("/repo".to_string()),
        foreground_cwd: None,
        focused: false,
        is_agent: false,
        explorer_stamp: stamp.map(str::to_string),
    }
}

#[test]
fn the_explorer_of_the_same_tab_is_the_target() {
    let context = Context {
        workspace_id: "w1".to_string(),
        tab_id: "t1".to_string(),
        focused_pane_cwd: None,
    };
    let panes = [pane("p1", "t2", Some("1000")), pane("p2", "t1", Some("1000"))];
    let dirs = vec!["/repo".to_string()];
    let found = locate_target(&context, &panes, 1001, 30, &dirs).unwrap();
    assert_eq!(found.pane_id, "p2");
    assert_eq!(found.root, "/repo");
    assert!(locate_target(&context, &[], 1001, 30, &dirs).is_err());
}
