use herdr_sidebar::child_repos::{ChildSearch, Listed};
use herdr_sidebar::git::{
    failure, parse_file_history, parse_name_status, parse_numstat, parse_status, skipped_dir,
    text_line_count, DiffStat, FileEntry, Git, Step,
};

fn entry(path: &str, letter: char, orig: Option<&str>) -> FileEntry {
    FileEntry {
        path: path.to_string(),
        orig: orig.map(str::to_string),
        letter,
        stat: DiffStat::default(),
    }
}

fn ok(text: &str) -> Result<String, String> {
    Ok(text.to_string())
}

fn err(text: &str) -> Result<String, String> {
    Err(text.to_string())
}

fn asks<T>(step: &Step<T>, wanted: &[&str]) -> bool {
    match step {
        Step::Run(args) => args.iter().map(String::as_str).eq(wanted.iter().copied()),
        Step::Done(_) => false,
    }
}

#[test]
fn parses_numstat_regular_rename_and_binary_rows() {
    let stats = parse_numstat("3\t2\tsrc/a.rs\0\n1\t0\t\0old.rs\0new.rs\0-\t-\tlogo.png\0");
    assert_eq!(
        stats.get("src/a.rs").copied(),
        Some(DiffStat { added: Some(3), deleted: Some(2) })
    );
    assert_eq!(
        stats.get("new.rs").copied(),
        Some(DiffStat { added: Some(1), deleted: Some(0) })
    );
    assert_eq!(stats.get("logo.png").copied(), Some(DiffStat::default()));
}

#[test]
fn parses_file_history_with_rename_paths_and_first_parent() {
    let raw = "\x1eabcdef0123456789\0parent second\0move file\0\0\nR100\0old.rs\0src/new.rs\0";
    let history = parse_file_history(raw);
    assert_eq!(history.len(), 1);
    assert_eq!(history[0].line, "abcdef0 move file");
    assert_eq!(history[0].file.entry.path, "src/new.rs");
    assert_eq!(history[0].file.entry.orig.as_deref(), Some("old.rs"));
    assert_eq!(history[0].file.old_spec, "parent");
}

#[test]
fn parses_branch_variants() {
    assert_eq!(parse_status("## main...origin/main [ahead 1]\0").branch, "main");
    assert_eq!(parse_status("## git-panel\0").branch, "git-panel");
    assert_eq!(parse_status("## No commits yet on trunk\0").branch, "trunk");
    assert_eq!(parse_status("## HEAD (no branch)\0").branch, "HEAD (no branch)");
}

#[test]
fn parses_ahead_behind_and_upstream() {
    let s = parse_status("## main...origin/main [ahead 3, behind 2]\0");
    assert_eq!((s.ahead, s.behind, s.has_upstream), (3, 2, true));
    let s = parse_status("## main...origin/main [behind 4]\0");
    assert_eq!((s.ahead, s.behind, s.has_upstream), (0, 4, true));
    let s = parse_status("## main...origin/main\0");
    assert_eq!((s.ahead, s.behind, s.has_upstream), (0, 0, true));
    let s = parse_status("## local-only\0");
    assert_eq!((s.ahead, s.behind, s.has_upstream), (0, 0, false));
    let s = parse_status("## main...origin/main [gone]\0");
    assert_eq!((s.ahead, s.behind), (0, 0));
}

#[test]
fn splits_staged_and_unstaged_sides() {
    let s = parse_status("## main\0MM src/app.rs\0A  new.rs\0 D gone.rs\0");
    assert_eq!(s.staged, vec![entry("src/app.rs", 'M', None), entry("new.rs", 'A', None)]);
    assert_eq!(s.unstaged, vec![entry("src/app.rs", 'M', None), entry("gone.rs", 'D', None)]);
}

#[test]
fn untracked_shows_as_u() {
    let s = parse_status("?? docs/notes.md\0");
    assert_eq!(s.staged, vec![]);
    assert_eq!(s.unstaged, vec![entry("docs/notes.md", 'U', None)]);
}

#[test]
fn rename_consumes_the_source_field() {
    let s = parse_status("R  new_name.rs\0old_name.rs\0?? after.txt\0");
    assert_eq!(s.staged, vec![entry("new_name.rs", 'R', Some("old_name.rs"))]);
    assert_eq!(s.unstaged, vec![entry("after.txt", 'U', None)]);
}

#[test]
fn type_change_reads_as_modified() {
    let s = parse_status("T  link.sh\0 T other.sh\0");
    assert_eq!(s.staged, vec![entry("link.sh", 'M', None)]);
    assert_eq!(s.unstaged, vec![entry("other.sh", 'M', None)]);
}

#[test]
fn conflicts_land_unstaged_with_bang() {
    let s = parse_status("UU merge.rs\0AA both.rs\0");
    assert_eq!(s.staged, vec![]);
    assert_eq!(s.unstaged, vec![entry("merge.rs", '!', None), entry("both.rs", '!', None)]);
}

#[test]
fn garbage_and_ignored_entries_are_skipped() {
    let s = parse_status("!! target\0x\0\0 M ok.rs\0");
    assert_eq!(s.staged, vec![]);
    assert_eq!(s.unstaged, vec![entry("ok.rs", 'M', None)]);
}

#[test]
fn paths_with_spaces_survive() {
    let s = parse_status("M  my docs/read me.md\0");
    assert_eq!(s.staged, vec![entry("my docs/read me.md", 'M', None)]);
}

#[test]
fn failed_reset_removes_from_the_index_only_on_an_unborn_branch() {
    let git = Git::at_root("/repo");
    assert!(asks(&git.unstage_all(&[]), &["reset", "-q"]));
    // The branch has a commit, so the failure is told as it is.
    let failed = [err("index.lock exists")];
    let next = git.unstage_all(&failed);
    assert!(asks(&next, &["rev-parse", "--verify", "HEAD"]));
    let born = [err("index.lock exists"), ok("abc\n")];
    match git.unstage_all(&born) {
        Step::Done(Err(e)) => assert_eq!(e, "index.lock exists"),
        _ => panic!("a failed reset must not report success"),
    }
    let unborn = [err("ambiguous argument 'HEAD'"), err("no HEAD")];
    assert!(asks(
        &git.unstage_all(&unborn),
        &["rm", "--cached", "-r", "-q", "--", "."]
    ));
}

#[test]
fn staging_a_rename_names_both_paths_once() {
    let git = Git::at_root("/repo");
    let step = git.stage(&entry("new.rs", 'R', Some("old.rs")), &[]);
    assert!(asks(&step, &["add", "-A", "--", "new.rs", "old.rs"]));
    match git.stage_paths(&Vec::new(), &[]) {
        Step::Done(Ok(())) => {}
        _ => panic!("nothing to stage"),
    }
}

#[test]
fn status_joins_counts_of_both_sides() {
    let git = Git::at_root("/repo");
    assert!(asks(
        &git.status(&[]),
        &["status", "--porcelain", "-z", "--branch", "--untracked-files=all"]
    ));
    let replies = [
        ok("## main\0MM a.rs\0"),
        ok("4\t1\ta.rs\0"),
        ok("2\t0\ta.rs\0"),
    ];
    match git.status(&replies) {
        Step::Done(Ok(s)) => {
            assert_eq!(s.unstaged[0].stat, DiffStat { added: Some(4), deleted: Some(1) });
            assert_eq!(s.staged[0].stat, DiffStat { added: Some(2), deleted: Some(0) });
        }
        _ => panic!("the status is complete"),
    }
    match git.status(&[err("not a git repository")]) {
        Step::Done(Err(e)) => assert_eq!(e, "not a git repository"),
        _ => panic!("the failure is told"),
    }
}

#[test]
fn commits_answer_with_their_first_line() {
    let git = Git::at_root("/repo");
    assert!(asks(&git.commit("msg", &[]), &["commit", "-m", "msg"]));
    match git.commit("msg", &[ok("[main abc] msg\n 1 file changed\n")]) {
        Step::Done(Ok(s)) => assert_eq!(s, "[main abc] msg"),
        _ => panic!("the commit is done"),
    }
    match git.commit("msg", &[ok("")]) {
        Step::Done(Ok(s)) => assert_eq!(s, "committed"),
        _ => panic!("the commit is done"),
    }
}

#[test]
fn syncing_pulls_and_then_pushes() {
    let git = Git::at_root("/repo");
    assert!(asks(&git.sync(&[]), &["pull", "--rebase", "--autostash"]));
    assert!(asks(&git.sync(&[ok("")]), &["push"]));
    match git.sync(&[ok(""), ok("")]) {
        Step::Done(Ok(s)) => assert_eq!(s, "synced with remote"),
        _ => panic!("both went well"),
    }
    match git.sync(&[err("no upstream")]) {
        Step::Done(Err(e)) => assert_eq!(e, "no upstream"),
        _ => panic!("nothing is pushed after a failed pull"),
    }
}

#[test]
fn discarding_cleans_what_git_does_not_know() {
    let git = Git::at_root("/repo");
    assert!(asks(
        &git.discard(&entry("new.txt", 'U', None), &[]),
        &["clean", "-fd", "--", "new.txt"]
    ));
    assert!(asks(
        &git.discard(&entry("old.txt", 'M', None), &[]),
        &["checkout", "HEAD", "--", "old.txt"]
    ));
}

#[test]
fn name_status_reads_renames_and_letters() {
    let list = parse_name_status("M\0a.rs\0R100\0old.rs\0new.rs\0");
    assert_eq!(list, vec![entry("a.rs", 'M', None), entry("new.rs", 'R', Some("old.rs"))]);
}

#[test]
fn untracked_files_are_counted_within_a_budget() {
    let text: Vec<u8> = b"one\ntwo".to_vec();
    let mut left = 100u64;
    assert_eq!(text_line_count(true, 7, Some(&text), &mut left), Some(2));
    assert_eq!(left, 93);
    assert_eq!(text_line_count(false, 7, Some(&text), &mut left), None);
}

#[test]
fn failures_are_told_by_the_first_line_that_says_something() {
    assert_eq!(failure("\n  fatal: no\nhint: yes\n"), "fatal: no");
    assert_eq!(failure(" \n"), "git failed");
}

#[test]
fn repositories_found_twice_are_listed_once() {
    let found = vec![
        Ok(Git::at_root("/work/a")),
        Err("not a repository".to_string()),
        Ok(Git::at_root("/work/a")),
        Ok(Git::at_root("/work/group/b")),
    ];
    let repos = Git::discover_all(found);
    let mut names: Vec<String> = repos.iter().map(|r| r.name()).collect();
    names.sort();
    assert_eq!(names, ["a", "b"]);
}

#[test]
fn the_containing_repository_comes_first_and_the_others_by_path() {
    let found = |roots: &[Option<&str>]| -> Vec<String> {
        let found = roots
            .iter()
            .map(|root| root.map(Git::at_root).ok_or_else(|| "none".to_string()))
            .collect();
        Git::discover_all(found).iter().map(|git| git.root().to_string()).collect()
    };
    assert_eq!(
        found(&[Some("/w"), Some("/w/b"), Some("/w/a-b"), Some("/w/a/c"), Some("/w/b")]),
        ["/w", "/w/a/c", "/w/a-b", "/w/b"]
    );
    assert_eq!(found(&[None, Some("/w/b"), None, Some("/w/a")]), ["/w/a", "/w/b"]);
    assert_eq!(found(&[Some("/z"), Some("/z"), Some("/a")]), ["/z", "/a"]);
    assert!(found(&[]).is_empty());
}

#[test]
fn the_search_for_repositories_leaves_directories_out() {
    let tools = vec![".tool".to_string()];
    assert!(skipped_dir(".git", &tools));
    assert!(skipped_dir("target", &tools));
    assert!(skipped_dir("node_modules", &tools));
    assert!(skipped_dir(".tool", &tools));
    assert!(!skipped_dir(".tool", &Vec::new()));
    assert!(!skipped_dir("src", &tools));
}

fn listed(name: &str, is_dir: bool, is_repo: bool) -> Listed {
    Listed { name: name.into(), is_dir, is_repo }
}

#[test]
fn repositories_are_searched_two_levels_down() {
    let mut search = ChildSearch::start(vec![".tool".to_string()]);
    assert_eq!(search.next(), Some(&Vec::<String>::new()));
    search.listed(&vec![
        listed("a", true, true),
        listed("target", true, true),
        listed("file", false, false),
        listed(".tool", true, true),
        listed("b", true, false),
    ]);
    assert_eq!(search.next(), Some(&vec!["a".to_string()]));
    search.listed(&vec![listed("inner", true, true), listed("plain", true, false)]);
    assert_eq!(search.next(), Some(&vec!["b".to_string()]));
    search.listed(&vec![listed("repo", true, true), listed("node_modules", true, true)]);
    assert_eq!(search.next(), None);
    let found: Vec<String> = search.found().iter().map(|place| place.join("/")).collect();
    assert_eq!(found, ["a", "a/inner", "b/repo"]);
    search.listed(&vec![listed("late", true, true)]);
    assert_eq!(search.found().len(), 3);
}

#[test]
fn untracked_files_ride_along_with_a_suggestion() {
    let git = Git::at_root("/repo");
    let mut replies = vec![ok("a.rs | 1 +")];
    assert!(asks(&git.diff_for_message(&replies), &["diff", "--cached", "--name-only"]));
    replies.push(ok("a.rs\n"));
    assert!(asks(
        &git.diff_for_message(&replies),
        &["ls-files", "--others", "--exclude-standard"]
    ));
    replies.push(ok("new.rs\nnotes.md\n"));
    match git.diff_for_message(&replies) {
        Step::Done(Ok((diff, files))) => {
            assert_eq!(diff, "a.rs | 1 +");
            assert_eq!(files, ["a.rs", "new.rs", "notes.md"]);
        }
        _ => panic!("every command went well"),
    }
    match git.diff_for_message(&[ok(" \n"), ok(""), ok(""), ok("new.rs\n")]) {
        Step::Done(Ok((diff, files))) => {
            assert_eq!(diff, "");
            assert_eq!(files, ["new.rs"]);
        }
        _ => panic!("every command went well"),
    }
    match git.diff_for_message(&[ok("d"), ok("a.rs"), err("no")]) {
        Step::Done(Err(e)) => assert_eq!(e, "no"),
        _ => panic!("the files are not known"),
    }
}

#[test]
fn the_current_branch_comes_first() {
    let git = Git::at_root("/repo");
    match git.branches(&[ok("  newest\n* cur\n  old\n  origin/cur\n")]) {
        Step::Done(Ok(list)) => {
            assert_eq!(list, ["* cur", "  newest", "  old", "  origin/cur"]);
        }
        _ => panic!("the branches are listed"),
    }
    match git.branches(&[ok("  a\n  b\n")]) {
        Step::Done(Ok(list)) => assert_eq!(list, ["  a", "  b"]),
        _ => panic!("the branches are listed"),
    }
}

#[test]
fn two_status_texts_list_their_changes_in_a_row() {
    let a = "R  new.rs\0old.rs\0 M a.rs\0";
    let b = "?? u.rs\0M  b.rs\0";
    let both = parse_status(&format!("{a}{b}"));
    let (first, second) = (parse_status(a), parse_status(b));
    let staged: Vec<_> = first.staged.iter().chain(&second.staged).cloned().collect();
    let unstaged: Vec<_> = first.unstaged.iter().chain(&second.unstaged).cloned().collect();
    assert_eq!(both.staged, staged);
    assert_eq!(both.unstaged, unstaged);
    assert_eq!(both.staged.len(), 2);
    assert_eq!(both.unstaged.len(), 2);
}
