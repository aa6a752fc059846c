use herdr_sidebar::change_tree::{Row, Tree};
use herdr_sidebar::path_set::PathSet;

fn labels(rows: &[Row]) -> Vec<String> {
    rows.iter()
        .map(|row| match row {
            Row::Directory { name, depth, .. } => format!("{depth}:d:{name}"),
            Row::File { index, depth } => format!("{depth}:f:{index}"),
        })
        .collect()
}

fn set_of(paths: &[&str]) -> PathSet {
    let mut set = PathSet::new();
    for path in paths {
        set.insert(path);
    }
    set
}

#[test]
fn compacts_single_directory_chains_and_sorts_dirs_first() {
    let tree = Tree::new(&[
        (0, "z.txt"),
        (1, "src/components/Button.rs"),
        (2, "src/components/input.rs"),
        (3, "Assets/logo.png"),
    ]);
    assert_eq!(
        labels(&tree.rows(&PathSet::new())),
        ["0:d:Assets", "1:f:3", "0:d:src/components", "1:f:1", "1:f:2", "0:f:0"]
    );
}

#[test]
fn collapsed_paths_hide_only_their_descendants() {
    let tree = Tree::new(&[(0, "src/a.rs"), (1, "tests/a.rs"), (2, "root.rs")]);
    let collapsed = set_of(&["src"]);
    assert_eq!(
        labels(&tree.rows(&collapsed)),
        ["0:d:src", "0:d:tests", "1:f:1", "0:f:2"]
    );
}

#[test]
fn collapse_all_records_every_visible_directory() {
    let tree = Tree::new(&[(0, "src/ui/a.rs"), (1, "src/api/b.rs")]);
    let mut collapsed = PathSet::new();
    tree.collapse_all(&mut collapsed);
    assert!(collapsed.same(&set_of(&["src", "src/api", "src/ui"])));
    assert_eq!(collapsed.len(), 3);
    assert_eq!(labels(&tree.rows(&collapsed)), ["0:d:src"]);
}

#[test]
fn every_file_of_an_open_tree_has_a_row() {
    let tree = Tree::new(&[(0, "a/b/c.rs"), (1, "a/d.rs"), (2, "e.rs"), (3, "a/b/f/g.rs")]);
    let rows = tree.rows(&PathSet::new());
    let mut files: Vec<usize> = rows
        .iter()
        .filter_map(|row| match row {
            Row::File { index, .. } => Some(*index),
            Row::Directory { .. } => None,
        })
        .collect();
    files.sort();
    assert_eq!(files, [0, 1, 2, 3]);
}

#[test]
fn rows_tell_their_depth_and_whether_they_are_open() {
    let tree = Tree::new(&[(0, "src/a.rs"), (1, "src/b.rs")]);
    let rows = tree.rows(&PathSet::new());
    assert_eq!(rows[0].depth(), 0);
    assert_eq!(rows[0].expanded(), Some(true));
    assert_eq!(rows[1].depth(), 1);
    assert_eq!(rows[1].expanded(), None);
    assert_eq!(tree.rows(&set_of(&["src"]))[0].expanded(), Some(false));
}

#[test]
fn a_joined_row_is_open_unless_its_own_path_is_collapsed() {
    let tree = Tree::new(&[(0, "src/components/a.rs")]);
    let rows = tree.rows(&set_of(&["src"]));
    assert_eq!(labels(&rows), ["0:d:src/components", "1:f:0"]);
    assert_eq!(rows[0].expanded(), Some(true));
    let rows = tree.rows(&set_of(&["src/components"]));
    assert_eq!(labels(&rows), ["0:d:src/components"]);
    assert_eq!(rows[0].expanded(), Some(false));
}

#[test]
fn path_sets_hold_each_path_once() {
    let mut set = set_of(&["a", "a", "a/b"]);
    assert_eq!(set.len(), 2);
    assert!(set.contains("a"));
    set.remove_with_parents("a/b");
    assert_eq!(set.len(), 0);
    set.insert("x");
    set.clear();
    assert!(!set.contains("x"));
}
