//! The sidebar's logic: git output, change trees, diffs, previews, requests
//! between panes, and the state of each view.

pub mod bytes;
pub mod cells;
pub mod change_tree;
pub mod child_repos;
pub mod diffview;
pub mod git;
pub mod input;
pub mod json;
pub mod laws;
pub mod matcher;
pub mod open_mailbox;
pub mod paths;
pub mod path_set;
pub mod quick_open;
pub mod scan;
pub mod scm_app;
pub mod search_app;
pub mod session;
pub mod sidebar;
pub mod sort;
pub mod style;
pub mod syntax;
pub mod text;
pub mod viewer;
