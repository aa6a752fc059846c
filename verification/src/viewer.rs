//! File contents and diffs shown beside the sidebar.

pub mod comments;
pub mod doc;
pub mod draw;
pub mod load;
pub mod park;
pub mod peers;
pub mod preview;
pub mod request;
pub mod rows;
pub mod standalone;
pub mod wrap;
