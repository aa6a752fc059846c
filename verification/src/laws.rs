//! What the operations are for, stated over what goes in and what comes out.

pub mod diff;
pub mod git;
pub mod links;
pub mod loading;
pub mod paths;
pub mod quick_open;
pub mod scm;
pub mod search;
pub mod selection;
pub mod session;
pub mod status;
pub mod text;
pub mod tree;
pub mod viewer;
