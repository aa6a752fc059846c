//! The source control view: repositories with their changes, and drawers with
//! their history.

pub mod actions;
pub mod app;
pub mod chrome;
pub mod draw;
pub mod drawers;
pub mod geometry;
pub mod items;
pub mod keys;
pub mod layout;
pub mod lifecycle;
pub mod menus;
pub mod mouse;
pub mod operations;
pub mod overlay;
pub mod state;
pub mod workspace;
