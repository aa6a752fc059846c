//! Text search: a query with its filters, and what was found, by file.

pub mod app;
pub mod draw;
pub mod events;
pub mod mouse;
pub mod query;
pub mod snippet;
