//! A zero-configuration relational-database browser library.
//!
//! The crate holds the logic of a small HTML viewer over a live database:
//! the row model, HTML escaping and rendering, catalog-query construction,
//! and the path router that maps a URL hierarchy onto catalog operations.
//! The surrounding process (connection pool, HTTP listener) feeds these
//! functions plain values and sends their results back out.

pub mod catalog;
pub mod render;
pub mod respond;
pub mod route;
pub mod row;
pub mod escape;
pub mod order;
pub mod text;
