//! Turns the first table of an HTML document into column-major named
//! columns, and per-ticker price bars into timestamp-ordered tables.

pub mod link;
pub mod table;
pub mod extract;
pub mod prices;

