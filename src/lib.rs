//! A small line-oriented text search library: split text into lines and keep
//! the lines that contain a query, with or without regard to letter case.

pub mod text;
pub mod search;
pub mod config;
