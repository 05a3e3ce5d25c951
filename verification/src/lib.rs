//! Finds directories named `node_modules` in a modelled directory tree,
//! reports their disk usage, and drives an interactive selection-and-deletion
//! session over the findings.
//!
//! The scanner works on [`scanner::DirTree`], an in-memory mirror of a
//! directory hierarchy; an unverified front end loads the real filesystem
//! into that model and performs the actual deletions.

pub mod render;
pub mod scanner;
pub mod scan_laws;
pub mod ui;
