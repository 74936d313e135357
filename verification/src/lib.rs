//! Renders a directory's contents as an annotated tree: folders and files,
//! sizes in human-readable units, with entries left out by exact name, by
//! ignore-file rules and by built-in defaults, and brought back by exception
//! patterns.
//!
//! The library holds the rules and the text; the caller reads the disk and
//! prints what it is handed.

pub mod exclude;
pub mod ignore;
pub mod pattern;
pub mod render;
pub mod size;
pub mod text;
pub mod tree;
pub mod walk;
