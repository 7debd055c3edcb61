//! Batch renaming of paths: a library that turns a list of paths and a
//! find/replace rule into rename targets, a diff preview and a write plan.

pub mod cli;
pub mod paths;
pub mod order;
pub mod error;
pub mod replacer;
pub mod path_map;
pub mod edit;
pub mod writer;
pub mod input;
