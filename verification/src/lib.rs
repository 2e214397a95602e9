//! Verified core of the agent tool library.
pub mod error;
pub mod find;
pub mod fs;
pub mod git;
pub mod interact;
pub mod json;
pub mod md;
pub mod memory;
pub mod offsets;
pub mod path;
pub mod pattern;
pub mod sort;
pub mod task;
pub mod text;
pub mod todo;
pub mod tool;
