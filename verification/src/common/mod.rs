//! Shared data model: slash-separated paths and their text rules.

pub mod text;
pub mod path;
pub mod local_path;
pub mod ids;
pub mod global_path;
pub mod object;
pub mod pointee_set;
pub mod patch;
