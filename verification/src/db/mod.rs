//! In-memory graph storage and the operations that change it.

pub mod errors;
pub mod graph;
pub mod incidence;
pub mod model;
pub mod object_patch;
pub mod paths;
pub mod types;
