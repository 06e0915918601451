//! Incidence queries: which entities does an entity connect to?

pub mod neighborhood;
