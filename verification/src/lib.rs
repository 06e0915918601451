//! Graph storage for nodes, edges and hyperedges whose endpoints may
//! address whole entities or sub-objects inside them, with a patch log
//! that can be replayed.

pub mod batteries;
pub mod client;
pub mod common;
pub mod db;
pub mod jit;
pub mod protocol;
pub mod sdk;
