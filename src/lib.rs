//! Block synchronization for a HotStuff-style consensus engine: the decisions
//! that hold back a block until its parent is stored, deduplicate the requests
//! for missing parents, and resolve the three ancestors that the commit rule
//! reads.

pub mod messages;
pub mod synchronizer;
pub mod resolver;
