//! Resolution of interlinked type registries into derived representations, with
//! cycle protection, and structural comparison and path deduplication of their types.

pub mod composite;
pub mod dedup;
pub mod equality;
pub mod error;
pub mod generics;
pub mod laws;
pub mod paths;
pub mod registry;
pub mod transformer;
