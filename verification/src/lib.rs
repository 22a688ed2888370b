//! Registry synchronization engine: a catalog of tracked container images,
//! the digest-based tag aliasing used when pushing, and the decision logic
//! that drives a container runtime and a registry client.

pub mod alias;
pub mod cache;
pub mod engine;
pub mod error;
pub mod intake;
pub mod machine;
pub mod naming;
pub mod plan;
pub mod profile;
pub mod registry;
pub mod sorted;
pub mod store;
pub mod text;
pub mod trace;
