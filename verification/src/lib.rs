//! Bridge runtime for dynamically loaded, isolated binary plugins ("mods")
//! attached to a live entity-component-system simulation.
//!
//! The crate models the host world as plain values (entity indices, string
//! type paths, serialized component values) and verifies the rules that the
//! bridge enforces: access-domain partitioning, the dynamic component bridge,
//! the method index with its access gate, version-gated system scheduling,
//! query resolution and lifecycle cleanup.

pub mod access;
pub mod asset;
pub mod authoring;
pub mod bindgen;
pub mod cleanup;
pub mod component;
pub mod methods;
pub mod mods;
pub mod paths;
pub mod prelude;
pub mod query;
pub mod runner;
pub mod schedule;
pub mod setup;
pub mod system;
pub mod witgen;
pub mod world;
