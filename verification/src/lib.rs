//! Verified core of a multi-service stack provisioner.
//!
//! The library turns per-service descriptor documents and an orchestration
//! manifest into a dependency graph, resolves startup order, and plans the
//! idempotent host-resource operations (accounts, directories, config files)
//! that prepare a host for the selected services.  All file reading, prompting
//! and command execution stays outside the library; callers hand in plain
//! values and carry out the returned action plans.

pub mod doc;
pub mod parse;
pub mod descriptor;
pub mod manifest;
pub mod graph;
pub mod discovery;
pub mod provision;
pub mod resources;
pub mod selection;
pub mod launch;

pub use doc::{Doc, DocField};
pub use descriptor::ServiceConfig;
