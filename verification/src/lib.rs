//! Build-context resolver for a package build tool.
//!
//! Given an already-resolved package dependency graph and a set of requested
//! root units, this library expands the full unit dependency graph (honoring
//! host/target architecture splits and build-script overrides), parses the
//! capability information reported by the external compiler, resolves the
//! effective extra compiler flags for each unit, decides the incremental
//! compilation policy, and exposes all of it as an immutable, queryable
//! build context.

pub mod cfgs;
pub mod context;
pub mod flags;
pub mod graph;
pub mod incremental;
pub mod model;
pub mod plugin;
pub mod pool;
pub mod probe;
pub mod strings;
