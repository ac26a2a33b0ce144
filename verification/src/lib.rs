//! Core of a chunked 2D tile renderer: a texture-array atlas cache with an
//! explicit readiness state machine, a sparse layered tile store, chunk-level
//! dirty tracking, and deterministic per-chunk mesh regeneration.
//!
//! GPU work and asset loading are external collaborators: the cache returns
//! plain allocation and copy commands for a driver to execute, and takes the
//! set of loaded images as an input.

pub mod atlas;
pub mod cache;
pub mod chunk;
pub mod grid;
pub mod kvmap;
pub mod mesh;
pub mod tile;
