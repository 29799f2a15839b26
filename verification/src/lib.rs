//! Reconciles the tracks of a local music library with the tracks of a remote
//! catalogue: an identity cache of confirmed cross-references, the matching
//! heuristic, and the per-track decisions of the transfer pipeline.

pub mod cache;
pub mod itunes;
pub mod menu;
pub mod pipeline;
pub mod resolver;
pub mod spotify;
pub mod text;
