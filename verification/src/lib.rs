//! A reversible-operation log for an interactive 3D scene editor.
//!
//! The library records reversible edits — spawning, despawning and moving
//! entities — and steps backward and forward through that history
//! deterministically.  It is built from these pieces:
//!
//! - [`world`]: the editor's model of the scene — entities with
//!   transform-like state, addressed by identity, with identities never
//!   reused;
//! - [`ops`]: the closed family of reversible operations, each carrying
//!   enough state to apply its effect in both directions, with its
//!   specification-level semantics;
//! - [`changelog`]: the ordered history buffer and cursor, exposing
//!   `record`, `undo` and `redo`;
//! - [`coalescer`]: the per-entity scratch map that collapses a continuous
//!   interaction, such as a drag, into a single pending transform edit;
//! - [`laws`]: the proved guarantees — round trips, cursor bounds,
//!   undo-redo symmetry, composite atomicity;
//! - [`assoc`]: the association-list reading shared by the world model and
//!   the coalescer.

pub mod assoc;
pub mod changelog;
pub mod coalescer;
pub mod laws;
pub mod ops;
pub mod world;
