//! Verified core of a scene-editor overlay for a real-time 3D host.
//!
//! The library covers the three subsystems that must stay consistent on every
//! frame: a hierarchical entity selection model with replace / toggle / range
//! semantics, a command history providing undo and redo over reversible scene
//! mutations, and the gizmo arbitration that keeps at most one manipulation
//! target in sync with the selection while suppressing pointer picking during
//! a drag. The host's own surfaces (rendering, widget drawing, window
//! bootstrap) are out of scope: the shell hands the library plain values and
//! applies the decisions it returns.

pub mod scene;
pub mod selection;
pub mod history;
pub mod gizmo;
pub mod input;
pub mod hierarchy;
