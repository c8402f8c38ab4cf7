//! A 2D tick-based rigid-body simulation of platforms, escalators with
//! travelling steps, crates and a player: axis-aligned adjacency is rebuilt
//! every tick, intrinsic velocities (gravity, input, step motion) are
//! propagated through chains of contacting bodies with blocking, pushing and
//! carrying, and the resolved velocities are integrated into positions.
//!
//! All coordinates are integers (milli-units of the world): adjacency and
//! threshold comparisons are exact, with no floating-point drift.

pub mod geom;
pub mod body;
pub mod graph;
pub mod stepper;
pub mod intrinsic;
pub mod propagate;
pub mod tick;
pub mod laws;

pub use body::{Arm, Body, Role, Track, World};
pub use geom::{Rect, Vec2i};
pub use graph::{AdjacencyGraph, build_graph};
pub use intrinsic::{PlayerInput, StepPlan};
pub use tick::tick;
