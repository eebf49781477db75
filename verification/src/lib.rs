//! The bookkeeping between a scene of entities and a rigid-body solver.
//!
//! The solver works in floating point and is driven from outside this crate.
//! What is decided here is which bodies it is asked to create, which entities
//! take their pose from it, and which impulses and rotations it is handed.

pub mod physics;
pub mod ratio;
pub mod storage;
pub mod terra;
