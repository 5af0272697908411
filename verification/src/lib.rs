//! Construction of single-block MD4 collisions.
//!
//! The crate implements the MD4 compression function, the forward and
//! inverse step operators it is built from, and a collision finder that
//! applies per-step bit corrections (Wang-style message modification)
//! until two 64-byte blocks with equal compression output are found.
//! A message buffer folds an arbitrary byte prefix into a chaining
//! state, so the collision can be placed after any prefix.

pub mod builder;
pub mod collision;
pub mod ops;
pub mod state;

pub use builder::Builder;
