//! A deterministic 2D driving simulator for reinforcement learning.
//!
//! A kinematic bicycle-model car moves through a curved track built from a
//! smooth cubic Bezier spline; a synthetic LiDAR fan reports distances to the
//! track edge, and a shaped reward combines arc-length progress along the
//! track with lateral centering and a terminal crash penalty.
//!
//! All scalar quantities are fixed-point numbers: an `i64` holding the real
//! value times `fx::FX_ONE` (2^32). This keeps every computation exact enough
//! for the contracts in this crate to be stated and proved over the integers.

pub mod fx;
pub mod chunk;
pub mod env;
pub mod walk;
pub mod bezier;
pub mod gym;
pub mod lidar;
pub mod map;
pub mod physics;
pub mod racing;
pub mod root;
pub mod spline;
pub mod trig;
pub mod vec2;

pub use fx::FX_ONE;
