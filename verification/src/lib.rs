//! Exact game-loop timestep simulation.
//!
//! A one-dimensional body moves at constant speed along a circular track of
//! 800 units and wraps around when it reaches the end.  The simulator keeps
//! time in integer *ticks* and positions in integer *sub-units*, so every
//! stepping policy is exact integer arithmetic: a track resolution of `r`
//! means `r` sub-units per unit and `r` ticks per second, and a step of
//! `delta` ticks moves the body by exactly `velocity * delta` sub-units.
//!
//! [`simulator`] holds the kinematic state, the single-step rule and the
//! render-time interpolation between the last two simulated positions.
//! [`policy`] holds the per-frame stepping policies that decide how the
//! elapsed time of a rendered frame is turned into simulation steps, and
//! the frame-rate-independence proof for the fixed policy.

pub mod policy;
pub mod simulator;
