//! Steering-behavior and state-estimation engine for autonomous agents in a
//! 2D simulation, computed over fixed-point integers (thousandths of a unit).
//!
//! Each tick the host supplies an agent's kinematic readings; the movement
//! strategies turn them into a desired linear-acceleration vector and
//! angular-acceleration scalar, or abstain. The estimators smooth noisy
//! scalar measurements across ticks.

pub mod fixed;
pub mod trig;
pub mod vector;
pub mod kinematics;
pub mod strategies;
pub mod estimation;
