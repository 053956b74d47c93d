//! A verified 2D particle simulation: point bodies ("nodes") interact
//! pairwise through a gravitational pull and a Coulomb-style charge force,
//! and their kinematic state advances frame by frame by explicit Euler
//! integration.
//!
//! All physical quantities are held in fixed-point arithmetic: an `i64`
//! counts thousandths of a simulation unit (see [`config::SCALE`]), so every
//! force, velocity and position is an exact integer and every contract pins
//! the computed value down exactly.

pub mod config;
pub mod forces;
pub mod integrate;
pub mod math;
pub mod node;
pub mod sim;
pub mod spawn;
