//! A terminal particle-effect toolkit: particles under simple physics are
//! aged, respawned and mapped through gradients onto a character grid that
//! renders itself as one ANSI escape-sequence block per frame.
//!
//! Every scalar (position, velocity, time) is a fixed-point number: an `i64`
//! counting micro-steps, with [`units::UNIT`] micro-steps to one world unit.
//! All arithmetic on these scalars saturates at the ends of `i64`.

pub mod gradient;
pub mod particle;
pub mod screen;
pub mod system;
pub mod units;
pub mod vector;
