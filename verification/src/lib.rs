//! A discrete-time artificial-life simulation on a toroidal grid.
//!
//! Animals forage for regenerating plants, spend energy every day, reproduce
//! asexually with a single-step mutation when they have energy to spare, and
//! die when they run out.  Every operation carries a contract over the
//! mathematical view of the data it touches.

pub mod animal;
pub mod census;
mod chance;
pub mod coordinate;
pub mod game;
pub mod genes;
pub mod model;
pub mod plant;
pub mod torus;
