//! A falling-sand cellular automaton: a grid of material cells that fall,
//! flow, rise, change phase and react with their neighbours once per tick.
//!
//! The engine is organised as
//! - an element data model (`elements`): material kinds, behavioural
//!   attributes and fixed-point colours,
//! - a catalog of canonical element templates (`catalog`) from which cells
//!   are instantiated with a bounded random colour variance,
//! - a reaction table over unordered pairs of kinds (`reactions`),
//! - a double-buffered grid (`swap_buffer`, `swap_buf`) and
//! - the three-pass tick pipeline (`world`): gravity and liquid movement
//!   plus phase change, gas buoyancy, and pairwise chemistry.
//!
//! All randomness is drawn from a seedable source (`rng`) so that runs are
//! reproducible; probabilities and colours use fixed-point integers.

pub mod elements;
pub mod catalog;
pub mod reactions;
pub mod swap_buf;
pub mod swap_buffer;
pub mod vector;
pub mod world;
pub mod rng;
