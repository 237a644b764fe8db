//! Simulation core of a grid-based snake game.
//!
//! The entities live in a `hecs::World`; every system is a verified function
//! over a mathematical view of that world and of the event queue.

pub mod components;
pub mod store;
pub mod events;
pub mod invariants;
pub mod laws;
mod random;
pub mod render;
pub mod seqs;
pub mod systems;
