//! Entity simulation and compositing core of a small tile-world game:
//! atlas parsing, entity movement with seek AI, forbidden-zone collision,
//! a camera that follows the player, and painter's-order draw commands.
//!
//! Positions are fixed-point integers (see `geom`), so every rule here is
//! exact and proved; the window, input, audio and file loading live outside.

pub mod atlas;
pub mod compose;
pub mod entity;
pub mod geom;
pub mod text;
pub mod world;
