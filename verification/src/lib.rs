//! Turn-based grid puzzle engine: a player-controlled unit and autonomous
//! creatures (predators, prey, pushable objects, leashed guards) occupy a
//! discrete 2D grid and resolve one turn per player input.

pub mod entity;
pub mod laws;
pub mod level;
pub mod model;
pub mod moves;
pub mod sight;
