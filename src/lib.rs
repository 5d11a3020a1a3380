pub mod constants;
pub mod immovable_objects;
pub mod movable_objects;
pub mod movements;
pub mod collisions;
pub mod paths;
pub mod game;
pub mod level;
pub mod lemmas;
