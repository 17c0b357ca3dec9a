//! The simulation core of a turn-based dungeon game: a generator of rooms and
//! corridors, the field of view of each entity with the fog of war it leaves
//! on the map, and the scheduler that alternates between the player's input
//! and one step of the simulation.

pub mod components;
pub mod connectivity;
pub mod field_of_view;
pub mod fog;
pub mod game_map;
pub mod generator;
pub mod monster_ai_system;
pub mod player;
pub mod random;
pub mod rect;
pub mod render;
pub mod state;
pub mod visibility_system;
pub mod world;
