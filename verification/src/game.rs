//! The puzzle's own data and rules, kept in the store as components.

pub mod animation;
pub mod boxes;
pub mod buttons;
pub mod clones;
pub mod collision;
pub mod common;
pub mod components;
pub mod input;
pub mod map_gen;
pub mod math;
pub mod movement;
pub mod paths;
pub mod player;
pub mod queries;
pub mod render;
pub mod ticks;
pub mod win;
