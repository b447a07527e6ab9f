//! A small entity-component store with runtime-checked column borrows and a
//! filtered join over several columns, and the rules of a tile puzzle that
//! keeps its entities in it.

pub mod asset_loader;
pub mod game;
pub mod laws;
pub mod model;
pub mod store;
pub mod system;
