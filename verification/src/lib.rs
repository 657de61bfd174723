//! Simulation core of a turn-based dungeon crawler: a generated map of
//! rooms and corridors, what each creature sees of it, how creatures move
//! on it, and whose turn it is.
//!
//! The modules, leaf first:
//!
//! - [`rect`]: integer rectangles, the shape of a room;
//! - [`map`]: the tile grid, its indexing, and the carving of rooms and
//!   corridors;
//! - [`paths`]: walks over floor tiles;
//! - [`generate`]: the dungeon generator;
//! - [`components`]: what an entity can be made of;
//! - [`world`]: the map together with an arena of entities;
//! - [`visibility`]: the visibility engine;
//! - [`player`]: the rule of movement, and the steps the player's keys
//!   ask for;
//! - [`state`]: the run-state machine and the queue of commands;
//! - [`spawner`]: setting a game up;
//! - [`render`]: what is to be drawn.
//!
//! Everything here is verified but for what `rltk` does: drawing random
//! numbers ([`dice`]) and casting shadows ([`fov`]). Those calls, and one
//! call of `String::push_str`, stand behind functions whose contracts are
//! believed, not proved; each says above its header what it claims.

pub mod components;
pub mod dice;
pub mod fov;
pub mod generate;
pub mod map;
pub mod paths;
pub mod player;
pub mod rect;
pub mod render;
pub mod spawner;
pub mod state;
pub mod visibility;
pub mod world;
