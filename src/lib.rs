//! Gameplay core of a top-down adventure game: overlap queries between
//! actors and world colliders, the movement rule that those queries gate,
//! the routing of overlaps to collection, scene loading, dialogue and
//! scripts, a node-graph dialogue engine, and the command queue through
//! which script callbacks hand world changes back to the host.
//!
//! Coordinates are integers in a fixed sub-pixel unit chosen by the host.

pub mod animation;
pub mod behavior;
pub mod character;
pub mod collider;
pub mod dialogue;
pub mod game;
pub mod geometry;
pub mod input;
pub mod items;
pub mod motion;
pub mod scene;
pub mod script;
pub mod state;
