//! Core simulation of a 2D tile-based adventure game.
//!
//! The library models the grid world itself: discrete coordinates, the
//! spatial index that records which entities occupy which tile, cooldown-gated
//! movement and interaction, line-of-sight scanning, trigger dispatch, the
//! map-transition state machine and spawn-point resolution. Entities are
//! plain identifiers handed in by the surrounding engine; time is measured in
//! integer milliseconds; fade levels are integer per-mille values. The
//! engine-facing layers (rendering, asset loading, input polling) live
//! outside this crate and talk to it through these plain values.

pub mod connection;
pub mod control;
pub mod cooldown;
pub mod dialog;
pub mod game_text;
pub mod grid_index;
pub mod grid_transform;
pub mod map;
pub mod menu;
pub mod mob;
pub mod player;
pub mod sight;
pub mod state_stack;
pub mod world;
