//! Verified core of a falling-sand world engine: chunk coordinates, dirty
//! rectangles, the 3x3 chunk groups that are updated together, the atom rules,
//! actors, and the player's inventory.

pub mod consts;
pub mod math;
pub mod manager_api;
pub mod atom;
pub mod materials;
pub mod chunk_group;
pub mod group_api;
pub mod atom_update;
pub mod powder;
pub mod chunk;
pub mod chunk_manager;
pub mod actors;
pub mod player_inv;
pub mod particles;
pub mod rigidbody;
pub mod animation;
pub mod geom_tools;
pub mod debug;
pub mod tool;
pub mod menu;
