//! StarCraft: Brood War map, game-data and replay-header logic with
//! machine-checked contracts.

pub mod fp8;
pub mod text;
pub mod error;
pub mod chk;
pub mod chk_units;
pub mod dat;
pub mod tile;
pub mod tileset;
pub mod map;
pub mod regions;
pub mod direction;
pub mod vision;
pub mod unit;
pub mod pathfind;
pub mod gamedata;
pub mod header;
pub mod build_order;
pub mod classify;
pub mod identity;
pub mod command;
pub mod metadata;
pub mod similarity;
pub mod timeline;
pub mod game;
pub mod sim;
