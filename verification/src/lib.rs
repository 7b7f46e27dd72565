//! Core rules of a mahjong roguelike: the tile set and the wall, hand
//! structure checks, pattern (yaku) detection, scoring tallies, bosses,
//! gadgets, the shop and the round state machine.

pub mod text;
pub mod models;
pub mod game;
pub mod persistence;
pub mod views;
