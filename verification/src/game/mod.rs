pub mod pattern_checker;
pub mod gadget_effects;
pub mod boss_effects;
pub mod scoring_engine;
pub mod state;
pub mod shop;
