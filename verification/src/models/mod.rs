pub mod tile;
pub mod faces;
pub mod hand;
pub mod artifact;
pub mod pattern;
pub mod wall;
pub mod gadget;
pub mod deck;
pub mod boss;
pub mod scoring;
pub mod split;
