pub mod chunk;
pub mod tile;
pub mod generator;
