pub mod dice;
pub mod rect;
pub mod map;
pub mod carve;
pub mod partition;
pub mod transition;
pub mod objects;
pub mod tables;
pub mod populate;
pub mod level;
pub mod flat_grid;
pub mod player;
pub mod moves;
pub mod reach;
