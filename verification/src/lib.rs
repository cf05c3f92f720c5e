pub mod grid;
pub mod patterns;
pub mod rules;
pub mod sampling;
pub mod state;
pub mod utils;
pub mod world;
