pub mod board;
pub mod console;
pub mod counting;
pub mod laws;
mod rng;
pub mod types;
