pub mod grid;
mod rng;
