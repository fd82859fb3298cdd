pub mod driver;
pub mod field;
pub mod particle;
mod rng;
