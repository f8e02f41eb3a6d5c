#![allow(non_snake_case)]

pub mod config;
pub mod fx;
pub mod mutation_algorithms;
pub mod nn;
pub mod problems;
mod rng;
pub mod utils;
