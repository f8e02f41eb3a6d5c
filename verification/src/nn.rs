pub mod ann;
