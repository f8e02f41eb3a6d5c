pub mod interval;
pub mod math_utils;
