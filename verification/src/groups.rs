//! Concrete algebraic group backends.

pub mod u32_mod;
