//! Small utilities shared across the crate.

pub mod identify;
