//! Fixed-point scalars and the planar vector built from them.

pub mod fixed;
pub mod vector;
