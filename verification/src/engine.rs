//! The entity model and the per-tick state advance.

pub mod collision;
pub mod domain;
pub mod solver;
pub mod theorems;
