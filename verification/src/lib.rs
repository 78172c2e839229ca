//! A deterministic time-stepping kernel for circular bodies that fall under
//! gravity and collide inside a rectangular arena.
//!
//! Every quantity is a fixed-point number held in an `i64`: one length unit
//! is [`math::fixed::ONE`] raw steps, and a coordinate never leaves
//! `[-LIMIT, LIMIT]`. All arithmetic is exact integer arithmetic with a
//! stated rounding direction, so each phase of a tick is a function of its
//! input that the contracts pin down completely.

pub mod math;
pub mod engine;
pub mod interface;
