//! What a driver needs around the kernel: the initial particle set, the
//! run state of the tick loop and the work of one loop iteration.

pub mod controller;
pub mod seeding;
