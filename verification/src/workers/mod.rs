//! The decisions of the background workers: what waits, what is kept, what is asked for.

pub mod decode;
pub mod intake;
pub mod queue;
pub mod shelf;
pub mod sound;
