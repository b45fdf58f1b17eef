//! Sound: samples, the rings that carry them between threads, and mixing.

pub mod analysis;
pub mod feed;
pub mod mixer;
pub mod ring;
pub mod sample;
