//! The playback engine: which decoding pipelines run, what is shown, and where the
//! playhead goes. The engine decides; pipelines, pictures and sound are known to it by
//! numbers, and what is to be done with them it says in commands.

pub mod forward;
pub mod fps;
pub mod frames;
pub mod laws;
pub mod lookahead;
pub mod manage;
pub mod pass;
pub mod pictures;
pub mod poll;
pub mod promises;
pub mod reverse;
pub mod rewind_cache;
pub mod slots;
pub mod status;
