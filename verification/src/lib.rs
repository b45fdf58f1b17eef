//! The verified core of a non-linear video editor: the project model, the
//! overlap rules of the timeline, playback and pipeline decisions, and the
//! arithmetic of the media and interface layers.

pub mod ids;
pub mod time;
pub mod timeline;
pub mod tag;
pub mod text;
pub mod panel;
pub mod playback;
pub mod undo;
pub mod selection;
pub mod clip;
pub mod order;
pub mod project;
pub mod browse;
pub mod listing;
pub mod media;
pub mod audio;
pub mod engine;
pub mod debug_log;
pub mod keyboard;
pub mod workers;
