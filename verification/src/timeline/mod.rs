//! The timeline: tracks of clip instances.

pub mod clip;
pub mod overlap;
pub mod track;
pub mod lanes;
pub mod edit;
pub mod query;
pub mod placing;
pub mod removal;
pub mod remove;
pub mod seen;
pub mod trim;
pub mod laws;
