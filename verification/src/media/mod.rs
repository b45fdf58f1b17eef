//! What the media layer decides and computes: which files are media, how pictures
//! are fitted and packed, which frames are wanted, and what sound is made of.

pub mod backward;
pub mod clock;
pub mod fit;
pub mod frame;
pub mod import;
pub mod scan;
pub mod stream;
