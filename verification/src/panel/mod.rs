//! The panels: where things are drawn, and what the pointer does. Lengths are in
//! thousandths of a pixel, zooms in thousandths of a pixel per second.

pub mod browser;
pub mod drag;
pub mod face;
pub mod ghosts;
pub mod inspector;
pub mod labels;
pub mod layout;
pub mod menus;
pub mod pixels;
pub mod snap;
pub mod tile;
pub mod transport;
pub mod trimming;
pub mod view;
pub mod waves;
