//! Choosing a region on the screen, and the border around it while it is
//! recorded.
pub mod app;
pub mod render;
pub mod selection;
