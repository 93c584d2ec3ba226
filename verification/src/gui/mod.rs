//! The capture panel.
pub mod app;
pub mod choices;
pub mod config;
pub mod laws;
pub mod outcomes;
pub mod outputs;
pub mod slots;
pub mod steps;
pub mod stitch;
pub mod surfaces;
pub mod upkeep;
pub mod view;
pub mod wallpaper;
pub mod widget;
