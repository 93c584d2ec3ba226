//! Screenshot, video and GIF capture: the decisions, the geometry and the
//! pixel work, each with the contract that it is proved to meet.
pub mod bytes;
pub mod capture;
pub mod cli;
pub mod encode;
pub mod gui;
pub mod notify;
pub mod paths;
pub mod pipeline;
pub mod scale;
pub mod selector;
pub mod text;
pub mod theme;
