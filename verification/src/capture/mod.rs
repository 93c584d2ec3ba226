//! Where pixels come from.
pub mod dmabuf;
pub mod pacing;
pub mod pipewire_capture;
pub mod screencast;
pub mod screencopy;
pub mod toplevels;
pub mod wayland;
