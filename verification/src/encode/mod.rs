//! Encoder pipelines: their descriptions, their element plans and the
//! decisions that sessions take while they run.
pub mod audio;
pub mod gif;
pub mod plugins;
pub mod session;
pub mod video;
pub mod video_dmabuf;
