//! The panel's own widgets.
pub mod rectangle_selection;
pub mod streaming_thumb;
