//! From a request to a finished file.
pub mod debug;
pub mod record;
pub mod screenshot;
