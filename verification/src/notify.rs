//! The notification that a capture was saved.
use crate::text;
use vstd::prelude::*;

verus! {

/// The name that notifications bear.
pub const APP_NAME: &'static str = "cosmic-capture";

/// Their icon.
pub const ICON: &'static str = "camera-photo-symbolic";

/// How long they stay, in milliseconds.
pub const EXPIRE_TIMEOUT_MS: i32 = 5000;

/// The headline: what was saved.
pub fn saved_summary(kind_label: &str) -> (s: String)
    ensures
        s@ == kind_label@ + " saved"@,
{
    let mut s = text::owned(kind_label);
    s.append(" saved");
    s
}

} // verus!
