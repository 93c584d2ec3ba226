//! The desktop's colours.
use vstd::prelude::*;

verus! {

/// A colour in four bytes.
#[derive(Clone, Copy, Debug, PartialEq, Eq, Structural)]
pub struct Channels {
    pub r: u8,
    pub g: u8,
    pub b: u8,
    pub a: u8,
}

/// The colours of the theme that the selector uses.
#[derive(Clone, Copy, Debug, PartialEq, Eq, Structural)]
pub struct ThemeColors {
    /// The accent that the user chose, its alpha not applied to the others.
    pub accent: Channels,
    /// The palette's blue, whatever the accent, its alpha applied to the others.
    pub blue: Channels,
}

/// A colour as one number: alpha, red, green, blue, the alpha highest.
pub open spec fn packed(c: Channels) -> u32 {
    (c.a * 0x100_0000 + c.r * 0x1_0000 + c.g * 0x100 + c.b) as u32
}

/// A colour as one number: alpha, red, green, blue, the alpha highest.
pub fn pack(c: &Channels) -> (v: u32)
    ensures
        v == packed(*c),
        v == c.a * 0x100_0000 + c.r * 0x1_0000 + c.g * 0x100 + c.b,
{
    c.a as u32 * 0x100_0000 + c.r as u32 * 0x1_0000 + c.g as u32 * 0x100 + c.b as u32
}

/// The accent that the user chose, at full alpha.
pub fn accent_argb(t: &ThemeColors) -> (v: u32)
    ensures
        v == packed(Channels { a: 0xFF, ..t.accent }),
        v / 0x100_0000 == 0xFF,
{
    let opaque = Channels { r: t.accent.r, g: t.accent.g, b: t.accent.b, a: 0xFF };
    pack(&opaque)
}

/// The palette's blue, whatever the accent.
pub fn palette_blue_argb(t: &ThemeColors) -> (v: u32)
    ensures
        v == packed(t.blue),
{
    pack(&t.blue)
}

/// Whether the dark theme is taken: as the settings say, and where they do not.
pub fn prefers_dark(setting: Option<bool>) -> (b: bool)
    ensures
        b == (setting != Some(false)),
{
    match setting {
        Some(b) => b,
        None => true,
    }
}

/// Two colours with the same number are the same colour.
pub proof fn packing_is_injective(a: Channels, b: Channels)
    requires
        packed(a) == packed(b),
    ensures
        a == b,
{
}

/// A colour's channels read back from its number, each from its own byte.
pub proof fn channels_read_back(c: Channels)
    ensures
        packed(c) / 0x100_0000 == c.a,
        packed(c) / 0x1_0000 % 0x100 == c.r,
        packed(c) / 0x100 % 0x100 == c.g,
        packed(c) % 0x100 == c.b,
{
}

} // verus!
