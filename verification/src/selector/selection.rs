//! A chosen region.
use vstd::prelude::*;

verus! {

/// A region on an output, in logical coordinates of that output.
pub struct Selection {
    pub output_name: String,
    pub output_logical_pos: (i32, i32),
    pub output_logical_size: (u32, u32),
    pub region_logical: (i32, i32, u32, u32),
    /// Pixels for each logical unit.
    pub scale: i32,
}

/// The user chose nothing.
#[derive(Clone, Copy, Debug, PartialEq, Eq, Structural)]
pub struct SelectionCancelled;

impl SelectionCancelled {
    /// The message for the user.
    pub fn message(&self) -> (s: &'static str)
        ensures
            s@ == "region selection cancelled"@,
    {
        "region selection cancelled"
    }
}

/// `v` brought into the range of a signed coordinate.
pub open spec fn to_i32(v: int) -> i32 {
    if v < i32::MIN {
        i32::MIN
    } else if v > i32::MAX {
        i32::MAX
    } else {
        v as i32
    }
}

/// `v` brought into the range of a length.
pub open spec fn to_u32(v: int) -> u32 {
    if v < 0 {
        0
    } else if v > u32::MAX {
        u32::MAX
    } else {
        v as u32
    }
}

/// `v` brought into the range of a signed coordinate.
pub fn clamp_i32(v: i128) -> (r: i32)
    ensures
        r == to_i32(v as int),
{
    if v < i32::MIN as i128 {
        i32::MIN
    } else if v > i32::MAX as i128 {
        i32::MAX
    } else {
        v as i32
    }
}

/// `v` brought into the range of a length.
pub fn clamp_u32(v: i128) -> (r: u32)
    ensures
        r == to_u32(v as int),
{
    if v < 0 {
        0
    } else if v > u32::MAX as i128 {
        u32::MAX
    } else {
        v as u32
    }
}

/// A region in pixels: each number times the scale, its extents at least one.
pub open spec fn physical(region: (i32, i32, u32, u32), scale: i32) -> (i32, i32, u32, u32) {
    let (x, y, w, h) = region;
    (
        to_i32(x * scale),
        to_i32(y * scale),
        if w * scale < 1 {
            1
        } else {
            to_u32(w * scale)
        },
        if h * scale < 1 {
            1
        } else {
            to_u32(h * scale)
        },
    )
}

/// A region in pixels.
pub fn physical_region(region: (i32, i32, u32, u32), scale: i32) -> (r: (i32, i32, u32, u32))
    ensures
        r == physical(region, scale),
{
    let (x, y, w, h) = region;
    proof {
        assert(-0x4000_0000_0000_0000 <= x * scale <= 0x4000_0000_0000_0000) by (nonlinear_arith)
            requires
                -0x8000_0000 <= x <= 0x7fff_ffff,
                -0x8000_0000 <= scale <= 0x7fff_ffff,
        ;
        assert(-0x4000_0000_0000_0000 <= y * scale <= 0x4000_0000_0000_0000) by (nonlinear_arith)
            requires
                -0x8000_0000 <= y <= 0x7fff_ffff,
                -0x8000_0000 <= scale <= 0x7fff_ffff,
        ;
        assert(-0x8000_0000_0000_0000 <= w * scale <= 0x8000_0000_0000_0000) by (nonlinear_arith)
            requires
                0 <= w <= 0xffff_ffff,
                -0x8000_0000 <= scale <= 0x7fff_ffff,
        ;
        assert(-0x8000_0000_0000_0000 <= h * scale <= 0x8000_0000_0000_0000) by (nonlinear_arith)
            requires
                0 <= h <= 0xffff_ffff,
                -0x8000_0000 <= scale <= 0x7fff_ffff,
        ;
    }
    let s: i128 = scale as i128;
    let pw: i128 = w as i128 * s;
    let ph: i128 = h as i128 * s;
    (
        clamp_i32(x as i128 * s),
        clamp_i32(y as i128 * s),
        if pw < 1 { 1 } else { clamp_u32(pw) },
        if ph < 1 { 1 } else { clamp_u32(ph) },
    )
}

impl Selection {
    /// The region in pixels.
    pub fn region_physical(&self) -> (r: (i32, i32, u32, u32))
        ensures
            r == physical(self.region_logical, self.scale),
    {
        physical_region(self.region_logical, self.scale)
    }
}

/// A region in pixels lies where the region does: each of its edges is the region's edge
/// times the scale.
pub proof fn regions_scale_with_their_output(region: (i32, i32, u32, u32), scale: i32)
    requires
        scale >= 1,
        region.2 >= 1,
        region.3 >= 1,
        i32::MIN <= region.0 * scale <= i32::MAX,
        i32::MIN <= region.1 * scale <= i32::MAX,
        region.2 * scale <= u32::MAX,
        region.3 * scale <= u32::MAX,
    ensures
        ({
            let p = physical(region, scale);
            &&& p.0 == region.0 * scale
            &&& p.1 == region.1 * scale
            &&& p.0 + p.2 == (region.0 + region.2) * scale
            &&& p.1 + p.3 == (region.1 + region.3) * scale
        }),
{
    let (x, y, w, h) = region;
    assert((x + w) * scale == x * scale + w * scale) by (nonlinear_arith);
    assert((y + h) * scale == y * scale + h * scale) by (nonlinear_arith);
    assert(w * scale >= 1 && h * scale >= 1) by (nonlinear_arith)
        requires
            w >= 1,
            h >= 1,
            scale >= 1,
    ;
}

} // verus!
