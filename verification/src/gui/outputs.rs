//! Where the monitors are, and which of their pixels a selection covers.
use crate::capture::screencopy::CapturedFrame;
use crate::encode::video::CropRect;
use crate::gui::widget::rectangle_selection;
use crate::gui::widget::rectangle_selection::Rect;
use crate::pipeline::record::RegionPart;
use crate::scale;
use crate::scale::Ratio;
use crate::text;
use std::sync::Arc;
use vstd::prelude::*;

verus! {

/// `v` brought into `[lo, hi]`.
pub open spec fn clamped(v: int, lo: int, hi: int) -> int {
    if v < lo {
        lo
    } else if v > hi {
        hi
    } else {
        v
    }
}

/// The part of `b` inside `a`; it is empty where its edges are not in order.
pub open spec fn intersection(a: Rect, b: Rect) -> Rect {
    Rect {
        left: rectangle_selection::larger(a.left as int, b.left as int) as i32,
        top: rectangle_selection::larger(a.top as int, b.top as int) as i32,
        right: rectangle_selection::smaller(a.right as int, b.right as int) as i32,
        bottom: rectangle_selection::smaller(a.bottom as int, b.bottom as int) as i32,
    }
}

/// Whether a rectangle has an inside.
pub open spec fn nonempty(r: Rect) -> bool {
    r.left < r.right && r.top < r.bottom
}

/// The pixel edge nearest to the logical offset `v`, on an axis of `logical`
/// units and `physical` pixels.
pub open spec fn pixel_edge(v: int, logical: int, physical: int) -> int {
    clamped(Ratio::of_quotient(physical as nat, logical as nat).apply(v), 0, physical)
}

/// The pixels of the part of `region` on an output that lies at `out` and has
/// `physical` pixels: each edge goes to its nearest pixel edge, and at least one
/// pixel stays.
pub open spec fn region_crop(out: Rect, physical: (u32, u32), region: Rect) -> Option<CropRect> {
    let i = intersection(out, region);
    let (lw, lh) = (out.right - out.left, out.bottom - out.top);
    let (pw, ph) = (physical.0 as int, physical.1 as int);
    if !nonempty(i) {
        None
    } else {
        let l = pixel_edge(i.left - out.left, lw, pw);
        let t = pixel_edge(i.top - out.top, lh, ph);
        let r = pixel_edge(i.right - out.left, lw, pw);
        let b = pixel_edge(i.bottom - out.top, lh, ph);
        Some(
            CropRect {
                x: l as i32,
                y: t as i32,
                w: rectangle_selection::larger(r - l, 1) as u32,
                h: rectangle_selection::larger(b - t, 1) as u32,
            },
        )
    }
}

fn max_i32(a: i32, b: i32) -> (r: i32)
    ensures
        r == rectangle_selection::larger(a as int, b as int),
{
    if a <= b {
        b
    } else {
        a
    }
}

fn min_i32(a: i32, b: i32) -> (r: i32)
    ensures
        r == rectangle_selection::smaller(a as int, b as int),
{
    if a <= b {
        a
    } else {
        b
    }
}

fn clamp_i128(v: i128, lo: i128, hi: i128) -> (r: i128)
    ensures
        r == clamped(v as int, lo as int, hi as int),
{
    if v < lo {
        lo
    } else if v > hi {
        hi
    } else {
        v
    }
}

/// The two pixel edges of the logical span from `a` to `b`.
fn pixel_span(a: i32, b: i32, logical: i32, physical: u32) -> (s: (i128, i128))
    requires
        0 <= a < b <= logical,
    ensures
        s.0 == pixel_edge(a as int, logical as int, physical as int),
        s.1 == pixel_edge(b as int, logical as int, physical as int),
        0 <= s.0 <= s.1 <= physical,
{
    let ratio = Ratio::new(physical, logical as u32);
    let first: i128 = ratio.scale(a as i64);
    let last: i128 = ratio.scale(b as i64);
    proof {
        scale::lemma_apply_monotone(ratio, a as int, b as int);
    }
    (clamp_i128(first, 0, physical as i128), clamp_i128(last, 0, physical as i128))
}

/// Maps the part of `region` (global logical coordinates) that falls inside
/// `out` (an output's global logical rectangle) onto that output's pixel grid.
/// `None` if they do not meet.
pub fn crop_for_region(out: Rect, physical: (u32, u32), region: Rect) -> (c: Option<CropRect>)
    requires
        nonempty(intersection(out, region)) ==> out.measurable(),
    ensures
        c == region_crop(out, physical, region),
{
    let l: i32 = max_i32(out.left, region.left);
    let t: i32 = max_i32(out.top, region.top);
    let r: i32 = min_i32(out.right, region.right);
    let b: i32 = min_i32(out.bottom, region.bottom);
    if r <= l || b <= t {
        return None;
    }
    let (px_l, px_r) = pixel_span(l - out.left, r - out.left, out.width(), physical.0);
    let (px_t, px_b) = pixel_span(t - out.top, b - out.top, out.height(), physical.1);
    let w: i128 = if px_r - px_l > 1 { px_r - px_l } else { 1 };
    let h: i128 = if px_b - px_t > 1 { px_b - px_t } else { 1 };
    Some(CropRect { x: px_l as i32, y: px_t as i32, w: w as u32, h: h as u32 })
}

/// An output at scale one is cropped to exactly the logical intersection.
pub proof fn crop_at_unit_scale_is_the_intersection(out: Rect, physical: (u32, u32), region: Rect)
    requires
        nonempty(intersection(out, region)),
        out.measurable(),
        physical.0 == out.right - out.left,
        physical.1 == out.bottom - out.top,
    ensures
        ({
            let i = intersection(out, region);
            region_crop(out, physical, region) == Some(
                CropRect {
                    x: (i.left - out.left) as i32,
                    y: (i.top - out.top) as i32,
                    w: (i.right - i.left) as u32,
                    h: (i.bottom - i.top) as u32,
                },
            )
        }),
{
    let i = intersection(out, region);
    let (w, h) = (physical.0 as nat, physical.1 as nat);
    scale::lemma_apply_unit(w, i.left - out.left);
    scale::lemma_apply_unit(w, i.right - out.left);
    scale::lemma_apply_unit(h, i.top - out.top);
    scale::lemma_apply_unit(h, i.bottom - out.top);
}

/// A region that covers an output is cropped to all of its pixels.
pub proof fn crop_of_whole_output_is_every_pixel(out: Rect, physical: (u32, u32), region: Rect)
    requires
        nonempty(out),
        out.measurable(),
        intersection(out, region) == out,
        1 <= physical.0,
        1 <= physical.1,
    ensures
        region_crop(out, physical, region) == Some(
            CropRect { x: 0, y: 0, w: physical.0, h: physical.1 },
        ),
{
    let (lw, lh) = ((out.right - out.left) as nat, (out.bottom - out.top) as nat);
    scale::lemma_apply_whole(physical.0 as nat, lw);
    scale::lemma_apply_whole(physical.1 as nat, lh);
    scale::lemma_apply_zero(Ratio::of_quotient(physical.0 as nat, lw));
    scale::lemma_apply_zero(Ratio::of_quotient(physical.1 as nat, lh));
}

/// The logical span from `a` to `b` gets a pixel of its own: the axis has at least
/// a pixel for each unit, or else the span's edges do not round to the same pixel
/// edge.
pub open spec fn span_shows(a: int, b: int, logical: int, physical: int) -> bool {
    logical <= physical || pixel_edge(a, logical, physical) < pixel_edge(b, logical, physical)
}

proof fn lemma_span_shows(a: int, b: int, logical: int, physical: int)
    requires
        0 <= a < b <= logical < 0x1_0000_0000,
        0 <= physical < 0x1_0000_0000,
        span_shows(a, b, logical, physical),
    ensures
        0 <= pixel_edge(a, logical, physical) < pixel_edge(b, logical, physical) <= physical,
{
    if logical <= physical {
        let r = Ratio::of_quotient(physical as nat, logical as nat);
        scale::lemma_apply_strict(physical as nat, logical as nat, a as nat);
        scale::lemma_apply_monotone(r, a + 1, b);
        scale::lemma_apply_monotone(r, b, logical);
        scale::lemma_apply_monotone(r, 0, a);
        scale::lemma_apply_zero(r);
        scale::lemma_apply_whole(physical as nat, logical as nat);
    }
}

/// Two regions that share a vertical edge inside an output have crops that share
/// it too: no pixel column between them is lost or taken twice. Left out are, on
/// an output with fewer columns than logical units, a first part so narrow that it
/// rounds to no column at all, since it still gets one; and an output too wide for
/// a signed column.
pub proof fn adjacent_crops_tile_without_seam(
    out: Rect,
    physical: (u32, u32),
    first: Rect,
    second: Rect,
)
    requires
        out.measurable(),
        nonempty(intersection(out, first)),
        nonempty(intersection(out, second)),
        first.right == second.left,
        physical.0 <= i32::MAX,
        span_shows(
            intersection(out, first).left - out.left,
            intersection(out, first).right - out.left,
            out.right - out.left,
            physical.0 as int,
        ),
    ensures
        ({
            let a = region_crop(out, physical, first)->0;
            let b = region_crop(out, physical, second)->0;
            a.x + a.w == b.x
        }),
{
    let i = intersection(out, first);
    lemma_span_shows(
        i.left - out.left,
        i.right - out.left,
        out.right - out.left,
        physical.0 as int,
    );
}

/// Two regions that share a horizontal edge inside an output have crops that share
/// it too: no pixel row between them is lost or taken twice. Left out is what
/// `adjacent_crops_tile_without_seam` leaves out, of rows.
pub proof fn stacked_crops_tile_without_seam(
    out: Rect,
    physical: (u32, u32),
    first: Rect,
    second: Rect,
)
    requires
        out.measurable(),
        nonempty(intersection(out, first)),
        nonempty(intersection(out, second)),
        first.bottom == second.top,
        physical.1 <= i32::MAX,
        span_shows(
            intersection(out, first).top - out.top,
            intersection(out, first).bottom - out.top,
            out.bottom - out.top,
            physical.1 as int,
        ),
    ensures
        ({
            let a = region_crop(out, physical, first)->0;
            let b = region_crop(out, physical, second)->0;
            a.y + a.h == b.y
        }),
{
    let i = intersection(out, first);
    lemma_span_shows(
        i.top - out.top,
        i.bottom - out.top,
        out.bottom - out.top,
        physical.1 as int,
    );
}

/// A region that is cut in two at a logical column has a crop that is cut in two:
/// the parts' crops lie side by side, in the same rows, and together are the whole's.
/// Left out are, on an output with fewer columns than logical units, a part so
/// narrow that it rounds to no column at all, since it still gets one; and an
/// output too wide for a signed column.
pub proof fn crops_of_columns_tile_the_whole(
    out: Rect,
    physical: (u32, u32),
    region: Rect,
    at: i32,
)
    requires
        out.measurable(),
        nonempty(intersection(out, Rect { right: at, ..region })),
        nonempty(intersection(out, Rect { left: at, ..region })),
        physical.0 <= i32::MAX,
        ({
            let i = intersection(out, region);
            let (lw, pw) = (out.right - out.left, physical.0 as int);
            &&& span_shows(i.left - out.left, at - out.left, lw, pw)
            &&& span_shows(at - out.left, i.right - out.left, lw, pw)
        }),
    ensures
        ({
            let whole = region_crop(out, physical, region);
            let a = region_crop(out, physical, Rect { right: at, ..region });
            let b = region_crop(out, physical, Rect { left: at, ..region });
            &&& whole is Some && a is Some && b is Some
            &&& (a->0).x == (whole->0).x
            &&& (a->0).x + (a->0).w == (b->0).x
            &&& (a->0).w + (b->0).w == (whole->0).w
            &&& (a->0).y == (whole->0).y && (b->0).y == (whole->0).y
            &&& (a->0).h == (whole->0).h && (b->0).h == (whole->0).h
        }),
{
    let i = intersection(out, region);
    let (lw, pw) = (out.right - out.left, physical.0 as int);
    lemma_span_shows(i.left - out.left, at - out.left, lw, pw);
    lemma_span_shows(at - out.left, i.right - out.left, lw, pw);
}

/// A region that is cut in two at a logical row has a crop that is cut in two: the
/// parts' crops lie one below the other, in the same columns, and together are the
/// whole's. Left out is what `crops_of_columns_tile_the_whole` leaves out, of rows.
pub proof fn crops_of_rows_tile_the_whole(
    out: Rect,
    physical: (u32, u32),
    region: Rect,
    at: i32,
)
    requires
        out.measurable(),
        nonempty(intersection(out, Rect { bottom: at, ..region })),
        nonempty(intersection(out, Rect { top: at, ..region })),
        physical.1 <= i32::MAX,
        ({
            let i = intersection(out, region);
            let (lh, ph) = (out.bottom - out.top, physical.1 as int);
            &&& span_shows(i.top - out.top, at - out.top, lh, ph)
            &&& span_shows(at - out.top, i.bottom - out.top, lh, ph)
        }),
    ensures
        ({
            let whole = region_crop(out, physical, region);
            let a = region_crop(out, physical, Rect { bottom: at, ..region });
            let b = region_crop(out, physical, Rect { top: at, ..region });
            &&& whole is Some && a is Some && b is Some
            &&& (a->0).y == (whole->0).y
            &&& (a->0).y + (a->0).h == (b->0).y
            &&& (a->0).h + (b->0).h == (whole->0).h
            &&& (a->0).x == (whole->0).x && (b->0).x == (whole->0).x
            &&& (a->0).w == (whole->0).w && (b->0).w == (whole->0).w
        }),
{
    let i = intersection(out, region);
    let (lh, ph) = (out.bottom - out.top, physical.1 as int);
    lemma_span_shows(i.top - out.top, at - out.top, lh, ph);
    lemma_span_shows(at - out.top, i.bottom - out.top, lh, ph);
}

/// A crop lies on the output. Left out are, on an output with fewer pixels than
/// logical units, a region so narrow that it rounds to no pixel at all.
pub proof fn crop_lies_on_the_output(out: Rect, physical: (u32, u32), region: Rect)
    requires
        out.measurable(),
        nonempty(intersection(out, region)),
        physical.0 <= i32::MAX,
        physical.1 <= i32::MAX,
        ({
            let i = intersection(out, region);
            let (lw, lh) = (out.right - out.left, out.bottom - out.top);
            let (pw, ph) = (physical.0 as int, physical.1 as int);
            &&& span_shows(i.left - out.left, i.right - out.left, lw, pw)
            &&& span_shows(i.top - out.top, i.bottom - out.top, lh, ph)
        }),
    ensures
        ({
            let c = region_crop(out, physical, region)->0;
            &&& 0 <= c.x && c.x + c.w <= physical.0
            &&& 0 <= c.y && c.y + c.h <= physical.1
            &&& 1 <= c.w && 1 <= c.h
        }),
{
    let i = intersection(out, region);
    let (lw, lh) = (out.right - out.left, out.bottom - out.top);
    lemma_span_shows(i.left - out.left, i.right - out.left, lw, physical.0 as int);
    lemma_span_shows(i.top - out.top, i.bottom - out.top, lh, physical.1 as int);
}

/// A crop's edges are the region's, to the nearest pixel: each lies where the region's
/// edge does on an axis of `logical` units and `physical` pixels, off by no more than
/// three quarters of a pixel, that is by a half but for rounding.
pub proof fn crops_lie_where_their_regions_do(out: Rect, physical: (u32, u32), region: Rect)
    requires
        out.measurable(),
        nonempty(out),
        physical.0 <= i32::MAX,
        physical.1 <= i32::MAX,
        out.left < region.right && region.left < out.right,
        out.top < region.bottom && region.top < out.bottom,
        nonempty(region),
    ensures
        ({
            let c = region_crop(out, physical, region)->0;
            let (lw, lh) = (out.right - out.left, out.bottom - out.top);
            let (left, right) = (
                if region.left < out.left {
                    0
                } else {
                    region.left - out.left
                },
                if out.right < region.right {
                    lw
                } else {
                    region.right - out.left
                },
            );
            let (top, bottom) = (
                if region.top < out.top {
                    0
                } else {
                    region.top - out.top
                },
                if out.bottom < region.bottom {
                    lh
                } else {
                    region.bottom - out.top
                },
            );
            &&& region_crop(out, physical, region) is Some
            &&& near(c.x as int, left, lw, physical.0 as int)
            &&& near(c.y as int, top, lh, physical.1 as int)
            &&& c.w == 1 || near(c.x + c.w, right, lw, physical.0 as int)
            &&& c.h == 1 || near(c.y + c.h, bottom, lh, physical.1 as int)
        }),
{
    let i = intersection(out, region);
    let (lw, lh) = (out.right - out.left, out.bottom - out.top);
    lemma_near(i.left - out.left, lw, physical.0 as int);
    lemma_near(i.right - out.left, lw, physical.0 as int);
    lemma_near(i.top - out.top, lh, physical.1 as int);
    lemma_near(i.bottom - out.top, lh, physical.1 as int);
}

/// Pixel edge `e` is the one nearest to the logical offset `v`, or as near as rounding
/// lets it be.
pub open spec fn near(e: int, v: int, logical: int, physical: int) -> bool {
    4 * (e * logical - v * physical) <= 3 * logical && 4 * (v * physical - e * logical) <= 3 * logical
}

proof fn lemma_near(v: int, logical: int, physical: int)
    requires
        0 <= v <= logical,
        1 <= logical < 0x1_0000_0000,
        0 <= physical < 0x1_0000_0000,
    ensures
        near(pixel_edge(v, logical, physical), v, logical, physical),
        0 <= pixel_edge(v, logical, physical) <= physical,
{
    scale::coordinates_scale_to_the_nearest_pixel(physical as nat, logical as nat, v as nat);
}

/// What the desktop paints behind an output's windows.
pub enum BgSource {
    /// An image file.
    Path(String),
    /// A colour or a gradient.
    Color,
}

/// A monitor as the panel knows it.
pub struct OutputInfo {
    /// The compositor's number for the output.
    pub key: u32,
    pub name: String,
    pub logical_pos: (i32, i32),
    pub logical_size: (u32, u32),
    /// The current mode in pixels, turned the way `logical_size` is.
    pub physical_size: (u32, u32),
    /// Whether the freeze capture has come back, with a frame or without.
    pub freeze_done: bool,
    pub toolbar_id: Option<u64>,
    pub recording_id: Option<u64>,
    /// The frame captured before the toolbar opened.
    pub frozen: Option<Arc<CapturedFrame>>,
    /// Whether the freeze is shown as a texture.
    pub frozen_texture: bool,
    /// Whether that texture is pinned in the image cache.
    pub frozen_pinned: bool,
    /// Whether the freeze is shown by the compositor itself.
    pub frozen_sub: bool,
    pub bg_source: Option<BgSource>,
    /// Whether the wallpaper has been decoded and scaled.
    pub wallpaper_ready: bool,
}

impl OutputInfo {
    /// The output's edges are 32 bit coordinates.
    pub open spec fn placed(self) -> bool {
        &&& i32::MIN <= self.logical_pos.0 + (self.logical_size.0 as i32) <= i32::MAX
        &&& i32::MIN <= self.logical_pos.1 + (self.logical_size.1 as i32) <= i32::MAX
    }

    /// The output in global logical coordinates.
    pub open spec fn rect(self) -> Rect {
        Rect {
            left: self.logical_pos.0,
            top: self.logical_pos.1,
            right: (self.logical_pos.0 + (self.logical_size.0 as i32)) as i32,
            bottom: (self.logical_pos.1 + (self.logical_size.1 as i32)) as i32,
        }
    }

    /// Physical pixels per logical unit along one axis; one where the output
    /// has no extent.
    pub open spec fn axis_scale(physical: u32, logical: u32) -> Ratio {
        if logical > 0 {
            Ratio::of_quotient(physical as nat, logical as nat).larger(Ratio::epsilon())
        } else {
            Ratio::unit().larger(Ratio::epsilon())
        }
    }

    /// Whether a point lies on the output.
    pub open spec fn has_point(self, x: int, y: int) -> bool {
        let r = self.rect();
        r.left <= x < r.right && r.top <= y < r.bottom
    }

    /// Physical pixels per logical unit along each axis: fractional on scaled
    /// outputs, one at 100%.
    pub fn scale_xy(&self) -> (s: (Ratio, Ratio))
        ensures
            s.0 == OutputInfo::axis_scale(self.physical_size.0, self.logical_size.0),
            s.1 == OutputInfo::axis_scale(self.physical_size.1, self.logical_size.1),
            s.0.wf(),
            s.1.wf(),
    {
        let (lw, lh) = self.logical_size;
        let (pw, ph) = self.physical_size;
        let sx = if lw > 0 { Ratio::new(pw, lw) } else { Ratio::one() };
        let sy = if lh > 0 { Ratio::new(ph, lh) } else { Ratio::one() };
        (sx.max(Ratio::smallest()), sy.max(Ratio::smallest()))
    }

    /// The pixels of this output that `region` covers.
    pub fn crop_for_region(&self, region: Rect) -> (c: Option<CropRect>)
        requires
            self.placed(),
        ensures
            c == region_crop(self.rect(), self.physical_size, region),
    {
        crop_for_region(output_rect_of(self), self.physical_size, region)
    }
}

/// The output in global logical coordinates.
pub fn output_rect_of(info: &OutputInfo) -> (r: Rect)
    requires
        info.placed(),
    ensures
        r == info.rect(),
{
    Rect {
        left: info.logical_pos.0,
        top: info.logical_pos.1,
        right: info.logical_pos.0 + info.logical_size.0 as i32,
        bottom: info.logical_pos.1 + info.logical_size.1 as i32,
    }
}

/// Whether an output and a region share an inside.
pub open spec fn overlaps(info: OutputInfo, region: Rect) -> bool {
    let r = info.rect();
    region.left < r.right && region.right > r.left && region.top < r.bottom && region.bottom
        > r.top
}

/// Whether an output and a region share an inside.
pub fn region_overlaps(info: &OutputInfo, region: &Rect) -> (b: bool)
    requires
        info.placed(),
    ensures
        b == overlaps(*info, *region),
{
    let r = output_rect_of(info);
    region.left < r.right && region.right > r.left && region.top < r.bottom && region.bottom
        > r.top
}

/// Every output has 32 bit edges.
pub open spec fn all_placed(outputs: Seq<OutputInfo>) -> bool {
    forall|i: int| 0 <= i < outputs.len() ==> (#[trigger] outputs[i]).placed()
}

/// How many outputs a region touches.
pub open spec fn overlap_count(outputs: Seq<OutputInfo>, region: Rect) -> nat
    decreases outputs.len(),
{
    if outputs.len() == 0 {
        0
    } else {
        overlap_count(outputs.drop_last(), region) + if overlaps(outputs.last(), region) {
            1nat
        } else {
            0nat
        }
    }
}

/// The density of a canvas for `region`: that of the densest output it touches,
/// and at least one.
pub open spec fn canvas_scale(outputs: Seq<OutputInfo>, region: Rect) -> Ratio
    decreases outputs.len(),
{
    if outputs.len() == 0 {
        Ratio::unit()
    } else {
        let before = canvas_scale(outputs.drop_last(), region);
        let o = outputs.last();
        if overlaps(o, region) {
            before.larger(
                OutputInfo::axis_scale(o.physical_size.0, o.logical_size.0).larger(
                    OutputInfo::axis_scale(o.physical_size.1, o.logical_size.1),
                ),
            )
        } else {
            before
        }
    }
}

/// The extent of a canvas between two scaled edges.
pub open spec fn canvas_extent(scale: Ratio, from: int, to: int) -> u32 {
    rectangle_selection::larger(scale.apply(to) - scale.apply(from), 0) as u32
}

/// Where an edge of a part lands on the canvas.
pub open spec fn canvas_edge(scale: Ratio, edge: int, origin: int, extent: u32) -> int {
    clamped(scale.apply(edge) - scale.apply(origin), 0, extent as int)
}

/// An output's share of a region's canvas of `w` by `h` pixels.
pub open spec fn region_part(info: OutputInfo, region: Rect, scale: Ratio, w: u32, h: u32) -> Option<
    RegionPart,
> {
    let i = intersection(info.rect(), region);
    let crop = region_crop(info.rect(), info.physical_size, region);
    let l = canvas_edge(scale, i.left as int, region.left as int, w);
    let t = canvas_edge(scale, i.top as int, region.top as int, h);
    let r = canvas_edge(scale, i.right as int, region.left as int, w);
    let b = canvas_edge(scale, i.bottom as int, region.top as int, h);
    if !overlaps(info, region) || crop is None || r - l == 0 || b - t == 0 {
        None
    } else {
        Some(
            RegionPart {
                output_name: info.name,
                src_crop: crop->0,
                dst_pos: (l as u32, t as u32),
                dst_size: ((r - l) as u32, (b - t) as u32),
            },
        )
    }
}

/// The shares of all outputs, in the outputs' order.
pub open spec fn region_parts(
    outputs: Seq<OutputInfo>,
    region: Rect,
    scale: Ratio,
    w: u32,
    h: u32,
) -> Seq<RegionPart>
    decreases outputs.len(),
{
    if outputs.len() == 0 {
        Seq::empty()
    } else {
        let before = region_parts(outputs.drop_last(), region, scale, w, h);
        match region_part(outputs.last(), region, scale, w, h) {
            Some(p) => before.push(p),
            None => before,
        }
    }
}

/// The geometry of a region across monitors: a canvas in pixels, its density,
/// and each output's share.
pub struct RegionLayout {
    pub canvas_w: u32,
    pub canvas_h: u32,
    pub target_scale: Ratio,
    pub parts: Vec<RegionPart>,
}

/// Whether a region has a layout, that is whether its canvas and its list of
/// shares are not empty.
pub open spec fn has_layout(outputs: Seq<OutputInfo>, region: Rect) -> bool {
    let r = region.normalized();
    let scale = canvas_scale(outputs, r);
    let w = canvas_extent(scale, r.left as int, r.right as int);
    let h = canvas_extent(scale, r.top as int, r.bottom as int);
    &&& r.left < r.right
    &&& r.top < r.bottom
    &&& overlap_count(outputs, r) > 0
    &&& w > 0
    &&& h > 0
    &&& region_parts(outputs, r, scale, w, h).len() > 0
}

impl RegionLayout {
    /// This is the layout of a region over the outputs.
    pub open spec fn lays_out(self, outputs: Seq<OutputInfo>, region: Rect) -> bool {
        let r = region.normalized();
        &&& self.target_scale == canvas_scale(outputs, r)
        &&& self.canvas_w == canvas_extent(self.target_scale, r.left as int, r.right as int)
        &&& self.canvas_h == canvas_extent(self.target_scale, r.top as int, r.bottom as int)
        &&& self.parts@ == region_parts(
            outputs,
            r,
            self.target_scale,
            self.canvas_w,
            self.canvas_h,
        )
    }
}

/// How many outputs a region touches.
pub fn count_overlapping(outputs: &Vec<OutputInfo>, region: &Rect) -> (n: usize)
    requires
        all_placed(outputs@),
    ensures
        n == overlap_count(outputs@, *region),
{
    let mut n: usize = 0;
    let mut i: usize = 0;
    while i < outputs.len()
        invariant
            i <= outputs@.len(),
            n <= i,
            all_placed(outputs@),
            n == overlap_count(outputs@.take(i as int), *region),
        decreases outputs@.len() - i,
    {
        assert(outputs@.take(i + 1).drop_last() =~= outputs@.take(i as int));
        if region_overlaps(&outputs[i], region) {
            n = n + 1;
        }
        i = i + 1;
    }
    assert(outputs@.take(i as int) =~= outputs@);
    n
}

fn densest(outputs: &Vec<OutputInfo>, region: &Rect) -> (s: Ratio)
    requires
        all_placed(outputs@),
    ensures
        s == canvas_scale(outputs@, *region),
        s.wf(),
{
    let mut s = Ratio::one();
    let mut i: usize = 0;
    while i < outputs.len()
        invariant
            i <= outputs@.len(),
            all_placed(outputs@),
            s.wf(),
            s == canvas_scale(outputs@.take(i as int), *region),
        decreases outputs@.len() - i,
    {
        assert(outputs@.take(i + 1).drop_last() =~= outputs@.take(i as int));
        if region_overlaps(&outputs[i], region) {
            let (sx, sy) = outputs[i].scale_xy();
            s = s.max(sx.max(sy));
        }
        i = i + 1;
    }
    assert(outputs@.take(i as int) =~= outputs@);
    s
}

fn extent_of(scale: Ratio, from: i32, to: i32) -> (e: u32)
    requires
        scale.wf(),
    ensures
        e == canvas_extent(scale, from as int, to as int),
{
    let d: i128 = scale.scale(to as i64) - scale.scale(from as i64);
    if d > 0 {
        d as u32
    } else {
        0
    }
}

fn edge_of(scale: Ratio, edge: i32, origin: i32, extent: u32) -> (e: u32)
    requires
        scale.wf(),
    ensures
        e == canvas_edge(scale, edge as int, origin as int, extent),
{
    let d: i128 = scale.scale(edge as i64) - scale.scale(origin as i64);
    clamp_i128(d, 0, extent as i128) as u32
}

fn part_of(info: &OutputInfo, region: &Rect, scale: Ratio, w: u32, h: u32) -> (p: Option<RegionPart>)
    requires
        info.placed(),
        scale.wf(),
    ensures
        p == region_part(*info, *region, scale, w, h),
{
    if !region_overlaps(info, region) {
        return None;
    }
    let out = output_rect_of(info);
    let ix_l: i32 = max_i32(out.left, region.left);
    let iy_t: i32 = max_i32(out.top, region.top);
    let ix_r: i32 = min_i32(out.right, region.right);
    let iy_b: i32 = min_i32(out.bottom, region.bottom);
    let src_crop = match info.crop_for_region(*region) {
        Some(c) => c,
        None => {
            return None;
        },
    };
    let l: u32 = edge_of(scale, ix_l, region.left, w);
    let t: u32 = edge_of(scale, iy_t, region.top, h);
    let r: u32 = edge_of(scale, ix_r, region.left, w);
    let b: u32 = edge_of(scale, iy_b, region.top, h);
    proof {
        scale::lemma_apply_monotone(scale, ix_l as int, ix_r as int);
        scale::lemma_apply_monotone(scale, iy_t as int, iy_b as int);
    }
    if r - l == 0 || b - t == 0 {
        return None;
    }
    Some(
        RegionPart {
            output_name: info.name.clone(),
            src_crop,
            dst_pos: (l, t),
            dst_size: (r - l, b - t),
        },
    )
}

/// Lays a region out over the outputs: the canvas, and what each output puts on
/// it. `None` where nothing of the region is on any output.
pub fn compute_region_parts(outputs: &Vec<OutputInfo>, region: &Rect) -> (r: Option<RegionLayout>)
    requires
        all_placed(outputs@),
        region.measurable(),
    ensures
        match r {
            Some(layout) => has_layout(outputs@, *region) && layout.lays_out(outputs@, *region),
            None => !has_layout(outputs@, *region),
        },
{
    let region = region.normalize();
    if region.width() <= 0 || region.height() <= 0 {
        return None;
    }
    if count_overlapping(outputs, &region) == 0 {
        return None;
    }
    let target_scale = densest(outputs, &region);
    let canvas_w: u32 = extent_of(target_scale, region.left, region.right);
    let canvas_h: u32 = extent_of(target_scale, region.top, region.bottom);
    if canvas_w == 0 || canvas_h == 0 {
        return None;
    }
    let mut parts: Vec<RegionPart> = Vec::new();
    let mut i: usize = 0;
    while i < outputs.len()
        invariant
            i <= outputs@.len(),
            all_placed(outputs@),
            target_scale.wf(),
            parts@ == region_parts(
                outputs@.take(i as int),
                region,
                target_scale,
                canvas_w,
                canvas_h,
            ),
        decreases outputs@.len() - i,
    {
        assert(outputs@.take(i + 1).drop_last() =~= outputs@.take(i as int));
        if let Some(p) = part_of(&outputs[i], &region, target_scale, canvas_w, canvas_h) {
            parts.push(p);
        }
        i = i + 1;
    }
    assert(outputs@.take(i as int) =~= outputs@);
    if parts.len() == 0 {
        return None;
    }
    Some(RegionLayout { canvas_w, canvas_h, target_scale, parts })
}

/// The canvas is at least as dense as every output that the region touches, and
/// at least as dense as scale one.
pub proof fn canvas_is_densest(outputs: Seq<OutputInfo>, region: Rect, i: int)
    requires
        0 <= i < outputs.len(),
        overlaps(outputs[i], region),
    ensures
        Ratio::unit().le(canvas_scale(outputs, region)),
        OutputInfo::axis_scale(outputs[i].physical_size.0, outputs[i].logical_size.0).le(
            canvas_scale(outputs, region),
        ),
        OutputInfo::axis_scale(outputs[i].physical_size.1, outputs[i].logical_size.1).le(
            canvas_scale(outputs, region),
        ),
    decreases outputs.len(),
{
    let o = outputs.last();
    let init = outputs.drop_last();
    let before = canvas_scale(init, region);
    let after = canvas_scale(outputs, region);
    let sx = OutputInfo::axis_scale(o.physical_size.0, o.logical_size.0);
    let sy = OutputInfo::axis_scale(o.physical_size.1, o.logical_size.1);
    lemma_canvas_unit(outputs, region);
    if i == outputs.len() - 1 {
        scale::lemma_le_total(sx, sy);
        scale::lemma_le_total(before, sx.larger(sy));
        scale::lemma_le_transitive(sx, sx.larger(sy), after);
        scale::lemma_le_transitive(sy, sx.larger(sy), after);
    } else {
        canvas_is_densest(init, region, i);
        let ox = OutputInfo::axis_scale(outputs[i].physical_size.0, outputs[i].logical_size.0);
        let oy = OutputInfo::axis_scale(outputs[i].physical_size.1, outputs[i].logical_size.1);
        scale::lemma_le_total(before, sx.larger(sy));
        scale::lemma_le_total(before, before);
        scale::lemma_le_transitive(ox, before, after);
        scale::lemma_le_transitive(oy, before, after);
    }
}

proof fn lemma_canvas_unit(outputs: Seq<OutputInfo>, region: Rect)
    ensures
        Ratio::unit().le(canvas_scale(outputs, region)),
    decreases outputs.len(),
{
    if outputs.len() > 0 {
        let o = outputs.last();
        let before = canvas_scale(outputs.drop_last(), region);
        let sx = OutputInfo::axis_scale(o.physical_size.0, o.logical_size.0);
        let sy = OutputInfo::axis_scale(o.physical_size.1, o.logical_size.1);
        lemma_canvas_unit(outputs.drop_last(), region);
        scale::lemma_le_total(before, sx.larger(sy));
        scale::lemma_le_total(before, before);
        scale::lemma_le_transitive(Ratio::unit(), before, canvas_scale(outputs, region));
    }
}

/// A part lies on a canvas of `w` by `h` pixels and is not empty.
pub open spec fn on_canvas(p: RegionPart, w: u32, h: u32) -> bool {
    &&& p.dst_pos.0 + p.dst_size.0 <= w
    &&& p.dst_pos.1 + p.dst_size.1 <= h
    &&& p.dst_size.0 > 0
    &&& p.dst_size.1 > 0
}

/// Every part of a layout lies on the canvas and is not empty.
pub proof fn parts_lie_on_the_canvas(
    outputs: Seq<OutputInfo>,
    region: Rect,
    scale: Ratio,
    w: u32,
    h: u32,
)
    requires
        all_placed(outputs),
    ensures
        forall|i: int|
            0 <= i < region_parts(outputs, region, scale, w, h).len() ==> on_canvas(
                #[trigger] region_parts(outputs, region, scale, w, h)[i],
                w,
                h,
            ),
    decreases outputs.len(),
{
    if outputs.len() > 0 {
        let init = outputs.drop_last();
        assert forall|i: int| 0 <= i < init.len() implies (#[trigger] init[i]).placed() by {
            assert(outputs[i].placed());
        }
        parts_lie_on_the_canvas(init, region, scale, w, h);
        let o = outputs.last();
        let i = intersection(o.rect(), region);
        if let Some(p) = region_part(o, region, scale, w, h) {
            scale::lemma_apply_monotone(scale, i.left as int, i.right as int);
            scale::lemma_apply_monotone(scale, i.top as int, i.bottom as int);
            assert(on_canvas(p, w, h));
        }
        let before = region_parts(init, region, scale, w, h);
        let after = region_parts(outputs, region, scale, w, h);
        assert forall|j: int| 0 <= j < after.len() implies on_canvas(#[trigger] after[j], w, h) by {
            if j < before.len() {
                assert(after[j] == before[j]);
            }
        }
    }
}

/// Two outputs that touch inside the region have parts that touch on the
/// canvas: the column where one ends is the column where the other starts.
pub proof fn neighbouring_parts_touch(
    a: OutputInfo,
    b: OutputInfo,
    region: Rect,
    scale: Ratio,
    w: u32,
    h: u32,
)
    requires
        a.placed(),
        b.placed(),
        a.rect().right == b.rect().left,
        region.left <= a.rect().right <= region.right,
        region_part(a, region, scale, w, h) is Some,
        region_part(b, region, scale, w, h) is Some,
    ensures
        ({
            let p = region_part(a, region, scale, w, h)->0;
            let q = region_part(b, region, scale, w, h)->0;
            p.dst_pos.0 + p.dst_size.0 == q.dst_pos.0
        }),
{
    let i = intersection(a.rect(), region);
    scale::lemma_apply_monotone(scale, i.left as int, i.right as int);
}

/// An output that covers the region fills its canvas, wherever the canvas has
/// 32 bit extents.
pub proof fn covering_output_fills_the_canvas(info: OutputInfo, region: Rect, scale: Ratio, w: u32, h: u32)
    requires
        info.placed(),
        nonempty(region),
        intersection(info.rect(), region) == region,
        w > 0,
        h > 0,
        w == scale.apply(region.right as int) - scale.apply(region.left as int),
        h == scale.apply(region.bottom as int) - scale.apply(region.top as int),
    ensures
        ({
            let p = region_part(info, region, scale, w, h);
            p is Some && p->0.dst_pos == (0u32, 0u32) && p->0.dst_size == (w, h)
        }),
{
}

/// The canvas is no denser than it has to be: it has scale one, or the scale of one
/// of the outputs that the region touches.
pub proof fn canvas_is_no_denser(outputs: Seq<OutputInfo>, region: Rect)
    ensures
        canvas_scale(outputs, region) == Ratio::unit() || exists|i: int|
            0 <= i < outputs.len() && overlaps(#[trigger] outputs[i], region) && (canvas_scale(
                outputs,
                region,
            ) == OutputInfo::axis_scale(outputs[i].physical_size.0, outputs[i].logical_size.0)
                || canvas_scale(outputs, region) == OutputInfo::axis_scale(
                outputs[i].physical_size.1,
                outputs[i].logical_size.1,
            )),
    decreases outputs.len(),
{
    if outputs.len() > 0 {
        let init = outputs.drop_last();
        canvas_is_no_denser(init, region);
        let s = canvas_scale(outputs, region);
        if s == canvas_scale(init, region) {
            if s != Ratio::unit() {
                let i = choose|i: int|
                    0 <= i < init.len() && overlaps(#[trigger] init[i], region) && (s
                        == OutputInfo::axis_scale(init[i].physical_size.0, init[i].logical_size.0)
                        || s == OutputInfo::axis_scale(
                        init[i].physical_size.1,
                        init[i].logical_size.1,
                    ));
                assert(outputs[i] == init[i]);
            }
        } else {
            assert(outputs[outputs.len() - 1] == outputs.last());
        }
    }
}

/// A region touches an output exactly where they share a point's worth of area: a
/// unit square of the desktop that lies in both.
pub proof fn touching_is_sharing_a_square(info: OutputInfo, region: Rect)
    requires
        info.placed(),
        nonempty(region),
        nonempty(info.rect()),
    ensures
        overlaps(info, region) <==> exists|x: int, y: int|
            #[trigger] info.has_point(x, y) && region.left <= x < region.right && region.top <= y
                < region.bottom,
{
    if overlaps(info, region) {
        let i = intersection(info.rect(), region);
        assert(info.has_point(i.left as int, i.top as int));
    }
}

/// A part lies on the canvas where its output lies in the region: each of its four
/// edges is as far from the canvas's corner as the scaled edge of what the output
/// and the region share is from the region's scaled corner. It bears the output's
/// name and takes the output's pixels of the region.
pub proof fn parts_lie_where_the_outputs_do(
    info: OutputInfo,
    region: Rect,
    scale: Ratio,
    w: u32,
    h: u32,
)
    requires
        info.placed(),
        nonempty(region),
        w == scale.apply(region.right as int) - scale.apply(region.left as int),
        h == scale.apply(region.bottom as int) - scale.apply(region.top as int),
        region_part(info, region, scale, w, h) is Some,
    ensures
        ({
            let p = region_part(info, region, scale, w, h)->0;
            let o = info.rect();
            let (left, top) = (
                if o.left < region.left {
                    region.left
                } else {
                    o.left
                },
                if o.top < region.top {
                    region.top
                } else {
                    o.top
                },
            );
            let (right, bottom) = (
                if region.right < o.right {
                    region.right
                } else {
                    o.right
                },
                if region.bottom < o.bottom {
                    region.bottom
                } else {
                    o.bottom
                },
            );
            &&& p.output_name == info.name
            &&& Some(p.src_crop) == region_crop(o, info.physical_size, region)
            &&& p.dst_pos.0 == scale.apply(left as int) - scale.apply(region.left as int)
            &&& p.dst_pos.1 == scale.apply(top as int) - scale.apply(region.top as int)
            &&& p.dst_pos.0 + p.dst_size.0 == scale.apply(right as int) - scale.apply(
                region.left as int,
            )
            &&& p.dst_pos.1 + p.dst_size.1 == scale.apply(bottom as int) - scale.apply(
                region.top as int,
            )
        }),
{
    let i = intersection(info.rect(), region);
    scale::lemma_apply_monotone(scale, region.left as int, i.left as int);
    scale::lemma_apply_monotone(scale, i.left as int, i.right as int);
    scale::lemma_apply_monotone(scale, i.right as int, region.right as int);
    scale::lemma_apply_monotone(scale, region.top as int, i.top as int);
    scale::lemma_apply_monotone(scale, i.top as int, i.bottom as int);
    scale::lemma_apply_monotone(scale, i.bottom as int, region.bottom as int);
}

/// Two outputs, one below the other, that touch inside the region have parts that
/// touch on the canvas: the row where one ends is the row where the other starts.
pub proof fn stacked_parts_touch(
    a: OutputInfo,
    b: OutputInfo,
    region: Rect,
    scale: Ratio,
    w: u32,
    h: u32,
)
    requires
        a.placed(),
        b.placed(),
        a.rect().bottom == b.rect().top,
        region.top <= a.rect().bottom <= region.bottom,
        region_part(a, region, scale, w, h) is Some,
        region_part(b, region, scale, w, h) is Some,
    ensures
        ({
            let p = region_part(a, region, scale, w, h)->0;
            let q = region_part(b, region, scale, w, h)->0;
            p.dst_pos.1 + p.dst_size.1 == q.dst_pos.1
        }),
{
    let i = intersection(a.rect(), region);
    scale::lemma_apply_monotone(scale, i.top as int, i.bottom as int);
}

/// Outputs that share no area have parts that share no canvas pixel.
pub proof fn outputs_apart_have_parts_apart(
    a: OutputInfo,
    b: OutputInfo,
    region: Rect,
    scale: Ratio,
    w: u32,
    h: u32,
)
    requires
        a.placed(),
        b.placed(),
        a.rect().right <= b.rect().left || a.rect().bottom <= b.rect().top,
        region_part(a, region, scale, w, h) is Some,
        region_part(b, region, scale, w, h) is Some,
    ensures
        ({
            let p = region_part(a, region, scale, w, h)->0;
            let q = region_part(b, region, scale, w, h)->0;
            p.dst_pos.0 + p.dst_size.0 <= q.dst_pos.0 || p.dst_pos.1 + p.dst_size.1 <= q.dst_pos.1
        }),
{
    let i = intersection(a.rect(), region);
    let j = intersection(b.rect(), region);
    scale::lemma_apply_monotone(scale, i.left as int, i.right as int);
    scale::lemma_apply_monotone(scale, i.top as int, i.bottom as int);
    if a.rect().right <= b.rect().left {
        scale::lemma_apply_monotone(scale, i.right as int, j.left as int);
    } else {
        scale::lemma_apply_monotone(scale, i.bottom as int, j.top as int);
    }
}

/// A layout leaves no output out and adds none: output `i` has a share exactly where
/// that share is among the parts, behind those of the outputs before it.
pub proof fn every_output_has_its_part(
    outputs: Seq<OutputInfo>,
    region: Rect,
    scale: Ratio,
    w: u32,
    h: u32,
    i: int,
)
    requires
        0 <= i < outputs.len(),
    ensures
        ({
            let all = region_parts(outputs, region, scale, w, h);
            let before = region_parts(outputs.take(i), region, scale, w, h);
            let upto = region_parts(outputs.take(i + 1), region, scale, w, h);
            &&& upto.len() <= all.len()
            &&& all.take(upto.len() as int) == upto
            &&& upto == (match region_part(outputs[i], region, scale, w, h) {
                Some(p) => before.push(p),
                None => before,
            })
        }),
    decreases outputs.len(),
{
    let all = region_parts(outputs, region, scale, w, h);
    let upto = region_parts(outputs.take(i + 1), region, scale, w, h);
    assert(outputs.take(i + 1).drop_last() =~= outputs.take(i));
    if i == outputs.len() - 1 {
        assert(outputs.take(i + 1) =~= outputs);
        assert(all.take(upto.len() as int) =~= upto);
    } else {
        let init = outputs.drop_last();
        every_output_has_its_part(init, region, scale, w, h, i);
        assert(init.take(i + 1) =~= outputs.take(i + 1));
        assert(init.take(i) =~= outputs.take(i));
        let shorter = region_parts(init, region, scale, w, h);
        assert(all.take(upto.len() as int) =~= shorter.take(upto.len() as int));
    }
}

/// An output that the region touches has a share of the canvas, as long as the scale
/// leaves the shared area a pixel each way.
pub proof fn touched_outputs_have_a_part(
    info: OutputInfo,
    region: Rect,
    scale: Ratio,
    w: u32,
    h: u32,
)
    requires
        info.placed(),
        nonempty(region),
        info.rect().left < region.right && region.left < info.rect().right,
        info.rect().top < region.bottom && region.top < info.rect().bottom,
        nonempty(info.rect()),
        w == scale.apply(region.right as int) - scale.apply(region.left as int),
        h == scale.apply(region.bottom as int) - scale.apply(region.top as int),
        ({
            let i = intersection(info.rect(), region);
            &&& scale.apply(i.left as int) < scale.apply(i.right as int)
            &&& scale.apply(i.top as int) < scale.apply(i.bottom as int)
        }),
    ensures
        region_part(info, region, scale, w, h) is Some,
{
    let i = intersection(info.rect(), region);
    scale::lemma_apply_monotone(scale, region.left as int, i.left as int);
    scale::lemma_apply_monotone(scale, i.right as int, region.right as int);
    scale::lemma_apply_monotone(scale, region.top as int, i.top as int);
    scale::lemma_apply_monotone(scale, i.bottom as int, region.bottom as int);
}

/// A crop has at least one pixel each way.
pub proof fn lemma_crop_sizes(out: Rect, physical: (u32, u32), region: Rect)
    requires
        nonempty(intersection(out, region)) ==> out.measurable(),
    ensures
        region_crop(out, physical, region) is Some ==> region_crop(out, physical, region)->0.w >= 1
            && region_crop(out, physical, region)->0.h >= 1,
{
    let i = intersection(out, region);
    let (lw, lh) = (out.right - out.left, out.bottom - out.top);
    if nonempty(i) {
        let (l, r) = (
            pixel_edge(i.left - out.left, lw, physical.0 as int),
            pixel_edge(i.right - out.left, lw, physical.0 as int),
        );
        let (t, b) = (
            pixel_edge(i.top - out.top, lh, physical.1 as int),
            pixel_edge(i.bottom - out.top, lh, physical.1 as int),
        );
        assert(0 <= l <= physical.0 && 0 <= r <= physical.0);
        assert(0 <= t <= physical.1 && 0 <= b <= physical.1);
        assert(1 <= rectangle_selection::larger(r - l, 1) <= u32::MAX);
        assert(1 <= rectangle_selection::larger(b - t, 1) <= u32::MAX);
    }
}

/// The first output that has a point.
pub open spec fn find_at(outputs: Seq<OutputInfo>, x: int, y: int) -> Option<int>
    decreases outputs.len(),
{
    if outputs.len() == 0 {
        None
    } else {
        match find_at(outputs.drop_last(), x, y) {
            Some(i) => Some(i),
            None => if outputs.last().has_point(x, y) {
                Some(outputs.len() - 1)
            } else {
                None
            },
        }
    }
}

proof fn lemma_find_at_prefix(outputs: Seq<OutputInfo>, x: int, y: int, n: int)
    requires
        0 <= n <= outputs.len(),
        find_at(outputs.take(n), x, y) is Some,
    ensures
        find_at(outputs, x, y) == find_at(outputs.take(n), x, y),
    decreases outputs.len(),
{
    if n < outputs.len() {
        assert(outputs.drop_last().take(n) =~= outputs.take(n));
        lemma_find_at_prefix(outputs.drop_last(), x, y, n);
    } else {
        assert(outputs.take(n) =~= outputs);
    }
}

/// The first output that has a point has it, and none before it does.
pub proof fn lemma_find_at(outputs: Seq<OutputInfo>, x: int, y: int)
    ensures
        match find_at(outputs, x, y) {
            Some(i) => 0 <= i < outputs.len() && outputs[i].has_point(x, y) && forall|j: int|
                0 <= j < i ==> !(#[trigger] outputs[j]).has_point(x, y),
            None => forall|j: int|
                0 <= j < outputs.len() ==> !(#[trigger] outputs[j]).has_point(x, y),
        },
    decreases outputs.len(),
{
    if outputs.len() > 0 {
        let init = outputs.drop_last();
        lemma_find_at(init, x, y);
        assert forall|j: int| 0 <= j < init.len() implies #[trigger] outputs[j] == init[j] by {}
    }
}

/// The place of the first output that has a point.
pub fn position_at(outputs: &Vec<OutputInfo>, x: i32, y: i32) -> (r: Option<usize>)
    requires
        all_placed(outputs@),
    ensures
        match r {
            Some(i) => find_at(outputs@, x as int, y as int) == Some(i as int) && i
                < outputs@.len(),
            None => find_at(outputs@, x as int, y as int) is None,
        },
{
    let mut i: usize = 0;
    while i < outputs.len()
        invariant
            i <= outputs@.len(),
            all_placed(outputs@),
            find_at(outputs@.take(i as int), x as int, y as int) is None,
        decreases outputs@.len() - i,
    {
        assert(outputs@.take(i + 1).drop_last() =~= outputs@.take(i as int));
        let r = output_rect_of(&outputs[i]);
        if x >= r.left && x < r.right && y >= r.top && y < r.bottom {
            proof {
                lemma_find_at_prefix(outputs@, x as int, y as int, i + 1);
            }
            return Some(i);
        }
        i = i + 1;
    }
    assert(outputs@.take(i as int) =~= outputs@);
    None
}

/// Half of `v`, towards zero.
pub open spec fn half(v: int) -> int {
    if v < 0 {
        -((-v) / 2)
    } else {
        v / 2
    }
}

/// Half of `v`, towards zero.
fn half_i32(v: i32) -> (h: i32)
    ensures
        h == half(v as int),
{
    if v < 0 {
        (-((-(v as i64)) / 2)) as i32
    } else {
        v / 2
    }
}

/// A selection whose extents and whose centre are 32 bit values.
pub open spec fn bounded(r: Rect) -> bool {
    &&& r.measurable()
    &&& i32::MIN <= r.left + r.right <= i32::MAX
    &&& i32::MIN <= r.top + r.bottom <= i32::MAX
}

/// Whether a selection's extents and centre are 32 bit values.
pub fn is_bounded(r: &Rect) -> (b: bool)
    ensures
        b == bounded(*r),
{
    let w: i64 = r.right as i64 - r.left as i64;
    let h: i64 = r.bottom as i64 - r.top as i64;
    let cx: i64 = r.left as i64 + r.right as i64;
    let cy: i64 = r.top as i64 + r.bottom as i64;
    let top: i64 = i32::MAX as i64;
    let low: i64 = i32::MIN as i64;
    -top <= w && w <= top && -top <= h && h <= top && low <= cx && cx <= top && low <= cy && cy <= top
}

/// The centre of a selection.
pub open spec fn centre(r: Rect) -> (int, int) {
    (half(r.left + r.right), half(r.top + r.bottom))
}

/// The centre of a selection.
pub fn centre_of(r: &Rect) -> (c: (i32, i32))
    requires
        bounded(*r),
    ensures
        (c.0 as int, c.1 as int) == centre(*r),
{
    (half_i32(r.left + r.right), half_i32(r.top + r.bottom))
}

/// The output that the middle of a region lies on, and the region's pixels
/// there.
pub open spec fn region_target(outputs: Seq<OutputInfo>, region: Rect) -> Option<
    (String, CropRect),
> {
    let r = region.normalized();
    match find_at(outputs, centre(r).0, centre(r).1) {
        Some(i) => match region_crop(outputs[i].rect(), outputs[i].physical_size, r) {
            Some(c) => Some((outputs[i].name, c)),
            None => None,
        },
        None => None,
    }
}

/// The output that the middle of a region lies on, and the region's pixels
/// there.
pub fn region_output_and_crop(outputs: &Vec<OutputInfo>, region: &Rect) -> (r: Option<
    (String, CropRect),
>)
    requires
        all_placed(outputs@),
        bounded(*region),
    ensures
        r == region_target(outputs@, *region),
{
    let region = region.normalize();
    let (cx, cy) = centre_of(&region);
    match position_at(outputs, cx, cy) {
        Some(i) => match outputs[i].crop_for_region(region) {
            Some(c) => Some((outputs[i].name.clone(), c)),
            None => None,
        },
        None => None,
    }
}

/// Pixels cut off each edge of a recorded monitor, so that the border drawn on
/// its edge stays out of the file: the border's width.
pub const SCREEN_CAPTURE_BORDER_INSET: u32 = 3;

/// All of an output but its border, where anything is left.
pub open spec fn inset_crop(physical: (u32, u32)) -> Option<CropRect> {
    if physical.0 <= 6 || physical.1 <= 6 {
        None
    } else {
        Some(CropRect { x: 3, y: 3, w: (physical.0 - 6) as u32, h: (physical.1 - 6) as u32 })
    }
}

/// All of an output but its border, where anything is left.
pub fn border_crop(physical: (u32, u32)) -> (c: Option<CropRect>)
    ensures
        c == inset_crop(physical),
{
    let inset: u32 = SCREEN_CAPTURE_BORDER_INSET;
    if physical.0 <= inset * 2 || physical.1 <= inset * 2 {
        return None;
    }
    Some(
        CropRect { x: 3, y: 3, w: physical.0 - inset * 2, h: physical.1 - inset * 2 },
    )
}

/// The border of a recorded monitor stays out of the file, and nothing else does:
/// what is cut off is the border's width on each of the four sides.
pub proof fn only_the_border_is_cut_off(physical: (u32, u32))
    ensures
        match inset_crop(physical) {
            Some(c) => {
                &&& c.x == SCREEN_CAPTURE_BORDER_INSET
                &&& c.y == SCREEN_CAPTURE_BORDER_INSET
                &&& physical.0 - (c.x + c.w) == SCREEN_CAPTURE_BORDER_INSET
                &&& physical.1 - (c.y + c.h) == SCREEN_CAPTURE_BORDER_INSET
                &&& c.w > 0 && c.h > 0
            },
            None => physical.0 <= 2 * SCREEN_CAPTURE_BORDER_INSET || physical.1 <= 2
                * SCREEN_CAPTURE_BORDER_INSET,
        },
{
}

/// A region is captured from the output that its middle lies on: the output named is
/// the first that has the point halfway between the region's edges, and the pixels
/// are those that the region covers there.
pub proof fn a_region_is_taken_where_its_middle_is(
    outputs: Seq<OutputInfo>,
    region: Rect,
    i: int,
    x: int,
    y: int,
)
    requires
        bounded(region),
        0 <= i < outputs.len(),
        nonempty(region),
        region.left <= x <= region.right,
        region.top <= y <= region.bottom,
        -1 <= 2 * x - (region.left + region.right) <= 1,
        -1 <= 2 * y - (region.top + region.bottom) <= 1,
        region.left + region.right >= 0 ==> 2 * x <= region.left + region.right,
        region.left + region.right < 0 ==> 2 * x >= region.left + region.right,
        region.top + region.bottom >= 0 ==> 2 * y <= region.top + region.bottom,
        region.top + region.bottom < 0 ==> 2 * y >= region.top + region.bottom,
        outputs[i].has_point(x, y),
        forall|j: int| 0 <= j < i ==> !(#[trigger] outputs[j]).has_point(x, y),
    ensures
        match region_target(outputs, region) {
            Some((name, c)) => name == outputs[i].name && Some(c) == region_crop(
                outputs[i].rect(),
                outputs[i].physical_size,
                region,
            ),
            None => region_crop(outputs[i].rect(), outputs[i].physical_size, region) is None,
        },
{
    assert(region.normalized() == region);
    assert(centre(region) == (x, y));
    lemma_find_at(outputs, x, y);
    let f = find_at(outputs, x, y);
    assert(f is Some);
    if f->0 < i {
        assert(!outputs[f->0].has_point(x, y));
    }
}

/// How a compositor turns an output.
#[derive(Clone, Copy, Debug, PartialEq, Eq, Structural)]
pub enum Transform {
    Normal,
    _90,
    _180,
    _270,
    Flipped,
    Flipped90,
    Flipped180,
    Flipped270,
}

impl Transform {
    /// Whether width and height change places.
    pub open spec fn rotates(self) -> bool {
        self == Transform::_90 || self == Transform::_270 || self == Transform::Flipped90 || self
            == Transform::Flipped270
    }
}

/// One of an output's modes.
#[derive(Clone, Copy, Debug)]
pub struct OutputMode {
    pub dimensions: (i32, i32),
    pub current: bool,
}

/// What the compositor says of an output.
pub struct OutputDescription {
    pub name: Option<String>,
    pub modes: Vec<OutputMode>,
    pub transform: Transform,
    pub scale_factor: i32,
    pub logical_position: Option<(i32, i32)>,
    pub logical_size: Option<(i32, i32)>,
}

/// The first mode that is current.
pub open spec fn current_mode(modes: Seq<OutputMode>) -> Option<(i32, i32)>
    decreases modes.len(),
{
    if modes.len() == 0 {
        None
    } else if modes[0].current {
        Some(modes[0].dimensions)
    } else {
        current_mode(modes.drop_first())
    }
}

/// `v`, or zero where it is negative.
pub open spec fn at_least_zero(v: int) -> int {
    if v < 0 {
        0
    } else {
        v
    }
}

/// `a` times `b`, no more than a 32 bit length holds.
pub open spec fn capped_product(a: int, b: int) -> u32 {
    if a * b > u32::MAX {
        u32::MAX
    } else {
        (a * b) as u32
    }
}

impl OutputDescription {
    /// The pixels of the current mode, turned the way the logical size is; the
    /// logical size times the integer scale where there is no such mode.
    pub open spec fn physical(self) -> (u32, u32) {
        let by_scale = {
            let s = if self.scale_factor < 1 {
                1int
            } else {
                self.scale_factor as int
            };
            match self.logical_size {
                Some((w, h)) => (
                    capped_product(at_least_zero(w as int), s),
                    capped_product(at_least_zero(h as int), s),
                ),
                None => (0u32, 0u32),
            }
        };
        match current_mode(self.modes@) {
            Some((w, h)) => if w > 0 && h > 0 {
                if self.transform.rotates() {
                    (h as u32, w as u32)
                } else {
                    (w as u32, h as u32)
                }
            } else {
                by_scale
            },
            None => by_scale,
        }
    }
}

/// The first mode that is current.
pub fn find_current(modes: &Vec<OutputMode>) -> (r: Option<(i32, i32)>)
    ensures
        r == current_mode(modes@),
{
    let mut i: usize = 0;
    assert(modes@.skip(0) =~= modes@);
    while i < modes.len()
        invariant
            i <= modes@.len(),
            current_mode(modes@) == current_mode(modes@.skip(i as int)),
        decreases modes@.len() - i,
    {
        if modes[i].current {
            return Some(modes[i].dimensions);
        }
        assert(modes@.skip(i as int).drop_first() =~= modes@.skip(i + 1));
        i = i + 1;
    }
    None
}

fn scaled_length(v: i32, s: i32) -> (r: u32)
    requires
        s >= 1,
    ensures
        r == capped_product(at_least_zero(v as int), s as int),
{
    let v: i64 = if v < 0 { 0 } else { v as i64 };
    proof {
        assert(0 <= v * s <= 0x7fff_ffff * 0x7fff_ffff) by (nonlinear_arith)
            requires
                0 <= v <= 0x7fff_ffff,
                1 <= s <= 0x7fff_ffff,
        ;
    }
    let p: i64 = v * s as i64;
    if p > 0xffff_ffff {
        u32::MAX
    } else {
        p as u32
    }
}

/// The pixels of an output.
pub fn physical_size_of(info: &OutputDescription) -> (r: (u32, u32))
    ensures
        r == info.physical(),
{
    match find_current(&info.modes) {
        Some((w, h)) if w > 0 && h > 0 => {
            let rotated: bool = match info.transform {
                Transform::_90 | Transform::_270 | Transform::Flipped90 | Transform::Flipped270 => true,
                _ => false,
            };
            if rotated {
                (h as u32, w as u32)
            } else {
                (w as u32, h as u32)
            }
        },
        _ => {
            let s: i32 = if info.scale_factor < 1 { 1 } else { info.scale_factor };
            match info.logical_size {
                Some((w, h)) => (scaled_length(w, s), scaled_length(h, s)),
                None => (0, 0),
            }
        },
    }
}

/// An output turned by a quarter has the pixels of the same output upright, with
/// width and height swapped; a half turn and a mirror image change nothing.
pub proof fn a_quarter_turn_swaps_the_pixels(upright: OutputDescription, turned: OutputDescription)
    requires
        upright.transform == Transform::Normal,
        turned.modes == upright.modes,
        current_mode(upright.modes@) matches Some(m) && m.0 > 0 && m.1 > 0,
    ensures
        ({
            let swapped = match turned.transform {
                Transform::_90 | Transform::_270 | Transform::Flipped90 | Transform::Flipped270 => true,
                _ => false,
            };
            let (w, h) = upright.physical();
            turned.physical() == (if swapped {
                (h, w)
            } else {
                (w, h)
            })
        }),
{
}

/// An output has the pixels of its current mode: of the first that is current, and
/// all of them.
pub proof fn an_output_has_its_modes_pixels(d: OutputDescription, i: int)
    requires
        0 <= i < d.modes@.len(),
        d.modes@[i].current,
        forall|j: int| 0 <= j < i ==> !(#[trigger] d.modes@[j]).current,
        d.modes@[i].dimensions.0 > 0,
        d.modes@[i].dimensions.1 > 0,
    ensures
        current_mode(d.modes@) == Some(d.modes@[i].dimensions),
        d.physical().0 * d.physical().1 == d.modes@[i].dimensions.0 * d.modes@[i].dimensions.1,
        d.transform == Transform::Normal ==> d.physical().0 == d.modes@[i].dimensions.0
            && d.physical().1 == d.modes@[i].dimensions.1,
{
    lemma_current_mode(d.modes@, i);
    let (w, h) = d.modes@[i].dimensions;
    assert(w * h == h * w) by (nonlinear_arith);
}

proof fn lemma_current_mode(modes: Seq<OutputMode>, i: int)
    requires
        0 <= i < modes.len(),
        modes[i].current,
        forall|j: int| 0 <= j < i ==> !(#[trigger] modes[j]).current,
    ensures
        current_mode(modes) == Some(modes[i].dimensions),
    decreases modes.len(),
{
    if i > 0 {
        assert(!modes[0].current);
        let rest = modes.drop_first();
        assert forall|j: int| 0 <= j < i - 1 implies !(#[trigger] rest[j]).current by {
            assert(!modes[j + 1].current);
        }
        lemma_current_mode(rest, i - 1);
    }
}

/// The name of an output that the compositor gives none.
pub open spec fn default_name(key: u32) -> Seq<char> {
    "output-"@ + text::decimal(key as nat)
}

/// The name of an output that the compositor gives none.
pub fn numbered(key: u32) -> (s: String)
    ensures
        s@ == default_name(key),
{
    let mut s = text::owned("output-");
    text::push_decimal(&mut s, key as u64);
    s
}

impl OutputInfo {
    /// Whether the output's edges are 32 bit coordinates.
    pub fn is_placed(&self) -> (b: bool)
        ensures
            b == self.placed(),
    {
        let x: i64 = self.logical_pos.0 as i64 + (self.logical_size.0 as i32) as i64;
        let y: i64 = self.logical_pos.1 as i64 + (self.logical_size.1 as i32) as i64;
        let (low, top) = (i32::MIN as i64, i32::MAX as i64);
        low <= x && x <= top && low <= y && y <= top
    }

    /// An output as it comes: nothing is frozen yet, and nothing is on it.
    pub fn described(key: u32, d: OutputDescription, bg_source: Option<BgSource>) -> (o: OutputInfo)
        ensures
            o.key == key,
            o.name@ == match d.name {
                Some(n) => n@,
                None => default_name(key),
            },
            o.logical_pos == match d.logical_position {
                Some(p) => p,
                None => (0i32, 0i32),
            },
            o.logical_size == match d.logical_size {
                Some((w, h)) => (w as u32, h as u32),
                None => (0u32, 0u32),
            },
            o.physical_size == d.physical(),
            !o.freeze_done,
            o.toolbar_id is None,
            o.recording_id is None,
            o.frozen is None,
            !o.frozen_texture,
            !o.frozen_pinned,
            !o.frozen_sub,
            o.bg_source == bg_source,
            !o.wallpaper_ready,
    {
        let physical_size = physical_size_of(&d);
        let name = match d.name {
            Some(n) => n,
            None => numbered(key),
        };
        OutputInfo {
            key,
            name,
            logical_pos: match d.logical_position {
                Some(p) => p,
                None => (0, 0),
            },
            logical_size: match d.logical_size {
                Some((w, h)) => (w as u32, h as u32),
                None => (0, 0),
            },
            physical_size,
            freeze_done: false,
            toolbar_id: None,
            recording_id: None,
            frozen: None,
            frozen_texture: false,
            frozen_pinned: false,
            frozen_sub: false,
            bg_source,
            wallpaper_ready: false,
        }
    }
}

/// Outputs without a name are told apart by their numbers.
pub proof fn unnamed_outputs_are_told_apart(a: u32, b: u32)
    ensures
        default_name(a) == default_name(b) ==> a == b,
{
    let (x, y) = (text::decimal(a as nat), text::decimal(b as nat));
    if default_name(a) == default_name(b) {
        reveal_strlit("output-");
        assert(default_name(a).skip(7) =~= x);
        assert(default_name(b).skip(7) =~= y);
        text::decimals_differ(a as nat, b as nat);
    }
}

/// An output without a current mode has the pixels of its logical size, as many for each
/// unit as its scale says.
pub proof fn an_output_without_a_mode_goes_by_its_scale(d: OutputDescription, w: i32, h: i32)
    requires
        current_mode(d.modes@) is None,
        d.logical_size == Some((w, h)),
        w >= 0,
        h >= 0,
        d.scale_factor >= 1,
        w * d.scale_factor <= u32::MAX,
        h * d.scale_factor <= u32::MAX,
    ensures
        d.physical().0 == w * d.scale_factor,
        d.physical().1 == h * d.scale_factor,
{
    assert(0 <= w * d.scale_factor && 0 <= h * d.scale_factor) by (nonlinear_arith)
        requires
            w >= 0,
            h >= 0,
            d.scale_factor >= 1,
    ;
}

/// A canvas over two regions side by side is as large as their canvases together, nothing has
/// no extent, and at one pixel for each unit a canvas is as large as its region.
pub proof fn canvases_add_up(scale: Ratio, a: int, b: int, c: int)
    requires
        a <= b <= c,
        scale.apply(c) - scale.apply(a) <= u32::MAX,
    ensures
        canvas_extent(scale, a, b) + canvas_extent(scale, b, c) == canvas_extent(scale, a, c),
        canvas_extent(scale, a, a) == 0,
        i32::MIN <= a && c <= i32::MAX ==> canvas_extent(Ratio::unit(), a, c) == c - a,
{
    scale::lemma_apply_monotone(scale, a, b);
    scale::lemma_apply_monotone(scale, b, c);
    if i32::MIN <= a && c <= i32::MAX {
        scale::lemma_apply_unit(1, a);
        scale::lemma_apply_unit(1, c);
    }
}

} // verus!
