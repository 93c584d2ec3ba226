//! One image of a region that spans several monitors.
use crate::bytes;
use crate::capture::screencopy::CapturedFrame;
use crate::gui::outputs;
use crate::gui::outputs::{OutputInfo, RegionLayout};
use crate::gui::widget::rectangle_selection::Rect;
use crate::pipeline::record::RegionPart;
use vstd::arithmetic::div_mod::*;
use vstd::prelude::*;

verus! {

/// The first output of that name.
pub open spec fn find_named(outputs: Seq<OutputInfo>, name: Seq<char>) -> Option<int>
    decreases outputs.len(),
{
    if outputs.len() == 0 {
        None
    } else {
        match find_named(outputs.drop_last(), name) {
            Some(i) => Some(i),
            None => if outputs.last().name@ == name {
                Some(outputs.len() - 1)
            } else {
                None
            },
        }
    }
}

/// The first output of that name is one of the outputs, and bears the name.
pub proof fn lemma_find_named(outputs: Seq<OutputInfo>, name: Seq<char>)
    ensures
        match find_named(outputs, name) {
            Some(i) => 0 <= i < outputs.len() && outputs[i].name@ == name && forall|j: int|
                0 <= j < i ==> (#[trigger] outputs[j]).name@ != name,
            None => forall|j: int|
                0 <= j < outputs.len() ==> (#[trigger] outputs[j]).name@ != name,
        },
    decreases outputs.len(),
{
    if outputs.len() > 0 {
        let init = outputs.drop_last();
        lemma_find_named(init, name);
        assert forall|j: int| 0 <= j < init.len() implies #[trigger] outputs[j] == init[j] by {}
    }
}

/// The place of the first output of that name.
pub fn position_named(outputs: &Vec<OutputInfo>, name: &String) -> (r: Option<usize>)
    ensures
        match r {
            Some(i) => find_named(outputs@, name@) == Some(i as int) && i < outputs@.len(),
            None => find_named(outputs@, name@) is None,
        },
{
    let mut i: usize = 0;
    while i < outputs.len()
        invariant
            i <= outputs@.len(),
            find_named(outputs@.take(i as int), name@) is None,
        decreases outputs@.len() - i,
    {
        assert(outputs@.take(i + 1).drop_last() =~= outputs@.take(i as int));
        if outputs[i].name == *name {
            proof {
                lemma_find_prefix(outputs@, name@, i + 1);
            }
            return Some(i);
        }
        i = i + 1;
    }
    assert(outputs@.take(i as int) =~= outputs@);
    None
}

proof fn lemma_find_prefix(outputs: Seq<OutputInfo>, name: Seq<char>, n: int)
    requires
        0 <= n <= outputs.len(),
        find_named(outputs.take(n), name) is Some,
    ensures
        find_named(outputs, name) == find_named(outputs.take(n), name),
    decreases outputs.len(),
{
    if n < outputs.len() {
        assert(outputs.drop_last().take(n) =~= outputs.take(n));
        lemma_find_prefix(outputs.drop_last(), name, n);
    } else {
        assert(outputs.take(n) =~= outputs);
    }
}

/// The source column or row behind the `i`-th of `dst` canvas ones.
pub open spec fn sample(from: int, i: int, src: int, dst: int) -> int {
    from + i * src / dst
}

/// Where in its frame a part's pixel lies that goes to column `x` and row `y`
/// of the part.
pub open spec fn source_offset(frame: CapturedFrame, part: RegionPart, x: int, y: int) -> int {
    sample((part.src_crop.y as u32) as int, y, part.src_crop.h as int, part.dst_size.1 as int)
        * frame.stride + sample(
        (part.src_crop.x as u32) as int,
        x,
        part.src_crop.w as int,
        part.dst_size.0 as int,
    ) * 4
}

/// Whether a part's pixel is in its frame.
pub open spec fn has_source(frame: CapturedFrame, part: RegionPart, x: int, y: int) -> bool {
    source_offset(frame, part, x, y) + 4 <= frame.pixels@.len()
}

/// What a part puts on byte `i` of a canvas with rows of `w` pixels.
pub open spec fn part_byte(frame: CapturedFrame, part: RegionPart, w: int, i: int) -> Option<u8> {
    let x = (i % (w * 4)) / 4 - part.dst_pos.0;
    let y = i / (w * 4) - part.dst_pos.1;
    if 0 <= x < part.dst_size.0 && 0 <= y < part.dst_size.1 && has_source(frame, part, x, y) {
        Some(frame.pixels@[source_offset(frame, part, x, y) + i % 4])
    } else {
        None
    }
}

/// A canvas with one more part on it.
pub open spec fn blit(canvas: Seq<u8>, frame: CapturedFrame, part: RegionPart, w: int) -> Seq<u8> {
    Seq::new(
        canvas.len(),
        |i: int|
            match part_byte(frame, part, w, i) {
                Some(b) => b,
                None => canvas[i],
            },
    )
}

/// The frame that a part is taken from.
pub open spec fn frame_for(outputs: Seq<OutputInfo>, part: RegionPart) -> Option<CapturedFrame> {
    match find_named(outputs, part.output_name@) {
        Some(i) => match outputs[i].frozen {
            Some(f) => Some(*f),
            None => None,
        },
        None => None,
    }
}

/// The canvas once all parts are on it, later ones over earlier ones.
pub open spec fn stitched(
    outputs: Seq<OutputInfo>,
    parts: Seq<RegionPart>,
    w: int,
    h: int,
) -> Seq<u8>
    decreases parts.len(),
{
    if parts.len() == 0 {
        Seq::new((w * 4 * h) as nat, |i: int| 0u8)
    } else {
        let before = stitched(outputs, parts.drop_last(), w, h);
        match frame_for(outputs, parts.last()) {
            Some(frame) => blit(before, frame, parts.last(), w),
            None => before,
        }
    }
}

/// Whether a part brings at least one pixel: its first one is the nearest to
/// the frame's start.
pub open spec fn brings_pixels(outputs: Seq<OutputInfo>, part: RegionPart) -> bool {
    frame_for(outputs, part) is Some && has_source(frame_for(outputs, part)->0, part, 0, 0)
}

/// Whether any part brings a pixel.
pub open spec fn any_pixels(outputs: Seq<OutputInfo>, parts: Seq<RegionPart>) -> bool {
    exists|i: int| 0 <= i < parts.len() && brings_pixels(outputs, #[trigger] parts[i])
}

/// The canvas can be held: a row's bytes fit a frame's stride, and all of them
/// fit in memory.
pub open spec fn canvas_fits(w: int, h: int) -> bool {
    w * 4 <= u32::MAX && w * 4 * h <= isize::MAX
}

/// Whether the canvas can be held.
pub fn can_hold(w: u32, h: u32) -> (b: bool)
    ensures
        b == canvas_fits(w as int, h as int),
{
    let row: u64 = w as u64 * 4;
    proof {
        assert(0 <= row * h <= 0x4_0000_0000 * 0x1_0000_0000) by (nonlinear_arith)
            requires
                0 <= row <= 0x4_0000_0000,
                0 <= h <= 0x1_0000_0000,
        ;
    }
    row <= u32::MAX as u64 && row as u128 * h as u128 <= isize::MAX as u128
}

/// A part that a layout made: it lies on the canvas, takes at least one source
/// pixel, and its source edges are 32 bit ones.
pub open spec fn part_ok(p: RegionPart, w: u32, h: u32) -> bool {
    &&& outputs::on_canvas(p, w, h)
    &&& p.src_crop.w >= 1
    &&& p.src_crop.h >= 1
}

proof fn lemma_sample(from: int, i: int, src: int, dst: int)
    requires
        0 <= from,
        0 <= i < dst,
        1 <= src,
    ensures
        from <= sample(from, i, src, dst) < from + src,
        0 <= i * src,
{
    assert(0 <= i * src <= (dst - 1) * src < dst * src) by (nonlinear_arith)
        requires
            0 <= i < dst,
            1 <= src,
    ;
    lemma_div_pos_is_pos(i * src, dst);
    assert(dst * src == dst * src + 0);
    lemma_multiply_divide_lt(i * src, dst, src);
}

proof fn lemma_canvas_offset(x: int, y: int, w: int, h: int)
    requires
        0 <= x < w,
        0 <= y < h,
        canvas_fits(w, h),
    ensures
        0 <= y * (w * 4),
        y * (w * 4) + x * 4 + 4 <= w * 4 * h,
{
    assert(0 <= y * (w * 4) && y * (w * 4) + w * 4 <= w * 4 * h) by (nonlinear_arith)
        requires
            0 <= y < h,
            0 <= w,
    ;
}

/// Copies one part onto the canvas, nearest source pixel for each of its own.
fn blit_part(canvas: &mut Vec<u8>, frame: &CapturedFrame, part: &RegionPart, w: u32, h: u32)
    requires
        part_ok(*part, w, h),
        canvas_fits(w as int, h as int),
        old(canvas)@.len() == w * 4 * h,
    ensures
        final(canvas)@ == blit(old(canvas)@, *frame, *part, w as int),
{
    let ghost before = canvas@;
    let ghost px = part.dst_pos.0 as int;
    let ghost py = part.dst_pos.1 as int;
    let src_x: u32 = part.src_crop.x as u32;
    let src_y: u32 = part.src_crop.y as u32;
    let (src_w, src_h) = (part.src_crop.w, part.src_crop.h);
    let (dst_x, dst_y) = part.dst_pos;
    let (dst_w, dst_h) = part.dst_size;
    let len: usize = frame.pixels.len();
    let row: u64 = w as u64 * 4;
    let mut y: u32 = 0;
    while y < dst_h
        invariant
            y <= dst_h,
            part_ok(*part, w, h),
            canvas_fits(w as int, h as int),
            src_x == part.src_crop.x as u32,
            src_y == part.src_crop.y as u32,
            src_w == part.src_crop.w,
            src_h == part.src_crop.h,
            part.dst_pos == (dst_x, dst_y),
            part.dst_size == (dst_w, dst_h),
            len == frame.pixels@.len(),
            row == w * 4,
            before.len() == w * 4 * h,
            canvas@.len() == before.len(),
            forall|i: int|
                0 <= i < before.len() ==> #[trigger] canvas@[i] == (if i / (w * 4) < dst_y + y {
                    blit(before, *frame, *part, w as int)[i]
                } else {
                    before[i]
                }),
        decreases dst_h - y,
    {
        proof {
            lemma_sample(src_y as int, y as int, src_h as int, dst_h as int);
            assert(y * src_h <= 0xffff_ffff * 0xffff_ffff) by (nonlinear_arith)
                requires
                    0 <= y <= 0xffff_ffff,
                    0 <= src_h <= 0xffff_ffff,
            ;
        }
        let sy: u64 = src_y as u64 + (y as u64 * src_h as u64) / dst_h as u64;
        assert(sy == sample(src_y as int, y as int, src_h as int, dst_h as int));
        let mut x: u32 = 0;
        while x < dst_w
            invariant
                x <= dst_w,
                y < dst_h,
                part_ok(*part, w, h),
                canvas_fits(w as int, h as int),
                src_x == part.src_crop.x as u32,
                src_y == part.src_crop.y as u32,
                src_w == part.src_crop.w,
                src_h == part.src_crop.h,
                part.dst_pos == (dst_x, dst_y),
                part.dst_size == (dst_w, dst_h),
                len == frame.pixels@.len(),
                row == w * 4,
                before.len() == w * 4 * h,
                canvas@.len() == before.len(),
                sy == sample(src_y as int, y as int, src_h as int, dst_h as int),
                sy < src_y + src_h,
                forall|i: int|
                    0 <= i < before.len() ==> #[trigger] canvas@[i] == (if i / (w * 4) < dst_y + y
                        || (i / (w * 4) == dst_y + y && (i % (w * 4)) / 4 < dst_x + x) {
                        blit(before, *frame, *part, w as int)[i]
                    } else {
                        before[i]
                    }),
            decreases dst_w - x,
        {
            proof {
                lemma_sample(src_x as int, x as int, src_w as int, dst_w as int);
                assert(x * src_w <= 0xffff_ffff * 0xffff_ffff) by (nonlinear_arith)
                    requires
                        0 <= x <= 0xffff_ffff,
                        0 <= src_w <= 0xffff_ffff,
                ;
                assert(0 <= sy * frame.stride <= 0x1_ffff_ffff * 0xffff_ffff) by (nonlinear_arith)
                    requires
                        0 <= sy <= 0x1_ffff_ffff,
                        0 <= frame.stride <= 0xffff_ffff,
                ;
                lemma_canvas_offset(dst_x + x, dst_y + y, w as int, h as int);
            }
            let sx: u64 = src_x as u64 + (x as u64 * src_w as u64) / dst_w as u64;
            let src: u128 = sy as u128 * frame.stride as u128 + sx as u128 * 4;
            assert(src == source_offset(*frame, *part, x as int, y as int));
            let dst: u64 = (dst_y + y) as u64 * row + (dst_x + x) as u64 * 4;
            let ghost was = canvas@;
            if src + 4 <= len as u128 {
                let from: usize = src as usize;
                let to: usize = dst as usize;
                canvas.set(to, frame.pixels[from]);
                canvas.set(to + 1, frame.pixels[from + 1]);
                canvas.set(to + 2, frame.pixels[from + 2]);
                canvas.set(to + 3, frame.pixels[from + 3]);
            }
            proof {
                assert forall|i: int| 0 <= i < before.len() implies #[trigger] canvas@[i] == (if i
                    / (w * 4) < dst_y + y || (i / (w * 4) == dst_y + y && (i % (w * 4)) / 4 < dst_x
                    + x + 1) {
                    blit(before, *frame, *part, w as int)[i]
                } else {
                    before[i]
                }) by {
                    bytes::lemma_pixel(i, w as int, dst_x + x, dst_y + y);
                    assert(was[i] == (if i / (w * 4) < dst_y + y || (i / (w * 4) == dst_y + y && (i
                        % (w * 4)) / 4 < dst_x + x) {
                        blit(before, *frame, *part, w as int)[i]
                    } else {
                        before[i]
                    }));
                }
            }
            x = x + 1;
        }
        proof {
            assert forall|i: int| 0 <= i < before.len() implies #[trigger] canvas@[i] == (if i / (w
                * 4) < dst_y + y + 1 {
                blit(before, *frame, *part, w as int)[i]
            } else {
                before[i]
            }) by {
            }
        }
        y = y + 1;
    }
    proof {
        assert forall|i: int| 0 <= i < before.len() implies #[trigger] canvas@[i] == blit(
            before,
            *frame,
            *part,
            w as int,
        )[i] by {
        }
        assert(canvas@ =~= blit(before, *frame, *part, w as int));
    }
}

/// Puts the frozen frames of all parts on one canvas. `None` where not one
/// pixel could be taken from a frozen frame.
pub fn stitch_parts(outputs: &Vec<OutputInfo>, layout: &RegionLayout) -> (r: Option<CapturedFrame>)
    requires
        canvas_fits(layout.canvas_w as int, layout.canvas_h as int),
        forall|i: int|
            0 <= i < layout.parts@.len() ==> part_ok(
                #[trigger] layout.parts@[i],
                layout.canvas_w,
                layout.canvas_h,
            ),
    ensures
        match r {
            Some(f) => any_pixels(outputs@, layout.parts@) && f.width == layout.canvas_w
                && f.height == layout.canvas_h && f.stride == layout.canvas_w * 4 && f.pixels@
                == stitched(
                outputs@,
                layout.parts@,
                layout.canvas_w as int,
                layout.canvas_h as int,
            ),
            None => !any_pixels(outputs@, layout.parts@),
        },
{
    let w: u32 = layout.canvas_w;
    let h: u32 = layout.canvas_h;
    let stride: u32 = w * 4;
    proof {
        assert(w * 4 * h >= 0) by (nonlinear_arith)
            requires
                w >= 0,
                h >= 0,
        ;
    }
    let size: usize = (stride as u64 * h as u64) as usize;
    let mut canvas: Vec<u8> = vec![0u8; size];
    assert(canvas@ =~= stitched(outputs@, layout.parts@.take(0), w as int, h as int));
    let mut copied: bool = false;
    let mut i: usize = 0;
    while i < layout.parts.len()
        invariant
            i <= layout.parts@.len(),
            w == layout.canvas_w,
            h == layout.canvas_h,
            canvas_fits(w as int, h as int),
            forall|j: int|
                0 <= j < layout.parts@.len() ==> part_ok(#[trigger] layout.parts@[j], w, h),
            canvas@.len() == w * 4 * h,
            canvas@ == stitched(outputs@, layout.parts@.take(i as int), w as int, h as int),
            copied == exists|j: int|
                0 <= j < i && brings_pixels(outputs@, #[trigger] layout.parts@[j]),
        decreases layout.parts@.len() - i,
    {
        let part = &layout.parts[i];
        assert(layout.parts@.take(i + 1).drop_last() =~= layout.parts@.take(i as int));
        assert(layout.parts@.take(i + 1).last() == layout.parts@[i as int]);
        if let Some(at) = position_named(outputs, &part.output_name) {
            if let Some(frame) = &outputs[at].frozen {
                proof {
                    lemma_first_sample(&**frame, *part);
                }
                let first: u128 = (part.src_crop.y as u32) as u128 * frame.stride as u128 + (
                part.src_crop.x as u32) as u128 * 4;
                if first + 4 <= frame.pixels.len() as u128 {
                    copied = true;
                }
                blit_part(&mut canvas, frame, part, w, h);
            }
        }
        i = i + 1;
    }
    assert(layout.parts@.take(i as int) =~= layout.parts@);
    if !copied {
        return None;
    }
    Some(CapturedFrame { pixels: canvas, width: w, height: h, stride })
}

proof fn lemma_first_sample(frame: &CapturedFrame, part: RegionPart)
    requires
        part.dst_size.0 > 0,
        part.dst_size.1 > 0,
    ensures
        source_offset(*frame, part, 0, 0) == (part.src_crop.y as u32) as int * frame.stride + (
        part.src_crop.x as u32) as int * 4,
        0 <= (part.src_crop.y as u32) as int * frame.stride <= 0xffff_fffe_0000_0001,
{
    let y = (part.src_crop.y as u32) as int;
    let s = frame.stride as int;
    assert(0 * part.src_crop.h == 0 && 0 * part.src_crop.w == 0);
    lemma_div_basics(part.dst_size.0 as int);
    lemma_div_basics(part.dst_size.1 as int);
    assert(0 <= y * s <= 0xffff_ffff * 0xffff_ffff) by (nonlinear_arith)
        requires
            0 <= y <= 0xffff_ffff,
            0 <= s <= 0xffff_ffff,
    ;
}

/// The parts of a layout can be put on its canvas.
pub proof fn layout_parts_are_ok(
    outputs: Seq<OutputInfo>,
    region: Rect,
    scale: crate::scale::Ratio,
    w: u32,
    h: u32,
)
    requires
        outputs::all_placed(outputs),
    ensures
        forall|i: int|
            0 <= i < outputs::region_parts(outputs, region, scale, w, h).len() ==> part_ok(
                #[trigger] outputs::region_parts(outputs, region, scale, w, h)[i],
                w,
                h,
            ),
    decreases outputs.len(),
{
    outputs::parts_lie_on_the_canvas(outputs, region, scale, w, h);
    if outputs.len() > 0 {
        let init = outputs.drop_last();
        assert forall|i: int| 0 <= i < init.len() implies (#[trigger] init[i]).placed() by {
            assert(outputs[i].placed());
        }
        layout_parts_are_ok(init, region, scale, w, h);
        let before = outputs::region_parts(init, region, scale, w, h);
        let after = outputs::region_parts(outputs, region, scale, w, h);
        let o = outputs.last();
        assert forall|j: int| 0 <= j < after.len() implies part_ok(#[trigger] after[j], w, h) by {
            assert(outputs::on_canvas(after[j], w, h));
            if j < before.len() {
                assert(after[j] == before[j]);
                assert(part_ok(before[j], w, h));
            } else {
                outputs::lemma_crop_sizes(o.rect(), o.physical_size, region);
            }
        }
    }
}

/// The image of a region across monitors, out of their frozen frames. `None`
/// where the region lies on no output or no frozen frame has any of it.
pub fn stitch_region_screenshot(outputs: &Vec<OutputInfo>, region: &Rect) -> (r: Option<
    CapturedFrame,
>)
    requires
        outputs::all_placed(outputs@),
        region.measurable(),
        outputs::has_layout(outputs@, *region) ==> region_canvas_fits(outputs@, *region),
    ensures
        match r {
            Some(f) => stitches(outputs@, *region, f.pixels@, f.width, f.height, f.stride),
            None => !stitchable(outputs@, *region),
        },
{
    let layout = match outputs::compute_region_parts(outputs, region) {
        Some(l) => l,
        None => {
            return None;
        },
    };
    proof {
        layout_parts_are_ok(
            outputs@,
            region.normalized(),
            layout.target_scale,
            layout.canvas_w,
            layout.canvas_h,
        );
    }
    stitch_parts(outputs, &layout)
}

/// The canvas that a region would have can be held.
pub open spec fn region_canvas_fits(outputs: Seq<OutputInfo>, region: Rect) -> bool {
    let r = region.normalized();
    let scale = outputs::canvas_scale(outputs, r);
    canvas_fits(
        outputs::canvas_extent(scale, r.left as int, r.right as int) as int,
        outputs::canvas_extent(scale, r.top as int, r.bottom as int) as int,
    )
}

/// The parts that a region's layout has.
pub open spec fn parts_of(outputs: Seq<OutputInfo>, region: Rect) -> Seq<RegionPart> {
    let r = region.normalized();
    let scale = outputs::canvas_scale(outputs, r);
    let w = outputs::canvas_extent(scale, r.left as int, r.right as int);
    let h = outputs::canvas_extent(scale, r.top as int, r.bottom as int);
    outputs::region_parts(outputs, r, scale, w, h)
}

/// Whether an image of the region can be made.
pub open spec fn stitchable(outputs: Seq<OutputInfo>, region: Rect) -> bool {
    outputs::has_layout(outputs, region) && any_pixels(outputs, parts_of(outputs, region))
}

/// These pixels are the image of the region.
pub open spec fn stitches(
    outputs: Seq<OutputInfo>,
    region: Rect,
    pixels: Seq<u8>,
    width: u32,
    height: u32,
    stride: u32,
) -> bool {
    let r = region.normalized();
    let scale = outputs::canvas_scale(outputs, r);
    &&& stitchable(outputs, region)
    &&& width == outputs::canvas_extent(scale, r.left as int, r.right as int)
    &&& height == outputs::canvas_extent(scale, r.top as int, r.bottom as int)
    &&& stride == width * 4
    &&& pixels == stitched(outputs, parts_of(outputs, region), width as int, height as int)
}

/// A part that is as large on the canvas as in its frame is copied pixel by
/// pixel: canvas pixel `(x, y)` of the part is frame pixel `(x, y)` of its crop.
pub proof fn equal_sized_parts_are_copied(
    canvas: Seq<u8>,
    frame: CapturedFrame,
    part: RegionPart,
    w: u32,
    h: u32,
    x: int,
    y: int,
    c: int,
)
    requires
        part_ok(part, w, h),
        canvas_fits(w as int, h as int),
        canvas.len() == w * 4 * h,
        part.dst_size == (part.src_crop.w, part.src_crop.h),
        part.src_crop.x >= 0,
        part.src_crop.y >= 0,
        0 <= x < part.dst_size.0,
        0 <= y < part.dst_size.1,
        0 <= c < 4,
        frame.offset(part.src_crop.y + y, (part.src_crop.x + x) * 4) + 4 <= frame.pixels@.len(),
    ensures
        ({
            let to = (part.dst_pos.1 + y) * (w * 4) + (part.dst_pos.0 + x) * 4 + c;
            let from = frame.offset(part.src_crop.y + y, (part.src_crop.x + x) * 4) + c;
            &&& 0 <= to < canvas.len()
            &&& blit(canvas, frame, part, w as int)[to] == frame.pixels@[from]
        }),
{
    let to = (part.dst_pos.1 + y) * (w * 4) + (part.dst_pos.0 + x) * 4 + c;
    lemma_canvas_offset(part.dst_pos.0 + x, part.dst_pos.1 + y, w as int, h as int);
    bytes::lemma_pixel(to, w as int, part.dst_pos.0 + x, part.dst_pos.1 + y);
    lemma_div_multiples_vanish(x, part.dst_size.0 as int);
    lemma_div_multiples_vanish(y, part.dst_size.1 as int);
    assert(x * part.src_crop.w == part.dst_size.0 * x) by (nonlinear_arith)
        requires
            part.src_crop.w == part.dst_size.0,
    ;
    assert(y * part.src_crop.h == part.dst_size.1 * y) by (nonlinear_arith)
        requires
            part.src_crop.h == part.dst_size.1,
    ;
}

proof fn lemma_shown(from: int, i: int, src: int, dst: int, s: int)
    requires
        0 < dst,
        (s - from) * dst <= i * src < (s - from + 1) * dst,
    ensures
        sample(from, i, src, dst) == s,
{
    let q = s - from;
    assert((q + 1) * dst == q * dst + dst) by (nonlinear_arith);
    lemma_fundamental_div_mod_converse(i * src, dst, q, i * src - q * dst);
}

/// A part shows all of its source in order, enlarged or reduced to its size on
/// the canvas: with `dst` canvas columns for `src` frame ones, canvas column `x` of
/// the part shows the frame column `sx` whose share of the canvas, from `sx` up to
/// `sx + 1` times `dst / src`, it begins in; the same of rows.
pub proof fn scaled_parts_show_their_source(
    canvas: Seq<u8>,
    frame: CapturedFrame,
    part: RegionPart,
    w: u32,
    h: u32,
    x: int,
    y: int,
    sx: int,
    sy: int,
    c: int,
)
    requires
        part.dst_pos.0 + part.dst_size.0 <= w,
        part.dst_pos.1 + part.dst_size.1 <= h,
        canvas.len() == w * 4 * h,
        part.src_crop.x >= 0,
        part.src_crop.y >= 0,
        0 <= x < part.dst_size.0,
        0 <= y < part.dst_size.1,
        0 <= c < 4,
        (sx - part.src_crop.x) * part.dst_size.0 <= x * part.src_crop.w < (sx - part.src_crop.x + 1)
            * part.dst_size.0,
        (sy - part.src_crop.y) * part.dst_size.1 <= y * part.src_crop.h < (sy - part.src_crop.y + 1)
            * part.dst_size.1,
        sy * frame.stride + sx * 4 + 4 <= frame.pixels@.len(),
    ensures
        ({
            let to = ((part.dst_pos.1 + y) * w + part.dst_pos.0 + x) * 4 + c;
            &&& 0 <= to < canvas.len()
            &&& blit(canvas, frame, part, w as int)[to] == frame.pixels@[sy * frame.stride + sx * 4
                + c]
        }),
{
    let (px, py) = (part.dst_pos.0 + x, part.dst_pos.1 + y);
    let to = (py * w + px) * 4 + c;
    lemma_pixel_bytes(px, py, w as int, h as int, c);
    bytes::lemma_pixel(to, w as int, px, py);
    lemma_shown(
        part.src_crop.x as int,
        x,
        part.src_crop.w as int,
        part.dst_size.0 as int,
        sx,
    );
    lemma_shown(
        part.src_crop.y as int,
        y,
        part.src_crop.h as int,
        part.dst_size.1 as int,
        sy,
    );
}

proof fn lemma_pixel_bytes(x: int, y: int, w: int, h: int, c: int)
    requires
        0 <= x < w,
        0 <= y < h,
        0 <= c < 4,
    ensures
        (y * w + x) * 4 + c == y * (w * 4) + x * 4 + c,
        0 <= y * (w * 4),
        0 <= (y * w + x) * 4 + c < w * 4 * h,
{
    assert((y * w + x) * 4 == y * (w * 4) + x * 4 && 0 <= y * (w * 4) && y * (w * 4) + w * 4 <= w * 4
        * h) by (nonlinear_arith)
        requires
            0 <= y < h,
            0 <= w,
    ;
}

/// Every frame column of a part has a share of the canvas to be shown in: of the
/// columns `sx` that a part takes there is one for each of its canvas columns, and
/// it is one of the crop's.
pub proof fn shown_columns_are_the_crops(part: RegionPart, x: int, y: int) -> (s: (int, int))
    requires
        part.src_crop.w >= 1,
        part.src_crop.h >= 1,
        0 <= x < part.dst_size.0,
        0 <= y < part.dst_size.1,
    ensures
        part.src_crop.x <= s.0 < part.src_crop.x + part.src_crop.w,
        part.src_crop.y <= s.1 < part.src_crop.y + part.src_crop.h,
        (s.0 - part.src_crop.x) * part.dst_size.0 <= x * part.src_crop.w < (s.0 - part.src_crop.x
            + 1) * part.dst_size.0,
        (s.1 - part.src_crop.y) * part.dst_size.1 <= y * part.src_crop.h < (s.1 - part.src_crop.y
            + 1) * part.dst_size.1,
{
    let (dw, dh) = (part.dst_size.0 as int, part.dst_size.1 as int);
    let (cw, ch) = (part.src_crop.w as int, part.src_crop.h as int);
    let (qx, qy) = (x * cw / dw, y * ch / dh);
    lemma_sample(0, x, cw, dw);
    lemma_sample(0, y, ch, dh);
    lemma_fundamental_div_mod(x * cw, dw);
    lemma_fundamental_div_mod(y * ch, dh);
    assert(qx * dw == dw * qx && (qx + 1) * dw == dw * qx + dw) by (nonlinear_arith);
    assert(qy * dh == dh * qy && (qy + 1) * dh == dh * qy + dh) by (nonlinear_arith);
    (part.src_crop.x + qx, part.src_crop.y + qy)
}

/// A part changes nothing but its own place on the canvas.
pub proof fn parts_keep_to_their_place(
    canvas: Seq<u8>,
    frame: CapturedFrame,
    part: RegionPart,
    w: u32,
    h: u32,
    px: int,
    py: int,
    c: int,
)
    requires
        canvas.len() == w * 4 * h,
        0 <= px < w,
        0 <= py < h,
        0 <= c < 4,
        !(part.dst_pos.0 <= px < part.dst_pos.0 + part.dst_size.0 && part.dst_pos.1 <= py
            < part.dst_pos.1 + part.dst_size.1),
    ensures
        ({
            let at = (py * w + px) * 4 + c;
            0 <= at < canvas.len() && blit(canvas, frame, part, w as int)[at] == canvas[at]
        }),
        blit(canvas, frame, part, w as int).len() == canvas.len(),
{
    lemma_pixel_bytes(px, py, w as int, h as int, c);
    bytes::lemma_pixel((py * w + px) * 4 + c, w as int, px, py);
}

proof fn lemma_stitched_len(outputs: Seq<OutputInfo>, parts: Seq<RegionPart>, w: int, h: int)
    requires
        0 <= w,
        0 <= h,
    ensures
        stitched(outputs, parts, w, h).len() == w * 4 * h,
    decreases parts.len(),
{
    assert(0 <= w * 4 * h) by (nonlinear_arith)
        requires
            0 <= w,
            0 <= h,
    ;
    if parts.len() > 0 {
        lemma_stitched_len(outputs, parts.drop_last(), w, h);
    }
}

proof fn lemma_named(outputs: Seq<OutputInfo>, name: Seq<char>, o: int)
    requires
        0 <= o < outputs.len(),
        outputs[o].name@ == name,
        forall|j: int| 0 <= j < o ==> (#[trigger] outputs[j]).name@ != name,
    ensures
        find_named(outputs, name) == Some(o),
{
    lemma_find_named(outputs, name);
    let i = find_named(outputs, name)->0;
    assert(find_named(outputs, name) is Some);
    if i < o {
        assert(outputs[i].name@ != name);
    }
}

/// The image shows each display where its part lies: on canvas pixel `(px, py)` of
/// part `k`, with no later part over it, stands pixel `(sx, sy)` of the frozen frame
/// of the display that the part names.
pub proof fn the_image_shows_each_display(
    outputs: Seq<OutputInfo>,
    parts: Seq<RegionPart>,
    w: u32,
    h: u32,
    k: int,
    o: int,
    px: int,
    py: int,
    sx: int,
    sy: int,
    c: int,
)
    requires
        0 <= k < parts.len(),
        0 <= o < outputs.len(),
        outputs[o].name@ == parts[k].output_name@,
        forall|j: int| 0 <= j < o ==> (#[trigger] outputs[j]).name@ != parts[k].output_name@,
        outputs[o].frozen is Some,
        parts[k].dst_pos.0 <= px < parts[k].dst_pos.0 + parts[k].dst_size.0 <= w,
        parts[k].dst_pos.1 <= py < parts[k].dst_pos.1 + parts[k].dst_size.1 <= h,
        forall|j: int|
            k < j < parts.len() ==> !({
                let p = #[trigger] parts[j];
                p.dst_pos.0 <= px < p.dst_pos.0 + p.dst_size.0 && p.dst_pos.1 <= py < p.dst_pos.1
                    + p.dst_size.1
            }),
        0 <= c < 4,
        ({
            let p = parts[k];
            let f = *(outputs[o].frozen->0);
            let (x, y) = (px - p.dst_pos.0, py - p.dst_pos.1);
            &&& p.src_crop.x >= 0 && p.src_crop.y >= 0
            &&& (sx - p.src_crop.x) * p.dst_size.0 <= x * p.src_crop.w < (sx - p.src_crop.x + 1)
                * p.dst_size.0
            &&& (sy - p.src_crop.y) * p.dst_size.1 <= y * p.src_crop.h < (sy - p.src_crop.y + 1)
                * p.dst_size.1
            &&& sy * f.stride + sx * 4 + 4 <= f.pixels@.len()
        }),
    ensures
        ({
            let f = *(outputs[o].frozen->0);
            let image = stitched(outputs, parts, w as int, h as int);
            &&& image.len() == w * 4 * h
            &&& image[(py * w + px) * 4 + c] == f.pixels@[sy * f.stride + sx * 4 + c]
        }),
    decreases parts.len(),
{
    let before = stitched(outputs, parts.drop_last(), w as int, h as int);
    let last = parts.last();
    lemma_stitched_len(outputs, parts, w as int, h as int);
    lemma_stitched_len(outputs, parts.drop_last(), w as int, h as int);
    if k == parts.len() - 1 {
        lemma_named(outputs, last.output_name@, o);
        let f = *(outputs[o].frozen->0);
        scaled_parts_show_their_source(
            before,
            f,
            last,
            w,
            h,
            px - last.dst_pos.0,
            py - last.dst_pos.1,
            sx,
            sy,
            c,
        );
    } else {
        let init = parts.drop_last();
        assert(init[k] == parts[k]);
        assert forall|j: int| k < j < init.len() implies !({
            let p = #[trigger] init[j];
            p.dst_pos.0 <= px < p.dst_pos.0 + p.dst_size.0 && p.dst_pos.1 <= py < p.dst_pos.1
                + p.dst_size.1
        }) by {
            assert(init[j] == parts[j]);
        }
        the_image_shows_each_display(outputs, init, w, h, k, o, px, py, sx, sy, c);
        assert(parts[parts.len() - 1] == last);
        if let Some(frame) = frame_for(outputs, last) {
            parts_keep_to_their_place(before, frame, last, w, h, px, py, c);
        }
    }
}

} // verus!
