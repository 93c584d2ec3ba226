//! Animated images: the size they come out with, their pipeline, and the pixels
//! handed to the image encoder.
use crate::capture::pipewire_capture::StreamFormat;
use crate::encode::video;
use crate::encode::video::CropRect;
use crate::scale::Ratio;
use crate::text;
use vstd::arithmetic::div_mod::*;
use vstd::prelude::*;

verus! {

/// How much of a span lies inside an axis of `size` pixels.
pub open spec fn inside(at: int, len: int, size: int) -> int {
    let start = if at < 0 {
        0
    } else {
        at
    };
    let left = if start < size {
        size - start
    } else {
        0
    };
    if len < left {
        len
    } else {
        left
    }
}

/// The size of what is scaled: the crop's part of the source, or all of it where
/// the pipeline has no crop stage.
pub open spec fn source_extent(crop: Option<CropRect>, w: u32, h: u32) -> (u32, u32) {
    match crop {
        Some(c) => if c.keeps_any(w as int, h as int) {
            (
                inside(c.x as int, c.w as int, w as int) as u32,
                inside(c.y as int, c.h as int, h as int) as u32,
            )
        } else {
            (w, h)
        },
        None => (w, h),
    }
}

/// The size of the image: no wider than `max_width` where that is not zero, its
/// height scaled alike and at least one.
pub open spec fn scaled_extent(src: (u32, u32), max_width: u32) -> (u32, u32) {
    if max_width > 0 && src.0 > max_width {
        let h = Ratio::of_quotient(max_width as nat, src.0 as nat).apply(src.1 as int);
        (
            max_width,
            if h < 1 {
                1
            } else {
                h as u32
            },
        )
    } else {
        src
    }
}

fn inside_axis(at: i32, len: u32, size: u32) -> (r: u32)
    ensures
        r == inside(at as int, len as int, size as int),
{
    let start: u32 = if at < 0 { 0 } else { at as u32 };
    let left: u32 = if start < size { size - start } else { 0 };
    if len < left {
        len
    } else {
        left
    }
}

/// The size of the image.
pub fn output_size(crop: &Option<CropRect>, w: u32, h: u32, max_width: u32) -> (r: (u32, u32))
    ensures
        r == scaled_extent(source_extent(*crop, w, h), max_width),
{
    let (src_w, src_h) = match crop {
        Some(c) => {
            let cw: u32 = inside_axis(c.x, c.w, w);
            let ch: u32 = inside_axis(c.y, c.h, h);
            if cw < 2 || ch < 2 {
                (w, h)
            } else {
                (cw, ch)
            }
        },
        None => (w, h),
    };
    if max_width > 0 && src_w > max_width {
        let height: i128 = Ratio::new(max_width, src_w).scale(src_h as i64);
        if height < 1 {
            (max_width, 1)
        } else {
            (max_width, height as u32)
        }
    } else {
        (src_w, src_h)
    }
}

/// An image is never wider than asked for, and of a source that is narrow enough
/// it keeps every pixel.
pub proof fn image_is_at_most_max_width(crop: Option<CropRect>, w: u32, h: u32, max_width: u32)
    ensures
        ({
            let src = source_extent(crop, w, h);
            let out = scaled_extent(src, max_width);
            &&& max_width > 0 ==> out.0 <= max_width
            &&& max_width == 0 || src.0 <= max_width ==> out == src
        }),
{
}

/// Nothing is squeezed into a crop that the pipeline does not make: without a crop
/// stage the image shows the whole source, and with one it is at most a pixel
/// larger on each axis than what the stage keeps.
pub proof fn image_shows_what_is_kept(crop: CropRect, w: u32, h: u32)
    ensures
        ({
            let src = source_extent(Some(crop), w, h);
            let kept_w = video::span_kept(crop.x as int, crop.w as int, w as int);
            let kept_h = video::span_kept(crop.y as int, crop.h as int, h as int);
            if video::crop_text(Some(crop), Some((w, h))).len() == 0 {
                src == (w, h)
            } else {
                &&& 0 < kept_w <= src.0 <= kept_w + 1
                &&& 0 < kept_h <= src.1 <= kept_h + 1
            }
        }),
{
    reveal_strlit("! videocrop ");
}

/// The caps that the image encoder is fed with: square pixels of both extents.
pub open spec fn image_caps(fps: u32, size: (u32, u32)) -> Seq<char> {
    "video/x-raw,format=RGBA,framerate="@ + text::decimal(fps as nat) + "/1,width="@
        + text::decimal(size.0 as nat) + ",height="@ + text::decimal(size.1 as nat)
        + ",pixel-aspect-ratio=1/1"@
}

fn image_caps_str(fps: u32, size: (u32, u32)) -> (s: String)
    ensures
        s@ == image_caps(fps, size),
{
    let mut s = text::owned("video/x-raw,format=RGBA,framerate=");
    text::push_decimal(&mut s, fps as u64);
    s.append("/1,width=");
    text::push_decimal(&mut s, size.0 as u64);
    s.append(",height=");
    text::push_decimal(&mut s, size.1 as u64);
    s.append(",pixel-aspect-ratio=1/1");
    s
}

/// The whole pipeline of an animated image.
pub open spec fn gif_pipeline(format: StreamFormat, fps: u32, max_width: u32, crop: Option<CropRect>) -> Seq<
    char,
> {
    video::SOURCE_STAGE@ + "! videorate drop-only=true max-rate="@ + text::decimal(fps as nat) + " "@
        + video::crop_text(crop, Some((format.width, format.height)))
        + "! videoconvert ! videoscale ! "@ + image_caps(
        fps,
        scaled_extent(source_extent(crop, format.width, format.height), max_width),
    ) + " ! appsink name=sink emit-signals=true max-buffers=8 drop=false sync=false"@
}

/// The pipeline of an animated image, and the caps of the frames that go in.
pub struct GifPlan {
    pub pipeline: String,
    pub caps: String,
}

/// Plans the pipeline of an animated image.
pub fn plan_gif(format: &StreamFormat, fps: u32, max_width: u32, crop: Option<CropRect>) -> (p:
    GifPlan)
    requires
        crop is Some ==> video::crop_measurable(crop->0, format.width, format.height),
    ensures
        p.pipeline@ == gif_pipeline(*format, fps, max_width, crop),
        p.caps@ == video::raw_caps(*format),
{
    let size = output_size(&crop, format.width, format.height, max_width);
    let mut s = text::owned(video::SOURCE_STAGE);
    s.append("! videorate drop-only=true max-rate=");
    text::push_decimal(&mut s, fps as u64);
    s.append(" ");
    s.append(video::build_crop_str(crop, Some((format.width, format.height))).as_str());
    s.append("! videoconvert ! videoscale ! ");
    s.append(image_caps_str(fps, size).as_str());
    s.append(" ! appsink name=sink emit-signals=true max-buffers=8 drop=false sync=false");
    GifPlan { pipeline: s, caps: video::raw_caps_str(format) }
}

/// One pixel.
#[derive(Clone, Copy, Debug, PartialEq, Eq, Structural)]
pub struct Rgba {
    pub r: u8,
    pub g: u8,
    pub b: u8,
    pub a: u8,
}

/// Pixel number `i` of a picture of the given width.
pub open spec fn pixel(bytes: Seq<u8>, width: int, stride: int, i: int) -> Rgba {
    let at = (i / width) * stride + (i % width) * 4;
    Rgba { r: bytes[at], g: bytes[at + 1], b: bytes[at + 2], a: bytes[at + 3] }
}

/// The pixels of a picture, row by row, without the rows' padding.
pub fn rgba_pixels(bytes: &[u8], width: usize, height: usize, stride: usize) -> (v: Vec<Rgba>)
    requires
        height > 0 ==> (height - 1) * stride + width * 4 <= bytes@.len(),
        width * height <= usize::MAX,
    ensures
        v@ == Seq::new(
            (width * height) as nat,
            |i: int| pixel(bytes@, width as int, stride as int, i),
        ),
{
    let mut v: Vec<Rgba> = Vec::new();
    let mut y: usize = 0;
    while y < height
        invariant
            y <= height,
            height > 0 ==> (height - 1) * stride + width * 4 <= bytes@.len(),
            v@.len() == width * y,
            forall|i: int|
                0 <= i < v@.len() ==> #[trigger] v@[i] == pixel(
                    bytes@,
                    width as int,
                    stride as int,
                    i,
                ),
        decreases height - y,
    {
        let mut x: usize = 0;
        proof {
            assert(0 <= y * stride <= (height - 1) * stride) by (nonlinear_arith)
                requires
                    0 <= y <= height - 1,
                    0 <= stride,
            ;
        }
        let len: usize = bytes.len();
        let row: usize = y * stride;
        while x < width
            invariant
                x <= width,
                row == y * stride,
                row + width * 4 <= bytes@.len(),
                v@.len() == width * y + x,
                forall|i: int|
                    0 <= i < v@.len() ==> #[trigger] v@[i] == pixel(
                        bytes@,
                        width as int,
                        stride as int,
                        i,
                    ),
            decreases width - x,
        {
            let len: usize = bytes.len();
            let at: usize = row + x * 4;
            proof {
                let i = width * y + x;
                assert(i == y * width + x) by (nonlinear_arith)
                    requires
                        i == width * y + x,
                ;
                lemma_fundamental_div_mod_converse(i, width as int, y as int, x as int);
            }
            v.push(Rgba { r: bytes[at], g: bytes[at + 1], b: bytes[at + 2], a: bytes[at + 3] });
            x = x + 1;
        }
        proof {
            assert(width * y + width == width * (y + 1)) by (nonlinear_arith);
        }
        y = y + 1;
    }
    assert(v@ =~= Seq::new(
        (width * height) as nat,
        |i: int| pixel(bytes@, width as int, stride as int, i),
    ));
    v
}

/// An image that is made narrower keeps its proportions: its height is to its width as
/// the source's is, to the nearest row, and it has at least one.
pub proof fn images_keep_their_proportions(src: (u32, u32), max_width: u32)
    requires
        max_width > 0,
        src.0 > max_width,
    ensures
        ({
            let (w, h) = scaled_extent(src, max_width);
            &&& w == max_width
            &&& h >= 1
            &&& h == 1 || (4 * (h * src.0 - src.1 * w) <= 3 * src.0 && 4 * (src.1 * w - h * src.0)
                <= 3 * src.0)
        }),
{
    let a = Ratio::of_quotient(max_width as nat, src.0 as nat).apply(src.1 as int);
    crate::scale::coordinates_scale_to_the_nearest_pixel(
        max_width as nat,
        src.0 as nat,
        src.1 as nat,
    );
    let (p, l, v) = (max_width as int, src.0 as int, src.1 as int);
    assert(a <= v + 1) by (nonlinear_arith)
        requires
            4 * (a * l - v * p) <= 3 * l,
            0 < p < l,
            0 <= v,
    ;
    if a == v + 1 {
        assert(false) by (nonlinear_arith)
            requires
                4 * (a * l - v * p) <= 3 * l,
                a == v + 1,
                0 < p < l,
                0 <= v,
        ;
    }
}

/// The source of an image is as large as what the crop has of it, no larger and no
/// smaller.
pub proof fn images_are_as_large_as_their_crop(c: CropRect, w: u32, h: u32)
    requires
        0 <= c.x,
        0 <= c.y,
        c.w >= 2,
        c.h >= 2,
        c.x + 2 <= w,
        c.y + 2 <= h,
    ensures
        ({
            let (cw, ch) = source_extent(Some(c), w, h);
            &&& cw == (if c.x + c.w <= w {
                c.w as int
            } else {
                w - c.x
            })
            &&& ch == (if c.y + c.h <= h {
                c.h as int
            } else {
                h - c.y
            })
        }),
{
}

/// The pipeline of an animated image does what was asked for: it takes frames at the rate
/// asked for, and hands on pictures of that rate and of the image's size, of square
/// pixels.
pub proof fn images_are_made_as_asked_for(
    format: StreamFormat,
    fps: u32,
    max_width: u32,
    crop: Option<CropRect>,
)
    ensures
        ({
            let s = gif_pipeline(format, fps, max_width, crop);
            let (w, h) = scaled_extent(source_extent(crop, format.width, format.height), max_width);
            &&& text::holds(s, "! videorate drop-only=true max-rate="@ + text::decimal(fps as nat) + " "@)
            &&& text::holds(
                s,
                "format=RGBA,framerate="@ + text::decimal(fps as nat) + "/1,width="@ + text::decimal(
                    w as nat,
                ) + ",height="@ + text::decimal(h as nat) + ",pixel-aspect-ratio=1/1"@,
            )
            &&& text::holds(s, video::crop_text(crop, Some((format.width, format.height))))
        }),
{
    let n = text::decimal(fps as nat);
    let size = scaled_extent(source_extent(crop, format.width, format.height), max_width);
    let (w, h) = (text::decimal(size.0 as nat), text::decimal(size.1 as nat));
    let crop_stage = video::crop_text(crop, Some((format.width, format.height)));
    let r0 = "! videorate drop-only=true max-rate="@;
    let t0 = video::SOURCE_STAGE@ + r0;
    let t1 = t0 + n;
    let t2 = t1 + " "@;
    let t3 = t2 + crop_stage;
    let t4 = t3 + "! videoconvert ! videoscale ! "@;
    let caps = image_caps(fps, size);
    let t5 = t4 + caps;
    let last = " ! appsink name=sink emit-signals=true max-buffers=8 drop=false sync=false"@;
    let rate = r0 + n + " "@;
    text::lemma_ends(video::SOURCE_STAGE@, r0);
    text::lemma_ends_on(t0, r0, n);
    text::lemma_ends_on(t1, r0 + n, " "@);
    text::lemma_ends_holds(t2, rate, crop_stage);
    text::lemma_holds_on(t3, rate, "! videoconvert ! videoscale ! "@);
    text::lemma_holds_on(t4, rate, caps);
    text::lemma_holds_on(t5, rate, last);
    text::lemma_ends(t2, crop_stage);
    text::lemma_ends_holds(t3, crop_stage, "! videoconvert ! videoscale ! "@);
    text::lemma_holds_on(t4, crop_stage, caps);
    text::lemma_holds_on(t5, crop_stage, last);
    let c0 = "video/x-raw,format=RGBA,framerate="@;
    let k0 = "format=RGBA,framerate="@;
    assert(text::ends(c0, k0)) by {
        reveal_strlit("video/x-raw,format=RGBA,framerate=");
        reveal_strlit("format=RGBA,framerate=");
        assert(c0.skip(c0.len() - k0.len()) =~= k0);
    }
    text::lemma_ends_on(c0, k0, n);
    text::lemma_ends_on(c0 + n, k0 + n, "/1,width="@);
    text::lemma_ends_on(c0 + n + "/1,width="@, k0 + n + "/1,width="@, w);
    text::lemma_ends_on(c0 + n + "/1,width="@ + w, k0 + n + "/1,width="@ + w, ",height="@);
    text::lemma_ends_on(
        c0 + n + "/1,width="@ + w + ",height="@,
        k0 + n + "/1,width="@ + w + ",height="@,
        h,
    );
    text::lemma_ends_on(
        c0 + n + "/1,width="@ + w + ",height="@ + h,
        k0 + n + "/1,width="@ + w + ",height="@ + h,
        ",pixel-aspect-ratio=1/1"@,
    );
    let k = k0 + n + "/1,width="@ + w + ",height="@ + h + ",pixel-aspect-ratio=1/1"@;
    text::lemma_ends(t4, caps);
    text::lemma_ends_within(t5, caps, k);
    text::lemma_ends_holds(t5, k, last);
}

/// The pixels of a picture are its bytes in order: pixel `(x, y)` holds the four bytes of
/// column `x` of row `y`, red first.
pub proof fn pixels_are_read_in_order(bytes: Seq<u8>, width: int, stride: int, x: int, y: int)
    requires
        0 <= x < width,
        0 <= y,
    ensures
        ({
            let p = pixel(bytes, width, stride, y * width + x);
            let at = y * stride + x * 4;
            p.r == bytes[at] && p.g == bytes[at + 1] && p.b == bytes[at + 2] && p.a == bytes[at + 3]
        }),
{
    lemma_fundamental_div_mod_converse(y * width + x, width, y, x);
}

/// The caps of an image tell its rate, its width and its height.
pub proof fn image_caps_tell_rate_and_size(fps: u32, size: (u32, u32))
    ensures
        text::holds(
            image_caps(fps, size),
            "framerate="@ + text::decimal(fps as nat) + "/1,width="@,
        ),
        text::holds(image_caps(fps, size), ",width="@ + text::decimal(size.0 as nat) + ",height="@),
        text::holds(
            image_caps(fps, size),
            ",height="@ + text::decimal(size.1 as nat) + ",pixel-aspect-ratio=1/1"@,
        ),
{
    let head = "video/x-raw,format=RGBA,framerate="@;
    let (f, w, h) = (
        text::decimal(fps as nat),
        text::decimal(size.0 as nat),
        text::decimal(size.1 as nat),
    );
    let (a, b, c) = ("/1,width="@, ",height="@, ",pixel-aspect-ratio=1/1"@);
    reveal_strlit("video/x-raw,format=RGBA,framerate=");
    reveal_strlit("framerate=");
    reveal_strlit("/1,width=");
    reveal_strlit(",width=");
    let (s1, s2) = (head + f, head + f + a);
    let (s3, s4) = (s2 + w, s2 + w + b);
    let (s5, s6) = (s4 + h, s4 + h + c);
    assert(head.skip(head.len() - 10) =~= "framerate="@);
    text::lemma_ends_on(head, "framerate="@, f);
    text::lemma_ends_on(s1, "framerate="@ + f, a);
    text::lemma_ends_holds(s2, "framerate="@ + f + a, w);
    text::lemma_holds_on(s3, "framerate="@ + f + a, b);
    text::lemma_holds_on(s4, "framerate="@ + f + a, h);
    text::lemma_holds_on(s5, "framerate="@ + f + a, c);
    text::lemma_ends(s1, a);
    assert(a.skip(2) =~= ",width="@);
    assert(text::ends(a, ",width="@));
    text::lemma_ends_within(s2, a, ",width="@);
    text::lemma_ends_on(s2, ",width="@, w);
    text::lemma_ends_on(s3, ",width="@ + w, b);
    text::lemma_ends_holds(s4, ",width="@ + w + b, h);
    text::lemma_holds_on(s5, ",width="@ + w + b, c);
    text::lemma_ends(s3, b);
    text::lemma_ends_on(s4, b, h);
    text::lemma_ends_on(s5, b + h, c);
    assert(s6 + Seq::<char>::empty() =~= s6);
    text::lemma_ends_holds(s6, b + h + c, Seq::empty());
}

} // verus!
