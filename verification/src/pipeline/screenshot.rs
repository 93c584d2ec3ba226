//! Screenshots: cropping a frame, and encoding it.
use crate::capture::screencopy;
use crate::capture::screencopy::{CapturedFrame, CropOutside};
use crate::cli::CommonArgs;
use crate::encode::video::CropRect;
use crate::paths::FilePath;
use vstd::prelude::*;

verus! {

/// Where a screenshot goes.
pub enum Destination {
    /// To a file of that name, or of a fresh one.
    File(Option<FilePath>),
    Clipboard,
    /// To a file of that name, and to the clipboard.
    Both(FilePath),
}

/// What stands for the file's name where a screenshot goes to the clipboard.
pub const CLIPBOARD_NAME: &'static str = "clipboard";

/// The kind of contents that a screenshot on the clipboard is.
pub const PNG_MIME: &'static str = "image/png";

/// Where a screenshot on the command line goes: to the clipboard where that was
/// asked for, to the file that was named, or to both; else to a fresh file.
pub fn cli_destination(common: CommonArgs) -> (d: Destination)
    ensures
        d == match (common.clipboard, common.file) {
            (true, Some(f)) => Destination::Both(f),
            (true, None) => Destination::Clipboard,
            (false, file) => Destination::File(file),
        },
        d == asked_destination(common),
{
    if common.clipboard {
        match common.file {
            Some(f) => Destination::Both(f),
            None => Destination::Clipboard,
        }
    } else {
        Destination::File(common.file)
    }
}

/// The error of the image encoder.
#[verifier::external_type_specification]
#[verifier::external_body]
pub struct ExEncodingError(png::EncodingError);

/// The image file that the encoder makes of RGBA bytes.
pub uninterp spec fn png_of(rgba: Seq<u8>, w: u32, h: u32) -> Seq<u8>;

/// Trusted: a `png::Encoder` of RGBA pixels, eight bits each, whose header is
/// written with `write_header` and whose pixels with `write_image_data`, leaves
/// the file in the buffer that it was given. What it writes depends on the pixels
/// and the extents alone. It fails where an extent is zero or the bytes are not
/// as many as the extents say, and never else, since a buffer in memory takes all
/// it is given.
#[verifier::external_body]
fn encode_rgba(rgba: &[u8], w: u32, h: u32) -> (r: Result<Vec<u8>, png::EncodingError>)
    requires
        w * 4 * h <= isize::MAX,
    ensures
        match r {
            Ok(file) => w != 0 && h != 0 && rgba@.len() == w * 4 * h && file@ == png_of(rgba@, w, h),
            Err(_) => w == 0 || h == 0 || rgba@.len() != w * 4 * h,
        },
{
    let mut out: Vec<u8> = Vec::new();
    let mut encoder = png::Encoder::new(&mut out, w, h);
    encoder.set_color(png::ColorType::Rgba);
    encoder.set_depth(png::BitDepth::Eight);
    let mut writer = encoder.write_header()?;
    writer.write_image_data(rgba)?;
    drop(writer);
    Ok(out)
}

/// Why a frame could not be made into an image file.
#[derive(Clone, Copy, Debug, PartialEq, Eq, Structural)]
pub enum ScreenshotError {
    /// Nothing of the crop is on the frame.
    EmptyCrop,
    /// The crop does not fit in the frame.
    CropOutside(CropOutside),
    /// The image has no pixels.
    Header,
    /// The pixels are not as many as the extents say.
    ImageData,
}

impl ScreenshotError {
    /// What the message says.
    pub open spec fn text(self) -> Seq<char> {
        match self {
            ScreenshotError::EmptyCrop => "crop is empty after clipping to output"@,
            ScreenshotError::CropOutside(e) => e.text(),
            ScreenshotError::Header => "png write_header"@,
            ScreenshotError::ImageData => "png write_image_data"@,
        }
    }

    /// The message for the user.
    pub fn message(&self) -> (s: String)
        ensures
            s@ == self.text(),
    {
        match self {
            ScreenshotError::EmptyCrop => crate::text::owned(
                "crop is empty after clipping to output",
            ),
            ScreenshotError::CropOutside(e) => e.message(),
            ScreenshotError::Header => crate::text::owned("png write_header"),
            ScreenshotError::ImageData => crate::text::owned("png write_image_data"),
        }
    }
}

/// Makes an image file of RGBA bytes.
pub fn write_png(rgba: &[u8], w: u32, h: u32) -> (r: Result<Vec<u8>, ScreenshotError>)
    requires
        w * 4 * h <= isize::MAX,
    ensures
        match r {
            Ok(file) => w > 0 && h > 0 && rgba@.len() == w * 4 * h && file@ == png_of(rgba@, w, h),
            Err(e) => if w == 0 || h == 0 {
                e == ScreenshotError::Header
            } else {
                rgba@.len() != w * 4 * h && e == ScreenshotError::ImageData
            },
        },
{
    match encode_rgba(rgba, w, h) {
        Ok(file) => Ok(file),
        Err(_) => if w == 0 || h == 0 {
            Err(ScreenshotError::Header)
        } else {
            Err(ScreenshotError::ImageData)
        },
    }
}

/// The part of a span of `len` from `at` on that lies on an axis of `size`: where
/// it starts, and how long it is.
pub open spec fn clipped_span(at: int, len: int, size: int) -> (int, int) {
    let start = if at < 0 {
        0
    } else {
        at
    };
    let end = if at + len < size {
        at + len
    } else {
        size
    };
    (
        start,
        if end < start {
            0
        } else {
            end - start
        },
    )
}

/// The part of a crop that lies on a frame: its corner and its extents.
pub open spec fn clipped(width: u32, height: u32, c: CropRect) -> (u32, u32, u32, u32) {
    let (x, w) = clipped_span(c.x as int, c.w as int, width as int);
    let (y, h) = clipped_span(c.y as int, c.h as int, height as int);
    (x as u32, y as u32, w as u32, h as u32)
}

/// The pixels of a frame's crop, and their extents. Without a crop, the rows of
/// the frame without their padding; with one, what of it is on the frame.
pub open spec fn cropped(frame: CapturedFrame, crop: Option<CropRect>) -> Option<
    (Seq<u8>, u32, u32),
> {
    match crop {
        None => Some((screencopy::packed(frame), frame.width, frame.height)),
        Some(c) => {
            let (x, y, w, h) = clipped(frame.width, frame.height, c);
            if w == 0 || h == 0 {
                None
            } else {
                Some(
                    (
                        screencopy::crop_bytes(frame, x as int, y as int, w as int, h as int),
                        w,
                        h,
                    ),
                )
            }
        },
    }
}

fn clip_span(at: i32, len: u32, size: u32) -> (r: (u32, u32))
    ensures
        r.0 == clipped_span(at as int, len as int, size as int).0,
        r.1 == clipped_span(at as int, len as int, size as int).1,
        r.1 > 0 ==> r.0 + r.1 <= size,
{
    let start: i64 = if at < 0 { 0 } else { at as i64 };
    let reach: i64 = at as i64 + len as i64;
    let end: i64 = if reach < size as i64 { reach } else { size as i64 };
    if end < start {
        (start as u32, 0)
    } else {
        (start as u32, (end - start) as u32)
    }
}

/// A frame can be cut: where its rows have to be read one by one, each has its
/// bytes.
pub open spec fn can_cut(frame: CapturedFrame, crop: Option<CropRect>) -> bool {
    crop is Some || frame.stride != frame.width * 4 ==> frame.complete()
}

/// The pixels of a frame's crop, and their extents.
pub fn resolve_crop(frame: &CapturedFrame, crop: Option<CropRect>) -> (r: Result<
    (Vec<u8>, u32, u32),
    ScreenshotError,
>)
    requires
        can_cut(*frame, crop),
    ensures
        match r {
            Ok((pixels, w, h)) => cropped(*frame, crop) == Some((pixels@, w, h)),
            Err(e) => cropped(*frame, crop) is None && e == ScreenshotError::EmptyCrop,
        },
{
    let c = match crop {
        None => {
            return Ok((screencopy::packed_rows(frame), frame.width, frame.height));
        },
        Some(c) => c,
    };
    let (x, w) = clip_span(c.x, c.w, frame.width);
    let (y, h) = clip_span(c.y, c.h, frame.height);
    if w == 0 || h == 0 {
        return Err(ScreenshotError::EmptyCrop);
    }
    proof {
        screencopy::lemma_part_is_held(*frame, x as int, y as int, w as int, h as int);
    }
    match screencopy::crop_rgba(frame, x, y, w, h) {
        Ok(pixels) => Ok((pixels, w, h)),
        Err(e) => Err(ScreenshotError::CropOutside(e)),
    }
}

/// The extents of a frame's image, with a crop or without, can be held.
pub open spec fn image_fits(frame: CapturedFrame) -> bool {
    frame.width * 4 * frame.height <= isize::MAX
}

/// Makes an image file of a frame's crop.
pub fn encode_frame(frame: &CapturedFrame, crop: Option<CropRect>) -> (r: Result<
    Vec<u8>,
    ScreenshotError,
>)
    requires
        can_cut(*frame, crop),
        image_fits(*frame),
    ensures
        match cropped(*frame, crop) {
            None => r is Err && r->Err_0 == ScreenshotError::EmptyCrop,
            Some((pixels, w, h)) => if w == 0 || h == 0 {
                r is Err && r->Err_0 == ScreenshotError::Header
            } else if pixels.len() != w * 4 * h {
                r is Err && r->Err_0 == ScreenshotError::ImageData
            } else {
                r is Ok && r->Ok_0@ == png_of(pixels, w, h)
            },
        },
{
    match resolve_crop(frame, crop) {
        Ok((pixels, w, h)) => {
            proof {
                assert(w * 4 * h <= frame.width * 4 * frame.height) by (nonlinear_arith)
                    requires
                        0 <= w <= frame.width,
                        0 <= h <= frame.height,
                ;
            }
            write_png(pixels.as_slice(), w, h)
        },
        Err(e) => Err(e),
    }
}

/// A crop of which anything is on a whole frame always makes an image.
pub proof fn crops_always_encode(frame: CapturedFrame, c: CropRect)
    requires
        frame.complete(),
        clipped(frame.width, frame.height, c).2 > 0,
        clipped(frame.width, frame.height, c).3 > 0,
    ensures
        ({
            let r = cropped(frame, Some(c));
            r is Some && (r->0).0.len() == (r->0).1 * 4 * (r->0).2
        }),
{
    let (x, y, w, h) = clipped(frame.width, frame.height, c);
    assert(w * 4 * h >= 0) by (nonlinear_arith)
        requires
            w >= 0,
            h >= 0,
    ;
}

/// A crop shows what it covers: each of its pixels is the frame's pixel at the
/// same place, and no pixel of the frame inside it is left out.
pub proof fn crops_stay_in_place(width: u32, height: u32, c: CropRect, px: int, py: int)
    requires
        clipped(width, height, c).2 > 0,
        clipped(width, height, c).3 > 0,
    ensures
        ({
            let (x, y, w, h) = clipped(width, height, c);
            (x <= px < x + w && y <= py < y + h) <==> (0 <= px < width && 0 <= py < height && c.x
                <= px < c.x + c.w && c.y <= py < c.y + c.h)
        }),
{
}

/// A whole frame always makes an image, however its rows are padded.
pub proof fn whole_frames_always_encode(frame: CapturedFrame)
    requires
        frame.complete(),
        frame.stride == frame.width * 4 ==> frame.pixels@.len() == frame.stride * frame.height,
    ensures
        ({
            let r = cropped(frame, None);
            r is Some && (r->0).0.len() == (r->0).1 * 4 * (r->0).2
        }),
{
    assert(frame.width * 4 * frame.height >= 0) by (nonlinear_arith)
        requires
            frame.width >= 0,
            frame.height >= 0,
    ;
}

/// An image shows what was asked for: with a crop, each of its pixels is the frame's
/// pixel as far inside, and the image is as large as what the crop has of the frame;
/// without one, it is the whole frame.
pub proof fn images_show_what_was_asked_for(
    frame: CapturedFrame,
    crop: Option<CropRect>,
    px: int,
    py: int,
    c: int,
)
    requires
        0 <= px < frame.width,
        0 <= py < frame.height,
        0 <= c < 4,
        crop matches Some(r) ==> r.x <= px < r.x + r.w && r.y <= py < r.y + r.h,
    ensures
        ({
            let (pixels, w, h) = cropped(frame, crop)->0;
            let (left, top) = match crop {
                Some(r) => (
                    if r.x < 0 {
                        0
                    } else {
                        r.x as int
                    },
                    if r.y < 0 {
                        0
                    } else {
                        r.y as int
                    },
                ),
                None => (0, 0),
            };
            let (right, bottom) = match crop {
                Some(r) => (
                    if frame.width < r.x + r.w {
                        frame.width as int
                    } else {
                        r.x + r.w
                    },
                    if frame.height < r.y + r.h {
                        frame.height as int
                    } else {
                        r.y + r.h
                    },
                ),
                None => (frame.width as int, frame.height as int),
            };
            &&& cropped(frame, crop) is Some
            &&& w == right - left
            &&& h == bottom - top
            &&& pixels[((py - top) * w + (px - left)) * 4 + c] == frame.pixels@[py * frame.stride + px
                * 4 + c]
        }),
{
    match crop {
        Some(r) => {
            let (x, y, w, h) = clipped(frame.width, frame.height, r);
            screencopy::cuts_keep_every_pixel(
                frame,
                x as int,
                y as int,
                w as int,
                h as int,
                px - x,
                py - y,
                c,
            );
        },
        None => {
            screencopy::packing_keeps_every_pixel(frame, px, py, c);
        },
    }
}

/// A crop beside the frame makes no image.
pub proof fn crops_beside_the_frame_are_refused(frame: CapturedFrame, c: CropRect)
    requires
        forall|px: int, py: int|
            #![trigger shows(c, px, py)]
            0 <= px < frame.width && 0 <= py < frame.height ==> !shows(c, px, py),
    ensures
        cropped(frame, Some(c)) is None,
{
    let (x, y, w, h) = clipped(frame.width, frame.height, c);
    if w > 0 && h > 0 {
        assert(shows(c, x as int, y as int));
    }
}

/// A pixel lies in a crop.
pub open spec fn shows(c: CropRect, px: int, py: int) -> bool {
    c.x <= px < c.x + c.w && c.y <= py < c.y + c.h
}

/// Where a screenshot on the command line goes.
pub open spec fn asked_destination(common: CommonArgs) -> Destination {
    match (common.clipboard, common.file) {
        (true, Some(f)) => Destination::Both(f),
        (true, None) => Destination::Clipboard,
        (false, file) => Destination::File(file),
    }
}

/// A screenshot goes to the clipboard exactly where that was asked for, to a file of the
/// name that was given where one was, and nowhere to be lost: without the clipboard it
/// always goes to a file.
pub proof fn screenshots_go_where_they_are_told(common: CommonArgs)
    ensures
        ({
            let d = asked_destination(common);
            &&& (d is Clipboard || d is Both) <==> common.clipboard
            &&& (d is File || d is Both) <==> !common.clipboard || common.file is Some
            &&& d matches Destination::Both(f) ==> common.file == Some(f)
            &&& d matches Destination::File(f) ==> common.file == f
        }),
{
}

} // verus!
