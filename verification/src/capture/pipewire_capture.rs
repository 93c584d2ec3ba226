//! What a PipeWire stream delivers: its format once, then its frames.
use crate::bytes;
use vstd::arithmetic::div_mod::*;
use vstd::prelude::*;

verus! {

/// The pixel layouts that are asked for, and any other.
#[derive(Clone, Copy, Debug, PartialEq, Eq, Structural)]
pub enum VideoFormat {
    BGRA,
    RGBA,
    BGRx,
    RGBx,
    Other,
}

/// The format of a stream, known before its first frame.
#[derive(Clone, Copy, Debug, PartialEq, Eq, Structural)]
pub struct StreamFormat {
    pub width: u32,
    pub height: u32,
    pub fps: u32,
    pub format: VideoFormat,
    /// Bytes from one row to the next.
    pub stride: u32,
}

/// One captured frame: its bytes row by row, and its time in nanoseconds.
pub struct Frame {
    pub bytes: Vec<u8>,
    pub pts_ns: u64,
}

/// Bytes per pixel: four for each layout that is asked for, and for any other.
pub fn bytes_per_pixel(format: VideoFormat) -> (n: u32)
    ensures
        n == 4,
{
    match format {
        VideoFormat::BGRA | VideoFormat::RGBA | VideoFormat::BGRx | VideoFormat::RGBx => 4,
        VideoFormat::Other => 4,
    }
}

/// The name of a layout in the encoder's caps.
pub open spec fn layout_name(format: VideoFormat) -> Seq<char> {
    match format {
        VideoFormat::BGRA => "BGRA"@,
        VideoFormat::RGBA => "RGBA"@,
        VideoFormat::BGRx => "BGRx"@,
        VideoFormat::RGBx => "RGBx"@,
        VideoFormat::Other => "BGRA"@,
    }
}

/// The name of a layout in the encoder's caps.
pub fn gst_format_name(format: VideoFormat) -> (s: &'static str)
    ensures
        s@ == layout_name(format),
{
    match format {
        VideoFormat::BGRA => "BGRA",
        VideoFormat::RGBA => "RGBA",
        VideoFormat::BGRx => "BGRx",
        VideoFormat::RGBx => "RGBx",
        VideoFormat::Other => "BGRA",
    }
}

/// A frame rate in whole frames: 30 where the fraction has no denominator, and
/// at least one.
pub open spec fn whole_fps(num: u32, denom: u32) -> u32 {
    if denom == 0 {
        30
    } else if num / denom < 1 {
        1
    } else {
        num / denom
    }
}

/// The format that the stream's parameters say.
pub fn negotiated_format(width: u32, height: u32, num: u32, denom: u32, format: VideoFormat) -> (f:
    StreamFormat)
    ensures
        f.width == width,
        f.height == height,
        f.format == format,
        f.fps == whole_fps(num, denom),
        f.stride == (if width * 4 > u32::MAX {
            u32::MAX as int
        } else {
            width * 4
        }),
{
    let fps: u32 = if denom == 0 {
        30
    } else if num / denom < 1 {
        1
    } else {
        num / denom
    };
    let bpp: u32 = bytes_per_pixel(format);
    let stride: u32 = if width > u32::MAX / bpp { u32::MAX } else { bpp * width };
    StreamFormat { width, height, fps, format, stride }
}

/// How many whole rows a buffer has.
pub open spec fn whole_rows(len: int, stride: int, row: int, height: int) -> int {
    if row > len {
        0
    } else if (len - row) / stride + 1 < height {
        (len - row) / stride + 1
    } else {
        height
    }
}

/// What of a buffer becomes a frame: nothing of an empty one; its used bytes
/// where its rows lie as the format says; else its whole rows without padding.
pub open spec fn frame_bytes(
    data: Seq<u8>,
    chunk_size: nat,
    stride: int,
    fmt: StreamFormat,
) -> Option<Seq<u8>> {
    let usable = if chunk_size < data.len() {
        chunk_size
    } else {
        data.len()
    };
    let row = fmt.width * 4;
    if usable == 0 {
        None
    } else if stride == fmt.stride || stride <= 0 {
        Some(data.subrange(0, usable as int))
    } else {
        Some(
            bytes::gathered(
                data,
                0,
                stride,
                row,
                whole_rows(data.len() as int, stride, row, fmt.height as int),
            ),
        )
    }
}

proof fn lemma_whole_rows(len: int, stride: int, row: int, height: int)
    requires
        0 <= len,
        0 < stride,
        0 <= row,
        0 <= height,
    ensures
        ({
            let n = whole_rows(len, stride, row, height);
            &&& 0 <= n <= height
            &&& bytes::rows_inside(len, 0, stride, row, n)
        }),
{
    let n = whole_rows(len, stride, row, height);
    if row <= len {
        lemma_div_pos_is_pos(len - row, stride);
        lemma_fundamental_div_mod(len - row, stride);
        let q = (len - row) / stride;
        assert(stride * q <= len - row);
        if n > 0 {
            assert((n - 1) * stride <= stride * q) by (nonlinear_arith)
                requires
                    n - 1 <= q,
                    0 < stride,
            ;
        }
    }
}

/// Makes a frame of a buffer. The encoder stamps it, so it bears no time.
pub fn take_frame(data: &[u8], chunk_size: usize, stride: i32, fmt: &StreamFormat) -> (r: Option<
    Frame,
>)
    ensures
        match r {
            Some(f) => f.pts_ns == 0 && frame_bytes(
                data@,
                chunk_size as nat,
                stride as int,
                *fmt,
            ) == Some(f.bytes@),
            None => frame_bytes(data@, chunk_size as nat, stride as int, *fmt) is None,
        },
{
    let len: usize = data.len();
    let usable: usize = if chunk_size < len { chunk_size } else { len };
    if usable == 0 {
        return None;
    }
    let step: u32 = if stride < 0 { 0 } else { stride as u32 };
    if step == fmt.stride || step == 0 {
        let mut out: Vec<u8> = Vec::new();
        bytes::push_run(&mut out, data, 0, usable);
        assert(out@ =~= data@.subrange(0, usable as int));
        return Some(Frame { bytes: out, pts_ns: 0 });
    }
    let row: u64 = bytes_per_pixel(fmt.format) as u64 * fmt.width as u64;
    proof {
        lemma_whole_rows(len as int, step as int, row as int, fmt.height as int);
    }
    let rows: u64 = if row > len as u64 {
        0
    } else {
        let q: u64 = (len as u64 - row) / step as u64;
        if q < fmt.height as u64 {
            if q + 1 < fmt.height as u64 { q + 1 } else { fmt.height as u64 }
        } else {
            fmt.height as u64
        }
    };
    assert(rows == whole_rows(len as int, step as int, row as int, fmt.height as int));
    if rows == 0 {
        proof {
            bytes::lemma_gather_none(data@, 0, stride as int, row as int);
        }
        return Some(Frame { bytes: Vec::new(), pts_ns: 0 });
    }
    let out = bytes::gather_rows(data, 0, step as usize, row as usize, rows as usize);
    Some(Frame { bytes: out, pts_ns: 0 })
}

/// A whole rate is the fraction's, rounded down, and at least one; 30 where there is no
/// fraction.
pub proof fn rates_are_rounded_down(num: u32, denom: u32)
    ensures
        whole_fps(num, denom) >= 1,
        denom == 0 ==> whole_fps(num, denom) == 30,
        0 < denom <= num ==> whole_fps(num, denom) * denom <= num && num < (whole_fps(num, denom)
            + 1) * denom,
        num < denom ==> whole_fps(num, denom) == 1,
{
    if 0 < denom {
        let (n, d) = (num as int, denom as int);
        let q = n / d;
        lemma_fundamental_div_mod(n, d);
        lemma_mod_bound(n, d);
        assert(q * d <= n < (q + 1) * d) by (nonlinear_arith)
            requires
                n == d * q + n % d,
                0 <= n % d < d,
        ;
        if denom <= num {
            assert(q >= 1) by (nonlinear_arith)
                requires
                    n < (q + 1) * d,
                    d <= n,
                    0 < d,
            ;
        } else {
            assert(q < 1) by (nonlinear_arith)
                requires
                    q * d <= n,
                    n < d,
                    0 < d,
            ;
        }
    }
}

/// A row is taken where it lies in the buffer to its end, up to the frame's height.
pub proof fn whole_rows_end_in_the_buffer(len: int, stride: int, row: int, height: int, y: int)
    requires
        0 <= len,
        0 < stride,
        0 <= row,
        0 <= height,
        0 <= y,
    ensures
        y < whole_rows(len, stride, row, height) <==> y < height && y * stride + row <= len,
{
    lemma_whole_rows(len, stride, row, height);
    assert(0 <= y * stride) by (nonlinear_arith)
        requires
            0 <= y,
            0 < stride,
    ;
    if row <= len {
        let q = (len - row) / stride;
        lemma_fundamental_div_mod(len - row, stride);
        lemma_mod_bound(len - row, stride);
        let m = (len - row) % stride;
        assert(y <= q <==> y * stride <= len - row) by (nonlinear_arith)
            requires
                len - row == stride * q + m,
                0 <= m < stride,
        ;
    }
}

/// Of a buffer whose rows lie further apart than the format says, or nearer, a frame holds
/// the rows one behind the other, byte for byte.
pub proof fn frames_hold_their_rows(
    data: Seq<u8>,
    chunk_size: nat,
    stride: int,
    fmt: StreamFormat,
    y: int,
    b: int,
)
    requires
        chunk_size > 0,
        data.len() > 0,
        stride > 0,
        stride != fmt.stride,
        0 <= y < fmt.height,
        y * stride + fmt.width * 4 <= data.len(),
        0 <= b < fmt.width * 4,
    ensures
        frame_bytes(data, chunk_size, stride, fmt) matches Some(f) && {
            &&& y * (fmt.width * 4) + b < f.len()
            &&& f[y * (fmt.width * 4) + b] == data[y * stride + b]
            &&& (fmt.height - 1) * stride + fmt.width * 4 <= data.len() ==> f.len() == fmt.width * 4
                * fmt.height
        },
{
    let row = fmt.width * 4;
    let len = data.len() as int;
    let n = whole_rows(len, stride, row, fmt.height as int);
    whole_rows_end_in_the_buffer(len, stride, row, fmt.height as int, y);
    whole_rows_end_in_the_buffer(len, stride, row, fmt.height as int, fmt.height - 1);
    lemma_whole_rows(len, stride, row, fmt.height as int);
    bytes::gathered_rows_keep_their_bytes(data, 0, stride, row, n, y, b);
    let f = frame_bytes(data, chunk_size, stride, fmt)->0;
    assert(f == bytes::gathered(data, 0, stride, row, n));
    if (fmt.height - 1) * stride + row <= data.len() {
        assert(n == fmt.height);
        assert(f.len() == row * n);
    }
}

/// Of a buffer whose rows lie as the format says, a frame holds the used bytes, as they
/// are; an empty buffer gives no frame.
pub proof fn frames_hold_what_was_used(
    data: Seq<u8>,
    chunk_size: nat,
    stride: int,
    fmt: StreamFormat,
    b: int,
)
    requires
        stride <= 0 || stride == fmt.stride,
        0 <= b < chunk_size,
        b < data.len(),
    ensures
        frame_bytes(data, chunk_size, stride, fmt) matches Some(f) && {
            &&& f.len() <= chunk_size
            &&& f.len() <= data.len()
            &&& b < f.len()
            &&& f[b] == data[b]
        },
        frame_bytes(Seq::<u8>::empty(), chunk_size, stride, fmt) is None,
        frame_bytes(data, 0, stride, fmt) is None,
{
}

/// The layouts that are asked for have names of their own, one letter for each channel.
pub proof fn layouts_have_names_of_their_own(a: VideoFormat, b: VideoFormat)
    requires
        a != VideoFormat::Other,
        b != VideoFormat::Other,
    ensures
        layout_name(a).len() == 4,
        layout_name(a) == layout_name(b) ==> a == b,
        layout_name(a)[0] == 'B' <==> a == VideoFormat::BGRA || a == VideoFormat::BGRx,
        layout_name(a)[0] == 'R' <==> a == VideoFormat::RGBA || a == VideoFormat::RGBx,
        layout_name(a)[3] == 'A' <==> a == VideoFormat::BGRA || a == VideoFormat::RGBA,
        layout_name(a)[3] == 'x' <==> a == VideoFormat::BGRx || a == VideoFormat::RGBx,
{
    reveal_strlit("BGRA");
    reveal_strlit("RGBA");
    reveal_strlit("BGRx");
    reveal_strlit("RGBx");
    let (s, t) = (layout_name(a), layout_name(b));
    if s == t {
        assert(s[0] == t[0] && s[3] == t[3]);
    }
}

} // verus!
