//! Captured frames and cropping them.
use crate::bytes;
use crate::text;
use vstd::prelude::*;

verus! {

/// A captured frame, RGBA bytes row by row. `stride` may exceed `width * 4`
/// where the compositor padded the rows.
pub struct CapturedFrame {
    pub pixels: Vec<u8>,
    pub width: u32,
    pub height: u32,
    pub stride: u32,
}

/// Which output to capture.
pub enum Target {
    /// The output of that name, such as `DP-1`.
    OutputName(String),
}

/// A crop that does not fit in its frame.
#[derive(Clone, Copy, Debug, PartialEq, Eq, Structural)]
pub struct CropOutside {
    pub cx: u32,
    pub cy: u32,
    pub cw: u32,
    pub ch: u32,
    pub width: u32,
    pub height: u32,
}

impl CropOutside {
    /// What the message says.
    pub open spec fn text(self) -> Seq<char> {
        "crop "@ + text::decimal(self.cx as nat) + ","@ + text::decimal(self.cy as nat) + " "@
            + text::decimal(self.cw as nat) + "x"@ + text::decimal(self.ch as nat)
            + " doesn't fit in frame "@ + text::decimal(self.width as nat) + "x"@ + text::decimal(
            self.height as nat,
        )
    }

    /// The message for the user.
    pub fn message(&self) -> (s: String)
        ensures
            s@ == self.text(),
    {
        let mut s = text::owned("crop ");
        text::push_decimal(&mut s, self.cx as u64);
        s.append(",");
        text::push_decimal(&mut s, self.cy as u64);
        s.append(" ");
        text::push_decimal(&mut s, self.cw as u64);
        s.append("x");
        text::push_decimal(&mut s, self.ch as u64);
        s.append(" doesn't fit in frame ");
        text::push_decimal(&mut s, self.width as u64);
        s.append("x");
        text::push_decimal(&mut s, self.height as u64);
        s
    }
}

impl CapturedFrame {
    /// Where the byte of row `y` at byte column `b` lies.
    pub open spec fn offset(self, y: int, b: int) -> int {
        y * self.stride + b
    }

    /// The frame holds the bytes of a rectangle's last row.
    pub open spec fn holds(self, cx: int, cy: int, cw: int, ch: int) -> bool {
        ch > 0 ==> self.offset(cy + ch - 1, (cx + cw) * 4) <= self.pixels@.len()
    }

    /// Every row of the frame has its bytes.
    pub open spec fn complete(self) -> bool {
        self.holds(0, 0, self.width as int, self.height as int)
    }
}

/// Whether the rectangle lies inside the frame's bounds.
pub open spec fn crop_fits(frame: CapturedFrame, cx: int, cy: int, cw: int, ch: int) -> bool {
    cx + cw <= frame.width && cy + ch <= frame.height
}

/// The bytes of a rectangle of a frame, its rows one behind the other.
pub open spec fn crop_bytes(frame: CapturedFrame, cx: int, cy: int, cw: int, ch: int) -> Seq<u8> {
    bytes::gathered(
        frame.pixels@,
        frame.offset(cy, cx * 4),
        frame.stride as int,
        cw * 4,
        ch,
    )
}

/// Copies the rectangle out of an RGBA frame, as `cw * ch * 4` bytes.
pub fn crop_rgba(frame: &CapturedFrame, cx: u32, cy: u32, cw: u32, ch: u32) -> (r: Result<
    Vec<u8>,
    CropOutside,
>)
    requires
        cx + cw <= u32::MAX,
        cy + ch <= u32::MAX,
        crop_fits(*frame, cx as int, cy as int, cw as int, ch as int) ==> frame.holds(
            cx as int,
            cy as int,
            cw as int,
            ch as int,
        ),
    ensures
        match r {
            Ok(bytes) => crop_fits(*frame, cx as int, cy as int, cw as int, ch as int) && bytes@
                == crop_bytes(*frame, cx as int, cy as int, cw as int, ch as int),
            Err(e) => !crop_fits(*frame, cx as int, cy as int, cw as int, ch as int) && e == (
            CropOutside { cx, cy, cw, ch, width: frame.width, height: frame.height }),
        },
{
    if cx + cw > frame.width || cy + ch > frame.height {
        return Err(CropOutside { cx, cy, cw, ch, width: frame.width, height: frame.height });
    }
    if ch == 0 {
        proof {
            bytes::lemma_gather_none(
                frame.pixels@,
                frame.offset(cy as int, cx * 4),
                frame.stride as int,
                cw * 4,
            );
        }
        return Ok(Vec::new());
    }
    proof {
        lemma_start(*frame, cx as int, cy as int, cw as int, ch as int);
    }
    let len: usize = frame.pixels.len();
    let start: usize = (cy as u64 * frame.stride as u64 + cx as u64 * 4) as usize;
    Ok(
        bytes::gather_rows(
            frame.pixels.as_slice(),
            start,
            frame.stride as usize,
            (cw as u64 * 4) as usize,
            ch as usize,
        ),
    )
}

/// A rectangle whose last row is in the frame starts in it too.
proof fn lemma_start(frame: CapturedFrame, cx: int, cy: int, cw: int, ch: int)
    requires
        0 <= cx <= u32::MAX,
        0 <= cy <= u32::MAX,
        0 <= cw,
        1 <= ch,
        frame.holds(cx, cy, cw, ch),
    ensures
        0 <= cy * frame.stride <= 0xffff_fffe_0000_0001,
        cy * frame.stride + (cx + cw) * 4 <= frame.pixels@.len(),
        bytes::rows_inside(
            frame.pixels@.len() as int,
            frame.offset(cy, cx * 4),
            frame.stride as int,
            cw * 4,
            ch,
        ),
{
    let s = frame.stride as int;
    assert(0 <= cy * s <= 0xffff_ffff * 0xffff_ffff) by (nonlinear_arith)
        requires
            0 <= cy <= 0xffff_ffff,
            0 <= s <= 0xffff_ffff,
    ;
    assert((cy + ch - 1) * s == cy * s + (ch - 1) * s) by (nonlinear_arith);
    assert(0 <= (ch - 1) * s) by (nonlinear_arith)
        requires
            1 <= ch,
            0 <= s,
    ;
}

/// A whole frame has the bytes of every rectangle on it.
pub proof fn lemma_part_is_held(frame: CapturedFrame, cx: int, cy: int, cw: int, ch: int)
    requires
        frame.complete(),
        0 <= cx,
        0 <= cy,
        0 <= cw,
        1 <= ch,
        crop_fits(frame, cx, cy, cw, ch),
    ensures
        frame.holds(cx, cy, cw, ch),
{
    let s = frame.stride as int;
    assert((cy + ch - 1) * s <= (frame.height - 1) * s) by (nonlinear_arith)
        requires
            cy + ch <= frame.height,
            0 <= s,
    ;
}

/// The frame's rows without their padding.
pub open spec fn packed(frame: CapturedFrame) -> Seq<u8> {
    if frame.stride == frame.width * 4 {
        frame.pixels@
    } else {
        bytes::gathered(
            frame.pixels@,
            0,
            frame.stride as int,
            frame.width * 4,
            frame.height as int,
        )
    }
}

/// Copies a frame into rows of `width * 4` bytes.
pub fn packed_rows(frame: &CapturedFrame) -> (out: Vec<u8>)
    requires
        frame.stride != frame.width * 4 ==> frame.complete(),
    ensures
        out@ == packed(*frame),
{
    if frame.stride as u64 == frame.width as u64 * 4 {
        let mut out: Vec<u8> = Vec::new();
        bytes::push_run(&mut out, frame.pixels.as_slice(), 0, frame.pixels.len());
        assert(out@ =~= frame.pixels@);
        return out;
    }
    if frame.height == 0 {
        proof {
            bytes::lemma_gather_none(frame.pixels@, 0, frame.stride as int, frame.width * 4);
        }
        return Vec::new();
    }
    proof {
        lemma_start(*frame, 0, 0, frame.width as int, frame.height as int);
    }
    let len: usize = frame.pixels.len();
    bytes::gather_rows(
        frame.pixels.as_slice(),
        0,
        frame.stride as usize,
        (frame.width as u64 * 4) as usize,
        frame.height as usize,
    )
}

/// Cropping a frame to all of it gives its rows without their padding.
pub proof fn whole_crop_is_packed(frame: CapturedFrame)
    requires
        frame.complete(),
        frame.pixels@.len() == frame.stride * frame.height,
    ensures
        crop_bytes(frame, 0, 0, frame.width as int, frame.height as int) == packed(frame),
{
    let s = frame.stride as int;
    assert(0 * s == 0);
    if frame.stride == frame.width * 4 {
        let g = crop_bytes(frame, 0, 0, frame.width as int, frame.height as int);
        assert forall|i: int| 0 <= i < g.len() implies g[i] == frame.pixels@[i] by {
            if s == 0 {
                assert(s * (frame.height as int) == 0) by (nonlinear_arith)
                    requires
                        s == 0,
                ;
            }
            vstd::arithmetic::div_mod::lemma_fundamental_div_mod(i, s);
            assert((i / s) * s == s * (i / s)) by (nonlinear_arith);
        }
        assert(g =~= frame.pixels@);
    }
}

/// A frame's rows without their padding hold each of its pixels at its place.
pub proof fn packing_keeps_every_pixel(frame: CapturedFrame, px: int, py: int, c: int)
    requires
        0 <= px < frame.width,
        0 <= py < frame.height,
        0 <= c < 4,
    ensures
        packed(frame)[(py * frame.width + px) * 4 + c] == frame.pixels@[py * frame.stride + px * 4
            + c],
        frame.stride != frame.width * 4 ==> packed(frame).len() == frame.width * 4 * frame.height,
{
    let w = frame.width as int;
    assert((py * w + px) * 4 == py * (w * 4) + px * 4) by (nonlinear_arith);
    bytes::gathered_rows_keep_their_bytes(
        frame.pixels@,
        0,
        frame.stride as int,
        w * 4,
        frame.height as int,
        py,
        px * 4 + c,
    );
}

/// A cut shows the frame's pixels in place: pixel `(x, y)` of the rectangle is the
/// frame's pixel as far from the frame's corner as the rectangle's corner and it
/// together are.
pub proof fn cuts_keep_every_pixel(
    frame: CapturedFrame,
    cx: int,
    cy: int,
    cw: int,
    ch: int,
    x: int,
    y: int,
    c: int,
)
    requires
        0 <= x < cw,
        0 <= y < ch,
        0 <= c < 4,
    ensures
        crop_bytes(frame, cx, cy, cw, ch).len() == cw * 4 * ch,
        crop_bytes(frame, cx, cy, cw, ch)[(y * cw + x) * 4 + c] == frame.pixels@[(cy + y)
            * frame.stride + (cx + x) * 4 + c],
{
    let s = frame.stride as int;
    assert((y * cw + x) * 4 == y * (cw * 4) + x * 4) by (nonlinear_arith);
    assert((cy + y) * s == cy * s + y * s) by (nonlinear_arith);
    bytes::gathered_rows_keep_their_bytes(
        frame.pixels@,
        frame.offset(cy, cx * 4),
        s,
        cw * 4,
        ch,
        y,
        x * 4 + c,
    );
}

} // verus!
