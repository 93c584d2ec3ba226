//! Painting the selector: the dimmed screen, the hole in it, and the rounded
//! border.
use crate::bytes;
use vstd::prelude::*;

verus! {

/// The radius of the border's corners.
pub const ROUND_RADIUS: i32 = 12;

/// The border's width.
pub const BORDER_THICKNESS: i32 = 2;

/// A dark veil over the screen while a region is chosen.
pub const DIM_BACKGROUND: u32 = 0x9900_0000;

/// Nothing, so that only the border shows while a region is recorded.
pub const TRANSPARENT_BACKGROUND: u32 = 0x0000_0000;

/// What a pixel is.
#[derive(Clone, Copy, Debug, PartialEq, Eq, Structural)]
pub enum Shade {
    Background,
    Border,
    Clear,
}

/// The part of a hole that is on the screen, its far edges left out.
pub struct Hole {
    pub x0: int,
    pub y0: int,
    pub x1: int,
    pub y1: int,
}

/// The part of a hole that is on a screen of `width` by `height` pixels; none
/// where it is empty.
pub open spec fn hole(width: u32, height: u32, cutout: Option<(i32, i32, u32, u32)>) -> Option<
    Hole,
> {
    match cutout {
        Some((cx, cy, cw, ch)) => {
            let x0 = if cx < 0 {
                0
            } else {
                cx as int
            };
            let y0 = if cy < 0 {
                0
            } else {
                cy as int
            };
            let x1 = if cx + (cw as i32) < (width as i32) {
                cx + (cw as i32)
            } else {
                (width as i32) as int
            };
            let y1 = if cy + (ch as i32) < (height as i32) {
                cy + (ch as i32)
            } else {
                (height as i32) as int
            };
            if cw == 0 || ch == 0 || x1 <= x0 || y1 <= y0 {
                None
            } else {
                Some(Hole { x0, y0, x1, y1 })
            }
        },
        None => None,
    }
}

impl Hole {
    /// The radius of its corners: smaller for a small hole.
    pub open spec fn radius(self) -> int {
        let short = if self.x1 - self.x0 < self.y1 - self.y0 {
            self.x1 - self.x0
        } else {
            self.y1 - self.y0
        };
        let most = if short / 2 - 1 > 0 {
            short / 2 - 1
        } else {
            0
        };
        if most < 12 {
            most
        } else {
            12
        }
    }

    /// The radius inside the border.
    pub open spec fn inner_radius(self) -> int {
        if self.radius() > 2 {
            self.radius() - 2
        } else {
            0
        }
    }

    /// What a pixel of the hole is. Between the corners, a border to the left
    /// and to the right; above and below, whatever its distance from the middle
    /// band says.
    pub open spec fn shade(self, x: int, y: int) -> Shade {
        let r = self.radius();
        let dx = beyond(x, self.x0 + r, self.x1 - 1 - r);
        let dy = beyond(y, self.y0 + r, self.y1 - 1 - r);
        if dy == 0 {
            if self.x1 - self.x0 <= 4 || x < self.x0 + 2 || x >= self.x1 - 2 {
                Shade::Border
            } else {
                Shade::Clear
            }
        } else if dx * dx + dy * dy <= self.inner_radius() * self.inner_radius() {
            Shade::Clear
        } else if dx * dx + dy * dy <= r * r {
            Shade::Border
        } else {
            Shade::Background
        }
    }

    /// Whether a pixel lies in the hole.
    pub open spec fn has(self, x: int, y: int) -> bool {
        self.x0 <= x < self.x1 && self.y0 <= y < self.y1
    }
}

/// How far `v` lies outside of `[lo, hi]`.
pub open spec fn beyond(v: int, lo: int, hi: int) -> int {
    if v < lo {
        v - lo
    } else if v > hi {
        v - hi
    } else {
        0
    }
}

/// What pixel `(x, y)` of the screen is.
pub open spec fn screen_shade(h: Option<Hole>, x: int, y: int) -> Shade {
    match h {
        Some(h) => if h.has(x, y) {
            h.shade(x, y)
        } else {
            Shade::Background
        },
        None => Shade::Background,
    }
}

/// The colour of a shade.
pub open spec fn shade_word(s: Shade, border: u32, background: u32) -> u32 {
    match s {
        Shade::Background => background,
        Shade::Border => border,
        Shade::Clear => 0,
    }
}

/// Byte `c` of a colour in memory, the lowest first.
pub open spec fn word_byte(word: u32, c: int) -> u8 {
    if c == 0 {
        (word % 256) as u8
    } else if c == 1 {
        (word / 256 % 256) as u8
    } else if c == 2 {
        (word / 65536 % 256) as u8
    } else {
        (word / 16777216) as u8
    }
}

/// Byte `i` of the painted screen.
pub open spec fn painted_byte(
    width: int,
    h: Option<Hole>,
    border: u32,
    background: u32,
    i: int,
) -> u8 {
    let x = (i % (width * 4)) / 4;
    let y = i / (width * 4);
    word_byte(shade_word(screen_shade(h, x, y), border, background), i % 4)
}

fn put_word(pixels: &mut [u8], at: usize, word: u32)
    requires
        at + 4 <= old(pixels)@.len(),
    ensures
        final(pixels)@ == old(pixels)@.update(at as int, word_byte(word, 0)).update(
            at + 1,
            word_byte(word, 1),
        ).update(at + 2, word_byte(word, 2)).update(at + 3, word_byte(word, 3)),
{
    pixels[at] = (word % 256) as u8;
    pixels[at + 1] = (word / 256 % 256) as u8;
    pixels[at + 2] = (word / 65536 % 256) as u8;
    pixels[at + 3] = (word / 16777216) as u8;
}

fn fill_argb(pixels: &mut [u8], count: usize, word: u32)
    requires
        count * 4 <= old(pixels)@.len(),
    ensures
        final(pixels)@.len() == old(pixels)@.len(),
        forall|i: int|
            0 <= i < old(pixels)@.len() ==> #[trigger] final(pixels)@[i] == (if i < count * 4 {
                word_byte(word, i % 4)
            } else {
                old(pixels)@[i]
            }),
{
    let ghost was = pixels@;
    let mut k: usize = 0;
    while k < count
        invariant
            k <= count,
            count * 4 <= was.len(),
            pixels@.len() == was.len(),
            forall|i: int|
                0 <= i < was.len() ==> #[trigger] pixels@[i] == (if i < k * 4 {
                    word_byte(word, i % 4)
                } else {
                    was[i]
                }),
        decreases count - k,
    {
        let len: usize = pixels.len();
        put_word(pixels, k * 4, word);
        k = k + 1;
    }
}

/// The hole on the screen, in machine integers.
struct Bounds {
    x0: i32,
    y0: i32,
    x1: i32,
    y1: i32,
}

impl Bounds {
    spec fn hole(self) -> Hole {
        Hole { x0: self.x0 as int, y0: self.y0 as int, x1: self.x1 as int, y1: self.y1 as int }
    }

    spec fn wf(self) -> bool {
        0 <= self.x0 < self.x1 && 0 <= self.y0 < self.y1
    }

    fn radius(&self) -> (r: i32)
        requires
            self.wf(),
        ensures
            r == self.hole().radius(),
            0 <= r <= 12,
            2 * r <= self.x1 - self.x0,
            2 * r <= self.y1 - self.y0,
    {
        let w: i32 = self.x1 - self.x0;
        let h: i32 = self.y1 - self.y0;
        let short: i32 = if w < h { w } else { h };
        let most: i32 = if short / 2 - 1 > 0 { short / 2 - 1 } else { 0 };
        if most < ROUND_RADIUS {
            most
        } else {
            ROUND_RADIUS
        }
    }

    fn shade(&self, r: i32, x: i32, y: i32) -> (s: Shade)
        requires
            self.wf(),
            r == self.hole().radius(),
            0 <= r <= 12,
            2 * r <= self.x1 - self.x0,
            2 * r <= self.y1 - self.y0,
            self.hole().has(x as int, y as int),
        ensures
            s == self.hole().shade(x as int, y as int),
    {
        let dx: i32 = beyond_range(x, self.x0 + r, self.x1 - 1 - r, r);
        let dy: i32 = beyond_range(y, self.y0 + r, self.y1 - 1 - r, r);
        if dy == 0 {
            let w: i32 = self.x1 - self.x0;
            if w <= 2 * BORDER_THICKNESS || x - self.x0 < BORDER_THICKNESS || self.x1 - x
                <= BORDER_THICKNESS {
                return Shade::Border;
            }
            return Shade::Clear;
        }
        let inner: i32 = if r > BORDER_THICKNESS { r - BORDER_THICKNESS } else { 0 };
        proof {
            assert(0 <= dx * dx <= 144 && 0 <= dy * dy <= 144) by (nonlinear_arith)
                requires
                    -12 <= dx <= 12,
                    -12 <= dy <= 12,
            ;
            assert(0 <= inner * inner <= 144 && 0 <= r * r <= 144) by (nonlinear_arith)
                requires
                    0 <= inner <= 12,
                    0 <= r <= 12,
            ;
        }
        let d2: i32 = dx * dx + dy * dy;
        if d2 <= inner * inner {
            Shade::Clear
        } else if d2 <= r * r {
            Shade::Border
        } else {
            Shade::Background
        }
    }
}

fn beyond_range(v: i32, lo: i32, hi: i32, r: i32) -> (d: i32)
    requires
        0 <= r <= 12,
        lo - r <= v <= hi + r,
        r <= lo,
        -12 <= hi,
    ensures
        d == beyond(v as int, lo as int, hi as int),
        -12 <= d <= 12,
{
    if v < lo {
        v - lo
    } else if v > hi {
        v - hi
    } else {
        0
    }
}

fn clip(width: u32, height: u32, cutout: Option<(i32, i32, u32, u32)>) -> (r: Option<Bounds>)
    requires
        cutout_fits(cutout),
    ensures
        match r {
            Some(b) => b.wf() && hole(width, height, cutout) == Some(b.hole()) && b.x1 <= width
                && b.y1 <= height,
            None => hole(width, height, cutout) is None,
        },
{
    let (cx, cy, cw, ch) = match cutout {
        Some(c) => c,
        None => {
            return None;
        },
    };
    if cw == 0 || ch == 0 {
        return None;
    }
    let x0: i32 = if cx < 0 { 0 } else { cx };
    let y0: i32 = if cy < 0 { 0 } else { cy };
    let right: i32 = cx + cw as i32;
    let bottom: i32 = cy + ch as i32;
    let w: i32 = width as i32;
    let h: i32 = height as i32;
    let x1: i32 = if right < w { right } else { w };
    let y1: i32 = if bottom < h { bottom } else { h };
    if x1 <= x0 || y1 <= y0 {
        return None;
    }
    proof {
        assert((width as i32) >= 0 ==> (width as i32) == width) by (bit_vector);
        assert((height as i32) >= 0 ==> (height as i32) == height) by (bit_vector);
    }
    Some(Bounds { x0, y0, x1, y1 })
}

/// The far edges of a hole are 32 bit coordinates.
pub open spec fn cutout_fits(cutout: Option<(i32, i32, u32, u32)>) -> bool {
    match cutout {
        Some((cx, cy, cw, ch)) => {
            &&& i32::MIN <= cx + (cw as i32) <= i32::MAX
            &&& i32::MIN <= cy + (ch as i32) <= i32::MAX
        },
        None => true,
    }
}

/// Paints a screen of `width` by `height` pixels: the background, and where there
/// is a hole, its border and nothing inside.
pub fn paint(
    pixels: &mut [u8],
    width: u32,
    height: u32,
    cutout: Option<(i32, i32, u32, u32)>,
    border: u32,
    background: u32,
)
    requires
        width * height * 4 <= old(pixels)@.len(),
        cutout_fits(cutout),
    ensures
        final(pixels)@.len() == old(pixels)@.len(),
        forall|i: int|
            0 <= i < old(pixels)@.len() ==> #[trigger] final(pixels)@[i] == (if i < width * height
                * 4 {
                painted_byte(width as int, hole(width, height, cutout), border, background, i)
            } else {
                old(pixels)@[i]
            }),
{
    let ghost was = pixels@;
    let ghost w4 = width as int * 4;
    let ghost total = width * height * 4;
    let ghost h = hole(width, height, cutout);
    proof {
        assert(0 <= width * height) by (nonlinear_arith)
            requires
                0 <= width,
                0 <= height,
        ;
    }
    let len: usize = pixels.len();
    let count: usize = width as usize * height as usize;
    fill_argb(pixels, count, background);
    let b = match clip(width, height, cutout) {
        Some(b) => b,
        None => {
            return ;
        },
    };
    let r: i32 = b.radius();
    let ghost plain = pixels@;
    proof {
        assert forall|i: int| 0 <= i < total && i / w4 < b.y0 implies #[trigger] plain[i]
            == painted_byte(width as int, h, border, background, i) by {
        }
    }
    let mut y: i32 = b.y0;
    while y < b.y1
        invariant
            b.wf(),
            b.y0 <= y <= b.y1,
            b.x1 <= width,
            b.y1 <= height,
            h == Some(b.hole()),
            r == b.hole().radius(),
            0 <= r <= 12,
            2 * r <= b.x1 - b.x0,
            2 * r <= b.y1 - b.y0,
            w4 == width as int * 4,
            total == width * height * 4,
            total <= was.len(),
            was.len() == len,
            plain.len() == was.len(),
            pixels@.len() == was.len(),
            forall|i: int|
                0 <= i < was.len() ==> #[trigger] plain[i] == (if i < total {
                    word_byte(background, i % 4)
                } else {
                    was[i]
                }),
            forall|i: int|
                0 <= i < was.len() ==> #[trigger] pixels@[i] == (if i < total && i / w4 < y {
                    painted_byte(width as int, h, border, background, i)
                } else {
                    plain[i]
                }),
        decreases b.y1 - y,
    {
        let mut x: i32 = b.x0;
        proof {
            assert forall|i: int| 0 <= i < was.len() implies #[trigger] pixels@[i] == (if i < total
                && (i / w4 < y || i / w4 == y && (i % w4) / 4 < x) {
                painted_byte(width as int, h, border, background, i)
            } else {
                plain[i]
            }) by {
            }
        }
        while x < b.x1
            invariant
                b.wf(),
                b.x0 <= x <= b.x1,
                b.y0 <= y < b.y1,
                b.x1 <= width,
                b.y1 <= height,
                h == Some(b.hole()),
                r == b.hole().radius(),
                0 <= r <= 12,
                2 * r <= b.x1 - b.x0,
                2 * r <= b.y1 - b.y0,
                w4 == width as int * 4,
                total == width * height * 4,
                total <= was.len(),
                was.len() == len,
                plain.len() == was.len(),
                pixels@.len() == was.len(),
                forall|i: int|
                    0 <= i < was.len() ==> #[trigger] plain[i] == (if i < total {
                        word_byte(background, i % 4)
                    } else {
                        was[i]
                    }),
                forall|i: int|
                    0 <= i < was.len() ==> #[trigger] pixels@[i] == (if i < total && (i / w4 < y
                        || i / w4 == y && (i % w4) / 4 < x) {
                        painted_byte(width as int, h, border, background, i)
                    } else {
                        plain[i]
                    }),
            decreases b.x1 - x,
        {
            proof {
                assert(y * w4 + w4 <= total && 0 <= y * w4) by (nonlinear_arith)
                    requires
                        0 <= y < height,
                        w4 == width as int * 4,
                        total == width * height * 4,
                        0 <= width,
                ;
            }
            let at: usize = (y as u64 * (width as u64 * 4) + x as u64 * 4) as usize;
            let ghost before = pixels@;
            let shade = b.shade(r, x, y);
            match shade {
                Shade::Clear => {
                    put_word(pixels, at, 0);
                },
                Shade::Border => {
                    put_word(pixels, at, border);
                },
                Shade::Background => {},
            }
            proof {
                assert forall|i: int| 0 <= i < was.len() implies #[trigger] pixels@[i] == (if i
                    < total && (i / w4 < y || i / w4 == y && (i % w4) / 4 < x + 1) {
                    painted_byte(width as int, h, border, background, i)
                } else {
                    plain[i]
                }) by {
                    bytes::lemma_pixel(i, width as int, x as int, y as int);
                    assert(before[i] == (if i < total && (i / w4 < y || i / w4 == y && (i % w4) / 4
                        < x) {
                        painted_byte(width as int, h, border, background, i)
                    } else {
                        plain[i]
                    }));
                    if at <= i < at + 4 {
                        assert(i / w4 == y && (i % w4) / 4 == x);
                        assert(screen_shade(h, x as int, y as int) == shade);
                    }
                }
            }
            x = x + 1;
        }
        proof {
            assert forall|i: int| 0 <= i < was.len() implies #[trigger] pixels@[i] == (if i < total
                && i / w4 < y + 1 {
                painted_byte(width as int, h, border, background, i)
            } else {
                plain[i]
            }) by {
            }
        }
        y = y + 1;
    }
    proof {
        assert forall|i: int| 0 <= i < was.len() implies #[trigger] pixels@[i] == (if i < total {
            painted_byte(width as int, h, border, background, i)
        } else {
            was[i]
        }) by {
        }
    }
}

/// Outside of the hole every pixel is the background; in its middle band, away
/// from the left and right border, every pixel is clear.
pub proof fn the_hole_shows_the_screen(
    width: u32,
    height: u32,
    cutout: Option<(i32, i32, u32, u32)>,
    x: int,
    y: int,
)
    ensures
        ({
            let h = hole(width, height, cutout);
            &&& h is None || !h->0.has(x, y) ==> screen_shade(h, x, y) == Shade::Background
            &&& h is Some && h->0.x0 + 2 <= x < h->0.x1 - 2 && h->0.y0 + h->0.radius() <= y < h->0.y1
                - h->0.radius() ==> screen_shade(h, x, y) == Shade::Clear
        }),
{
    let h = hole(width, height, cutout);
    if h is Some {
        assert(0 <= h->0.radius());
    }
}

/// The hole is where it was asked for: a pixel lies in it exactly where it lies on the
/// screen and in the rectangle.
pub proof fn the_hole_is_where_it_was_asked_for(
    width: u32,
    height: u32,
    cutout: (i32, i32, u32, u32),
    x: int,
    y: int,
)
    requires
        width <= i32::MAX,
        height <= i32::MAX,
        cutout.2 <= i32::MAX,
        cutout.3 <= i32::MAX,
    ensures
        ({
            let h = hole(width, height, Some(cutout));
            (h is Some && h->0.has(x, y)) <==> (0 <= x < width && 0 <= y < height && cutout.0 <= x
                < cutout.0 + cutout.2 && cutout.1 <= y < cutout.1 + cutout.3)
        }),
{
}

/// The border runs round the hole: between the corners, the outermost two columns on
/// the left and on the right and the outermost two rows above and below are border, and
/// what lies further in is clear.
pub proof fn the_border_runs_round_the_hole(h: Hole, x: int, y: int)
    requires
        h.x1 - h.x0 >= 28,
        h.y1 - h.y0 >= 28,
        h.has(x, y),
    ensures
        ({
            let middle_row = h.y0 + 12 <= y < h.y1 - 12;
            let middle_column = h.x0 + 12 <= x < h.x1 - 12;
            let at_side = x < h.x0 + 2 || x >= h.x1 - 2;
            let at_end = y < h.y0 + 2 || y >= h.y1 - 2;
            &&& middle_row ==> h.shade(x, y) == (if at_side {
                Shade::Border
            } else {
                Shade::Clear
            })
            &&& middle_column ==> h.shade(x, y) == (if at_end {
                Shade::Border
            } else {
                Shade::Clear
            })
        }),
{
    assert(h.radius() == 12 && h.inner_radius() == 10);
    let dy = beyond(y, h.y0 + 12, h.y1 - 13);
    if h.x0 + 12 <= x < h.x1 - 12 && dy != 0 {
        assert(0 * 0 == 0int);
        assert(dy * dy <= 100 <==> -10 <= dy <= 10) by (nonlinear_arith)
            requires
                -12 <= dy <= 12,
        ;
        assert(dy * dy <= 144) by (nonlinear_arith)
            requires
                -12 <= dy <= 12,
        ;
    }
}

/// The picture is the same from either side: a pixel and its mirror image, left to right
/// or top to bottom, are shaded alike.
pub proof fn the_border_is_symmetric(h: Hole, x: int, y: int)
    requires
        h.x0 < h.x1,
        h.y0 < h.y1,
        h.has(x, y),
    ensures
        h.shade(h.x0 + h.x1 - 1 - x, y) == h.shade(x, y),
        h.shade(x, h.y0 + h.y1 - 1 - y) == h.shade(x, y),
{
    let r = h.radius();
    let dx = beyond(x, h.x0 + r, h.x1 - 1 - r);
    let dy = beyond(y, h.y0 + r, h.y1 - 1 - r);
    assert((-dx) * (-dx) == dx * dx) by (nonlinear_arith);
    assert((-dy) * (-dy) == dy * dy) by (nonlinear_arith);
}

/// The corners are cut off: the outermost pixel of each is background.
pub proof fn the_corners_are_cut_off(h: Hole)
    requires
        h.x1 - h.x0 >= 28,
        h.y1 - h.y0 >= 28,
    ensures
        h.shade(h.x0, h.y0) == Shade::Background,
        h.shade(h.x1 - 1, h.y0) == Shade::Background,
        h.shade(h.x0, h.y1 - 1) == Shade::Background,
        h.shade(h.x1 - 1, h.y1 - 1) == Shade::Background,
{
    assert(h.radius() == 12 && h.inner_radius() == 10);
    assert((-12int) * (-12int) == 144);
    assert(12int * 12int == 144);
    assert(10int * 10int == 100);
}

/// A colour is made up of its bytes.
proof fn lemma_word_bytes(word: u32)
    ensures
        word_byte(word, 0) + 0x100 * word_byte(word, 1) + 0x1_0000 * word_byte(word, 2)
            + 0x100_0000 * word_byte(word, 3) == word,
{
}

/// Each byte of a pixel is that of the pixel's colour.
proof fn lemma_painted_byte(
    width: int,
    h: Option<Hole>,
    border: u32,
    background: u32,
    x: int,
    y: int,
    c: int,
)
    requires
        0 <= x < width,
        0 <= y,
        0 <= c < 4,
    ensures
        painted_byte(width, h, border, background, (y * width + x) * 4 + c) == word_byte(
            shade_word(screen_shade(h, x, y), border, background),
            c,
        ),
{
    let i = (y * width + x) * 4 + c;
    assert(i == y * (width * 4) + (x * 4 + c)) by (nonlinear_arith)
        requires
            i == (y * width + x) * 4 + c,
    ;
    vstd::arithmetic::div_mod::lemma_fundamental_div_mod_converse(i, width * 4, y, x * 4 + c);
    assert(i % 4 == c);
}

/// A pixel is painted with its shade's colour, whole: its four bytes make up the border's
/// colour, the background's or nothing.
pub proof fn pixels_have_their_shades_colour(
    width: int,
    h: Option<Hole>,
    border: u32,
    background: u32,
    x: int,
    y: int,
)
    requires
        0 <= x < width,
        0 <= y,
    ensures
        ({
            let at = (y * width + x) * 4;
            let word = painted_byte(width, h, border, background, at) + 0x100 * painted_byte(
                width,
                h,
                border,
                background,
                at + 1,
            ) + 0x1_0000 * painted_byte(width, h, border, background, at + 2) + 0x100_0000
                * painted_byte(width, h, border, background, at + 3);
            word == (match screen_shade(h, x, y) {
                Shade::Background => background,
                Shade::Border => border,
                Shade::Clear => 0,
            })
        }),
{
    let word = shade_word(screen_shade(h, x, y), border, background);
    lemma_painted_byte(width, h, border, background, x, y, 0);
    lemma_painted_byte(width, h, border, background, x, y, 1);
    lemma_painted_byte(width, h, border, background, x, y, 2);
    lemma_painted_byte(width, h, border, background, x, y, 3);
    lemma_word_bytes(word);
}

} // verus!
