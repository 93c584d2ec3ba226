//! Trying out single steps of a capture: the region on the command line, its parts
//! on each output, and the pipeline that a single frame goes through.
use crate::encode::video::CropRect;
use crate::gui::outputs;
use crate::gui::outputs::OutputDescription;
use crate::gui::widget::rectangle_selection::Rect;
use crate::pipeline::record::RegionPart;
use crate::text;
use vstd::prelude::*;

verus! {

/// Why a region on the command line was not understood.
#[derive(Clone, Copy, Debug, PartialEq, Eq, Structural)]
pub enum RegionError {
    /// A part is no 64 bit number.
    Component,
    /// There are not four parts.
    Count,
    /// The region has no inside.
    Extent,
}

impl RegionError {
    /// The message for the user.
    pub fn message(&self) -> (s: &'static str)
        ensures
            s@ == match self {
                RegionError::Component => "region component"@,
                RegionError::Count => "--region expects X,Y,W,H (4 values)"@,
                RegionError::Extent => "region width/height must be > 0"@,
            },
    {
        match self {
            RegionError::Component => "region component",
            RegionError::Count => "--region expects X,Y,W,H (4 values)",
            RegionError::Extent => "region width/height must be > 0",
        }
    }
}

/// A white space character.
pub open spec fn is_space(c: char) -> bool {
    ||| '\u{9}' <= c <= '\u{d}'
    ||| c == ' '
    ||| c == '\u{85}'
    ||| c == '\u{a0}'
    ||| c == '\u{1680}'
    ||| '\u{2000}' <= c <= '\u{200a}'
    ||| c == '\u{2028}'
    ||| c == '\u{2029}'
    ||| c == '\u{202f}'
    ||| c == '\u{205f}'
    ||| c == '\u{3000}'
}

fn space(c: char) -> (b: bool)
    ensures
        b == is_space(c),
{
    ('\u{9}' <= c && c <= '\u{d}') || c == ' ' || c == '\u{85}' || c == '\u{a0}' || c == '\u{1680}'
        || ('\u{2000}' <= c && c <= '\u{200a}') || c == '\u{2028}' || c == '\u{2029}' || c
        == '\u{202f}' || c == '\u{205f}' || c == '\u{3000}'
}

/// The text without the white space at its ends.
pub open spec fn trimmed(s: Seq<char>) -> Seq<char>
    decreases s.len(),
{
    if s.len() == 0 {
        s
    } else if is_space(s[0]) {
        trimmed(s.drop_first())
    } else if is_space(s.last()) {
        trimmed(s.drop_last())
    } else {
        s
    }
}

/// A decimal digit.
pub open spec fn is_digit(c: char) -> bool {
    '0' <= c <= '9'
}

/// A digit's value.
pub open spec fn digit_value(c: char) -> int {
    c as int - '0' as int
}

/// Digits only.
pub open spec fn all_digits(s: Seq<char>) -> bool {
    forall|i: int| 0 <= i < s.len() ==> is_digit(#[trigger] s[i])
}

/// The number that digits write.
pub open spec fn digits_value(s: Seq<char>) -> int
    decreases s.len(),
{
    if s.len() == 0 {
        0
    } else {
        digits_value(s.drop_last()) * 10 + digit_value(s.last())
    }
}

/// A sign stands before the digits.
pub open spec fn has_sign(s: Seq<char>) -> bool {
    s.len() > 0 && (s[0] == '-' || s[0] == '+')
}

/// The number that a text writes: digits, with a sign before them or without, that
/// make a 64 bit number.
pub open spec fn number(s: Seq<char>) -> Option<int> {
    let body = if has_sign(s) {
        s.drop_first()
    } else {
        s
    };
    let v = if has_sign(s) && s[0] == '-' {
        -digits_value(body)
    } else {
        digits_value(body)
    };
    if body.len() == 0 || !all_digits(body) || v < i64::MIN || v > i64::MAX {
        None
    } else {
        Some(v)
    }
}

/// Where the first comma stands; the length where there is none.
pub open spec fn first_comma(s: Seq<char>) -> int
    decreases s.len(),
{
    if s.len() == 0 || s[0] == ',' {
        0
    } else {
        1 + first_comma(s.drop_first())
    }
}

proof fn lemma_first_comma(s: Seq<char>)
    ensures
        0 <= first_comma(s) <= s.len(),
        first_comma(s) < s.len() ==> s[first_comma(s)] == ',',
        forall|i: int| 0 <= i < first_comma(s) ==> s[i] != ',',
    decreases s.len(),
{
    if s.len() > 0 && s[0] != ',' {
        lemma_first_comma(s.drop_first());
        assert forall|i: int| 0 <= i < first_comma(s) implies s[i] != ',' by {
            if i > 0 {
                assert(s[i] == s.drop_first()[i - 1]);
            }
        }
    }
}

/// The texts between the commas.
pub open spec fn components(s: Seq<char>) -> Seq<Seq<char>>
    decreases s.len(),
{
    let i = first_comma(s);
    if 0 <= i < s.len() {
        seq![s.take(i)] + components(s.skip(i + 1))
    } else {
        seq![s]
    }
}

/// The numbers that texts write. `None` where one writes none.
pub open spec fn numbers(parts: Seq<Seq<char>>) -> Option<Seq<int>>
    decreases parts.len(),
{
    if parts.len() == 0 {
        Some(Seq::empty())
    } else {
        match (number(trimmed(parts[0])), numbers(parts.drop_first())) {
            (Some(n), Some(rest)) => Some(seq![n] + rest),
            _ => None,
        }
    }
}

/// The region that a text writes: left, top, width and height, the widths not
/// below one.
pub open spec fn region_of(s: Seq<char>) -> Result<(i32, i32, u32, u32), RegionError> {
    match numbers(components(s)) {
        None => Err(RegionError::Component),
        Some(n) => if n.len() != 4 {
            Err(RegionError::Count)
        } else if n[2] <= 0 || n[3] <= 0 {
            Err(RegionError::Extent)
        } else {
            Ok(
                (
                    n[0] as i64 as i32,
                    n[1] as i64 as i32,
                    n[2] as i64 as u32,
                    n[3] as i64 as u32,
                ),
            )
        },
    }
}

proof fn lemma_digits_grow(s: Seq<char>, n: int)
    requires
        0 <= n <= s.len(),
        all_digits(s),
    ensures
        0 <= digits_value(s.take(n)) <= digits_value(s),
    decreases s.len(),
{
    if n < s.len() {
        assert(s.drop_last().take(n) =~= s.take(n));
        assert forall|i: int| 0 <= i < s.len() - 1 implies is_digit(#[trigger] s.drop_last()[i]) by {
            assert(is_digit(s[i]));
        }
        lemma_digits_grow(s.drop_last(), n);
        assert(is_digit(s[s.len() - 1]));
    } else {
        assert(s.take(n) =~= s);
        if s.len() > 0 {
            assert forall|i: int| 0 <= i < s.len() - 1 implies is_digit(
                #[trigger] s.drop_last()[i],
            ) by {
                assert(is_digit(s[i]));
            }
            lemma_digits_grow(s.drop_last(), s.len() - 1);
            assert(s.drop_last().take(s.len() - 1) =~= s.drop_last());
            assert(is_digit(s[s.len() - 1]));
        }
    }
}

fn value_of(c: char) -> (d: u64)
    requires
        is_digit(c),
    ensures
        d == digit_value(c),
        d <= 9,
{
    c as u64 - '0' as u64
}

/// The number that the digits from `a` up to `b` write; at most one more than the
/// largest 64 bit one.
fn parse_digits(s: &Vec<char>, a: usize, b: usize) -> (r: Option<u64>)
    requires
        a <= b <= s@.len(),
    ensures
        match r {
            Some(v) => all_digits(s@.subrange(a as int, b as int)) && v == digits_value(
                s@.subrange(a as int, b as int),
            ) && v <= 0x8000_0000_0000_0000,
            None => !all_digits(s@.subrange(a as int, b as int)) || digits_value(
                s@.subrange(a as int, b as int),
            ) > 0x8000_0000_0000_0000,
        },
{
    let ghost t = s@.subrange(a as int, b as int);
    let mut v: u128 = 0;
    let mut large: bool = false;
    let mut i: usize = a;
    while i < b
        invariant
            a <= i <= b <= s@.len(),
            t == s@.subrange(a as int, b as int),
            all_digits(t.take(i - a)),
            !large ==> v == digits_value(t.take(i - a)) && v <= 0x8000_0000_0000_0000,
            large ==> digits_value(t.take(i - a)) > 0x8000_0000_0000_0000,
        decreases b - i,
    {
        let c: char = s[i];
        assert(t.take(i + 1 - a).drop_last() =~= t.take(i - a));
        assert(t.take(i + 1 - a).last() == c);
        if !('0' <= c && c <= '9') {
            assert(t[i - a] == c);
            assert(!is_digit(t[i - a]));
            return None;
        }
        let d: u64 = value_of(c);
        assert forall|j: int| 0 <= j < i + 1 - a implies is_digit(
            #[trigger] t.take(i + 1 - a)[j],
        ) by {
            if j < i - a {
                assert(is_digit(t.take(i - a)[j]));
            }
        }
        if !large {
            v = v * 10 + d as u128;
            if v > 0x8000_0000_0000_0000 {
                large = true;
            }
        }
        i = i + 1;
    }
    assert(t.take(i - a) =~= t);
    if large {
        None
    } else {
        Some(v as u64)
    }
}

fn parse_number(s: &Vec<char>, a: usize, b: usize) -> (r: Option<i64>)
    requires
        a <= b <= s@.len(),
    ensures
        match number(s@.subrange(a as int, b as int)) {
            Some(n) => r matches Some(v) && v == n,
            None => r is None,
        },
{
    let ghost t = s@.subrange(a as int, b as int);
    if a == b {
        return None;
    }
    assert(t[0] == s@[a as int]);
    let negative = s[a] == '-';
    let signed = negative || s[a] == '+';
    let from: usize = if signed {
        a + 1
    } else {
        a
    };
    let ghost body = s@.subrange(from as int, b as int);
    assert(signed ==> body =~= t.drop_first());
    assert(!signed ==> body =~= t);
    if from == b {
        return None;
    }
    proof {
        if all_digits(body) {
            lemma_digits_grow(body, 0);
        }
    }
    match parse_digits(s, from, b) {
        Some(v) => if negative {
            if v == 0x8000_0000_0000_0000 {
                Some(i64::MIN)
            } else {
                Some(-(v as i64))
            }
        } else if v <= 0x7fff_ffff_ffff_ffff {
            Some(v as i64)
        } else {
            None
        },
        None => None,
    }
}

/// The ends of a text without the white space round it.
fn trim(s: &Vec<char>, a: usize, b: usize) -> (r: (usize, usize))
    requires
        a <= b <= s@.len(),
    ensures
        a <= r.0 <= r.1 <= b,
        s@.subrange(r.0 as int, r.1 as int) == trimmed(s@.subrange(a as int, b as int)),
{
    let (mut i, mut j) = (a, b);
    while i < j
        invariant_except_break
            a <= i <= j <= b <= s@.len(),
            trimmed(s@.subrange(i as int, j as int)) == trimmed(s@.subrange(a as int, b as int)),
        ensures
            a <= i <= j <= b <= s@.len(),
            trimmed(s@.subrange(i as int, j as int)) == trimmed(s@.subrange(a as int, b as int)),
            trimmed(s@.subrange(i as int, j as int)) == s@.subrange(i as int, j as int),
        decreases j - i,
    {
        let ghost t = s@.subrange(i as int, j as int);
        assert(t[0] == s@[i as int] && t.last() == s@[j - 1]);
        if space(s[i]) {
            assert(t.drop_first() =~= s@.subrange(i + 1, j as int));
            i = i + 1;
        } else if space(s[j - 1]) {
            assert(t.drop_last() =~= s@.subrange(i as int, j - 1));
            j = j - 1;
        } else {
            break;
        }
    }
    (i, j)
}

fn characters(s: &str) -> (v: Vec<char>)
    ensures
        v@ == s@,
{
    let mut v: Vec<char> = Vec::new();
    let n: usize = s.unicode_len();
    let mut i: usize = 0;
    while i < n
        invariant
            i <= n,
            n == s@.len(),
            v@ == s@.take(i as int),
        decreases n - i,
    {
        v.push(s.get_char(i));
        assert(v@ =~= s@.take(i + 1));
        i = i + 1;
    }
    assert(s@.take(i as int) =~= s@);
    v
}

fn comma_from(s: &Vec<char>, a: usize) -> (i: usize)
    requires
        a <= s@.len(),
    ensures
        a <= i <= s@.len(),
        i - a == first_comma(s@.skip(a as int)),
{
    let mut i: usize = a;
    let ghost t = s@.skip(a as int);
    assert(t.skip(0) =~= t);
    while i < s.len() && s[i] != ','
        invariant
            a <= i <= s@.len(),
            t == s@.skip(a as int),
            first_comma(t) == (i - a) + first_comma(t.skip(i - a)),
        decreases s@.len() - i,
    {
        assert(t.skip(i - a)[0] == s@[i as int]);
        assert(t.skip(i - a).drop_first() =~= t.skip(i + 1 - a));
        i = i + 1;
    }
    assert(i < s@.len() ==> t.skip(i - a)[0] == s@[i as int]);
    i
}

fn list_numbers(s: &Vec<char>) -> (r: Option<Vec<i64>>)
    ensures
        match r {
            Some(v) => numbers(components(s@)) == Some(v@.map_values(|n: i64| n as int)),
            None => numbers(components(s@)) is None,
        },
{
    let mut v: Vec<i64> = Vec::new();
    let mut a: usize = 0;
    let ghost whole = components(s@);
    let ghost f = |n: i64| n as int;
    assert(s@.skip(0) =~= s@);
    assert(v@.map_values(f) =~= Seq::<int>::empty());
    proof {
        lemma_numbers_join(Seq::empty(), numbers(whole));
    }
    loop
        invariant
            a <= s@.len(),
            f == (|n: i64| n as int),
            whole == components(s@),
            numbers(whole) == joined(v@.map_values(f), numbers(components(s@.skip(a as int)))),
        decreases s@.len() - a,
    {
        let ghost rest = s@.skip(a as int);
        proof {
            lemma_first_comma(rest);
        }
        let b: usize = comma_from(s, a);
        assert(rest.take(b - a) =~= s@.subrange(a as int, b as int));
        let (i, j) = trim(s, a, b);
        let ghost parts = components(rest);
        proof {
            if b < s@.len() {
                assert(parts =~= seq![rest.take(b - a)] + components(rest.skip(b + 1 - a)));
                assert(rest.skip(b + 1 - a) =~= s@.skip(b + 1));
                assert(parts.drop_first() =~= components(s@.skip(b + 1)));
            } else {
                assert(rest.take(b - a) =~= rest);
                assert(parts =~= seq![rest]);
                assert(parts.drop_first() =~= Seq::empty());
            }
        }
        let ghost before = v@.map_values(f);
        match parse_number(s, i, j) {
            Some(n) => {
                v.push(n);
                assert(v@.map_values(f) =~= before.push(n as int));
                proof {
                    lemma_join_step(before, n as int, numbers(parts.drop_first()));
                }
            },
            None => {
                return None;
            },
        }
        if b >= s.len() {
            assert(joined(v@.map_values(f), Some(Seq::empty())) == Some(v@.map_values(f))) by {
                assert(v@.map_values(f) + Seq::<int>::empty() =~= v@.map_values(f));
            }
            return Some(v);
        }
        a = b + 1;
    }
}

/// Numbers with more behind them, where there are any.
spec fn joined(first: Seq<int>, rest: Option<Seq<int>>) -> Option<Seq<int>> {
    match rest {
        Some(r) => Some(first + r),
        None => None,
    }
}

proof fn lemma_numbers_join(first: Seq<int>, rest: Option<Seq<int>>)
    requires
        first.len() == 0,
    ensures
        joined(first, rest) == rest,
{
    if let Some(r) = rest {
        assert(first + r =~= r);
    }
}

proof fn lemma_join_step(first: Seq<int>, n: int, rest: Option<Seq<int>>)
    ensures
        joined(first.push(n), rest) == joined(first, joined(seq![n], rest)),
{
    if let Some(r) = rest {
        assert(first.push(n) + r =~= first + (seq![n] + r));
    }
}

/// Reads a region from the command line.
pub fn parse_region(s: &str) -> (r: Result<(i32, i32, u32, u32), RegionError>)
    ensures
        r == region_of(s@),
{
    let chars: Vec<char> = characters(s);
    match list_numbers(&chars) {
        None => Err(RegionError::Component),
        Some(n) => {
            let ghost m = n@.map_values(|n: i64| n as int);
            if n.len() != 4 {
                return Err(RegionError::Count);
            }
            assert(m[0] == n@[0] && m[1] == n@[1] && m[2] == n@[2] && m[3] == n@[3]);
            if n[2] <= 0 || n[3] <= 0 {
                return Err(RegionError::Extent);
            }
            Ok((n[0] as i32, n[1] as i32, n[2] as u32, n[3] as u32))
        },
    }
}

/// An output with a whole scale.
pub struct ScaledOutput {
    pub name: String,
    pub pos: (i32, i32),
    pub size: (u32, u32),
    pub scale: u32,
}

impl ScaledOutput {
    /// The output in global logical coordinates.
    pub open spec fn rect(self) -> Rect {
        Rect {
            left: self.pos.0,
            top: self.pos.1,
            right: (self.pos.0 + self.size.0) as i32,
            bottom: (self.pos.1 + self.size.1) as i32,
        }
    }

    /// The output's edges are 32 bit ones, and so are its pixels.
    pub open spec fn wf(self) -> bool {
        &&& self.pos.0 + self.size.0 <= i32::MAX
        &&& self.pos.1 + self.size.1 <= i32::MAX
        &&& self.size.0 * self.scale <= i32::MAX
        &&& self.size.1 * self.scale <= i32::MAX
        &&& self.scale >= 1
    }

    /// What is needed of an output: nothing of one without a name or a size.
    pub fn of(d: &OutputDescription) -> (r: Option<ScaledOutput>)
        ensures
            match (d.name, d.logical_size) {
                (Some(n), Some((w, h))) => if w as u32 == 0 || h as u32 == 0 {
                    r is None
                } else {
                    r == Some(
                        ScaledOutput {
                            name: n,
                            pos: match d.logical_position {
                                Some(p) => p,
                                None => (0i32, 0i32),
                            },
                            size: (w as u32, h as u32),
                            scale: if d.scale_factor < 1 {
                                1u32
                            } else {
                                d.scale_factor as u32
                            },
                        },
                    )
                },
                _ => r is None,
            },
    {
        let name = match &d.name {
            Some(n) => n.clone(),
            None => {
                return None;
            },
        };
        let size = match d.logical_size {
            Some((w, h)) => (w as u32, h as u32),
            None => {
                return None;
            },
        };
        if size.0 == 0 || size.1 == 0 {
            return None;
        }
        let pos = match d.logical_position {
            Some(p) => p,
            None => (0, 0),
        };
        let scale: u32 = if d.scale_factor < 1 {
            1
        } else {
            d.scale_factor as u32
        };
        Some(ScaledOutput { name, pos, size, scale })
    }

    fn rect_of(&self) -> (r: Rect)
        requires
            self.wf(),
        ensures
            r == self.rect(),
    {
        Rect {
            left: self.pos.0,
            top: self.pos.1,
            right: (self.pos.0 as i64 + self.size.0 as i64) as i32,
            bottom: (self.pos.1 as i64 + self.size.1 as i64) as i32,
        }
    }
}

/// The larger of two scales.
pub open spec fn larger_scale(a: u32, b: u32) -> u32 {
    if a >= b {
        a
    } else {
        b
    }
}

/// The largest scale among the outputs that a region touches, and at least one.
pub open spec fn top_scale(outs: Seq<ScaledOutput>, region: Rect) -> u32
    decreases outs.len(),
{
    if outs.len() == 0 {
        1
    } else {
        let before = top_scale(outs.drop_last(), region);
        if outputs::nonempty(outputs::intersection(outs.last().rect(), region)) {
            larger_scale(before, outs.last().scale)
        } else {
            before
        }
    }
}

/// An output's share of a region, its pixels by its own scale and its place on the
/// canvas by the canvas's.
pub open spec fn scaled_part(o: ScaledOutput, region: Rect, target: u32) -> Option<RegionPart> {
    let i = outputs::intersection(o.rect(), region);
    if outputs::nonempty(i) {
        Some(
            RegionPart {
                output_name: o.name,
                src_crop: CropRect {
                    x: ((i.left - o.rect().left) * o.scale) as i32,
                    y: ((i.top - o.rect().top) * o.scale) as i32,
                    w: ((i.right - i.left) * o.scale) as u32,
                    h: ((i.bottom - i.top) * o.scale) as u32,
                },
                dst_pos: (
                    ((i.left - region.left) * target) as u32,
                    ((i.top - region.top) * target) as u32,
                ),
                dst_size: (
                    ((i.right - i.left) * target) as u32,
                    ((i.bottom - i.top) * target) as u32,
                ),
            },
        )
    } else {
        None
    }
}

/// The shares of all outputs, in the outputs' order.
pub open spec fn scaled_parts(outs: Seq<ScaledOutput>, region: Rect, target: u32) -> Seq<RegionPart>
    decreases outs.len(),
{
    if outs.len() == 0 {
        Seq::empty()
    } else {
        let before = scaled_parts(outs.drop_last(), region, target);
        match scaled_part(outs.last(), region, target) {
            Some(p) => before.push(p),
            None => before,
        }
    }
}

/// Every output is one that can be laid out.
pub open spec fn all_scaled(outs: Seq<ScaledOutput>) -> bool {
    forall|i: int| 0 <= i < outs.len() ==> (#[trigger] outs[i]).wf()
}

/// The rectangle of a region by its corner and its size.
pub open spec fn region_rect(r: (i32, i32, u32, u32)) -> Rect {
    Rect { left: r.0, top: r.1, right: (r.0 + r.2) as i32, bottom: (r.1 + r.3) as i32 }
}

/// The region's edges are 32 bit ones, and so are its canvas's.
pub open spec fn region_fits(outs: Seq<ScaledOutput>, r: (i32, i32, u32, u32)) -> bool {
    &&& r.0 + r.2 <= i32::MAX
    &&& r.1 + r.3 <= i32::MAX
    &&& r.2 * top_scale(outs, region_rect(r)) <= u32::MAX
    &&& r.3 * top_scale(outs, region_rect(r)) <= u32::MAX
}

fn meets(o: &ScaledOutput, region: &Rect) -> (i: Option<Rect>)
    requires
        o.wf(),
    ensures
        match i {
            Some(r) => outputs::nonempty(r) && r == outputs::intersection(o.rect(), *region),
            None => !outputs::nonempty(outputs::intersection(o.rect(), *region)),
        },
{
    let r = o.rect_of();
    let left: i32 = if r.left <= region.left {
        region.left
    } else {
        r.left
    };
    let top: i32 = if r.top <= region.top {
        region.top
    } else {
        r.top
    };
    let right: i32 = if r.right <= region.right {
        r.right
    } else {
        region.right
    };
    let bottom: i32 = if r.bottom <= region.bottom {
        r.bottom
    } else {
        region.bottom
    };
    if right <= left || bottom <= top {
        return None;
    }
    Some(Rect { left, top, right, bottom })
}

/// The largest scale among the outputs that a region touches, and at least one.
pub fn target_scale(outs: &Vec<ScaledOutput>, region: &Rect) -> (s: u32)
    requires
        all_scaled(outs@),
    ensures
        s == top_scale(outs@, *region),
        s >= 1,
{
    let mut s: u32 = 1;
    let mut i: usize = 0;
    while i < outs.len()
        invariant
            i <= outs@.len(),
            all_scaled(outs@),
            s == top_scale(outs@.take(i as int), *region),
            s >= 1,
        decreases outs@.len() - i,
    {
        assert(outs@.take(i + 1).drop_last() =~= outs@.take(i as int));
        if meets(&outs[i], region).is_some() && outs[i].scale > s {
            s = outs[i].scale;
        }
        i = i + 1;
    }
    assert(outs@.take(i as int) =~= outs@);
    s
}

proof fn lemma_within(a: int, limit: int, scale: int)
    requires
        0 <= a <= limit,
        scale >= 1,
    ensures
        0 <= a * scale <= limit * scale,
{
    assert(0 <= a * scale <= limit * scale) by (nonlinear_arith)
        requires
            0 <= a <= limit,
            scale >= 1,
    ;
}

/// Lays a region out over outputs with whole scales. The parts are none where no
/// output has any of the region.
pub fn scaled_region_parts(outs: &Vec<ScaledOutput>, r: (i32, i32, u32, u32)) -> (parts: Vec<
    RegionPart,
>)
    requires
        all_scaled(outs@),
        region_fits(outs@, r),
    ensures
        parts@ == scaled_parts(
            outs@,
            region_rect(r),
            top_scale(outs@, region_rect(r)),
        ),
{
    let region = Rect {
        left: r.0,
        top: r.1,
        right: (r.0 as i64 + r.2 as i64) as i32,
        bottom: (r.1 as i64 + r.3 as i64) as i32,
    };
    let target: u32 = target_scale(outs, &region);
    let mut parts: Vec<RegionPart> = Vec::new();
    let mut n: usize = 0;
    while n < outs.len()
        invariant
            n <= outs@.len(),
            all_scaled(outs@),
            target >= 1,
            region == region_rect(r),
            r.0 + r.2 <= i32::MAX,
            r.1 + r.3 <= i32::MAX,
            r.2 * target <= u32::MAX,
            r.3 * target <= u32::MAX,
            parts@ == scaled_parts(outs@.take(n as int), region, target),
        decreases outs@.len() - n,
    {
        assert(outs@.take(n + 1).drop_last() =~= outs@.take(n as int));
        let o = &outs[n];
        if let Some(i) = meets(o, &region) {
            let s: u32 = o.scale;
            let x: u32 = (i.left as i64 - o.pos.0 as i64) as u32;
            let y: u32 = (i.top as i64 - o.pos.1 as i64) as u32;
            let w: u32 = (i.right as i64 - i.left as i64) as u32;
            let h: u32 = (i.bottom as i64 - i.top as i64) as u32;
            let dx: u32 = (i.left as i64 - region.left as i64) as u32;
            let dy: u32 = (i.top as i64 - region.top as i64) as u32;
            proof {
                lemma_within(x as int, o.size.0 as int, s as int);
                lemma_within(y as int, o.size.1 as int, s as int);
                lemma_within(w as int, o.size.0 as int, s as int);
                lemma_within(h as int, o.size.1 as int, s as int);
                lemma_within(dx as int, r.2 as int, target as int);
                lemma_within(dy as int, r.3 as int, target as int);
                lemma_within(w as int, r.2 as int, target as int);
                lemma_within(h as int, r.3 as int, target as int);
            }
            parts.push(
                RegionPart {
                    output_name: o.name.clone(),
                    src_crop: CropRect { x: (x * s) as i32, y: (y * s) as i32, w: w * s, h: h * s },
                    dst_pos: (dx * target, dy * target),
                    dst_size: (w * target, h * target),
                },
            );
        }
        n = n + 1;
    }
    assert(outs@.take(n as int) =~= outs@);
    parts
}

/// A text with a backslash before each quotation mark.
pub open spec fn quoted(s: Seq<char>) -> Seq<char>
    decreases s.len(),
{
    if s.len() == 0 {
        s
    } else {
        let before = quoted(s.drop_last());
        if s.last() == '"' {
            before.push('\\').push('"')
        } else {
            before.push(s.last())
        }
    }
}

/// The pipeline that one frame goes through into an image file.
pub open spec fn frame_pipeline(location: Seq<char>) -> Seq<char> {
    "appsrc name=src is-live=false format=time ! vapostproc ! video/x-raw,format=RGBA ! videoconvert ! pngenc ! filesink location=\""@
        + quoted(location) + "\""@
}

/// The pipeline that one frame goes through into an image file.
pub fn frame_pipeline_str(location: &str) -> (r: String)
    ensures
        r@ == frame_pipeline(location@),
{
    let mut r = text::owned(
        "appsrc name=src is-live=false format=time ! vapostproc ! video/x-raw,format=RGBA ! videoconvert ! pngenc ! filesink location=\"",
    );
    let ghost head = r@;
    let n: usize = location.unicode_len();
    let mut i: usize = 0;
    assert(r@ =~= head + quoted(location@.take(0)));
    while i < n
        invariant
            i <= n,
            n == location@.len(),
            r@ == head + quoted(location@.take(i as int)),
        decreases n - i,
    {
        let c: char = location.get_char(i);
        assert(location@.take(i + 1).drop_last() =~= location@.take(i as int));
        assert(location@.take(i + 1).last() == c);
        if c == '"' {
            r.push('\\');
        }
        r.push(c);
        assert(r@ =~= head + quoted(location@.take(i + 1)));
        i = i + 1;
    }
    assert(location@.take(i as int) =~= location@);
    r.append("\"");
    r
}

/// The byte of a pixel with red and blue in each other's place.
pub open spec fn swapped(b: int) -> int {
    if b % 4 == 0 {
        b + 2
    } else if b % 4 == 2 {
        b - 2
    } else {
        b
    }
}

/// Reads back a mapped frame: its rows without padding, and each pixel as red,
/// green, blue and alpha in the place of blue, green, red and alpha.
pub fn read_back(buf: &[u8], stride: usize, width: u32, height: u32) -> (out: Vec<u8>)
    requires
        width * 4 * height <= isize::MAX,
        height > 0 ==> (height - 1) * stride + width * 4 <= buf@.len(),
    ensures
        out@.len() == width * 4 * height,
        forall|y: int, b: int|
            0 <= y < height && 0 <= b < width * 4 ==> #[trigger] out@[y * (width * 4) + b]
                == buf@[y * stride + swapped(b)],
{
    let mut out: Vec<u8> = Vec::new();
    let row: u64 = width as u64 * 4;
    let mut y: u32 = 0;
    assert(0 * (width * 4) == 0);
    while y < height
        invariant
            y <= height,
            row == width * 4,
            height > 0 ==> (height - 1) * stride + width * 4 <= buf@.len(),
            out@.len() == y * (width * 4),
            forall|v: int, b: int|
                0 <= v < y && 0 <= b < width * 4 ==> #[trigger] out@[v * (width * 4) + b]
                    == buf@[v * stride + swapped(b)],
        decreases height - y,
    {
        let ghost done = out@;
        proof {
            lemma_within(y as int, height - 1, 1);
            assert(0 <= y * stride <= (height - 1) * stride) by (nonlinear_arith)
                requires
                    0 <= y <= height - 1,
                    0 <= stride,
            ;
            assert((y + 1) * (width * 4) == y * (width * 4) + width * 4) by (nonlinear_arith);
        }
        let len: usize = buf.len();
        let start: usize = y as usize * stride;
        let mut x: u64 = 0;
        while x < row
            invariant
                x <= row,
                row == width * 4,
                row % 4 == 0,
                x % 4 == 0,
                start == y * stride,
                start + row <= buf@.len(),
                len == buf@.len(),
                done.len() == y * (width * 4),
                out@.len() == done.len() + x,
                forall|i: int| 0 <= i < done.len() ==> out@[i] == done[i],
                forall|b: int| 0 <= b < x ==> out@[done.len() + b] == buf@[start + swapped(b)],
            decreases row - x,
        {
            let at: usize = start + x as usize;
            out.push(buf[at + 2]);
            out.push(buf[at + 1]);
            out.push(buf[at]);
            out.push(buf[at + 3]);
            x = x + 4;
        }
        assert forall|v: int, b: int| 0 <= v < y + 1 && 0 <= b < width * 4 implies #[trigger] out@[v
            * (width * 4) + b] == buf@[v * stride + swapped(b)] by {
            if v < y {
                assert(v * (width * 4) + b < y * (width * 4)) by (nonlinear_arith)
                    requires
                        0 <= v < y,
                        0 <= b < width * 4,
                ;
                assert(0 <= v * (width * 4)) by (nonlinear_arith)
                    requires
                        0 <= v,
                        0 <= width,
                ;
                assert(done[v * (width * 4) + b] == buf@[v * stride + swapped(b)]);
            } else {
                assert(v == y);
            }
        }
        y = y + 1;
    }
    assert(height * (width * 4) == width * 4 * height) by (nonlinear_arith);
    out
}

/// How long the pipeline of one frame may take, in nanoseconds.
pub const FRAME_LIMIT_NS: u64 = 10_000_000_000;

/// What the pipeline reports.
#[derive(Clone, Copy, Debug, PartialEq, Eq, Structural)]
pub enum BusEvent {
    /// The file is finished.
    Finished,
    /// The pipeline has failed.
    Failed,
    /// A warning, or something else.
    Other,
}

/// What to do next.
#[derive(Clone, Copy, Debug, PartialEq, Eq, Structural)]
pub enum BusStep {
    /// Wait for a report, so many milliseconds.
    Wait(u64),
    Succeed,
    Fail,
    /// The pipeline has taken too long.
    GiveUp,
}

/// What to do on a report, or on none, at a time.
pub open spec fn bus_reply(now: u64, event: Option<BusEvent>) -> BusStep {
    match event {
        Some(BusEvent::Finished) => BusStep::Succeed,
        Some(BusEvent::Failed) => BusStep::Fail,
        _ => if now >= FRAME_LIMIT_NS {
            BusStep::GiveUp
        } else {
            BusStep::Wait(((FRAME_LIMIT_NS - now) / 1_000_000) as u64)
        },
    }
}

/// What to do on a report, or on none, `now` being the time since the frame was
/// given to the pipeline.
pub fn bus_step(now: u64, event: Option<BusEvent>) -> (s: BusStep)
    ensures
        s == match event {
            Some(BusEvent::Finished) => BusStep::Succeed,
            Some(BusEvent::Failed) => BusStep::Fail,
            _ => if now >= FRAME_LIMIT_NS {
                BusStep::GiveUp
            } else {
                BusStep::Wait(((FRAME_LIMIT_NS - now) / 1_000_000) as u64)
            },
        },
        s == bus_reply(now, event),
{
    match event {
        Some(BusEvent::Finished) => BusStep::Succeed,
        Some(BusEvent::Failed) => BusStep::Fail,
        _ => if now >= FRAME_LIMIT_NS {
            BusStep::GiveUp
        } else {
            BusStep::Wait((FRAME_LIMIT_NS - now) / 1_000_000)
        },
    }
}

/// The parts of a region on outputs with whole scales do not leave the canvas, and
/// each takes as many of its output's pixels as its scale says.
pub proof fn scaled_parts_fit(o: ScaledOutput, r: (i32, i32, u32, u32), target: u32)
    requires
        o.wf(),
        target >= 1,
        r.0 + r.2 <= i32::MAX,
        r.1 + r.3 <= i32::MAX,
        r.2 * target <= u32::MAX,
        r.3 * target <= u32::MAX,
        scaled_part(o, region_rect(r), target) is Some,
    ensures
        ({
            let p = scaled_part(o, region_rect(r), target)->0;
            &&& p.dst_pos.0 + p.dst_size.0 <= r.2 * target
            &&& p.dst_pos.1 + p.dst_size.1 <= r.3 * target
            &&& p.src_crop.w * target == p.dst_size.0 * o.scale
            &&& p.src_crop.h * target == p.dst_size.1 * o.scale
        }),
{
    let region = region_rect(r);
    let i = outputs::intersection(o.rect(), region);
    let (w, h) = (i.right - i.left, i.bottom - i.top);
    let (x, y) = (i.left - region.left, i.top - region.top);
    lemma_within(w, o.size.0 as int, o.scale as int);
    lemma_within(h, o.size.1 as int, o.scale as int);
    lemma_within(x + w, r.2 as int, target as int);
    lemma_within(y + h, r.3 as int, target as int);
    lemma_within(x, r.2 as int, target as int);
    lemma_within(y, r.3 as int, target as int);
    lemma_within(w, r.2 as int, target as int);
    lemma_within(h, r.3 as int, target as int);
    assert((x + w) * target == x * target + w * target) by (nonlinear_arith);
    assert((y + h) * target == y * target + h * target) by (nonlinear_arith);
    assert((w * o.scale) * target == (w * target) * o.scale) by (nonlinear_arith);
    assert((h * o.scale) * target == (h * target) * o.scale) by (nonlinear_arith);
}

/// What is cut off a text's ends is white space, and all of it: from place `r.0` up to place
/// `r.1` it stays.
pub proof fn trimming_cuts_white_space_alone(s: Seq<char>) -> (r: (int, int))
    ensures
        0 <= r.0 <= r.1 <= s.len(),
        trimmed(s) == s.subrange(r.0, r.1),
        forall|i: int| 0 <= i < r.0 ==> is_space(#[trigger] s[i]),
        forall|i: int| r.1 <= i < s.len() ==> is_space(#[trigger] s[i]),
        r.0 < r.1 ==> !is_space(s[r.0]) && !is_space(s[r.1 - 1]),
    decreases s.len(),
{
    if s.len() == 0 {
        assert(s.subrange(0, 0) =~= s);
        (0, 0)
    } else if is_space(s[0]) {
        let t = s.drop_first();
        let (a, b) = trimming_cuts_white_space_alone(t);
        assert(t.subrange(a, b) =~= s.subrange(a + 1, b + 1));
        assert forall|i: int| 0 <= i < a + 1 implies is_space(#[trigger] s[i]) by {
            if i > 0 {
                assert(t[i - 1] == s[i]);
            }
        }
        assert forall|i: int| b + 1 <= i < s.len() implies is_space(#[trigger] s[i]) by {
            assert(t[i - 1] == s[i]);
        }
        (a + 1, b + 1)
    } else if is_space(s.last()) {
        let t = s.drop_last();
        let (a, b) = trimming_cuts_white_space_alone(t);
        assert(t.subrange(a, b) =~= s.subrange(a, b));
        assert forall|i: int| 0 <= i < a implies is_space(#[trigger] s[i]) by {
            assert(t[i] == s[i]);
        }
        assert forall|i: int| b <= i < s.len() implies is_space(#[trigger] s[i]) by {
            if i < t.len() {
                assert(t[i] == s[i]);
            }
        }
        (a, b)
    } else {
        assert(s.subrange(0, s.len() as int) =~= s);
        (0, s.len() as int)
    }
}

/// A number as it is written: in decimal, with a sign before it where it is negative.
pub open spec fn signed(v: int) -> Seq<char> {
    if v < 0 {
        seq!['-'] + text::decimal((-v) as nat)
    } else {
        text::decimal(v as nat)
    }
}

proof fn lemma_digits_read_back(n: nat)
    ensures
        digits_value(text::decimal(n)) == n,
        all_digits(text::decimal(n)),
        text::decimal(n).len() >= 1,
    decreases n,
{
    text::decimals_read_back(n);
    let d = text::decimal(n);
    if n >= 10 {
        lemma_digits_read_back(n / 10);
        assert(d.drop_last() =~= text::decimal(n / 10));
        assert(d.last() == text::digit(n % 10));
    } else {
        assert(d.drop_last() =~= Seq::empty());
        assert(d.last() == text::digit(n));
        assert(digits_value(d.drop_last()) == 0);
    }
}

/// A 64 bit number that is written out reads back.
pub proof fn numbers_read_back(v: int)
    requires
        i64::MIN <= v <= i64::MAX,
    ensures
        number(signed(v)) == Some(v),
        number(trimmed(signed(v))) == Some(v),
        v >= 0 ==> number(seq!['+'] + signed(v)) == Some(v),
        forall|i: int| 0 <= i < signed(v).len() ==> signed(v)[i] != ',',
{
    let n = if v < 0 {
        (-v) as nat
    } else {
        v as nat
    };
    let d = text::decimal(n);
    lemma_digits_read_back(n);
    let s = signed(v);
    assert((seq!['-'] + d).drop_first() =~= d);
    assert((seq!['+'] + d).drop_first() =~= d);
    assert(is_digit(d[0]) && is_digit(d.last()));
    assert(!is_space(s[0]));
    assert(s.last() == d.last());
    assert(!is_space(s.last()));
    assert(trimmed(s) == s);
    assert forall|i: int| 0 <= i < s.len() implies s[i] != ',' by {
        if v < 0 {
            if i > 0 {
                assert(s[i] == d[i - 1]);
                assert(is_digit(d[i - 1]));
            }
        } else {
            assert(is_digit(d[i]));
        }
    }
}

proof fn lemma_comma_at(a: Seq<char>, rest: Seq<char>)
    requires
        forall|i: int| 0 <= i < a.len() ==> a[i] != ',',
    ensures
        first_comma(a + seq![','] + rest) == a.len(),
    decreases a.len(),
{
    let s = a + seq![','] + rest;
    if a.len() > 0 {
        let b = a.drop_first();
        assert(s.drop_first() =~= b + seq![','] + rest);
        assert forall|i: int| 0 <= i < b.len() implies b[i] != ',' by {
            assert(b[i] == a[i + 1]);
        }
        lemma_comma_at(b, rest);
        assert(s[0] == a[0]);
    } else {
        assert(s[0] == ',');
    }
}

/// A text is parted at its commas: what stands before the first of them comes first, and
/// what stands behind it is parted in turn. One without commas is whole.
pub proof fn texts_are_parted_at_their_commas(a: Seq<char>, rest: Seq<char>)
    requires
        forall|i: int| 0 <= i < a.len() ==> a[i] != ',',
    ensures
        components(a + seq![','] + rest) == seq![a] + components(rest),
        components(a) == seq![a],
{
    let s = a + seq![','] + rest;
    lemma_comma_at(a, rest);
    assert(s.take(a.len() as int) =~= a);
    assert(s.skip(a.len() as int + 1) =~= rest);
    lemma_first_comma(a);
}

/// Four numbers with commas between them are read in their order: left, top, width and
/// height. They make a region where the width and the height are above zero; where one is
/// not, that is said.
pub proof fn regions_read_back(x: i32, y: i32, w: i64, h: i64)
    requires
        w <= u32::MAX,
        h <= u32::MAX,
    ensures
        ({
            let c = seq![','];
            let s = signed(x as int) + c + (signed(y as int) + c + (signed(w as int) + c + signed(
                h as int,
            )));
            if w > 0 && h > 0 {
                region_of(s) matches Ok(r) && r.0 == x && r.1 == y && r.2 == w && r.3 == h
            } else {
                region_of(s) == Err::<(i32, i32, u32, u32), RegionError>(RegionError::Extent)
            }
        }),
{
    let c = seq![','];
    let (a, b, d, e) = (signed(x as int), signed(y as int), signed(w as int), signed(h as int));
    numbers_read_back(x as int);
    numbers_read_back(y as int);
    numbers_read_back(w as int);
    numbers_read_back(h as int);
    let s3 = d + c + e;
    let s2 = b + c + s3;
    let s1 = a + c + s2;
    texts_are_parted_at_their_commas(a, s2);
    texts_are_parted_at_their_commas(b, s3);
    texts_are_parted_at_their_commas(d, e);
    texts_are_parted_at_their_commas(e, e);
    let p4 = seq![e];
    let p3 = seq![d] + p4;
    let p2 = seq![b] + p3;
    let p1 = seq![a] + p2;
    assert(components(s1) == p1);
    assert(p1.drop_first() =~= p2);
    assert(p2.drop_first() =~= p3);
    assert(p3.drop_first() =~= p4);
    assert(p4.drop_first() =~= Seq::empty());
    let none: Seq<int> = Seq::empty();
    assert(numbers(p4.drop_first()) == Some(none));
    assert(numbers(p4) == Some(seq![h as int] + none));
    assert(numbers(p3) == Some(seq![w as int] + (seq![h as int] + none)));
    assert(numbers(p2) == Some(seq![y as int] + (seq![w as int] + (seq![h as int] + none))));
    let n = seq![x as int] + (seq![y as int] + (seq![w as int] + (seq![h as int] + none)));
    assert(numbers(p1) == Some(n));
    assert(n.len() == 4 && n[0] == x && n[1] == y && n[2] == w && n[3] == h);
}

/// The canvas is as dense as the densest output that the region touches, and no denser.
pub proof fn the_canvas_is_as_dense_as_the_densest(outs: Seq<ScaledOutput>, region: Rect)
    ensures
        top_scale(outs, region) >= 1,
        forall|i: int|
            0 <= i < outs.len() && outputs::nonempty(
                outputs::intersection((#[trigger] outs[i]).rect(), region),
            ) ==> outs[i].scale <= top_scale(outs, region),
        top_scale(outs, region) == 1 || exists|i: int|
            0 <= i < outs.len() && outputs::nonempty(
                outputs::intersection((#[trigger] outs[i]).rect(), region),
            ) && outs[i].scale == top_scale(outs, region),
    decreases outs.len(),
{
    if outs.len() > 0 {
        let init = outs.drop_last();
        let n = outs.len() - 1;
        the_canvas_is_as_dense_as_the_densest(init, region);
        assert(outs.last() == outs[n]);
        assert forall|i: int|
            0 <= i < outs.len() && outputs::nonempty(
                outputs::intersection((#[trigger] outs[i]).rect(), region),
            ) implies outs[i].scale <= top_scale(outs, region) by {
            if i < n {
                assert(init[i] == outs[i]);
            }
        }
        if top_scale(outs, region) != 1 && top_scale(outs, region) == top_scale(init, region) {
            let i = choose|i: int|
                0 <= i < init.len() && outputs::nonempty(
                    outputs::intersection((#[trigger] init[i]).rect(), region),
                ) && init[i].scale == top_scale(init, region);
            assert(outs[i] == init[i]);
        }
    }
}

/// A part of the canvas shows what lies there: where the part begins on the output, scaled,
/// it begins on the canvas, and it reaches over all that the output and the region
/// share.
pub proof fn scaled_parts_lie_where_their_outputs_do(
    o: ScaledOutput,
    r: (i32, i32, u32, u32),
    target: u32,
    x: int,
    y: int,
)
    requires
        o.wf(),
        target >= 1,
        r.0 + r.2 <= i32::MAX,
        r.1 + r.3 <= i32::MAX,
        r.2 * target <= u32::MAX,
        r.3 * target <= u32::MAX,
        r.0 <= x < r.0 + r.2,
        r.1 <= y < r.1 + r.3,
        o.pos.0 <= x < o.pos.0 + o.size.0,
        o.pos.1 <= y < o.pos.1 + o.size.1,
    ensures
        scaled_part(o, region_rect(r), target) matches Some(p) && {
            &&& p.output_name == o.name
            &&& p.dst_pos.0 <= (x - r.0) * target < p.dst_pos.0 + p.dst_size.0
            &&& p.dst_pos.1 <= (y - r.1) * target < p.dst_pos.1 + p.dst_size.1
            &&& p.src_crop.x <= (x - o.pos.0) * o.scale < p.src_crop.x + p.src_crop.w
            &&& p.src_crop.y <= (y - o.pos.1) * o.scale < p.src_crop.y + p.src_crop.h
            &&& p.src_crop.x * target - p.dst_pos.0 * o.scale == (r.0 - o.pos.0) * target * o.scale
            &&& p.src_crop.y * target - p.dst_pos.1 * o.scale == (r.1 - o.pos.1) * target * o.scale
        },
{
    let region = region_rect(r);
    let i = outputs::intersection(o.rect(), region);
    let (w, h) = (i.right - i.left, i.bottom - i.top);
    let (u, v) = (i.left - region.left, i.top - region.top);
    let (a, b) = (i.left - o.rect().left, i.top - o.rect().top);
    let (s, t) = (o.scale as int, target as int);
    lemma_within(w, o.size.0 as int, s);
    lemma_within(h, o.size.1 as int, s);
    lemma_within(a, o.size.0 as int, s);
    lemma_within(b, o.size.1 as int, s);
    lemma_within(u, r.2 as int, t);
    lemma_within(v, r.3 as int, t);
    lemma_within(w, r.2 as int, t);
    lemma_within(h, r.3 as int, t);
    lemma_inside(x - r.0, u, w, t);
    lemma_inside(y - r.1, v, h, t);
    lemma_inside(x - o.pos.0, a, w, s);
    lemma_inside(y - o.pos.1, b, h, s);
    assert(a * s * t - u * t * s == (r.0 - o.pos.0) * t * s) by (nonlinear_arith)
        requires
            a - u == r.0 - o.pos.0,
    ;
    assert(b * s * t - v * t * s == (r.1 - o.pos.1) * t * s) by (nonlinear_arith)
        requires
            b - v == r.1 - o.pos.1,
    ;
}

proof fn lemma_inside(x: int, from: int, extent: int, scale: int)
    requires
        from <= x < from + extent,
        scale >= 1,
    ensures
        from * scale <= x * scale < from * scale + extent * scale,
{
    assert(from * scale <= x * scale < from * scale + extent * scale) by (nonlinear_arith)
        requires
            from <= x < from + extent,
            scale >= 1,
    ;
}

/// Every output that shares some of the region has its part.
pub proof fn every_scaled_output_has_its_part(
    outs: Seq<ScaledOutput>,
    region: Rect,
    target: u32,
    i: int,
)
    requires
        0 <= i < outs.len(),
        scaled_part(outs[i], region, target) is Some,
    ensures
        scaled_parts(outs, region, target).contains(scaled_part(outs[i], region, target)->0),
    decreases outs.len(),
{
    let init = outs.drop_last();
    let before = scaled_parts(init, region, target);
    let after = scaled_parts(outs, region, target);
    let p = scaled_part(outs[i], region, target)->0;
    if i == outs.len() - 1 {
        assert(after[before.len() as int] == p);
    } else {
        every_scaled_output_has_its_part(init, region, target, i);
        let k = choose|k: int| 0 <= k < before.len() && before[k] == p;
        assert(after[k] == p);
    }
}

/// Every part is an output's.
pub proof fn every_scaled_part_is_an_outputs(
    outs: Seq<ScaledOutput>,
    region: Rect,
    target: u32,
    k: int,
)
    requires
        0 <= k < scaled_parts(outs, region, target).len(),
    ensures
        exists|i: int|
            0 <= i < outs.len() && scaled_part(#[trigger] outs[i], region, target) == Some(
                scaled_parts(outs, region, target)[k],
            ),
    decreases outs.len(),
{
    if outs.len() > 0 {
        let init = outs.drop_last();
        let before = scaled_parts(init, region, target);
        let after = scaled_parts(outs, region, target);
        if k < before.len() {
            every_scaled_part_is_an_outputs(init, region, target, k);
            let i = choose|i: int|
                0 <= i < init.len() && scaled_part(#[trigger] init[i], region, target) == Some(
                    before[k],
                );
            assert(outs[i] == init[i]);
            assert(after[k] == before[k]);
        } else {
            assert(outs[outs.len() - 1] == outs.last());
        }
    }
}

/// Red and blue change places, twice is not at all, and a byte stays in its pixel.
pub proof fn red_and_blue_change_places(b: int)
    ensures
        swapped(swapped(b)) == b,
        swapped(b) / 4 == b / 4,
        b % 4 == 0 <==> swapped(b) % 4 == 2,
        b % 4 == 1 || b % 4 == 3 ==> swapped(b) == b,
{
}

/// A quotation mark in a quoted text has a backslash before it; a text without one stays as
/// it is, and texts are quoted piece by piece.
pub proof fn quotation_marks_are_escaped(a: Seq<char>, b: Seq<char>)
    ensures
        quoted(a + b) == quoted(a) + quoted(b),
        forall|i: int|
            0 <= i < quoted(a).len() && #[trigger] quoted(a)[i] == '"' ==> i > 0 && quoted(a)[i - 1]
                == '\\',
        (forall|i: int| 0 <= i < a.len() ==> a[i] != '"') ==> quoted(a) == a,
    decreases a.len() + b.len(),
{
    if b.len() > 0 {
        let init = b.drop_last();
        quotation_marks_are_escaped(a, init);
        assert((a + b).drop_last() =~= a + init);
        assert((a + b).last() == b.last());
        assert(quoted(a + b) =~= quoted(a) + quoted(b));
    } else {
        assert(a + b =~= a);
        assert(quoted(a) + quoted(b) =~= quoted(a));
        if a.len() > 0 {
            let init = a.drop_last();
            quotation_marks_are_escaped(init, b);
            let (q, before) = (quoted(a), quoted(init));
            assert forall|i: int| 0 <= i < q.len() && #[trigger] q[i] == '"' implies i > 0 && q[i - 1]
                == '\\' by {
                if i < before.len() {
                    assert(q[i] == before[i]);
                    assert(q[i - 1] == before[i - 1]);
                }
            }
            if forall|i: int| 0 <= i < a.len() ==> a[i] != '"' {
                assert forall|i: int| 0 <= i < init.len() implies init[i] != '"' by {
                    assert(init[i] == a[i]);
                }
                assert(a[a.len() - 1] != '"');
                assert(quoted(a) =~= a);
            }
        }
    }
}

/// The pipeline of a frame ends in the file that was asked for, in quotation marks.
pub proof fn a_frame_ends_in_its_file(location: Seq<char>)
    ensures
        text::ends(frame_pipeline(location), "location=\""@ + quoted(location) + "\""@),
{
    let head =
        "appsrc name=src is-live=false format=time ! vapostproc ! video/x-raw,format=RGBA ! videoconvert ! pngenc ! filesink location=\""@;
    reveal_strlit(
        "appsrc name=src is-live=false format=time ! vapostproc ! video/x-raw,format=RGBA ! videoconvert ! pngenc ! filesink location=\"",
    );
    reveal_strlit("location=\"");
    assert(head.skip(head.len() - 10) =~= "location=\""@);
    assert(text::ends(head, "location=\""@));
    text::lemma_ends_on(head, "location=\""@, quoted(location));
    text::lemma_ends_on(
        head + quoted(location),
        "location=\""@ + quoted(location),
        "\""@,
    );
}

/// A pipeline that reports its end is waited for no longer, whatever the time; one that does
/// not is waited for up to ten seconds, to the millisecond, and then given up.
pub proof fn a_frame_is_waited_for_until_its_limit(now: u64, event: Option<BusEvent>)
    ensures
        ({
            let s = bus_reply(now, event);
            &&& s == BusStep::Succeed <==> event == Some(BusEvent::Finished)
            &&& s == BusStep::Fail <==> event == Some(BusEvent::Failed)
            &&& s == BusStep::GiveUp ==> now >= 10_000_000_000
            &&& s matches BusStep::Wait(ms) ==> now + ms * 1_000_000 <= 10_000_000_000 && now + (ms
                + 1) * 1_000_000 > 10_000_000_000
        }),
{
}

} // verus!
