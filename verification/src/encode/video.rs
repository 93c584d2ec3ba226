//! The recording pipeline for frames in memory: raw frames in, an encoded file
//! out.
use crate::capture::pipewire_capture;
use crate::capture::pipewire_capture::StreamFormat;
use crate::cli;
use crate::cli::{VideoContainer, VideoEncoder};
use crate::encode::audio;
use crate::encode::plugins;
use crate::encode::plugins::Plugins;
use crate::text;
use vstd::prelude::*;

verus! {

/// A rectangle in a source's physical pixels.
#[derive(Clone, Copy, Debug, PartialEq, Eq, Structural)]
pub struct CropRect {
    pub x: i32,
    pub y: i32,
    pub w: u32,
    pub h: u32,
}

/// What a crop takes off each side of a source.
#[derive(Clone, Copy, Debug, PartialEq, Eq, Structural)]
pub struct CropProps {
    pub top: u32,
    pub left: u32,
    pub right: u32,
    pub bottom: u32,
}

/// Where a span that starts at `at` begins on an axis of `size` pixels.
pub open spec fn span_start(at: int, size: int) -> int {
    if at < 0 {
        0
    } else if at > size {
        size
    } else {
        at
    }
}

/// How much of a span is kept: what is inside the axis, made even by leaving out
/// its last pixel.
pub open spec fn span_kept(at: int, len: int, size: int) -> int {
    let inside = if len < size - span_start(at, size) {
        len
    } else {
        size - span_start(at, size)
    };
    inside - inside % 2
}

/// The source's extents are signed 32 bit ones, and so a span's end is an
/// unsigned one.
pub open spec fn crop_measurable(c: CropRect, src_w: u32, src_h: u32) -> bool {
    &&& src_w <= i32::MAX
    &&& src_h <= i32::MAX
    &&& span_start(c.x as int, src_w as int) + c.w <= u32::MAX
    &&& span_start(c.y as int, src_h as int) + c.h <= u32::MAX
}

fn saturating_difference(a: u32, b: u32) -> (r: u32)
    ensures
        r == (if a < b {
            0
        } else {
            a - b
        }),
{
    if a < b {
        0
    } else {
        a - b
    }
}

impl CropRect {
    /// What the crop takes off each side of a source of the given size.
    pub open spec fn props(self, src_w: int, src_h: int) -> CropProps {
        let left = span_start(self.x as int, src_w);
        let top = span_start(self.y as int, src_h);
        CropProps {
            top: top as u32,
            left: left as u32,
            right: (src_w - left - span_kept(self.x as int, self.w as int, src_w)) as u32,
            bottom: (src_h - top - span_kept(self.y as int, self.h as int, src_h)) as u32,
        }
    }

    /// Whether anything of the source is left.
    pub open spec fn keeps_any(self, src_w: int, src_h: int) -> bool {
        span_kept(self.x as int, self.w as int, src_w) > 0 && span_kept(
            self.y as int,
            self.h as int,
            src_h,
        ) > 0
    }

    /// What the crop takes off each side of a source, with extents made even as
    /// the encoder's colour planes need them.
    pub fn to_crop_props(self, src_w: u32, src_h: u32) -> (p: CropProps)
        requires
            crop_measurable(self, src_w, src_h),
        ensures
            p == self.props(src_w as int, src_h as int),
            p.left + p.right + span_kept(self.x as int, self.w as int, src_w as int) == src_w,
            p.top + p.bottom + span_kept(self.y as int, self.h as int, src_h as int) == src_h,
            (src_w - p.left - p.right) % 2 == 0,
            (src_h - p.top - p.bottom) % 2 == 0,
    {
        let (left, right) = axis_props(self.x, self.w, src_w);
        let (top, bottom) = axis_props(self.y, self.h, src_h);
        CropProps { top, left, right, bottom }
    }
}

fn axis_props(at: i32, len: u32, size: u32) -> (r: (u32, u32))
    requires
        size <= i32::MAX,
        span_start(at as int, size as int) + len <= u32::MAX,
    ensures
        r.0 == span_start(at as int, size as int),
        r.0 + r.1 + span_kept(at as int, len as int, size as int) == size,
{
    let first: u32 = if at < 0 {
        0
    } else if at as u32 > size {
        size
    } else {
        at as u32
    };
    let mut last: u32 = saturating_difference(size, first + len);
    let out: u32 = saturating_difference(size, first + last);
    if out % 2 == 1 {
        last = last + 1;
    }
    (first, last)
}

/// A cropped recording has even extents.
pub proof fn crops_are_even(at: int, len: int, size: int)
    requires
        0 <= len,
        0 <= size,
    ensures
        span_kept(at, len, size) % 2 == 0,
        0 <= span_kept(at, len, size) <= size - span_start(at, size),
        span_kept(at, len, size) <= len,
{
}

/// The sides of a crop as properties of the crop element.
pub open spec fn props_text(p: CropProps) -> Seq<char> {
    "top="@ + text::decimal(p.top as nat) + " left="@ + text::decimal(p.left as nat) + " right="@
        + text::decimal(p.right as nat) + " bottom="@ + text::decimal(p.bottom as nat) + " "@
}

fn push_props(s: &mut String, p: &CropProps)
    ensures
        final(s)@ == old(s)@ + props_text(*p),
{
    let ghost was = s@;
    s.append("top=");
    text::push_decimal(s, p.top as u64);
    s.append(" left=");
    text::push_decimal(s, p.left as u64);
    s.append(" right=");
    text::push_decimal(s, p.right as u64);
    s.append(" bottom=");
    text::push_decimal(s, p.bottom as u64);
    s.append(" ");
    assert(s@ =~= was + props_text(*p));
}

/// The crop stage of a recording; nothing where there is no crop, or where it
/// leaves nothing of the source.
pub open spec fn named_crop(crop: Option<CropRect>, w: u32, h: u32) -> Seq<char> {
    match crop {
        Some(c) => if c.keeps_any(w as int, h as int) {
            "! videocrop name=crop "@ + props_text(c.props(w as int, h as int))
        } else {
            Seq::empty()
        },
        None => Seq::empty(),
    }
}

fn named_crop_str(crop: &Option<CropRect>, w: u32, h: u32) -> (s: String)
    requires
        crop is Some ==> crop_measurable(crop->0, w, h),
    ensures
        s@ == named_crop(*crop, w, h),
{
    match crop {
        Some(c) => {
            let p = c.to_crop_props(w, h);
            let out_w: u32 = saturating_difference(w, p.left + p.right);
            let out_h: u32 = saturating_difference(h, p.top + p.bottom);
            if out_w == 0 || out_h == 0 {
                String::new()
            } else {
                let mut s = text::owned("! videocrop name=crop ");
                push_props(&mut s, &p);
                s
            }
        },
        None => String::new(),
    }
}

/// The crop stage for a source of known size; for one of unknown size the crop's
/// corner and the size that is asked for.
pub open spec fn crop_text(crop: Option<CropRect>, size: Option<(u32, u32)>) -> Seq<char> {
    match crop {
        Some(c) => match size {
            Some((w, h)) => if c.keeps_any(w as int, h as int) {
                "! videocrop "@ + props_text(c.props(w as int, h as int))
            } else {
                Seq::empty()
            },
            None => "! videocrop top="@ + text::decimal(
                if c.y < 0 {
                    0
                } else {
                    c.y as nat
                },
            ) + " left="@ + text::decimal(
                if c.x < 0 {
                    0
                } else {
                    c.x as nat
                },
            ) + " right=0 bottom=0 ! video/x-raw,width="@ + text::decimal(c.w as nat) + ",height="@
                + text::decimal(c.h as nat) + " "@,
        },
        None => Seq::empty(),
    }
}

/// The crop stage of an animated image.
pub fn build_crop_str(crop: Option<CropRect>, source_size: Option<(u32, u32)>) -> (s: String)
    requires
        crop is Some && source_size is Some ==> crop_measurable(
            crop->0,
            (source_size->0).0,
            (source_size->0).1,
        ),
    ensures
        s@ == crop_text(crop, source_size),
{
    match crop {
        Some(c) => match source_size {
            Some((w, h)) => {
                let p = c.to_crop_props(w, h);
                let out_w: u32 = saturating_difference(w, p.left + p.right);
                let out_h: u32 = saturating_difference(h, p.top + p.bottom);
                if out_w == 0 || out_h == 0 {
                    String::new()
                } else {
                    let mut s = text::owned("! videocrop ");
                    push_props(&mut s, &p);
                    s
                }
            },
            None => {
                let mut s = text::owned("! videocrop top=");
                let t: i32 = if c.y < 0 { 0 } else { c.y };
                let l: i32 = if c.x < 0 { 0 } else { c.x };
                text::push_decimal(&mut s, t as u64);
                s.append(" left=");
                text::push_decimal(&mut s, l as u64);
                s.append(" right=0 bottom=0 ! video/x-raw,width=");
                text::push_decimal(&mut s, c.w as u64);
                s.append(",height=");
                text::push_decimal(&mut s, c.h as u64);
                s.append(" ");
                s
            },
        },
        None => String::new(),
    }
}

/// Text with backslashes and quotes escaped.
pub open spec fn escaped(s: Seq<char>) -> Seq<char>
    decreases s.len(),
{
    if s.len() == 0 {
        Seq::empty()
    } else {
        let before = escaped(s.drop_last());
        let c = s.last();
        if c == '\\' || c == '"' {
            before.push('\\').push(c)
        } else {
            before.push(c)
        }
    }
}

/// Text as one quoted word of a pipeline description.
pub open spec fn quoted(s: Seq<char>) -> Seq<char> {
    seq!['"'] + escaped(s) + seq!['"']
}

/// Text as one quoted word of a pipeline description.
pub fn escape_for_gst(s: &str) -> (r: String)
    ensures
        r@ == quoted(s@),
{
    let mut r = String::new();
    r.push('"');
    let n: usize = s.unicode_len();
    let mut i: usize = 0;
    assert(r@ =~= seq!['"'] + escaped(s@.take(0)));
    while i < n
        invariant
            i <= n,
            n == s@.len(),
            r@ == seq!['"'] + escaped(s@.take(i as int)),
        decreases n - i,
    {
        let c: char = s.get_char(i);
        assert(s@.take(i + 1).drop_last() =~= s@.take(i as int));
        let ghost was = r@;
        if c == '\\' || c == '"' {
            r.push('\\');
        }
        r.push(c);
        assert(r@ =~= seq!['"'] + escaped(s@.take(i + 1)));
        i = i + 1;
    }
    assert(s@.take(n as int) =~= s@);
    let ghost was = r@;
    r.push('"');
    assert(r@ =~= was + seq!['"']);
    r
}

/// Escaping loses nothing: two texts that are escaped alike are alike.
pub proof fn escaping_is_injective(a: Seq<char>, b: Seq<char>)
    requires
        escaped(a) == escaped(b),
    ensures
        a == b,
    decreases a.len() + b.len(),
{
    if a.len() == 0 {
        if b.len() > 0 {
            assert(escaped(b).len() > 0);
        }
        assert(a =~= b);
    } else if b.len() == 0 {
        assert(escaped(a).len() > 0);
    } else {
        let (x, y) = (escaped(a), escaped(b));
        assert(x.last() == a.last());
        assert(y.last() == b.last());
        let (p, q) = (escaped(a.drop_last()), escaped(b.drop_last()));
        if a.last() == '\\' || a.last() == '"' {
            assert(x.drop_last().drop_last() =~= p);
            assert(y.drop_last().drop_last() =~= q);
        } else {
            assert(x.drop_last() =~= p);
            assert(y.drop_last() =~= q);
        }
        escaping_is_injective(a.drop_last(), b.drop_last());
        assert(a =~= a.drop_last().push(a.last()));
        assert(b =~= b.drop_last().push(b.last()));
    }
}

/// The source of a pipeline, fed frame by frame, and a short queue behind it.
pub const SOURCE_STAGE: &'static str = "appsrc name=src is-live=true format=time do-timestamp=true ! queue max-size-buffers=4 max-size-bytes=0 max-size-time=0 leaky=downstream ";

/// A short queue that drops what comes too fast.
pub const QUEUE_STAGE: &'static str = "! queue max-size-buffers=4 max-size-bytes=0 max-size-time=0 leaky=downstream ";

/// The encoder of a recording.
pub open spec fn encoder_text(container: VideoContainer, encoder: VideoEncoder, p: Plugins) -> Seq<
    char,
> {
    match container {
        VideoContainer::WebM => plugins::webm_encoder(p),
        _ => cli::chosen_encoder(encoder, p),
    }
}

/// The parser that a container needs between encoder and muxer.
pub open spec fn parser_text(container: VideoContainer) -> Seq<char> {
    match container {
        VideoContainer::WebM => ""@,
        _ => "h264parse !"@,
    }
}

/// The muxer of a container.
pub open spec fn muxer_text(container: VideoContainer) -> Seq<char> {
    match container {
        VideoContainer::Mp4 => "mp4mux faststart=true"@,
        VideoContainer::Mkv => "matroskamux"@,
        VideoContainer::WebM => "webmmux"@,
    }
}

/// The whole pipeline of a recording.
pub open spec fn video_pipeline(
    format: StreamFormat,
    output: Seq<char>,
    fps: u32,
    container: VideoContainer,
    encoder: VideoEncoder,
    mic: bool,
    system: bool,
    crop: Option<CropRect>,
    p: Plugins,
) -> Seq<char> {
    SOURCE_STAGE@ + "! videorate drop-only=true max-rate="@ + text::decimal(fps as nat)
        + " ! video/x-raw,framerate="@ + text::decimal(fps as nat) + "/1 "@ + named_crop(
        crop,
        format.width,
        format.height,
    ) + "! videoconvert "@ + QUEUE_STAGE@ + "! "@ + encoder_text(container, encoder, p) + " ! "@
        + parser_text(container) + " "@ + muxer_text(container)
        + " name=mux ! filesink name=sink location="@ + quoted(output) + " "@ + audio::branch_text(
        mic,
        system,
    )
}

/// The caps of raw frames.
pub open spec fn raw_caps(format: StreamFormat) -> Seq<char> {
    "video/x-raw,format="@ + pipewire_capture::layout_name(format.format) + ",width="@
        + text::decimal(format.width as nat) + ",height="@ + text::decimal(format.height as nat)
        + ",framerate="@ + text::decimal(
        if format.fps < 1 {
            1
        } else {
            format.fps as nat
        },
    ) + "/1"@
}

/// The caps of raw frames.
pub fn raw_caps_str(format: &StreamFormat) -> (s: String)
    ensures
        s@ == raw_caps(*format),
{
    let mut s = text::owned("video/x-raw,format=");
    s.append(pipewire_capture::gst_format_name(format.format));
    s.append(",width=");
    text::push_decimal(&mut s, format.width as u64);
    s.append(",height=");
    text::push_decimal(&mut s, format.height as u64);
    s.append(",framerate=");
    let fps: u32 = if format.fps < 1 { 1 } else { format.fps };
    text::push_decimal(&mut s, fps as u64);
    s.append("/1");
    s
}

/// A recording that no encoder could be found for.
#[derive(Clone, Copy, Debug, PartialEq, Eq, Structural)]
pub struct NoEncoder;

impl NoEncoder {
    /// The message for the user.
    pub fn message(&self) -> (s: String)
        ensures
            s@ == "no H.264 encoder available — install gstreamer plugins (vaapi/nvenc/x264)"@,
    {
        text::owned("no H.264 encoder available — install gstreamer plugins (vaapi/nvenc/x264)")
    }
}

/// A recording's pipeline, and the caps of the frames that go in.
pub struct VideoPlan {
    pub pipeline: String,
    pub caps: String,
}

/// Whether one of the encoders is installed that a recording with a free choice
/// may come to, where its container takes what they make.
pub open spec fn encoder_found(
    encoder: VideoEncoder,
    container: VideoContainer,
    p: Plugins,
) -> bool {
    ||| container == VideoContainer::WebM
    ||| encoder != VideoEncoder::Auto
    ||| p.vah264enc || p.vah264lpenc || p.nvcudah264enc || p.nvh264enc || p.vaapih264enc
        || p.x264enc
}

/// Plans the pipeline of a recording.
pub fn plan_video(
    format: &StreamFormat,
    output: &str,
    fps: u32,
    container: VideoContainer,
    encoder: VideoEncoder,
    mic: bool,
    system: bool,
    crop: Option<CropRect>,
    p: &Plugins,
) -> (r: Result<VideoPlan, NoEncoder>)
    requires
        crop is Some ==> crop_measurable(crop->0, format.width, format.height),
    ensures
        match r {
            Ok(plan) => encoder_found(encoder, container, *p) && plan.caps@ == raw_caps(*format)
                && plan.pipeline@ == video_pipeline(
                *format,
                output@,
                fps,
                container,
                encoder,
                mic,
                system,
                crop,
                *p,
            ),
            Err(_) => !encoder_found(encoder, container, *p),
        },
{
    let enc = match container {
        VideoContainer::WebM => plugins::resolve_webm_encoder(p),
        _ => encoder.resolve(p),
    };
    let (parser, muxer) = match container {
        VideoContainer::Mp4 => ("h264parse !", "mp4mux faststart=true"),
        VideoContainer::Mkv => ("h264parse !", "matroskamux"),
        VideoContainer::WebM => ("", "webmmux"),
    };
    let mut s = text::owned(SOURCE_STAGE);
    s.append("! videorate drop-only=true max-rate=");
    text::push_decimal(&mut s, fps as u64);
    s.append(" ! video/x-raw,framerate=");
    text::push_decimal(&mut s, fps as u64);
    s.append("/1 ");
    s.append(named_crop_str(&crop, format.width, format.height).as_str());
    s.append("! videoconvert ");
    s.append(QUEUE_STAGE);
    s.append("! ");
    s.append(enc.as_str());
    s.append(" ! ");
    s.append(parser);
    s.append(" ");
    s.append(muxer);
    s.append(" name=mux ! filesink name=sink location=");
    s.append(escape_for_gst(output).as_str());
    s.append(" ");
    s.append(audio::audio_branch_str(mic, system).as_str());
    let h264: bool = match container {
        VideoContainer::WebM => false,
        _ => true,
    };
    if h264 && encoder == VideoEncoder::Auto {
        let hardware: bool = p.vah264enc || p.vah264lpenc || p.nvcudah264enc || p.nvh264enc
            || p.vaapih264enc;
        if !hardware && !p.x264enc {
            return Err(NoEncoder);
        }
    }
    Ok(VideoPlan { pipeline: s, caps: raw_caps_str(format) })
}

/// A recording is muxed by its container's own muxer, the one that `mux_chain`
/// names.
pub proof fn recordings_have_their_containers_muxer(container: VideoContainer)
    ensures
        muxer_text(container) == cli::container_muxer(container),
{
}

/// Recordings into different containers have different pipelines, whatever else is
/// asked for.
pub proof fn containers_have_their_own_muxers(a: VideoContainer, b: VideoContainer)
    requires
        a != b,
    ensures
        muxer_text(a) != muxer_text(b),
{
    cli::containers_differ(a, b);
}

/// A recording's pipeline does what was asked for: the frame rate is the one asked
/// for, the chosen encoder feeds the container's muxer, that one feeds a file of the
/// name asked for, and the sound asked for comes last.
pub proof fn recordings_are_as_asked_for(
    format: StreamFormat,
    output: Seq<char>,
    fps: u32,
    container: VideoContainer,
    encoder: VideoEncoder,
    mic: bool,
    system: bool,
    crop: Option<CropRect>,
    p: Plugins,
)
    ensures
        ({
            let s = video_pipeline(
                format,
                output,
                fps,
                container,
                encoder,
                mic,
                system,
                crop,
                p,
            );
            let h264 = container != VideoContainer::WebM;
            let encoded = if h264 {
                cli::chosen_encoder(encoder, p) + " ! h264parse ! "@
            } else {
                plugins::webm_encoder(p) + " !  "@
            };
            &&& text::holds(
                s,
                " max-rate="@ + text::decimal(fps as nat) + " ! video/x-raw,framerate="@
                    + text::decimal(fps as nat) + "/1 "@,
            )
            &&& text::holds(
                s,
                "! "@ + encoded + cli::container_muxer(container)
                    + " name=mux ! filesink name=sink location="@ + quoted(output) + " "@,
            )
            &&& text::ends(s, audio::branch_text(mic, system))
        }),
{
    let n = text::decimal(fps as nat);
    let cropped = named_crop(crop, format.width, format.height);
    let enc = encoder_text(container, encoder, p);
    let par = parser_text(container);
    let mux = muxer_text(container);
    let sound = audio::branch_text(mic, system);
    // The frame rate.
    let (r0, r1) = (" max-rate="@, " max-rate="@ + n);
    let r2 = r1 + " ! video/x-raw,framerate="@;
    let r3 = r2 + n;
    let rate = r3 + "/1 "@;
    let t0 = SOURCE_STAGE@ + "! videorate drop-only=true max-rate="@;
    let t1 = t0 + n;
    let t2 = t1 + " ! video/x-raw,framerate="@;
    let t3 = t2 + n;
    let t4 = t3 + "/1 "@;
    lemma_rate_word();
    text::lemma_ends(SOURCE_STAGE@, "! videorate drop-only=true max-rate="@);
    text::lemma_ends_within(t0, "! videorate drop-only=true max-rate="@, r0);
    text::lemma_ends_on(t0, r0, n);
    text::lemma_ends_on(t1, r1, " ! video/x-raw,framerate="@);
    text::lemma_ends_on(t2, r2, n);
    text::lemma_ends_on(t3, r3, "/1 "@);
    let t5 = t4 + cropped;
    let t6 = t5 + "! videoconvert "@;
    let t7 = t6 + QUEUE_STAGE@;
    let t8 = t7 + "! "@;
    let t9 = t8 + enc;
    let t10 = t9 + " ! "@;
    let t11 = t10 + par;
    let t12 = t11 + " "@;
    let t13 = t12 + mux;
    let t14 = t13 + " name=mux ! filesink name=sink location="@;
    let t15 = t14 + quoted(output);
    let t16 = t15 + " "@;
    let s = t16 + sound;
    text::lemma_ends_holds(t4, rate, cropped);
    text::lemma_holds_on(t5, rate, "! videoconvert "@);
    text::lemma_holds_on(t6, rate, QUEUE_STAGE@);
    text::lemma_holds_on(t7, rate, "! "@);
    text::lemma_holds_on(t8, rate, enc);
    text::lemma_holds_on(t9, rate, " ! "@);
    text::lemma_holds_on(t10, rate, par);
    text::lemma_holds_on(t11, rate, " "@);
    text::lemma_holds_on(t12, rate, mux);
    text::lemma_holds_on(t13, rate, " name=mux ! filesink name=sink location="@);
    text::lemma_holds_on(t14, rate, quoted(output));
    text::lemma_holds_on(t15, rate, " "@);
    text::lemma_holds_on(t16, rate, sound);
    // The encoder, the muxer and the file.
    let m0 = "! "@;
    let m1 = m0 + enc;
    let m2 = m1 + " ! "@;
    let m3 = m2 + par;
    let m4 = m3 + " "@;
    let m5 = m4 + mux;
    let m6 = m5 + " name=mux ! filesink name=sink location="@;
    let m7 = m6 + quoted(output);
    let m8 = m7 + " "@;
    text::lemma_ends(t7, m0);
    text::lemma_ends_on(t8, m0, enc);
    text::lemma_ends_on(t9, m1, " ! "@);
    text::lemma_ends_on(t10, m2, par);
    text::lemma_ends_on(t11, m3, " "@);
    text::lemma_ends_on(t12, m4, mux);
    text::lemma_ends_on(t13, m5, " name=mux ! filesink name=sink location="@);
    text::lemma_ends_on(t14, m6, quoted(output));
    text::lemma_ends_on(t15, m7, " "@);
    text::lemma_ends_holds(t16, m8, sound);
    text::lemma_ends(t16, sound);
    lemma_parsed(container, encoder, p);
    assert(s == video_pipeline(format, output, fps, container, encoder, mic, system, crop, p));
}

proof fn lemma_rate_word()
    ensures
        text::ends("! videorate drop-only=true max-rate="@, " max-rate="@),
{
    reveal_strlit("! videorate drop-only=true max-rate=");
    reveal_strlit(" max-rate=");
    let s = "! videorate drop-only=true max-rate="@;
    assert(s.skip(s.len() - " max-rate="@.len()) =~= " max-rate="@);
}

proof fn lemma_parsed(container: VideoContainer, encoder: VideoEncoder, p: Plugins)
    ensures
        ({
            let enc = encoder_text(container, encoder, p);
            let parsed = "! "@ + enc + " ! "@ + parser_text(container) + " "@;
            &&& container == VideoContainer::WebM ==> parsed == "! "@ + (plugins::webm_encoder(p)
                + " !  "@)
            &&& container != VideoContainer::WebM ==> parsed == "! "@ + (cli::chosen_encoder(
                encoder,
                p,
            ) + " ! h264parse ! "@)
        }),
{
    let enc = encoder_text(container, encoder, p);
    let parsed = "! "@ + enc + " ! "@ + parser_text(container) + " "@;
    reveal_strlit(" ! h264parse ! ");
    reveal_strlit(" !  ");
    reveal_strlit(" ! ");
    reveal_strlit("h264parse !");
    reveal_strlit(" ");
    reveal_strlit("");
    if container == VideoContainer::WebM {
        assert(" !  "@ =~= " ! "@ + ""@ + " "@);
        assert(parsed =~= "! "@ + (enc + (" ! "@ + ""@ + " "@)));
    } else {
        assert(" ! h264parse ! "@ =~= " ! "@ + "h264parse !"@ + " "@);
        assert(parsed =~= "! "@ + (enc + (" ! "@ + "h264parse !"@ + " "@)));
    }
}

/// The text that the pipeline's parser makes of a quoted word: a backslash stands
/// for the character behind it, and a quote that stands for itself ends the word.
/// `None` where the word has no end or goes on behind it.
pub open spec fn read_word(s: Seq<char>) -> Option<Seq<char>>
    decreases s.len(),
{
    if s.len() == 0 {
        None
    } else if s[0] == '"' {
        if s.len() == 1 {
            Some(Seq::empty())
        } else {
            None
        }
    } else if s[0] == '\\' {
        if s.len() == 1 {
            None
        } else {
            match read_word(s.skip(2)) {
                Some(rest) => Some(seq![s[1]] + rest),
                None => None,
            }
        }
    } else {
        match read_word(s.skip(1)) {
            Some(rest) => Some(seq![s[0]] + rest),
            None => None,
        }
    }
}

proof fn lemma_read_escaped(s: Seq<char>, rest: Seq<char>, tail: Seq<char>)
    requires
        read_word(tail) == Some(rest),
    ensures
        read_word(escaped(s) + tail) == Some(s + rest),
    decreases s.len(),
{
    if s.len() == 0 {
        assert(escaped(s) + tail =~= tail);
        assert(s + rest =~= rest);
    } else {
        let c = s.last();
        let init = s.drop_last();
        let one = if c == '\\' || c == '"' {
            seq!['\\', c]
        } else {
            seq![c]
        };
        let t = one + tail;
        if c == '\\' || c == '"' {
            assert(t.skip(2) =~= tail);
        } else {
            assert(t.skip(1) =~= tail);
        }
        assert(read_word(t) == Some(seq![c] + rest));
        lemma_read_escaped(init, seq![c] + rest, t);
        assert(escaped(s) + tail =~= escaped(init) + t);
        assert(init + (seq![c] + rest) =~= s + rest);
    }
}

/// A quoted text is one word that reads back as the text, whatever it holds: the file
/// that a pipeline writes is the one asked for.
pub proof fn quoted_text_reads_back(s: Seq<char>)
    ensures
        quoted(s)[0] == '"',
        read_word(quoted(s).skip(1)) == Some(s),
{
    let end = seq!['"'];
    assert(read_word(end) == Some(Seq::<char>::empty()));
    lemma_read_escaped(s, Seq::empty(), end);
    assert(quoted(s).skip(1) =~= escaped(s) + end);
    assert(s + Seq::<char>::empty() =~= s);
}

/// A crop's sides leave the part of the source that was asked for: it starts at the
/// corner asked for, brought into the source, and what stays is what was asked for, as
/// far as the source has it, less one column or row where that is odd.
pub proof fn crops_keep_what_was_asked_for(c: CropRect, w: u32, h: u32)
    requires
        w <= i32::MAX,
        h <= i32::MAX,
    ensures
        ({
            let p = c.props(w as int, h as int);
            let kept_w = w - p.left - p.right;
            let kept_h = h - p.top - p.bottom;
            &&& 0 <= c.x <= w ==> p.left == c.x
            &&& 0 <= c.y <= h ==> p.top == c.y
            &&& c.x < 0 ==> p.left == 0
            &&& c.y < 0 ==> p.top == 0
            &&& 0 <= kept_w <= c.w && 0 <= kept_h <= c.h
            &&& kept_w + 1 >= c.w || kept_w + 1 >= w - p.left
            &&& kept_h + 1 >= c.h || kept_h + 1 >= h - p.top
            &&& (0 <= c.x && c.x + c.w <= w && c.w % 2 == 0) ==> kept_w == c.w
            &&& (0 <= c.y && c.y + c.h <= h && c.h % 2 == 0) ==> kept_h == c.h
        }),
{
}

/// The crop stage names the sides that a crop has, each under its own name.
pub proof fn the_crop_stage_names_its_sides(crop: CropRect, w: u32, h: u32)
    requires
        crop.keeps_any(w as int, h as int),
    ensures
        ({
            let p = crop.props(w as int, h as int);
            let sides = " top="@ + text::decimal(p.top as nat) + " left="@ + text::decimal(
                p.left as nat,
            ) + " right="@ + text::decimal(p.right as nat) + " bottom="@ + text::decimal(
                p.bottom as nat,
            ) + " "@;
            &&& text::holds(named_crop(Some(crop), w, h), "videocrop"@)
            &&& text::holds(named_crop(Some(crop), w, h), sides)
            &&& text::holds(crop_text(Some(crop), Some((w, h))), "videocrop"@ + sides)
        }),
{
    let p = crop.props(w as int, h as int);
    let (a, b, c, d) = (
        text::decimal(p.top as nat),
        text::decimal(p.left as nat),
        text::decimal(p.right as nat),
        text::decimal(p.bottom as nat),
    );
    let rest = props_text(p);
    let sides = " top="@ + a + " left="@ + b + " right="@ + c + " bottom="@ + d + " "@;
    lemma_spaced_sides(p);
    lemma_crop_words();
    assert(named_crop(Some(crop), w, h) == "! videocrop name=crop "@ + rest);
    assert(crop_text(Some(crop), Some((w, h))) == "! videocrop "@ + rest);
    let none = Seq::<char>::empty();
    let named = named_crop(Some(crop), w, h);
    let plain = crop_text(Some(crop), Some((w, h)));
    text::lemma_joined("! videocrop name=crop"@, " "@, rest);
    text::lemma_joined("! videocrop"@, " "@, rest);
    assert(named == "! videocrop name=crop"@ + (" "@ + rest));
    assert(plain == "! videocrop"@ + (" "@ + rest));
    text::lemma_holds_on("! videocrop name=crop"@, "videocrop"@, " "@ + rest);
    assert(named + none =~= named);
    assert(plain + none =~= plain);
    text::lemma_ends("! videocrop name=crop"@, sides);
    text::lemma_ends_holds(named, sides, none);
    text::lemma_ends_on("! videocrop"@, "videocrop"@, sides);
    text::lemma_ends_holds(plain, "videocrop"@ + sides, none);
}

proof fn lemma_crop_words()
    ensures
        "! videocrop name=crop "@ == "! videocrop name=crop"@ + " "@,
        "! videocrop "@ == "! videocrop"@ + " "@,
        text::holds("! videocrop name=crop"@, "videocrop"@),
        text::ends("! videocrop"@, "videocrop"@),
{
    reveal_strlit("! videocrop name=crop ");
    reveal_strlit("! videocrop name=crop");
    reveal_strlit("! videocrop ");
    reveal_strlit("! videocrop");
    reveal_strlit("videocrop");
    reveal_strlit(" ");
    assert("! videocrop name=crop "@ =~= "! videocrop name=crop"@ + " "@);
    assert("! videocrop "@ =~= "! videocrop"@ + " "@);
    assert("! videocrop"@.skip(2) =~= "videocrop"@);
    assert("! videocrop name=crop"@.subrange(2, 11) =~= "videocrop"@);
    assert(text::stands_at("! videocrop name=crop"@, "videocrop"@, 2));
}

proof fn lemma_spaced_sides(p: CropProps)
    ensures
        ({
            let (a, b, c, d) = (
                text::decimal(p.top as nat),
                text::decimal(p.left as nat),
                text::decimal(p.right as nat),
                text::decimal(p.bottom as nat),
            );
            " top="@ + a + " left="@ + b + " right="@ + c + " bottom="@ + d + " "@ == " "@
                + props_text(p)
        }),
{
    let (a, b, c, d) = (
        text::decimal(p.top as nat),
        text::decimal(p.left as nat),
        text::decimal(p.right as nat),
        text::decimal(p.bottom as nat),
    );
    assert(" top="@ =~= " "@ + "top="@) by {
        reveal_strlit(" top=");
        reveal_strlit("top=");
        reveal_strlit(" ");
    }
    let s = " "@;
    let t0 = "top="@;
    let t1 = t0 + a;
    let t2 = t1 + " left="@;
    let t3 = t2 + b;
    let t4 = t3 + " right="@;
    let t5 = t4 + c;
    let t6 = t5 + " bottom="@;
    let t7 = t6 + d;
    text::lemma_joined(s, t0, a);
    text::lemma_joined(s, t1, " left="@);
    text::lemma_joined(s, t2, b);
    text::lemma_joined(s, t3, " right="@);
    text::lemma_joined(s, t4, c);
    text::lemma_joined(s, t5, " bottom="@);
    text::lemma_joined(s, t6, d);
    text::lemma_joined(s, t7, " "@);
}

/// The frames that go in have the stream's size, its layout's name and its rate.
pub proof fn caps_tell_the_streams_format(format: StreamFormat)
    requires
        format.fps >= 1,
    ensures
        text::holds(
            raw_caps(format),
            "format="@ + pipewire_capture::layout_name(format.format) + ",width="@ + text::decimal(
                format.width as nat,
            ) + ",height="@ + text::decimal(format.height as nat) + ",framerate="@ + text::decimal(
                format.fps as nat,
            ) + "/1"@,
        ),
{
    reveal_strlit("video/x-raw,format=");
    reveal_strlit("video/x-raw,");
    reveal_strlit("format=");
    let said = "format="@ + pipewire_capture::layout_name(format.format) + ",width="@
        + text::decimal(format.width as nat) + ",height="@ + text::decimal(format.height as nat)
        + ",framerate="@ + text::decimal(format.fps as nat) + "/1"@;
    let none = Seq::<char>::empty();
    assert(raw_caps(format) =~= "video/x-raw,"@ + said + none);
    text::lemma_holds("video/x-raw,"@, said, none);
}

/// A crop is applied where it leaves pixels along both axes, and only there.
pub proof fn crops_leave_pixels(c: CropRect, w: u32, h: u32)
    requires
        crop_measurable(c, w, h),
    ensures
        ({
            let p = c.props(w as int, h as int);
            c.keeps_any(w as int, h as int) <==> p.left + p.right < w && p.top + p.bottom < h
        }),
{
}

/// A recording can be encoded where some encoder for it is installed, where one was asked
/// for by name, and where WebM has its own.
pub proof fn recordings_need_an_encoder(encoder: VideoEncoder, container: VideoContainer, p: Plugins)
    ensures
        container == VideoContainer::WebM ==> encoder_found(encoder, container, p),
        encoder != VideoEncoder::Auto ==> encoder_found(encoder, container, p),
        container != VideoContainer::WebM && encoder == VideoEncoder::Auto ==> (encoder_found(
            encoder,
            container,
            p,
        ) <==> p.x264enc || exists|i: int|
            0 <= i < plugins::h264_by_rank(p).len() && (#[trigger] plugins::h264_by_rank(p)[i]).1),
{
    let r = plugins::h264_by_rank(p);
    assert(r.len() == 5);
    assert(r[0].1 == p.vah264enc && r[1].1 == p.vah264lpenc && r[2].1 == p.nvcudah264enc && r[3].1
        == p.nvh264enc && r[4].1 == p.vaapih264enc);
}

/// The crop stage for a source of unknown size names the crop's corner, the nearest one
/// that is not negative, and its sides.
pub proof fn the_open_crop_stage_names_the_crop(c: CropRect, x: nat, y: nat)
    requires
        c.x >= 0 ==> x == c.x,
        c.x < 0 ==> x == 0,
        c.y >= 0 ==> y == c.y,
        c.y < 0 ==> y == 0,
    ensures
        text::holds(crop_text(Some(c), None), "top="@ + text::decimal(y) + " left="@),
        text::holds(
            crop_text(Some(c), None),
            " left="@ + text::decimal(x) + " right=0 bottom=0 ! video/x-raw,width="@,
        ),
        text::holds(
            crop_text(Some(c), None),
            ",width="@ + text::decimal(c.w as nat) + ",height="@,
        ),
        text::holds(
            crop_text(Some(c), None),
            ",height="@ + text::decimal(c.h as nat) + " "@,
        ),
{
    let (top, left, open, high) = (
        "! videocrop top="@,
        " left="@,
        " right=0 bottom=0 ! video/x-raw,width="@,
        ",height="@,
    );
    let (dy, dx, dw, dh) = (
        text::decimal(y),
        text::decimal(x),
        text::decimal(c.w as nat),
        text::decimal(c.h as nat),
    );
    reveal_strlit("! videocrop top=");
    reveal_strlit("top=");
    reveal_strlit(" right=0 bottom=0 ! video/x-raw,width=");
    reveal_strlit(",width=");
    let s1 = top + dy;
    let s2 = s1 + left;
    let s3 = s2 + dx;
    let s4 = s3 + open;
    let s5 = s4 + dw;
    let s6 = s5 + high;
    let s7 = s6 + dh;
    let s8 = s7 + " "@;
    assert(crop_text(Some(c), None) == s8);
    assert(top.skip(top.len() - 4) =~= "top="@);
    text::lemma_ends_on(top, "top="@, dy);
    text::lemma_ends_on(s1, "top="@ + dy, left);
    let a = "top="@ + dy + left;
    text::lemma_ends_holds(s2, a, dx);
    text::lemma_holds_on(s3, a, open);
    text::lemma_holds_on(s4, a, dw);
    text::lemma_holds_on(s5, a, high);
    text::lemma_holds_on(s6, a, dh);
    text::lemma_holds_on(s7, a, " "@);
    text::lemma_ends(s1, left);
    text::lemma_ends_on(s2, left, dx);
    text::lemma_ends_on(s3, left + dx, open);
    let b = left + dx + open;
    text::lemma_ends_holds(s4, b, dw);
    text::lemma_holds_on(s5, b, high);
    text::lemma_holds_on(s6, b, dh);
    text::lemma_holds_on(s7, b, " "@);
    text::lemma_ends(s3, open);
    assert(open.skip(open.len() - 7) =~= ",width="@);
    text::lemma_ends_within(s4, open, ",width="@);
    text::lemma_ends_on(s4, ",width="@, dw);
    text::lemma_ends_on(s5, ",width="@ + dw, high);
    let d = ",width="@ + dw + high;
    text::lemma_ends_holds(s6, d, dh);
    text::lemma_holds_on(s7, d, " "@);
    text::lemma_ends(s5, high);
    text::lemma_ends_on(s6, high, dh);
    text::lemma_ends_on(s7, high + dh, " "@);
    assert(s8 + Seq::<char>::empty() =~= s8);
    text::lemma_ends_holds(s8, high + dh + " "@, Seq::empty());
}

} // verus!
