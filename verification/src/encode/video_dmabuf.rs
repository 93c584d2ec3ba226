//! Recording pipelines on the graphics card: one source, or several composed.
use crate::capture::pacing::DmabufStreamFormat;
use crate::cli;
use crate::cli::VideoContainer;
use crate::encode::audio;
use crate::encode::audio::AudioPlan;
use crate::encode::plugins::Plugins;
use crate::encode::video;
use crate::encode::video::CropRect;
use crate::text;
use vstd::prelude::*;

verus! {

/// The even part of a length.
pub open spec fn even_part(n: int) -> int {
    n - n % 2
}

/// The even part of what a span has inside an axis of `size` pixels.
pub open spec fn even_inside(at: int, len: int, size: int) -> int {
    let left = size - video::span_start(at, size);
    even_part(
        if len < left {
            len
        } else {
            left
        },
    )
}

/// A crop brought inside the source with even extents, where anything is left.
pub open spec fn usable_crop(c: CropRect, w: int, h: int) -> Option<CropRect> {
    let cw = even_inside(c.x as int, c.w as int, w);
    let ch = even_inside(c.y as int, c.h as int, h);
    if cw == 0 || ch == 0 {
        None
    } else {
        Some(
            CropRect {
                x: video::span_start(c.x as int, w) as i32,
                y: video::span_start(c.y as int, h) as i32,
                w: cw as u32,
                h: ch as u32,
            },
        )
    }
}

/// The even part of a source, where it is not even already and anything is left.
pub open spec fn evened_source(w: int, h: int) -> Option<CropRect> {
    if w % 2 == 0 && h % 2 == 0 || even_part(w) == 0 || even_part(h) == 0 {
        None
    } else {
        Some(CropRect { x: 0, y: 0, w: even_part(w) as u32, h: even_part(h) as u32 })
    }
}

/// The crop that is recorded: the one asked for where it is usable, else the
/// even part of the source.
pub open spec fn recorded_crop(crop: Option<CropRect>, w: int, h: int) -> Option<CropRect> {
    let asked = match crop {
        Some(c) => usable_crop(c, w, h),
        None => None,
    };
    if asked is Some {
        asked
    } else {
        evened_source(w, h)
    }
}

fn even_span(at: i32, len: u32, size: u32) -> (r: (u32, u32))
    requires
        size <= i32::MAX,
    ensures
        r.0 == video::span_start(at as int, size as int),
        r.1 == even_inside(at as int, len as int, size as int),
{
    let start: u32 = if at < 0 {
        0
    } else if at as u32 > size {
        size
    } else {
        at as u32
    };
    let left: u32 = size - start;
    let inside: u32 = if len < left { len } else { left };
    (start, inside - inside % 2)
}

/// The crop that is recorded.
pub fn effective_crop(crop: Option<CropRect>, width: u32, height: u32) -> (r: Option<CropRect>)
    requires
        crop is Some ==> width <= i32::MAX && height <= i32::MAX,
    ensures
        r == recorded_crop(crop, width as int, height as int),
{
    if let Some(c) = crop {
        let (left, w) = even_span(c.x, c.w, width);
        let (top, h) = even_span(c.y, c.h, height);
        if w != 0 && h != 0 {
            return Some(CropRect { x: left as i32, y: top as i32, w, h });
        }
    }
    if width % 2 == 0 && height % 2 == 0 {
        return None;
    }
    let w: u32 = width - width % 2;
    let h: u32 = height - height % 2;
    if w == 0 || h == 0 {
        return None;
    }
    Some(CropRect { x: 0, y: 0, w, h })
}

/// What is recorded has even extents, as the encoder's colour planes need them,
/// and lies inside the source; without a crop, the source itself is even or has
/// an extent of at most one.
pub proof fn recordings_are_even(crop: Option<CropRect>, w: int, h: int)
    requires
        0 <= w <= i32::MAX,
        0 <= h <= i32::MAX,
    ensures
        match recorded_crop(crop, w, h) {
            Some(c) => c.w % 2 == 0 && c.h % 2 == 0 && c.w > 0 && c.h > 0 && 0 <= c.x && 0 <= c.y
                && c.x + c.w <= w && c.y + c.h <= h,
            None => w % 2 == 0 && h % 2 == 0 || w <= 1 || h <= 1,
        },
{
}

/// Why a recording on the graphics card cannot be made.
#[derive(Clone, Copy, Debug, PartialEq, Eq, Structural)]
pub enum DmabufRefusal {
    /// The container is not implemented there.
    WebM,
    /// The elements are not installed.
    NoVaapi,
}

impl DmabufRefusal {
    /// What the message says.
    pub open spec fn text(self) -> Seq<char> {
        match self {
            DmabufRefusal::WebM => "WebM is not implemented yet on the dmabuf record path; use mp4 or mkv until VAAPI VP9 wiring lands"@,
            DmabufRefusal::NoVaapi => "vapostproc + vah264enc required for dmabuf recording. Install gstreamer-vaapi (gst-plugins-bad's `va` plugin)."@,
        }
    }

    /// The message for the user.
    pub fn message(&self) -> (s: String)
        ensures
            s@ == self.text(),
    {
        match self {
            DmabufRefusal::WebM => text::owned(
                "WebM is not implemented yet on the dmabuf record path; use mp4 or mkv until VAAPI VP9 wiring lands",
            ),
            DmabufRefusal::NoVaapi => text::owned(
                "vapostproc + vah264enc required for dmabuf recording. Install gstreamer-vaapi (gst-plugins-bad's `va` plugin).",
            ),
        }
    }
}

/// The muxer of a container.
pub open spec fn named_muxer(container: VideoContainer) -> Seq<char> {
    match container {
        VideoContainer::Mp4 => "mp4mux name=mux faststart=true"@,
        _ => "matroskamux name=mux"@,
    }
}

/// The filter that makes the conversion apply the crop.
pub open spec fn crop_filter(crop: Option<CropRect>) -> Seq<char> {
    match crop {
        Some(c) => "! video/x-raw(memory:VAMemory),format=NV12,width="@ + text::decimal(c.w as nat)
            + ",height="@ + text::decimal(c.h as nat) + " !"@,
        None => "!"@,
    }
}

/// The whole pipeline of a recording of one source.
pub open spec fn dmabuf_pipeline(
    output: Seq<char>,
    container: VideoContainer,
    mic: bool,
    system: bool,
    crop: Option<CropRect>,
) -> Seq<char> {
    video::SOURCE_STAGE@ + "! vapostproc name=vapp "@ + crop_filter(crop)
        + " vah264enc ! h264parse name=h264p ! "@ + named_muxer(container)
        + " ! filesink name=sink location="@ + video::quoted(output) + " "@ + audio::branch_text(
        mic,
        system,
    )
}

/// A recording of one source: its pipeline, and what each frame is cropped to.
pub struct DmabufPlan {
    pub pipeline: String,
    pub crop: Option<CropRect>,
}

fn push_crop_filter(s: &mut String, crop: &Option<CropRect>)
    ensures
        final(s)@ == old(s)@ + crop_filter(*crop),
{
    let ghost was = s@;
    match crop {
        Some(c) => {
            s.append("! video/x-raw(memory:VAMemory),format=NV12,width=");
            text::push_decimal(s, c.w as u64);
            s.append(",height=");
            text::push_decimal(s, c.h as u64);
            s.append(" !");
        },
        None => {
            s.append("!");
        },
    }
    assert(s@ =~= was + crop_filter(*crop));
}

/// Plans the recording of one source.
pub fn plan_dmabuf(
    format: &DmabufStreamFormat,
    output: &str,
    container: VideoContainer,
    mic: bool,
    system: bool,
    crop: Option<CropRect>,
    p: &Plugins,
) -> (r: Result<DmabufPlan, DmabufRefusal>)
    requires
        crop is Some ==> format.width <= i32::MAX && format.height <= i32::MAX,
    ensures
        match r {
            Ok(plan) => {
                &&& container != VideoContainer::WebM
                &&& p.vapostproc && p.vah264enc
                &&& plan.crop == recorded_crop(crop, format.width as int, format.height as int)
                &&& plan.pipeline@ == dmabuf_pipeline(output@, container, mic, system, plan.crop)
            },
            Err(e) => e == (if container == VideoContainer::WebM {
                DmabufRefusal::WebM
            } else {
                DmabufRefusal::NoVaapi
            }) && (container == VideoContainer::WebM || !p.vapostproc || !p.vah264enc),
        },
{
    let muxer = match container {
        VideoContainer::Mp4 => "mp4mux name=mux faststart=true",
        VideoContainer::Mkv => "matroskamux name=mux",
        VideoContainer::WebM => {
            return Err(DmabufRefusal::WebM);
        },
    };
    let recorded = effective_crop(crop, format.width, format.height);
    let mut s = text::owned(video::SOURCE_STAGE);
    s.append("! vapostproc name=vapp ");
    push_crop_filter(&mut s, &recorded);
    s.append(" vah264enc ! h264parse name=h264p ! ");
    s.append(muxer);
    s.append(" ! filesink name=sink location=");
    s.append(video::escape_for_gst(output).as_str());
    s.append(" ");
    s.append(audio::audio_branch_str(mic, system).as_str());
    if !p.vapostproc || !p.vah264enc {
        return Err(DmabufRefusal::NoVaapi);
    }
    Ok(DmabufPlan { pipeline: s, crop: recorded })
}

/// One source's share of a composed recording.
#[derive(Clone, Copy, Debug)]
pub struct CompositePart {
    /// Which of its pixels are shown.
    pub src_crop: CropRect,
    /// Where they go on the canvas.
    pub dst_pos: (u32, u32),
    /// The size they have there.
    pub dst_size: (u32, u32),
    pub format: DmabufStreamFormat,
}

/// A part's far edges are 32 bit coordinates.
pub open spec fn part_ends(p: CompositePart) -> bool {
    p.dst_pos.0 + p.dst_size.0 <= u32::MAX && p.dst_pos.1 + p.dst_size.1 <= u32::MAX
}

/// How far the parts reach to the right.
pub open spec fn reach_x(parts: Seq<CompositePart>) -> int
    decreases parts.len(),
{
    if parts.len() == 0 {
        0
    } else {
        let p = parts.last();
        let before = reach_x(parts.drop_last());
        let end = p.dst_pos.0 + p.dst_size.0;
        if before < end {
            end
        } else {
            before
        }
    }
}

/// How far the parts reach down.
pub open spec fn reach_y(parts: Seq<CompositePart>) -> int
    decreases parts.len(),
{
    if parts.len() == 0 {
        0
    } else {
        let p = parts.last();
        let before = reach_y(parts.drop_last());
        let end = p.dst_pos.1 + p.dst_size.1;
        if before < end {
            end
        } else {
            before
        }
    }
}

/// Why a composed recording cannot be made.
#[derive(Clone, Copy, Debug, PartialEq, Eq, Structural)]
pub enum CompositeRefusal {
    /// There are no parts, or not as many captures.
    Mismatch { parts: u64, captures: u64 },
    /// The compositor element is not installed.
    NoCompositor,
    /// The canvas has no pixels.
    EmptyCanvas,
    /// The container is not implemented there.
    WebM,
}

impl CompositeRefusal {
    /// What the message says.
    pub open spec fn text(self) -> Seq<char> {
        match self {
            CompositeRefusal::Mismatch { parts, captures } => "VideoSessionDmabufMulti::build: parts/captures length mismatch ("@
                + text::decimal(parts as nat) + " parts, "@ + text::decimal(captures as nat)
                + " captures)"@,
            CompositeRefusal::NoCompositor => "vacompositor required for cross-screen recording. Install gstreamer-vaapi (gst-plugins-bad's `va` plugin)."@,
            CompositeRefusal::EmptyCanvas => "composite canvas is empty"@,
            CompositeRefusal::WebM => "WebM is not implemented yet on the dmabuf compositor path"@,
        }
    }

    /// The message for the user.
    pub fn message(&self) -> (s: String)
        ensures
            s@ == self.text(),
    {
        match self {
            CompositeRefusal::Mismatch { parts, captures } => {
                let mut s = text::owned(
                    "VideoSessionDmabufMulti::build: parts/captures length mismatch (",
                );
                text::push_decimal(&mut s, *parts);
                s.append(" parts, ");
                text::push_decimal(&mut s, *captures);
                s.append(" captures)");
                s
            },
            CompositeRefusal::NoCompositor => text::owned(
                "vacompositor required for cross-screen recording. Install gstreamer-vaapi (gst-plugins-bad's `va` plugin).",
            ),
            CompositeRefusal::EmptyCanvas => text::owned("composite canvas is empty"),
            CompositeRefusal::WebM => text::owned(
                "WebM is not implemented yet on the dmabuf compositor path",
            ),
        }
    }
}

/// The muxer of a composed recording.
#[derive(Clone, Copy, Debug, PartialEq, Eq, Structural)]
pub enum Muxer {
    /// MP4, with its index at the front.
    Mp4FastStart,
    Matroska,
}

/// One source's branch: its name, its crop, and where it goes on the canvas.
pub struct BranchPlan {
    pub name: String,
    pub crop: CropRect,
    pub xpos: i32,
    pub ypos: i32,
    pub width: i32,
    pub height: i32,
}

/// A branch, its name as text.
pub struct BranchModel {
    pub name: Seq<char>,
    pub crop: CropRect,
    pub xpos: i32,
    pub ypos: i32,
    pub width: i32,
    pub height: i32,
}

impl View for BranchPlan {
    type V = BranchModel;

    open spec fn view(&self) -> BranchModel {
        BranchModel {
            name: self.name@,
            crop: self.crop,
            xpos: self.xpos,
            ypos: self.ypos,
            width: self.width,
            height: self.height,
        }
    }
}

/// The branch of the `i`-th part.
pub open spec fn branch(p: CompositePart, i: int) -> BranchModel {
    BranchModel {
        name: "src"@ + text::decimal(i as nat),
        crop: p.src_crop,
        xpos: p.dst_pos.0 as i32,
        ypos: p.dst_pos.1 as i32,
        width: p.dst_size.0 as i32,
        height: p.dst_size.1 as i32,
    }
}

/// A composed recording: an even canvas that all parts lie on, a muxer, the
/// sound, and one branch for each part.
pub struct CompositePlan {
    pub canvas_w: u32,
    pub canvas_h: u32,
    pub muxer: Muxer,
    pub audio: AudioPlan,
    pub branches: Vec<BranchPlan>,
}

/// Why a composed recording cannot be made, the first reason that holds.
pub open spec fn refusal(
    parts: Seq<CompositePart>,
    captures: nat,
    container: VideoContainer,
    p: Plugins,
) -> Option<CompositeRefusal> {
    if parts.len() == 0 || parts.len() != captures {
        Some(CompositeRefusal::Mismatch { parts: parts.len() as u64, captures: captures as u64 })
    } else if !p.vacompositor {
        Some(CompositeRefusal::NoCompositor)
    } else if reach_x(parts) <= 0 || reach_y(parts) <= 0 {
        Some(CompositeRefusal::EmptyCanvas)
    } else if container == VideoContainer::WebM {
        Some(CompositeRefusal::WebM)
    } else {
        None
    }
}

fn reach(parts: &Vec<CompositePart>) -> (r: (u32, u32))
    requires
        forall|i: int| 0 <= i < parts@.len() ==> part_ends(#[trigger] parts@[i]),
    ensures
        r.0 == reach_x(parts@),
        r.1 == reach_y(parts@),
{
    let mut w: u32 = 0;
    let mut h: u32 = 0;
    let mut i: usize = 0;
    while i < parts.len()
        invariant
            i <= parts@.len(),
            forall|j: int| 0 <= j < parts@.len() ==> part_ends(#[trigger] parts@[j]),
            w == reach_x(parts@.take(i as int)),
            h == reach_y(parts@.take(i as int)),
        decreases parts@.len() - i,
    {
        let p = &parts[i];
        assert(part_ends(parts@[i as int]));
        assert(parts@.take(i + 1).drop_last() =~= parts@.take(i as int));
        let x: u32 = p.dst_pos.0 + p.dst_size.0;
        let y: u32 = p.dst_pos.1 + p.dst_size.1;
        if w < x {
            w = x;
        }
        if h < y {
            h = y;
        }
        i = i + 1;
    }
    assert(parts@.take(i as int) =~= parts@);
    (w, h)
}

/// Plans a composed recording.
pub fn plan_composite(
    parts: &Vec<CompositePart>,
    captures: usize,
    container: VideoContainer,
    mic: bool,
    system: bool,
    p: &Plugins,
) -> (r: Result<CompositePlan, CompositeRefusal>)
    requires
        forall|i: int| 0 <= i < parts@.len() ==> part_ends(#[trigger] parts@[i]),
    ensures
        match r {
            Ok(plan) => {
                &&& refusal(parts@, captures as nat, container, *p) is None
                &&& plan.canvas_w == even_part(reach_x(parts@))
                &&& plan.canvas_h == even_part(reach_y(parts@))
                &&& plan.muxer == (if container == VideoContainer::Mp4 {
                    Muxer::Mp4FastStart
                } else {
                    Muxer::Matroska
                })
                &&& plan.muxer == composed_muxer(container)
                &&& plan.audio.elements@ == audio::plan_elements(mic, system)
                &&& plan.audio.links@ == audio::plan_links(mic, system)
                &&& plan.branches@.len() == parts@.len()
                &&& forall|i: int|
                    0 <= i < parts@.len() ==> (#[trigger] plan.branches@[i])@ == branch(
                        parts@[i],
                        i,
                    )
                &&& forall|i: int|
                    0 <= i < parts@.len() ==> {
                        let b = #[trigger] plan.branches@[i];
                        let p = parts@[i];
                        &&& b.crop == p.src_crop
                        &&& p.dst_pos.0 <= i32::MAX ==> b.xpos == p.dst_pos.0
                        &&& p.dst_pos.1 <= i32::MAX ==> b.ypos == p.dst_pos.1
                        &&& p.dst_size.0 <= i32::MAX ==> b.width == p.dst_size.0
                        &&& p.dst_size.1 <= i32::MAX ==> b.height == p.dst_size.1
                    }
            },
            Err(e) => refusal(parts@, captures as nat, container, *p) == Some(e),
        },
{
    if parts.len() == 0 || parts.len() != captures {
        return Err(
            CompositeRefusal::Mismatch { parts: parts.len() as u64, captures: captures as u64 },
        );
    }
    if !p.vacompositor {
        return Err(CompositeRefusal::NoCompositor);
    }
    let (w, h) = reach(parts);
    if w == 0 || h == 0 {
        return Err(CompositeRefusal::EmptyCanvas);
    }
    let muxer = match container {
        VideoContainer::Mp4 => Muxer::Mp4FastStart,
        VideoContainer::Mkv => Muxer::Matroska,
        VideoContainer::WebM => {
            return Err(CompositeRefusal::WebM);
        },
    };
    let mut branches: Vec<BranchPlan> = Vec::new();
    let mut i: usize = 0;
    while i < parts.len()
        invariant
            i <= parts@.len(),
            branches@.len() == i,
            forall|j: int| 0 <= j < i ==> (#[trigger] branches@[j])@ == branch(parts@[j], j),
        decreases parts@.len() - i,
    {
        let part = parts[i];
        let mut name = text::owned("src");
        text::push_decimal(&mut name, i as u64);
        branches.push(
            BranchPlan {
                name,
                crop: part.src_crop,
                xpos: part.dst_pos.0 as i32,
                ypos: part.dst_pos.1 as i32,
                width: part.dst_size.0 as i32,
                height: part.dst_size.1 as i32,
            },
        );
        i = i + 1;
    }
    Ok(
        CompositePlan {
            canvas_w: w - w % 2,
            canvas_h: h - h % 2,
            muxer,
            audio: audio::audio_plan(mic, system),
            branches,
        },
    )
}

/// Every part of a composed recording lies on the canvas, but for the last
/// column or row of an odd one.
pub proof fn parts_fit_the_canvas(parts: Seq<CompositePart>, i: int)
    requires
        0 <= i < parts.len(),
    ensures
        parts[i].dst_pos.0 + parts[i].dst_size.0 <= reach_x(parts) <= even_part(reach_x(parts)) + 1,
        parts[i].dst_pos.1 + parts[i].dst_size.1 <= reach_y(parts) <= even_part(reach_y(parts)) + 1,
    decreases parts.len(),
{
    if i < parts.len() - 1 {
        parts_fit_the_canvas(parts.drop_last(), i);
    }
}

/// The corner of the crop that a frame is marked with.
pub fn crop_origin(c: &CropRect) -> (r: (u32, u32))
    ensures
        r.0 == (if c.x < 0 {
            0
        } else {
            c.x as int
        }),
        r.1 == (if c.y < 0 {
            0
        } else {
            c.y as int
        }),
{
    (if c.x < 0 { 0 } else { c.x as u32 }, if c.y < 0 { 0 } else { c.y as u32 })
}

/// What is recorded starts where the crop asked for does: where that has at least two
/// columns and two rows in the source, the corner is the one asked for, brought into
/// the source, and as much is recorded as was asked for and is there, less one column
/// or row where that is odd.
pub proof fn recordings_start_where_the_crop_does(c: CropRect, w: u32, h: u32)
    requires
        w <= i32::MAX,
        h <= i32::MAX,
        c.w >= 2,
        c.h >= 2,
        c.x + 2 <= w,
        c.y + 2 <= h,
        w >= 2,
        h >= 2,
    ensures
        ({
            let r = recorded_crop(Some(c), w as int, h as int);
            let (left, top) = (
                if c.x < 0 {
                    0
                } else {
                    c.x
                },
                if c.y < 0 {
                    0
                } else {
                    c.y
                },
            );
            &&& r is Some
            &&& r->0.x == left
            &&& r->0.y == top
            &&& r->0.w <= c.w && left + r->0.w <= w
            &&& r->0.h <= c.h && top + r->0.h <= h
            &&& r->0.w + 1 >= c.w || left + r->0.w + 1 >= w
            &&& r->0.h + 1 >= c.h || top + r->0.h + 1 >= h
        }),
{
}

/// A crop with even extents that lies in the source is recorded as it is.
pub proof fn even_crops_are_recorded_unchanged(c: CropRect, w: u32, h: u32)
    requires
        w <= i32::MAX,
        h <= i32::MAX,
        0 <= c.x,
        0 <= c.y,
        c.x + c.w <= w,
        c.y + c.h <= h,
        c.w > 0,
        c.h > 0,
        c.w % 2 == 0,
        c.h % 2 == 0,
    ensures
        recorded_crop(Some(c), w as int, h as int) == Some(c),
{
}

/// Nothing is recorded beside the crop asked for, and of that nothing is lost but an
/// odd last column or row: pixel `(px, py)` of the source is recorded only where it was
/// asked for, and is left out only at the crop's far edge.
pub proof fn only_the_crop_is_recorded(c: CropRect, w: u32, h: u32, px: int, py: int)
    requires
        w <= i32::MAX,
        h <= i32::MAX,
        0 <= c.x,
        0 <= c.y,
        c.w >= 2,
        c.h >= 2,
        c.x + 2 <= w,
        c.y + 2 <= h,
        0 <= px < w,
        0 <= py < h,
    ensures
        ({
            let r = recorded_crop(Some(c), w as int, h as int)->0;
            let asked = c.x <= px < c.x + c.w && c.y <= py < c.y + c.h;
            let recorded = r.x <= px < r.x + r.w && r.y <= py < r.y + r.h;
            &&& recorded ==> asked
            &&& asked && !recorded ==> px == c.x + c.w - 1 || px == w - 1 || py == c.y + c.h - 1
                || py == h - 1
        }),
{
}

/// A recording without a usable crop shows the source from its corner, and all of it
/// but an odd last column or row.
pub proof fn whole_sources_are_recorded_whole(w: u32, h: u32)
    requires
        w >= 2,
        h >= 2,
    ensures
        match recorded_crop(None, w as int, h as int) {
            Some(c) => {
                &&& c.x == 0 && c.y == 0
                &&& w - 1 <= c.w <= w && h - 1 <= c.h <= h
                &&& c.w % 2 == 0 && c.h % 2 == 0
                &&& c.w < w || c.h < h
            },
            None => w % 2 == 0 && h % 2 == 0,
        },
{
}

/// A branch lies on the canvas where its part lies, has the size that its part has
/// there, and shows the pixels that its part shows.
pub proof fn branches_lie_where_their_parts_do(p: CompositePart, i: int)
    requires
        p.dst_pos.0 <= i32::MAX,
        p.dst_pos.1 <= i32::MAX,
        p.dst_size.0 <= i32::MAX,
        p.dst_size.1 <= i32::MAX,
    ensures
        branch(p, i).xpos == p.dst_pos.0,
        branch(p, i).ypos == p.dst_pos.1,
        branch(p, i).width == p.dst_size.0,
        branch(p, i).height == p.dst_size.1,
        branch(p, i).crop == p.src_crop,
{
}

/// Two branches cover a common canvas pixel.
pub open spec fn branches_meet(a: BranchModel, b: BranchModel) -> bool {
    &&& a.xpos < b.xpos + b.width && b.xpos < a.xpos + a.width
    &&& a.ypos < b.ypos + b.height && b.ypos < a.ypos + a.height
}

/// Parts that cover no common canvas pixel have branches that cover none, and parts
/// that do have branches that do.
pub proof fn parts_apart_have_branches_apart(p: CompositePart, q: CompositePart, i: int, j: int)
    requires
        p.dst_pos.0 + p.dst_size.0 <= i32::MAX,
        p.dst_pos.1 + p.dst_size.1 <= i32::MAX,
        q.dst_pos.0 + q.dst_size.0 <= i32::MAX,
        q.dst_pos.1 + q.dst_size.1 <= i32::MAX,
    ensures
        branches_meet(branch(p, i), branch(q, j)) <==> (p.dst_pos.0 < q.dst_pos.0 + q.dst_size.0
            && q.dst_pos.0 < p.dst_pos.0 + p.dst_size.0 && p.dst_pos.1 < q.dst_pos.1
            + q.dst_size.1 && q.dst_pos.1 < p.dst_pos.1 + p.dst_size.1),
{
}

/// Every branch of a recording has a name of its own.
pub proof fn branches_have_names_of_their_own(p: CompositePart, q: CompositePart, i: int, j: int)
    requires
        0 <= i,
        0 <= j,
        i != j,
    ensures
        branch(p, i).name != branch(q, j).name,
{
    if branch(p, i).name == branch(q, j).name {
        let (a, b) = (text::decimal(i as nat), text::decimal(j as nat));
        let n = "src"@.len() as int;
        assert(("src"@ + a).skip(n) =~= a);
        assert(("src"@ + b).skip(n) =~= b);
        text::decimals_differ(i as nat, j as nat);
    }
}

/// The canvas of a composed recording is as wide and as high as its parts need it: some
/// part ends at its right edge and some at its lower one, but for an odd last column or
/// row.
pub proof fn the_canvas_ends_where_a_part_does(parts: Seq<CompositePart>)
    requires
        parts.len() > 0,
    ensures
        exists|i: int|
            0 <= i < parts.len() && (#[trigger] parts[i]).dst_pos.0 + parts[i].dst_size.0
                == reach_x(parts),
        exists|i: int|
            0 <= i < parts.len() && (#[trigger] parts[i]).dst_pos.1 + parts[i].dst_size.1
                == reach_y(parts),
        reach_x(parts) - 1 <= even_part(reach_x(parts)) <= reach_x(parts),
        reach_y(parts) - 1 <= even_part(reach_y(parts)) <= reach_y(parts),
        even_part(reach_x(parts)) % 2 == 0,
        even_part(reach_y(parts)) % 2 == 0,
    decreases parts.len(),
{
    let init = parts.drop_last();
    let last = parts.len() - 1;
    assert(parts[last] == parts.last());
    if parts.len() > 1 {
        the_canvas_ends_where_a_part_does(init);
        let x = choose|i: int|
            0 <= i < init.len() && (#[trigger] init[i]).dst_pos.0 + init[i].dst_size.0 == reach_x(
                init,
            );
        let y = choose|i: int|
            0 <= i < init.len() && (#[trigger] init[i]).dst_pos.1 + init[i].dst_size.1 == reach_y(
                init,
            );
        assert(parts[x] == init[x]);
        assert(parts[y] == init[y]);
    } else {
        assert(reach_x(init) == 0 && reach_y(init) == 0);
    }
}

impl Muxer {
    /// The muxer's element.
    pub open spec fn element(self) -> Seq<char> {
        match self {
            Muxer::Mp4FastStart => "mp4mux"@,
            Muxer::Matroska => "matroskamux"@,
        }
    }
}

/// The muxer that a composed recording has for a container.
pub open spec fn composed_muxer(container: VideoContainer) -> Muxer {
    if container == VideoContainer::Mp4 {
        Muxer::Mp4FastStart
    } else {
        Muxer::Matroska
    }
}

/// A recording on the graphics card has the muxer that its container has everywhere:
/// the same element with the same properties, under the name that the sound is linked
/// to.
pub proof fn card_recordings_have_their_containers_muxer(container: VideoContainer)
    requires
        container != VideoContainer::WebM,
    ensures
        exists|properties: Seq<char>|
            #![trigger composed_muxer(container).element() + properties]
            cli::container_muxer(container) == composed_muxer(container).element() + properties
                && named_muxer(container) == composed_muxer(container).element() + " name=mux"@
                + properties,
{
    reveal_strlit("mp4mux name=mux faststart=true");
    reveal_strlit("mp4mux faststart=true");
    reveal_strlit("mp4mux");
    reveal_strlit("matroskamux name=mux");
    reveal_strlit("matroskamux");
    reveal_strlit(" name=mux");
    reveal_strlit(" faststart=true");
    let properties = if container == VideoContainer::Mp4 {
        " faststart=true"@
    } else {
        Seq::empty()
    };
    let element = composed_muxer(container).element();
    assert(cli::container_muxer(container) =~= element + properties);
    assert(named_muxer(container) =~= element + " name=mux"@ + properties);
}

/// A recording's pipeline on the graphics card does what was asked for: the frames are
/// brought to the extents that are recorded, the encoder feeds the container's muxer,
/// that one feeds a file of the name asked for, and the sound asked for comes last.
pub proof fn card_recordings_are_as_asked_for(
    output: Seq<char>,
    container: VideoContainer,
    mic: bool,
    system: bool,
    crop: Option<CropRect>,
)
    ensures
        ({
            let s = dmabuf_pipeline(output, container, mic, system, crop);
            &&& crop matches Some(c) ==> text::holds(
                s,
                ",width="@ + text::decimal(c.w as nat) + ",height="@ + text::decimal(c.h as nat)
                    + " !"@,
            )
            &&& text::holds(
                s,
                " vah264enc ! h264parse name=h264p ! "@ + named_muxer(container)
                    + " ! filesink name=sink location="@ + video::quoted(output) + " "@,
            )
            &&& text::ends(s, audio::branch_text(mic, system))
        }),
{
    let sound = audio::branch_text(mic, system);
    let t0 = video::SOURCE_STAGE@ + "! vapostproc name=vapp "@;
    let t1 = t0 + crop_filter(crop);
    let t2 = t1 + " vah264enc ! h264parse name=h264p ! "@;
    let t3 = t2 + named_muxer(container);
    let t4 = t3 + " ! filesink name=sink location="@;
    let t5 = t4 + video::quoted(output);
    let t6 = t5 + " "@;
    let m0 = " vah264enc ! h264parse name=h264p ! "@;
    let m1 = m0 + named_muxer(container);
    let m2 = m1 + " ! filesink name=sink location="@;
    let m3 = m2 + video::quoted(output);
    text::lemma_ends(t1, m0);
    text::lemma_ends_on(t2, m0, named_muxer(container));
    text::lemma_ends_on(t3, m1, " ! filesink name=sink location="@);
    text::lemma_ends_on(t4, m2, video::quoted(output));
    text::lemma_ends_on(t5, m3, " "@);
    text::lemma_ends_holds(t6, m3 + " "@, sound);
    text::lemma_ends(t6, sound);
    if let Some(c) = crop {
        let (w, h) = (text::decimal(c.w as nat), text::decimal(c.h as nat));
        let f0 = "! video/x-raw(memory:VAMemory),format=NV12,width="@;
        let k0 = ",width="@;
        assert(text::ends(f0, k0)) by {
            reveal_strlit("! video/x-raw(memory:VAMemory),format=NV12,width=");
            reveal_strlit(",width=");
            assert(f0.skip(f0.len() - k0.len()) =~= k0);
        }
        text::lemma_ends_on(f0, k0, w);
        text::lemma_ends_on(f0 + w, k0 + w, ",height="@);
        text::lemma_ends_on(f0 + w + ",height="@, k0 + w + ",height="@, h);
        text::lemma_ends_on(f0 + w + ",height="@ + h, k0 + w + ",height="@ + h, " !"@);
        let k = k0 + w + ",height="@ + h + " !"@;
        text::lemma_ends(t0, crop_filter(crop));
        text::lemma_ends_within(t1, crop_filter(crop), k);
        text::lemma_ends_holds(t1, k, m0);
        text::lemma_holds_on(t2, k, named_muxer(container));
        text::lemma_holds_on(t3, k, " ! filesink name=sink location="@);
        text::lemma_holds_on(t4, k, video::quoted(output));
        text::lemma_holds_on(t5, k, " "@);
        text::lemma_holds_on(t6, k, sound);
    }
}

/// A composed recording is refused for a reason that holds, and only for one: the parts and
/// the captures have to be as many, and some; the compositor has to be there; the canvas
/// needs pixels; and the container must not be WebM.
pub proof fn refusals_have_their_reason(
    parts: Seq<CompositePart>,
    captures: nat,
    container: VideoContainer,
    p: Plugins,
)
    requires
        parts.len() <= u64::MAX,
        captures <= u64::MAX,
    ensures
        ({
            let r = refusal(parts, captures, container, p);
            &&& r is None <==> parts.len() == captures && captures > 0 && p.vacompositor
                && container != VideoContainer::WebM && reach_x(parts) > 0 && reach_y(parts) > 0
            &&& r matches Some(CompositeRefusal::Mismatch { parts: a, captures: b }) ==> a
                == parts.len() && b == captures && (a == 0 || a != b)
            &&& parts.len() != captures ==> r is Some && r->0 is Mismatch
            &&& r == Some(CompositeRefusal::NoCompositor) ==> !p.vacompositor
            &&& r == Some(CompositeRefusal::EmptyCanvas) ==> reach_x(parts) <= 0 || reach_y(parts)
                <= 0
            &&& r == Some(CompositeRefusal::WebM) ==> container == VideoContainer::WebM
        }),
{
}

/// The filter of a crop names the crop's width and height.
pub proof fn the_filter_names_the_crops_sides(c: CropRect)
    ensures
        text::holds(crop_filter(Some(c)), ",width="@ + text::decimal(c.w as nat) + ",height="@),
        text::holds(crop_filter(Some(c)), ",height="@ + text::decimal(c.h as nat) + " !"@),
{
    let head = "! video/x-raw(memory:VAMemory),format=NV12,width="@;
    reveal_strlit("! video/x-raw(memory:VAMemory),format=NV12,width=");
    reveal_strlit(",width=");
    let (w, h) = (text::decimal(c.w as nat), text::decimal(c.h as nat));
    let tail = ",height="@;
    assert(head.skip(head.len() - 7) =~= ",width="@);
    assert(text::ends(head, ",width="@));
    text::lemma_ends_on(head, ",width="@, w);
    text::lemma_ends_on(head + w, ",width="@ + w, tail);
    text::lemma_ends_holds(head + w + tail, ",width="@ + w + tail, h);
    text::lemma_holds_on(head + w + tail + h, ",width="@ + w + tail, " !"@);
    text::lemma_ends(head + w, tail);
    text::lemma_ends_on(head + w + tail, tail, h);
    text::lemma_ends_on(head + w + tail + h, tail + h, " !"@);
    let whole = crop_filter(Some(c));
    assert(whole + Seq::<char>::empty() =~= whole);
    text::lemma_ends_holds(whole, tail + h + " !"@, Seq::empty());
}

} // verus!
