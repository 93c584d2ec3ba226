//! A capture of one source: what is allocated for it, and what its end means.
use crate::capture::dmabuf;
use crate::capture::dmabuf::{FormatModifiers, Fourcc};
use crate::capture::screencopy::CapturedFrame;
use crate::capture::toplevels;
use crate::capture::toplevels::NamedOutput;
use crate::text;
use vstd::prelude::*;

verus! {

/// A window's picture and what it is labelled with.
pub struct WindowCapture {
    pub identifier: String,
    pub title: String,
    pub app_id: String,
    pub frame: CapturedFrame,
}

/// The shared memory format with the bytes R, G, B, A.
pub const ABGR8888: u32 = 0x3432_4241;

/// What the compositor offers for a capture.
pub struct Formats {
    pub buffer_size: (u32, u32),
    pub shm_formats: Vec<u32>,
    pub dmabuf_device: Option<u64>,
    pub dmabuf_formats: Vec<FormatModifiers>,
}

/// The source of a capture, for messages.
#[derive(Clone, Copy, Debug, PartialEq, Eq, Structural)]
pub enum SourceLabel {
    Output,
    Toplevel,
    Workspace,
}

/// The word for a source.
pub open spec fn label_text(l: SourceLabel) -> Seq<char> {
    match l {
        SourceLabel::Output => "output"@,
        SourceLabel::Toplevel => "toplevel"@,
        SourceLabel::Workspace => "workspace"@,
    }
}

impl SourceLabel {
    /// The word for the source.
    pub fn word(self) -> (s: &'static str)
        ensures
            s@ == label_text(self),
    {
        match self {
            SourceLabel::Output => "output",
            SourceLabel::Toplevel => "toplevel",
            SourceLabel::Workspace => "workspace",
        }
    }
}

/// A buffer in shared memory: rows of four bytes a pixel, without padding.
#[derive(Clone, Copy, Debug, PartialEq, Eq, Structural)]
pub struct ShmPlan {
    pub width: u32,
    pub height: u32,
    pub stride: u32,
    pub total: u64,
}

/// Why nothing was allocated in shared memory.
#[derive(Clone, Copy, Debug, PartialEq, Eq, Structural)]
pub enum ShmRefusal {
    /// The capture was stopped before it said its formats.
    Stopped,
    /// The source has no pixels.
    EmptySource,
    /// The format is not offered.
    NoAbgr8888,
}

/// Whether a capture into shared memory can be made, and with what buffer.
pub open spec fn shm_plan(formats: Option<Formats>) -> Result<ShmPlan, ShmRefusal> {
    match formats {
        Some(f) => {
            let (w, h) = f.buffer_size;
            if w == 0 || h == 0 {
                Err(ShmRefusal::EmptySource)
            } else if !f.shm_formats@.contains(ABGR8888) {
                Err(ShmRefusal::NoAbgr8888)
            } else {
                Ok(
                    ShmPlan {
                        width: w,
                        height: h,
                        stride: (w * 4) as u32,
                        total: (w * 4 * h) as u64,
                    },
                )
            }
        },
        None => Err(ShmRefusal::Stopped),
    }
}

fn offers(v: &Vec<u32>, x: u32) -> (b: bool)
    ensures
        b == v@.contains(x),
{
    let mut i: usize = 0;
    while i < v.len()
        invariant
            i <= v@.len(),
            forall|j: int| 0 <= j < i ==> v@[j] != x,
        decreases v@.len() - i,
    {
        if v[i] == x {
            assert(v@[i as int] == x);
            return true;
        }
        i = i + 1;
    }
    false
}

/// Plans a capture into shared memory.
pub fn plan_shm(formats: Option<&Formats>) -> (r: Result<ShmPlan, ShmRefusal>)
    requires
        formats is Some ==> formats->0.buffer_size.0 * 4 <= u32::MAX,
    ensures
        r == shm_plan(
            match formats {
                Some(f) => Some(*f),
                None => None,
            },
        ),
        r is Ok ==> r->Ok_0.total == r->Ok_0.stride * r->Ok_0.height,
{
    match formats {
        Some(f) => {
            let (w, h) = f.buffer_size;
            if w == 0 || h == 0 {
                return Err(ShmRefusal::EmptySource);
            }
            if !offers(&f.shm_formats, ABGR8888) {
                return Err(ShmRefusal::NoAbgr8888);
            }
            let stride: u32 = w * 4;
            proof {
                assert(0 <= stride * h <= 0xffff_ffff * 0xffff_ffff) by (nonlinear_arith)
                    requires
                        0 <= stride <= 0xffff_ffff,
                        0 <= h <= 0xffff_ffff,
                ;
            }
            Ok(ShmPlan { width: w, height: h, stride, total: stride as u64 * h as u64 })
        },
        None => Err(ShmRefusal::Stopped),
    }
}

/// A buffer on the graphics card.
pub struct DmabufPlan {
    pub width: u32,
    pub height: u32,
    pub device: u64,
    pub fourcc: Fourcc,
    pub modifiers: Vec<u64>,
}

/// What is said where a capture on the graphics card stops before its formats.
pub open spec fn stopped_text() -> Seq<char> {
    "screencopy session stopped before formats"@
}

/// What is said of a source without pixels.
pub open spec fn empty_text(w: u32, h: u32) -> Seq<char> {
    "screencopy reported zero buffer size ("@ + text::decimal(w as nat) + "x"@ + text::decimal(
        h as nat,
    ) + ")"@
}

/// What is said where no format suits.
pub open spec fn unusable_text(
    label: SourceLabel,
    advertised: Seq<FormatModifiers>,
    consumer: Option<Seq<FormatModifiers>>,
) -> Seq<char> {
    "screencopy advertised no usable dmabuf format for "@ + label_text(label)
        + ": no usable dmabuf format in intersection: compositor="@ + dmabuf::list_text(
        dmabuf::codes(advertised),
    ) + ", consumer="@ + match consumer {
        Some(c) => "Some("@ + dmabuf::list_text(dmabuf::codes(c)) + ")"@,
        None => "None"@,
    }
}

/// Plans a capture on the graphics card. It fails, in this order, where the
/// capture stopped, where the source has no pixels, where no device is named, and
/// where no format suits both sides.
pub fn plan_dmabuf(
    formats: Option<&Formats>,
    consumer: Option<&Vec<FormatModifiers>>,
    label: SourceLabel,
) -> (r: Result<DmabufPlan, String>)
    ensures
        ({
            let c = match consumer {
                Some(c) => Some(c@),
                None => None,
            };
            match formats {
                None => r is Err && r->Err_0@ == stopped_text(),
                Some(f) => {
                    let (w, h) = f.buffer_size;
                    let p = dmabuf::picked(f.dmabuf_formats@, c);
                    if w == 0 || h == 0 {
                        r is Err && r->Err_0@ == empty_text(w, h)
                    } else if f.dmabuf_device is None {
                        r is Err && r->Err_0@ == "screencopy advertised no dmabuf_device"@
                    } else if p is None {
                        r is Err && r->Err_0@ == unusable_text(label, f.dmabuf_formats@, c)
                    } else {
                        &&& r is Ok
                        &&& r->Ok_0.width == w
                        &&& r->Ok_0.height == h
                        &&& r->Ok_0.device == f.dmabuf_device->0
                        &&& p == Some((r->Ok_0.fourcc, r->Ok_0.modifiers@))
                    }
                },
            }
        }),
{
    let f = match formats {
        Some(f) => f,
        None => {
            return Err(text::owned("screencopy session stopped before formats"));
        },
    };
    let (width, height) = f.buffer_size;
    if width == 0 || height == 0 {
        let mut s = text::owned("screencopy reported zero buffer size (");
        text::push_decimal(&mut s, width as u64);
        s.append("x");
        text::push_decimal(&mut s, height as u64);
        s.append(")");
        return Err(s);
    }
    let device: u64 = match f.dmabuf_device {
        Some(d) => d,
        None => {
            return Err(text::owned("screencopy advertised no dmabuf_device"));
        },
    };
    match dmabuf::pick_format(&f.dmabuf_formats, consumer) {
        Ok((fourcc, modifiers)) => Ok(DmabufPlan { width, height, device, fourcc, modifiers }),
        Err(e) => {
            let mut s = text::owned("screencopy advertised no usable dmabuf format for ");
            s.append(label.word());
            s.append(": ");
            s.append(e.message().as_str());
            proof {
                let a = dmabuf::list_text(dmabuf::codes(f.dmabuf_formats@));
                let head = "screencopy advertised no usable dmabuf format for "@ + label_text(label);
                let intro = "no usable dmabuf format in intersection: compositor="@;
                assert(": "@ + intro =~= ": no usable dmabuf format in intersection: compositor="@)
                    by {
                    reveal_strlit(": ");
                    reveal_strlit("no usable dmabuf format in intersection: compositor=");
                    reveal_strlit(": no usable dmabuf format in intersection: compositor=");
                }
                let c = match consumer {
                    Some(c) => Some(c@),
                    None => None,
                };
                let tail = match c {
                    Some(c) => "Some("@ + dmabuf::list_text(dmabuf::codes(c)) + ")"@,
                    None => "None"@,
                };
                assert(head + ": "@ + (intro + a + ", consumer="@ + tail) =~= head + (": "@ + intro)
                    + a + ", consumer="@ + tail);
                assert(s@ == unusable_text(label, f.dmabuf_formats@, c));
            }
            Err(s)
        },
    }
}

/// How a capture ended.
pub enum CaptureEnd {
    /// The picture is in the buffer.
    Ready,
    /// The compositor gave a reason for failing.
    Failed(String),
    /// Nobody will answer any more.
    Dropped,
    /// Nobody answered in time.
    TimedOut,
}

/// How long a capture may take.
pub const CAPTURE_TIMEOUT_SECS: u64 = 3;

/// What a capture's end means.
pub fn capture_result(end: CaptureEnd) -> (r: Result<(), String>)
    ensures
        match end {
            CaptureEnd::Ready => r is Ok,
            CaptureEnd::Failed(reason) => r is Err && r->Err_0@ == "screencopy failed: "@ + reason@,
            CaptureEnd::Dropped => r is Err && r->Err_0@
                == "screencopy oneshot dropped (session stopped?)"@,
            CaptureEnd::TimedOut => r is Err && r->Err_0@ == "screencopy timed out after 3s"@,
        },
{
    match end {
        CaptureEnd::Ready => Ok(()),
        CaptureEnd::Failed(reason) => {
            let mut s = text::owned("screencopy failed: ");
            s.append(reason.as_str());
            Err(s)
        },
        CaptureEnd::Dropped => Err(text::owned("screencopy oneshot dropped (session stopped?)")),
        CaptureEnd::TimedOut => Err(text::owned("screencopy timed out after 3s")),
    }
}

/// The outputs that are known, each once.
pub struct OutputRegistry {
    pub infos: Vec<NamedOutput>,
}

/// The place of an output.
pub open spec fn place(infos: Seq<NamedOutput>, output: u64) -> Option<int>
    decreases infos.len(),
{
    if infos.len() == 0 {
        None
    } else {
        match place(infos.drop_last(), output) {
            Some(i) => Some(i),
            None => if infos.last().output == output {
                Some(infos.len() - 1)
            } else {
                None
            },
        }
    }
}

proof fn lemma_place_prefix(infos: Seq<NamedOutput>, output: u64, n: int)
    requires
        0 <= n <= infos.len(),
        place(infos.take(n), output) is Some,
    ensures
        place(infos, output) == place(infos.take(n), output),
    decreases infos.len(),
{
    if n < infos.len() {
        assert(infos.drop_last().take(n) =~= infos.take(n));
        lemma_place_prefix(infos.drop_last(), output, n);
    } else {
        assert(infos.take(n) =~= infos);
    }
}

impl OutputRegistry {
    pub fn new() -> (r: OutputRegistry)
        ensures
            r.infos@.len() == 0,
    {
        OutputRegistry { infos: Vec::new() }
    }

    fn find(&self, output: u64) -> (r: Option<usize>)
        ensures
            match r {
                Some(i) => i < self.infos@.len() && place(self.infos@, output) == Some(i as int),
                None => place(self.infos@, output) is None,
            },
    {
        let mut i: usize = 0;
        while i < self.infos.len()
            invariant
                i <= self.infos@.len(),
                place(self.infos@.take(i as int), output) is None,
            decreases self.infos@.len() - i,
        {
            assert(self.infos@.take(i + 1).drop_last() =~= self.infos@.take(i as int));
            if self.infos[i].output == output {
                proof {
                    lemma_place_prefix(self.infos@, output, i + 1);
                }
                return Some(i);
            }
            i = i + 1;
        }
        assert(self.infos@.take(i as int) =~= self.infos@);
        None
    }

    /// Notes an output's description: a new one replaces the one before it.
    pub fn set_output_info(&mut self, info: NamedOutput)
        ensures
            final(self).infos@ == (match place(old(self).infos@, info.output) {
                Some(i) => old(self).infos@.update(i, info),
                None => old(self).infos@.push(info),
            }),
            final(self).infos@ == noted(old(self).infos@, info),
    {
        match self.find(info.output) {
            Some(i) => {
                self.infos.set(i, info);
            },
            None => {
                self.infos.push(info);
            },
        }
    }

    /// Forgets an output.
    pub fn remove_output(&mut self, output: u64)
        ensures
            final(self).infos@ == (match place(old(self).infos@, output) {
                Some(i) => old(self).infos@.remove(i),
                None => old(self).infos@,
            }),
    {
        if let Some(i) = self.find(output) {
            self.infos.remove(i);
        }
    }
}

/// The outputs once one has been described.
pub open spec fn noted(infos: Seq<NamedOutput>, info: NamedOutput) -> Seq<NamedOutput> {
    match place(infos, info.output) {
        Some(i) => infos.update(i, info),
        None => infos.push(info),
    }
}

proof fn lemma_place(infos: Seq<NamedOutput>, output: u64)
    ensures
        match place(infos, output) {
            Some(i) => 0 <= i < infos.len() && infos[i].output == output && forall|j: int|
                0 <= j < i ==> (#[trigger] infos[j]).output != output,
            None => forall|j: int| 0 <= j < infos.len() ==> (#[trigger] infos[j]).output != output,
        },
    decreases infos.len(),
{
    if infos.len() > 0 {
        let init = infos.drop_last();
        lemma_place(init, output);
        assert forall|j: int| 0 <= j < init.len() implies #[trigger] infos[j] == init[j] by {}
    }
}

/// An output goes by what was last said of it, and the others by what they went by before.
pub proof fn outputs_go_by_what_was_last_said(infos: Seq<NamedOutput>, info: NamedOutput, other: u64)
    ensures
        toplevels::name_of(noted(infos, info), other) == (if other == info.output {
            info.name
        } else {
            toplevels::name_of(infos, other)
        }),
{
    lemma_place(infos, info.output);
    lemma_place(infos, other);
    let after = noted(infos, info);
    let at = match place(infos, info.output) {
        Some(i) => i,
        None => infos.len() as int,
    };
    assert(after[at] == info);
    assert forall|j: int| 0 <= j < infos.len() && j != at implies #[trigger] after[j] == infos[j] by {}
    if other == info.output {
        toplevels::an_outputs_name_is_its_own(after, other, at);
    } else {
        match place(infos, other) {
            Some(k) => {
                assert(k != at);
                assert forall|j: int| 0 <= j < k implies !((#[trigger] after[j]).output == other) by {
                    if j != at {
                        assert(infos[j].output != other);
                    }
                }
                toplevels::an_outputs_name_is_its_own(infos, other, k);
                toplevels::an_outputs_name_is_its_own(after, other, k);
            },
            None => {
                assert forall|j: int| 0 <= j < after.len() implies !((#[trigger] after[j]).output
                    == other) by {
                    if j != at {
                        assert(infos[j].output != other);
                    }
                }
                toplevels::an_outputs_name_is_its_own(infos, other, infos.len() as int);
                toplevels::an_outputs_name_is_its_own(after, other, after.len() as int);
            },
        }
    }
}

/// A capture into shared memory has a buffer of the source's size, with room for four bytes
/// of each pixel and no more.
pub proof fn shared_memory_holds_the_source(f: Formats)
    requires
        f.buffer_size.0 * 4 <= u32::MAX,
        shm_plan(Some(f)) is Ok,
    ensures
        ({
            let p = shm_plan(Some(f))->Ok_0;
            &&& (p.width, p.height) == f.buffer_size
            &&& p.width > 0 && p.height > 0
            &&& p.stride == 4 * p.width
            &&& p.total == p.stride * p.height
        }),
{
    let (w, h) = f.buffer_size;
    assert(0 <= (w * 4) * h <= 0xffff_ffff * 0xffff_ffff) by (nonlinear_arith)
        requires
            0 <= w * 4 <= 0xffff_ffff,
            0 <= h <= 0xffff_ffff,
    ;
}

/// A capture into shared memory is refused where it was stopped, where its source has no
/// pixels, or where the compositor does not offer the one pixel format that is read; and for
/// no other reason.
pub proof fn captures_are_refused_for_a_reason(f: Formats)
    ensures
        shm_plan(None) == Err::<ShmPlan, ShmRefusal>(ShmRefusal::Stopped),
        shm_plan(Some(f)) is Ok <==> f.buffer_size.0 > 0 && f.buffer_size.1 > 0 && (exists|i: int|
            0 <= i < f.shm_formats@.len() && f.shm_formats@[i] == ABGR8888),
        shm_plan(Some(f)) == Err::<ShmPlan, ShmRefusal>(ShmRefusal::EmptySource) <==> (
        f.buffer_size.0 == 0 || f.buffer_size.1 == 0),
        shm_plan(Some(f)) == Err::<ShmPlan, ShmRefusal>(ShmRefusal::NoAbgr8888)
            ==> !f.shm_formats@.contains(ABGR8888),
        shm_plan(Some(f)) != Err::<ShmPlan, ShmRefusal>(ShmRefusal::Stopped),
{
}

} // verus!
