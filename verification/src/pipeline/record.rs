//! Recording a monitor, a window or a region: what is captured, how long to wait
//! for it, and when to stop.
use crate::encode::video::CropRect;
use crate::selector::selection;
use crate::selector::selection::Selection;
use crate::text;
use vstd::prelude::*;

verus! {

/// One output's share of a recording across monitors: which of its pixels, and
/// where on the canvas they go.
pub struct RegionPart {
    pub output_name: String,
    pub src_crop: CropRect,
    pub dst_pos: (u32, u32),
    pub dst_size: (u32, u32),
}

/// What to record.
pub enum ScreencopyTarget {
    Output { output_name: String },
    Toplevel { identifier: String },
}

/// What is cut out of a target. A window is recorded whole: its own bounds are the
/// crop.
pub fn target_crop(target: &ScreencopyTarget, crop: Option<CropRect>) -> (c: Option<CropRect>)
    ensures
        c == (if target is Output {
            crop
        } else {
            None
        }),
        c == cut_out(*target, crop),
{
    match target {
        ScreencopyTarget::Output { .. } => crop,
        ScreencopyTarget::Toplevel { .. } => None,
    }
}

/// How long the first frame of a stream may take, in seconds.
pub const FORMAT_LIMIT_SECS: u64 = 5;

/// Where frames come from.
pub enum FrameSource {
    /// The desktop's screen cast, for a video or for an animated image.
    ScreenCast { gif: bool },
    /// The compositor, for a video or for an animated image.
    Screencopy { gif: bool },
    /// The compositor, one of several streams.
    Stream { name: String },
}

/// Why no format came.
#[derive(Clone, Copy, Debug, PartialEq, Eq, Structural)]
pub enum FormatLoss {
    TimedOut,
    Dropped,
}

/// What the message says.
pub open spec fn loss_text(source: FrameSource, loss: FormatLoss) -> Seq<char> {
    match (source, loss) {
        (
            FrameSource::ScreenCast { gif },
            FormatLoss::TimedOut,
        ) => "pipewire stream did not negotiate format within 5s"@ + gif_suffix(gif),
        (
            FrameSource::ScreenCast { gif },
            FormatLoss::Dropped,
        ) => "pipewire capture thread dropped before format arrived"@ + gif_suffix(gif),
        (
            FrameSource::Screencopy { gif },
            FormatLoss::TimedOut,
        ) => "screencopy did not produce a frame within 5s"@ + gif_suffix(gif),
        (
            FrameSource::Screencopy { gif },
            FormatLoss::Dropped,
        ) => "screencopy capture dropped before first frame"@ + gif_suffix(gif),
        (FrameSource::Stream { name }, FormatLoss::TimedOut) => "stream "@ + name@
            + " did not negotiate format within 5s"@,
        (FrameSource::Stream { name }, FormatLoss::Dropped) => "stream "@ + name@
            + " dropped before first frame"@,
    }
}

/// What marks a message of an animated image.
pub open spec fn gif_suffix(gif: bool) -> Seq<char> {
    if gif {
        " (gif)"@
    } else {
        Seq::empty()
    }
}

fn mark_gif(s: &mut String, gif: bool)
    ensures
        final(s)@ == old(s)@ + gif_suffix(gif),
{
    if gif {
        s.append(" (gif)");
    }
    assert(s@ =~= old(s)@ + gif_suffix(gif));
}

/// The message that no format came.
pub fn loss_message(source: &FrameSource, loss: FormatLoss) -> (s: String)
    ensures
        s@ == loss_text(*source, loss),
{
    match source {
        FrameSource::ScreenCast { gif } => {
            let mut s = match loss {
                FormatLoss::TimedOut => text::owned(
                    "pipewire stream did not negotiate format within 5s",
                ),
                FormatLoss::Dropped => text::owned(
                    "pipewire capture thread dropped before format arrived",
                ),
            };
            mark_gif(&mut s, *gif);
            s
        },
        FrameSource::Screencopy { gif } => {
            let mut s = match loss {
                FormatLoss::TimedOut => text::owned(
                    "screencopy did not produce a frame within 5s",
                ),
                FormatLoss::Dropped => text::owned(
                    "screencopy capture dropped before first frame",
                ),
            };
            mark_gif(&mut s, *gif);
            s
        },
        FrameSource::Stream { name } => {
            let mut s = text::owned("stream ");
            s.append(name.as_str());
            match loss {
                FormatLoss::TimedOut => s.append(" did not negotiate format within 5s"),
                FormatLoss::Dropped => s.append(" dropped before first frame"),
            }
            s
        },
    }
}

/// What a selection on the command line leads to.
pub enum SelectionOutcome {
    Selected(Selection),
    /// The user gave up.
    Cancelled,
    Failed,
}

/// How a run goes on.
#[derive(Clone, Copy, Debug, PartialEq, Eq, Structural)]
pub enum RunPlan {
    /// Capture, cutting this out.
    Capture(Option<CropRect>),
    /// Leave quietly.
    Leave,
    Fail,
}

/// How a run goes on: whole where that was asked for, else with what was selected.
/// A selection that the user gave up is no error.
pub fn plan_run(full: bool, outcome: &SelectionOutcome) -> (p: RunPlan)
    ensures
        p == (if full {
            RunPlan::Capture(None)
        } else {
            match outcome {
                SelectionOutcome::Selected(s) => {
                    let r = selection::physical(s.region_logical, s.scale);
                    RunPlan::Capture(Some(CropRect { x: r.0, y: r.1, w: r.2, h: r.3 }))
                },
                SelectionOutcome::Cancelled => RunPlan::Leave,
                SelectionOutcome::Failed => RunPlan::Fail,
            }
        }),
        p == run_plan(full, *outcome),
{
    if full {
        return RunPlan::Capture(None);
    }
    match outcome {
        SelectionOutcome::Selected(s) => {
            let (x, y, w, h) = s.region_physical();
            RunPlan::Capture(Some(CropRect { x, y, w, h }))
        },
        SelectionOutcome::Cancelled => RunPlan::Leave,
        SelectionOutcome::Failed => RunPlan::Fail,
    }
}

/// When a run on the command line stops.
#[derive(Clone, Copy, Debug, PartialEq, Eq, Structural)]
pub enum StopRule {
    /// After so many seconds, or on an interrupt before.
    After(u64),
    OnInterrupt,
}

/// When a video recording on the command line stops.
pub open spec fn stops(duration_secs: Option<u64>) -> StopRule {
    match duration_secs {
        Some(n) => StopRule::After(n),
        None => StopRule::OnInterrupt,
    }
}

/// When a video recording on the command line stops.
pub fn stop_rule(duration_secs: Option<u64>) -> (r: StopRule)
    ensures
        r == match duration_secs {
            Some(n) => StopRule::After(n),
            None => StopRule::OnInterrupt,
        },
        r == stops(duration_secs),
{
    match duration_secs {
        Some(n) => StopRule::After(n),
        None => StopRule::OnInterrupt,
    }
}

/// What is cut out of a target.
pub open spec fn cut_out(target: ScreencopyTarget, crop: Option<CropRect>) -> Option<CropRect> {
    if target is Output {
        crop
    } else {
        None
    }
}

/// A monitor is recorded as it was cropped, and a window whole, whatever crop was asked
/// for.
pub proof fn windows_are_recorded_whole(target: ScreencopyTarget, crop: Option<CropRect>)
    ensures
        target matches ScreencopyTarget::Output { output_name } ==> cut_out(target, crop) == crop,
        target matches ScreencopyTarget::Toplevel { identifier } ==> cut_out(target, crop) is None,
{
}

/// How a run goes on.
pub open spec fn run_plan(full: bool, outcome: SelectionOutcome) -> RunPlan {
    if full {
        RunPlan::Capture(None)
    } else {
        match outcome {
            SelectionOutcome::Selected(s) => {
                let r = selection::physical(s.region_logical, s.scale);
                RunPlan::Capture(Some(CropRect { x: r.0, y: r.1, w: r.2, h: r.3 }))
            },
            SelectionOutcome::Cancelled => RunPlan::Leave,
            SelectionOutcome::Failed => RunPlan::Fail,
        }
    }
}

/// A run records what was selected: the crop's edges are the selection's in pixels. It
/// records everything only where that was asked for, leaves only where the user gave up,
/// and fails only where the selection did.
pub proof fn runs_record_what_was_selected(full: bool, outcome: SelectionOutcome)
    ensures
        run_plan(full, outcome) == RunPlan::Capture(None) <==> full,
        run_plan(full, outcome) == RunPlan::Leave <==> !full && outcome is Cancelled,
        run_plan(full, outcome) == RunPlan::Fail <==> !full && outcome is Failed,
        ({
            let s = outcome->Selected_0;
            let (x, y, w, h) = s.region_logical;
            (!full && outcome is Selected && s.scale >= 1 && w >= 1 && h >= 1 && i32::MIN <= x * s.scale
                <= i32::MAX && i32::MIN <= y * s.scale <= i32::MAX && w * s.scale <= u32::MAX && h
                * s.scale <= u32::MAX) ==> ({
                &&& run_plan(full, outcome) matches RunPlan::Capture(Some(c))
                &&& c.x == x * s.scale
                &&& c.y == y * s.scale
                &&& c.w == w * s.scale
                &&& c.h == h * s.scale
            })
        }),
{
    if let SelectionOutcome::Selected(s) = outcome {
        let (x, y, w, h) = s.region_logical;
        let k = s.scale;
        if k >= 1 && w >= 1 && h >= 1 && i32::MIN <= x * k <= i32::MAX && i32::MIN <= y * k <= i32::MAX
            && w * k <= u32::MAX && h * k <= u32::MAX {
            selection::regions_scale_with_their_output(s.region_logical, k);
            assert((x + w) * k == x * k + w * k) by (nonlinear_arith);
            assert((y + h) * k == y * k + h * k) by (nonlinear_arith);
        }
    }
}

/// What is said of an animated image is what is said of a video, with a mark behind it; what
/// is said of a stream has its name in it.
pub proof fn losses_are_told_apart(name: String, loss: FormatLoss)
    ensures
        loss_text(FrameSource::ScreenCast { gif: true }, loss) == loss_text(
            FrameSource::ScreenCast { gif: false },
            loss,
        ) + " (gif)"@,
        loss_text(FrameSource::Screencopy { gif: true }, loss) == loss_text(
            FrameSource::Screencopy { gif: false },
            loss,
        ) + " (gif)"@,
        text::holds(loss_text(FrameSource::Stream { name }, loss), name@),
{
    let none = Seq::<char>::empty();
    let a = loss_text(FrameSource::ScreenCast { gif: false }, loss);
    let b = loss_text(FrameSource::Screencopy { gif: false }, loss);
    assert(a + " (gif)"@ =~= loss_text(FrameSource::ScreenCast { gif: true }, loss)) by {
        assert("pipewire stream did not negotiate format within 5s"@ + none
            =~= "pipewire stream did not negotiate format within 5s"@);
        assert("pipewire capture thread dropped before format arrived"@ + none
            =~= "pipewire capture thread dropped before format arrived"@);
    }
    assert(b + " (gif)"@ =~= loss_text(FrameSource::Screencopy { gif: true }, loss)) by {
        assert("screencopy did not produce a frame within 5s"@ + none
            =~= "screencopy did not produce a frame within 5s"@);
        assert("screencopy capture dropped before first frame"@ + none
            =~= "screencopy capture dropped before first frame"@);
    }
    text::lemma_holds("stream "@, name@, " did not negotiate format within 5s"@);
    text::lemma_holds("stream "@, name@, " dropped before first frame"@);
}

/// A recording with a duration stops after as many seconds, and one without only when it is
/// told to.
pub proof fn recordings_last_as_long_as_asked(a: u64, b: u64)
    ensures
        stops(Some(a)) matches StopRule::After(n) && n == a,
        stops(None) is OnInterrupt,
        stops(Some(a)) == stops(Some(b)) ==> a == b,
{
}

} // verus!
