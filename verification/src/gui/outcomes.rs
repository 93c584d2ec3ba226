//! What comes of the panel's buttons: which picture is saved where, and what is
//! recorded how.
use crate::cli::{GifArgs, RecordArgs, VideoContainer};
use crate::encode::video::CropRect;
use crate::gui::config::{Mode, RecordFormat, RecordFps, SaveTarget, Source};
use crate::gui::outputs;
use crate::gui::outputs::OutputInfo;
use crate::gui::steps;
use crate::gui::steps::{
    Action, ActionModel, CaptureState, Env, Msg, PanelModel, Step, WindowEntry,
};
use crate::gui::stitch;
use crate::gui::widget::rectangle_selection::Rect;
use crate::pipeline::record::ScreencopyTarget;
use crate::pipeline::screenshot::Destination;
use vstd::prelude::*;

verus! {

/// A destination is the one that was chosen: the clipboard, a file with a name of
/// its own among the pictures, or the file among the documents.
pub open spec fn as_chosen(p: PanelModel, env: Env, d: Destination) -> bool {
    &&& p.save_target == SaveTarget::Clipboard <==> d is Clipboard
    &&& p.save_target == SaveTarget::Pictures ==> d == Destination::File(None)
    &&& p.save_target == SaveTarget::Documents ==> d == Destination::File(env.documents_file)
}

/// A video is asked for in the chosen format, at the chosen rate, with the chosen
/// sound, until it is stopped.
pub open spec fn video_as_chosen(p: PanelModel, a: RecordArgs) -> bool {
    &&& p.record_format == RecordFormat::Mp4 <==> a.container == VideoContainer::Mp4
    &&& p.record_format == RecordFormat::Mkv <==> a.container == VideoContainer::Mkv
    &&& p.record_format == RecordFormat::WebM <==> a.container == VideoContainer::WebM
    &&& p.record_fps == RecordFps::Fps24 <==> a.fps == 24
    &&& p.record_fps == RecordFps::Fps30 <==> a.fps == 30
    &&& p.record_fps == RecordFps::Fps60 <==> a.fps == 60
    &&& a.encoder == p.rec_encoder
    &&& a.mic == p.rec_audio_mic
    &&& a.system_audio == p.rec_audio_system
    &&& a.cursor == p.rec_cursor
    &&& a.full <==> p.source != Source::Region
    &&& a.duration_secs is None
    &&& a.common.file is None
    &&& a.common.notify == p.notify
    &&& a.common.clipboard == p.clipboard
}

/// An animated image is asked for with the chosen pointer, until it is stopped: small
/// enough to be sent, and smooth.
pub open spec fn image_as_chosen(p: PanelModel, a: GifArgs) -> bool {
    &&& a.fps == 20
    &&& a.quality == 90
    &&& a.max_width == 800
    &&& a.cursor == p.rec_cursor
    &&& a.full <==> p.source != Source::Region
    &&& a.duration_secs == 0
    &&& a.common.file is None
    &&& a.common.notify == p.notify
    &&& a.common.clipboard == p.clipboard
}

/// The last thing that a step asks for is a recording of that target and crop, as
/// it was chosen; it runs from now on and has not been told to stop.
pub open spec fn records(
    p: PanelModel,
    s: Step,
    target: ScreencopyTarget,
    crop: Option<CropRect>,
    now: u64,
) -> bool {
    &&& s.panel.capture == (CaptureState::Recording { stop_armed: true })
    &&& s.panel.recording_started_at == Some(now)
    &&& s.actions.len() > 0
    &&& match s.actions.last() {
        ActionModel::Plain(Action::Record { target: t, args, crop: c }) => {
            &&& p.record_format != RecordFormat::Gif
            &&& t == target
            &&& c == crop
            &&& video_as_chosen(p, args)
        },
        ActionModel::Plain(Action::RecordGif { target: t, args, crop: c }) => {
            &&& p.record_format == RecordFormat::Gif
            &&& t == target
            &&& c == crop
            &&& image_as_chosen(p, args)
        },
        _ => false,
    }
}

/// A step saves the frozen frame of the output at a place, or captures the output
/// where it has none; nothing else.
pub open spec fn shoots(
    p: PanelModel,
    s: Step,
    i: int,
    crop: Option<CropRect>,
    env: Env,
) -> bool {
    &&& s.panel == (PanelModel { capture: CaptureState::Saving, ..p })
    &&& s.actions.len() == 1
    &&& match s.actions[0] {
        ActionModel::Plain(Action::SaveFrame { frame, crop: c, destination, notify }) => {
            &&& p.outputs[i].frozen == Some(frame)
            &&& c == crop
            &&& as_chosen(p, env, destination)
            &&& notify == p.notify
        },
        ActionModel::Plain(
            Action::Screenshot { output_name, cursor, crop: c, destination, notify },
        ) => {
            &&& p.outputs[i].frozen is None
            &&& output_name == p.outputs[i].name
            &&& cursor == p.rec_cursor
            &&& c == crop
            &&& as_chosen(p, env, destination)
            &&& notify == p.notify
        },
        _ => false,
    }
}

/// No output before that place has its name.
pub open spec fn first_of_its_name(infos: Seq<OutputInfo>, i: int) -> bool {
    &&& 0 <= i < infos.len()
    &&& forall|j: int| 0 <= j < i ==> (#[trigger] infos[j]).name@ != infos[i].name@
}

proof fn lemma_first_of_its_name(infos: Seq<OutputInfo>, i: int)
    requires
        first_of_its_name(infos, i),
    ensures
        stitch::find_named(infos, infos[i].name@) == Some(i),
{
    stitch::lemma_find_named(infos, infos[i].name@);
    let f = stitch::find_named(infos, infos[i].name@);
    assert(f is Some);
    if f->0 < i {
        assert(infos[f->0].name@ != infos[i].name@);
    }
}

/// A click on a display's tool bar shoots that display, whole.
pub proof fn the_display_clicked_is_shot(p: PanelModel, clicked: String, i: int, env: Env)
    requires
        p.capture is Idle,
        p.mode == Mode::Screenshot,
        p.source == Source::Screen,
        first_of_its_name(p.outputs, i),
        clicked@ == p.outputs[i].name@,
    ensures
        shoots(p, steps::stepped(p, Msg::PrimaryAction(Some(clicked)), env), i, None, env),
{
    reveal(steps::primary);
    reveal(steps::shot_taken);
    reveal(steps::output_shot);
    lemma_first_of_its_name(p.outputs, i);
}

/// The tool bars that give way to the pill leave the choices as they were.
proof fn lemma_switched_over(p: PanelModel)
    ensures
        steps::switched_over(p).panel.recording_target_output == p.recording_target_output,
        steps::switched_over(p).panel.region == p.region,
        steps::switched_over(p).panel.stop_pill_id is Some,
{
    reveal(steps::switched_over);
    reveal(steps::toolbars_closed);
    reveal(steps::pill_opened);
    reveal(steps::overlays_opened);
}

proof fn lemma_recording_of(p: PanelModel, s: Step, target: ScreencopyTarget, crop: Option<CropRect>, now: u64)
    ensures
        records(
            p,
            steps::recording_begun(s, now, steps::recording_of(p, target, crop)),
            target,
            crop,
            now,
        ),
{
}

proof fn lemma_output_recorded(p: PanelModel, name: String, crop: Option<CropRect>, now: u64)
    ensures
        records(
            p,
            steps::output_recorded(p, name, crop, now),
            ScreencopyTarget::Output { output_name: name },
            crop,
            now,
        ),
        steps::output_recorded(p, name, crop, now).panel.recording_target_output == Some(name),
        steps::output_recorded(p, name, crop, now).panel.stop_pill_id is Some,
{
    reveal(steps::output_recorded);
    let q = PanelModel { recording_target_output: Some(name), ..p };
    lemma_switched_over(q);
    lemma_recording_of(
        p,
        steps::switched_over(q),
        ScreencopyTarget::Output { output_name: name },
        crop,
        now,
    );
}

/// A click on a display's tool bar records that display, but for its border.
pub proof fn the_display_clicked_is_recorded(p: PanelModel, clicked: String, i: int, env: Env)
    requires
        p.capture is Idle,
        p.mode == Mode::Record,
        p.source == Source::Screen,
        first_of_its_name(p.outputs, i),
        clicked@ == p.outputs[i].name@,
    ensures
        ({
            let s = steps::stepped(p, Msg::PrimaryAction(Some(clicked)), env);
            &&& records(
                p,
                s,
                ScreencopyTarget::Output { output_name: p.outputs[i].name },
                outputs::inset_crop(p.outputs[i].physical_size),
                env.now,
            )
            &&& s.panel.recording_target_output == Some(p.outputs[i].name)
            &&& s.panel.stop_pill_id is Some
        }),
{
    lemma_first_of_its_name(p.outputs, i);
    let crop = outputs::inset_crop(p.outputs[i].physical_size);
    lemma_output_recorded(p, p.outputs[i].name, crop, env.now);
    assert(steps::screen_recorded(p, i, env.now) == steps::output_recorded(
        p,
        p.outputs[i].name,
        crop,
        env.now,
    )) by {
        reveal(steps::screen_recorded);
    }
    assert(p.active_output(Some(clicked@)) == Some(i));
    assert(steps::recording_started(p, Some(clicked@), env.now) == steps::screen_recorded(
        p,
        i,
        env.now,
    )) by {
        reveal(steps::recording_started);
    }
    reveal(steps::primary);
}

/// Two corners of the selection `r`, whichever it was dragged from, are those of `q`,
/// whose left and top come first.
pub open spec fn spans(r: Rect, q: Rect) -> bool {
    &&& q.left < q.right
    &&& q.top < q.bottom
    &&& (r.left == q.left && r.right == q.right) || (r.left == q.right && r.right == q.left)
    &&& (r.top == q.top && r.bottom == q.bottom) || (r.top == q.bottom && r.bottom == q.top)
}

/// The whole coordinate in the middle between two, the nearer to zero of two such.
pub open spec fn midway(a: int, b: int, m: int) -> bool {
    &&& -1 <= 2 * m - (a + b) <= 1
    &&& a + b >= 0 ==> 2 * m <= a + b
    &&& a + b < 0 ==> 2 * m >= a + b
}

/// The output at a place is the first that the middle of `q` lies on.
pub open spec fn holds_the_middle(infos: Seq<OutputInfo>, q: Rect, i: int, x: int, y: int) -> bool {
    &&& midway(q.left as int, q.right as int, x)
    &&& midway(q.top as int, q.bottom as int, y)
    &&& 0 <= i < infos.len()
    &&& infos[i].has_point(x, y)
    &&& forall|j: int| 0 <= j < i ==> !(#[trigger] infos[j]).has_point(x, y)
}

/// No two outputs touch `q`.
pub open spec fn touches_one_at_most(infos: Seq<OutputInfo>, q: Rect) -> bool {
    forall|i: int, j: int|
        0 <= i < j < infos.len() ==> !(outputs::overlaps(#[trigger] infos[i], q)
            && outputs::overlaps(#[trigger] infos[j], q))
}

proof fn lemma_none_touched(infos: Seq<OutputInfo>, q: Rect)
    ensures
        outputs::overlap_count(infos, q) == 0 <==> forall|j: int|
            0 <= j < infos.len() ==> !outputs::overlaps(#[trigger] infos[j], q),
    decreases infos.len(),
{
    if infos.len() > 0 {
        let init = infos.drop_last();
        lemma_none_touched(init, q);
        assert forall|j: int| 0 <= j < init.len() implies #[trigger] init[j] == infos[j] by {}
        if outputs::overlap_count(infos, q) == 0 {
            assert forall|j: int| 0 <= j < infos.len() implies !outputs::overlaps(
                #[trigger] infos[j],
                q,
            ) by {
                if j < init.len() {
                    assert(!outputs::overlaps(init[j], q));
                }
            }
        } else if outputs::overlap_count(init, q) == 0 {
            assert(outputs::overlaps(infos[infos.len() - 1], q));
        } else {
            let j = choose|j: int| 0 <= j < init.len() && outputs::overlaps(#[trigger] init[j], q);
            assert(outputs::overlaps(infos[j], q));
        }
    }
}

proof fn lemma_touched(infos: Seq<OutputInfo>, q: Rect)
    ensures
        outputs::overlap_count(infos, q) >= 2 <==> !touches_one_at_most(infos, q),
    decreases infos.len(),
{
    if infos.len() > 0 {
        let init = infos.drop_last();
        let n = infos.len() - 1;
        lemma_touched(init, q);
        lemma_none_touched(init, q);
        assert forall|j: int| 0 <= j < init.len() implies #[trigger] init[j] == infos[j] by {}
        assert(infos.last() == infos[n]);
        if outputs::overlap_count(init, q) >= 2 {
            let (i, j) = choose|i: int, j: int|
                0 <= i < j < init.len() && outputs::overlaps(#[trigger] init[i], q)
                    && outputs::overlaps(#[trigger] init[j], q);
            assert(outputs::overlaps(infos[i], q) && outputs::overlaps(infos[j], q));
        } else if outputs::overlap_count(infos, q) >= 2 {
            let i = choose|i: int| 0 <= i < init.len() && outputs::overlaps(#[trigger] init[i], q);
            assert(outputs::overlaps(infos[i], q) && outputs::overlaps(infos[n], q));
        } else {
            assert forall|i: int, j: int| 0 <= i < j < infos.len() implies !(outputs::overlaps(
                #[trigger] infos[i],
                q,
            ) && outputs::overlaps(#[trigger] infos[j], q)) by {
                assert(init[i] == infos[i]);
                if j < n {
                    assert(init[j] == infos[j]);
                } else if outputs::overlaps(infos[i], q) && outputs::overlaps(infos[j], q) {
                    assert(outputs::overlap_count(init, q) != 0);
                }
            }
        }
    }
}

proof fn lemma_spread(p: PanelModel, r: Rect, q: Rect)
    requires
        p.region == Some(r),
        spans(r, q),
    ensures
        r.normalized() == q,
        p.region_spread() == outputs::overlap_count(p.outputs, q),
        p.region_spread() >= 2 <==> !touches_one_at_most(p.outputs, q),
{
    lemma_touched(p.outputs, q);
}

proof fn lemma_middle(p: PanelModel, r: Rect, q: Rect, i: int, x: int, y: int)
    requires
        p.region == Some(r),
        spans(r, q),
        outputs::bounded(r),
        holds_the_middle(p.outputs, q, i, x, y),
    ensures
        outputs::find_at(p.outputs, outputs::centre(q).0, outputs::centre(q).1) == Some(i),
        outputs::region_target(p.outputs, r) == (match outputs::region_crop(
            p.outputs[i].rect(),
            p.outputs[i].physical_size,
            q,
        ) {
            Some(c) => Some((p.outputs[i].name, c)),
            None => None,
        }),
{
    assert(r.normalized() == q);
    assert(outputs::centre(q) == (x, y));
    outputs::lemma_find_at(p.outputs, x, y);
    let f = outputs::find_at(p.outputs, x, y);
    assert(f is Some);
    if f->0 < i {
        assert(!p.outputs[f->0].has_point(x, y));
    }
}

/// A region on one display is cut out of the frame of the display that its middle
/// lies on, where no tool bar is under the pointer.
pub proof fn the_region_is_shot(
    p: PanelModel,
    r: Rect,
    q: Rect,
    i: int,
    x: int,
    y: int,
    env: Env,
)
    requires
        p.capture is Idle,
        p.mode == Mode::Screenshot,
        p.source == Source::Region,
        p.hovered_toolbar is None,
        p.region == Some(r),
        spans(r, q),
        outputs::bounded(r),
        touches_one_at_most(p.outputs, q),
        holds_the_middle(p.outputs, q, i, x, y),
        first_of_its_name(p.outputs, i),
    ensures
        shoots(
            p,
            steps::stepped(p, Msg::PrimaryAction(None), env),
            i,
            outputs::region_crop(p.outputs[i].rect(), p.outputs[i].physical_size, q),
            env,
        ),
{
    lemma_spread(p, r, q);
    lemma_middle(p, r, q, i, x, y);
    lemma_first_of_its_name(p.outputs, i);
    assert(p.active_output(None) == Some(i));
    reveal(steps::primary);
    reveal(steps::shot_taken);
    reveal(steps::output_shot);
}

/// A region on one display is cut out of the recording of the display that its middle
/// lies on, wherever the pointer is and whatever was clicked.
pub proof fn the_region_is_recorded(
    p: PanelModel,
    clicked: Option<String>,
    r: Rect,
    q: Rect,
    i: int,
    x: int,
    y: int,
    crop: CropRect,
    env: Env,
)
    requires
        p.capture is Idle,
        p.mode == Mode::Record,
        p.source == Source::Region,
        p.region == Some(r),
        spans(r, q),
        outputs::bounded(r),
        touches_one_at_most(p.outputs, q),
        holds_the_middle(p.outputs, q, i, x, y),
        outputs::region_crop(p.outputs[i].rect(), p.outputs[i].physical_size, q) == Some(crop),
    ensures
        ({
            let s = steps::stepped(p, Msg::PrimaryAction(clicked), env);
            &&& records(
                p,
                s,
                ScreencopyTarget::Output { output_name: p.outputs[i].name },
                Some(crop),
                env.now,
            )
            &&& s.panel.recording_target_output == Some(p.outputs[i].name)
            &&& s.panel.stop_pill_id is Some
        }),
{
    lemma_spread(p, r, q);
    lemma_middle(p, r, q, i, x, y);
    lemma_output_recorded(p, p.outputs[i].name, Some(crop), env.now);
    let c = match clicked {
        Some(name) => Some(name@),
        None => None,
    };
    assert(steps::recording_started(p, c, env.now) == steps::output_recorded(
        p,
        p.outputs[i].name,
        Some(crop),
        env.now,
    )) by {
        reveal(steps::recording_started);
    }
    reveal(steps::primary);
}

/// A region across displays is saved as one image, made of a part from each.
pub proof fn a_region_across_displays_is_one_image(
    p: PanelModel,
    clicked: Option<String>,
    r: Rect,
    q: Rect,
    env: Env,
)
    requires
        p.capture is Idle,
        p.mode == Mode::Screenshot,
        p.source == Source::Region,
        p.region == Some(r),
        spans(r, q),
        !touches_one_at_most(p.outputs, q),
        stitch::stitchable(p.outputs, r),
        stitch::region_canvas_fits(p.outputs, r),
    ensures
        ({
            let s = steps::stepped(p, Msg::PrimaryAction(clicked), env);
            &&& s.panel == (PanelModel { capture: CaptureState::Saving, ..p })
            &&& s.actions.len() == 1
            &&& s.actions[0] matches ActionModel::SaveStitched {
                pixels,
                width,
                height,
                stride,
                destination,
                notify,
            } && {
                &&& pixels == stitch::stitched(
                    p.outputs,
                    stitch::parts_of(p.outputs, q),
                    width as int,
                    height as int,
                )
                &&& stitch::stitches(p.outputs, q, pixels, width, height, stride)
                &&& as_chosen(p, env, destination)
                &&& notify == p.notify
            }
        }),
{
    lemma_spread(p, r, q);
    assert(q.normalized() == q);
    assert(stitch::parts_of(p.outputs, q) == stitch::parts_of(p.outputs, r));
    reveal(steps::primary);
    reveal(steps::shot_taken);
    reveal(steps::region_shot);
}

/// A region across displays is recorded as one video, made of a part from each. An
/// animated image cannot be made of it, and nothing happens then.
pub proof fn a_region_across_displays_is_one_video(
    p: PanelModel,
    clicked: Option<String>,
    r: Rect,
    q: Rect,
    env: Env,
)
    requires
        p.capture is Idle,
        p.mode == Mode::Record,
        p.source == Source::Region,
        p.region == Some(r),
        spans(r, q),
        !touches_one_at_most(p.outputs, q),
        outputs::has_layout(p.outputs, r),
    ensures
        ({
            let s = steps::stepped(p, Msg::PrimaryAction(clicked), env);
            if p.record_format == RecordFormat::Gif {
                s.panel == p && s.actions.len() == 0
            } else {
                &&& s.panel.capture == (CaptureState::Recording { stop_armed: true })
                &&& s.panel.recording_started_at == Some(env.now)
                &&& s.panel.stop_pill_id is Some
                &&& s.actions.len() > 0
                &&& s.actions.last() matches ActionModel::RecordRegion { parts, args } && {
                    &&& parts == stitch::parts_of(p.outputs, q)
                    &&& video_as_chosen(p, args)
                    &&& s.panel.recording_target_output == Some(parts[0].output_name)
                }
            }
        }),
{
    lemma_spread(p, r, q);
    assert(q.normalized() == q);
    assert(stitch::parts_of(p.outputs, q) == stitch::parts_of(p.outputs, r));
    let parts = stitch::parts_of(p.outputs, r);
    lemma_switched_over(
        PanelModel { recording_target_output: Some(parts[0].output_name), ..p },
    );
    let c = match clicked {
        Some(name) => Some(name@),
        None => None,
    };
    assert(steps::recording_started(p, c, env.now) == steps::region_recorded(p, r, env.now)) by {
        reveal(steps::recording_started);
    }
    reveal(steps::region_recorded);
    reveal(steps::primary);
}

/// With windows to choose from, or no region to record, the main button starts
/// nothing.
pub proof fn nothing_starts_without_a_choice(p: PanelModel, clicked: Option<String>, env: Env)
    requires
        p.capture is Idle,
        p.source == Source::Window || (p.mode == Mode::Record && p.source == Source::Region
            && p.region is None),
    ensures
        steps::stepped(p, Msg::PrimaryAction(clicked), env).panel == p,
        steps::stepped(p, Msg::PrimaryAction(clicked), env).actions.len() == 0,
{
    reveal(steps::primary);
    reveal(steps::shot_taken);
    reveal(steps::recording_started);
}

/// The window at a place is the first with its identifier.
pub open spec fn first_of_its_kind(windows: Seq<WindowEntry>, k: int) -> bool {
    &&& 0 <= k < windows.len()
    &&& forall|j: int|
        0 <= j < k ==> (#[trigger] windows[j]).identifier@ != windows[k].identifier@
}

proof fn lemma_find_window(windows: Seq<WindowEntry>, identifier: Seq<char>)
    ensures
        match steps::find_window(windows, identifier) {
            Some(i) => 0 <= i < windows.len() && windows[i].identifier@ == identifier && forall|
                j: int,
            |
                0 <= j < i ==> (#[trigger] windows[j]).identifier@ != identifier,
            None => forall|j: int|
                0 <= j < windows.len() ==> (#[trigger] windows[j]).identifier@ != identifier,
        },
    decreases windows.len(),
{
    if windows.len() > 0 {
        let init = windows.drop_last();
        lemma_find_window(init, identifier);
        assert forall|j: int| 0 <= j < init.len() implies #[trigger] windows[j] == init[j] by {}
    }
}

/// The picker leaves the choices and the windows as they were.
proof fn lemma_picker_left(p: PanelModel, identifier: String)
    ensures
        ({
            let s = steps::picker_left(p, identifier);
            &&& s.panel.windows == p.windows
            &&& s.panel.save_target == p.save_target
            &&& s.panel.record_format == p.record_format
            &&& s.panel.record_fps == p.record_fps
            &&& s.panel.rec_encoder == p.rec_encoder
            &&& s.panel.rec_audio_mic == p.rec_audio_mic
            &&& s.panel.rec_audio_system == p.rec_audio_system
            &&& s.panel.rec_cursor == p.rec_cursor
            &&& s.panel.source == p.source
            &&& s.panel.notify == p.notify
            &&& s.panel.clipboard == p.clipboard
            &&& s.panel.streaming_sessions.len() == 0
            &&& s.panel.focus_catcher_id is None
            &&& steps::no_toolbars(s.panel.outputs)
            &&& s.panel.outputs.len() == p.outputs.len()
            &&& s.actions.contains(ActionModel::Plain(Action::Activate { identifier }))
            &&& p.streaming_sessions.len() > 0 ==> s.actions[0] == ActionModel::Plain(
                Action::StopStreams,
            )
        }),
{
    reveal(steps::picker_left);
    reveal(steps::streams_stopped);
    reveal(steps::toolbars_closed);
    let a = steps::streams_stopped(p);
    let b = steps::toolbars_closed(a.panel);
    let n = a.actions.len() as int;
    assert((a.actions.push(ActionModel::Plain(Action::Activate { identifier })) + b.actions)[n]
        == ActionModel::Plain(Action::Activate { identifier }));
}

/// A click on a window in the picker saves the frame behind its thumbnail, whole,
/// after its streams have been stopped and the window has been raised.
pub proof fn the_window_clicked_is_shot(
    p: PanelModel,
    identifier: String,
    on: Option<String>,
    k: int,
    env: Env,
)
    requires
        p.capture is Idle,
        p.mode == Mode::Screenshot,
        first_of_its_kind(p.windows, k),
        p.windows[k].identifier@ == identifier@,
    ensures
        ({
            let s = steps::stepped(p, Msg::CaptureToplevel(identifier, on), env);
            &&& s.panel.capture is Saving
            &&& s.panel.saving_started_at == Some(env.now)
            &&& s.panel.streaming_sessions.len() == 0
            &&& steps::no_toolbars(s.panel.outputs)
            &&& s.actions.len() > 0
            &&& s.actions.last() matches ActionModel::Plain(
                Action::SaveFrame { frame, crop, destination, notify },
            ) && {
                &&& frame == p.windows[k].frozen
                &&& crop is None
                &&& as_chosen(p, env, destination)
                &&& notify == p.notify
            }
            &&& s.actions.drop_last().contains(ActionModel::Plain(Action::Activate { identifier }))
        }),
{
    let l = steps::picker_left(p, identifier);
    lemma_picker_left(p, identifier);
    lemma_find_window(p.windows, identifier@);
    let f = steps::find_window(p.windows, identifier@);
    assert(f is Some);
    if f->0 < k {
        assert(p.windows[f->0].identifier@ != p.windows[k].identifier@);
    }
    assert(f == Some(k));
    reveal(steps::toplevel_captured);
    reveal(steps::window_saved);
    let s = steps::stepped(p, Msg::CaptureToplevel(identifier, on), env);
    assert(s.actions.drop_last() =~= l.actions);
}

/// A window that the picker does not hold is captured, when it is clicked, and by its
/// own identifier.
pub proof fn an_unknown_window_is_captured(
    p: PanelModel,
    identifier: String,
    on: Option<String>,
    env: Env,
)
    requires
        p.capture is Idle,
        p.mode == Mode::Screenshot,
        forall|j: int|
            0 <= j < p.windows.len() ==> (#[trigger] p.windows[j]).identifier@ != identifier@,
    ensures
        ({
            let s = steps::stepped(p, Msg::CaptureToplevel(identifier, on), env);
            &&& s.panel.capture is Saving
            &&& s.actions.len() > 0
            &&& s.actions.last() matches ActionModel::Plain(
                Action::ScreenshotToplevel { identifier: id, cursor, destination, notify },
            ) && {
                &&& id == identifier
                &&& cursor == p.rec_cursor
                &&& as_chosen(p, env, destination)
                &&& notify == p.notify
            }
        }),
{
    lemma_picker_left(p, identifier);
    lemma_find_window(p.windows, identifier@);
    reveal(steps::toplevel_captured);
    reveal(steps::window_saved);
}

/// A click on a window in the picker records that window, whole.
pub proof fn the_window_clicked_is_recorded(
    p: PanelModel,
    identifier: String,
    on: Option<String>,
    env: Env,
)
    requires
        p.capture is Idle,
        p.mode == Mode::Record,
    ensures
        ({
            let s = steps::stepped(p, Msg::CaptureToplevel(identifier, on), env);
            &&& records(p, s, ScreencopyTarget::Toplevel { identifier }, None, env.now)
            &&& s.panel.recording_window_id == Some(identifier)
            &&& s.panel.recording_target_output == on
            &&& s.panel.stop_pill_id is Some
        }),
{
    let l = steps::picker_left(p, identifier);
    lemma_picker_left(p, identifier);
    let t = ScreencopyTarget::Toplevel { identifier };
    let w = steps::window_recorded(l.panel, identifier, on, env.now);
    assert(records(l.panel, w, t, None, env.now) && w.panel.recording_window_id == Some(identifier)
        && w.panel.recording_target_output == on && w.panel.stop_pill_id is Some) by {
        reveal(steps::window_recorded);
        reveal(steps::pill_opened);
        reveal(steps::overlays_opened);
        let c = steps::pill_opened(
            PanelModel {
                recording_window_id: Some(identifier),
                recording_target_output: on,
                ..l.panel
            },
        );
        let d = steps::overlays_opened(c.panel);
        lemma_recording_of(
            l.panel,
            Step { panel: d.panel, actions: c.actions + d.actions },
            t,
            None,
            env.now,
        );
    }
    assert(steps::stepped(p, Msg::CaptureToplevel(identifier, on), env) == steps::behind(
        l.actions,
        w,
    )) by {
        reveal(steps::toplevel_captured);
    }
    assert((l.actions + w.actions).last() == w.actions.last());
}

/// While something is recorded or saved, a click on a window does nothing.
pub proof fn a_busy_panel_takes_no_window(
    p: PanelModel,
    identifier: String,
    on: Option<String>,
    env: Env,
)
    requires
        !(p.capture is Idle),
    ensures
        steps::stepped(p, Msg::CaptureToplevel(identifier, on), env).panel == p,
        steps::stepped(p, Msg::CaptureToplevel(identifier, on), env).actions.len() == 0,
{
    reveal(steps::toplevel_captured);
}

/// The tool bar at a place is the first with its number.
pub open spec fn first_with_its_bar(infos: Seq<OutputInfo>, i: int, id: u64) -> bool {
    &&& 0 <= i < infos.len()
    &&& infos[i].toolbar_id == Some(id)
    &&& forall|j: int| 0 <= j < i ==> (#[trigger] infos[j]).toolbar_id != Some(id)
}

proof fn lemma_find_toolbar(infos: Seq<OutputInfo>, id: u64)
    ensures
        match steps::find_toolbar(infos, id) {
            Some(i) => first_with_its_bar(infos, i, id),
            None => forall|j: int|
                0 <= j < infos.len() ==> (#[trigger] infos[j]).toolbar_id != Some(id),
        },
    decreases infos.len(),
{
    if infos.len() > 0 {
        let init = infos.drop_last();
        lemma_find_toolbar(init, id);
        assert forall|j: int| 0 <= j < init.len() implies #[trigger] infos[j] == init[j] by {}
    }
}

/// Without a click, the display whose tool bar is under the pointer is taken, and the first
/// one where none is and nothing is selected.
pub proof fn the_display_under_the_pointer_is_taken(p: PanelModel, i: int, id: u64, env: Env)
    requires
        p.capture is Idle,
        p.source == Source::Screen,
        first_of_its_name(p.outputs, i),
        (p.hovered_toolbar == Some(id) && first_with_its_bar(p.outputs, i, id)) || (
        p.hovered_toolbar is None && p.region is None && i == 0),
    ensures
        ({
            let s = steps::stepped(p, Msg::PrimaryAction(None), env);
            &&& p.mode == Mode::Screenshot ==> shoots(p, s, i, None, env)
            &&& p.mode == Mode::Record ==> records(
                p,
                s,
                ScreencopyTarget::Output { output_name: p.outputs[i].name },
                outputs::inset_crop(p.outputs[i].physical_size),
                env.now,
            )
        }),
{
    lemma_first_of_its_name(p.outputs, i);
    if p.hovered_toolbar is Some {
        lemma_find_toolbar(p.outputs, id);
        let f = steps::find_toolbar(p.outputs, id);
        assert(f is Some);
        if f->0 < i {
            assert(p.outputs[f->0].toolbar_id != Some(id));
        } else if i < f->0 {
            assert(p.outputs[i].toolbar_id != Some(id));
        }
    }
    assert(p.active_output(None) == Some(i));
    let crop = outputs::inset_crop(p.outputs[i].physical_size);
    lemma_output_recorded(p, p.outputs[i].name, crop, env.now);
    assert(steps::screen_recorded(p, i, env.now) == steps::output_recorded(
        p,
        p.outputs[i].name,
        crop,
        env.now,
    )) by {
        reveal(steps::screen_recorded);
    }
    if p.mode == Mode::Record {
        assert(steps::recording_started(p, None, env.now) == steps::screen_recorded(
            p,
            i,
            env.now,
        )) by {
            reveal(steps::recording_started);
        }
    } else {
        assert(steps::shot_taken(p, None, env) == steps::output_shot(p, i, env)) by {
            reveal(steps::shot_taken);
        }
        assert(shoots(p, steps::output_shot(p, i, env), i, None, env)) by {
            reveal(steps::output_shot);
        }
    }
    reveal(steps::primary);
}

} // verus!
