//! What the panel does on each message, as a function from its state to its next
//! state and the actions that it asks for.
use crate::capture::screencopy::CapturedFrame;
use crate::cli::{CommonArgs, GifArgs, RecordArgs, VideoContainer, VideoEncoder};
use crate::encode::video::CropRect;
use crate::gui::config;
use crate::gui::config::{Mode, RecordFormat, RecordFps, SaveTarget, Setting, Source, UserSettings};
use crate::gui::outputs;
use crate::gui::outputs::{OutputDescription, OutputInfo};
use crate::gui::stitch;
use crate::gui::wallpaper;
use crate::gui::wallpaper::JobModel;
use crate::gui::widget::rectangle_selection::{DragSession, Rect, WidgetEvent};
use crate::pipeline::record::{RegionPart, ScreencopyTarget};
use crate::paths::FilePath;
use crate::pipeline::screenshot::Destination;
use std::sync::Arc;
use vstd::prelude::*;

verus! {

/// How far a capture has come.
#[derive(Clone, Copy, Debug, PartialEq, Eq, Structural)]
pub enum CaptureState {
    Idle,
    /// A recording runs. `stop_armed` until it has been told to stop.
    Recording { stop_armed: bool },
    /// The file is being finished.
    Saving,
}

/// A window in the picker.
pub struct WindowEntry {
    pub identifier: String,
    pub title: String,
    pub app_id: String,
    /// The output that the picker shows it on.
    pub output: String,
    /// Its place among that output's windows.
    pub index: u64,
    /// The frame behind the thumbnail: what a click saves.
    pub frozen: Arc<CapturedFrame>,
    /// The window's width in pixels.
    pub width: u32,
    /// Whether the thumbnail is pinned in the image cache.
    pub pinned: bool,
    /// The slot that the thumbnail is drawn from.
    pub streaming: Option<u64>,
}

/// A slot for frames, kept for a window from one listing to the next.
pub struct Slot {
    pub identifier: String,
    pub id: u64,
}

/// A surface that the panel opens.
#[derive(Clone, Copy, Debug, PartialEq, Eq, Structural)]
pub enum SurfaceKind {
    /// An invisible placeholder that keeps the toolkit running.
    Dummy,
    /// The tool bar with the selection below it, one for each output.
    Toolbar,
    /// The border round what is recorded, one for each output.
    Recording,
    /// The pill to stop a recording with.
    StopPill,
    /// An invisible surface that holds the keyboard focus.
    FocusCatcher,
}

/// What the panel is told.
pub enum Msg {
    SetMode(Mode),
    SetSource(Source),
    SetSaveTarget(usize),
    SetRecordFormat(usize),
    SetRecordFps(usize),
    SelectRegion,
    Selection(WidgetEvent),
    CancelSelection,
    EscPressed,
    /// A second has gone by while recording or saving.
    Tick,
    /// A thumbnail has a new frame.
    ThumbDirty,
    ToggleClipboard,
    ToggleAudioMic,
    ToggleAudioSystem,
    /// Capture, start or stop. With the name of the output whose tool bar was
    /// clicked, where it was a click.
    PrimaryAction(Option<String>),
    RecordingFinished(Result<String, String>),
    GifFinished(Result<String, String>),
    ScreenshotFinished(Result<String, String>),
    /// An output has come.
    OutputCreated(OutputInfo),
    /// The compositor says something new of an output.
    OutputUpdated(u32, OutputDescription),
    /// An output has gone.
    OutputRemoved(u32),
    /// The pointer is on a surface, or on none.
    PointerOn(Option<u64>),
    /// An output's freeze has come back, and whether the compositor can show it
    /// by itself.
    FrozenFrameReady(u32, Option<Arc<CapturedFrame>>, bool),
    /// Whether an output's freeze has been pinned in the image cache.
    FrozenAllocated(u32, bool),
    /// The windows of an output.
    WindowsForOutputReady(String, Vec<WindowEntry>),
    /// An output's picker has had the time to be painted.
    PickerPainted(String),
    /// Whether a thumbnail, by output and place, has been pinned in the image
    /// cache.
    ThumbAllocated(String, u64, bool),
    /// Which outputs' wallpapers could be decoded.
    WallpaperDecoded(Vec<(u32, bool)>),
    /// A window was clicked in the picker, and the output that it is on.
    CaptureToplevel(String, Option<String>),
    /// A window's frames could not be streamed.
    StreamFailed(String),
    Quit,
    /// The output whose window had the focus at launch, where there is one.
    FocusOutputKnown(Option<String>),
}

/// What the panel asks for.
#[allow(inconsistent_fields)]
pub enum Action {
    /// Open a surface on an output, or on the active one.
    Open { id: u64, kind: SurfaceKind, output: Option<u32> },
    /// Destroy a surface.
    Destroy { id: u64 },
    /// Keep a setting for the next launch.
    Persist { setting: Setting },
    /// Capture an output before its tool bar opens.
    Freeze { key: u32, name: String, cursor: bool },
    /// Capture the windows of an output for the picker.
    ListWindows { output: String, cursor: bool },
    /// Decode a wallpaper for some outputs.
    Decode { job: wallpaper::WallpaperJob },
    /// Stop streaming every window.
    StopStreams,
    /// The stream of a window stops.
    StopStream { identifier: String },
    /// Stream a window's frames into a slot.
    StartStream { identifier: String, slot: u64 },
    /// Put a frame into a slot.
    Publish { slot: u64, frame: Arc<CapturedFrame> },
    /// Give a slot up.
    DropSlot { slot: u64 },
    /// Pin a thumbnail in the image cache.
    PinThumb { output: String, index: u64 },
    /// Pin a freeze in the image cache.
    PinFreeze { key: u32 },
    /// Say after a tenth of a second that the picker has been painted.
    SettlePaint { output: String },
    /// Raise a window and give it the focus.
    Activate { identifier: String },
    /// Save a frame that is already there.
    SaveFrame {
        frame: Arc<CapturedFrame>,
        crop: Option<CropRect>,
        destination: Destination,
        notify: bool,
    },
    /// Save the image of a region across outputs.
    SaveStitched { frame: CapturedFrame, destination: Destination, notify: bool },
    /// Capture an output and save it.
    Screenshot {
        output_name: String,
        cursor: bool,
        crop: Option<CropRect>,
        destination: Destination,
        notify: bool,
    },
    /// Capture a window and save it.
    ScreenshotToplevel { identifier: String, cursor: bool, destination: Destination, notify: bool },
    /// Record a video of an output or a window.
    Record { target: ScreencopyTarget, args: RecordArgs, crop: Option<CropRect> },
    /// Record a video of a region across outputs.
    RecordRegion { parts: Vec<RegionPart>, args: RecordArgs },
    /// Record an animated image of an output or a window.
    RecordGif { target: ScreencopyTarget, args: GifArgs, crop: Option<CropRect> },
    /// Tell the recording to stop.
    SendStop,
    /// Delete a file.
    DeleteFile { path: String },
    /// Put a recording on the clipboard.
    CopyRecording { path: String, format: RecordFormat },
    /// Leave.
    Exit,
}

/// An action as a mathematical value.
#[verifier::ext_equal]
pub enum ActionModel {
    /// An action without sequences in it.
    Plain(Action),
    Decode(JobModel),
    SaveStitched {
        pixels: Seq<u8>,
        width: u32,
        height: u32,
        stride: u32,
        destination: Destination,
        notify: bool,
    },
    RecordRegion { parts: Seq<RegionPart>, args: RecordArgs },
}

impl View for Action {
    type V = ActionModel;

    open spec fn view(&self) -> ActionModel {
        match self {
            Action::Decode { job } => ActionModel::Decode(job@),
            Action::SaveStitched { frame, destination, notify } => ActionModel::SaveStitched {
                pixels: frame.pixels@,
                width: frame.width,
                height: frame.height,
                stride: frame.stride,
                destination: *destination,
                notify: *notify,
            },
            Action::RecordRegion { parts, args } => ActionModel::RecordRegion {
                parts: parts@,
                args: *args,
            },
            other => ActionModel::Plain(*other),
        }
    }
}

/// Actions as mathematical values.
pub open spec fn acted(actions: Seq<Action>) -> Seq<ActionModel> {
    actions.map_values(|a: Action| a@)
}

/// What the panel cannot know by itself when a message comes.
pub struct Env {
    /// The time in nanoseconds, counted from some moment before launch.
    pub now: u64,
    /// The file that a screenshot among the documents would go to, where the
    /// user has a directory for documents.
    pub documents_file: Option<FilePath>,
}

/// The panel's state as a mathematical value.
#[verifier::ext_equal]
pub struct PanelModel {
    pub mode: Mode,
    pub source: Source,
    pub save_target: SaveTarget,
    pub record_format: RecordFormat,
    pub record_fps: RecordFps,
    pub rec_encoder: VideoEncoder,
    pub rec_audio_mic: bool,
    pub rec_audio_system: bool,
    pub rec_cursor: bool,
    pub notify: bool,
    pub clipboard: bool,
    pub outputs: Seq<OutputInfo>,
    pub region: Option<Rect>,
    pub drag: Option<DragSession>,
    pub stop_pill_id: Option<u64>,
    pub capture: CaptureState,
    pub recording_started_at: Option<u64>,
    pub saving_started_at: Option<u64>,
    pub recording_target_output: Option<String>,
    pub recording_window_id: Option<String>,
    pub cancel_pending: bool,
    pub hovered_toolbar: Option<u64>,
    pub windows: Seq<WindowEntry>,
    pub listed: Seq<String>,
    pub shared_frames: Seq<Slot>,
    pub picker_painted: Seq<String>,
    pub streaming_sessions: Seq<String>,
    pub dummy_id: u64,
    pub focus_output: Option<Option<String>>,
    pub focus_catcher_id: Option<u64>,
    pub next_id: u64,
    pub next_slot: u64,
}

/// A next state, and what it asks for on the way there.
#[verifier::ext_equal]
pub struct Step {
    pub panel: PanelModel,
    pub actions: Seq<ActionModel>,
}

/// The number after `n`.
pub open spec fn after(n: u64) -> u64 {
    if n == u64::MAX {
        0
    } else {
        (n + 1) as u64
    }
}

/// Nothing happens.
pub open spec fn quiet(p: PanelModel) -> Step {
    Step { panel: p, actions: Seq::empty() }
}

/// One action.
pub open spec fn one(p: PanelModel, a: Action) -> Step {
    Step { panel: p, actions: seq![ActionModel::Plain(a)] }
}

/// What comes after a step, with the step's actions before it.
pub open spec fn behind(first: Seq<ActionModel>, s: Step) -> Step {
    Step { panel: s.panel, actions: first + s.actions }
}

/// The same text is among the texts.
pub open spec fn listed_in(texts: Seq<String>, t: Seq<char>) -> bool {
    exists|i: int| 0 <= i < texts.len() && (#[trigger] texts[i])@ == t
}

/// The texts without one.
pub open spec fn without(texts: Seq<String>, t: Seq<char>) -> Seq<String> {
    texts.filter(|s: String| s@ != t)
}

/// The texts with one more, where it was not among them.
pub open spec fn with_text(texts: Seq<String>, t: String) -> Seq<String> {
    if listed_in(texts, t@) {
        texts
    } else {
        texts.push(t)
    }
}

/// The place of the first output with that number.
pub open spec fn find_key(outputs: Seq<OutputInfo>, key: u32) -> Option<int>
    decreases outputs.len(),
{
    if outputs.len() == 0 {
        None
    } else {
        match find_key(outputs.drop_last(), key) {
            Some(i) => Some(i),
            None => if outputs.last().key == key {
                Some(outputs.len() - 1)
            } else {
                None
            },
        }
    }
}

/// The place of the first output whose tool bar has that number.
pub open spec fn find_toolbar(outputs: Seq<OutputInfo>, id: u64) -> Option<int>
    decreases outputs.len(),
{
    if outputs.len() == 0 {
        None
    } else {
        match find_toolbar(outputs.drop_last(), id) {
            Some(i) => Some(i),
            None => if outputs.last().toolbar_id == Some(id) {
                Some(outputs.len() - 1)
            } else {
                None
            },
        }
    }
}

/// A surface is to be destroyed where there is one.
pub open spec fn destroying(id: Option<u64>) -> Seq<ActionModel> {
    match id {
        Some(id) => seq![ActionModel::Plain(Action::Destroy { id })],
        None => Seq::empty(),
    }
}

/// The tool bars of the outputs are destroyed.
pub open spec fn toolbars_destroyed(outputs: Seq<OutputInfo>) -> Seq<ActionModel>
    decreases outputs.len(),
{
    if outputs.len() == 0 {
        Seq::empty()
    } else {
        toolbars_destroyed(outputs.drop_last()) + destroying(outputs.last().toolbar_id)
    }
}

/// The recording borders of the outputs are destroyed.
pub open spec fn borders_destroyed(outputs: Seq<OutputInfo>) -> Seq<ActionModel>
    decreases outputs.len(),
{
    if outputs.len() == 0 {
        Seq::empty()
    } else {
        borders_destroyed(outputs.drop_last()) + destroying(outputs.last().recording_id)
    }
}

/// The outputs without their tool bars.
pub open spec fn without_toolbars(outputs: Seq<OutputInfo>) -> Seq<OutputInfo> {
    outputs.map_values(|o: OutputInfo| OutputInfo { toolbar_id: None, ..o })
}

/// The outputs without their recording borders.
pub open spec fn without_borders(outputs: Seq<OutputInfo>) -> Seq<OutputInfo> {
    outputs.map_values(|o: OutputInfo| OutputInfo { recording_id: None, ..o })
}

/// The tool bars close, and behind them the surface that holds the focus.
#[verifier::opaque]
pub open spec fn toolbars_closed(p: PanelModel) -> Step {
    Step {
        panel: PanelModel { outputs: without_toolbars(p.outputs), focus_catcher_id: None, ..p },
        actions: toolbars_destroyed(p.outputs) + destroying(p.focus_catcher_id),
    }
}

/// Every surface closes, and the panel leaves.
#[verifier::opaque]
pub open spec fn shut(p: PanelModel) -> Step {
    let s = toolbars_closed(
        PanelModel { stop_pill_id: None, outputs: without_borders(p.outputs), ..p },
    );
    Step {
        panel: PanelModel { recording_started_at: None, ..s.panel },
        actions: destroying(p.stop_pill_id) + borders_destroyed(p.outputs) + s.actions
            + seq![ActionModel::Plain(Action::Exit)],
    }
}

/// Outputs with surfaces that were just opened on them, what asks for those, and
/// the next number.
#[verifier::ext_equal]
pub struct Opened {
    pub outputs: Seq<OutputInfo>,
    pub actions: Seq<ActionModel>,
    pub next: u64,
}

/// A tool bar is wanted on an output: its freeze is done, and it has none.
pub open spec fn wants_toolbar(o: OutputInfo) -> bool {
    o.freeze_done && o.toolbar_id is None
}

/// The tool bars that are wanted, but none during a recording.
pub open spec fn toolbars_opened(outputs: Seq<OutputInfo>, recording: bool, next: u64) -> Opened
    decreases outputs.len(),
{
    if outputs.len() == 0 {
        Opened { outputs, actions: Seq::empty(), next }
    } else {
        let before = toolbars_opened(outputs.drop_last(), recording, next);
        let o = outputs.last();
        if wants_toolbar(o) && !recording {
            Opened {
                outputs: before.outputs.push(
                    OutputInfo { toolbar_id: Some(before.next), ..o },
                ),
                actions: before.actions.push(
                    ActionModel::Plain(
                        Action::Open {
                            id: before.next,
                            kind: SurfaceKind::Toolbar,
                            output: Some(o.key),
                        },
                    ),
                ),
                next: after(before.next),
            }
        } else {
            Opened { outputs: before.outputs.push(o), ..before }
        }
    }
}

/// A recording border on every output, in the place of an old one.
pub open spec fn borders_opened(outputs: Seq<OutputInfo>, next: u64) -> Opened
    decreases outputs.len(),
{
    if outputs.len() == 0 {
        Opened { outputs, actions: Seq::empty(), next }
    } else {
        let before = borders_opened(outputs.drop_last(), next);
        let o = outputs.last();
        Opened {
            outputs: before.outputs.push(OutputInfo { recording_id: Some(before.next), ..o }),
            actions: (before.actions + destroying(o.recording_id)).push(
                ActionModel::Plain(
                    Action::Open {
                        id: before.next,
                        kind: SurfaceKind::Recording,
                        output: Some(o.key),
                    },
                ),
            ),
            next: after(before.next),
        }
    }
}

/// Every output has its tool bar.
pub open spec fn all_have_toolbars(outputs: Seq<OutputInfo>) -> bool {
    forall|i: int| 0 <= i < outputs.len() ==> (#[trigger] outputs[i]).toolbar_id is Some
}

/// Some output wants a tool bar.
pub open spec fn some_want_toolbars(outputs: Seq<OutputInfo>) -> bool {
    exists|i: int| 0 <= i < outputs.len() && wants_toolbar(#[trigger] outputs[i])
}

/// Where the surface that holds the focus goes, where it can open: no such is
/// open, every output has its tool bar, and the output that had the focus is
/// known and there.
pub open spec fn catcher_output(p: PanelModel) -> Option<u32> {
    if p.focus_catcher_id is None && p.outputs.len() > 0 && all_have_toolbars(p.outputs) {
        match p.focus_output {
            Some(Some(name)) => match stitch::find_named(p.outputs, name@) {
                Some(i) => Some(p.outputs[i].key),
                None => None,
            },
            _ => None,
        }
    } else {
        None
    }
}

/// The surface that holds the focus opens where it can.
#[verifier::opaque]
pub open spec fn catcher_ensured(p: PanelModel) -> Step {
    match catcher_output(p) {
        Some(key) => one(
            PanelModel { focus_catcher_id: Some(p.next_id), next_id: after(p.next_id), ..p },
            Action::Open { id: p.next_id, kind: SurfaceKind::FocusCatcher, output: Some(key) },
        ),
        None => quiet(p),
    }
}

/// The wanted tool bars open, and behind them the surface that holds the focus,
/// anew where it was open before. Nothing opens until the focus is known.
#[verifier::opaque]
pub open spec fn ready_mapped(p: PanelModel) -> Step {
    if p.focus_output is None {
        quiet(p)
    } else {
        let o = toolbars_opened(p.outputs, p.capture is Recording, p.next_id);
        let q = PanelModel { outputs: o.outputs, next_id: o.next, ..p };
        if some_want_toolbars(p.outputs) {
            behind(
                o.actions + destroying(p.focus_catcher_id),
                catcher_ensured(PanelModel { focus_catcher_id: None, ..q }),
            )
        } else {
            behind(o.actions, catcher_ensured(q))
        }
    }
}

/// The pill opens on the output that is recorded, else on the active one.
#[verifier::opaque]
pub open spec fn pill_opened(p: PanelModel) -> Step {
    if p.stop_pill_id is Some {
        quiet(p)
    } else {
        let output = match p.recording_target_output {
            Some(name) => match stitch::find_named(p.outputs, name@) {
                Some(i) => Some(p.outputs[i].key),
                None => None,
            },
            None => None,
        };
        one(
            PanelModel { stop_pill_id: Some(p.next_id), next_id: after(p.next_id), ..p },
            Action::Open { id: p.next_id, kind: SurfaceKind::StopPill, output },
        )
    }
}

/// The recording borders open.
#[verifier::opaque]
pub open spec fn overlays_opened(p: PanelModel) -> Step {
    let o = borders_opened(p.outputs, p.next_id);
    Step { panel: PanelModel { outputs: o.outputs, next_id: o.next, ..p }, actions: o.actions }
}

/// The tool bars give way to the pill and the recording borders.
#[verifier::opaque]
pub open spec fn switched_over(p: PanelModel) -> Step {
    let a = toolbars_closed(p);
    let b = pill_opened(a.panel);
    let c = overlays_opened(b.panel);
    Step { panel: c.panel, actions: a.actions + b.actions + c.actions }
}

/// The windows of every output are captured.
pub open spec fn picker_refreshed(outputs: Seq<OutputInfo>, cursor: bool) -> Seq<ActionModel> {
    outputs.map_values(
        |o: OutputInfo|
            ActionModel::Plain(Action::ListWindows { output: o.name, cursor }),
    )
}

/// The wallpapers are decoded.
pub open spec fn decoding(jobs: Seq<JobModel>) -> Seq<ActionModel> {
    jobs.map_values(|j: JobModel| ActionModel::Decode(j))
}

/// The streams stop, where there are any.
#[verifier::opaque]
pub open spec fn streams_stopped(p: PanelModel) -> Step {
    if p.streaming_sessions.len() == 0 {
        quiet(p)
    } else {
        one(PanelModel { streaming_sessions: Seq::empty(), ..p }, Action::StopStreams)
    }
}

/// A setting is kept.
pub open spec fn kept(setting: Setting) -> Seq<ActionModel> {
    seq![ActionModel::Plain(Action::Persist { setting })]
}

/// No two outputs have the same number.
pub open spec fn distinct_keys(outputs: Seq<OutputInfo>) -> bool {
    forall|i: int, j: int|
        0 <= i < j < outputs.len() ==> (#[trigger] outputs[i]).key != (#[trigger] outputs[j]).key
}

/// Tool bars are only on outputs that have been frozen.
pub open spec fn bars_over_freezes(outputs: Seq<OutputInfo>) -> bool {
    forall|i: int|
        0 <= i < outputs.len() ==> ((#[trigger] outputs[i]).toolbar_id is Some
            ==> outputs[i].freeze_done)
}

/// No output has a tool bar.
pub open spec fn no_toolbars(outputs: Seq<OutputInfo>) -> bool {
    forall|i: int| 0 <= i < outputs.len() ==> (#[trigger] outputs[i]).toolbar_id is None
}

impl PanelModel {
    /// Nothing can be chosen: something is recorded or saved.
    pub open spec fn locked(self) -> bool {
        !(self.capture is Idle)
    }

    /// The main button can start something.
    pub open spec fn can_start(self) -> bool {
        &&& self.capture is Idle
        &&& self.source != Source::Window
        &&& self.mode == Mode::Screenshot || self.source == Source::Screen || self.region is Some
    }

    /// How many outputs the region touches.
    pub open spec fn region_spread(self) -> nat {
        match self.region {
            Some(r) => if outputs::nonempty(r.normalized()) {
                outputs::overlap_count(self.outputs, r.normalized())
            } else {
                0
            },
            None => 0,
        }
    }

    /// The output that is captured, and where it lies among the outputs: the
    /// one that was clicked, else the one under the pointer, else the one that the
    /// region's middle is on, else the first.
    pub open spec fn active_output(self, clicked: Option<Seq<char>>) -> Option<int> {
        let by_click = match clicked {
            Some(name) => stitch::find_named(self.outputs, name),
            None => None,
        };
        let by_hover = match self.hovered_toolbar {
            Some(id) => find_toolbar(self.outputs, id),
            None => None,
        };
        let by_region = match self.region {
            Some(r) => {
                let c = outputs::centre(r.normalized());
                outputs::find_at(self.outputs, c.0, c.1)
            },
            None => None,
        };
        if by_click is Some {
            by_click
        } else if by_hover is Some {
            by_hover
        } else if by_region is Some {
            by_region
        } else if self.outputs.len() > 0 {
            Some(0)
        } else {
            None
        }
    }

    /// Where a screenshot goes.
    pub open spec fn destination(self, env: Env) -> Destination {
        match self.save_target {
            SaveTarget::Clipboard => Destination::Clipboard,
            SaveTarget::Pictures => Destination::File(None),
            SaveTarget::Documents => Destination::File(env.documents_file),
        }
    }

    /// What a video recording is asked for.
    pub open spec fn record_args(self) -> RecordArgs {
        RecordArgs {
            common: CommonArgs { file: None, notify: self.notify, clipboard: self.clipboard },
            fps: self.record_fps.rate(),
            encoder: self.rec_encoder,
            container: match self.record_format {
                RecordFormat::Mkv => VideoContainer::Mkv,
                RecordFormat::WebM => VideoContainer::WebM,
                _ => VideoContainer::Mp4,
            },
            mic: self.rec_audio_mic,
            system_audio: self.rec_audio_system,
            cursor: self.rec_cursor,
            full: self.source != Source::Region,
            duration_secs: None,
        }
    }

    /// What an animated image is asked for.
    pub open spec fn gif_args(self) -> GifArgs {
        GifArgs {
            common: CommonArgs { file: None, notify: self.notify, clipboard: self.clipboard },
            fps: 20,
            quality: 90,
            max_width: 800,
            cursor: self.rec_cursor,
            full: self.source != Source::Region,
            duration_secs: 0,
        }
    }

    /// The numbers of the outputs are their own; their edges and the region's are
    /// 32 bit ones; a tool bar is only on an output that has been frozen; and while
    /// something is recorded there is no tool bar, nor the surface that holds the
    /// focus.
    pub open spec fn wf(self) -> bool {
        &&& distinct_keys(self.outputs)
        &&& outputs::all_placed(self.outputs)
        &&& bars_over_freezes(self.outputs)
        &&& self.region matches Some(r) ==> outputs::bounded(r)
        &&& self.capture is Recording ==> no_toolbars(self.outputs) && self.focus_catcher_id is None
    }
}

/// The user chooses what is made.
#[verifier::opaque]
pub open spec fn mode_set(p: PanelModel, m: Mode) -> Step {
    if p.locked() || p.mode == m {
        quiet(p)
    } else {
        let q = PanelModel { mode: m, ..p };
        let s = if m == Mode::Screenshot {
            streams_stopped(q)
        } else {
            quiet(q)
        };
        Step {
            panel: s.panel,
            actions: kept(Setting::Mode(m)) + s.actions + if p.source == Source::Window {
                picker_refreshed(p.outputs, p.rec_cursor)
            } else {
                Seq::empty()
            },
        }
    }
}

/// The user chooses of what it is made.
#[verifier::opaque]
pub open spec fn source_set(p: PanelModel, s: Source) -> Step {
    if p.locked() || p.source == s {
        quiet(p)
    } else {
        let q = PanelModel { source: s, ..p };
        if s == Source::Window {
            Step {
                panel: q,
                actions: kept(Setting::Source(s)) + decoding(wallpaper::jobs_of(p.outputs))
                    + picker_refreshed(p.outputs, p.rec_cursor),
            }
        } else {
            behind(kept(Setting::Source(s)), streams_stopped(q))
        }
    }
}

/// The user chooses a place of the list of targets.
#[verifier::opaque]
pub open spec fn save_target_set(p: PanelModel, i: usize) -> Step {
    let l = config::save_targets();
    if i < l.len() && p.save_target != l[i as int] {
        Step {
            panel: PanelModel { save_target: l[i as int], ..p },
            actions: kept(Setting::SaveTarget(l[i as int])),
        }
    } else {
        quiet(p)
    }
}

/// The user chooses a place of the list of formats.
#[verifier::opaque]
pub open spec fn record_format_set(p: PanelModel, i: usize) -> Step {
    let l = config::record_formats();
    if i < l.len() && p.record_format != l[i as int] {
        Step {
            panel: PanelModel { record_format: l[i as int], ..p },
            actions: kept(Setting::RecordFormat(l[i as int])),
        }
    } else {
        quiet(p)
    }
}

/// The user chooses a place of the list of rates.
#[verifier::opaque]
pub open spec fn record_fps_set(p: PanelModel, i: usize) -> Step {
    let l = config::record_rates();
    if i < l.len() && p.record_fps != l[i as int] {
        Step {
            panel: PanelModel { record_fps: l[i as int], ..p },
            actions: kept(Setting::RecordFps(l[i as int])),
        }
    } else {
        quiet(p)
    }
}

/// The selection is dragged. It is kept once the drag has ended.
#[verifier::opaque]
pub open spec fn selection_changed(p: PanelModel, e: WidgetEvent) -> Step {
    match e {
        WidgetEvent::DragStart { session, initial_rect } => quiet(
            PanelModel { drag: Some(session), region: Some(initial_rect), ..p },
        ),
        WidgetEvent::DragMove(r) => quiet(PanelModel { region: Some(r), ..p }),
        WidgetEvent::DragEnd => Step {
            panel: PanelModel { drag: None, ..p },
            actions: match p.region {
                Some(r) => kept(Setting::LastRegion(Some(r))),
                None => Seq::empty(),
            },
        },
    }
}

/// How long a file may take to be finished, in nanoseconds.
pub const SAVING_LIMIT_NS: u64 = 30_000_000_000;

/// The file has taken longer to be finished than any should, since the stop was
/// asked for.
pub open spec fn saving_stalled(p: PanelModel, now: u64) -> bool {
    p.saving_started_at matches Some(t) && now - t > SAVING_LIMIT_NS
}

/// A second has gone by: a save that has stalled is given up.
#[verifier::opaque]
pub open spec fn ticked(p: PanelModel, now: u64) -> Step {
    if saving_stalled(p, now) {
        shut(PanelModel { cancel_pending: true, ..p })
    } else {
        quiet(p)
    }
}

/// The escape key: a recording is stopped and will be deleted, else the panel
/// leaves.
#[verifier::opaque]
pub open spec fn escaped(p: PanelModel, now: u64) -> Step {
    match p.capture {
        CaptureState::Recording { stop_armed } => {
            let q = PanelModel {
                cancel_pending: true,
                capture: CaptureState::Recording { stop_armed: false },
                saving_started_at: Some(now),
                ..p
            };
            if stop_armed {
                one(q, Action::SendStop)
            } else {
                quiet(q)
            }
        },
        CaptureState::Idle => shut(p),
        CaptureState::Saving => shut(PanelModel { cancel_pending: true, ..p }),
    }
}

/// A capture has come to its end: a cancelled one is deleted, a recording goes to
/// the clipboard, and the panel leaves.
#[verifier::opaque]
pub open spec fn finished(p: PanelModel, recording: bool, r: Result<String, String>) -> Step {
    match r {
        Ok(path) => if p.cancel_pending {
            behind(seq![ActionModel::Plain(Action::DeleteFile { path })], shut(p))
        } else if recording {
            behind(
                seq![ActionModel::Plain(Action::CopyRecording { path, format: p.record_format })],
                shut(p),
            )
        } else {
            shut(p)
        },
        Err(_) => shut(p),
    }
}

/// What is known of an output once the compositor has said something new.
pub open spec fn updated(o: OutputInfo, d: OutputDescription) -> OutputInfo {
    OutputInfo {
        physical_size: d.physical(),
        name: match d.name {
            Some(n) => n,
            None => o.name,
        },
        logical_pos: match d.logical_position {
            Some(p) => p,
            None => o.logical_pos,
        },
        logical_size: match d.logical_size {
            Some((w, h)) => (w as u32, h as u32),
            None => o.logical_size,
        },
        ..o
    }
}

/// An output comes: it is frozen before its tool bar opens.
#[verifier::opaque]
pub open spec fn output_created(p: PanelModel, info: OutputInfo) -> Step {
    let outputs = match find_key(p.outputs, info.key) {
        Some(i) => p.outputs.update(i, info),
        None => p.outputs.push(info),
    };
    Step {
        panel: PanelModel { outputs, ..p },
        actions: seq![
            ActionModel::Plain(
                Action::Freeze { key: info.key, name: info.name, cursor: p.rec_cursor },
            ),
        ] + if p.source == Source::Window {
            seq![
                ActionModel::Plain(
                    Action::ListWindows { output: info.name, cursor: p.rec_cursor },
                ),
            ] + decoding(wallpaper::jobs_of(seq![info]))
        } else {
            Seq::empty()
        },
    }
}

/// The compositor says something new of an output. Its tool bar opens, where it
/// has none although its freeze is done.
#[verifier::opaque]
pub open spec fn output_updated(p: PanelModel, key: u32, d: OutputDescription) -> Step {
    match find_key(p.outputs, key) {
        Some(i) => {
            let q = PanelModel { outputs: p.outputs.update(i, updated(p.outputs[i], d)), ..p };
            if p.outputs[i].freeze_done {
                ready_mapped(q)
            } else {
                quiet(q)
            }
        },
        None => quiet(p),
    }
}

/// An output goes, with its windows and its surfaces.
#[verifier::opaque]
pub open spec fn output_removed(p: PanelModel, key: u32) -> Step {
    match find_key(p.outputs, key) {
        Some(i) => {
            let o = p.outputs[i];
            Step {
                panel: PanelModel {
                    outputs: p.outputs.remove(i),
                    windows: windows_elsewhere(p.windows, o.name@),
                    listed: without(p.listed, o.name@),
                    picker_painted: without(p.picker_painted, o.name@),
                    ..p
                },
                actions: destroying(o.toolbar_id) + destroying(o.recording_id),
            }
        },
        None => quiet(p),
    }
}

/// The pointer is on a surface, or on none. Other surfaces than tool bars do not
/// count.
#[verifier::opaque]
pub open spec fn pointer_on(p: PanelModel, id: Option<u64>) -> Step {
    quiet(
        PanelModel {
            hovered_toolbar: match id {
                Some(i) => if find_toolbar(p.outputs, i) is Some {
                    id
                } else {
                    p.hovered_toolbar
                },
                None => None,
            },
            ..p
        },
    )
}

/// An output's freeze has come back; its tool bar may open now.
#[verifier::opaque]
pub open spec fn frozen_ready(
    p: PanelModel,
    key: u32,
    frame: Option<Arc<CapturedFrame>>,
    sub: bool,
) -> Step {
    match find_key(p.outputs, key) {
        None => quiet(p),
        Some(i) => {
            let o = p.outputs[i];
            let info = match frame {
                None => OutputInfo { freeze_done: true, ..o },
                Some(f) => if sub {
                    OutputInfo { freeze_done: true, frozen: Some(f), frozen_sub: true, ..o }
                } else {
                    OutputInfo { freeze_done: true, frozen: Some(f), frozen_texture: true, ..o }
                },
            };
            let s = ready_mapped(PanelModel { outputs: p.outputs.update(i, info), ..p });
            if frame is Some && !sub {
                Step {
                    panel: s.panel,
                    actions: s.actions.push(ActionModel::Plain(Action::PinFreeze { key })),
                }
            } else {
                s
            }
        },
    }
}

/// Whether an output's freeze has been pinned.
#[verifier::opaque]
pub open spec fn frozen_pinned(p: PanelModel, key: u32, pinned: bool) -> Step {
    match find_key(p.outputs, key) {
        Some(i) => quiet(
            PanelModel {
                outputs: p.outputs.update(
                    i,
                    OutputInfo { frozen_pinned: pinned, ..p.outputs[i] },
                ),
                ..p
            },
        ),
        None => quiet(p),
    }
}

/// The windows on other outputs.
pub open spec fn windows_elsewhere(windows: Seq<WindowEntry>, output: Seq<char>) -> Seq<WindowEntry> {
    windows.filter(|e: WindowEntry| e.output@ != output)
}

/// The first window of that name.
pub open spec fn find_window(windows: Seq<WindowEntry>, identifier: Seq<char>) -> Option<int>
    decreases windows.len(),
{
    if windows.len() == 0 {
        None
    } else {
        match find_window(windows.drop_last(), identifier) {
            Some(i) => Some(i),
            None => if windows.last().identifier@ == identifier {
                Some(windows.len() - 1)
            } else {
                None
            },
        }
    }
}

/// The first slot of a window.
pub open spec fn find_slot(slots: Seq<Slot>, identifier: Seq<char>) -> Option<int>
    decreases slots.len(),
{
    if slots.len() == 0 {
        None
    } else {
        match find_slot(slots.drop_last(), identifier) {
            Some(i) => Some(i),
            None => if slots.last().identifier@ == identifier {
                Some(slots.len() - 1)
            } else {
                None
            },
        }
    }
}

/// Windows with their slots, the slots, the next slot's number, and the frames
/// that go into the slots.
#[verifier::ext_equal]
pub struct Slotted {
    pub entries: Seq<WindowEntry>,
    pub slots: Seq<Slot>,
    pub next: u64,
    pub actions: Seq<ActionModel>,
}

/// Each window gets its old slot, or a new one, and its frame goes there.
pub open spec fn slotted(
    slots: Seq<Slot>,
    next: u64,
    output: String,
    entries: Seq<WindowEntry>,
) -> Slotted
    decreases entries.len(),
{
    if entries.len() == 0 {
        Slotted { entries, slots, next, actions: Seq::empty() }
    } else {
        let before = slotted(slots, next, output, entries.drop_last());
        let e = entries.last();
        let at = find_slot(before.slots, e.identifier@);
        let id = match at {
            Some(i) => before.slots[i].id,
            None => before.next,
        };
        Slotted {
            entries: before.entries.push(
                WindowEntry {
                    output,
                    index: (entries.len() - 1) as u64,
                    streaming: Some(id),
                    ..e
                },
            ),
            slots: if at is Some {
                before.slots
            } else {
                before.slots.push(Slot { identifier: e.identifier, id })
            },
            next: if at is Some {
                before.next
            } else {
                after(before.next)
            },
            actions: before.actions.push(
                ActionModel::Plain(Action::Publish { slot: id, frame: e.frozen }),
            ),
        }
    }
}

/// The streams that run, and those that start.
#[verifier::ext_equal]
pub struct Streamed {
    pub sessions: Seq<String>,
    pub actions: Seq<ActionModel>,
}

/// Every window that is not streamed yet is streamed into its slot.
pub open spec fn streamed(sessions: Seq<String>, entries: Seq<WindowEntry>) -> Streamed
    decreases entries.len(),
{
    if entries.len() == 0 {
        Streamed { sessions, actions: Seq::empty() }
    } else {
        let before = streamed(sessions, entries.drop_last());
        let e = entries.last();
        match e.streaming {
            Some(slot) => if listed_in(before.sessions, e.identifier@) {
                before
            } else {
                Streamed {
                    sessions: before.sessions.push(e.identifier),
                    actions: before.actions.push(
                        ActionModel::Plain(
                            Action::StartStream { identifier: e.identifier, slot },
                        ),
                    ),
                }
            },
            None => before,
        }
    }
}

/// A window is among the windows.
pub open spec fn known_window(windows: Seq<WindowEntry>, identifier: Seq<char>) -> bool {
    exists|i: int| 0 <= i < windows.len() && (#[trigger] windows[i]).identifier@ == identifier
}

/// The slots of windows that are known.
pub open spec fn live_slots(
    slots: Seq<Slot>,
    windows: Seq<WindowEntry>,
    entries: Seq<WindowEntry>,
) -> Seq<Slot> {
    slots.filter(
        |s: Slot| known_window(windows, s.identifier@) || known_window(entries, s.identifier@),
    )
}

/// The slots of windows that are not known are given up.
pub open spec fn slots_dropped(
    slots: Seq<Slot>,
    windows: Seq<WindowEntry>,
    entries: Seq<WindowEntry>,
) -> Seq<ActionModel>
    decreases slots.len(),
{
    if slots.len() == 0 {
        Seq::empty()
    } else {
        let before = slots_dropped(slots.drop_last(), windows, entries);
        let s = slots.last();
        if known_window(windows, s.identifier@) || known_window(entries, s.identifier@) {
            before
        } else {
            before.push(ActionModel::Plain(Action::DropSlot { slot: s.id }))
        }
    }
}

/// The streams of windows that are known.
pub open spec fn live_streams(
    sessions: Seq<String>,
    windows: Seq<WindowEntry>,
    entries: Seq<WindowEntry>,
) -> Seq<String> {
    sessions.filter(|s: String| known_window(windows, s@) || known_window(entries, s@))
}

/// The streams of windows that are not known stop.
pub open spec fn streams_ended(
    sessions: Seq<String>,
    windows: Seq<WindowEntry>,
    entries: Seq<WindowEntry>,
) -> Seq<ActionModel>
    decreases sessions.len(),
{
    if sessions.len() == 0 {
        Seq::empty()
    } else {
        let before = streams_ended(sessions.drop_last(), windows, entries);
        let s = sessions.last();
        if known_window(windows, s@) || known_window(entries, s@) {
            before
        } else {
            before.push(ActionModel::Plain(Action::StopStream { identifier: s }))
        }
    }
}

/// The thumbnails of an output are pinned.
pub open spec fn thumbs_pinned(output: String, n: nat) -> Seq<ActionModel> {
    Seq::new(
        n,
        |i: int| ActionModel::Plain(Action::PinThumb { output, index: i as u64 }),
    )
}

/// The windows of an output have been captured, and take the place of those that
/// were on it. What belonged to windows that nothing lists any more is given up.
#[verifier::opaque]
pub open spec fn windows_ready(p: PanelModel, output: String, entries: Seq<WindowEntry>) -> Step {
    let there = windows_elsewhere(p.windows, output@);
    let s = slotted(p.shared_frames, p.next_slot, output, entries);
    let live = live_streams(p.streaming_sessions, there, s.entries);
    let t = if p.source == Source::Window && p.mode == Mode::Record {
        streamed(live, s.entries)
    } else {
        Streamed { sessions: live, actions: Seq::empty() }
    };
    Step {
        panel: PanelModel {
            windows: there + s.entries,
            listed: with_text(p.listed, output),
            shared_frames: live_slots(s.slots, there, s.entries),
            streaming_sessions: t.sessions,
            next_slot: s.next,
            ..p
        },
        actions: thumbs_pinned(output, entries.len()) + s.actions + streams_ended(
            p.streaming_sessions,
            there,
            s.entries,
        ) + t.actions + slots_dropped(s.slots, there, s.entries) + seq![
            ActionModel::Plain(Action::SettlePaint { output }),
        ],
    }
}

/// Whether a thumbnail has been pinned.
#[verifier::opaque]
pub open spec fn thumb_pinned(p: PanelModel, output: Seq<char>, index: u64, pinned: bool) -> Step {
    quiet(
        PanelModel {
            windows: p.windows.map_values(
                |e: WindowEntry|
                    if e.output@ == output && e.index == index {
                        WindowEntry { pinned, ..e }
                    } else {
                        e
                    },
            ),
            ..p
        },
    )
}

/// The outputs once some wallpapers have been decoded, or could not be.
pub open spec fn wallpapers_decoded(outputs: Seq<OutputInfo>, results: Seq<(u32, bool)>) -> Seq<
    OutputInfo,
>
    decreases results.len(),
{
    if results.len() == 0 {
        outputs
    } else {
        let before = wallpapers_decoded(outputs, results.drop_last());
        let (key, ok) = results.last();
        match find_key(before, key) {
            Some(i) => before.update(
                i,
                if ok {
                    OutputInfo { wallpaper_ready: true, ..before[i] }
                } else {
                    OutputInfo { bg_source: None, ..before[i] }
                },
            ),
            None => before,
        }
    }
}

/// A recording runs from now on, with the action that records.
pub open spec fn recording_begun(s: Step, now: u64, a: ActionModel) -> Step {
    Step {
        panel: PanelModel {
            capture: CaptureState::Recording { stop_armed: true },
            recording_started_at: Some(now),
            ..s.panel
        },
        actions: s.actions.push(a),
    }
}

/// The action that records a target in the chosen format.
pub open spec fn recording_of(p: PanelModel, target: ScreencopyTarget, crop: Option<CropRect>) -> ActionModel {
    ActionModel::Plain(
        if p.record_format == RecordFormat::Gif {
            Action::RecordGif { target, args: p.gif_args(), crop }
        } else {
            Action::Record { target, args: p.record_args(), crop }
        },
    )
}

/// A window's thumbnail is saved; where it has none, the window is captured.
#[verifier::opaque]
pub open spec fn window_saved(p: PanelModel, identifier: String, env: Env) -> Step {
    one(
        PanelModel { capture: CaptureState::Saving, saving_started_at: Some(env.now), ..p },
        match find_window(p.windows, identifier@) {
            Some(i) => Action::SaveFrame {
                frame: p.windows[i].frozen,
                crop: None,
                destination: p.destination(env),
                notify: p.notify,
            },
            None => Action::ScreenshotToplevel {
                identifier,
                cursor: p.rec_cursor,
                destination: p.destination(env),
                notify: p.notify,
            },
        },
    )
}

/// A window is recorded.
#[verifier::opaque]
pub open spec fn window_recorded(
    p: PanelModel,
    identifier: String,
    on: Option<String>,
    now: u64,
) -> Step {
    let c = pill_opened(
        PanelModel {
            recording_window_id: Some(identifier),
            recording_target_output: on,
            ..p
        },
    );
    let d = overlays_opened(c.panel);
    recording_begun(
        Step { panel: d.panel, actions: c.actions + d.actions },
        now,
        recording_of(p, ScreencopyTarget::Toplevel { identifier }, None),
    )
}

/// The picker gives way: the streams stop, the window is raised, and the tool
/// bars close.
#[verifier::opaque]
pub open spec fn picker_left(p: PanelModel, identifier: String) -> Step {
    let a = streams_stopped(p);
    let b = toolbars_closed(a.panel);
    Step {
        panel: b.panel,
        actions: a.actions.push(ActionModel::Plain(Action::Activate { identifier })) + b.actions,
    }
}

/// A window was clicked in the picker: it is saved, or recorded.
#[verifier::opaque]
pub open spec fn toplevel_captured(
    p: PanelModel,
    identifier: String,
    on: Option<String>,
    env: Env,
) -> Step {
    if !(p.capture is Idle) {
        quiet(p)
    } else {
        let s = picker_left(p, identifier);
        behind(
            s.actions,
            match p.mode {
                Mode::Screenshot => window_saved(s.panel, identifier, env),
                Mode::Record => window_recorded(s.panel, identifier, on, env.now),
            },
        )
    }
}

/// The image of a region across outputs is saved.
pub open spec fn stitched_saved(
    outputs: Seq<OutputInfo>,
    region: Rect,
    destination: Destination,
    notify: bool,
) -> ActionModel {
    let r = region.normalized();
    let scale = outputs::canvas_scale(outputs, r);
    let w = outputs::canvas_extent(scale, r.left as int, r.right as int);
    let h = outputs::canvas_extent(scale, r.top as int, r.bottom as int);
    ActionModel::SaveStitched {
        pixels: stitch::stitched(outputs, stitch::parts_of(outputs, region), w as int, h as int),
        width: w,
        height: h,
        stride: (w * 4) as u32,
        destination,
        notify,
    }
}

/// The pixels of the region on the output that its middle is on, where a region
/// is captured.
pub open spec fn shot_crop(p: PanelModel) -> Option<CropRect> {
    match p.region {
        Some(r) => if p.source == Source::Region {
            match outputs::region_target(p.outputs, r) {
                Some((_, c)) => Some(c),
                None => None,
            }
        } else {
            None
        },
        None => None,
    }
}

/// The frozen frame of the output at a place is saved; where it has none, the
/// output is captured.
#[verifier::opaque]
pub open spec fn output_shot(p: PanelModel, i: int, env: Env) -> Step {
    let name = p.outputs[i].name;
    let j = stitch::find_named(p.outputs, name@)->0;
    one(
        PanelModel { capture: CaptureState::Saving, ..p },
        match p.outputs[j].frozen {
            Some(frame) => Action::SaveFrame {
                frame,
                crop: shot_crop(p),
                destination: p.destination(env),
                notify: p.notify,
            },
            None => Action::Screenshot {
                output_name: name,
                cursor: p.rec_cursor,
                crop: shot_crop(p),
                destination: p.destination(env),
                notify: p.notify,
            },
        },
    )
}

/// The image of a region across outputs is saved, where it can be made.
#[verifier::opaque]
pub open spec fn region_shot(p: PanelModel, region: Rect, env: Env) -> Step {
    if stitch::stitchable(p.outputs, region) {
        Step {
            panel: PanelModel { capture: CaptureState::Saving, ..p },
            actions: seq![stitched_saved(p.outputs, region, p.destination(env), p.notify)],
        }
    } else {
        quiet(p)
    }
}

/// A screenshot of a region or an output is taken.
#[verifier::opaque]
pub open spec fn shot_taken(p: PanelModel, clicked: Option<Seq<char>>, env: Env) -> Step {
    if p.source == Source::Window {
        quiet(p)
    } else if p.source == Source::Region && p.region_spread() >= 2 {
        region_shot(p, p.region->0, env)
    } else {
        match p.active_output(clicked) {
            Some(i) => output_shot(p, i, env),
            None => quiet(p),
        }
    }
}

/// An output is recorded.
#[verifier::opaque]
pub open spec fn output_recorded(p: PanelModel, name: String, crop: Option<CropRect>, now: u64) -> Step {
    recording_begun(
        switched_over(PanelModel { recording_target_output: Some(name), ..p }),
        now,
        recording_of(p, ScreencopyTarget::Output { output_name: name }, crop),
    )
}

/// A region across outputs is recorded, where it has a layout. An animated image
/// cannot be made of one.
#[verifier::opaque]
pub open spec fn region_recorded(p: PanelModel, region: Rect, now: u64) -> Step {
    if outputs::has_layout(p.outputs, region) && p.record_format != RecordFormat::Gif {
        let parts = stitch::parts_of(p.outputs, region);
        recording_begun(
            switched_over(
                PanelModel { recording_target_output: Some(parts[0].output_name), ..p },
            ),
            now,
            ActionModel::RecordRegion { parts, args: p.record_args() },
        )
    } else {
        quiet(p)
    }
}

/// The output at a place is recorded, but for its border.
#[verifier::opaque]
pub open spec fn screen_recorded(p: PanelModel, i: int, now: u64) -> Step {
    let name = p.outputs[i].name;
    let j = stitch::find_named(p.outputs, name@)->0;
    output_recorded(p, name, outputs::inset_crop(p.outputs[j].physical_size), now)
}

/// A recording of a region or an output starts.
#[verifier::opaque]
pub open spec fn recording_started(p: PanelModel, clicked: Option<Seq<char>>, now: u64) -> Step {
    if !p.can_start() {
        quiet(p)
    } else if p.source == Source::Region && p.region_spread() >= 2 {
        region_recorded(p, p.region->0, now)
    } else if p.source == Source::Region {
        match outputs::region_target(p.outputs, p.region->0) {
            Some((name, crop)) => output_recorded(p, name, Some(crop), now),
            None => quiet(p),
        }
    } else {
        match p.active_output(clicked) {
            Some(i) => screen_recorded(p, i, now),
            None => quiet(p),
        }
    }
}

/// The main button: stop what runs, or start.
#[verifier::opaque]
pub open spec fn primary(p: PanelModel, clicked: Option<Seq<char>>, env: Env) -> Step {
    match p.capture {
        CaptureState::Recording { stop_armed } => {
            let q = PanelModel {
                capture: CaptureState::Saving,
                saving_started_at: Some(env.now),
                ..p
            };
            if stop_armed {
                one(q, Action::SendStop)
            } else {
                quiet(q)
            }
        },
        CaptureState::Saving => quiet(p),
        CaptureState::Idle => match p.mode {
            Mode::Screenshot => shot_taken(p, clicked, env),
            Mode::Record => recording_started(p, clicked, env.now),
        },
    }
}

/// What the panel does on a message.
pub open spec fn stepped(p: PanelModel, msg: Msg, env: Env) -> Step {
    match msg {
        Msg::SetMode(m) => mode_set(p, m),
        Msg::SetSource(s) => source_set(p, s),
        Msg::SetSaveTarget(i) => save_target_set(p, i),
        Msg::SetRecordFormat(i) => record_format_set(p, i),
        Msg::SetRecordFps(i) => record_fps_set(p, i),
        Msg::SelectRegion => quiet(p),
        Msg::Selection(e) => selection_changed(p, e),
        Msg::CancelSelection => Step {
            panel: PanelModel { region: None, drag: None, ..p },
            actions: kept(Setting::LastRegion(None)),
        },
        Msg::EscPressed => escaped(p, env.now),
        Msg::Tick => ticked(p, env.now),
        Msg::ThumbDirty => quiet(p),
        Msg::ToggleClipboard => quiet(PanelModel { clipboard: !p.clipboard, ..p }),
        Msg::ToggleAudioMic => quiet(PanelModel { rec_audio_mic: !p.rec_audio_mic, ..p }),
        Msg::ToggleAudioSystem => quiet(PanelModel { rec_audio_system: !p.rec_audio_system, ..p }),
        Msg::PrimaryAction(clicked) => primary(
            p,
            match clicked {
                Some(name) => Some(name@),
                None => None,
            },
            env,
        ),
        Msg::RecordingFinished(r) => finished(p, true, r),
        Msg::GifFinished(r) => finished(p, true, r),
        Msg::ScreenshotFinished(r) => finished(p, false, r),
        Msg::OutputCreated(info) => output_created(p, info),
        Msg::OutputUpdated(key, d) => output_updated(p, key, d),
        Msg::OutputRemoved(key) => output_removed(p, key),
        Msg::PointerOn(id) => pointer_on(p, id),
        Msg::FrozenFrameReady(key, frame, sub) => frozen_ready(p, key, frame, sub),
        Msg::FrozenAllocated(key, pinned) => frozen_pinned(p, key, pinned),
        Msg::WindowsForOutputReady(output, entries) => windows_ready(p, output, entries@),
        Msg::PickerPainted(output) => quiet(
            PanelModel { picker_painted: with_text(p.picker_painted, output), ..p },
        ),
        Msg::ThumbAllocated(output, index, pinned) => thumb_pinned(p, output@, index, pinned),
        Msg::WallpaperDecoded(results) => quiet(
            PanelModel { outputs: wallpapers_decoded(p.outputs, results@), ..p },
        ),
        Msg::CaptureToplevel(identifier, on) => toplevel_captured(p, identifier, on, env),
        Msg::StreamFailed(identifier) => quiet(
            PanelModel { streaming_sessions: without(p.streaming_sessions, identifier@), ..p },
        ),
        Msg::Quit => shut(p),
        Msg::FocusOutputKnown(name) => ready_mapped(
            PanelModel { focus_output: Some(name), ..p },
        ),
    }
}

/// The main button would make one image of a region across outputs.
pub open spec fn about_to_stitch(p: PanelModel) -> bool {
    &&& p.capture is Idle
    &&& p.mode == Mode::Screenshot
    &&& p.source == Source::Region
    &&& p.region_spread() >= 2
}

/// The image of a region across outputs that the main button would make, if any,
/// can be held.
pub open spec fn canvas_ready(p: PanelModel) -> bool {
    about_to_stitch(p) ==> (outputs::has_layout(p.outputs, p.region->0)
        ==> stitch::region_canvas_fits(p.outputs, p.region->0))
}

/// A message that the panel takes: its coordinates are 32 bit ones, an output that
/// comes has no tool bar yet, and an image that is asked for can be held.
pub open spec fn acceptable(p: PanelModel, msg: Msg) -> bool {
    match msg {
        Msg::Selection(WidgetEvent::DragStart { initial_rect, .. }) => outputs::bounded(
            initial_rect,
        ),
        Msg::Selection(WidgetEvent::DragMove(r)) => outputs::bounded(r),
        Msg::PrimaryAction(_) => canvas_ready(p),
        Msg::OutputCreated(info) => info.placed() && info.toolbar_id is None,
        Msg::OutputUpdated(key, d) => find_key(p.outputs, key) matches Some(i) ==> updated(
            p.outputs[i],
            d,
        ).placed(),
        _ => true,
    }
}

/// The panel at launch.
pub open spec fn launched(s: UserSettings, id: u64) -> PanelModel {
    PanelModel {
        mode: s.mode,
        source: s.source,
        save_target: s.save_target,
        record_format: s.record_format,
        record_fps: s.record_fps,
        rec_encoder: VideoEncoder::Auto,
        rec_audio_mic: false,
        rec_audio_system: false,
        rec_cursor: true,
        notify: true,
        clipboard: false,
        outputs: Seq::empty(),
        region: s.last_region,
        drag: None,
        stop_pill_id: None,
        capture: CaptureState::Idle,
        recording_started_at: None,
        saving_started_at: None,
        recording_target_output: None,
        recording_window_id: None,
        cancel_pending: false,
        hovered_toolbar: None,
        windows: Seq::empty(),
        listed: Seq::empty(),
        shared_frames: Seq::empty(),
        picker_painted: Seq::empty(),
        streaming_sessions: Seq::empty(),
        dummy_id: id,
        focus_output: None,
        focus_catcher_id: None,
        next_id: after(id),
        next_slot: 1,
    }
}

} // verus!
