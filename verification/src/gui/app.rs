//! The capture panel: its state, and what it does on each message.
use crate::capture::screencopy::CapturedFrame;
use crate::cli::{CommonArgs, GifArgs, RecordArgs, VideoContainer, VideoEncoder};
use crate::encode::video::CropRect;
use crate::gui::config::{Mode, RecordFormat, RecordFps, SaveTarget, Setting, Source, UserSettings};
use crate::gui::laws;
use crate::gui::outputs;
use crate::gui::outputs::{OutputDescription, OutputInfo};
use crate::gui::steps;
use crate::gui::steps::{
    Action, CaptureState, Env, Msg, PanelModel, Slot, SurfaceKind, WindowEntry,
};
use crate::gui::stitch;
use crate::gui::wallpaper;
use crate::gui::wallpaper::WallpaperJob;
use crate::gui::widget::rectangle_selection::{DragSession, Rect, WidgetEvent};
use crate::pipeline::record::ScreencopyTarget;
use crate::paths::FilePath;
use crate::pipeline::screenshot::Destination;
use std::sync::Arc;
use vstd::prelude::*;

verus! {

/// The panel.
pub struct Panel {
    pub mode: Mode,
    pub source: Source,
    pub save_target: SaveTarget,
    pub record_format: RecordFormat,
    pub record_fps: RecordFps,
    pub rec_encoder: VideoEncoder,
    pub rec_audio_mic: bool,
    pub rec_audio_system: bool,
    pub rec_cursor: bool,
    pub notify: bool,
    pub clipboard: bool,
    /// The outputs in the order in which they came.
    pub outputs: Vec<OutputInfo>,
    pub region: Option<Rect>,
    /// The drag that every output's selection follows.
    pub drag: Option<DragSession>,
    pub stop_pill_id: Option<u64>,
    pub capture: CaptureState,
    pub recording_started_at: Option<u64>,
    /// When the stop was asked for.
    pub saving_started_at: Option<u64>,
    /// The output that is recorded, or that the recorded window is on.
    pub recording_target_output: Option<String>,
    pub recording_window_id: Option<String>,
    /// Whether the file is deleted once it is finished.
    pub cancel_pending: bool,
    pub hovered_toolbar: Option<u64>,
    /// The windows in the picker.
    pub windows: Vec<WindowEntry>,
    /// The outputs whose windows have been captured.
    pub listed: Vec<String>,
    /// The slots that thumbnails are drawn from.
    pub shared_frames: Vec<Slot>,
    /// The outputs whose picker has had the time to be painted.
    pub picker_painted: Vec<String>,
    /// The windows that are streamed.
    pub streaming_sessions: Vec<String>,
    pub dummy_id: u64,
    /// The output that had the focus at launch, once that is known.
    pub focus_output: Option<Option<String>>,
    pub focus_catcher_id: Option<u64>,
    pub next_id: u64,
    pub next_slot: u64,
}

impl View for Panel {
    type V = PanelModel;

    open spec fn view(&self) -> PanelModel {
        PanelModel {
            mode: self.mode,
            source: self.source,
            save_target: self.save_target,
            record_format: self.record_format,
            record_fps: self.record_fps,
            rec_encoder: self.rec_encoder,
            rec_audio_mic: self.rec_audio_mic,
            rec_audio_system: self.rec_audio_system,
            rec_cursor: self.rec_cursor,
            notify: self.notify,
            clipboard: self.clipboard,
            outputs: self.outputs@,
            region: self.region,
            drag: self.drag,
            stop_pill_id: self.stop_pill_id,
            capture: self.capture,
            recording_started_at: self.recording_started_at,
            saving_started_at: self.saving_started_at,
            recording_target_output: self.recording_target_output,
            recording_window_id: self.recording_window_id,
            cancel_pending: self.cancel_pending,
            hovered_toolbar: self.hovered_toolbar,
            windows: self.windows@,
            listed: self.listed@,
            shared_frames: self.shared_frames@,
            picker_painted: self.picker_painted@,
            streaming_sessions: self.streaming_sessions@,
            dummy_id: self.dummy_id,
            focus_output: self.focus_output,
            focus_catcher_id: self.focus_catcher_id,
            next_id: self.next_id,
            next_slot: self.next_slot,
        }
    }
}

/// Trusted: `Arc::clone` of std gives another pointer to the same value.
#[verifier::external_body]
pub(crate) fn share<T>(value: &Arc<T>) -> (r: Arc<T>)
    ensures
        r == *value,
{
    Arc::clone(value)
}

/// The characters of a text, where there is one.
pub open spec fn text_of(t: Option<String>) -> Option<Seq<char>> {
    match t {
        Some(s) => Some(s@),
        None => None,
    }
}

fn same_path(p: &Option<FilePath>) -> (r: Option<FilePath>)
    ensures
        r == *p,
{
    match p {
        Some(f) => Some(FilePath { bytes: share(&f.bytes) }),
        None => None,
    }
}

fn following(n: u64) -> (r: u64)
    ensures
        r == steps::after(n),
{
    if n == u64::MAX {
        0
    } else {
        n + 1
    }
}

fn act(acts: &mut Vec<Action>, a: Action)
    ensures
        steps::acted(final(acts)@) == steps::acted(old(acts)@).push(a@),
{
    acts.push(a);
    assert(steps::acted(acts@) =~= steps::acted(old(acts)@).push(a@));
}

fn destroy(acts: &mut Vec<Action>, id: Option<u64>)
    ensures
        steps::acted(final(acts)@) == steps::acted(old(acts)@) + steps::destroying(id),
{
    if let Some(id) = id {
        act(acts, Action::Destroy { id });
    }
    assert(steps::acted(acts@) =~= steps::acted(old(acts)@) + steps::destroying(id));
}

fn destroy_toolbars(infos: &mut Vec<OutputInfo>, acts: &mut Vec<Action>)
    ensures
        final(infos)@ == steps::without_toolbars(old(infos)@),
        steps::acted(final(acts)@) == steps::acted(old(acts)@) + steps::toolbars_destroyed(
            old(infos)@,
        ),
{
    let ghost before = infos@;
    let ghost said = steps::acted(acts@);
    let mut i: usize = 0;
    assert(said + steps::toolbars_destroyed(before.take(0)) =~= said);
    assert(steps::without_toolbars(before.take(0)) + before.skip(0) =~= before);
    while i < infos.len()
        invariant
            i <= infos@.len(),
            infos@.len() == before.len(),
            infos@ == steps::without_toolbars(before.take(i as int)) + before.skip(i as int),
            steps::acted(acts@) == said + steps::toolbars_destroyed(before.take(i as int)),
        decreases infos@.len() - i,
    {
        assert(before.take(i + 1).drop_last() =~= before.take(i as int));
        assert(infos@[i as int] == before[i as int]);
        destroy(acts, infos[i].toolbar_id);
        let o = &mut infos[i];
        o.toolbar_id = None;
        assert(infos@ =~= steps::without_toolbars(before.take(i + 1)) + before.skip(i + 1));
        assert(steps::acted(acts@) =~= said + steps::toolbars_destroyed(before.take(i + 1)));
        i = i + 1;
    }
    assert(before.take(i as int) =~= before);
    assert(infos@ =~= steps::without_toolbars(before));
}

fn destroy_borders(infos: &mut Vec<OutputInfo>, acts: &mut Vec<Action>)
    ensures
        final(infos)@ == steps::without_borders(old(infos)@),
        steps::acted(final(acts)@) == steps::acted(old(acts)@) + steps::borders_destroyed(
            old(infos)@,
        ),
{
    let ghost before = infos@;
    let ghost said = steps::acted(acts@);
    let mut i: usize = 0;
    assert(said + steps::borders_destroyed(before.take(0)) =~= said);
    assert(steps::without_borders(before.take(0)) + before.skip(0) =~= before);
    while i < infos.len()
        invariant
            i <= infos@.len(),
            infos@.len() == before.len(),
            infos@ == steps::without_borders(before.take(i as int)) + before.skip(i as int),
            steps::acted(acts@) == said + steps::borders_destroyed(before.take(i as int)),
        decreases infos@.len() - i,
    {
        assert(before.take(i + 1).drop_last() =~= before.take(i as int));
        assert(infos@[i as int] == before[i as int]);
        destroy(acts, infos[i].recording_id);
        let o = &mut infos[i];
        o.recording_id = None;
        assert(infos@ =~= steps::without_borders(before.take(i + 1)) + before.skip(i + 1));
        assert(steps::acted(acts@) =~= said + steps::borders_destroyed(before.take(i + 1)));
        i = i + 1;
    }
    assert(before.take(i as int) =~= before);
    assert(infos@ =~= steps::without_borders(before));
}

fn open_toolbars(infos: &mut Vec<OutputInfo>, recording: bool, next: u64, acts: &mut Vec<Action>) -> (r: u64)
    ensures
        final(infos)@ == steps::toolbars_opened(old(infos)@, recording, next).outputs,
        steps::acted(final(acts)@) == steps::acted(old(acts)@) + steps::toolbars_opened(
            old(infos)@,
            recording,
            next,
        ).actions,
        r == steps::toolbars_opened(old(infos)@, recording, next).next,
{
    let ghost before = infos@;
    let ghost said = steps::acted(acts@);
    let mut id: u64 = next;
    let mut i: usize = 0;
    assert(said + steps::toolbars_opened(before.take(0), recording, next).actions =~= said);
    assert(steps::toolbars_opened(before.take(0), recording, next).outputs + before.skip(0)
        =~= before);
    while i < infos.len()
        invariant
            i <= infos@.len(),
            infos@.len() == before.len(),
            steps::toolbars_opened(before.take(i as int), recording, next).outputs.len() == i,
            infos@ == steps::toolbars_opened(before.take(i as int), recording, next).outputs
                + before.skip(i as int),
            steps::acted(acts@) == said + steps::toolbars_opened(
                before.take(i as int),
                recording,
                next,
            ).actions,
            id == steps::toolbars_opened(before.take(i as int), recording, next).next,
        decreases infos@.len() - i,
    {
        assert(before.take(i + 1).drop_last() =~= before.take(i as int));
        assert(infos@[i as int] == before[i as int]);
        if infos[i].freeze_done && infos[i].toolbar_id.is_none() && !recording {
            let key: u32 = infos[i].key;
            act(acts, Action::Open { id, kind: SurfaceKind::Toolbar, output: Some(key) });
            let o = &mut infos[i];
            o.toolbar_id = Some(id);
            id = following(id);
        }
        assert(infos@ =~= steps::toolbars_opened(before.take(i + 1), recording, next).outputs
            + before.skip(i + 1));
        assert(steps::acted(acts@) =~= said + steps::toolbars_opened(
            before.take(i + 1),
            recording,
            next,
        ).actions);
        i = i + 1;
    }
    assert(before.take(i as int) =~= before);
    assert(infos@ =~= steps::toolbars_opened(before, recording, next).outputs);
    id
}

fn open_borders(infos: &mut Vec<OutputInfo>, next: u64, acts: &mut Vec<Action>) -> (r: u64)
    ensures
        final(infos)@ == steps::borders_opened(old(infos)@, next).outputs,
        steps::acted(final(acts)@) == steps::acted(old(acts)@) + steps::borders_opened(
            old(infos)@,
            next,
        ).actions,
        r == steps::borders_opened(old(infos)@, next).next,
{
    let ghost before = infos@;
    let ghost said = steps::acted(acts@);
    let mut id: u64 = next;
    let mut i: usize = 0;
    assert(said + steps::borders_opened(before.take(0), next).actions =~= said);
    assert(steps::borders_opened(before.take(0), next).outputs + before.skip(0) =~= before);
    while i < infos.len()
        invariant
            i <= infos@.len(),
            infos@.len() == before.len(),
            steps::borders_opened(before.take(i as int), next).outputs.len() == i,
            infos@ == steps::borders_opened(before.take(i as int), next).outputs + before.skip(
                i as int,
            ),
            steps::acted(acts@) == said + steps::borders_opened(
                before.take(i as int),
                next,
            ).actions,
            id == steps::borders_opened(before.take(i as int), next).next,
        decreases infos@.len() - i,
    {
        assert(before.take(i + 1).drop_last() =~= before.take(i as int));
        assert(infos@[i as int] == before[i as int]);
        destroy(acts, infos[i].recording_id);
        let key: u32 = infos[i].key;
        act(acts, Action::Open { id, kind: SurfaceKind::Recording, output: Some(key) });
        let o = &mut infos[i];
        o.recording_id = Some(id);
        id = following(id);
        assert(infos@ =~= steps::borders_opened(before.take(i + 1), next).outputs + before.skip(
            i + 1,
        ));
        assert(steps::acted(acts@) =~= said + steps::borders_opened(
            before.take(i + 1),
            next,
        ).actions);
        i = i + 1;
    }
    assert(before.take(i as int) =~= before);
    assert(infos@ =~= steps::borders_opened(before, next).outputs);
    id
}

fn is_number(a: Option<u64>, id: u64) -> (b: bool)
    ensures
        b == (a == Some(id)),
{
    match a {
        Some(n) => n == id,
        None => false,
    }
}

proof fn lemma_key_prefix(items: Seq<OutputInfo>, key: u32, n: int)
    requires
        0 <= n <= items.len(),
        steps::find_key(items.take(n), key) is Some,
    ensures
        steps::find_key(items, key) == steps::find_key(items.take(n), key),
    decreases items.len(),
{
    if n < items.len() {
        assert(items.drop_last().take(n) =~= items.take(n));
        lemma_key_prefix(items.drop_last(), key, n);
    } else {
        assert(items.take(n) =~= items);
    }
}

/// The place of the first output with that number.
fn position_of_key(items: &Vec<OutputInfo>, key: u32) -> (r: Option<usize>)
    ensures
        match r {
            Some(i) => steps::find_key(items@, key) == Some(i as int) && i < items@.len(),
            None => steps::find_key(items@, key) is None,
        },
{
    let mut i: usize = 0;
    while i < items.len()
        invariant
            i <= items@.len(),
            steps::find_key(items@.take(i as int), key) is None,
        decreases items@.len() - i,
    {
        assert(items@.take(i + 1).drop_last() =~= items@.take(i as int));
        if items[i].key == key {
            proof {
                lemma_key_prefix(items@, key, i + 1);
            }
            return Some(i);
        }
        i = i + 1;
    }
    assert(items@.take(i as int) =~= items@);
    None
}

proof fn lemma_toolbar_prefix(items: Seq<OutputInfo>, id: u64, n: int)
    requires
        0 <= n <= items.len(),
        steps::find_toolbar(items.take(n), id) is Some,
    ensures
        steps::find_toolbar(items, id) == steps::find_toolbar(items.take(n), id),
    decreases items.len(),
{
    if n < items.len() {
        assert(items.drop_last().take(n) =~= items.take(n));
        lemma_toolbar_prefix(items.drop_last(), id, n);
    } else {
        assert(items.take(n) =~= items);
    }
}

/// The place of the first output whose tool bar has that number.
fn position_of_toolbar(items: &Vec<OutputInfo>, id: u64) -> (r: Option<usize>)
    ensures
        match r {
            Some(i) => steps::find_toolbar(items@, id) == Some(i as int) && i < items@.len(),
            None => steps::find_toolbar(items@, id) is None,
        },
{
    let mut i: usize = 0;
    while i < items.len()
        invariant
            i <= items@.len(),
            steps::find_toolbar(items@.take(i as int), id) is None,
        decreases items@.len() - i,
    {
        assert(items@.take(i + 1).drop_last() =~= items@.take(i as int));
        if is_number(items[i].toolbar_id, id) {
            proof {
                lemma_toolbar_prefix(items@, id, i + 1);
            }
            return Some(i);
        }
        i = i + 1;
    }
    assert(items@.take(i as int) =~= items@);
    None
}

proof fn lemma_window_prefix(items: Seq<WindowEntry>, name: Seq<char>, n: int)
    requires
        0 <= n <= items.len(),
        steps::find_window(items.take(n), name) is Some,
    ensures
        steps::find_window(items, name) == steps::find_window(items.take(n), name),
    decreases items.len(),
{
    if n < items.len() {
        assert(items.drop_last().take(n) =~= items.take(n));
        lemma_window_prefix(items.drop_last(), name, n);
    } else {
        assert(items.take(n) =~= items);
    }
}

/// The place of the first window of that name.
fn position_of_window(items: &Vec<WindowEntry>, name: &String) -> (r: Option<usize>)
    ensures
        match r {
            Some(i) => steps::find_window(items@, name@) == Some(i as int) && i < items@.len(),
            None => steps::find_window(items@, name@) is None,
        },
{
    let mut i: usize = 0;
    while i < items.len()
        invariant
            i <= items@.len(),
            steps::find_window(items@.take(i as int), name@) is None,
        decreases items@.len() - i,
    {
        assert(items@.take(i + 1).drop_last() =~= items@.take(i as int));
        if items[i].identifier == *name {
            proof {
                lemma_window_prefix(items@, name@, i + 1);
            }
            return Some(i);
        }
        i = i + 1;
    }
    assert(items@.take(i as int) =~= items@);
    None
}

proof fn lemma_slot_prefix(items: Seq<Slot>, name: Seq<char>, n: int)
    requires
        0 <= n <= items.len(),
        steps::find_slot(items.take(n), name) is Some,
    ensures
        steps::find_slot(items, name) == steps::find_slot(items.take(n), name),
    decreases items.len(),
{
    if n < items.len() {
        assert(items.drop_last().take(n) =~= items.take(n));
        lemma_slot_prefix(items.drop_last(), name, n);
    } else {
        assert(items.take(n) =~= items);
    }
}

/// The place of the first slot of a window.
fn position_of_slot(items: &Vec<Slot>, name: &String) -> (r: Option<usize>)
    ensures
        match r {
            Some(i) => steps::find_slot(items@, name@) == Some(i as int) && i < items@.len(),
            None => steps::find_slot(items@, name@) is None,
        },
{
    let mut i: usize = 0;
    while i < items.len()
        invariant
            i <= items@.len(),
            steps::find_slot(items@.take(i as int), name@) is None,
        decreases items@.len() - i,
    {
        assert(items@.take(i + 1).drop_last() =~= items@.take(i as int));
        if items[i].identifier == *name {
            proof {
                lemma_slot_prefix(items@, name@, i + 1);
            }
            return Some(i);
        }
        i = i + 1;
    }
    assert(items@.take(i as int) =~= items@);
    None
}

fn has_text(texts: &Vec<String>, t: &String) -> (b: bool)
    ensures
        b == steps::listed_in(texts@, t@),
{
    let mut i: usize = 0;
    while i < texts.len()
        invariant
            i <= texts@.len(),
            forall|j: int| 0 <= j < i ==> (#[trigger] texts@[j])@ != t@,
        decreases texts@.len() - i,
    {
        if texts[i] == *t {
            assert(texts@[i as int]@ == t@);
            return true;
        }
        i = i + 1;
    }
    false
}

fn add_text(texts: &mut Vec<String>, t: String)
    ensures
        final(texts)@ == steps::with_text(old(texts)@, t),
{
    if !has_text(texts, &t) {
        texts.push(t);
    }
}

fn drop_text(texts: &mut Vec<String>, t: &String)
    ensures
        final(texts)@ == steps::without(old(texts)@, t@),
{
    let ghost before = texts@;
    let ghost keep = |s: String| s@ != t@;
    let mut left: Vec<String> = Vec::new();
    let mut i: usize = 0;
    reveal(Seq::filter);
    while i < texts.len()
        invariant
            i <= texts@.len(),
            *texts == *old(texts),
            before == texts@,
            keep == (|s: String| s@ != t@),
            left@ == before.take(i as int).filter(keep),
        decreases texts@.len() - i,
    {
        reveal(Seq::filter);
        assert(before.take(i + 1).drop_last() =~= before.take(i as int));
        if texts[i] != *t {
            left.push(texts[i].clone());
        }
        i = i + 1;
    }
    assert(before.take(i as int) =~= before);
    *texts = left;
}

fn same_entry(e: &WindowEntry) -> (r: WindowEntry)
    ensures
        r == *e,
{
    WindowEntry {
        identifier: e.identifier.clone(),
        title: e.title.clone(),
        app_id: e.app_id.clone(),
        output: e.output.clone(),
        index: e.index,
        frozen: share(&e.frozen),
        width: e.width,
        pinned: e.pinned,
        streaming: e.streaming,
    }
}

/// The windows on other outputs.
fn keep_elsewhere(windows: &Vec<WindowEntry>, output: &String) -> (r: Vec<WindowEntry>)
    ensures
        r@ == steps::windows_elsewhere(windows@, output@),
{
    let ghost keep = |e: WindowEntry| e.output@ != output@;
    let mut left: Vec<WindowEntry> = Vec::new();
    let mut i: usize = 0;
    reveal(Seq::filter);
    while i < windows.len()
        invariant
            i <= windows@.len(),
            keep == (|e: WindowEntry| e.output@ != output@),
            left@ == windows@.take(i as int).filter(keep),
        decreases windows@.len() - i,
    {
        reveal(Seq::filter);
        assert(windows@.take(i + 1).drop_last() =~= windows@.take(i as int));
        if windows[i].output != *output {
            left.push(same_entry(&windows[i]));
        }
        i = i + 1;
    }
    assert(windows@.take(i as int) =~= windows@);
    left
}

impl Panel {
    /// The panel's invariant.
    pub open spec fn wf(self) -> bool {
        self@.wf()
    }

    /// The panel at launch, with the placeholder surface that it opens.
    pub fn init(settings: &UserSettings, id: u64) -> (r: (Panel, Vec<Action>))
        requires
            settings.last_region matches Some(r) ==> outputs::bounded(r),
        ensures
            r.0@ == steps::launched(*settings, id),
            r.0.wf(),
            steps::acted(r.1@) == seq![
                steps::ActionModel::Plain(
                    Action::Open { id, kind: SurfaceKind::Dummy, output: None },
                ),
            ],
    {
        let panel = Panel {
            mode: settings.mode,
            source: settings.source,
            save_target: settings.save_target,
            record_format: settings.record_format,
            record_fps: settings.record_fps,
            rec_encoder: VideoEncoder::Auto,
            rec_audio_mic: false,
            rec_audio_system: false,
            rec_cursor: true,
            notify: true,
            clipboard: false,
            outputs: Vec::new(),
            region: settings.last_region,
            drag: None,
            stop_pill_id: None,
            capture: CaptureState::Idle,
            recording_started_at: None,
            saving_started_at: None,
            recording_target_output: None,
            recording_window_id: None,
            cancel_pending: false,
            hovered_toolbar: None,
            windows: Vec::new(),
            listed: Vec::new(),
            shared_frames: Vec::new(),
            picker_painted: Vec::new(),
            streaming_sessions: Vec::new(),
            dummy_id: id,
            focus_output: None,
            focus_catcher_id: None,
            next_id: following(id),
            next_slot: 1,
        };
        let mut acts: Vec<Action> = Vec::new();
        act(&mut acts, Action::Open { id, kind: SurfaceKind::Dummy, output: None });
        assert(steps::acted(acts@) =~= seq![
            steps::ActionModel::Plain(
                Action::Open { id, kind: SurfaceKind::Dummy, output: None },
            ),
        ]);
        (panel, acts)
    }

    /// The place of the output whose tool bar a surface is.
    pub fn toolbar_output(&self, id: u64) -> (r: Option<usize>)
        ensures
            match r {
                Some(i) => i < self.outputs@.len() && steps::find_toolbar(self.outputs@, id)
                    == Some(i as int),
                None => steps::find_toolbar(self.outputs@, id) is None,
            },
    {
        position_of_toolbar(&self.outputs, id)
    }

    /// Whether nothing can be chosen: something is recorded or saved.
    pub fn locked(&self) -> (b: bool)
        ensures
            b == self@.locked(),
    {
        match self.capture {
            CaptureState::Idle => false,
            _ => true,
        }
    }

    /// Whether the main button can start something.
    pub fn can_start(&self) -> (b: bool)
        ensures
            b == self@.can_start(),
    {
        if self.locked() {
            return false;
        }
        match (self.mode, self.source) {
            (_, Source::Window) => false,
            (Mode::Screenshot, _) => true,
            (Mode::Record, Source::Screen) => true,
            (Mode::Record, Source::Region) => self.region.is_some(),
        }
    }

    fn toolbars_ready(&self) -> (b: bool)
        ensures
            b == (self.outputs@.len() > 0 && steps::all_have_toolbars(self.outputs@)),
    {
        let mut i: usize = 0;
        while i < self.outputs.len()
            invariant
                i <= self.outputs@.len(),
                forall|j: int| 0 <= j < i ==> (#[trigger] self.outputs@[j]).toolbar_id is Some,
            decreases self.outputs@.len() - i,
        {
            if self.outputs[i].toolbar_id.is_none() {
                return false;
            }
            i = i + 1;
        }
        self.outputs.len() > 0
    }

    fn toolbars_wanted(&self) -> (b: bool)
        ensures
            b == steps::some_want_toolbars(self.outputs@),
    {
        let mut i: usize = 0;
        while i < self.outputs.len()
            invariant
                i <= self.outputs@.len(),
                forall|j: int| 0 <= j < i ==> !steps::wants_toolbar(#[trigger] self.outputs@[j]),
            decreases self.outputs@.len() - i,
        {
            if self.outputs[i].freeze_done && self.outputs[i].toolbar_id.is_none() {
                assert(steps::wants_toolbar(self.outputs@[i as int]));
                return true;
            }
            i = i + 1;
        }
        false
    }

    fn ensure_focus_catcher(&mut self, acts: &mut Vec<Action>)
        ensures
            final(self)@ == steps::catcher_ensured(old(self)@).panel,
            steps::acted(final(acts)@) == steps::acted(old(acts)@) + steps::catcher_ensured(
                old(self)@,
            ).actions,
    {
        proof {
            reveal(steps::catcher_ensured);
        }
        let key: Option<u32> = if self.focus_catcher_id.is_some() || !self.toolbars_ready() {
            None
        } else {
            match &self.focus_output {
                Some(Some(name)) => match stitch::position_named(&self.outputs, name) {
                    Some(i) => Some(self.outputs[i].key),
                    None => None,
                },
                _ => None,
            }
        };
        assert(key == steps::catcher_output(self@));
        if let Some(key) = key {
            let id: u64 = self.next_id;
            self.focus_catcher_id = Some(id);
            self.next_id = following(id);
            act(acts, Action::Open { id, kind: SurfaceKind::FocusCatcher, output: Some(key) });
        }
        assert(steps::acted(acts@) =~= steps::acted(old(acts)@) + steps::catcher_ensured(
            old(self)@,
        ).actions);
    }

    fn open_wanted(&mut self, acts: &mut Vec<Action>)
        ensures
            final(self)@ == (PanelModel {
                outputs: steps::toolbars_opened(
                    old(self)@.outputs,
                    old(self)@.capture is Recording,
                    old(self)@.next_id,
                ).outputs,
                next_id: steps::toolbars_opened(
                    old(self)@.outputs,
                    old(self)@.capture is Recording,
                    old(self)@.next_id,
                ).next,
                ..old(self)@
            }),
            steps::acted(final(acts)@) == steps::acted(old(acts)@) + steps::toolbars_opened(
                old(self)@.outputs,
                old(self)@.capture is Recording,
                old(self)@.next_id,
            ).actions,
    {
        let recording = match self.capture {
            CaptureState::Recording { .. } => true,
            _ => false,
        };
        let next: u64 = open_toolbars(&mut self.outputs, recording, self.next_id, acts);
        self.next_id = next;
    }

    fn drop_focus_catcher(&mut self, acts: &mut Vec<Action>)
        ensures
            final(self)@ == (PanelModel { focus_catcher_id: None, ..old(self)@ }),
            steps::acted(final(acts)@) == steps::acted(old(acts)@) + steps::destroying(
                old(self)@.focus_catcher_id,
            ),
    {
        destroy(acts, self.focus_catcher_id);
        self.focus_catcher_id = None;
    }

    fn map_ready_toolbars(&mut self, acts: &mut Vec<Action>)
        ensures
            final(self)@ == steps::ready_mapped(old(self)@).panel,
            steps::acted(final(acts)@) == steps::acted(old(acts)@) + steps::ready_mapped(
                old(self)@,
            ).actions,
    {
        proof {
            reveal(steps::ready_mapped);
        }
        let ghost said = steps::acted(acts@);
        if self.focus_output.is_none() {
            assert(said =~= said + Seq::empty());
            return;
        }
        let wanted = self.toolbars_wanted();
        self.open_wanted(acts);
        if wanted {
            self.drop_focus_catcher(acts);
        }
        let ghost opened = steps::acted(acts@);
        let ghost s = steps::catcher_ensured(self@);
        self.ensure_focus_catcher(acts);
        proof {
            let p = old(self)@;
            let o = steps::toolbars_opened(p.outputs, p.capture is Recording, p.next_id);
            if wanted {
                assert(opened =~= said + (o.actions + steps::destroying(p.focus_catcher_id)));
                assert(said + (o.actions + steps::destroying(p.focus_catcher_id)) + s.actions
                    =~= said + (o.actions + steps::destroying(p.focus_catcher_id) + s.actions));
            } else {
                assert(said + o.actions + s.actions =~= said + (o.actions + s.actions));
            }
        }
    }

    fn close_toolbars(&mut self, acts: &mut Vec<Action>)
        ensures
            final(self)@ == steps::toolbars_closed(old(self)@).panel,
            steps::acted(final(acts)@) == steps::acted(old(acts)@) + steps::toolbars_closed(
                old(self)@,
            ).actions,
    {
        proof {
            reveal(steps::toolbars_closed);
        }
        destroy_toolbars(&mut self.outputs, acts);
        destroy(acts, self.focus_catcher_id);
        self.focus_catcher_id = None;
        assert(steps::acted(acts@) =~= steps::acted(old(acts)@) + steps::toolbars_closed(
            old(self)@,
        ).actions);
    }

    fn open_stop_pill(&mut self, acts: &mut Vec<Action>)
        ensures
            final(self)@ == steps::pill_opened(old(self)@).panel,
            steps::acted(final(acts)@) == steps::acted(old(acts)@) + steps::pill_opened(
                old(self)@,
            ).actions,
    {
        proof {
            reveal(steps::pill_opened);
        }
        if self.stop_pill_id.is_none() {
            let output: Option<u32> = match &self.recording_target_output {
                Some(name) => match stitch::position_named(&self.outputs, name) {
                    Some(i) => Some(self.outputs[i].key),
                    None => None,
                },
                None => None,
            };
            let id: u64 = self.next_id;
            self.stop_pill_id = Some(id);
            self.next_id = following(id);
            act(acts, Action::Open { id, kind: SurfaceKind::StopPill, output });
        }
        assert(steps::acted(acts@) =~= steps::acted(old(acts)@) + steps::pill_opened(
            old(self)@,
        ).actions);
    }

    fn open_recording_overlays(&mut self, acts: &mut Vec<Action>)
        ensures
            final(self)@ == steps::overlays_opened(old(self)@).panel,
            steps::acted(final(acts)@) == steps::acted(old(acts)@) + steps::overlays_opened(
                old(self)@,
            ).actions,
    {
        proof {
            reveal(steps::overlays_opened);
        }
        let next: u64 = open_borders(&mut self.outputs, self.next_id, acts);
        self.next_id = next;
    }

    fn switch_over(&mut self, acts: &mut Vec<Action>)
        ensures
            final(self)@ == steps::switched_over(old(self)@).panel,
            steps::acted(final(acts)@) == steps::acted(old(acts)@) + steps::switched_over(
                old(self)@,
            ).actions,
    {
        proof {
            reveal(steps::switched_over);
        }
        self.close_toolbars(acts);
        self.open_stop_pill(acts);
        self.open_recording_overlays(acts);
        assert(steps::acted(acts@) =~= steps::acted(old(acts)@) + steps::switched_over(
            old(self)@,
        ).actions);
    }

    fn shutdown(&mut self, acts: &mut Vec<Action>)
        ensures
            final(self)@ == steps::shut(old(self)@).panel,
            steps::acted(final(acts)@) == steps::acted(old(acts)@) + steps::shut(old(self)@).actions,
    {
        proof {
            reveal(steps::shut);
            reveal(steps::toolbars_closed);
        }
        destroy(acts, self.stop_pill_id);
        self.stop_pill_id = None;
        destroy_borders(&mut self.outputs, acts);
        self.close_toolbars(acts);
        self.recording_started_at = None;
        act(acts, Action::Exit);
        assert(steps::acted(acts@) =~= steps::acted(old(acts)@) + steps::shut(old(self)@).actions);
    }

    fn stop_all_stream_sessions(&mut self, acts: &mut Vec<Action>)
        ensures
            final(self)@ == steps::streams_stopped(old(self)@).panel,
            steps::acted(final(acts)@) == steps::acted(old(acts)@) + steps::streams_stopped(
                old(self)@,
            ).actions,
    {
        proof {
            reveal(steps::streams_stopped);
        }
        if self.streaming_sessions.len() > 0 {
            self.streaming_sessions = Vec::new();
            act(acts, Action::StopStreams);
        }
        assert(steps::acted(acts@) =~= steps::acted(old(acts)@) + steps::streams_stopped(
            old(self)@,
        ).actions);
    }

    fn refresh_picker(&self, acts: &mut Vec<Action>)
        ensures
            steps::acted(final(acts)@) == steps::acted(old(acts)@) + steps::picker_refreshed(
                self.outputs@,
                self.rec_cursor,
            ),
    {
        let ghost said = steps::acted(acts@);
        let mut i: usize = 0;
        assert(said + steps::picker_refreshed(self.outputs@.take(0), self.rec_cursor) =~= said);
        while i < self.outputs.len()
            invariant
                i <= self.outputs@.len(),
                steps::acted(acts@) == said + steps::picker_refreshed(
                    self.outputs@.take(i as int),
                    self.rec_cursor,
                ),
            decreases self.outputs@.len() - i,
        {
            act(
                acts,
                Action::ListWindows {
                    output: self.outputs[i].name.clone(),
                    cursor: self.rec_cursor,
                },
            );
            assert(steps::acted(acts@) =~= said + steps::picker_refreshed(
                self.outputs@.take(i + 1),
                self.rec_cursor,
            ));
            i = i + 1;
        }
        assert(self.outputs@.take(i as int) =~= self.outputs@);
    }

    fn decode_wallpapers(&self, from: usize, to: usize, acts: &mut Vec<Action>)
        requires
            from <= to <= self.outputs@.len(),
        ensures
            steps::acted(final(acts)@) == steps::acted(old(acts)@) + steps::decoding(
                wallpaper::jobs_of(self.outputs@.subrange(from as int, to as int)),
            ),
    {
        let ghost said = steps::acted(acts@);
        let mut jobs: Vec<WallpaperJob> = wallpaper::wallpaper_jobs(&self.outputs, from, to);
        let ghost models = wallpaper::job_models(jobs@);
        let n: usize = jobs.len();
        let mut i: usize = 0;
        assert(said + steps::decoding(models.take(0)) =~= said);
        assert(jobs@ =~= jobs@.skip(0));
        let ghost all = jobs@;
        while i < n
            invariant
                i <= n,
                n == all.len(),
                jobs@ == all.skip(i as int),
                models == wallpaper::job_models(all),
                steps::acted(acts@) == said + steps::decoding(models.take(i as int)),
            decreases n - i,
        {
            let job = jobs.remove(0);
            assert(jobs@ =~= all.skip(i + 1));
            act(acts, Action::Decode { job });
            assert(steps::acted(acts@) =~= said + steps::decoding(models.take(i + 1)));
            i = i + 1;
        }
        assert(models.take(i as int) =~= models);
    }
}

fn pin_thumbs(output: &String, n: usize, acts: &mut Vec<Action>)
    ensures
        steps::acted(final(acts)@) == steps::acted(old(acts)@) + steps::thumbs_pinned(
            *output,
            n as nat,
        ),
{
    let ghost said = steps::acted(acts@);
    let mut i: usize = 0;
    assert(said + steps::thumbs_pinned(*output, 0) =~= said);
    while i < n
        invariant
            i <= n,
            steps::acted(acts@) == said + steps::thumbs_pinned(*output, i as nat),
        decreases n - i,
    {
        act(acts, Action::PinThumb { output: output.clone(), index: i as u64 });
        assert(steps::acted(acts@) =~= said + steps::thumbs_pinned(*output, (i + 1) as nat));
        i = i + 1;
    }
}

fn slot_entries(
    slots: &mut Vec<Slot>,
    next: u64,
    output: &String,
    entries: &Vec<WindowEntry>,
    acts: &mut Vec<Action>,
) -> (r: (Vec<WindowEntry>, u64))
    ensures
        r.0@ == steps::slotted(old(slots)@, next, *output, entries@).entries,
        final(slots)@ == steps::slotted(old(slots)@, next, *output, entries@).slots,
        r.1 == steps::slotted(old(slots)@, next, *output, entries@).next,
        steps::acted(final(acts)@) == steps::acted(old(acts)@) + steps::slotted(
            old(slots)@,
            next,
            *output,
            entries@,
        ).actions,
{
    let ghost said = steps::acted(acts@);
    let ghost before = slots@;
    let mut placed: Vec<WindowEntry> = Vec::new();
    let mut following_id: u64 = next;
    let mut i: usize = 0;
    assert(steps::slotted(before, next, *output, entries@.take(0)).entries =~= Seq::empty());
    assert(said + steps::slotted(before, next, *output, entries@.take(0)).actions =~= said);
    while i < entries.len()
        invariant
            i <= entries@.len(),
            placed@ == steps::slotted(before, next, *output, entries@.take(i as int)).entries,
            slots@ == steps::slotted(before, next, *output, entries@.take(i as int)).slots,
            following_id == steps::slotted(before, next, *output, entries@.take(i as int)).next,
            steps::acted(acts@) == said + steps::slotted(
                before,
                next,
                *output,
                entries@.take(i as int),
            ).actions,
        decreases entries@.len() - i,
    {
        assert(entries@.take(i + 1).drop_last() =~= entries@.take(i as int));
        let e = &entries[i];
        assert(entries@.take(i + 1).last() == *e);
        let id: u64 = match position_of_slot(slots, &e.identifier) {
            Some(j) => slots[j].id,
            None => {
                let id: u64 = following_id;
                slots.push(Slot { identifier: e.identifier.clone(), id });
                following_id = following(id);
                id
            },
        };
        placed.push(
            WindowEntry {
                output: output.clone(),
                index: i as u64,
                streaming: Some(id),
                ..same_entry(e)
            },
        );
        act(acts, Action::Publish { slot: id, frame: share(&e.frozen) });
        assert(steps::acted(acts@) =~= said + steps::slotted(
            before,
            next,
            *output,
            entries@.take(i + 1),
        ).actions);
        i = i + 1;
    }
    assert(entries@.take(i as int) =~= entries@);
    (placed, following_id)
}

fn stream_entries(sessions: &mut Vec<String>, entries: &Vec<WindowEntry>, acts: &mut Vec<Action>)
    ensures
        final(sessions)@ == steps::streamed(old(sessions)@, entries@).sessions,
        steps::acted(final(acts)@) == steps::acted(old(acts)@) + steps::streamed(
            old(sessions)@,
            entries@,
        ).actions,
{
    let ghost said = steps::acted(acts@);
    let ghost before = sessions@;
    let mut i: usize = 0;
    assert(said + steps::streamed(before, entries@.take(0)).actions =~= said);
    while i < entries.len()
        invariant
            i <= entries@.len(),
            sessions@ == steps::streamed(before, entries@.take(i as int)).sessions,
            steps::acted(acts@) == said + steps::streamed(before, entries@.take(i as int)).actions,
        decreases entries@.len() - i,
    {
        assert(entries@.take(i + 1).drop_last() =~= entries@.take(i as int));
        let e = &entries[i];
        assert(entries@.take(i + 1).last() == *e);
        if let Some(slot) = e.streaming {
            if !has_text(sessions, &e.identifier) {
                sessions.push(e.identifier.clone());
                act(acts, Action::StartStream { identifier: e.identifier.clone(), slot });
            }
        }
        assert(steps::acted(acts@) =~= said + steps::streamed(
            before,
            entries@.take(i + 1),
        ).actions);
        i = i + 1;
    }
    assert(entries@.take(i as int) =~= entries@);
}

fn knows_window(windows: &Vec<WindowEntry>, name: &String) -> (b: bool)
    ensures
        b == steps::known_window(windows@, name@),
{
    let mut i: usize = 0;
    while i < windows.len()
        invariant
            i <= windows@.len(),
            forall|j: int| 0 <= j < i ==> (#[trigger] windows@[j]).identifier@ != name@,
        decreases windows@.len() - i,
    {
        if windows[i].identifier == *name {
            assert(windows@[i as int].identifier@ == name@);
            return true;
        }
        i = i + 1;
    }
    false
}

fn drop_dead_slots(
    slots: &mut Vec<Slot>,
    windows: &Vec<WindowEntry>,
    entries: &Vec<WindowEntry>,
    acts: &mut Vec<Action>,
)
    ensures
        final(slots)@ == steps::live_slots(old(slots)@, windows@, entries@),
        steps::acted(final(acts)@) == steps::acted(old(acts)@) + steps::slots_dropped(
            old(slots)@,
            windows@,
            entries@,
        ),
{
    let ghost said = steps::acted(acts@);
    let ghost before = slots@;
    let ghost live = |s: Slot|
        steps::known_window(windows@, s.identifier@) || steps::known_window(
            entries@,
            s.identifier@,
        );
    let mut left: Vec<Slot> = Vec::new();
    let mut i: usize = 0;
    reveal(Seq::filter);
    assert(said + steps::slots_dropped(before.take(0), windows@, entries@) =~= said);
    while i < slots.len()
        invariant
            i <= slots@.len(),
            *slots == *old(slots),
            before == slots@,
            live == (|s: Slot|
                steps::known_window(windows@, s.identifier@) || steps::known_window(
                    entries@,
                    s.identifier@,
                )),
            left@ == before.take(i as int).filter(live),
            steps::acted(acts@) == said + steps::slots_dropped(
                before.take(i as int),
                windows@,
                entries@,
            ),
        decreases slots@.len() - i,
    {
        reveal(Seq::filter);
        assert(before.take(i + 1).drop_last() =~= before.take(i as int));
        let s = &slots[i];
        assert(before.take(i + 1).last() == *s);
        if knows_window(windows, &s.identifier) || knows_window(entries, &s.identifier) {
            left.push(Slot { identifier: s.identifier.clone(), id: s.id });
        } else {
            act(acts, Action::DropSlot { slot: s.id });
        }
        assert(steps::acted(acts@) =~= said + steps::slots_dropped(
            before.take(i + 1),
            windows@,
            entries@,
        ));
        i = i + 1;
    }
    assert(before.take(i as int) =~= before);
    *slots = left;
}

fn end_dead_streams(
    sessions: &mut Vec<String>,
    windows: &Vec<WindowEntry>,
    entries: &Vec<WindowEntry>,
    acts: &mut Vec<Action>,
)
    ensures
        final(sessions)@ == steps::live_streams(old(sessions)@, windows@, entries@),
        steps::acted(final(acts)@) == steps::acted(old(acts)@) + steps::streams_ended(
            old(sessions)@,
            windows@,
            entries@,
        ),
{
    let ghost said = steps::acted(acts@);
    let ghost before = sessions@;
    let ghost live = |s: String|
        steps::known_window(windows@, s@) || steps::known_window(
            entries@,
            s@,
        );
    let mut left: Vec<String> = Vec::new();
    let mut i: usize = 0;
    reveal(Seq::filter);
    assert(said + steps::streams_ended(before.take(0), windows@, entries@) =~= said);
    while i < sessions.len()
        invariant
            i <= sessions@.len(),
            *sessions == *old(sessions),
            before == sessions@,
            live == (|s: String|
                steps::known_window(windows@, s@) || steps::known_window(
                    entries@,
                    s@,
                )),
            left@ == before.take(i as int).filter(live),
            steps::acted(acts@) == said + steps::streams_ended(
                before.take(i as int),
                windows@,
                entries@,
            ),
        decreases sessions@.len() - i,
    {
        reveal(Seq::filter);
        assert(before.take(i + 1).drop_last() =~= before.take(i as int));
        let s = &sessions[i];
        assert(before.take(i + 1).last() == *s);
        if knows_window(windows, s) || knows_window(entries, s) {
            left.push(s.clone());
        } else {
            act(acts, Action::StopStream { identifier: s.clone() });
        }
        assert(steps::acted(acts@) =~= said + steps::streams_ended(
            before.take(i + 1),
            windows@,
            entries@,
        ));
        i = i + 1;
    }
    assert(before.take(i as int) =~= before);
    *sessions = left;
}

impl Panel {
    fn set_mode(&mut self, m: Mode, acts: &mut Vec<Action>)
        ensures
            final(self)@ == steps::mode_set(old(self)@, m).panel,
            steps::acted(final(acts)@) == steps::acted(old(acts)@) + steps::mode_set(
                old(self)@,
                m,
            ).actions,
    {
        proof {
            reveal(steps::mode_set);
            reveal(steps::streams_stopped);
        }
        if !self.locked() && self.mode != m {
            self.mode = m;
            act(acts, Action::Persist { setting: Setting::Mode(m) });
            if m == Mode::Screenshot {
                self.stop_all_stream_sessions(acts);
            }
            if self.source == Source::Window {
                self.refresh_picker(acts);
            }
        }
        assert(steps::acted(acts@) =~= steps::acted(old(acts)@) + steps::mode_set(
            old(self)@,
            m,
        ).actions);
    }

    fn set_source(&mut self, s: Source, acts: &mut Vec<Action>)
        ensures
            final(self)@ == steps::source_set(old(self)@, s).panel,
            steps::acted(final(acts)@) == steps::acted(old(acts)@) + steps::source_set(
                old(self)@,
                s,
            ).actions,
    {
        proof {
            reveal(steps::source_set);
        }
        if !self.locked() && self.source != s {
            self.source = s;
            act(acts, Action::Persist { setting: Setting::Source(s) });
            if s == Source::Window {
                let n: usize = self.outputs.len();
                self.decode_wallpapers(0, n, acts);
                assert(self.outputs@.subrange(0, n as int) =~= self.outputs@);
                self.refresh_picker(acts);
            } else {
                self.stop_all_stream_sessions(acts);
            }
        }
        assert(steps::acted(acts@) =~= steps::acted(old(acts)@) + steps::source_set(
            old(self)@,
            s,
        ).actions);
    }

    fn set_save_target(&mut self, i: usize, acts: &mut Vec<Action>)
        ensures
            final(self)@ == steps::save_target_set(old(self)@, i).panel,
            steps::acted(final(acts)@) == steps::acted(old(acts)@) + steps::save_target_set(
                old(self)@,
                i,
            ).actions,
    {
        proof {
            reveal(steps::save_target_set);
        }
        if let Some(t) = SaveTarget::at(i) {
            if self.save_target != t {
                self.save_target = t;
                act(acts, Action::Persist { setting: Setting::SaveTarget(t) });
            }
        }
        assert(steps::acted(acts@) =~= steps::acted(old(acts)@) + steps::save_target_set(
            old(self)@,
            i,
        ).actions);
    }

    fn set_record_format(&mut self, i: usize, acts: &mut Vec<Action>)
        ensures
            final(self)@ == steps::record_format_set(old(self)@, i).panel,
            steps::acted(final(acts)@) == steps::acted(old(acts)@) + steps::record_format_set(
                old(self)@,
                i,
            ).actions,
    {
        proof {
            reveal(steps::record_format_set);
        }
        if let Some(f) = RecordFormat::at(i) {
            if self.record_format != f {
                self.record_format = f;
                act(acts, Action::Persist { setting: Setting::RecordFormat(f) });
            }
        }
        assert(steps::acted(acts@) =~= steps::acted(old(acts)@) + steps::record_format_set(
            old(self)@,
            i,
        ).actions);
    }

    fn set_record_fps(&mut self, i: usize, acts: &mut Vec<Action>)
        ensures
            final(self)@ == steps::record_fps_set(old(self)@, i).panel,
            steps::acted(final(acts)@) == steps::acted(old(acts)@) + steps::record_fps_set(
                old(self)@,
                i,
            ).actions,
    {
        proof {
            reveal(steps::record_fps_set);
        }
        if let Some(f) = RecordFps::at(i) {
            if self.record_fps != f {
                self.record_fps = f;
                act(acts, Action::Persist { setting: Setting::RecordFps(f) });
            }
        }
        assert(steps::acted(acts@) =~= steps::acted(old(acts)@) + steps::record_fps_set(
            old(self)@,
            i,
        ).actions);
    }

    fn on_selection(&mut self, e: WidgetEvent, acts: &mut Vec<Action>)
        ensures
            final(self)@ == steps::selection_changed(old(self)@, e).panel,
            steps::acted(final(acts)@) == steps::acted(old(acts)@) + steps::selection_changed(
                old(self)@,
                e,
            ).actions,
    {
        proof {
            reveal(steps::selection_changed);
        }
        let ghost said = steps::acted(acts@);
        assert(said =~= said + Seq::empty());
        match e {
            WidgetEvent::DragStart { session, initial_rect } => {
                self.drag = Some(session);
                self.region = Some(initial_rect);
            },
            WidgetEvent::DragMove(r) => {
                self.region = Some(r);
            },
            WidgetEvent::DragEnd => {
                self.drag = None;
                if let Some(r) = self.region {
                    act(acts, Action::Persist { setting: Setting::LastRegion(Some(r)) });
                    assert(steps::acted(acts@) =~= said + steps::kept(
                        Setting::LastRegion(Some(r)),
                    ));
                }
            },
        }
    }

    fn on_tick(&mut self, now: u64, acts: &mut Vec<Action>)
        ensures
            final(self)@ == steps::ticked(old(self)@, now).panel,
            steps::acted(final(acts)@) == steps::acted(old(acts)@) + steps::ticked(
                old(self)@,
                now,
            ).actions,
    {
        proof {
            reveal(steps::ticked);
        }
        let stalled = match self.saving_started_at {
            Some(t) => now > t && now - t > steps::SAVING_LIMIT_NS,
            None => false,
        };
        assert(stalled == steps::saving_stalled(self@, now));
        if stalled {
            self.cancel_pending = true;
            self.shutdown(acts);
        } else {
            assert(steps::acted(acts@) =~= steps::acted(old(acts)@) + Seq::empty());
        }
    }

    fn on_escape(&mut self, now: u64, acts: &mut Vec<Action>)
        ensures
            final(self)@ == steps::escaped(old(self)@, now).panel,
            steps::acted(final(acts)@) == steps::acted(old(acts)@) + steps::escaped(
                old(self)@,
                now,
            ).actions,
    {
        proof {
            reveal(steps::escaped);
        }
        match self.capture {
            CaptureState::Recording { stop_armed } => {
                self.cancel_pending = true;
                self.capture = CaptureState::Recording { stop_armed: false };
                self.saving_started_at = Some(now);
                if stop_armed {
                    act(acts, Action::SendStop);
                }
                assert(steps::acted(acts@) =~= steps::acted(old(acts)@) + steps::escaped(
                    old(self)@,
                    now,
                ).actions);
            },
            CaptureState::Idle => {
                self.shutdown(acts);
            },
            CaptureState::Saving => {
                self.cancel_pending = true;
                self.shutdown(acts);
            },
        }
    }

    fn on_finished(&mut self, recording: bool, r: Result<String, String>, acts: &mut Vec<Action>)
        ensures
            final(self)@ == steps::finished(old(self)@, recording, r).panel,
            steps::acted(final(acts)@) == steps::acted(old(acts)@) + steps::finished(
                old(self)@,
                recording,
                r,
            ).actions,
    {
        proof {
            reveal(steps::finished);
        }
        let ghost said = steps::acted(acts@);
        match r {
            Ok(path) => {
                if self.cancel_pending {
                    act(acts, Action::DeleteFile { path });
                } else if recording {
                    act(acts, Action::CopyRecording { path, format: self.record_format });
                }
            },
            Err(_) => {},
        }
        self.shutdown(acts);
        assert(steps::acted(acts@) =~= said + steps::finished(old(self)@, recording, r).actions);
    }
}

/// What is known of an output once the compositor has said something new.
fn update_info(o: &mut OutputInfo, d: OutputDescription)
    ensures
        *final(o) == steps::updated(*old(o), d),
{
    o.physical_size = outputs::physical_size_of(&d);
    if let Some(n) = d.name {
        o.name = n;
    }
    if let Some(p) = d.logical_position {
        o.logical_pos = p;
    }
    if let Some((w, h)) = d.logical_size {
        o.logical_size = (w as u32, h as u32);
    }
}

impl Panel {
    fn on_output_created(&mut self, info: OutputInfo, acts: &mut Vec<Action>)
        ensures
            final(self)@ == steps::output_created(old(self)@, info).panel,
            steps::acted(final(acts)@) == steps::acted(old(acts)@) + steps::output_created(
                old(self)@,
                info,
            ).actions,
    {
        proof {
            reveal(steps::output_created);
        }
        let ghost said = steps::acted(acts@);
        let key: u32 = info.key;
        let name = info.name.clone();
        let at: usize = match position_of_key(&self.outputs, key) {
            Some(i) => {
                self.outputs.set(i, info);
                i
            },
            None => {
                self.outputs.push(info);
                self.outputs.len() - 1
            },
        };
        assert(self.outputs@.subrange(at as int, at + 1) =~= seq![info]);
        act(acts, Action::Freeze { key, name: name.clone(), cursor: self.rec_cursor });
        if self.source == Source::Window {
            act(acts, Action::ListWindows { output: name, cursor: self.rec_cursor });
            let n: usize = self.outputs.len();
            assert(at < n);
            self.decode_wallpapers(at, at + 1, acts);
        }
        assert(steps::acted(acts@) =~= said + steps::output_created(old(self)@, info).actions);
    }

    fn on_output_updated(&mut self, key: u32, d: OutputDescription, acts: &mut Vec<Action>)
        ensures
            final(self)@ == steps::output_updated(old(self)@, key, d).panel,
            steps::acted(final(acts)@) == steps::acted(old(acts)@) + steps::output_updated(
                old(self)@,
                key,
                d,
            ).actions,
    {
        proof {
            reveal(steps::output_updated);
        }
        let ghost said = steps::acted(acts@);
        assert(said =~= said + Seq::empty());
        if let Some(i) = position_of_key(&self.outputs, key) {
            update_info(&mut self.outputs[i], d);
            assert(self.outputs@ =~= old(self).outputs@.update(
                i as int,
                steps::updated(old(self).outputs@[i as int], d),
            ));
            if self.outputs[i].freeze_done {
                self.map_ready_toolbars(acts);
            }
        }
    }

    fn on_output_removed(&mut self, key: u32, acts: &mut Vec<Action>)
        ensures
            final(self)@ == steps::output_removed(old(self)@, key).panel,
            steps::acted(final(acts)@) == steps::acted(old(acts)@) + steps::output_removed(
                old(self)@,
                key,
            ).actions,
    {
        proof {
            reveal(steps::output_removed);
        }
        let ghost said = steps::acted(acts@);
        assert(said =~= said + Seq::empty());
        if let Some(i) = position_of_key(&self.outputs, key) {
            let o = self.outputs.remove(i);
            self.windows = keep_elsewhere(&self.windows, &o.name);
            drop_text(&mut self.listed, &o.name);
            drop_text(&mut self.picker_painted, &o.name);
            destroy(acts, o.toolbar_id);
            destroy(acts, o.recording_id);
            assert(steps::acted(acts@) =~= said + (steps::destroying(o.toolbar_id)
                + steps::destroying(o.recording_id)));
        }
    }

    fn on_pointer(&mut self, id: Option<u64>)
        ensures
            final(self)@ == steps::pointer_on(old(self)@, id).panel,
            steps::pointer_on(old(self)@, id).actions == Seq::<steps::ActionModel>::empty(),
    {
        proof {
            reveal(steps::pointer_on);
        }
        self.hovered_toolbar = match id {
            Some(i) => match position_of_toolbar(&self.outputs, i) {
                Some(_) => id,
                None => self.hovered_toolbar,
            },
            None => None,
        };
    }

    fn on_frozen(
        &mut self,
        key: u32,
        frame: Option<Arc<CapturedFrame>>,
        sub: bool,
        acts: &mut Vec<Action>,
    )
        ensures
            final(self)@ == steps::frozen_ready(old(self)@, key, frame, sub).panel,
            steps::acted(final(acts)@) == steps::acted(old(acts)@) + steps::frozen_ready(
                old(self)@,
                key,
                frame,
                sub,
            ).actions,
    {
        proof {
            reveal(steps::frozen_ready);
        }
        let ghost said = steps::acted(acts@);
        assert(said =~= said + Seq::empty());
        if let Some(i) = position_of_key(&self.outputs, key) {
            let pin = frame.is_some() && !sub;
            let o = &mut self.outputs[i];
            o.freeze_done = true;
            if let Some(f) = frame {
                o.frozen = Some(f);
                if sub {
                    o.frozen_sub = true;
                } else {
                    o.frozen_texture = true;
                }
            }
            self.map_ready_toolbars(acts);
            if pin {
                act(acts, Action::PinFreeze { key });
            }
            assert(steps::acted(acts@) =~= said + steps::frozen_ready(
                old(self)@,
                key,
                frame,
                sub,
            ).actions);
        }
    }

    fn on_freeze_pinned(&mut self, key: u32, pinned: bool)
        ensures
            final(self)@ == steps::frozen_pinned(old(self)@, key, pinned).panel,
            steps::frozen_pinned(old(self)@, key, pinned).actions == Seq::<steps::ActionModel>::empty(),
    {
        proof {
            reveal(steps::frozen_pinned);
        }
        if let Some(i) = position_of_key(&self.outputs, key) {
            let o = &mut self.outputs[i];
            o.frozen_pinned = pinned;
            assert(self@ == steps::frozen_pinned(old(self)@, key, pinned).panel);
        }
    }

    fn on_windows(&mut self, output: String, entries: Vec<WindowEntry>, acts: &mut Vec<Action>)
        ensures
            final(self)@ == steps::windows_ready(old(self)@, output, entries@).panel,
            steps::acted(final(acts)@) == steps::acted(old(acts)@) + steps::windows_ready(
                old(self)@,
                output,
                entries@,
            ).actions,
    {
        proof {
            reveal(steps::windows_ready);
        }
        let ghost said = steps::acted(acts@);
        pin_thumbs(&output, entries.len(), acts);
        let (mut placed, next) = slot_entries(
            &mut self.shared_frames,
            self.next_slot,
            &output,
            &entries,
            acts,
        );
        self.next_slot = next;
        let ghost s = steps::slotted(
            old(self)@.shared_frames,
            old(self)@.next_slot,
            output,
            entries@,
        );
        self.windows = keep_elsewhere(&self.windows, &output);
        end_dead_streams(&mut self.streaming_sessions, &self.windows, &placed, acts);
        if self.source == Source::Window && self.mode == Mode::Record {
            stream_entries(&mut self.streaming_sessions, &placed, acts);
        }
        drop_dead_slots(&mut self.shared_frames, &self.windows, &placed, acts);
        self.windows.append(&mut placed);
        add_text(&mut self.listed, output.clone());
        act(acts, Action::SettlePaint { output });
        assert(self.windows@ =~= steps::windows_elsewhere(old(self)@.windows, output@) + s.entries);
        assert(steps::acted(acts@) =~= said + steps::windows_ready(
            old(self)@,
            output,
            entries@,
        ).actions);
    }

    fn on_thumb_pinned(&mut self, output: &String, index: u64, pinned: bool)
        ensures
            final(self)@ == steps::thumb_pinned(old(self)@, output@, index, pinned).panel,
            steps::thumb_pinned(old(self)@, output@, index, pinned).actions == Seq::<steps::ActionModel>::empty(),
    {
        proof {
            reveal(steps::thumb_pinned);
        }
        let ghost change = |e: WindowEntry|
            if e.output@ == output@ && e.index == index {
                WindowEntry { pinned, ..e }
            } else {
                e
            };
        let ghost before = self.windows@;
        let mut i: usize = 0;
        assert(before.take(0).map_values(change) + before.skip(0) =~= before);
        while i < self.windows.len()
            invariant
                i <= self.windows@.len(),
                self.windows@.len() == before.len(),
                before == old(self).windows@,
                change == (|e: WindowEntry|
                    if e.output@ == output@ && e.index == index {
                        WindowEntry { pinned, ..e }
                    } else {
                        e
                    }),
                self.windows@ == before.take(i as int).map_values(change) + before.skip(i as int),
                self@ == (PanelModel { windows: self.windows@, ..old(self)@ }),
            decreases self.windows@.len() - i,
        {
            assert(self.windows@[i as int] == before[i as int]);
            if self.windows[i].output == *output && self.windows[i].index == index {
                let e = &mut self.windows[i];
                e.pinned = pinned;
            }
            assert(self.windows@ =~= before.take(i + 1).map_values(change) + before.skip(i + 1));
            i = i + 1;
        }
        assert(before.take(i as int) =~= before);
        assert(self.windows@ =~= before.map_values(change));
    }

    fn on_wallpapers(&mut self, results: &Vec<(u32, bool)>)
        ensures
            final(self)@ == (PanelModel {
                outputs: steps::wallpapers_decoded(old(self)@.outputs, results@),
                ..old(self)@
            }),
    {
        let ghost before = self.outputs@;
        let mut i: usize = 0;
        while i < results.len()
            invariant
                i <= results@.len(),
                before == old(self).outputs@,
                self.outputs@ == steps::wallpapers_decoded(before, results@.take(i as int)),
                self@ == (PanelModel { outputs: self.outputs@, ..old(self)@ }),
            decreases results@.len() - i,
        {
            assert(results@.take(i + 1).drop_last() =~= results@.take(i as int));
            let (key, ok) = results[i];
            assert(results@.take(i + 1).last() == (key, ok));
            let ghost was = self.outputs@;
            if let Some(j) = position_of_key(&self.outputs, key) {
                let o = &mut self.outputs[j];
                if ok {
                    o.wallpaper_ready = true;
                } else {
                    o.bg_source = None;
                }
                assert(self.outputs@ =~= steps::wallpapers_decoded(before, results@.take(i + 1)));
            }
            i = i + 1;
        }
        assert(results@.take(i as int) =~= results@);
    }
}

impl Panel {
    /// Where a screenshot goes.
    pub fn current_destination(&self, env: &Env) -> (d: Destination)
        ensures
            d == self@.destination(*env),
    {
        match self.save_target {
            SaveTarget::Clipboard => Destination::Clipboard,
            SaveTarget::Pictures => Destination::File(None),
            SaveTarget::Documents => Destination::File(same_path(&env.documents_file)),
        }
    }

    /// What a video recording is asked for.
    pub fn build_record_args(&self) -> (a: RecordArgs)
        ensures
            a == self@.record_args(),
    {
        let container = match self.record_format {
            RecordFormat::Mp4 | RecordFormat::Gif => VideoContainer::Mp4,
            RecordFormat::Mkv => VideoContainer::Mkv,
            RecordFormat::WebM => VideoContainer::WebM,
        };
        RecordArgs {
            common: CommonArgs { file: None, notify: self.notify, clipboard: self.clipboard },
            fps: self.record_fps.as_u32(),
            encoder: self.rec_encoder,
            container,
            mic: self.rec_audio_mic,
            system_audio: self.rec_audio_system,
            cursor: self.rec_cursor,
            full: self.source != Source::Region,
            duration_secs: None,
        }
    }

    /// What an animated image is asked for.
    pub fn build_gif_args(&self) -> (a: GifArgs)
        ensures
            a == self@.gif_args(),
    {
        GifArgs {
            common: CommonArgs { file: None, notify: self.notify, clipboard: self.clipboard },
            fps: 20,
            quality: 90,
            max_width: 800,
            cursor: self.rec_cursor,
            full: self.source != Source::Region,
            duration_secs: 0,
        }
    }

    fn recording_action(&self, target: ScreencopyTarget, crop: Option<CropRect>) -> (a: Action)
        ensures
            a@ == steps::recording_of(self@, target, crop),
    {
        match self.record_format {
            RecordFormat::Gif => Action::RecordGif { target, args: self.build_gif_args(), crop },
            _ => Action::Record { target, args: self.build_record_args(), crop },
        }
    }

    /// How many outputs the region touches.
    pub fn region_output_count(&self) -> (n: usize)
        requires
            self.wf(),
        ensures
            n == self@.region_spread(),
    {
        match self.region {
            Some(r) => {
                let r = r.normalize();
                if r.width() <= 0 || r.height() <= 0 {
                    return 0;
                }
                outputs::count_overlapping(&self.outputs, &r)
            },
            None => 0,
        }
    }

    fn active_output(&self, clicked: &Option<String>) -> (r: Option<usize>)
        requires
            self.wf(),
        ensures
            match r {
                Some(i) => i < self.outputs@.len() && self@.active_output(text_of(*clicked))
                    == Some(i as int),
                None => self@.active_output(text_of(*clicked)) is None,
            },
    {
        if let Some(name) = clicked {
            if let Some(i) = stitch::position_named(&self.outputs, name) {
                return Some(i);
            }
        }
        if let Some(id) = self.hovered_toolbar {
            if let Some(i) = position_of_toolbar(&self.outputs, id) {
                return Some(i);
            }
        }
        if let Some(r) = self.region {
            let r = r.normalize();
            let (cx, cy) = outputs::centre_of(&r);
            if let Some(i) = outputs::position_at(&self.outputs, cx, cy) {
                return Some(i);
            }
        }
        if self.outputs.len() > 0 {
            Some(0)
        } else {
            None
        }
    }

    /// The name of the output that is captured: the one that was clicked, else the
    /// one under the pointer, else the one that the region's middle is on, else
    /// the first.
    pub fn active_output_name(&self, clicked: &Option<String>) -> (r: Option<String>)
        requires
            self.wf(),
        ensures
            match self@.active_output(text_of(*clicked)) {
                Some(i) => r == Some(self.outputs@[i].name),
                None => r is None,
            },
    {
        match self.active_output(clicked) {
            Some(i) => Some(self.outputs[i].name.clone()),
            None => None,
        }
    }

    fn save_window(&mut self, identifier: String, env: &Env, acts: &mut Vec<Action>)
        ensures
            final(self)@ == steps::window_saved(old(self)@, identifier, *env).panel,
            steps::acted(final(acts)@) == steps::acted(old(acts)@) + steps::window_saved(
                old(self)@,
                identifier,
                *env,
            ).actions,
    {
        proof {
            reveal(steps::window_saved);
        }
        let ghost said = steps::acted(acts@);
        let destination = self.current_destination(env);
        let a = match position_of_window(&self.windows, &identifier) {
            Some(i) => Action::SaveFrame {
                frame: share(&self.windows[i].frozen),
                crop: None,
                destination,
                notify: self.notify,
            },
            None => Action::ScreenshotToplevel {
                identifier,
                cursor: self.rec_cursor,
                destination,
                notify: self.notify,
            },
        };
        self.capture = CaptureState::Saving;
        self.saving_started_at = Some(env.now);
        act(acts, a);
        assert(steps::acted(acts@) =~= said + seq![a@]);
    }

    fn record_window(
        &mut self,
        identifier: String,
        on: Option<String>,
        now: u64,
        acts: &mut Vec<Action>,
    )
        ensures
            final(self)@ == steps::window_recorded(old(self)@, identifier, on, now).panel,
            steps::acted(final(acts)@) == steps::acted(old(acts)@) + steps::window_recorded(
                old(self)@,
                identifier,
                on,
                now,
            ).actions,
    {
        proof {
            reveal(steps::window_recorded);
        }
        let ghost said = steps::acted(acts@);
        let target = ScreencopyTarget::Toplevel { identifier: identifier.clone() };
        let a = self.recording_action(target, None);
        self.recording_window_id = Some(identifier);
        self.recording_target_output = on;
        self.open_stop_pill(acts);
        self.open_recording_overlays(acts);
        self.capture = CaptureState::Recording { stop_armed: true };
        self.recording_started_at = Some(now);
        act(acts, a);
        assert(steps::acted(acts@) =~= said + steps::window_recorded(
            old(self)@,
            identifier,
            on,
            now,
        ).actions);
    }

    fn leave_picker(&mut self, identifier: &String, acts: &mut Vec<Action>)
        ensures
            final(self)@ == steps::picker_left(old(self)@, *identifier).panel,
            steps::acted(final(acts)@) == steps::acted(old(acts)@) + steps::picker_left(
                old(self)@,
                *identifier,
            ).actions,
    {
        proof {
            reveal(steps::picker_left);
        }
        let ghost said = steps::acted(acts@);
        self.stop_all_stream_sessions(acts);
        act(acts, Action::Activate { identifier: identifier.clone() });
        self.close_toolbars(acts);
        assert(steps::acted(acts@) =~= said + steps::picker_left(
            old(self)@,
            *identifier,
        ).actions);
    }

    fn on_capture_toplevel(
        &mut self,
        identifier: String,
        on: Option<String>,
        env: &Env,
        acts: &mut Vec<Action>,
    )
        ensures
            final(self)@ == steps::toplevel_captured(old(self)@, identifier, on, *env).panel,
            steps::acted(final(acts)@) == steps::acted(old(acts)@) + steps::toplevel_captured(
                old(self)@,
                identifier,
                on,
                *env,
            ).actions,
    {
        proof {
            reveal(steps::toplevel_captured);
        }
        let ghost said = steps::acted(acts@);
        if self.locked() {
            assert(said =~= said + Seq::empty());
            return;
        }
        let mode = self.mode;
        let ghost s = steps::picker_left(self@, identifier);
        self.leave_picker(&identifier, acts);
        match mode {
            Mode::Screenshot => {
                let ghost t = steps::window_saved(self@, identifier, *env);
                self.save_window(identifier, env, acts);
                assert(said + s.actions + t.actions =~= said + (s.actions + t.actions));
            },
            Mode::Record => {
                let ghost t = steps::window_recorded(self@, identifier, on, env.now);
                self.record_window(identifier, on, env.now, acts);
                assert(said + s.actions + t.actions =~= said + (s.actions + t.actions));
            },
        }
    }

    /// Whether the main button would make one image of a region across outputs.
    fn about_to_stitch(&self) -> (b: bool)
        requires
            self.wf(),
        ensures
            b == steps::about_to_stitch(self@),
    {
        let idle = match self.capture {
            CaptureState::Idle => true,
            _ => false,
        };
        idle && self.mode == Mode::Screenshot && self.source == Source::Region
            && self.region_output_count() >= 2
    }

    /// Whether the image of a region across outputs that the main button would
    /// make, if any, can be held.
    pub fn canvas_ready(&self) -> (b: bool)
        requires
            self.wf(),
        ensures
            b == steps::canvas_ready(self@),
    {
        if !self.about_to_stitch() {
            return true;
        }
        match self.region {
            Some(r) => match outputs::compute_region_parts(&self.outputs, &r) {
                Some(layout) => stitch::can_hold(layout.canvas_w, layout.canvas_h),
                None => true,
            },
            None => true,
        }
    }

    fn save_region(&mut self, region: Rect, env: &Env, acts: &mut Vec<Action>)
        requires
            old(self).wf(),
            outputs::bounded(region),
            outputs::has_layout(old(self).outputs@, region) ==> stitch::region_canvas_fits(
                old(self).outputs@,
                region,
            ),
        ensures
            final(self)@ == steps::region_shot(old(self)@, region, *env).panel,
            steps::acted(final(acts)@) == steps::acted(old(acts)@) + steps::region_shot(
                old(self)@,
                region,
                *env,
            ).actions,
    {
        proof {
            reveal(steps::region_shot);
        }
        let ghost said = steps::acted(acts@);
        match stitch::stitch_region_screenshot(&self.outputs, &region) {
            Some(frame) => {
                let destination = self.current_destination(env);
                let a = Action::SaveStitched { frame, destination, notify: self.notify };
                self.capture = CaptureState::Saving;
                act(acts, a);
                assert(a@ == steps::stitched_saved(
                    old(self)@.outputs,
                    region,
                    old(self)@.destination(*env),
                    old(self)@.notify,
                ));
                assert(steps::acted(acts@) =~= said + seq![a@]);
            },
            None => {
                assert(said =~= said + Seq::empty());
            },
        }
    }

    fn shot_crop(&self) -> (c: Option<CropRect>)
        requires
            self.wf(),
        ensures
            c == steps::shot_crop(self@),
    {
        match (self.source, self.region) {
            (Source::Region, Some(r)) => match outputs::region_output_and_crop(
                &self.outputs,
                &r,
            ) {
                Some((_, c)) => Some(c),
                None => None,
            },
            _ => None,
        }
    }

    /// The place of the first output that has the name of the one at `i`.
    fn namesake(&self, i: usize) -> (j: usize)
        requires
            i < self.outputs@.len(),
        ensures
            j < self.outputs@.len(),
            stitch::find_named(self.outputs@, self.outputs@[i as int].name@) == Some(j as int),
    {
        proof {
            stitch::lemma_find_named(self.outputs@, self.outputs@[i as int].name@);
        }
        match stitch::position_named(&self.outputs, &self.outputs[i].name) {
            Some(j) => j,
            None => i,
        }
    }

    fn save_output(&mut self, i: usize, env: &Env, acts: &mut Vec<Action>)
        requires
            old(self).wf(),
            i < old(self).outputs@.len(),
        ensures
            final(self)@ == steps::output_shot(old(self)@, i as int, *env).panel,
            steps::acted(final(acts)@) == steps::acted(old(acts)@) + steps::output_shot(
                old(self)@,
                i as int,
                *env,
            ).actions,
    {
        proof {
            reveal(steps::output_shot);
        }
        let ghost said = steps::acted(acts@);
        let destination = self.current_destination(env);
        let crop = self.shot_crop();
        let j: usize = self.namesake(i);
        let a = match &self.outputs[j].frozen {
            Some(f) => Action::SaveFrame {
                frame: share(f),
                crop,
                destination,
                notify: self.notify,
            },
            None => Action::Screenshot {
                output_name: self.outputs[i].name.clone(),
                cursor: self.rec_cursor,
                crop,
                destination,
                notify: self.notify,
            },
        };
        self.capture = CaptureState::Saving;
        act(acts, a);
        assert(steps::acted(acts@) =~= said + seq![a@]);
    }

    fn take_shot(&mut self, clicked: &Option<String>, env: &Env, acts: &mut Vec<Action>)
        requires
            old(self).wf(),
            old(self)@.capture is Idle,
            old(self)@.mode == Mode::Screenshot,
            steps::canvas_ready(old(self)@),
        ensures
            final(self)@ == steps::shot_taken(old(self)@, text_of(*clicked), *env).panel,
            steps::acted(final(acts)@) == steps::acted(old(acts)@) + steps::shot_taken(
                old(self)@,
                text_of(*clicked),
                *env,
            ).actions,
    {
        proof {
            reveal(steps::shot_taken);
        }
        let ghost said = steps::acted(acts@);
        assert(said =~= said + Seq::empty());
        if self.source == Source::Window {
            return;
        }
        if self.source == Source::Region && self.region_output_count() >= 2 {
            if let Some(r) = self.region {
                self.save_region(r, env, acts);
            }
        } else if let Some(i) = self.active_output(clicked) {
            self.save_output(i, env, acts);
        }
    }

    fn record_output(
        &mut self,
        name: String,
        crop: Option<CropRect>,
        now: u64,
        acts: &mut Vec<Action>,
    )
        ensures
            final(self)@ == steps::output_recorded(old(self)@, name, crop, now).panel,
            steps::acted(final(acts)@) == steps::acted(old(acts)@) + steps::output_recorded(
                old(self)@,
                name,
                crop,
                now,
            ).actions,
    {
        proof {
            reveal(steps::output_recorded);
        }
        let ghost said = steps::acted(acts@);
        let target = ScreencopyTarget::Output { output_name: name.clone() };
        let a = self.recording_action(target, crop);
        self.recording_target_output = Some(name);
        self.switch_over(acts);
        self.capture = CaptureState::Recording { stop_armed: true };
        self.recording_started_at = Some(now);
        act(acts, a);
        assert(steps::acted(acts@) =~= said + steps::output_recorded(
            old(self)@,
            name,
            crop,
            now,
        ).actions);
    }

    fn record_region(&mut self, region: Rect, now: u64, acts: &mut Vec<Action>)
        requires
            old(self).wf(),
            outputs::bounded(region),
        ensures
            final(self)@ == steps::region_recorded(old(self)@, region, now).panel,
            steps::acted(final(acts)@) == steps::acted(old(acts)@) + steps::region_recorded(
                old(self)@,
                region,
                now,
            ).actions,
    {
        proof {
            reveal(steps::region_recorded);
        }
        let ghost said = steps::acted(acts@);
        assert(said =~= said + Seq::empty());
        if self.record_format == RecordFormat::Gif {
            return;
        }
        if let Some(layout) = outputs::compute_region_parts(&self.outputs, &region) {
            let ghost parts = stitch::parts_of(self.outputs@, region);
            assert(layout.parts@ == parts);
            self.recording_target_output = Some(layout.parts[0].output_name.clone());
            let ghost s = steps::switched_over(self@);
            let args = self.build_record_args();
            self.switch_over(acts);
            self.capture = CaptureState::Recording { stop_armed: true };
            self.recording_started_at = Some(now);
            let a = Action::RecordRegion { parts: layout.parts, args };
            act(acts, a);
            assert(steps::acted(acts@) =~= said + s.actions.push(a@));
        }
    }

    fn record_screen(&mut self, i: usize, now: u64, acts: &mut Vec<Action>)
        requires
            i < old(self).outputs@.len(),
        ensures
            final(self)@ == steps::screen_recorded(old(self)@, i as int, now).panel,
            steps::acted(final(acts)@) == steps::acted(old(acts)@) + steps::screen_recorded(
                old(self)@,
                i as int,
                now,
            ).actions,
    {
        proof {
            reveal(steps::screen_recorded);
        }
        let j: usize = self.namesake(i);
        let crop = outputs::border_crop(self.outputs[j].physical_size);
        let name = self.outputs[i].name.clone();
        self.record_output(name, crop, now, acts);
    }

    fn start_recording(&mut self, clicked: &Option<String>, now: u64, acts: &mut Vec<Action>)
        requires
            old(self).wf(),
            old(self).mode == Mode::Record,
        ensures
            final(self)@ == steps::recording_started(old(self)@, text_of(*clicked), now).panel,
            steps::acted(final(acts)@) == steps::acted(old(acts)@) + steps::recording_started(
                old(self)@,
                text_of(*clicked),
                now,
            ).actions,
    {
        proof {
            reveal(steps::recording_started);
        }
        let ghost said = steps::acted(acts@);
        assert(said =~= said + Seq::empty());
        if !self.can_start() {
            return;
        }
        if self.source == Source::Region {
            if let Some(r) = self.region {
                if self.region_output_count() >= 2 {
                    self.record_region(r, now, acts);
                } else if let Some((name, crop)) = outputs::region_output_and_crop(
                    &self.outputs,
                    &r,
                ) {
                    self.record_output(name, Some(crop), now, acts);
                }
            }
        } else if let Some(i) = self.active_output(clicked) {
            self.record_screen(i, now, acts);
        }
    }

    fn on_primary_action(&mut self, clicked: &Option<String>, env: &Env, acts: &mut Vec<Action>)
        requires
            old(self).wf(),
            steps::canvas_ready(old(self)@),
        ensures
            final(self)@ == steps::primary(
                old(self)@,
                text_of(*clicked),
                *env,
            ).panel,
            steps::acted(final(acts)@) == steps::acted(old(acts)@) + steps::primary(
                old(self)@,
                text_of(*clicked),
                *env,
            ).actions,
    {
        proof {
            reveal(steps::primary);
        }
        let ghost said = steps::acted(acts@);
        assert(said =~= said + Seq::empty());
        match self.capture {
            CaptureState::Recording { stop_armed } => {
                self.capture = CaptureState::Saving;
                self.saving_started_at = Some(env.now);
                if stop_armed {
                    act(acts, Action::SendStop);
                    assert(steps::acted(acts@) =~= said + seq![
                        steps::ActionModel::Plain(Action::SendStop),
                    ]);
                }
            },
            CaptureState::Saving => {},
            CaptureState::Idle => match self.mode {
                Mode::Screenshot => {
                    self.take_shot(clicked, env, acts);
                },
                Mode::Record => {
                    self.start_recording(clicked, env.now, acts);
                },
            },
        }
    }
}

impl Panel {
    /// A choice of the user.
    fn on_choice(&mut self, msg: Msg, env: &Env, acts: &mut Vec<Action>)
        requires
            old(self).wf(),
            steps::acceptable(old(self)@, msg),
            msg is SetMode || msg is SetSource || msg is SetSaveTarget || msg is SetRecordFormat || msg is SetRecordFps || msg is ToggleClipboard || msg is ToggleAudioMic || msg is ToggleAudioSystem,
        ensures
            final(self)@ == steps::stepped(old(self)@, msg, *env).panel,
            steps::acted(final(acts)@) == steps::acted(old(acts)@) + steps::stepped(
                old(self)@,
                msg,
                *env,
            ).actions,
    {
        let ghost said = steps::acted(acts@);
        assert(said =~= said + Seq::empty());
        match msg {
            Msg::SetMode(m) => self.set_mode(m, acts),
            Msg::SetSource(s) => self.set_source(s, acts),
            Msg::SetSaveTarget(i) => self.set_save_target(i, acts),
            Msg::SetRecordFormat(i) => self.set_record_format(i, acts),
            Msg::SetRecordFps(i) => self.set_record_fps(i, acts),
            Msg::ToggleClipboard => {
                self.clipboard = !self.clipboard;
            },
            Msg::ToggleAudioMic => {
                self.rec_audio_mic = !self.rec_audio_mic;
            },
            Msg::ToggleAudioSystem => {
                self.rec_audio_system = !self.rec_audio_system;
            },
            _ => {},
        }
    }

    /// What the user does with the pointer and the keys.
    fn on_input(&mut self, msg: Msg, env: &Env, acts: &mut Vec<Action>)
        requires
            old(self).wf(),
            steps::acceptable(old(self)@, msg),
            msg is Selection || msg is CancelSelection || msg is PointerOn || msg is EscPressed || msg is Tick || msg is PrimaryAction || msg is Quit,
        ensures
            final(self)@ == steps::stepped(old(self)@, msg, *env).panel,
            steps::acted(final(acts)@) == steps::acted(old(acts)@) + steps::stepped(
                old(self)@,
                msg,
                *env,
            ).actions,
    {
        let ghost said = steps::acted(acts@);
        assert(said =~= said + Seq::empty());
        match msg {
            Msg::Selection(e) => self.on_selection(e, acts),
            Msg::CancelSelection => {
                self.region = None;
                self.drag = None;
                act(acts, Action::Persist { setting: Setting::LastRegion(None) });
                assert(steps::acted(acts@) =~= said + steps::kept(Setting::LastRegion(None)));
            },
            Msg::PointerOn(id) => self.on_pointer(id),
            Msg::EscPressed => self.on_escape(env.now, acts),
            Msg::Tick => self.on_tick(env.now, acts),
            Msg::PrimaryAction(clicked) => self.on_primary_action(&clicked, env, acts),
            Msg::Quit => self.shutdown(acts),
            _ => {},
        }
    }

    /// What happens to the outputs.
    fn on_outputs(&mut self, msg: Msg, env: &Env, acts: &mut Vec<Action>)
        requires
            old(self).wf(),
            steps::acceptable(old(self)@, msg),
            msg is OutputCreated || msg is OutputUpdated || msg is OutputRemoved || msg is FrozenFrameReady || msg is FrozenAllocated || msg is WallpaperDecoded || msg is FocusOutputKnown,
        ensures
            final(self)@ == steps::stepped(old(self)@, msg, *env).panel,
            steps::acted(final(acts)@) == steps::acted(old(acts)@) + steps::stepped(
                old(self)@,
                msg,
                *env,
            ).actions,
    {
        let ghost said = steps::acted(acts@);
        assert(said =~= said + Seq::empty());
        match msg {
            Msg::OutputCreated(info) => self.on_output_created(info, acts),
            Msg::OutputUpdated(key, d) => self.on_output_updated(key, d, acts),
            Msg::OutputRemoved(key) => self.on_output_removed(key, acts),
            Msg::FrozenFrameReady(key, frame, sub) => self.on_frozen(key, frame, sub, acts),
            Msg::FrozenAllocated(key, pinned) => self.on_freeze_pinned(key, pinned),
            Msg::WallpaperDecoded(results) => self.on_wallpapers(&results),
            Msg::FocusOutputKnown(name) => {
                self.focus_output = Some(name);
                self.map_ready_toolbars(acts);
            },
            _ => {},
        }
    }

    /// What happens to the window picker.
    fn on_picker(&mut self, msg: Msg, env: &Env, acts: &mut Vec<Action>)
        requires
            old(self).wf(),
            steps::acceptable(old(self)@, msg),
            msg is WindowsForOutputReady || msg is PickerPainted || msg is ThumbAllocated || msg is CaptureToplevel || msg is StreamFailed,
        ensures
            final(self)@ == steps::stepped(old(self)@, msg, *env).panel,
            steps::acted(final(acts)@) == steps::acted(old(acts)@) + steps::stepped(
                old(self)@,
                msg,
                *env,
            ).actions,
    {
        let ghost said = steps::acted(acts@);
        assert(said =~= said + Seq::empty());
        match msg {
            Msg::WindowsForOutputReady(output, entries) => self.on_windows(output, entries, acts),
            Msg::PickerPainted(output) => add_text(&mut self.picker_painted, output),
            Msg::ThumbAllocated(output, index, pinned) => self.on_thumb_pinned(
                &output,
                index,
                pinned,
            ),
            Msg::CaptureToplevel(identifier, on) => self.on_capture_toplevel(
                identifier,
                on,
                env,
                acts,
            ),
            Msg::StreamFailed(identifier) => drop_text(&mut self.streaming_sessions, &identifier),
            _ => {},
        }
    }

    /// The end of a capture.
    fn on_result(&mut self, msg: Msg, env: &Env, acts: &mut Vec<Action>)
        requires
            old(self).wf(),
            steps::acceptable(old(self)@, msg),
            msg is RecordingFinished || msg is GifFinished || msg is ScreenshotFinished,
        ensures
            final(self)@ == steps::stepped(old(self)@, msg, *env).panel,
            steps::acted(final(acts)@) == steps::acted(old(acts)@) + steps::stepped(
                old(self)@,
                msg,
                *env,
            ).actions,
    {
        let ghost said = steps::acted(acts@);
        assert(said =~= said + Seq::empty());
        match msg {
            Msg::RecordingFinished(r) => self.on_finished(true, r, acts),
            Msg::GifFinished(r) => self.on_finished(true, r, acts),
            Msg::ScreenshotFinished(r) => self.on_finished(false, r, acts),
            _ => {},
        }
    }

    /// What the panel does on a message.
    pub fn update(&mut self, msg: Msg, env: &Env) -> (acts: Vec<Action>)
        requires
            old(self).wf(),
            steps::acceptable(old(self)@, msg),
        ensures
            final(self)@ == steps::stepped(old(self)@, msg, *env).panel,
            steps::acted(acts@) == steps::stepped(old(self)@, msg, *env).actions,
            final(self).wf(),
    {
        let mut acts: Vec<Action> = Vec::new();
        proof {
            laws::messages_keep_the_panel_sound(self@, msg, *env);
        }
        let ghost none = steps::acted(acts@);
        assert(none =~= Seq::empty());
        let ghost step = steps::stepped(self@, msg, *env);
        assert(none + step.actions =~= step.actions);
        match &msg {
            Msg::SelectRegion | Msg::ThumbDirty => {},
            Msg::SetMode(_)
            | Msg::SetSource(_)
            | Msg::SetSaveTarget(_)
            | Msg::SetRecordFormat(_)
            | Msg::SetRecordFps(_)
            | Msg::ToggleClipboard
            | Msg::ToggleAudioMic
            | Msg::ToggleAudioSystem => self.on_choice(msg, env, &mut acts),
            Msg::Selection(_)
            | Msg::CancelSelection
            | Msg::PointerOn(_)
            | Msg::EscPressed
            | Msg::Tick
            | Msg::PrimaryAction(_)
            | Msg::Quit => self.on_input(msg, env, &mut acts),
            Msg::OutputCreated(_)
            | Msg::OutputUpdated(_, _)
            | Msg::OutputRemoved(_)
            | Msg::FrozenFrameReady(_, _, _)
            | Msg::FrozenAllocated(_, _)
            | Msg::WallpaperDecoded(_)
            | Msg::FocusOutputKnown(_) => self.on_outputs(msg, env, &mut acts),
            Msg::WindowsForOutputReady(_, _)
            | Msg::PickerPainted(_)
            | Msg::ThumbAllocated(_, _, _)
            | Msg::CaptureToplevel(_, _)
            | Msg::StreamFailed(_) => self.on_picker(msg, env, &mut acts),
            Msg::RecordingFinished(_)
            | Msg::GifFinished(_)
            | Msg::ScreenshotFinished(_) => self.on_result(msg, env, &mut acts),
        }
        acts
    }
}

} // verus!
