//! What the panel's surfaces show, and how they are set up.
use crate::gui::app::Panel;
use crate::gui::config;
use crate::gui::config::{Mode, RecordFormat, Source};
use crate::gui::outputs;
use crate::gui::outputs::{BgSource, OutputInfo};
use crate::gui::steps;
use crate::gui::steps::{
    Action, ActionModel, CaptureState, Env, Msg, PanelModel, SurfaceKind, WindowEntry,
};
use crate::gui::widget::rectangle_selection;
use crate::gui::widget::rectangle_selection::{Rect, RectangleSelection};
use crate::text;
use vstd::prelude::*;

verus! {

/// How far the tool bar and the pill stay off the lower edge.
pub const TOOLBAR_BOTTOM_MARGIN: u16 = 32;

/// Which surfaces a surface lies above.
#[derive(Clone, Copy, Debug, PartialEq, Eq, Structural)]
pub enum Layer {
    Bottom,
    Top,
    Overlay,
}

/// When a surface has the keyboard.
#[derive(Clone, Copy, Debug, PartialEq, Eq, Structural)]
pub enum Keyboard {
    Never,
    OnDemand,
    Exclusive,
}

/// The edges that a surface is bound to.
#[derive(Clone, Copy, Debug, PartialEq, Eq, Structural)]
pub enum Anchors {
    Free,
    Bottom,
    All,
}

/// How a surface is set up.
pub struct SurfaceSettings {
    pub layer: Layer,
    pub keyboard: Keyboard,
    /// Whether the pointer goes through it.
    pub transparent: bool,
    pub anchors: Anchors,
    pub namespace: &'static str,
    /// Its size; as large as the output where there is none.
    pub size: Option<(u32, u32)>,
    pub bottom_margin: u16,
}

/// What a surface lies above.
pub open spec fn layer_of(kind: SurfaceKind) -> Layer {
    match kind {
        SurfaceKind::Dummy => Layer::Bottom,
        SurfaceKind::Recording => Layer::Top,
        _ => Layer::Overlay,
    }
}

/// When a surface has the keyboard.
pub open spec fn keyboard_of(kind: SurfaceKind) -> Keyboard {
    match kind {
        SurfaceKind::Toolbar | SurfaceKind::FocusCatcher => Keyboard::Exclusive,
        SurfaceKind::StopPill => Keyboard::OnDemand,
        _ => Keyboard::Never,
    }
}

/// Whether the pointer goes through a surface.
pub open spec fn lets_the_pointer_through(kind: SurfaceKind) -> bool {
    !(kind is Toolbar || kind is StopPill)
}

/// The edges that a surface is bound to.
pub open spec fn anchors_of(kind: SurfaceKind) -> Anchors {
    match kind {
        SurfaceKind::Toolbar | SurfaceKind::Recording => Anchors::All,
        SurfaceKind::StopPill => Anchors::Bottom,
        _ => Anchors::Free,
    }
}

/// A surface's size, where it has one of its own.
pub open spec fn size_of_surface(kind: SurfaceKind) -> Option<(u32, u32)> {
    match kind {
        SurfaceKind::Dummy => Some((6u32, 6u32)),
        SurfaceKind::StopPill => Some((220u32, 56u32)),
        SurfaceKind::FocusCatcher => Some((1u32, 1u32)),
        _ => None,
    }
}

/// How a surface is set up.
pub fn surface_settings(kind: SurfaceKind) -> (s: SurfaceSettings)
    ensures
        s.namespace@ == match kind {
            SurfaceKind::Dummy => "cosmic-capture-dummy"@,
            SurfaceKind::Toolbar => "cosmic-capture-toolbar"@,
            SurfaceKind::Recording => "cosmic-capture-recording"@,
            SurfaceKind::StopPill => "cosmic-capture-stop-pill"@,
            SurfaceKind::FocusCatcher => "cosmic-capture-focus"@,
        },
        s.layer == match kind {
            SurfaceKind::Dummy => Layer::Bottom,
            SurfaceKind::Recording => Layer::Top,
            _ => Layer::Overlay,
        },
        s.keyboard == match kind {
            SurfaceKind::Toolbar | SurfaceKind::FocusCatcher => Keyboard::Exclusive,
            SurfaceKind::StopPill => Keyboard::OnDemand,
            _ => Keyboard::Never,
        },
        s.transparent == !(kind is Toolbar || kind is StopPill),
        s.anchors == match kind {
            SurfaceKind::Toolbar | SurfaceKind::Recording => Anchors::All,
            SurfaceKind::StopPill => Anchors::Bottom,
            _ => Anchors::Free,
        },
        s.size == match kind {
            SurfaceKind::Dummy => Some((6u32, 6u32)),
            SurfaceKind::StopPill => Some((220u32, 56u32)),
            SurfaceKind::FocusCatcher => Some((1u32, 1u32)),
            _ => None,
        },
        s.bottom_margin == (if kind is StopPill {
            TOOLBAR_BOTTOM_MARGIN
        } else {
            0
        }),
        s.layer == layer_of(kind),
        s.keyboard == keyboard_of(kind),
        s.transparent == lets_the_pointer_through(kind),
        s.anchors == anchors_of(kind),
        s.size == size_of_surface(kind),
{
    match kind {
        SurfaceKind::Dummy => SurfaceSettings {
            layer: Layer::Bottom,
            keyboard: Keyboard::Never,
            transparent: true,
            anchors: Anchors::Free,
            namespace: "cosmic-capture-dummy",
            size: Some((6, 6)),
            bottom_margin: 0,
        },
        SurfaceKind::Toolbar => SurfaceSettings {
            layer: Layer::Overlay,
            keyboard: Keyboard::Exclusive,
            transparent: false,
            anchors: Anchors::All,
            namespace: "cosmic-capture-toolbar",
            size: None,
            bottom_margin: 0,
        },
        SurfaceKind::Recording => SurfaceSettings {
            layer: Layer::Top,
            keyboard: Keyboard::Never,
            transparent: true,
            anchors: Anchors::All,
            namespace: "cosmic-capture-recording",
            size: None,
            bottom_margin: 0,
        },
        SurfaceKind::StopPill => SurfaceSettings {
            layer: Layer::Overlay,
            keyboard: Keyboard::OnDemand,
            transparent: false,
            anchors: Anchors::Bottom,
            namespace: "cosmic-capture-stop-pill",
            size: Some((220, 56)),
            bottom_margin: TOOLBAR_BOTTOM_MARGIN,
        },
        SurfaceKind::FocusCatcher => SurfaceSettings {
            layer: Layer::Overlay,
            keyboard: Keyboard::Exclusive,
            transparent: true,
            anchors: Anchors::Free,
            namespace: "cosmic-capture-focus",
            size: Some((1, 1)),
            bottom_margin: 0,
        },
    }
}

/// What a surface shows.
pub enum WindowView {
    Nothing,
    StopPill,
    /// The tool bar of the output at this place.
    Toolbar(usize),
    /// A border round what is recorded.
    Border(RectangleSelection),
    /// A border round the whole output.
    FullBorder,
}

/// The place of the first output whose recording border has that number.
pub open spec fn find_border(infos: Seq<OutputInfo>, id: u64) -> Option<int>
    decreases infos.len(),
{
    if infos.len() == 0 {
        None
    } else {
        match find_border(infos.drop_last(), id) {
            Some(i) => Some(i),
            None => if infos.last().recording_id == Some(id) {
                Some(infos.len() - 1)
            } else {
                None
            },
        }
    }
}

/// A border round a rectangle, as it is drawn on one output.
pub open spec fn border_on(o: OutputInfo, r: Rect) -> WindowView {
    WindowView::Border(
        RectangleSelection {
            output_rect: o.rect(),
            selection: r,
            mode: rectangle_selection::Mode::Recording,
            drag: None,
        },
    )
}

/// A window's place on an output: its corner there, and its size.
#[derive(Clone, Copy, Debug, PartialEq, Eq, Structural)]
pub struct WindowPlace {
    pub x: i32,
    pub y: i32,
    pub w: i32,
    pub h: i32,
}

/// The window's edges in global coordinates are 32 bit ones.
pub open spec fn place_fits(o: OutputInfo, g: WindowPlace) -> bool {
    let (x, y) = (o.logical_pos.0 + g.x, o.logical_pos.1 + g.y);
    &&& i32::MIN <= x <= i32::MAX
    &&& i32::MIN <= y <= i32::MAX
    &&& i32::MIN <= x + g.w <= i32::MAX
    &&& i32::MIN <= y + g.h <= i32::MAX
}

/// A window in global coordinates.
pub open spec fn placed_window(o: OutputInfo, g: WindowPlace) -> Rect {
    Rect {
        left: (o.logical_pos.0 + g.x) as i32,
        top: (o.logical_pos.1 + g.y) as i32,
        right: (o.logical_pos.0 + g.x + g.w) as i32,
        bottom: (o.logical_pos.1 + g.y + g.h) as i32,
    }
}

/// The recorded output is this one.
pub open spec fn on_target(p: PanelModel, o: OutputInfo) -> bool {
    p.recording_target_output matches Some(name) && name@ == o.name@
}

/// What the recording border of an output shows: the region on each output that it
/// touches, the window's outline or the whole output on the recorded one.
pub open spec fn border_view(p: PanelModel, o: OutputInfo, window: Option<WindowPlace>) -> WindowView {
    match (p.source, p.region) {
        (Source::Region, Some(r)) => if outputs::overlaps(o, r.normalized()) {
            border_on(o, r)
        } else {
            WindowView::Nothing
        },
        (Source::Region, None) => WindowView::Nothing,
        (Source::Window, _) => if !on_target(p, o) {
            WindowView::Nothing
        } else {
            match (p.recording_window_id, window) {
                (Some(_), Some(g)) => border_on(o, placed_window(o, g)),
                _ => WindowView::FullBorder,
            }
        },
        (Source::Screen, _) => if on_target(p, o) {
            WindowView::FullBorder
        } else {
            WindowView::Nothing
        },
    }
}

/// What a surface shows.
pub open spec fn window_view(p: PanelModel, id: u64, window: Option<WindowPlace>) -> WindowView {
    if id == p.dummy_id || p.focus_catcher_id == Some(id) {
        WindowView::Nothing
    } else if p.stop_pill_id == Some(id) {
        WindowView::StopPill
    } else {
        match steps::find_toolbar(p.outputs, id) {
            Some(i) => WindowView::Toolbar(i as usize),
            None => match find_border(p.outputs, id) {
                Some(i) => border_view(p, p.outputs[i], window),
                None => WindowView::Nothing,
            },
        }
    }
}

fn is_surface(a: Option<u64>, id: u64) -> (b: bool)
    ensures
        b == (a == Some(id)),
{
    match a {
        Some(n) => n == id,
        None => false,
    }
}

proof fn lemma_border_prefix(infos: Seq<OutputInfo>, id: u64, n: int)
    requires
        0 <= n <= infos.len(),
        find_border(infos.take(n), id) is Some,
    ensures
        find_border(infos, id) == find_border(infos.take(n), id),
    decreases infos.len(),
{
    if n < infos.len() {
        assert(infos.drop_last().take(n) =~= infos.take(n));
        lemma_border_prefix(infos.drop_last(), id, n);
    } else {
        assert(infos.take(n) =~= infos);
    }
}

impl Panel {
    /// The place of the output whose recording border a surface is.
    pub fn border_output(&self, id: u64) -> (r: Option<usize>)
        ensures
            match r {
                Some(i) => i < self.outputs@.len() && find_border(self.outputs@, id) == Some(
                    i as int,
                ),
                None => find_border(self.outputs@, id) is None,
            },
    {
        let mut i: usize = 0;
        while i < self.outputs.len()
            invariant
                i <= self.outputs@.len(),
                find_border(self.outputs@.take(i as int), id) is None,
            decreases self.outputs@.len() - i,
        {
            assert(self.outputs@.take(i + 1).drop_last() =~= self.outputs@.take(i as int));
            if is_surface(self.outputs[i].recording_id, id) {
                proof {
                    lemma_border_prefix(self.outputs@, id, i + 1);
                }
                return Some(i);
            }
            i = i + 1;
        }
        assert(self.outputs@.take(i as int) =~= self.outputs@);
        None
    }

    fn is_target(&self, o: &OutputInfo) -> (b: bool)
        ensures
            b == on_target(self@, *o),
    {
        match &self.recording_target_output {
            Some(name) => *name == o.name,
            None => false,
        }
    }

    fn view_border(&self, o: &OutputInfo, window: Option<WindowPlace>) -> (v: WindowView)
        requires
            self.wf(),
            o.placed(),
            window matches Some(g) ==> place_fits(*o, g),
        ensures
            v == border_view(self@, *o, window),
    {
        match self.source {
            Source::Region => match self.region {
                Some(r) => if outputs::region_overlaps(o, &r.normalize()) {
                    WindowView::Border(
                        RectangleSelection::new(
                            outputs::output_rect_of(o),
                            r,
                            rectangle_selection::Mode::Recording,
                            None,
                        ),
                    )
                } else {
                    WindowView::Nothing
                },
                None => WindowView::Nothing,
            },
            Source::Window => {
                if !self.is_target(o) {
                    return WindowView::Nothing;
                }
                match (&self.recording_window_id, window) {
                    (Some(_), Some(g)) => {
                        let left: i32 = o.logical_pos.0 + g.x;
                        let top: i32 = o.logical_pos.1 + g.y;
                        let selection = Rect { left, top, right: left + g.w, bottom: top + g.h };
                        WindowView::Border(
                            RectangleSelection::new(
                                outputs::output_rect_of(o),
                                selection,
                                rectangle_selection::Mode::Recording,
                                None,
                            ),
                        )
                    },
                    _ => WindowView::FullBorder,
                }
            },
            Source::Screen => if self.is_target(o) {
                WindowView::FullBorder
            } else {
                WindowView::Nothing
            },
        }
    }

    /// What a surface shows. `window` is where the recorded window is on the
    /// surface's output, where the compositor says so.
    pub fn view_window(&self, id: u64, window: Option<WindowPlace>) -> (v: WindowView)
        requires
            self.wf(),
            window matches Some(g) ==> (find_border(self.outputs@, id) matches Some(i) ==> place_fits(
                self.outputs@[i],
                g,
            )),
        ensures
            v == window_view(self@, id, window),
    {
        if id == self.dummy_id || is_surface(self.focus_catcher_id, id) {
            return WindowView::Nothing;
        }
        if is_surface(self.stop_pill_id, id) {
            return WindowView::StopPill;
        }
        match self.toolbar_output(id) {
            Some(i) => WindowView::Toolbar(i),
            None => match self.border_output(id) {
                Some(i) => self.view_border(&self.outputs[i], window),
                None => WindowView::Nothing,
            },
        }
    }
}

/// What the tool bar's main button is.
#[derive(Clone, Copy, Debug, PartialEq, Eq, Structural)]
pub enum ActionButton {
    /// A button with a word on it.
    Capture,
    /// The same while the file is finished.
    Saving,
    /// A button with no word.
    Blank,
    /// A red dot in a ring, or a red square where a recording runs.
    Record { running: bool },
}

impl ActionButton {
    /// The word on the button.
    pub fn label(self) -> (s: &'static str)
        ensures
            s@ == match self {
                ActionButton::Capture => "Capture"@,
                ActionButton::Saving => "Saving…"@,
                _ => ""@,
            },
    {
        match self {
            ActionButton::Capture => "Capture",
            ActionButton::Saving => "Saving…",
            _ => "",
        }
    }
}

/// What lies under the tool bar, from the back to the front.
#[derive(Clone, Copy, Debug)]
pub enum BarLayer {
    /// The frozen output, shown by the compositor.
    FrozenSurface,
    /// The frozen output, shown as a texture.
    FrozenTexture,
    /// The decoded wallpaper.
    Wallpaper,
    /// The wallpaper's colour.
    WallpaperColor,
    /// The selection.
    Selection(RectangleSelection),
    /// The border of the output under the pointer.
    HoverBorder,
    /// The window picker.
    Picker,
}

/// A list that the user chooses from, and the chosen place.
#[derive(Clone, Copy, Debug, PartialEq, Eq, Structural)]
pub enum ChoiceList {
    SaveTargets(usize),
    RecordFormats(usize),
}

/// What a tool bar shows.
pub struct ToolbarView {
    /// Whether the buttons for mode, source and sound take clicks.
    pub choices_enabled: bool,
    pub mode: Mode,
    pub source: Source,
    pub action: ActionButton,
    pub action_enabled: bool,
    pub options: ChoiceList,
    /// The chosen place in the list of rates, where there is one.
    pub rates: Option<usize>,
    /// The microphone and the system's sound, where there is any.
    pub audio: Option<(bool, bool)>,
    /// How opaque the bar is, in hundredths.
    pub opacity: u8,
    pub layers: Vec<BarLayer>,
}

/// Nothing is recorded or saved.
pub open spec fn before_capture(p: PanelModel) -> bool {
    p.capture is Idle
}

/// The picker and its backdrop can be shown on an output at once: the picker has
/// had its time, and the wallpaper is decoded or is a colour.
pub open spec fn tiles_ready(p: PanelModel, o: OutputInfo) -> bool {
    p.source != Source::Window || (steps::listed_in(p.picker_painted, o.name@) && (
    !(o.bg_source matches Some(BgSource::Path(_))) || o.wallpaper_ready))
}

/// What is frozen lies at the back, where a region or an output is to be shot.
pub open spec fn frozen_layer(p: PanelModel, o: OutputInfo) -> Seq<BarLayer> {
    if before_capture(p) && p.mode == Mode::Screenshot && p.source != Source::Window {
        if o.frozen_sub {
            seq![BarLayer::FrozenSurface]
        } else if o.frozen_texture {
            seq![BarLayer::FrozenTexture]
        } else {
            Seq::empty()
        }
    } else {
        Seq::empty()
    }
}

/// The wallpaper lies behind the picker.
pub open spec fn backdrop_layer(p: PanelModel, o: OutputInfo) -> Seq<BarLayer> {
    if before_capture(p) && p.source == Source::Window && tiles_ready(p, o) {
        match o.bg_source {
            Some(BgSource::Path(_)) => if o.wallpaper_ready {
                seq![BarLayer::Wallpaper]
            } else {
                Seq::empty()
            },
            Some(BgSource::Color) => seq![BarLayer::WallpaperColor],
            None => Seq::empty(),
        }
    } else {
        Seq::empty()
    }
}

/// The region that is selected, or an empty one.
pub open spec fn shown_region(p: PanelModel) -> Rect {
    match p.region {
        Some(r) => r,
        None => Rect { left: 0, top: 0, right: 0, bottom: 0 },
    }
}

/// The selection, the border under the pointer, or the picker.
pub open spec fn source_layer(p: PanelModel, o: OutputInfo) -> Seq<BarLayer> {
    if !before_capture(p) {
        Seq::empty()
    } else {
        match p.source {
            Source::Region => if o.toolbar_id is Some {
                seq![
                    BarLayer::Selection(
                        RectangleSelection {
                            output_rect: o.rect(),
                            selection: shown_region(p),
                            mode: rectangle_selection::Mode::Selecting,
                            drag: p.drag,
                        },
                    ),
                ]
            } else {
                Seq::empty()
            },
            Source::Screen => if p.hovered_toolbar is Some && p.hovered_toolbar == o.toolbar_id {
                seq![BarLayer::HoverBorder]
            } else {
                Seq::empty()
            },
            Source::Window => if tiles_ready(p, o) {
                seq![BarLayer::Picker]
            } else {
                Seq::empty()
            },
        }
    }
}

/// The main button.
pub open spec fn action_button(p: PanelModel) -> ActionButton {
    match p.mode {
        Mode::Record => ActionButton::Record { running: p.capture is Recording },
        Mode::Screenshot => match p.capture {
            CaptureState::Idle => ActionButton::Capture,
            CaptureState::Recording { .. } => ActionButton::Blank,
            CaptureState::Saving => ActionButton::Saving,
        },
    }
}

/// Whether the main button takes clicks: it can start something, or stop a
/// recording that has not been told to stop.
pub open spec fn action_enabled(p: PanelModel) -> bool {
    match p.capture {
        CaptureState::Idle => p.can_start(),
        CaptureState::Recording { stop_armed } => stop_armed,
        CaptureState::Saving => false,
    }
}

impl ToolbarView {
    /// This is what the tool bar of an output shows.
    pub open spec fn shows(self, p: PanelModel, o: OutputInfo) -> bool {
        &&& self.choices_enabled == !p.locked()
        &&& self.mode == p.mode
        &&& self.source == p.source
        &&& self.action == action_button(p)
        &&& self.action_enabled == action_enabled(p)
        &&& match self.options {
            ChoiceList::SaveTargets(i) => p.mode == Mode::Screenshot && i
                < config::save_targets().len() && config::save_targets()[i as int]
                == p.save_target,
            ChoiceList::RecordFormats(i) => p.mode == Mode::Record && i
                < config::record_formats().len() && config::record_formats()[i as int]
                == p.record_format,
        }
        &&& match self.rates {
            Some(i) => p.mode == Mode::Record && i < config::record_rates().len()
                && config::record_rates()[i as int] == p.record_fps,
            None => p.mode == Mode::Screenshot,
        }
        &&& self.audio == (if p.mode == Mode::Record && p.record_format != RecordFormat::Gif {
            Some((p.rec_audio_mic, p.rec_audio_system))
        } else {
            None
        })
        &&& self.opacity == (if p.capture is Recording {
            30u8
        } else {
            100u8
        })
        &&& self.layers@ == frozen_layer(p, o) + backdrop_layer(p, o) + source_layer(p, o)
    }
}

impl Panel {
    fn has_painted(&self, o: &OutputInfo) -> (b: bool)
        ensures
            b == steps::listed_in(self.picker_painted@, o.name@),
    {
        let mut i: usize = 0;
        while i < self.picker_painted.len()
            invariant
                i <= self.picker_painted@.len(),
                forall|j: int| 0 <= j < i ==> (#[trigger] self.picker_painted@[j])@ != o.name@,
            decreases self.picker_painted@.len() - i,
        {
            if self.picker_painted[i] == o.name {
                assert(self.picker_painted@[i as int]@ == o.name@);
                return true;
            }
            i = i + 1;
        }
        false
    }

    fn tiles_ready(&self, o: &OutputInfo) -> (b: bool)
        ensures
            b == tiles_ready(self@, *o),
    {
        if self.source != Source::Window {
            return true;
        }
        let wallpaper_ready = match &o.bg_source {
            Some(BgSource::Path(_)) => o.wallpaper_ready,
            _ => true,
        };
        self.has_painted(o) && wallpaper_ready
    }

    fn bar_layers(&self, o: &OutputInfo) -> (v: Vec<BarLayer>)
        requires
            o.placed(),
        ensures
            v@ == frozen_layer(self@, *o) + backdrop_layer(self@, *o) + source_layer(self@, *o),
    {
        let mut layers: Vec<BarLayer> = Vec::new();
        if self.locked() {
            assert(layers@ =~= frozen_layer(self@, *o) + backdrop_layer(self@, *o) + source_layer(
                self@,
                *o,
            ));
            return layers;
        }
        match self.source {
            Source::Window => {
                if self.tiles_ready(o) {
                    match &o.bg_source {
                        Some(BgSource::Path(_)) => {
                            if o.wallpaper_ready {
                                layers.push(BarLayer::Wallpaper);
                            }
                        },
                        Some(BgSource::Color) => {
                            layers.push(BarLayer::WallpaperColor);
                        },
                        None => {},
                    }
                    layers.push(BarLayer::Picker);
                }
            },
            _ => {
                if self.mode == Mode::Screenshot {
                    if o.frozen_sub {
                        layers.push(BarLayer::FrozenSurface);
                    } else if o.frozen_texture {
                        layers.push(BarLayer::FrozenTexture);
                    }
                }
                if self.source == Source::Region {
                    if o.toolbar_id.is_some() {
                        let selection = match self.region {
                            Some(r) => r,
                            None => Rect { left: 0, top: 0, right: 0, bottom: 0 },
                        };
                        layers.push(
                            BarLayer::Selection(
                                RectangleSelection::new(
                                    outputs::output_rect_of(o),
                                    selection,
                                    rectangle_selection::Mode::Selecting,
                                    self.drag,
                                ),
                            ),
                        );
                    }
                } else if let Some(id) = self.hovered_toolbar {
                    if is_surface(o.toolbar_id, id) {
                        layers.push(BarLayer::HoverBorder);
                    }
                }
            },
        }
        assert(layers@ =~= frozen_layer(self@, *o) + backdrop_layer(self@, *o) + source_layer(
            self@,
            *o,
        ));
        layers
    }

    /// What the tool bar of the output at a place shows.
    pub fn view_toolbar(&self, at: usize) -> (v: ToolbarView)
        requires
            self.wf(),
            at < self.outputs@.len(),
        ensures
            v.shows(self@, self.outputs@[at as int]),
    {
        let recording = match self.capture {
            CaptureState::Recording { .. } => true,
            _ => false,
        };
        let action = match self.mode {
            Mode::Record => ActionButton::Record { running: recording },
            Mode::Screenshot => match self.capture {
                CaptureState::Idle => ActionButton::Capture,
                CaptureState::Recording { .. } => ActionButton::Blank,
                CaptureState::Saving => ActionButton::Saving,
            },
        };
        let action_enabled = match self.capture {
            CaptureState::Idle => self.can_start(),
            CaptureState::Recording { stop_armed } => stop_armed,
            CaptureState::Saving => false,
        };
        let options = match self.mode {
            Mode::Screenshot => ChoiceList::SaveTargets(self.save_target.place()),
            Mode::Record => ChoiceList::RecordFormats(self.record_format.place()),
        };
        let rates = match self.mode {
            Mode::Record => Some(self.record_fps.place()),
            Mode::Screenshot => None,
        };
        let audio = if self.mode == Mode::Record && self.record_format != RecordFormat::Gif {
            Some((self.rec_audio_mic, self.rec_audio_system))
        } else {
            None
        };
        ToolbarView {
            choices_enabled: !self.locked(),
            mode: self.mode,
            source: self.source,
            action,
            action_enabled,
            options,
            rates,
            audio,
            opacity: if recording {
                30
            } else {
                100
            },
            layers: self.bar_layers(&self.outputs[at]),
        }
    }
}

/// An animated image carries no sound, so there is nothing to choose for it.
pub proof fn images_have_no_sound(v: ToolbarView, p: PanelModel, o: OutputInfo)
    requires
        v.shows(p, o),
        p.record_format == RecordFormat::Gif,
    ensures
        v.audio is None,
{
}

/// A border marks the output under the pointer and no other.
pub proof fn one_border_at_a_time(p: PanelModel, a: OutputInfo, b: OutputInfo)
    requires
        p.source == Source::Screen,
        a.toolbar_id != b.toolbar_id,
        source_layer(p, a).contains(BarLayer::HoverBorder),
    ensures
        !source_layer(p, b).contains(BarLayer::HoverBorder),
{
}

/// The tile of a window in the picker.
pub struct Tile {
    pub identifier: String,
    /// Its share of the row.
    pub portion: u16,
    /// The slot that it is drawn from; its still image where there is none.
    pub slot: Option<u64>,
    /// The size of its still image.
    pub width: u32,
    pub height: u32,
}

/// What the picker of an output shows.
pub enum PickerView {
    /// There is no window on the output.
    NoWindows,
    /// Its windows are still being captured.
    Loading,
    Tiles(Vec<Tile>),
}

impl PickerView {
    /// The word in the place of tiles.
    pub fn label(&self) -> (s: &'static str)
        ensures
            s@ == match self {
                PickerView::NoWindows => "No windows on this display."@,
                PickerView::Loading => "Loading windows…"@,
                PickerView::Tiles(_) => ""@,
            },
    {
        match self {
            PickerView::NoWindows => "No windows on this display.",
            PickerView::Loading => "Loading windows…",
            PickerView::Tiles(_) => "",
        }
    }
}

/// The windows of an output.
pub open spec fn windows_on(windows: Seq<WindowEntry>, output: Seq<char>) -> Seq<WindowEntry> {
    windows.filter(|e: WindowEntry| e.output@ == output)
}

/// A window's width, at least one.
pub open spec fn breadth(e: WindowEntry) -> int {
    if e.width == 0 {
        1
    } else {
        e.width as int
    }
}

/// The widths of windows side by side.
pub open spec fn total_breadth(entries: Seq<WindowEntry>) -> int
    decreases entries.len(),
{
    if entries.len() == 0 {
        0
    } else {
        total_breadth(entries.drop_last()) + breadth(entries.last())
    }
}

/// A window's share of the row, in parts of the largest 16 bit number, at least
/// one.
pub open spec fn portion_of(e: WindowEntry, total: int) -> int {
    let part = breadth(e) * 65535 / total;
    if part < 1 {
        1
    } else {
        part
    }
}

/// This tile shows a window of a row.
pub open spec fn tile_shows(t: Tile, e: WindowEntry, total: int) -> bool {
    &&& t.identifier@ == e.identifier@
    &&& t.portion == portion_of(e, total)
    &&& t.slot == e.streaming
    &&& t.width == e.frozen.width
    &&& t.height == e.frozen.height
}

proof fn lemma_breadth(entries: Seq<WindowEntry>)
    ensures
        entries.len() <= total_breadth(entries) <= entries.len() * 0xffff_ffff,
    decreases entries.len(),
{
    if entries.len() > 0 {
        lemma_breadth(entries.drop_last());
    }
}

proof fn lemma_breadth_prefix(entries: Seq<WindowEntry>, i: int)
    requires
        0 <= i < entries.len(),
    ensures
        breadth(entries[i]) <= total_breadth(entries),
    decreases entries.len(),
{
    lemma_breadth(entries.drop_last());
    if i < entries.len() - 1 {
        lemma_breadth_prefix(entries.drop_last(), i);
    }
}

/// No share is larger than the row, and a wider window never gets a smaller one.
pub proof fn shares_follow_the_widths(entries: Seq<WindowEntry>, i: int, j: int)
    requires
        0 <= i < entries.len(),
        0 <= j < entries.len(),
        entries[i].width <= entries[j].width,
    ensures
        1 <= portion_of(entries[i], total_breadth(entries)) <= 65535,
        portion_of(entries[i], total_breadth(entries)) <= portion_of(
            entries[j],
            total_breadth(entries),
        ),
{
    let total = total_breadth(entries);
    lemma_breadth(entries);
    lemma_breadth_prefix(entries, i);
    vstd::arithmetic::div_mod::lemma_div_is_ordered(
        breadth(entries[i]) * 65535,
        breadth(entries[j]) * 65535,
        total,
    );
    lemma_portion(breadth(entries[i]), total);
}

proof fn lemma_portion(b: int, total: int)
    requires
        1 <= b <= total,
    ensures
        0 <= b * 65535 / total <= 65535,
{
    vstd::arithmetic::div_mod::lemma_div_is_ordered(b * 65535, total * 65535, total);
    vstd::arithmetic::div_mod::lemma_div_multiples_vanish(65535, total);
    vstd::arithmetic::div_mod::lemma_div_pos_is_pos(b * 65535, total);
}

impl Panel {
    fn has_listed(&self, o: &OutputInfo) -> (b: bool)
        ensures
            b == steps::listed_in(self.listed@, o.name@),
    {
        let mut i: usize = 0;
        while i < self.listed.len()
            invariant
                i <= self.listed@.len(),
                forall|j: int| 0 <= j < i ==> (#[trigger] self.listed@[j])@ != o.name@,
            decreases self.listed@.len() - i,
        {
            if self.listed[i] == o.name {
                assert(self.listed@[i as int]@ == o.name@);
                return true;
            }
            i = i + 1;
        }
        false
    }

    fn breadth_on(&self, o: &OutputInfo) -> (total: u128)
        ensures
            total == total_breadth(windows_on(self.windows@, o.name@)),
    {
        let ghost here = |e: WindowEntry| e.output@ == o.name@;
        let mut total: u128 = 0;
        let mut i: usize = 0;
        reveal(Seq::filter);
        while i < self.windows.len()
            invariant
                i <= self.windows@.len(),
                here == (|e: WindowEntry| e.output@ == o.name@),
                total == total_breadth(self.windows@.take(i as int).filter(here)),
                total <= i * 0xffff_ffff,
            decreases self.windows@.len() - i,
        {
            reveal(Seq::filter);
            let ghost before = self.windows@.take(i as int);
            assert(self.windows@.take(i + 1).drop_last() =~= before);
            let e = &self.windows[i];
            if e.output == o.name {
                assert(before.filter(here).push(*e).drop_last() =~= before.filter(here));
                total = total + if e.width == 0 {
                    1
                } else {
                    e.width as u128
                };
            }
            i = i + 1;
        }
        assert(self.windows@.take(i as int) =~= self.windows@);
        total
    }

    /// What the picker of the output at a place shows.
    pub fn view_window_picker(&self, at: usize) -> (v: PickerView)
        requires
            at < self.outputs@.len(),
        ensures
            ({
                let name = self.outputs@[at as int].name@;
                let here = windows_on(self.windows@, name);
                match v {
                    PickerView::NoWindows => here.len() == 0 && steps::listed_in(
                        self.listed@,
                        name,
                    ),
                    PickerView::Loading => here.len() == 0 && !steps::listed_in(
                        self.listed@,
                        name,
                    ),
                    PickerView::Tiles(t) => here.len() > 0 && t@.len() == here.len() && forall|
                        i: int,
                    |
                        0 <= i < here.len() ==> tile_shows(
                            #[trigger] t@[i],
                            here[i],
                            total_breadth(here),
                        ),
                }
            }),
    {
        let o = &self.outputs[at];
        let ghost here = |e: WindowEntry| e.output@ == o.name@;
        let ghost all = windows_on(self.windows@, o.name@);
        let total: u128 = self.breadth_on(o);
        let mut tiles: Vec<Tile> = Vec::new();
        let mut i: usize = 0;
        reveal(Seq::filter);
        while i < self.windows.len()
            invariant
                i <= self.windows@.len(),
                here == (|e: WindowEntry| e.output@ == o.name@),
                all == self.windows@.filter(here),
                total == total_breadth(all),
                tiles@.len() == self.windows@.take(i as int).filter(here).len(),
                self.windows@.take(i as int).filter(here).is_prefix_of(all),
                forall|j: int|
                    0 <= j < tiles@.len() ==> tile_shows(
                        #[trigger] tiles@[j],
                        all[j],
                        total as int,
                    ),
            decreases self.windows@.len() - i,
        {
            reveal(Seq::filter);
            let ghost before = self.windows@.take(i as int);
            assert(self.windows@.take(i + 1).drop_last() =~= before);
            proof {
                lemma_filter_prefix(self.windows@, here, i + 1);
            }
            let e = &self.windows[i];
            if e.output == o.name {
                let ghost n = before.filter(here).len() as int;
                assert(self.windows@.take(i + 1).filter(here) == before.filter(here).push(*e));
                assert(before.filter(here).push(*e)[n] == *e);
                assert(all[n] == *e);
                proof {
                    lemma_breadth_prefix(all, n);
                    lemma_portion(breadth(*e), total as int);
                }
                let b: u128 = if e.width == 0 {
                    1
                } else {
                    e.width as u128
                };
                let part: u128 = b * 65535 / total;
                let portion: u16 = if part < 1 {
                    1
                } else {
                    part as u16
                };
                tiles.push(
                    Tile {
                        identifier: e.identifier.clone(),
                        portion,
                        slot: e.streaming,
                        width: e.frozen.width,
                        height: e.frozen.height,
                    },
                );
            }
            i = i + 1;
        }
        assert(self.windows@.take(i as int) =~= self.windows@);
        if tiles.len() > 0 {
            PickerView::Tiles(tiles)
        } else if self.has_listed(o) {
            PickerView::NoWindows
        } else {
            PickerView::Loading
        }
    }
}

proof fn lemma_filter_prefix(s: Seq<WindowEntry>, f: spec_fn(WindowEntry) -> bool, n: int)
    requires
        0 <= n <= s.len(),
    ensures
        s.take(n).filter(f).is_prefix_of(s.filter(f)),
        forall|i: int|
            0 <= i < s.take(n).filter(f).len() ==> #[trigger] s.take(n).filter(f)[i] == s.filter(
                f,
            )[i],
    decreases s.len(),
{
    reveal(Seq::filter);
    if n < s.len() {
        assert(s.drop_last().take(n) =~= s.take(n));
        lemma_filter_prefix(s.drop_last(), f, n);
        let a = s.take(n).filter(f);
        let b = s.drop_last().filter(f);
        let c = s.filter(f);
        assert(a =~= b.subrange(0, a.len() as int));
        assert(a =~= c.subrange(0, a.len() as int));
        assert forall|i: int| 0 <= i < a.len() implies #[trigger] a[i] == c[i] by {
            assert(a[i] == c.subrange(0, a.len() as int)[i]);
        }
    } else {
        assert(s.take(n) =~= s);
        assert(s.filter(f) =~= s.filter(f).subrange(0, s.filter(f).len() as int));
    }
}

/// Whole seconds in nanoseconds.
pub const SECOND_NS: u64 = 1_000_000_000;

/// Seconds as minutes and seconds, with hours before them where there are any.
pub open spec fn elapsed_text(secs: nat) -> Seq<char> {
    let m = text::two_digits((secs % 3600) / 60);
    let s = text::two_digits(secs % 60);
    if secs >= 3600 {
        text::two_digits(secs / 3600) + ":"@ + m + ":"@ + s
    } else {
        m + ":"@ + s
    }
}

/// Seconds as minutes and seconds, with hours before them where there are any.
pub fn format_elapsed(secs: u64) -> (r: String)
    ensures
        r@ == elapsed_text(secs as nat),
{
    let h: u64 = secs / 3600;
    let m: u64 = (secs % 3600) / 60;
    let s: u64 = secs % 60;
    let mut r = text::owned("");
    proof {
        reveal_strlit("");
    }
    if h > 0 {
        text::push_two_digits(&mut r, h);
        r.append(":");
    }
    text::push_two_digits(&mut r, m);
    r.append(":");
    text::push_two_digits(&mut r, s);
    assert(r@ =~= elapsed_text(secs as nat));
    r
}

/// What the pill shows.
pub struct PillView {
    pub stop_enabled: bool,
    /// Whether a recording runs.
    pub running: bool,
    pub elapsed: String,
}

impl Panel {
    /// What the pill shows.
    pub fn view_stop_pill(&self, now: u64) -> (v: PillView)
        ensures
            v.stop_enabled == (self@.capture is Recording),
            v.running == (self@.capture is Recording),
            v.elapsed@ == elapsed_text(
                match self.recording_started_at {
                    Some(t) => if now >= t {
                        ((now - t) / SECOND_NS as int) as nat
                    } else {
                        0
                    },
                    None => 0,
                },
            ),
    {
        let recording = match self.capture {
            CaptureState::Recording { .. } => true,
            _ => false,
        };
        let secs: u64 = match self.recording_started_at {
            Some(t) => if now >= t {
                (now - t) / SECOND_NS
            } else {
                0
            },
            None => 0,
        };
        PillView { stop_enabled: recording, running: recording, elapsed: format_elapsed(secs) }
    }

    /// Whether a second's tick is wanted.
    pub fn wants_ticks(&self) -> (b: bool)
        ensures
            b == self@.locked(),
    {
        self.locked()
    }
}

/// A key.
pub enum Key {
    Escape,
    /// A key that writes this.
    Character(String),
    Other,
}

/// What a key tells the panel.
pub open spec fn told_by_key(key: Key) -> Option<Msg> {
    match key {
        Key::Escape => Some(Msg::EscPressed),
        Key::Character(s) => if s@ == " "@ {
            Some(Msg::PrimaryAction(None))
        } else {
            None
        },
        Key::Other => None,
    }
}

/// What a key tells the panel: escape, or the main button for the space bar.
pub fn key_message(key: &Key) -> (m: Option<Msg>)
    ensures
        m == match key {
            Key::Escape => Some(Msg::EscPressed),
            Key::Character(s) => if s@ == " "@ {
                Some(Msg::PrimaryAction(None))
            } else {
                None
            },
            Key::Other => None,
        },
        m == told_by_key(*key),
{
    match key {
        Key::Escape => Some(Msg::EscPressed),
        Key::Character(s) => if text::same(s.as_str(), " ") {
            Some(Msg::PrimaryAction(None))
        } else {
            None
        },
        Key::Other => None,
    }
}

/// The time that has gone by reads back: its last two digits are seconds, the two before
/// them minutes, and what is left are hours; neither minutes nor seconds reach sixty.
pub proof fn elapsed_times_read_back(secs: nat)
    ensures
        ({
            let t = elapsed_text(secs);
            let n = t.len() as int;
            let s = text::decimal_value(t.subrange(n - 2, n));
            let m = text::decimal_value(t.subrange(n - 5, n - 3));
            &&& n >= 5
            &&& t[n - 3] == ':'
            &&& s < 60
            &&& m < 60
            &&& n == 5 ==> secs == 60 * m + s
            &&& n > 5 ==> n >= 8 && t[n - 6] == ':' && secs == 3600 * text::decimal_value(
                t.subrange(0, n - 6),
            ) + 60 * m + s
            &&& n == 5 <==> secs < 3600
        }),
{
    let m = (secs % 3600) / 60;
    let s = secs % 60;
    let h = secs / 3600;
    text::filled_numbers_read_back(m);
    text::filled_numbers_read_back(s);
    text::filled_numbers_read_back(h);
    reveal_strlit(":");
    let t = elapsed_text(secs);
    let n = t.len() as int;
    let (hd, md, sd) = (text::two_digits(h), text::two_digits(m), text::two_digits(s));
    assert(sd.len() == 2 && md.len() == 2);
    assert(t.subrange(n - 2, n) =~= sd);
    assert(t.subrange(n - 5, n - 3) =~= md);
    if secs >= 3600 {
        assert(t.subrange(0, n - 6) =~= hd);
    }
}

proof fn lemma_find_border(infos: Seq<OutputInfo>, id: u64)
    ensures
        match find_border(infos, id) {
            Some(i) => 0 <= i < infos.len() && infos[i].recording_id == Some(id) && forall|j: int|
                0 <= j < i ==> (#[trigger] infos[j]).recording_id != Some(id),
            None => forall|j: int|
                0 <= j < infos.len() ==> (#[trigger] infos[j]).recording_id != Some(id),
        },
    decreases infos.len(),
{
    if infos.len() > 0 {
        let init = infos.drop_last();
        lemma_find_border(init, id);
        assert forall|j: int| 0 <= j < init.len() implies #[trigger] infos[j] == init[j] by {}
    }
}

proof fn lemma_find_bar(infos: Seq<OutputInfo>, id: u64)
    ensures
        match steps::find_toolbar(infos, id) {
            Some(i) => 0 <= i < infos.len() && infos[i].toolbar_id == Some(id) && forall|j: int|
                0 <= j < i ==> (#[trigger] infos[j]).toolbar_id != Some(id),
            None => forall|j: int|
                0 <= j < infos.len() ==> (#[trigger] infos[j]).toolbar_id != Some(id),
        },
    decreases infos.len(),
{
    if infos.len() > 0 {
        let init = infos.drop_last();
        lemma_find_bar(init, id);
        assert forall|j: int| 0 <= j < init.len() implies #[trigger] infos[j] == init[j] by {}
    }
}

/// No surface but this one has its number.
pub open spec fn alone(p: PanelModel, id: u64) -> bool {
    &&& id != p.dummy_id
    &&& p.focus_catcher_id != Some(id)
    &&& p.stop_pill_id != Some(id)
}

/// The surface that is an output's tool bar shows the tool bar of that output, and the
/// pill's shows the pill.
pub proof fn each_surface_shows_its_own(
    p: PanelModel,
    i: int,
    id: u64,
    window: Option<WindowPlace>,
)
    requires
        0 <= i < p.outputs.len() <= usize::MAX,
    ensures
        alone(p, id) && p.outputs[i].toolbar_id == Some(id) && (forall|j: int|
            0 <= j < i ==> (#[trigger] p.outputs[j]).toolbar_id != Some(id)) ==> (window_view(
            p,
            id,
            window,
        ) matches WindowView::Toolbar(k) && k == i),
        p.stop_pill_id == Some(id) && id != p.dummy_id && p.focus_catcher_id != Some(id)
            ==> window_view(p, id, window) is StopPill,
        id == p.dummy_id || p.focus_catcher_id == Some(id) ==> window_view(p, id, window)
            is Nothing,
{
    lemma_find_bar(p.outputs, id);
    if p.outputs[i].toolbar_id == Some(id) {
        let f = steps::find_toolbar(p.outputs, id);
        assert(f is Some);
        if f->0 < i {
            assert(p.outputs[f->0].toolbar_id == Some(id));
        }
    }
}

/// The border of an output that is recorded lies where the recording is: round the
/// region where it touches the output, round the window at its place on the output, or
/// round the whole output; and nowhere else.
pub proof fn the_border_is_where_the_recording_is(
    p: PanelModel,
    i: int,
    id: u64,
    window: Option<WindowPlace>,
)
    requires
        alone(p, id),
        0 <= i < p.outputs.len(),
        p.outputs[i].recording_id == Some(id),
        forall|j: int| 0 <= j < i ==> (#[trigger] p.outputs[j]).recording_id != Some(id),
        forall|j: int| 0 <= j < p.outputs.len() ==> (#[trigger] p.outputs[j]).toolbar_id != Some(id),
        window matches Some(g) ==> place_fits(p.outputs[i], g),
    ensures
        ({
            let o = p.outputs[i];
            let v = window_view(p, id, window);
            let target = p.recording_target_output matches Some(n) && n@ == o.name@;
            &&& p.source == Source::Region && p.region is None ==> v is Nothing
            &&& p.source == Source::Region ==> (p.region matches Some(r) ==> {
                if outputs::overlaps(o, r.normalized()) {
                    v matches WindowView::Border(b) && b.selection == r && b.output_rect == o.rect()
                        && b.mode == rectangle_selection::Mode::Recording && b.drag is None
                } else {
                    v is Nothing
                }
            })
            &&& p.source != Source::Region && !target ==> v is Nothing
            &&& p.source == Source::Screen && target ==> v is FullBorder
            &&& p.source == Source::Window && target ==> {
                if p.recording_window_id is Some && window is Some {
                    v matches WindowView::Border(b) && {
                        let g = window->0;
                        &&& b.output_rect == o.rect()
                        &&& b.mode == rectangle_selection::Mode::Recording
                        &&& b.drag is None
                        &&& b.selection.left - o.logical_pos.0 == g.x
                        &&& b.selection.top - o.logical_pos.1 == g.y
                        &&& b.selection.right - b.selection.left == g.w
                        &&& b.selection.bottom - b.selection.top == g.h
                    }
                } else {
                    v is FullBorder
                }
            }
        }),
{
    lemma_find_bar(p.outputs, id);
    lemma_find_border(p.outputs, id);
    let f = find_border(p.outputs, id);
    assert(f is Some);
    if f->0 < i {
        assert(p.outputs[f->0].recording_id == Some(id));
    }
    let t = steps::find_toolbar(p.outputs, id);
    if t is Some {
        assert(p.outputs[t->0].toolbar_id == Some(id));
    }
}

/// A button that takes no clicks would do nothing while nothing runs, and one that does
/// stops what runs.
pub proof fn the_button_does_what_it_shows(p: PanelModel, clicked: Option<String>, env: Env)
    ensures
        ({
            let s = steps::stepped(p, Msg::PrimaryAction(clicked), env);
            &&& p.capture is Idle && p.mode == Mode::Record && !action_enabled(p) ==> s.panel == p
                && s.actions.len() == 0
            &&& p.source == Source::Window && p.capture is Idle ==> !action_enabled(p)
            &&& p.capture is Saving ==> !action_enabled(p) && s.panel == p && s.actions.len() == 0
            &&& p.capture is Recording && action_enabled(p) ==> s.actions == seq![
                ActionModel::Plain(Action::SendStop),
            ] && s.panel.capture is Saving
            &&& p.capture is Recording && !action_enabled(p) ==> s.actions.len() == 0
            &&& p.capture is Idle && p.mode == Mode::Screenshot && p.source != Source::Window
                ==> action_enabled(p)
            &&& action_button(p) == (ActionButton::Record { running: true }) ==> p.capture
                is Recording
            &&& action_button(p) == ActionButton::Capture ==> p.mode == Mode::Screenshot
                && p.capture is Idle
            &&& action_button(p) == ActionButton::Saving ==> p.capture is Saving
        }),
{
    reveal(steps::primary);
    reveal(steps::shot_taken);
    reveal(steps::recording_started);
}

/// A tool bar shows under it what is chosen, and nothing while something is recorded or
/// saved: the frozen output for a screenshot of a region or an output, the selection for a
/// region, the windows to choose from, and their wallpaper behind them.
pub proof fn bars_show_what_is_chosen(v: ToolbarView, p: PanelModel, o: OutputInfo)
    requires
        v.shows(p, o),
    ensures
        ({
            let l = v.layers@;
            let frozen = exists|i: int|
                0 <= i < l.len() && (#[trigger] l[i] is FrozenSurface || l[i] is FrozenTexture);
            let picked = exists|i: int| 0 <= i < l.len() && #[trigger] l[i] is Picker;
            &&& !(p.capture is Idle) ==> l.len() == 0
            &&& frozen <==> p.capture is Idle && p.mode == Mode::Screenshot && p.source
                != Source::Window && (o.frozen_sub || o.frozen_texture)
            &&& frozen ==> l[0] is FrozenSurface || l[0] is FrozenTexture
            &&& p.capture is Idle && p.source == Source::Region && o.toolbar_id is Some ==> l.len()
                > 0 && (l.last() matches BarLayer::Selection(b) && {
                &&& b.output_rect == o.rect()
                &&& b.mode == rectangle_selection::Mode::Selecting
                &&& b.drag == p.drag
                &&& p.region matches Some(r) ==> b.selection == r
                &&& p.region is None ==> b.selection.left == b.selection.right && b.selection.top
                    == b.selection.bottom
            })
            &&& picked <==> p.capture is Idle && p.source == Source::Window && steps::listed_in(
                p.picker_painted,
                o.name@,
            ) && (!(o.bg_source matches Some(BgSource::Path(_))) || o.wallpaper_ready)
            &&& picked ==> l.last() is Picker
            &&& v.choices_enabled <==> p.capture is Idle
            &&& v.opacity < 100 <==> p.capture is Recording
        }),
{
    let l = v.layers@;
    let (f, b, c) = (frozen_layer(p, o), backdrop_layer(p, o), source_layer(p, o));
    assert(l == f + b + c);
    if f.len() > 0 {
        assert(l[0] == f[0]);
        assert(l[0] is FrozenSurface || l[0] is FrozenTexture);
    }
    if c.len() > 0 {
        assert(l.last() == c[0]);
        assert(l[l.len() - 1] == c[0]);
    }
}

/// A window's tile has the window's share of the row, rounded down, and at least one
/// part.
pub proof fn shares_are_in_proportion(entries: Seq<WindowEntry>, i: int)
    requires
        0 <= i < entries.len(),
        entries[i].width > 0,
    ensures
        ({
            let total = total_breadth(entries);
            let part = portion_of(entries[i], total);
            &&& part >= 1
            &&& part == 1 || part * total <= entries[i].width * 65535
            &&& entries[i].width * 65535 < (part + 1) * total
        }),
{
    let total = total_breadth(entries);
    lemma_breadth(entries);
    let x = entries[i].width * 65535;
    let q = x / total;
    vstd::arithmetic::div_mod::lemma_fundamental_div_mod(x, total);
    vstd::arithmetic::div_mod::lemma_mod_bound(x, total);
    let part = portion_of(entries[i], total);
    assert(q * total <= x < (q + 1) * total) by (nonlinear_arith)
        requires
            x == total * q + x % total,
            0 <= x % total < total,
    ;
    assert((q + 1) * total <= (part + 1) * total) by (nonlinear_arith)
        requires
            q <= part,
            total >= 0,
    ;
}

/// The picker of an output shows the windows on it, every one, and no others.
pub proof fn pickers_show_their_outputs_windows(windows: Seq<WindowEntry>, output: Seq<char>, i: int)
    requires
        0 <= i < windows.len(),
    ensures
        windows_on(windows, output).contains(windows[i]) <==> windows[i].output@ == output,
        forall|j: int|
            0 <= j < windows_on(windows, output).len() ==> (#[trigger] windows_on(
                windows,
                output,
            )[j]).output@ == output,
{
    broadcast use vstd::seq_lib::group_filter_ensures;

    let here = |e: WindowEntry| e.output@ == output;
    if windows[i].output@ == output {
        windows.lemma_filter_contains(here, i);
    }
}

/// The widths of windows side by side add up.
pub proof fn breadths_add_up(entries: Seq<WindowEntry>, e: WindowEntry)
    requires
        e.width > 0,
    ensures
        total_breadth(entries.push(e)) == total_breadth(entries) + e.width,
        total_breadth(Seq::<WindowEntry>::empty()) == 0,
{
    assert(entries.push(e).drop_last() =~= entries);
}

/// The surfaces that take clicks lie above all others, and those that do not let the
/// desktop below them be used; escape reaches the panel whether its tool bars are open or
/// the surface that holds the focus is.
pub proof fn surfaces_keep_out_of_the_way(kind: SurfaceKind)
    ensures
        !lets_the_pointer_through(kind) ==> layer_of(kind) == Layer::Overlay && keyboard_of(kind)
            != Keyboard::Never,
        lets_the_pointer_through(kind) <==> kind != SurfaceKind::Toolbar && kind
            != SurfaceKind::StopPill,
        keyboard_of(kind) == Keyboard::Exclusive <==> kind == SurfaceKind::Toolbar || kind
            == SurfaceKind::FocusCatcher,
        kind == SurfaceKind::Recording || kind == SurfaceKind::Dummy ==> keyboard_of(kind)
            == Keyboard::Never && layer_of(kind) != Layer::Overlay,
        layer_of(SurfaceKind::Recording) != layer_of(SurfaceKind::Dummy),
        anchors_of(kind) == Anchors::All <==> size_of_surface(kind) is None,
        size_of_surface(kind) matches Some((w, h)) ==> w > 0 && h > 0,
        kind == SurfaceKind::StopPill <==> anchors_of(kind) == Anchors::Bottom,
        kind == SurfaceKind::Toolbar || kind == SurfaceKind::Recording ==> size_of_surface(kind)
            is None,
{
}

/// Escape ends what the panel does, the space bar is the main button, and no other key tells
/// the panel anything.
pub proof fn keys_tell_the_panel_what_they_mean(key: Key, p: PanelModel, env: Env)
    ensures
        key is Escape ==> told_by_key(key) == Some(Msg::EscPressed),
        key is Escape && p.capture is Idle ==> steps::stepped(p, told_by_key(key)->0, env)
            == steps::stepped(p, Msg::Quit, env),
        key is Character && key->0@ == " "@ ==> told_by_key(key) == Some(Msg::PrimaryAction(None)),
        key is Character && key->0@ != " "@ ==> told_by_key(key) is None,
        key is Other ==> told_by_key(key) is None,
{
    reveal(steps::escaped);
}

} // verus!
