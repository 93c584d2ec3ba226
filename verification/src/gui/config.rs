//! What the user has chosen, and what of it is kept for the next launch.
use crate::gui::widget::rectangle_selection::Rect;
use crate::text;
use vstd::prelude::*;

verus! {

/// The name that the settings are kept under.
pub const APP_ID: &'static str = "com.system76.CosmicCapture";

/// What is made.
#[derive(Clone, Copy, Debug, PartialEq, Eq, Structural)]
pub enum Mode {
    Screenshot,
    Record,
}

impl Default for Mode {
    fn default() -> (m: Self)
        ensures
            m == Mode::Screenshot,
    {
        Mode::Screenshot
    }
}

/// Of what it is made.
#[derive(Clone, Copy, Debug, PartialEq, Eq, Structural)]
pub enum Source {
    Region,
    Window,
    Screen,
}

impl Default for Source {
    fn default() -> (s: Self)
        ensures
            s == Source::Region,
    {
        Source::Region
    }
}

/// Where a screenshot goes.
#[derive(Clone, Copy, Debug, PartialEq, Eq, Structural)]
pub enum SaveTarget {
    Clipboard,
    Pictures,
    Documents,
}

impl Default for SaveTarget {
    fn default() -> (t: Self)
        ensures
            t == SaveTarget::Clipboard,
    {
        SaveTarget::Clipboard
    }
}

/// The targets in the order of their list: the clipboard first, as most
/// screenshots are pasted somewhere at once.
pub open spec fn save_targets() -> Seq<SaveTarget> {
    seq![SaveTarget::Clipboard, SaveTarget::Pictures, SaveTarget::Documents]
}

impl SaveTarget {
    /// What the list calls the target.
    pub open spec fn text(self) -> Seq<char> {
        match self {
            SaveTarget::Clipboard => "Save to Clipboard"@,
            SaveTarget::Pictures => "Save to Pictures"@,
            SaveTarget::Documents => "Save to Documents"@,
        }
    }

    /// What the list calls the target.
    pub fn label(self) -> (s: String)
        ensures
            s@ == self.text(),
    {
        match self {
            SaveTarget::Clipboard => text::owned("Save to Clipboard"),
            SaveTarget::Pictures => text::owned("Save to Pictures"),
            SaveTarget::Documents => text::owned("Save to Documents"),
        }
    }

    /// The target at a place of the list.
    pub fn at(i: usize) -> (t: Option<SaveTarget>)
        ensures
            t == (if i < save_targets().len() {
                Some(save_targets()[i as int])
            } else {
                None
            }),
    {
        match i {
            0 => Some(SaveTarget::Clipboard),
            1 => Some(SaveTarget::Pictures),
            2 => Some(SaveTarget::Documents),
            _ => None,
        }
    }

    /// The target's place in the list.
    pub fn place(self) -> (i: usize)
        ensures
            i < save_targets().len(),
            save_targets()[i as int] == self,
    {
        match self {
            SaveTarget::Clipboard => 0,
            SaveTarget::Pictures => 1,
            SaveTarget::Documents => 2,
        }
    }
}

/// What the list of targets says.
pub fn save_target_labels() -> (v: Vec<String>)
    ensures
        v@.len() == save_targets().len(),
        forall|i: int| 0 <= i < v@.len() ==> (#[trigger] v@[i])@ == save_targets()[i].text(),
{
    vec![SaveTarget::Clipboard.label(), SaveTarget::Pictures.label(), SaveTarget::Documents.label()]
}

/// The file that a recording makes.
#[derive(Clone, Copy, Debug, PartialEq, Eq, Structural)]
pub enum RecordFormat {
    Mp4,
    Mkv,
    WebM,
    Gif,
}

impl Default for RecordFormat {
    fn default() -> (f: Self)
        ensures
            f == RecordFormat::Mp4,
    {
        RecordFormat::Mp4
    }
}

/// The formats in the order of their list.
pub open spec fn record_formats() -> Seq<RecordFormat> {
    seq![RecordFormat::Mp4, RecordFormat::Mkv, RecordFormat::WebM, RecordFormat::Gif]
}

impl RecordFormat {
    /// What the list calls the format.
    pub open spec fn text(self) -> Seq<char> {
        match self {
            RecordFormat::Mp4 => "MP4"@,
            RecordFormat::Mkv => "MKV"@,
            RecordFormat::WebM => "WebM"@,
            RecordFormat::Gif => "GIF"@,
        }
    }

    /// What the list calls the format.
    pub fn label(self) -> (s: String)
        ensures
            s@ == self.text(),
    {
        match self {
            RecordFormat::Mp4 => text::owned("MP4"),
            RecordFormat::Mkv => text::owned("MKV"),
            RecordFormat::WebM => text::owned("WebM"),
            RecordFormat::Gif => text::owned("GIF"),
        }
    }

    /// The format at a place of the list.
    pub fn at(i: usize) -> (f: Option<RecordFormat>)
        ensures
            f == (if i < record_formats().len() {
                Some(record_formats()[i as int])
            } else {
                None
            }),
    {
        match i {
            0 => Some(RecordFormat::Mp4),
            1 => Some(RecordFormat::Mkv),
            2 => Some(RecordFormat::WebM),
            3 => Some(RecordFormat::Gif),
            _ => None,
        }
    }

    /// The format's place in the list.
    pub fn place(self) -> (i: usize)
        ensures
            i < record_formats().len(),
            record_formats()[i as int] == self,
    {
        match self {
            RecordFormat::Mp4 => 0,
            RecordFormat::Mkv => 1,
            RecordFormat::WebM => 2,
            RecordFormat::Gif => 3,
        }
    }

    /// The kind of contents that the clipboard offers, so that what a recording
    /// is pasted into gets the recording itself.
    pub open spec fn media_type(self) -> Seq<char> {
        match self {
            RecordFormat::Mp4 => "video/mp4"@,
            RecordFormat::Mkv => "video/x-matroska"@,
            RecordFormat::WebM => "video/webm"@,
            RecordFormat::Gif => "image/gif"@,
        }
    }

    /// The kind of contents that the clipboard offers, so that what a recording
    /// is pasted into gets the recording itself.
    pub fn mime(self) -> (s: &'static str)
        ensures
            s@ == self.media_type(),
    {
        match self {
            RecordFormat::Mp4 => "video/mp4",
            RecordFormat::Mkv => "video/x-matroska",
            RecordFormat::WebM => "video/webm",
            RecordFormat::Gif => "image/gif",
        }
    }
}

/// What the list of formats says.
pub fn record_format_labels() -> (v: Vec<String>)
    ensures
        v@.len() == record_formats().len(),
        forall|i: int| 0 <= i < v@.len() ==> (#[trigger] v@[i])@ == record_formats()[i].text(),
{
    vec![
        RecordFormat::Mp4.label(),
        RecordFormat::Mkv.label(),
        RecordFormat::WebM.label(),
        RecordFormat::Gif.label(),
    ]
}

/// How often a frame is recorded.
#[derive(Clone, Copy, Debug, PartialEq, Eq, Structural)]
pub enum RecordFps {
    Fps24,
    Fps30,
    Fps60,
}

impl Default for RecordFps {
    fn default() -> (f: Self)
        ensures
            f == RecordFps::Fps30,
    {
        RecordFps::Fps30
    }
}

/// The rates in the order of their list.
pub open spec fn record_rates() -> Seq<RecordFps> {
    seq![RecordFps::Fps24, RecordFps::Fps30, RecordFps::Fps60]
}

impl RecordFps {
    /// Frames in a second.
    pub open spec fn rate(self) -> u32 {
        match self {
            RecordFps::Fps24 => 24,
            RecordFps::Fps30 => 30,
            RecordFps::Fps60 => 60,
        }
    }

    /// Frames in a second.
    pub fn as_u32(self) -> (n: u32)
        ensures
            n == self.rate(),
    {
        match self {
            RecordFps::Fps24 => 24,
            RecordFps::Fps30 => 30,
            RecordFps::Fps60 => 60,
        }
    }

    /// What the list calls the rate.
    pub open spec fn text(self) -> Seq<char> {
        match self {
            RecordFps::Fps24 => "24 FPS"@,
            RecordFps::Fps30 => "30 FPS"@,
            RecordFps::Fps60 => "60 FPS"@,
        }
    }

    /// What the list calls the rate.
    pub fn label(self) -> (s: String)
        ensures
            s@ == self.text(),
    {
        match self {
            RecordFps::Fps24 => text::owned("24 FPS"),
            RecordFps::Fps30 => text::owned("30 FPS"),
            RecordFps::Fps60 => text::owned("60 FPS"),
        }
    }

    /// The rate at a place of the list.
    pub fn at(i: usize) -> (f: Option<RecordFps>)
        ensures
            f == (if i < record_rates().len() {
                Some(record_rates()[i as int])
            } else {
                None
            }),
    {
        match i {
            0 => Some(RecordFps::Fps24),
            1 => Some(RecordFps::Fps30),
            2 => Some(RecordFps::Fps60),
            _ => None,
        }
    }

    /// The rate's place in the list.
    pub fn place(self) -> (i: usize)
        ensures
            i < record_rates().len(),
            record_rates()[i as int] == self,
    {
        match self {
            RecordFps::Fps24 => 0,
            RecordFps::Fps30 => 1,
            RecordFps::Fps60 => 2,
        }
    }
}

/// What the list of rates says.
pub fn record_fps_labels() -> (v: Vec<String>)
    ensures
        v@.len() == record_rates().len(),
        forall|i: int| 0 <= i < v@.len() ==> (#[trigger] v@[i])@ == record_rates()[i].text(),
{
    vec![RecordFps::Fps24.label(), RecordFps::Fps30.label(), RecordFps::Fps60.label()]
}

/// What is kept for the next launch.
#[derive(Clone, Copy, Debug)]
pub struct UserSettings {
    pub mode: Mode,
    pub source: Source,
    pub save_target: SaveTarget,
    pub record_format: RecordFormat,
    pub record_fps: RecordFps,
    /// The region that was dragged last.
    pub last_region: Option<Rect>,
}

impl Default for UserSettings {
    fn default() -> (s: Self)
        ensures
            s == (UserSettings {
                mode: Mode::Screenshot,
                source: Source::Region,
                save_target: SaveTarget::Clipboard,
                record_format: RecordFormat::Mp4,
                record_fps: RecordFps::Fps30,
                last_region: None,
            }),
    {
        UserSettings {
            mode: Mode::Screenshot,
            source: Source::Region,
            save_target: SaveTarget::Clipboard,
            record_format: RecordFormat::Mp4,
            record_fps: RecordFps::Fps30,
            last_region: None,
        }
    }
}

/// One setting with its new value.
#[derive(Clone, Copy, Debug)]
pub enum Setting {
    Mode(Mode),
    Source(Source),
    SaveTarget(SaveTarget),
    RecordFormat(RecordFormat),
    RecordFps(RecordFps),
    LastRegion(Option<Rect>),
}

impl Setting {
    /// The name that the setting is kept under.
    pub fn key(&self) -> (s: &'static str)
        ensures
            s@ == match self {
                Setting::Mode(_) => "mode"@,
                Setting::Source(_) => "source"@,
                Setting::SaveTarget(_) => "save_target"@,
                Setting::RecordFormat(_) => "record_format"@,
                Setting::RecordFps(_) => "record_fps"@,
                Setting::LastRegion(_) => "last_region"@,
            },
    {
        match self {
            Setting::Mode(_) => "mode",
            Setting::Source(_) => "source",
            Setting::SaveTarget(_) => "save_target",
            Setting::RecordFormat(_) => "record_format",
            Setting::RecordFps(_) => "record_fps",
            Setting::LastRegion(_) => "last_region",
        }
    }
}

} // verus!
