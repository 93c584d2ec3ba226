//! What the command line asks for.
use crate::encode::plugins;
use crate::encode::plugins::Plugins;
use crate::paths::FilePath;
use crate::text;
use vstd::prelude::*;

verus! {

/// The command line. Without a command the panel is launched.
pub struct Cli {
    pub command: Option<Command>,
}

pub enum Command {
    /// Take a still image.
    Screenshot(ScreenshotArgs),
    /// Record a video.
    Record(RecordArgs),
    /// Record an animated image.
    Gif(GifArgs),
    /// Hold clipboard contents after the parent has gone.
    ClipboardServe(ClipboardServeArgs),
}

pub struct ClipboardServeArgs {
    /// The kind of the clipboard's contents.
    pub mime: String,
    /// A file that is offered as a link beside its contents.
    pub uri_path: Option<FilePath>,
}

pub struct CommonArgs {
    /// The file to write; a fresh name with the time where there is none.
    pub file: Option<FilePath>,
    /// Whether a notification says that the capture is done.
    pub notify: bool,
    /// Whether the capture goes to the clipboard.
    pub clipboard: bool,
}

pub struct ScreenshotArgs {
    pub common: CommonArgs,
    /// How long to wait before the capture.
    pub delay_ms: u64,
}

pub struct RecordArgs {
    pub common: CommonArgs,
    pub fps: u32,
    pub encoder: VideoEncoder,
    pub container: VideoContainer,
    /// Whether the microphone is recorded.
    pub mic: bool,
    /// Whether what the system plays is recorded.
    pub system_audio: bool,
    /// Whether the pointer is in the picture.
    pub cursor: bool,
    /// Whether the whole source is recorded, without choosing a region.
    pub full: bool,
    /// When to stop; on an interrupt where there is none.
    pub duration_secs: Option<u64>,
}

pub struct GifArgs {
    pub common: CommonArgs,
    pub fps: u32,
    pub quality: u8,
    /// The widest that the image may be; zero for any width.
    pub max_width: u32,
    pub cursor: bool,
    pub full: bool,
    pub duration_secs: u64,
}

#[derive(Copy, Clone, Debug, PartialEq, Eq, Structural)]
pub enum VideoEncoder {
    /// The best that is installed.
    Auto,
    X264,
    Vaapi,
    Nvenc,
}

/// The encoder that a choice comes to.
pub open spec fn chosen_encoder(e: VideoEncoder, p: Plugins) -> Seq<char> {
    match e {
        VideoEncoder::Auto => plugins::best_h264(p),
        VideoEncoder::X264 => plugins::X264_CPU@,
        VideoEncoder::Vaapi => if p.vah264enc {
            "vah264enc"@
        } else {
            "vaapih264enc"@
        },
        VideoEncoder::Nvenc => if p.nvcudah264enc {
            "nvcudah264enc"@
        } else {
            "nvh264enc"@
        },
    }
}

/// An encoder that was asked for by name is of that make, and only a free choice asks
/// what is installed of another: NVENC is NVIDIA's, VA-API is the graphics driver's, and
/// x264 is software.
pub proof fn encoders_are_of_the_make_asked_for(p: Plugins)
    ensures
        chosen_encoder(VideoEncoder::X264, p) == plugins::X264_CPU@,
        chosen_encoder(VideoEncoder::Vaapi, p) == (if p.vah264enc {
            "vah264enc"@
        } else {
            "vaapih264enc"@
        }),
        "va"@.is_prefix_of(chosen_encoder(VideoEncoder::Vaapi, p)),
        "nv"@.is_prefix_of(chosen_encoder(VideoEncoder::Nvenc, p)),
        chosen_encoder(VideoEncoder::Auto, p) == plugins::best_h264(p),
        p.vah264enc ==> chosen_encoder(VideoEncoder::Vaapi, p) == chosen_encoder(
            VideoEncoder::Auto,
            p,
        ),
{
    reveal_strlit("va");
    reveal_strlit("nv");
    reveal_strlit("vah264enc");
    reveal_strlit("vaapih264enc");
    reveal_strlit("nvcudah264enc");
    reveal_strlit("nvh264enc");
    let (v, n) = (chosen_encoder(VideoEncoder::Vaapi, p), chosen_encoder(VideoEncoder::Nvenc, p));
    assert("va"@ =~= v.subrange(0, 2));
    assert("nv"@ =~= n.subrange(0, 2));
}

impl VideoEncoder {
    /// The encoder element and its properties.
    pub fn resolve(self, p: &Plugins) -> (s: String)
        ensures
            s@ == chosen_encoder(self, *p),
    {
        match self {
            VideoEncoder::Auto => plugins::best_h264_encoder(p),
            VideoEncoder::X264 => text::owned(plugins::X264_CPU),
            VideoEncoder::Vaapi => if p.vah264enc {
                text::owned("vah264enc")
            } else {
                text::owned("vaapih264enc")
            },
            VideoEncoder::Nvenc => if p.nvcudah264enc {
                text::owned("nvcudah264enc")
            } else {
                text::owned("nvh264enc")
            },
        }
    }
}

#[derive(Copy, Clone, Debug, PartialEq, Eq, Structural)]
pub enum VideoContainer {
    Mp4,
    Mkv,
    WebM,
}

/// A container's file extension.
pub open spec fn container_extension(c: VideoContainer) -> Seq<char> {
    match c {
        VideoContainer::Mp4 => "mp4"@,
        VideoContainer::Mkv => "mkv"@,
        VideoContainer::WebM => "webm"@,
    }
}

/// A container's muxer, with its properties.
pub open spec fn container_muxer(c: VideoContainer) -> Seq<char> {
    match c {
        VideoContainer::Mp4 => "mp4mux faststart=true"@,
        VideoContainer::Mkv => "matroskamux"@,
        VideoContainer::WebM => "webmmux"@,
    }
}

/// Different containers have different file extensions and different muxers.
pub proof fn containers_differ(a: VideoContainer, b: VideoContainer)
    requires
        a != b,
    ensures
        container_extension(a) != container_extension(b),
        container_muxer(a) != container_muxer(b),
{
    reveal_strlit("mp4");
    reveal_strlit("mkv");
    reveal_strlit("webm");
    reveal_strlit("mp4mux faststart=true");
    reveal_strlit("matroskamux");
    reveal_strlit("webmmux");
    assert("mp4"@[1] != "mkv"@[1]);
    assert("mp4mux faststart=true"@.len() == 21);
    assert("matroskamux"@.len() == 11);
    assert("webmmux"@.len() == 7);
}

impl VideoContainer {
    /// The file extension.
    pub fn extension(self) -> (s: &'static str)
        ensures
            s@ == container_extension(self),
    {
        match self {
            VideoContainer::Mp4 => "mp4",
            VideoContainer::Mkv => "mkv",
            VideoContainer::WebM => "webm",
        }
    }

    /// The parser between encoder and muxer, and the muxer.
    pub fn mux_chain(self) -> (r: (&'static str, &'static str))
        ensures
            match self {
                VideoContainer::Mp4 => r.0@ == "h264parse"@ && r.1@ == "mp4mux faststart=true"@,
                VideoContainer::Mkv => r.0@ == "h264parse"@ && r.1@ == "matroskamux"@,
                VideoContainer::WebM => r.0@ == "vp8enc-equivalent"@ && r.1@ == "webmmux"@,
            },
            r.1@ == container_muxer(self),
    {
        match self {
            VideoContainer::Mp4 => ("h264parse", "mp4mux faststart=true"),
            VideoContainer::Mkv => ("h264parse", "matroskamux"),
            VideoContainer::WebM => ("vp8enc-equivalent", "webmmux"),
        }
    }
}

} // verus!
