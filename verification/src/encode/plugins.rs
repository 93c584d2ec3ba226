//! Which encoder elements are installed, and which of them is taken.
use crate::text;
use vstd::prelude::*;

verus! {

/// The encoder elements that were found.
#[derive(Clone, Copy, Debug, PartialEq, Eq, Structural)]
pub struct Plugins {
    pub vah264enc: bool,
    pub vah264lpenc: bool,
    pub nvcudah264enc: bool,
    pub nvh264enc: bool,
    pub vaapih264enc: bool,
    pub x264enc: bool,
    pub vavp9enc: bool,
    pub vavp9lpenc: bool,
    pub vavp8enc: bool,
    pub vp8enc: bool,
    pub vp9enc: bool,
    pub vapostproc: bool,
    pub vacompositor: bool,
}

/// The software H.264 encoder.
pub const X264_CPU: &'static str = "x264enc tune=zerolatency speed-preset=ultrafast bitrate=8000";

/// The software VP8 encoder, in its realtime mode.
pub const VP8_CPU: &'static str = "vp8enc deadline=1 cpu-used=4 threads=4 target-bitrate=6000000";

/// The software VP9 encoder, in its realtime mode.
pub const VP9_CPU: &'static str = "vp9enc deadline=1 cpu-used=8 threads=8 target-bitrate=6000000";

/// The first hardware H.264 encoder, newest first; the software one where there
/// is none.
pub open spec fn best_h264(p: Plugins) -> Seq<char> {
    if p.vah264enc {
        "vah264enc"@
    } else if p.vah264lpenc {
        "vah264lpenc"@
    } else if p.nvcudah264enc {
        "nvcudah264enc"@
    } else if p.nvh264enc {
        "nvh264enc"@
    } else if p.vaapih264enc {
        "vaapih264enc"@
    } else {
        X264_CPU@
    }
}

/// The first hardware H.264 encoder, newest first; the software one where there
/// is none.
pub fn best_h264_encoder(p: &Plugins) -> (s: String)
    ensures
        s@ == best_h264(*p),
{
    if p.vah264enc {
        text::owned("vah264enc")
    } else if p.vah264lpenc {
        text::owned("vah264lpenc")
    } else if p.nvcudah264enc {
        text::owned("nvcudah264enc")
    } else if p.nvh264enc {
        text::owned("nvh264enc")
    } else if p.vaapih264enc {
        text::owned("vaapih264enc")
    } else {
        text::owned(X264_CPU)
    }
}

/// The encoder for WebM: hardware where there is any, then software VP8, which
/// keeps up with a screen, then software VP9. The bare name of VP8's encoder
/// where nothing is installed, so that the failure names it.
pub open spec fn webm_encoder(p: Plugins) -> Seq<char> {
    if p.vavp9enc {
        "vavp9enc"@
    } else if p.vavp9lpenc {
        "vavp9lpenc"@
    } else if p.vavp8enc {
        "vavp8enc"@
    } else if p.vp8enc {
        VP8_CPU@
    } else if p.vp9enc {
        VP9_CPU@
    } else {
        "vp8enc"@
    }
}

/// The encoder for WebM.
pub fn resolve_webm_encoder(p: &Plugins) -> (s: String)
    ensures
        s@ == webm_encoder(*p),
{
    if p.vavp9enc {
        text::owned("vavp9enc")
    } else if p.vavp9lpenc {
        text::owned("vavp9lpenc")
    } else if p.vavp8enc {
        text::owned("vavp8enc")
    } else if p.vp8enc {
        text::owned(VP8_CPU)
    } else if p.vp9enc {
        text::owned(VP9_CPU)
    } else {
        text::owned("vp8enc")
    }
}

/// H.264 encoders from the best to the last, each with whether it is installed.
pub open spec fn h264_by_rank(p: Plugins) -> Seq<(Seq<char>, bool)> {
    seq![
        ("vah264enc"@, p.vah264enc),
        ("vah264lpenc"@, p.vah264lpenc),
        ("nvcudah264enc"@, p.nvcudah264enc),
        ("nvh264enc"@, p.nvh264enc),
        ("vaapih264enc"@, p.vaapih264enc),
    ]
}

/// The H.264 encoder that is taken is installed and none better is: hardware before
/// software, newer before older. Without any, it is the software one.
pub proof fn no_better_encoder_is_installed(p: Plugins, i: int)
    requires
        0 <= i <= 5,
        forall|j: int| 0 <= j < i ==> !(#[trigger] h264_by_rank(p)[j]).1,
        i < 5 ==> h264_by_rank(p)[i].1,
    ensures
        i < 5 ==> best_h264(p) == h264_by_rank(p)[i].0,
        i == 5 ==> text::holds(best_h264(p), "x264enc"@),
{
    let r = h264_by_rank(p);
    if i > 0 {
        assert(!r[0].1);
    }
    if i > 1 {
        assert(!r[1].1);
    }
    if i > 2 {
        assert(!r[2].1);
    }
    if i > 3 {
        assert(!r[3].1);
    }
    if i > 4 {
        assert(!r[4].1);
        reveal_strlit("x264enc tune=zerolatency speed-preset=ultrafast bitrate=8000");
        reveal_strlit("x264enc");
        assert(X264_CPU@.subrange(0, 7) =~= "x264enc"@);
        assert(text::stands_at(X264_CPU@, "x264enc"@, 0));
    }
}

/// WebM encoders from the best to the last, each with whether it is installed.
pub open spec fn webm_by_rank(p: Plugins) -> Seq<(Seq<char>, bool)> {
    seq![
        ("vavp9enc"@, p.vavp9enc),
        ("vavp9lpenc"@, p.vavp9lpenc),
        ("vavp8enc"@, p.vavp8enc),
        ("vp8enc"@, p.vp8enc),
        ("vp9enc"@, p.vp9enc),
    ]
}

/// The WebM encoder that is taken is installed and none better is: hardware before
/// software, and of the software ones the one that keeps up with a screen.
pub proof fn no_better_webm_encoder_is_installed(p: Plugins, i: int)
    requires
        0 <= i < 5,
        forall|j: int| 0 <= j < i ==> !(#[trigger] webm_by_rank(p)[j]).1,
        webm_by_rank(p)[i].1,
    ensures
        webm_by_rank(p)[i].0.is_prefix_of(webm_encoder(p)),
{
    let r = webm_by_rank(p);
    if i > 0 {
        assert(!r[0].1);
    }
    if i > 1 {
        assert(!r[1].1);
    }
    if i > 2 {
        assert(!r[2].1);
    }
    if i > 3 {
        assert(!r[3].1);
    }
    reveal_strlit("vp8enc deadline=1 cpu-used=4 threads=4 target-bitrate=6000000");
    reveal_strlit("vp8enc");
    reveal_strlit("vp9enc deadline=1 cpu-used=8 threads=8 target-bitrate=6000000");
    reveal_strlit("vp9enc");
    let (s, e) = (webm_encoder(p), r[i].0);
    assert(e =~= s.subrange(0, e.len() as int));
}

} // verus!
