use cosmic_capture::capture::pacing::DmabufStreamFormat;
use cosmic_capture::capture::pipewire_capture::{StreamFormat, VideoFormat};
use cosmic_capture::cli::{VideoContainer, VideoEncoder};
use cosmic_capture::encode::audio::{
    audio_branch_str, audio_plan, AudioElement, AudioLink, MIC_BRANCH, MIXED_BRANCH, SYSTEM_BRANCH,
};
use cosmic_capture::encode::gif::{output_size, plan_gif};
use cosmic_capture::encode::plugins::{
    best_h264_encoder, resolve_webm_encoder, Plugins, VP9_CPU, X264_CPU,
};
use cosmic_capture::encode::session::{
    diagnose, muxer_pts, Diagnosis, Phase, Session, SessionAction, SessionEvent, SessionKind,
};
use cosmic_capture::encode::video::{
    build_crop_str, escape_for_gst, plan_video, raw_caps_str, CropProps, CropRect,
};
use cosmic_capture::encode::video_dmabuf::{
    crop_origin, effective_crop, plan_composite, plan_dmabuf, CompositePart, CompositeRefusal,
    DmabufRefusal, Muxer,
};

fn none() -> Plugins {
    Plugins {
        vah264enc: false,
        vah264lpenc: false,
        nvcudah264enc: false,
        nvh264enc: false,
        vaapih264enc: false,
        x264enc: false,
        vavp9enc: false,
        vavp9lpenc: false,
        vavp8enc: false,
        vp8enc: false,
        vp9enc: false,
        vapostproc: false,
        vacompositor: false,
    }
}

fn va() -> Plugins {
    Plugins { vah264enc: true, vapostproc: true, vacompositor: true, ..none() }
}

fn format() -> StreamFormat {
    StreamFormat { width: 100, height: 80, fps: 30, format: VideoFormat::BGRA, stride: 400 }
}

fn dma() -> DmabufStreamFormat {
    DmabufStreamFormat { width: 101, height: 80, fourcc: 1, modifier: 2, fps: 30 }
}

fn crop(x: i32, y: i32, w: u32, h: u32) -> CropRect {
    CropRect { x, y, w, h }
}

#[test]
fn crop_props_are_even() {
    let p = crop(10, 20, 30, 41).to_crop_props(100, 80);
    assert_eq!(p, CropProps { top: 20, left: 10, right: 60, bottom: 20 });
    let p = crop(-5, 0, 200, 80).to_crop_props(100, 80);
    assert_eq!(p, CropProps { top: 0, left: 0, right: 0, bottom: 0 });
    let p = crop(99, 0, 9, 80).to_crop_props(100, 80);
    // A single column is no even extent.
    assert_eq!((p.left, p.right), (99, 1));
    assert_eq!(build_crop_str(Some(crop(99, 0, 9, 80)), Some((100, 80))), "");
}

#[test]
fn crop_texts() {
    assert_eq!(build_crop_str(None, Some((100, 80))), "");
    assert_eq!(
        build_crop_str(Some(crop(10, 20, 30, 40)), Some((100, 80))),
        "! videocrop top=20 left=10 right=60 bottom=20 "
    );
    assert_eq!(
        build_crop_str(Some(crop(10, -2, 30, 40)), None),
        "! videocrop top=0 left=10 right=0 bottom=0 ! video/x-raw,width=30,height=40 "
    );
}

#[test]
fn file_names_are_escaped() {
    assert_eq!(escape_for_gst("a b\"c\\d"), "\"a b\\\"c\\\\d\"");
    assert_ne!(escape_for_gst("\\\""), escape_for_gst("\""));
    assert_eq!(raw_caps_str(&format()), "video/x-raw,format=BGRA,width=100,height=80,framerate=30/1");
}

#[test]
fn encoders_by_preference() {
    assert_eq!(best_h264_encoder(&none()), X264_CPU);
    assert_eq!(best_h264_encoder(&va()), "vah264enc");
    assert_eq!(resolve_webm_encoder(&Plugins { vp9enc: true, ..none() }), VP9_CPU);
    assert_eq!(resolve_webm_encoder(&Plugins { vavp9enc: true, ..none() }), "vavp9enc");
    assert_eq!(VideoEncoder::Nvenc.resolve(&none()), "nvh264enc");
    assert_eq!(VideoEncoder::Vaapi.resolve(&none()), "vaapih264enc");
    assert_eq!(VideoEncoder::Auto.resolve(&va()), "vah264enc");
    assert_eq!(VideoEncoder::X264.resolve(&va()), X264_CPU);
    assert_eq!(VideoContainer::WebM.extension(), "webm");
    assert_eq!(VideoContainer::Mkv.mux_chain(), ("h264parse", "matroskamux"));
    assert_eq!(VideoContainer::WebM.mux_chain(), ("vp8enc-equivalent", "webmmux"));
}

#[test]
fn video_pipeline_is_put_together() {
    let p = Plugins { x264enc: true, ..none() };
    let plan = plan_video(
        &format(), "out.mp4", 30, VideoContainer::Mp4, VideoEncoder::X264, true, false,
        Some(crop(10, 20, 30, 40)), &p,
    )
    .ok()
    .unwrap();
    assert!(plan.pipeline.starts_with("appsrc name=src "));
    assert!(plan.pipeline.contains("! videocrop name=crop top=20 left=10 right=60 bottom=20 "));
    assert!(plan.pipeline.contains(" ! h264parse ! mp4mux faststart=true name=mux ! filesink name=sink location=\"out.mp4\" "));
    assert!(plan.pipeline.ends_with(MIC_BRANCH));
    assert_eq!(plan.caps, raw_caps_str(&format()));
    let e = plan_video(
        &format(), "o", 30, VideoContainer::Mp4, VideoEncoder::Auto, false, false, None, &none(),
    )
    .err()
    .unwrap();
    assert_eq!(
        e.message(),
        "no H.264 encoder available — install gstreamer plugins (vaapi/nvenc/x264)"
    );
    let webm = Plugins { vavp9enc: true, ..none() };
    let plan = plan_video(
        &format(), "o", 30, VideoContainer::WebM, VideoEncoder::Auto, false, false, None, &webm,
    );
    assert!(plan.ok().unwrap().pipeline.contains("! vavp9enc !  webmmux name=mux "));
    for p in [
        va(),
        Plugins { vah264lpenc: true, ..none() },
        Plugins { nvcudah264enc: true, ..none() },
    ] {
        let plan = plan_video(
            &format(), "o", 30, VideoContainer::Mp4, VideoEncoder::Auto, false, false, None, &p,
        )
        .ok()
        .unwrap();
        assert!(plan.pipeline.contains(&best_h264_encoder(&p)));
    }
}

#[test]
fn sound_is_wired_up() {
    assert_eq!(audio_branch_str(false, false), "");
    assert_eq!(audio_branch_str(true, false), MIC_BRANCH);
    assert_eq!(audio_branch_str(false, true), SYSTEM_BRANCH);
    assert_eq!(audio_branch_str(true, true), MIXED_BRANCH);
    let p = audio_plan(true, true);
    assert!(p.elements.contains(&AudioElement::Mixer));
    assert!(p.links.contains(&AudioLink { from: AudioElement::MicQueue, to: AudioElement::Mixer }));
    assert!(audio_plan(false, false).elements.is_empty());
    let p = audio_plan(true, false);
    assert!(!p.elements.contains(&AudioElement::Mixer));
    assert_eq!(p.elements.len(), p.links.len() + 1);
}

#[test]
fn image_is_no_wider_than_asked() {
    assert_eq!(output_size(&None, 1600, 900, 800), (800, 450));
    assert_eq!(output_size(&None, 640, 480, 800), (640, 480));
    assert_eq!(output_size(&None, 1600, 900, 0), (1600, 900));
    assert_eq!(output_size(&Some(crop(1500, 0, 400, 90)), 1600, 900, 800), (100, 90));
    assert_eq!(output_size(&Some(crop(1600, 0, 400, 90)), 1600, 900, 0), (1600, 900));
    assert_eq!(output_size(&None, 10_000, 3, 1), (1, 1));
    // A single column makes no crop stage, and so the whole source is shown.
    let one = Some(crop(5, 0, 1, 100));
    assert_eq!(output_size(&one, 1920, 1080, 0), (1920, 1080));
    assert_eq!(build_crop_str(one, Some((1920, 1080))), "");
    assert_eq!(output_size(&Some(crop(5, 0, 3, 100)), 1920, 1080, 0), (3, 100));
    let p = plan_gif(&format(), 20, 50, None);
    assert!(p.pipeline.contains("video/x-raw,format=RGBA,framerate=20/1,width=50,height=40,pixel-aspect-ratio=1/1"));
}

#[test]
fn recordings_on_the_graphics_card_are_even() {
    assert_eq!(effective_crop(None, 100, 80), None);
    assert_eq!(effective_crop(None, 101, 80), Some(crop(0, 0, 100, 80)));
    assert_eq!(effective_crop(Some(crop(-3, 2, 51, 9)), 100, 80), Some(crop(0, 2, 50, 8)));
    assert_eq!(effective_crop(Some(crop(99, 0, 51, 9)), 100, 80), None);
    assert_eq!(crop_origin(&crop(-1, 7, 1, 1)), (0, 7));
    let p = plan_dmabuf(&dma(), "o.mkv", VideoContainer::Mkv, false, false, None, &va()).ok().unwrap();
    assert_eq!(p.crop, Some(crop(0, 0, 100, 80)));
    assert!(p.pipeline.contains(" vah264enc ! h264parse name=h264p ! matroskamux name=mux ! filesink"));
    assert!(p.pipeline.contains("format=NV12,width=100,height=80 !"));
}

#[test]
fn graphics_card_recordings_can_be_refused() {
    let e = plan_dmabuf(&dma(), "o", VideoContainer::WebM, false, false, None, &va()).err().unwrap();
    assert_eq!(e, DmabufRefusal::WebM);
    assert!(e.message().starts_with("WebM is not implemented yet"));
    let e = plan_dmabuf(&dma(), "o", VideoContainer::Mp4, false, false, None, &none()).err().unwrap();
    assert_eq!(e, DmabufRefusal::NoVaapi);
    assert!(e.message().starts_with("vapostproc + vah264enc required"));
}

#[test]
fn composed_recordings_cover_their_parts() {
    let part = |x, w| CompositePart {
        src_crop: crop(1, 2, w, 50),
        dst_pos: (x, 0),
        dst_size: (w, 51),
        format: dma(),
    };
    let parts = vec![part(0, 100), part(100, 61)];
    let p = plan_composite(&parts, 2, VideoContainer::Mp4, true, false, &va()).ok().unwrap();
    assert_eq!((p.canvas_w, p.canvas_h), (160, 50));
    assert_eq!(p.muxer, Muxer::Mp4FastStart);
    assert_eq!(p.branches[1].name, "src1");
    assert_eq!((p.branches[1].xpos, p.branches[1].width), (100, 61));
    let refused = |parts: &Vec<CompositePart>, n, c, p: &Plugins| {
        plan_composite(parts, n, c, false, false, p).err().unwrap()
    };
    let e = refused(&parts, 1, VideoContainer::Mp4, &va());
    assert_eq!(e, CompositeRefusal::Mismatch { parts: 2, captures: 1 });
    assert_eq!(
        e.message(),
        "VideoSessionDmabufMulti::build: parts/captures length mismatch (2 parts, 1 captures)"
    );
    let e = refused(&parts, 2, VideoContainer::Mp4, &none());
    assert_eq!(e, CompositeRefusal::NoCompositor);
    assert!(e.message().starts_with("vacompositor required"));
    let e = refused(&parts, 2, VideoContainer::WebM, &va());
    assert_eq!(e, CompositeRefusal::WebM);
    assert_eq!(e.message(), "WebM is not implemented yet on the dmabuf compositor path");
    let e = refused(&vec![part(0, 0)], 1, VideoContainer::Mp4, &va());
    assert_eq!(e, CompositeRefusal::EmptyCanvas);
    assert_eq!(e.message(), "composite canvas is empty");
}

fn run(kind: SessionKind, events: Vec<SessionEvent>) -> (Result<(), String>, Vec<SessionAction>) {
    let mut s = Session::new(kind);
    let mut actions = Vec::new();
    for e in events {
        let (next, a) = s.step(e);
        s = next;
        actions.push(a);
    }
    match s.phase {
        Phase::Finished(r) => (r, actions),
        _ => panic!("the session has not come to its end"),
    }
}

#[test]
fn stopped_recording_ends_well() {
    let (r, a) = run(
        SessionKind::Video,
        vec![
            SessionEvent::StartReturned(Ok(())),
            SessionEvent::Stop,
            SessionEvent::Bus(Some(Ok(()))),
            SessionEvent::NullReturned(Ok(())),
        ],
    );
    assert_eq!(r, Ok(()));
    assert_eq!(
        a,
        vec![
            SessionAction::Wait,
            SessionAction::EndStream { timeout_secs: 3 },
            SessionAction::ShutDown { timeout_secs: 2 },
            SessionAction::Finish,
        ]
    );
}

#[test]
fn pipeline_error_is_the_outcome() {
    let (r, _) = run(
        SessionKind::Composite,
        vec![
            SessionEvent::StartReturned(Ok(())),
            SessionEvent::Bus(Some(Err("boom".to_string()))),
            SessionEvent::NullLost,
        ],
    );
    assert_eq!(r, Err("boom".to_string()));
}

#[test]
fn failed_starts_say_why() {
    let (r, _) = run(SessionKind::Gif, vec![SessionEvent::StartReturned(Err("x".to_string()))]);
    assert_eq!(r, Err("gif pipeline → Playing: x".to_string()));
    let (r, _) = run(SessionKind::Dmabuf, vec![SessionEvent::StartPanicked("x".to_string())]);
    assert_eq!(r, Err("set_state(Playing) panicked: x".to_string()));
    let (r, _) = run(SessionKind::Composite, vec![SessionEvent::StartTimedOut]);
    assert_eq!(r, Err("composite set_state(Playing) did not return within 3s".to_string()));
}

#[test]
fn image_is_written_whatever_ended_it() {
    let (r, a) = run(
        SessionKind::Gif,
        vec![
            SessionEvent::StartReturned(Ok(())),
            SessionEvent::Bus(Some(Err("first".to_string()))),
            SessionEvent::DrainTimedOut,
            SessionEvent::NullLost,
            SessionEvent::WriterReturned(Err("second".to_string())),
        ],
    );
    assert_eq!(r, Err("first".to_string()));
    assert!(a.contains(&SessionAction::CloseWriter));
    let (r, _) = run(
        SessionKind::Gif,
        vec![
            SessionEvent::StartReturned(Ok(())),
            SessionEvent::Stop,
            SessionEvent::DrainTimedOut,
            SessionEvent::NullLost,
            SessionEvent::WriterPanicked,
        ],
    );
    assert_eq!(r, Err("gif writer thread panicked".to_string()));
}

#[test]
fn finished_session_stays_finished() {
    let s = Session { kind: SessionKind::Video, phase: Phase::Finished(Ok(())) };
    let (s, _) = s.step(SessionEvent::Bus(Some(Err("late".to_string()))));
    assert!(matches!(s.phase, Phase::Finished(Ok(()))));
}

#[test]
fn recordings_are_diagnosed() {
    assert_eq!(diagnose(0, 0), Diagnosis::NoFrames);
    assert_eq!(diagnose(3, 0), Diagnosis::NoBytes);
    assert_eq!(diagnose(3, 9), Diagnosis::Fine);
    assert_eq!(muxer_pts(None, Some(4)), Some(4));
    assert_eq!(muxer_pts(Some(3), Some(4)), Some(3));
}
