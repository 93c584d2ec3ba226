use cosmic_capture::capture::screencopy::CapturedFrame;
use cosmic_capture::cli::{VideoContainer, VideoEncoder};
use cosmic_capture::encode::video::CropRect;
use cosmic_capture::gui::app::Panel;
use cosmic_capture::gui::config::{
    record_format_labels, record_fps_labels, save_target_labels, Mode, RecordFormat, RecordFps,
    SaveTarget, Setting, Source, UserSettings, APP_ID,
};
use cosmic_capture::gui::outputs::{
    BgSource, OutputDescription, OutputInfo, OutputMode, Transform,
};
use cosmic_capture::gui::steps::{
    Action, CaptureState, Env, Msg, SurfaceKind, WindowEntry, SAVING_LIMIT_NS,
};
use cosmic_capture::gui::view::{
    format_elapsed, key_message, surface_settings, ActionButton, Anchors, BarLayer, ChoiceList,
    Key, Keyboard, Layer, PickerView, WindowPlace, WindowView, SECOND_NS,
};
use cosmic_capture::gui::widget::rectangle_selection::{DragKind, DragSession, Rect, WidgetEvent};
use cosmic_capture::pipeline::record::ScreencopyTarget;
use cosmic_capture::paths::FilePath;
use cosmic_capture::pipeline::screenshot::Destination;
use std::sync::Arc;

fn env(now: u64) -> Env {
    Env { now, documents_file: Some(FilePath::of_text("/d/shot.png")) }
}

fn settings(mode: Mode, source: Source) -> UserSettings {
    UserSettings {
        mode,
        source,
        save_target: SaveTarget::Pictures,
        record_format: RecordFormat::Mp4,
        record_fps: RecordFps::Fps30,
        last_region: None,
    }
}

fn described(name: &str, x: i32) -> OutputDescription {
    OutputDescription {
        name: Some(name.to_string()),
        modes: vec![OutputMode { dimensions: (200, 100), current: true }],
        transform: Transform::Normal,
        scale_factor: 2,
        logical_position: Some((x, 0)),
        logical_size: Some((100, 50)),
    }
}

fn frame(w: u32, h: u32) -> Arc<CapturedFrame> {
    Arc::new(CapturedFrame { pixels: vec![7; (w * h * 4) as usize], width: w, height: h, stride: w * 4 })
}

fn entry(id: &str, width: u32) -> WindowEntry {
    WindowEntry {
        identifier: id.to_string(),
        title: id.to_string(),
        app_id: String::new(),
        output: String::new(),
        index: 0,
        frozen: frame(width, 1),
        width,
        pinned: false,
        streaming: None,
    }
}

fn target(t: &ScreencopyTarget) -> String {
    match t {
        ScreencopyTarget::Output { output_name } => output_name.clone(),
        ScreencopyTarget::Toplevel { identifier } => format!("window {identifier}"),
    }
}

fn text_of(p: &FilePath) -> String {
    String::from_utf8(p.bytes.to_vec()).unwrap()
}

fn place(d: &Destination) -> String {
    match d {
        Destination::Clipboard => "clipboard".to_string(),
        Destination::File(None) => "fresh file".to_string(),
        Destination::File(Some(f)) => text_of(f),
        Destination::Both(f) => format!("{} and clipboard", text_of(f)),
    }
}

/// The actions in a few words each.
fn told(actions: &[Action]) -> Vec<String> {
    actions
        .iter()
        .map(|a| match a {
            Action::Open { id, kind, output } => format!("open {kind:?} {id} on {output:?}"),
            Action::Destroy { id } => format!("destroy {id}"),
            Action::Persist { setting } => format!("keep {}", setting.key()),
            Action::Freeze { key, name, cursor } => format!("freeze {key} {name} {cursor}"),
            Action::ListWindows { output, .. } => format!("list {output}"),
            Action::Decode { job } => format!("decode {} for {:?}", job.path, job.targets),
            Action::StopStreams => "stop streams".to_string(),
            Action::StopStream { identifier } => format!("stop stream {identifier}"),
            Action::StartStream { identifier, slot } => format!("stream {identifier} to {slot}"),
            Action::Publish { slot, .. } => format!("publish {slot}"),
            Action::DropSlot { slot } => format!("drop {slot}"),
            Action::PinThumb { output, index } => format!("pin {output} {index}"),
            Action::PinFreeze { key } => format!("pin freeze {key}"),
            Action::SettlePaint { output } => format!("settle {output}"),
            Action::Activate { identifier } => format!("activate {identifier}"),
            Action::SaveFrame { frame, crop, destination, .. } => {
                format!("save {} crop {:?} to {}", frame.width, crop.is_some(), place(destination))
            }
            Action::SaveStitched { frame, .. } => format!("stitch {}x{}", frame.width, frame.height),
            Action::Screenshot { output_name, .. } => format!("shoot {output_name}"),
            Action::ScreenshotToplevel { identifier, .. } => format!("shoot window {identifier}"),
            Action::Record { target: t, .. } => format!("record {}", target(t)),
            Action::RecordRegion { parts, .. } => format!("record {} parts", parts.len()),
            Action::RecordGif { target: t, .. } => format!("image of {}", target(t)),
            Action::SendStop => "stop".to_string(),
            Action::DeleteFile { path } => format!("delete {path}"),
            Action::CopyRecording { path, format } => format!("copy {path} as {}", format.mime()),
            Action::Exit => "exit".to_string(),
        })
        .collect()
}

fn tell(p: &mut Panel, m: Msg) -> Vec<String> {
    told(&p.update(m, &env(0)))
}

/// A panel over two outputs side by side, with its tool bars open.
fn launched(s: UserSettings) -> Panel {
    let (mut p, first) = Panel::init(&s, 1);
    assert_eq!(told(&first), vec!["open Dummy 1 on None"]);
    for (key, name, x) in [(10u32, "DP-1", 0i32), (20, "DP-2", 100)] {
        let o = OutputInfo::described(key, described(name, x), None);
        p.update(Msg::OutputCreated(o), &env(0));
    }
    p.update(Msg::FrozenFrameReady(10, Some(frame(200, 100)), false), &env(0));
    p.update(Msg::FrozenFrameReady(20, Some(frame(200, 100)), true), &env(0));
    p.update(Msg::FocusOutputKnown(Some("DP-2".to_string())), &env(0));
    assert_eq!(p.outputs[0].toolbar_id, Some(2));
    assert_eq!(p.outputs[1].toolbar_id, Some(3));
    assert_eq!(p.focus_catcher_id, Some(4));
    p
}

fn rect(left: i32, top: i32, right: i32, bottom: i32) -> Rect {
    Rect { left, top, right, bottom }
}

fn select(p: &mut Panel, r: Rect) -> Vec<String> {
    p.update(Msg::Selection(WidgetEvent::DragMove(r)), &env(0));
    tell(p, Msg::Selection(WidgetEvent::DragEnd))
}

#[test]
fn choices_have_words_and_places() {
    assert_eq!(save_target_labels(), vec!["Save to Clipboard", "Save to Pictures", "Save to Documents"]);
    assert_eq!(record_format_labels(), vec!["MP4", "MKV", "WebM", "GIF"]);
    assert_eq!(record_fps_labels(), vec!["24 FPS", "30 FPS", "60 FPS"]);
    assert_eq!(SaveTarget::at(1), Some(SaveTarget::Pictures));
    assert_eq!(SaveTarget::at(3), None);
    assert_eq!(RecordFormat::at(3), Some(RecordFormat::Gif));
    assert_eq!(RecordFps::Fps60.place(), 2);
    assert_eq!(RecordFps::Fps24.as_u32(), 24);
    assert_eq!(RecordFormat::Mkv.mime(), "video/x-matroska");
    assert_eq!(Setting::LastRegion(None).key(), "last_region");
    assert_eq!(APP_ID, "com.system76.CosmicCapture");
}

#[test]
fn nothing_opens_before_freeze_and_focus() {
    let (mut p, _) = Panel::init(&settings(Mode::Screenshot, Source::Region), 1);
    let o = OutputInfo::described(10, described("DP-1", 0), None);
    assert_eq!(tell(&mut p, Msg::OutputCreated(o)), vec!["freeze 10 DP-1 true"]);
    assert!(tell(&mut p, Msg::FocusOutputKnown(None)).is_empty());
    assert_eq!(
        tell(&mut p, Msg::FrozenFrameReady(10, None, false)),
        vec!["open Toolbar 2 on Some(10)"]
    );
    let (mut p, _) = Panel::init(&settings(Mode::Screenshot, Source::Region), 1);
    let o = OutputInfo::described(10, described("DP-1", 0), None);
    p.update(Msg::OutputCreated(o), &env(0));
    assert_eq!(
        tell(&mut p, Msg::FrozenFrameReady(10, Some(frame(1, 1)), false)),
        vec!["pin freeze 10"]
    );
    assert_eq!(
        tell(&mut p, Msg::FocusOutputKnown(Some("DP-1".to_string()))),
        vec!["open Toolbar 2 on Some(10)", "open FocusCatcher 3 on Some(10)"]
    );
}

#[test]
fn focus_is_held_and_given_back_last() {
    let mut p = launched(settings(Mode::Screenshot, Source::Region));
    let o = OutputInfo::described(30, described("DP-3", 200), None);
    p.update(Msg::OutputCreated(o), &env(0));
    assert_eq!(
        tell(&mut p, Msg::FrozenFrameReady(30, None, false)),
        vec!["open Toolbar 5 on Some(30)", "destroy 4", "open FocusCatcher 6 on Some(20)"]
    );
    assert_eq!(
        tell(&mut p, Msg::Quit),
        vec!["destroy 2", "destroy 3", "destroy 5", "destroy 6", "exit"]
    );
}

#[test]
fn choices_are_kept() {
    let mut p = launched(settings(Mode::Screenshot, Source::Region));
    assert_eq!(tell(&mut p, Msg::SetMode(Mode::Record)), vec!["keep mode"]);
    assert!(tell(&mut p, Msg::SetMode(Mode::Record)).is_empty());
    assert_eq!(tell(&mut p, Msg::SetSaveTarget(0)), vec!["keep save_target"]);
    assert!(tell(&mut p, Msg::SetSaveTarget(9)).is_empty());
    assert_eq!(tell(&mut p, Msg::SetRecordFormat(3)), vec!["keep record_format"]);
    assert_eq!(tell(&mut p, Msg::SetRecordFps(2)), vec!["keep record_fps"]);
    assert_eq!(tell(&mut p, Msg::SetSource(Source::Screen)), vec!["keep source"]);
    assert_eq!(select(&mut p, rect(1, 2, 3, 4)), vec!["keep last_region"]);
    assert_eq!(p.region, Some(rect(1, 2, 3, 4)));
    assert_eq!(tell(&mut p, Msg::CancelSelection), vec!["keep last_region"]);
    assert_eq!(p.region, None);
    tell(&mut p, Msg::ToggleAudioMic);
    tell(&mut p, Msg::ToggleAudioSystem);
    tell(&mut p, Msg::ToggleClipboard);
    assert!(p.rec_audio_mic && p.rec_audio_system && p.clipboard);
    let a = p.build_record_args();
    assert_eq!((a.fps, a.encoder, a.container), (60, VideoEncoder::Auto, VideoContainer::Mp4));
    assert!(a.mic && a.system_audio && a.full && a.cursor && a.common.clipboard);
    let g = p.build_gif_args();
    assert_eq!((g.fps, g.quality, g.max_width, g.duration_secs), (20, 90, 800, 0));
}

#[test]
fn drag_keeps_its_session() {
    let mut p = launched(settings(Mode::Screenshot, Source::Region));
    let session = DragSession { kind: DragKind::New, start_rect: rect(1, 1, 1, 1), anchor: (1, 1) };
    let start = WidgetEvent::DragStart { session, initial_rect: rect(1, 1, 1, 1) };
    assert!(tell(&mut p, Msg::Selection(start)).is_empty());
    assert!(p.drag.is_some());
    assert_eq!(tell(&mut p, Msg::Selection(WidgetEvent::DragEnd)), vec!["keep last_region"]);
    assert!(p.drag.is_none());
}

#[test]
fn screenshot_saves_the_freeze() {
    let mut p = launched(settings(Mode::Screenshot, Source::Region));
    select(&mut p, rect(20, 30, 10, 10));
    assert_eq!(p.region_output_count(), 1);
    let acts = p.update(Msg::PrimaryAction(None), &env(5));
    match &acts[0] {
        Action::SaveFrame { crop, destination, notify, .. } => {
            assert_eq!(*crop, Some(CropRect { x: 20, y: 20, w: 20, h: 40 }));
            assert!(matches!(destination, Destination::File(None)));
            assert!(*notify);
        }
        _ => panic!("the freeze is not saved"),
    }
    assert_eq!(acts.len(), 1);
    assert_eq!(p.capture, CaptureState::Saving);
    // A busy panel keeps its choice, and does not start again.
    assert!(tell(&mut p, Msg::SetMode(Mode::Record)).is_empty());
    assert_eq!(p.mode, Mode::Screenshot);
    assert!(tell(&mut p, Msg::PrimaryAction(None)).is_empty());
    assert_eq!(
        tell(&mut p, Msg::ScreenshotFinished(Ok("/a.png".to_string()))),
        vec!["destroy 2", "destroy 3", "destroy 4", "exit"]
    );
}

#[test]
fn screenshot_follows_click_pointer_and_order() {
    let mut p = launched(settings(Mode::Screenshot, Source::Screen));
    tell(&mut p, Msg::SetSaveTarget(2));
    assert_eq!(p.active_output_name(&None), Some("DP-1".to_string()));
    tell(&mut p, Msg::PointerOn(Some(3)));
    assert_eq!(p.active_output_name(&None), Some("DP-2".to_string()));
    assert_eq!(p.active_output_name(&Some("DP-1".to_string())), Some("DP-1".to_string()));
    // Another surface does not take the pointer from the tool bar.
    tell(&mut p, Msg::PointerOn(Some(99)));
    assert_eq!(p.hovered_toolbar, Some(3));
    tell(&mut p, Msg::PointerOn(None));
    assert_eq!(p.hovered_toolbar, None);
    assert_eq!(
        tell(&mut p, Msg::PrimaryAction(Some("DP-2".to_string()))),
        vec!["save 200 crop false to /d/shot.png"]
    );
    let mut p = launched(settings(Mode::Screenshot, Source::Screen));
    tell(&mut p, Msg::SetSaveTarget(0));
    p.outputs[0].frozen = None;
    assert!(matches!(p.current_destination(&env(0)), Destination::Clipboard));
    assert_eq!(tell(&mut p, Msg::PrimaryAction(None)), vec!["shoot DP-1"]);
}

#[test]
fn region_across_outputs_is_stitched() {
    let mut p = launched(settings(Mode::Screenshot, Source::Region));
    select(&mut p, rect(90, 0, 110, 10));
    assert_eq!(p.region_output_count(), 2);
    assert!(p.canvas_ready());
    assert_eq!(tell(&mut p, Msg::PrimaryAction(None)), vec!["stitch 40x20"]);
    let mut p = launched(settings(Mode::Screenshot, Source::Region));
    select(&mut p, rect(90, 0, 110, 10));
    p.outputs[0].frozen = None;
    p.outputs[1].frozen = None;
    assert!(tell(&mut p, Msg::PrimaryAction(None)).is_empty());
    assert_eq!(p.capture, CaptureState::Idle);
}

#[test]
fn recording_takes_the_panel_away() {
    let mut p = launched(settings(Mode::Record, Source::Screen));
    assert!(p.can_start());
    let acts = p.update(Msg::PrimaryAction(Some("DP-2".to_string())), &env(7));
    assert_eq!(
        told(&acts),
        vec![
            "destroy 2",
            "destroy 3",
            "destroy 4",
            "open StopPill 5 on Some(20)",
            "open Recording 6 on Some(10)",
            "open Recording 7 on Some(20)",
            "record DP-2",
        ]
    );
    match &acts[6] {
        Action::Record { crop, .. } => {
            assert_eq!(*crop, Some(CropRect { x: 3, y: 3, w: 194, h: 94 }));
        }
        _ => unreachable!(),
    }
    assert!(p.locked() && p.wants_ticks());
    assert!(matches!(p.view_window(5, None), WindowView::StopPill));
    assert!(matches!(p.view_window(6, None), WindowView::Nothing));
    assert!(matches!(p.view_window(7, None), WindowView::FullBorder));
    let pill = p.view_stop_pill(7 + 61 * SECOND_NS);
    assert!(pill.stop_enabled && pill.running);
    assert_eq!(pill.elapsed, "01:01");
    // No tool bar comes back while it runs.
    assert!(tell(&mut p, Msg::OutputUpdated(10, described("DP-1", 0))).is_empty());
    // A stop is sent once, and the file goes to the clipboard.
    assert_eq!(tell(&mut p, Msg::PrimaryAction(None)), vec!["stop"]);
    assert!(tell(&mut p, Msg::PrimaryAction(None)).is_empty());
    assert_eq!(
        tell(&mut p, Msg::RecordingFinished(Ok("/a.mp4".to_string()))),
        vec!["copy /a.mp4 as video/mp4", "destroy 5", "destroy 6", "destroy 7", "exit"]
    );
}

#[test]
fn cancelled_recording_is_deleted() {
    let mut p = launched(settings(Mode::Record, Source::Screen));
    p.update(Msg::PrimaryAction(None), &env(0));
    assert_eq!(tell(&mut p, Msg::EscPressed), vec!["stop"]);
    assert!(tell(&mut p, Msg::EscPressed).is_empty());
    let end = tell(&mut p, Msg::RecordingFinished(Ok("/a.mp4".to_string())));
    assert_eq!(end[0], "delete /a.mp4");
    assert_eq!(end.last().unwrap(), "exit");
    let mut p = launched(settings(Mode::Record, Source::Screen));
    p.update(Msg::PrimaryAction(None), &env(0));
    let end = tell(&mut p, Msg::RecordingFinished(Err("broken".to_string())));
    assert_eq!(end[0], "destroy 5");
}

#[test]
fn stalled_save_is_given_up() {
    let mut p = launched(settings(Mode::Record, Source::Screen));
    p.update(Msg::PrimaryAction(None), &env(0));
    p.update(Msg::PrimaryAction(None), &env(100));
    assert!(p.update(Msg::Tick, &env(100 + SAVING_LIMIT_NS)).is_empty());
    let acts = told(&p.update(Msg::Tick, &env(101 + SAVING_LIMIT_NS)));
    assert_eq!(acts.last().unwrap(), "exit");
    assert!(p.cancel_pending);
}

#[test]
fn stalled_cancel_is_given_up() {
    let mut p = launched(settings(Mode::Record, Source::Screen));
    p.update(Msg::PrimaryAction(None), &env(0));
    p.update(Msg::EscPressed, &env(100));
    assert!(matches!(p.capture, CaptureState::Recording { .. }));
    assert!(p.update(Msg::Tick, &env(100 + SAVING_LIMIT_NS)).is_empty());
    let acts = told(&p.update(Msg::Tick, &env(101 + SAVING_LIMIT_NS)));
    assert_eq!(acts.last().unwrap(), "exit");
}

#[test]
fn a_large_region_only_stops_its_own_image() {
    let wide = rect(-1_000_000_000, -1_000_000_000, 1_000_000_000, 1_000_000_000);
    let mut p = launched(settings(Mode::Screenshot, Source::Region));
    select(&mut p, wide);
    assert!(!p.canvas_ready());
    for (mode, source) in [(Mode::Screenshot, Source::Screen), (Mode::Record, Source::Region)] {
        let mut p = launched(settings(mode, source));
        select(&mut p, wide);
        assert!(p.canvas_ready());
    }
}

#[test]
fn region_is_recorded() {
    let mut p = launched(settings(Mode::Record, Source::Region));
    assert!(!p.can_start());
    assert!(tell(&mut p, Msg::PrimaryAction(None)).is_empty());
    select(&mut p, rect(110, 10, 120, 20));
    let acts = p.update(Msg::PrimaryAction(None), &env(0));
    match acts.last() {
        Some(Action::Record { target: t, crop, args }) => {
            assert_eq!(target(t), "DP-2");
            assert_eq!(*crop, Some(CropRect { x: 20, y: 20, w: 20, h: 20 }));
            assert!(!args.full);
        }
        _ => panic!("nothing is recorded"),
    }
    assert!(matches!(p.view_window(6, None), WindowView::Nothing));
    match p.view_window(7, None) {
        WindowView::Border(s) => assert_eq!(s.selection, rect(110, 10, 120, 20)),
        _ => panic!("no border"),
    }
}

#[test]
fn region_across_outputs_is_recorded_as_a_video() {
    let mut p = launched(settings(Mode::Record, Source::Region));
    select(&mut p, rect(90, 0, 110, 10));
    tell(&mut p, Msg::SetRecordFormat(3));
    assert!(tell(&mut p, Msg::PrimaryAction(None)).is_empty());
    tell(&mut p, Msg::SetRecordFormat(1));
    let acts = tell(&mut p, Msg::PrimaryAction(None));
    assert_eq!(acts.last().unwrap(), "record 2 parts");
    assert_eq!(p.recording_target_output, Some("DP-1".to_string()));
}

#[test]
fn picker_lists_and_streams_windows() {
    let mut p = launched(settings(Mode::Record, Source::Region));
    p.outputs[0].bg_source = Some(BgSource::Path("/w.jpg".to_string()));
    assert_eq!(
        tell(&mut p, Msg::SetSource(Source::Window)),
        vec!["keep source", "decode /w.jpg for [(10, (200, 100))]", "list DP-1", "list DP-2"]
    );
    assert!(matches!(p.view_window_picker(0), PickerView::Loading));
    assert_eq!(
        tell(&mut p, Msg::WindowsForOutputReady("DP-1".to_string(), vec![entry("a", 30), entry("b", 10)])),
        vec![
            "pin DP-1 0", "pin DP-1 1", "publish 1", "publish 2", "stream a to 1", "stream b to 2",
            "settle DP-1",
        ]
    );
    // A listed window keeps its slot; one that has gone gives its slot and its stream up.
    let again = tell(&mut p, Msg::WindowsForOutputReady("DP-1".to_string(), vec![entry("b", 10)]));
    assert_eq!(
        again,
        vec!["pin DP-1 0", "publish 2", "stop stream a", "drop 1", "settle DP-1"]
    );
    // Where it comes back, it is streamed to its new slot.
    let again = tell(
        &mut p,
        Msg::WindowsForOutputReady("DP-1".to_string(), vec![entry("b", 10), entry("a", 30)]),
    );
    assert_eq!(
        again,
        vec![
            "pin DP-1 0", "pin DP-1 1", "publish 2", "publish 3", "stream a to 3", "settle DP-1",
        ]
    );
    tell(&mut p, Msg::ThumbAllocated("DP-1".to_string(), 0, true));
    assert!(p.windows[0].pinned);
    tell(&mut p, Msg::StreamFailed("a".to_string()));
    assert_eq!(p.streaming_sessions, vec!["b"]);
    assert_eq!(
        tell(&mut p, Msg::SetSource(Source::Screen)),
        vec!["keep source", "stop streams"]
    );
    assert!(p.streaming_sessions.is_empty());
}

#[test]
fn picker_shows_shares_of_the_row() {
    let mut p = launched(settings(Mode::Screenshot, Source::Window));
    p.update(Msg::WindowsForOutputReady("DP-1".to_string(), vec![entry("a", 30), entry("b", 10)]), &env(0));
    p.update(Msg::WindowsForOutputReady("DP-2".to_string(), vec![]), &env(0));
    match p.view_window_picker(0) {
        PickerView::Tiles(t) => {
            assert_eq!((t[0].portion, t[1].portion), (49151, 16383));
            assert_eq!((t[0].slot, t[0].width, t[0].height), (Some(1), 30, 1));
        }
        _ => panic!("no tiles"),
    }
    assert!(matches!(p.view_window_picker(1), PickerView::NoWindows));
    assert_eq!(p.view_window_picker(1).label(), "No windows on this display.");
    assert!(p.view_toolbar(0).layers.is_empty());
    tell(&mut p, Msg::PickerPainted("DP-1".to_string()));
    assert!(matches!(p.view_toolbar(0).layers[0], BarLayer::Picker));
}

#[test]
fn wallpaper_lies_behind_the_picker() {
    let mut p = launched(settings(Mode::Screenshot, Source::Window));
    tell(&mut p, Msg::PickerPainted("DP-1".to_string()));
    p.outputs[0].bg_source = Some(BgSource::Path("/w.jpg".to_string()));
    assert!(p.view_toolbar(0).layers.is_empty());
    tell(&mut p, Msg::WallpaperDecoded(vec![(10, true), (20, false)]));
    let v = p.view_toolbar(0);
    assert!(matches!(v.layers[0], BarLayer::Wallpaper));
    assert!(matches!(v.layers[1], BarLayer::Picker));
    p.outputs[0].bg_source = Some(BgSource::Color);
    assert!(matches!(p.view_toolbar(0).layers[0], BarLayer::WallpaperColor));
    tell(&mut p, Msg::WallpaperDecoded(vec![(10, false)]));
    assert_eq!(p.view_toolbar(0).layers.len(), 1);
}

#[test]
fn clicked_window_is_saved() {
    let mut p = launched(settings(Mode::Screenshot, Source::Window));
    assert!(!p.can_start());
    p.update(Msg::WindowsForOutputReady("DP-1".to_string(), vec![entry("a", 30)]), &env(0));
    assert_eq!(
        tell(&mut p, Msg::CaptureToplevel("a".to_string(), None)),
        vec!["activate a", "destroy 2", "destroy 3", "destroy 4", "save 30 crop false to fresh file"]
    );
    assert!(tell(&mut p, Msg::CaptureToplevel("a".to_string(), None)).is_empty());
    let mut p = launched(settings(Mode::Screenshot, Source::Window));
    let acts = tell(&mut p, Msg::CaptureToplevel("z".to_string(), None));
    assert_eq!(acts.last().unwrap(), "shoot window z");
}

#[test]
fn clicked_window_is_recorded() {
    let mut p = launched(settings(Mode::Record, Source::Window));
    p.update(Msg::WindowsForOutputReady("DP-1".to_string(), vec![entry("a", 30)]), &env(0));
    assert_eq!(
        tell(&mut p, Msg::CaptureToplevel("a".to_string(), Some("DP-1".to_string()))),
        vec![
            "stop streams", "activate a", "destroy 2", "destroy 3", "destroy 4",
            "open StopPill 5 on Some(10)", "open Recording 6 on Some(10)",
            "open Recording 7 on Some(20)", "record window a",
        ]
    );
    match p.view_window(6, Some(WindowPlace { x: 5, y: 6, w: 10, h: 20 })) {
        WindowView::Border(s) => assert_eq!(s.selection, rect(5, 6, 15, 26)),
        _ => panic!("no border"),
    }
    assert!(matches!(p.view_window(6, None), WindowView::FullBorder));
    assert!(matches!(p.view_window(7, None), WindowView::Nothing));
    let mut p = launched(settings(Mode::Record, Source::Window));
    tell(&mut p, Msg::SetRecordFormat(3));
    let acts = tell(&mut p, Msg::CaptureToplevel("a".to_string(), None));
    assert_eq!(acts.last().unwrap(), "image of window a");
    let end = tell(&mut p, Msg::GifFinished(Ok("/a.gif".to_string())));
    assert_eq!(end[0], "copy /a.gif as image/gif");
    assert_eq!(p.recording_started_at, None);
}

#[test]
fn output_that_goes_takes_its_windows_along() {
    let mut p = launched(settings(Mode::Screenshot, Source::Window));
    p.update(Msg::WindowsForOutputReady("DP-1".to_string(), vec![entry("a", 30)]), &env(0));
    tell(&mut p, Msg::PickerPainted("DP-1".to_string()));
    assert_eq!(tell(&mut p, Msg::OutputRemoved(10)), vec!["destroy 2"]);
    assert!(p.windows.is_empty() && p.listed.is_empty() && p.picker_painted.is_empty());
    assert_eq!(p.outputs.len(), 1);
    assert!(tell(&mut p, Msg::OutputRemoved(10)).is_empty());
    assert!(tell(&mut p, Msg::FrozenFrameReady(10, None, false)).is_empty());
    tell(&mut p, Msg::FrozenAllocated(20, true));
    assert!(p.outputs[0].frozen_pinned);
}

#[test]
fn tool_bar_shows_the_choices() {
    let mut p = launched(settings(Mode::Screenshot, Source::Region));
    let v = p.view_toolbar(0);
    assert!(v.choices_enabled && v.action_enabled);
    assert_eq!(v.action, ActionButton::Capture);
    assert_eq!(v.action.label(), "Capture");
    assert_eq!((v.options, v.rates, v.audio, v.opacity), (ChoiceList::SaveTargets(1), None, None, 100));
    assert!(matches!(v.layers[0], BarLayer::FrozenTexture));
    assert!(matches!(v.layers[1], BarLayer::Selection(_)));
    assert!(matches!(p.view_toolbar(1).layers[0], BarLayer::FrozenSurface));
    tell(&mut p, Msg::SetMode(Mode::Record));
    tell(&mut p, Msg::SetSource(Source::Screen));
    tell(&mut p, Msg::PointerOn(Some(3)));
    let v = p.view_toolbar(1);
    assert_eq!(v.action, ActionButton::Record { running: false });
    assert_eq!((v.options, v.rates), (ChoiceList::RecordFormats(0), Some(1)));
    assert_eq!(v.audio, Some((false, false)));
    assert!(matches!(v.layers[0], BarLayer::HoverBorder));
    assert!(p.view_toolbar(0).layers.is_empty());
    tell(&mut p, Msg::SetRecordFormat(3));
    assert_eq!(p.view_toolbar(0).audio, None);
    assert_eq!(p.toolbar_output(3), Some(1));
    assert!(matches!(p.view_window(3, None), WindowView::Toolbar(1)));
    assert!(matches!(p.view_window(1, None), WindowView::Nothing));
    assert!(matches!(p.view_window(4, None), WindowView::Nothing));
}

#[test]
fn elapsed_time_is_written_out() {
    assert_eq!(format_elapsed(0), "00:00");
    assert_eq!(format_elapsed(59), "00:59");
    assert_eq!(format_elapsed(3661), "01:01:01");
    assert_eq!(format_elapsed(360_000), "100:00:00");
}

#[test]
fn keys_are_messages() {
    assert!(matches!(key_message(&Key::Escape), Some(Msg::EscPressed)));
    assert!(matches!(key_message(&Key::Character(" ".to_string())), Some(Msg::PrimaryAction(None))));
    assert!(key_message(&Key::Character("a".to_string())).is_none());
    assert!(key_message(&Key::Other).is_none());
}

#[test]
fn surfaces_are_set_up() {
    let s = surface_settings(SurfaceKind::StopPill);
    assert_eq!((s.layer, s.keyboard, s.anchors), (Layer::Overlay, Keyboard::OnDemand, Anchors::Bottom));
    assert_eq!((s.size, s.bottom_margin, s.transparent), (Some((220, 56)), 32, false));
    assert_eq!(s.namespace, "cosmic-capture-stop-pill");
    let s = surface_settings(SurfaceKind::Recording);
    assert_eq!((s.layer, s.keyboard, s.anchors, s.transparent), (Layer::Top, Keyboard::Never, Anchors::All, true));
}

#[test]
fn each_surface_shows_its_own_things() {
    let mut p = launched(settings(Mode::Record, Source::Screen));
    for (i, id) in [(0usize, 2u64), (1, 3)] {
        assert!(matches!(p.view_window(id, None), WindowView::Toolbar(at) if at == i));
    }
    assert!(matches!(p.view_window(1, None), WindowView::Nothing));
    assert!(matches!(p.view_window(4, None), WindowView::Nothing));
    tell(&mut p, Msg::PrimaryAction(Some("DP-2".to_string())));
    assert_eq!(p.stop_pill_id, Some(5));
    assert_eq!((p.outputs[0].recording_id, p.outputs[1].recording_id), (Some(6), Some(7)));
    assert!(matches!(p.view_window(5, None), WindowView::StopPill));
    assert!(matches!(p.view_window(6, None), WindowView::Nothing));
    assert!(matches!(p.view_window(7, None), WindowView::FullBorder));
    // What has closed shows nothing any more.
    assert!(matches!(p.view_window(2, None), WindowView::Nothing));
}

#[test]
fn windows_of_two_outputs_have_their_own_slots() {
    let mut p = launched(settings(Mode::Screenshot, Source::Window));
    let listed = |name: &str, ids: &[&str]| {
        Msg::WindowsForOutputReady(
            name.to_string(),
            ids.iter().map(|id| entry(id, 10)).collect(),
        )
    };
    tell(&mut p, listed("DP-1", &["a", "b"]));
    tell(&mut p, listed("DP-2", &["c", "a"]));
    let drawn: Vec<(&str, Option<u64>)> =
        p.windows.iter().map(|w| (w.identifier.as_str(), w.streaming)).collect();
    // A window on both outputs is drawn from one slot.
    assert_eq!(drawn, vec![("a", Some(1)), ("b", Some(2)), ("c", Some(3)), ("a", Some(1))]);
    // A number that was given up does not come again.
    tell(&mut p, listed("DP-1", &[]));
    assert!(p.shared_frames.iter().all(|s| s.id != 2));
    tell(&mut p, listed("DP-1", &["b"]));
    assert_eq!(p.shared_frames.iter().find(|s| s.identifier == "b").map(|s| s.id), Some(4));
}
