use cosmic_capture::capture::dmabuf::{
    files_to_map, find_node, group_formats, pick_format, split_modifier, DriNode, DrmFormat,
    FormatModifiers, Fourcc, GbmRegistry, PlaneFile,
};
use cosmic_capture::capture::pacing::{
    frame_is_whole, BufferFormat, DmabufStreamFormat, Pacer, StreamLoop, StreamStep,
};
use cosmic_capture::capture::pipewire_capture::{
    bytes_per_pixel, gst_format_name, negotiated_format, take_frame, StreamFormat, VideoFormat,
};
use cosmic_capture::capture::screencast::{
    first_stream, request_cursor, request_sources, token_to_store, CastAction, CastRequest,
    CastStream, CursorMode, CursorModes, SourceTypes,
};
use cosmic_capture::capture::screencopy::CapturedFrame;
use cosmic_capture::capture::toplevels::{
    activated_toplevel_output, is_visible, output_for_name, output_name_for_toplevel,
    output_toplevels, sort_by_title, summaries, toplevel_geometry_on_output, toplevel_handle_for_identifier,
    window_sources, Geometry, NamedOutput, ToplevelInfo, ToplevelSummary, Workspace,
};
use cosmic_capture::capture::wayland::{
    capture_result, plan_dmabuf, plan_shm, CaptureEnd, Formats, OutputRegistry, ShmPlan,
    ShmRefusal, SourceLabel, WindowCapture, ABGR8888,
};

const AR24: u32 = 0x3432_5241;
const XR24: u32 = 0x3432_5258;

fn offer(fourcc: u32, modifiers: &[u64]) -> FormatModifiers {
    FormatModifiers { fourcc, modifiers: modifiers.to_vec() }
}

fn window(handle: u64, id: &str, outputs: &[u64], workspaces: &[u64]) -> ToplevelInfo {
    ToplevelInfo {
        handle,
        identifier: id.to_string(),
        title: format!("title of {id}"),
        app_id: format!("app of {id}"),
        activated: false,
        workspaces: workspaces.to_vec(),
        outputs: outputs.to_vec(),
        geometry: Vec::new(),
    }
}

fn named(output: u64, name: &str) -> NamedOutput {
    NamedOutput { output, name: Some(name.to_string()) }
}

#[test]
fn format_codes_are_those_of_the_graphics_card() {
    assert_eq!(Fourcc::Argb8888.code(), AR24);
    assert_eq!(Fourcc::Xrgb8888.code(), XR24);
}

#[test]
fn picked_format_suits_both() {
    let advertised = vec![offer(XR24, &[0, 5]), offer(AR24, &[0, 7, 9])];
    let (f, m) = pick_format(&advertised, None).ok().unwrap();
    assert_eq!((f, m), (Fourcc::Argb8888, vec![0, 7, 9]));
    let consumer = vec![offer(AR24, &[9, 8]), offer(XR24, &[5])];
    let (f, m) = pick_format(&advertised, Some(&consumer)).ok().unwrap();
    assert_eq!((f, m), (Fourcc::Argb8888, vec![9]));
    let consumer = vec![offer(XR24, &[5])];
    let (f, m) = pick_format(&advertised, Some(&consumer)).ok().unwrap();
    assert_eq!((f, m), (Fourcc::Xrgb8888, vec![5]));
}

#[test]
fn no_common_format_is_an_error() {
    let advertised = vec![offer(AR24, &[1])];
    let consumer = vec![offer(XR24, &[1])];
    let e = pick_format(&advertised, Some(&consumer)).err().unwrap();
    assert_eq!(
        e.message(),
        "no usable dmabuf format in intersection: compositor=[875713089], consumer=Some([875713112])"
    );
    let e = pick_format(&vec![offer(1, &[1])], None).err().unwrap();
    assert_eq!(
        e.message(),
        "no usable dmabuf format in intersection: compositor=[1], consumer=None"
    );
}

#[test]
fn formats_are_grouped_in_order() {
    let entries = vec![
        DrmFormat { fourcc: AR24, modifier: 1 },
        DrmFormat { fourcc: XR24, modifier: 2 },
        DrmFormat { fourcc: AR24, modifier: 3 },
    ];
    let g = group_formats(&entries);
    assert_eq!(g.len(), 2);
    assert_eq!((g[0].fourcc, g[0].modifiers.clone()), (AR24, vec![1, 3]));
    assert_eq!((g[1].fourcc, g[1].modifiers.clone()), (XR24, vec![2]));
    assert_eq!(split_modifier(0x0200_0000_1234_5678), (0x0200_0000, 0x1234_5678));
}

#[test]
fn planes_in_one_file_are_mapped_once() {
    let a = PlaneFile { inode: 1, device: 2 };
    let b = PlaneFile { inode: 3, device: 2 };
    assert_eq!(files_to_map(&vec![a, a, a]), 1);
    assert_eq!(files_to_map(&vec![a, b]), 2);
}

#[test]
fn device_node_is_found_by_number() {
    let nodes = vec![
        DriNode { path: "/dev/dri/card0".to_string(), rdev: 57856 },
        DriNode { path: "/dev/dri/renderD128".to_string(), rdev: 57984 },
    ];
    assert_eq!(find_node(&nodes, 57984), Ok(1));
    assert_eq!(
        find_node(&nodes, 0xe2ff),
        Err("no /dev/dri/* node matches rdev 0xe2ff".to_string())
    );
}

#[test]
fn device_is_opened_once() {
    let mut r = GbmRegistry::new();
    assert_eq!(r.find(5), None);
    assert_eq!(r.note_opened(5), 0);
    assert_eq!(r.note_opened(6), 1);
    assert_eq!(r.note_opened(5), 0);
    assert_eq!(r.find(6), Some(1));
}

#[test]
fn pacer_keeps_the_rate_and_never_bursts() {
    let mut p = Pacer::new(50, 1000);
    assert_eq!(p.after_frame(2000), Some(19_999_000));
    assert_eq!(p.after_frame(20_001_000), Some(20_000_000));
    // Long overdue: counted from now on.
    assert_eq!(p.after_frame(900_000_000), None);
    assert_eq!(p.after_frame(900_000_000), Some(20_000_000));
    assert_eq!(Pacer::new(0, 0).budget_ns, 1_000_000_000);
}

#[test]
fn stream_says_its_format_once() {
    let f = BufferFormat { width: 4, height: 2, fourcc: AR24, modifier: 9 };
    let mut l = StreamLoop::new(30);
    let format = DmabufStreamFormat { width: 4, height: 2, fourcc: AR24, modifier: 9, fps: 30 };
    assert_eq!(l.on_captured(f), StreamStep::Announce(format));
    assert_eq!(l.on_captured(f), StreamStep::Forward);
    assert_eq!(l.on_captured(BufferFormat { modifier: 8, ..f }), StreamStep::Drifted);
    assert!(frame_is_whole(32, 16, 2) && !frame_is_whole(31, 16, 2));
}

#[test]
fn stream_format_is_negotiated() {
    let f = negotiated_format(640, 480, 60000, 1001, VideoFormat::BGRx);
    let want = StreamFormat { width: 640, height: 480, fps: 59, format: VideoFormat::BGRx, stride: 2560 };
    assert_eq!(f, want);
    assert_eq!(negotiated_format(1, 1, 5, 0, VideoFormat::RGBA).fps, 30);
    assert_eq!(negotiated_format(1, 1, 0, 1, VideoFormat::RGBA).fps, 1);
    assert_eq!(bytes_per_pixel(VideoFormat::Other), 4);
    assert_eq!(gst_format_name(VideoFormat::RGBx), "RGBx");
    assert_eq!(gst_format_name(VideoFormat::Other), "BGRA");
}

#[test]
fn frames_lose_their_padding() {
    let fmt = StreamFormat { width: 1, height: 2, fps: 30, format: VideoFormat::BGRA, stride: 4 };
    let data: Vec<u8> = (0u8..12).collect();
    assert_eq!(take_frame(&data, 12, 6, &fmt).unwrap().bytes, vec![0, 1, 2, 3, 6, 7, 8, 9]);
    assert_eq!(take_frame(&data, 8, 4, &fmt).unwrap().bytes, (0u8..8).collect::<Vec<u8>>());
    assert_eq!(take_frame(&data[..9], 9, 6, &fmt).unwrap().bytes, vec![0, 1, 2, 3]);
    assert!(take_frame(&data, 0, 4, &fmt).is_none());
}

#[test]
fn screen_cast_asks_for_what_there_is() {
    let both = SourceTypes { monitor: true, window: true };
    assert_eq!(request_sources(Some(both)), both);
    let neither = SourceTypes { monitor: false, window: false };
    assert_eq!(request_sources(Some(neither)), SourceTypes { monitor: true, window: false });
    assert_eq!(request_sources(None), SourceTypes { monitor: true, window: false });
    let all = CursorModes { hidden: true, embedded: true, metadata: true };
    assert_eq!(request_cursor(true, Some(all)), CursorMode::Embedded);
    assert_eq!(request_cursor(false, Some(all)), CursorMode::Hidden);
    let meta = CursorModes { hidden: false, embedded: false, metadata: true };
    assert_eq!(request_cursor(false, Some(meta)), CursorMode::Metadata);
    assert_eq!(request_cursor(true, Some(meta)), CursorMode::Hidden);
    assert_eq!(request_cursor(true, None), CursorMode::Hidden);
}

#[test]
fn stale_token_is_retried_once() {
    let (mut r, a) = CastRequest::new(true);
    assert_eq!(a, CastAction::CreateSession);
    assert_eq!(r.context(), "create Screencast session");
    assert_eq!(r.step(true), CastAction::SelectSources { with_token: true });
    assert_eq!(r.step(false), CastAction::ForgetTokenAndCreateSession);
    assert_eq!(r.context(), "create Screencast session (retry)");
    assert_eq!(r.step(true), CastAction::SelectSources { with_token: false });
    assert_eq!(r.context(), "Screencast select_sources (retry)");
    assert_eq!(r.step(false), CastAction::Fail);
    let (mut r, _) = CastRequest::new(true);
    r.step(true);
    assert_eq!(r.step(true), CastAction::Start);
    assert_eq!(r.step(false), CastAction::ForgetTokenAndCreateSession);
    assert_eq!(r.step(true), CastAction::SelectSources { with_token: false });
    assert_eq!(r.step(true), CastAction::Start);
    assert_eq!(r.context(), "Screencast start (retry)");
    assert_eq!(r.step(false), CastAction::Fail);
    let (mut r, _) = CastRequest::new(true);
    r.step(true);
    r.step(true);
    assert_eq!(r.step(true), CastAction::ReadAnswer);
    assert_eq!(r.context(), "Screencast start response");
    assert_eq!(r.step(false), CastAction::ForgetTokenAndCreateSession);
    r.step(true);
    r.step(true);
    assert_eq!(r.step(true), CastAction::ReadAnswer);
    assert_eq!(r.context(), "Screencast start response (retry)");
    assert_eq!(r.step(false), CastAction::Fail);
    let (mut r, _) = CastRequest::new(false);
    assert_eq!(r.step(true), CastAction::SelectSources { with_token: false });
    assert_eq!(r.step(true), CastAction::Start);
    assert_eq!(r.context(), "Screencast start");
    assert_eq!(r.step(true), CastAction::ReadAnswer);
    assert_eq!(r.step(true), CastAction::OpenStream);
    let (mut r, _) = CastRequest::new(false);
    r.step(true);
    r.step(true);
    assert_eq!(r.step(false), CastAction::Fail);
}

#[test]
fn token_is_kept_where_it_changed() {
    let a = Some("a".to_string());
    let b = Some("b".to_string());
    assert_eq!(token_to_store(&a, &b), b.clone());
    assert_eq!(token_to_store(&a, &None), None);
    assert_eq!(token_to_store(&None, &b), b);
}

#[test]
fn first_stream_is_taken() {
    let s = vec![CastStream { node_id: 4, size: Some((1, 2)) }, CastStream { node_id: 5, size: None }];
    assert_eq!(first_stream(&s).unwrap().node_id, 4);
    assert_eq!(first_stream(&vec![]).err().unwrap(), "ScreenCast returned no streams");
}

#[test]
fn windows_of_shown_workspaces_are_listed() {
    let workspaces = vec![
        Workspace { handle: 1, active: true },
        Workspace { handle: 2, active: false },
    ];
    let infos = vec![
        window(10, "a", &[100], &[1]),
        window(11, "b", &[100], &[2]),
        window(12, "c", &[200], &[1]),
        window(13, "d", &[100, 200], &[]),
    ];
    assert!(is_visible(&infos[0], &workspaces));
    assert!(!is_visible(&infos[1], &workspaces));
    let on_first = output_toplevels(&infos, &workspaces, 100);
    assert!(on_first.contains(&10) && !on_first.contains(&11) && !on_first.contains(&12));
}

#[test]
fn names_lead_to_windows_and_outputs() {
    let outs = vec![named(100, "DP-1"), NamedOutput { output: 150, name: None }, named(200, "DP-2")];
    let mut infos = vec![window(10, "a", &[200], &[]), window(11, "b", &[], &[])];
    let g = Geometry { output: 200, x: 1, y: 2, width: 3, height: 4 };
    infos[0].geometry = vec![Geometry { output: 100, x: 9, y: 9, width: 9, height: 9 }, g];
    assert_eq!(toplevel_handle_for_identifier(&infos, "b"), Some(11));
    assert_eq!(toplevel_handle_for_identifier(&infos, "z"), None);
    assert_eq!(output_for_name(&outs, "DP-2"), Some(200));
    assert_eq!(output_for_name(&outs, "HDMI"), None);
    assert_eq!(output_name_for_toplevel(&infos, &outs, "a"), Some("DP-2".to_string()));
    assert_eq!(output_name_for_toplevel(&infos, &outs, "b"), None);
    assert_eq!(toplevel_geometry_on_output(&infos, &outs, "a", "DP-2"), Some(g));
    assert_eq!(toplevel_geometry_on_output(&infos, &outs, "b", "DP-2"), None);
    assert_eq!(activated_toplevel_output(&infos, &outs), None);
    infos[0].activated = true;
    assert_eq!(activated_toplevel_output(&infos, &outs), Some("DP-2".to_string()));
}

#[test]
fn sorting_keeps_every_window() {
    let summary = |title: &str| ToplevelSummary {
        identifier: title.to_string(),
        title: title.to_string(),
        app_id: String::new(),
        outputs: Vec::new(),
    };
    let sorted = sort_by_title(vec![summary("b"), summary("a"), summary("c"), summary("a")]);
    let titles: Vec<String> = sorted.iter().map(|w| w.title.clone()).collect();
    assert_eq!(titles, vec!["a", "a", "b", "c"]);
}

#[test]
fn windows_are_listed_by_title() {
    let mut infos =
        vec![window(1, "x", &[7, 8, 9], &[]), window(2, "y", &[9], &[]), window(3, "z", &[], &[])];
    for (info, title) in infos.iter_mut().zip(["b", "c", "a"]) {
        info.title = title.to_string();
    }
    let outs = vec![
        NamedOutput { output: 9, name: Some("DP-9".to_string()) },
        NamedOutput { output: 8, name: None },
        NamedOutput { output: 7, name: Some("DP-7".to_string()) },
    ];
    let v = summaries(&infos, &outs);
    let ids: Vec<&str> = v.iter().map(|s| s.identifier.as_str()).collect();
    assert_eq!(ids, vec!["z", "x", "y"]);
    assert!(v[0].outputs.is_empty());
    assert_eq!(v[1].outputs, vec!["DP-7", "DP-9"]);
    assert_eq!(v[2].outputs, vec!["DP-9"]);
    assert_eq!((v[1].title.as_str(), v[1].app_id.as_str()), ("b", infos[0].app_id.as_str()));
}

#[test]
fn windows_are_captured_under_their_names() {
    let infos = vec![window(1, "old", &[], &[]), window(2, "b", &[], &[]), window(1, "new", &[], &[])];
    let v = window_sources(&vec![2, 7, 1], &infos);
    assert_eq!(v.len(), 2);
    assert_eq!((v[0].handle, v[0].identifier.as_str()), (2, "b"));
    assert_eq!((v[1].handle, v[1].title.as_str()), (1, "title of new"));
    let c = WindowCapture {
        identifier: "i".to_string(),
        title: "t".to_string(),
        app_id: "a".to_string(),
        frame: CapturedFrame { pixels: vec![], width: 0, height: 0, stride: 0 },
    };
    assert_eq!(c.frame.width, 0);
}

#[test]
fn shared_memory_capture_is_planned() {
    let f = |size, formats: Vec<u32>| Formats {
        buffer_size: size,
        shm_formats: formats,
        dmabuf_device: None,
        dmabuf_formats: vec![],
    };
    assert_eq!(
        plan_shm(Some(&f((3, 2), vec![0, ABGR8888]))),
        Ok(ShmPlan { width: 3, height: 2, stride: 12, total: 24 })
    );
    assert_eq!(plan_shm(Some(&f((3, 2), vec![0]))), Err(ShmRefusal::NoAbgr8888));
    assert_eq!(plan_shm(Some(&f((0, 2), vec![ABGR8888]))), Err(ShmRefusal::EmptySource));
    assert_eq!(plan_shm(None), Err(ShmRefusal::Stopped));
}

#[test]
fn graphics_memory_capture_is_planned() {
    let mut f = Formats {
        buffer_size: (3, 2),
        shm_formats: vec![],
        dmabuf_device: Some(8),
        dmabuf_formats: vec![offer(AR24, &[4])],
    };
    let p = plan_dmabuf(Some(&f), None, SourceLabel::Output).ok().unwrap();
    assert_eq!((p.width, p.height, p.device, p.fourcc), (3, 2, 8, Fourcc::Argb8888));
    assert_eq!(p.modifiers, vec![4]);
    let e = plan_dmabuf(Some(&f), Some(&vec![]), SourceLabel::Toplevel).err().unwrap();
    assert_eq!(
        e,
        "screencopy advertised no usable dmabuf format for toplevel: no usable dmabuf format in intersection: compositor=[875713089], consumer=Some([])"
    );
    f.dmabuf_device = None;
    let e = plan_dmabuf(Some(&f), None, SourceLabel::Output).err().unwrap();
    assert_eq!(e, "screencopy advertised no dmabuf_device");
    f.buffer_size = (0, 2);
    let e = plan_dmabuf(Some(&f), None, SourceLabel::Output).err().unwrap();
    assert_eq!(e, "screencopy reported zero buffer size (0x2)");
    let e = plan_dmabuf(None, None, SourceLabel::Workspace).err().unwrap();
    assert_eq!(e, "screencopy session stopped before formats");
    assert_eq!(SourceLabel::Workspace.word(), "workspace");
}

#[test]
fn capture_ends_with_a_reason() {
    assert_eq!(capture_result(CaptureEnd::Ready), Ok(()));
    assert_eq!(
        capture_result(CaptureEnd::Failed("x".to_string())),
        Err("screencopy failed: x".to_string())
    );
    assert_eq!(
        capture_result(CaptureEnd::Dropped),
        Err("screencopy oneshot dropped (session stopped?)".to_string())
    );
    assert_eq!(
        capture_result(CaptureEnd::TimedOut),
        Err("screencopy timed out after 3s".to_string())
    );
}

#[test]
fn outputs_are_registered_once() {
    let mut r = OutputRegistry::new();
    r.set_output_info(named(1, "a"));
    r.set_output_info(named(2, "b"));
    r.set_output_info(named(1, "c"));
    assert_eq!(r.infos.len(), 2);
    assert_eq!(output_for_name(&r.infos, "c"), Some(1));
    assert_eq!(output_for_name(&r.infos, "a"), None);
    r.remove_output(1);
    assert_eq!(r.infos.len(), 1);
}
