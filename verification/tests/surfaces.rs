use cosmic_capture::encode::video::CropRect;
use cosmic_capture::gui::outputs::{
    BgSource, OutputDescription, OutputInfo, OutputMode, Transform,
};
use cosmic_capture::gui::wallpaper::{
    bg_for_output, cover_image, cover_size, shm_layout, wallpaper_jobs, Image, NamedWallpaper,
    ShmLayout, DEFAULT_WALLPAPER,
};
use cosmic_capture::gui::widget::rectangle_selection::{
    Area, DragKind, DragSession, Interaction, Mode, Rect, RectangleSelection, SelectionInput,
    WidgetEvent, DND_MIME,
};
use cosmic_capture::gui::widget::streaming_thumb::{
    nudge_redraw, take_redraw_receiver, RawFrame, RedrawBus, SharedFrame, StreamingThumb,
    ThumbPipeline,
};
use cosmic_capture::pipeline::debug::{
    bus_step, frame_pipeline_str, parse_region, scaled_region_parts, target_scale, BusEvent,
    BusStep, RegionError, ScaledOutput, FRAME_LIMIT_NS,
};
use cosmic_capture::pipeline::record::{
    loss_message, plan_run, stop_rule, target_crop, FormatLoss, FrameSource, RunPlan,
    ScreencopyTarget, SelectionOutcome, StopRule,
};
use cosmic_capture::selector::app::{
    Outcome, PointerEvent, PointerKind, PointerReply, Selector, SelectorSurface,
};
use cosmic_capture::selector::render::{paint, DIM_BACKGROUND};
use cosmic_capture::selector::selection::{Selection, SelectionCancelled};

fn rect(left: i32, top: i32, right: i32, bottom: i32) -> Rect {
    Rect { left, top, right, bottom }
}

fn widget(selection: Rect, drag: Option<DragSession>) -> RectangleSelection {
    RectangleSelection::new(rect(0, 0, 200, 100), selection, Mode::Selecting, drag)
}

fn session(kind: DragKind, start_rect: Rect, anchor: (i32, i32)) -> DragSession {
    DragSession { kind, start_rect, anchor }
}

#[test]
fn rectangles_are_normalized() {
    let r = rect(10, 20, 5, 8);
    assert_eq!(r.normalize(), rect(5, 8, 10, 20));
    assert_eq!(r.normalize().normalize(), r.normalize());
    assert_eq!((r.width(), r.height()), (5, 12));
}

#[test]
fn handles_are_hit() {
    let w = widget(rect(20, 20, 100, 80), None);
    assert_eq!(w.hit_test(Some((20, 20))), DragKind::NW);
    assert_eq!(w.hit_test(Some((100, 80))), DragKind::SE);
    assert_eq!(w.hit_test(Some((60, 20))), DragKind::N);
    assert_eq!(w.hit_test(Some((20, 50))), DragKind::W);
    assert_eq!(w.hit_test(Some((60, 50))), DragKind::Move);
    assert_eq!(w.hit_test(Some((150, 90))), DragKind::Nothing);
    assert_eq!(widget(rect(5, 5, 5, 5), None).hit_test(Some((150, 90))), DragKind::New);
    assert_eq!(w.hit_test(None), DragKind::Nothing);
    assert_eq!(w.mouse_interaction(Some((20, 20))), Interaction::ResizingDiagonallyDown);
    assert_eq!(w.mouse_interaction(Some((60, 50))), Interaction::Grab);
}

#[test]
fn selections_are_dragged() {
    let start = rect(20, 20, 100, 80);
    let moved = widget(start, Some(session(DragKind::Move, start, (50, 50)))).drag_to(55, 48);
    assert_eq!(moved, rect(25, 18, 105, 78));
    assert_eq!((moved.width(), moved.height()), (start.width(), start.height()));
    let back = widget(moved, Some(session(DragKind::Move, moved, (55, 48)))).drag_to(50, 50);
    assert_eq!(back, start);
    let east = widget(start, Some(session(DragKind::E, start, (100, 50)))).drag_to(120, 99);
    assert_eq!(east, rect(20, 20, 120, 80));
    let fresh = widget(start, Some(session(DragKind::New, rect(5, 5, 5, 5), (5, 5)))).drag_to(9, 1);
    assert_eq!(fresh.normalize(), rect(5, 1, 9, 5));
}

#[test]
fn press_starts_a_drag() {
    let w = widget(rect(20, 20, 100, 80), None);
    let r = w.update(SelectionInput::Press { x: 60, y: 50 });
    assert!(r.start_dnd && r.captured);
    assert!(matches!(r.event, Some(WidgetEvent::DragStart { session: s, .. }) if s.kind == DragKind::Move));
    let r = w.update(SelectionInput::Motion { x: 1, y: 1 });
    assert!(r.event.is_none() && !r.captured);
    assert_eq!(DND_MIME, "X-COSMIC-CAPTURE-SelectionDrag");
}

#[test]
fn recording_border_is_inert_and_outside() {
    let w = RectangleSelection::new(rect(0, 0, 200, 100), rect(20, 20, 100, 80), Mode::Recording, None);
    let r = w.update(SelectionInput::Press { x: 60, y: 50 });
    assert!(r.event.is_none() && !r.start_dnd && !r.captured);
    assert_eq!(w.mouse_interaction(Some((60, 50))), Interaction::Default);
    assert_eq!(w.border_area(), Some(Area { x: 17, y: 17, width: 86, height: 66 }));
    assert_eq!(w.local_selection(), Area { x: 20, y: 20, width: 80, height: 60 });
    assert_eq!(widget(rect(20, 20, 100, 80), None).handles().len(), 4);
}

fn raw(width: u32, height: u32) -> RawFrame {
    RawFrame { pixels: vec![1; (width * height * 4) as usize], width, height, stride: width * 4 }
}

#[test]
fn frame_is_taken_once() {
    let mut s = SharedFrame::new(4);
    assert_eq!((s.id(), s.version()), (4, 0));
    assert!(s.take_if_newer(0).is_none());
    s.publish(raw(2, 1));
    s.publish(raw(3, 1));
    let (f, v) = s.take_if_newer(0).unwrap();
    assert_eq!((f.width, v), (3, 2));
    assert!(s.take_if_newer(0).is_none());
    assert_eq!(StreamingThumb::new(&s).draw().slot, 4);
}

#[test]
fn equal_sizes_share_a_texture() {
    let mut s = SharedFrame::new(4);
    let mut p = ThumbPipeline::new();
    assert!(p.prepare_tile(&mut s).is_none());
    s.publish(raw(2, 1));
    let u = p.prepare_tile(&mut s).unwrap();
    assert!(u.fresh && u.bytes_per_row == 8);
    s.publish(raw(2, 1));
    assert!(!p.prepare_tile(&mut s).unwrap().fresh);
    assert!(p.prepare_tile(&mut s).is_none());
    s.publish(raw(5, 1));
    assert!(p.prepare_tile(&mut s).unwrap().fresh);
    assert!(p.has_texture(4));
    p.trim(&vec![9]);
    assert!(!p.has_texture(4));
}

#[test]
fn redraws_are_gathered() {
    let mut b = RedrawBus::new();
    assert!(take_redraw_receiver(&mut b));
    assert!(!take_redraw_receiver(&mut b));
    nudge_redraw(&mut b);
    nudge_redraw(&mut b);
    assert_eq!(b.pending, 2);
}

fn output(key: u32, path: Option<&str>, size: (i32, i32)) -> OutputInfo {
    let d = OutputDescription {
        name: None,
        modes: vec![OutputMode { dimensions: size, current: true }],
        transform: Transform::Normal,
        scale_factor: 1,
        logical_position: None,
        logical_size: None,
    };
    OutputInfo::described(key, d, path.map(|p| BgSource::Path(p.to_string())))
}

#[test]
fn wallpapers_are_decoded_once() {
    let outs = vec![
        output(1, Some("/a"), (10, 10)),
        output(2, Some("/b"), (20, 10)),
        output(3, None, (30, 10)),
        output(4, Some("/a"), (40, 10)),
    ];
    let jobs = wallpaper_jobs(&outs, 0, 4);
    assert_eq!(jobs.len(), 2);
    assert_eq!(jobs[0].path, "/a");
    assert_eq!(jobs[0].targets, vec![(1, (10, 10)), (4, (40, 10))]);
    assert_eq!(jobs[1].path, "/b");
    assert_eq!(wallpaper_jobs(&outs, 2, 3).len(), 0);
}

#[test]
fn wallpaper_of_an_output() {
    let list = vec![
        NamedWallpaper { output: "all".to_string(), source: BgSource::Color },
        NamedWallpaper { output: "DP-1".to_string(), source: BgSource::Path("/x".to_string()) },
    ];
    assert!(matches!(bg_for_output(Some(&list), "DP-1"), Some(BgSource::Path(p)) if p == "/x"));
    assert!(matches!(bg_for_output(Some(&list), "DP-2"), Some(BgSource::Path(p)) if p == DEFAULT_WALLPAPER));
    assert!(bg_for_output(None, "DP-1").is_none());
}

#[test]
fn wallpaper_covers_the_output() {
    assert_eq!(cover_size(400, 200, (100, 100)), Some((200, 100)));
    assert_eq!(cover_size(100, 100, (100, 100)), None);
    assert_eq!(cover_size(50, 50, (100, 100)), None);
    let image = Image { rgba: (0..64u8).collect(), width: 4, height: 4 };
    let small = cover_image(&image, (2, 2)).unwrap();
    assert_eq!((small.width, small.height, small.rgba.len()), (2, 2, 16));
    // The mean of pixels 0, 1, 4 and 5, whose reds are 0, 4, 16 and 20.
    assert_eq!(small.rgba[0], 10);
    let same = cover_image(&image, (4, 4)).unwrap();
    assert_eq!(same.rgba, image.rgba);
    // The sums of all pixels at full intensity still are 32 bit numbers.
    let square = Image { rgba: vec![255; 4095 * 4 * 4095], width: 4095, height: 4095 };
    let dot = cover_image(&square, (1, 1)).unwrap();
    assert_eq!(dot.rgba, vec![255; 4]);
    let wide = Image { rgba: vec![255; 4101 * 4 * 4101], width: 4101, height: 4101 };
    assert!(cover_image(&wide, (1, 1)).is_none());
    let side: u32 = 0x100_0000;
    let long = Image { rgba: vec![9; side as usize * 4], width: side, height: 1 };
    let scaled = cover_image(&long, (100, 1)).unwrap();
    assert_eq!((scaled.width, scaled.height, scaled.rgba[77]), (side, 1, 9));
}

#[test]
fn frozen_buffers_are_laid_out() {
    assert_eq!(shm_layout(3, 2, 24), Some(ShmLayout { stride: 12, size: 24 }));
    assert_eq!(shm_layout(3, 2, 23), None);
}

fn surface() -> SelectorSurface {
    let d = OutputDescription {
        name: Some("DP-1".to_string()),
        modes: vec![OutputMode { dimensions: (200, 100), current: true }],
        transform: Transform::Normal,
        scale_factor: 2,
        logical_position: Some((7, 8)),
        logical_size: Some((100, 50)),
    };
    SelectorSurface::over(5, 9, &d)
}

fn at(kind: PointerKind, x: i32, y: i32) -> PointerEvent {
    PointerEvent { surface: 5, kind, position: (x * 256, y * 256) }
}

fn selector() -> Selector {
    let mut s = Selector::new(0xff112233, 0xff0000ff);
    s.add_surface(surface());
    s.on_configure(5, 100, 50);
    s
}

fn drag(from: (i32, i32), to: (i32, i32)) -> (Selector, PointerReply) {
    let mut s = selector();
    s.on_pointer(at(PointerKind::LeftPress, from.0, from.1));
    s.on_pointer(at(PointerKind::Motion, to.0, to.1));
    let r = s.on_pointer(at(PointerKind::LeftRelease, to.0, to.1));
    (s, r)
}

#[test]
fn drags_select_whichever_way_they_go() {
    for (from, to) in [((10, 10), (30, 40)), ((30, 40), (10, 10)), ((10, 40), (30, 10))] {
        match drag(from, to).1 {
            PointerReply::Deliver(sel) => {
                assert_eq!(sel.region_logical, (10, 10, 20, 30));
                assert_eq!(sel.output_name, "DP-1");
                assert_eq!(sel.output_logical_pos, (7, 8));
                assert_eq!(sel.region_physical(), (20, 20, 40, 60));
            }
            PointerReply::Nothing => panic!("nothing was selected"),
        }
    }
}

#[test]
fn small_selections_are_not_taken() {
    let (s, r) = drag((10, 10), (17, 40));
    assert!(matches!(r, PointerReply::Nothing));
    assert_eq!(s.outcome, Outcome::Cancelled);
}

#[test]
fn selector_can_be_left() {
    let mut s = selector();
    s.on_escape();
    assert_eq!(s.outcome, Outcome::Cancelled);
    let mut s = selector();
    s.on_pointer(at(PointerKind::RightPress, 1, 1));
    assert_eq!(s.outcome, Outcome::Cancelled);
    assert_eq!(SelectionCancelled.message(), "region selection cancelled");
}

#[test]
fn selector_surfaces_come_and_go() {
    let mut s = selector();
    assert!(s.covers(9) && !s.covers(8));
    assert_eq!(s.surfaces[0].buffer_size, (200, 100));
    assert_eq!(s.surfaces[0].pool_bytes(), 200 * 100 * 4 * 2);
    s.on_output_destroyed(9);
    assert!(s.surfaces.is_empty());
}

#[test]
fn no_frame_is_overtaken() {
    let mut s = selector();
    assert!(s.paint_job(0).is_some());
    s.on_painted(0);
    assert!(s.paint_job(0).is_none());
    s.on_pointer(at(PointerKind::LeftPress, 10, 10));
    s.on_pointer(at(PointerKind::Motion, 30, 30));
    assert!(s.paint_job(0).is_none());
    s.on_frame(5);
    let job = s.paint_job(0).unwrap();
    assert_eq!(job.cutout, Some((20, 20, 40, 40)));
    assert_eq!(job.background, DIM_BACKGROUND);
}

#[test]
fn hole_shows_the_screen() {
    let mut px = vec![1u8; 100 * 80 * 4];
    paint(&mut px, 100, 80, Some((20, 20, 50, 40)), 0xff112233, DIM_BACKGROUND);
    let pixel = |x: usize, y: usize| px[(y * 100 + x) * 4..(y * 100 + x) * 4 + 4].to_vec();
    assert_eq!(pixel(0, 0), vec![0, 0, 0, 0x99]);
    assert_eq!(pixel(45, 40), vec![0, 0, 0, 0]);
    assert_eq!(pixel(45, 20), vec![0x33, 0x22, 0x11, 0xff]);
}

#[test]
fn regions_are_read() {
    assert_eq!(parse_region("-10, 20 ,300,400"), Ok((-10, 20, 300, 400)));
    assert_eq!(parse_region("1,2,3"), Err(RegionError::Count));
    assert_eq!(parse_region("1,2,x,4"), Err(RegionError::Component));
    assert_eq!(parse_region("1,2,0,4"), Err(RegionError::Extent));
    assert_eq!(parse_region("99999999999,2,3,4"), Ok((1215752191, 2, 3, 4)));
    assert_eq!(parse_region("99999999999999999999,2,3,4"), Err(RegionError::Component));
    assert_eq!(parse_region(""), Err(RegionError::Component));
}

#[test]
fn scaled_parts_lie_on_the_canvas() {
    let outs = vec![
        ScaledOutput { name: "a".to_string(), pos: (0, 0), size: (100, 50), scale: 1 },
        ScaledOutput { name: "b".to_string(), pos: (100, 0), size: (100, 50), scale: 2 },
    ];
    assert_eq!(target_scale(&outs, &rect(90, 0, 110, 10)), 2);
    assert_eq!(target_scale(&outs, &rect(0, 0, 10, 10)), 1);
    let parts = scaled_region_parts(&outs, (90, 0, 20, 10));
    assert_eq!(parts.len(), 2);
    assert_eq!(parts[0].src_crop, CropRect { x: 90, y: 0, w: 10, h: 10 });
    assert_eq!((parts[0].dst_pos, parts[0].dst_size), ((0, 0), (20, 20)));
    assert_eq!(parts[1].src_crop, CropRect { x: 0, y: 0, w: 20, h: 20 });
    assert_eq!((parts[1].dst_pos, parts[1].dst_size), ((20, 0), (20, 20)));
}

#[test]
fn one_frame_runs_through_a_pipeline() {
    assert!(frame_pipeline_str("/tmp/a.png").contains("/tmp/a.png"));
    assert_eq!(bus_step(0, None), BusStep::Wait(10_000));
    assert_eq!(bus_step(5, Some(BusEvent::Finished)), BusStep::Succeed);
    assert_eq!(bus_step(5, Some(BusEvent::Failed)), BusStep::Fail);
    assert_eq!(bus_step(FRAME_LIMIT_NS, None), BusStep::GiveUp);
}

fn selected() -> SelectionOutcome {
    SelectionOutcome::Selected(Selection {
        output_name: "DP-1".to_string(),
        output_logical_pos: (0, 0),
        output_logical_size: (100, 50),
        region_logical: (10, 20, 30, 40),
        scale: 2,
    })
}

#[test]
fn command_line_recording_is_planned() {
    let crop = CropRect { x: 20, y: 40, w: 60, h: 80 };
    assert_eq!(plan_run(false, &selected()), RunPlan::Capture(Some(crop)));
    assert_eq!(plan_run(true, &selected()), RunPlan::Capture(None));
    assert_eq!(plan_run(false, &SelectionOutcome::Cancelled), RunPlan::Leave);
    assert_eq!(plan_run(false, &SelectionOutcome::Failed), RunPlan::Fail);
    assert_eq!(stop_rule(Some(3)), StopRule::After(3));
    assert_eq!(stop_rule(None), StopRule::OnInterrupt);
    let window = ScreencopyTarget::Toplevel { identifier: "a".to_string() };
    assert_eq!(target_crop(&window, Some(crop)), None);
    let screen = ScreencopyTarget::Output { output_name: "a".to_string() };
    assert_eq!(target_crop(&screen, Some(crop)), Some(crop));
}

#[test]
fn lost_formats_are_told() {
    let m = loss_message(&FrameSource::Stream { name: "DP-1".to_string() }, FormatLoss::TimedOut);
    assert!(m.contains("DP-1"));
    assert_ne!(
        loss_message(&FrameSource::ScreenCast { gif: true }, FormatLoss::Dropped),
        loss_message(&FrameSource::ScreenCast { gif: false }, FormatLoss::Dropped)
    );
}
