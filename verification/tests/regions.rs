use cosmic_capture::capture::screencopy::CapturedFrame;
use cosmic_capture::encode::video::CropRect;
use cosmic_capture::gui::outputs::{
    border_crop, compute_region_parts, count_overlapping, crop_for_region, is_bounded,
    physical_size_of, region_output_and_crop, BgSource, OutputDescription, OutputInfo, OutputMode,
    Transform,
};
use cosmic_capture::gui::stitch::{can_hold, stitch_region_screenshot};
use cosmic_capture::gui::widget::rectangle_selection::Rect;
use cosmic_capture::scale::Ratio;
use std::sync::Arc;

fn rect(left: i32, top: i32, right: i32, bottom: i32) -> Rect {
    Rect { left, top, right, bottom }
}

fn described(modes: Vec<OutputMode>, transform: Transform, size: Option<(i32, i32)>) -> OutputDescription {
    OutputDescription {
        name: None,
        modes,
        transform,
        scale_factor: 2,
        logical_position: Some((0, 0)),
        logical_size: size,
    }
}

fn output(name: &str, pos: (i32, i32), logical: (i32, i32), physical: (i32, i32)) -> OutputInfo {
    let d = OutputDescription {
        name: Some(name.to_string()),
        modes: vec![OutputMode { dimensions: physical, current: true }],
        transform: Transform::Normal,
        scale_factor: 1,
        logical_position: Some(pos),
        logical_size: Some(logical),
    };
    OutputInfo::described(7, d, Some(BgSource::Color))
}

fn frame(w: u32, h: u32, value: u8) -> Arc<CapturedFrame> {
    Arc::new(CapturedFrame {
        pixels: vec![value; (w * h * 4) as usize],
        width: w,
        height: h,
        stride: w * 4,
    })
}

#[test]
fn crop_at_100_percent_is_identity() {
    let out = rect(2559, 0, 2559 + 3840, 1600);
    let c = crop_for_region(out, (3840, 1600), rect(2600, 100, 2700, 250)).unwrap();
    assert_eq!((c.x, c.y, c.w, c.h), (41, 100, 100, 150));
}

#[test]
fn crop_on_fractional_scale_uses_real_ratio() {
    let out = rect(0, 0, 1670, 1043);
    let c = crop_for_region(out, (1920, 1200), rect(0, 0, 1670, 1043)).unwrap();
    assert_eq!((c.x, c.y, c.w, c.h), (0, 0, 1920, 1200));
    let c = crop_for_region(out, (1920, 1200), rect(835, 0, 1670, 521)).unwrap();
    assert_eq!((c.x, c.w), (960, 960));
    assert_eq!((c.y, c.h), (0, 599));
}

#[test]
fn crop_clips_to_output_and_rejects_disjoint() {
    let out = rect(0, 160, 2560, 1600);
    let c = crop_for_region(out, (2560, 1440), rect(-50, 100, 100, 300)).unwrap();
    assert_eq!((c.x, c.y, c.w, c.h), (0, 0, 100, 140));
    assert!(crop_for_region(out, (2560, 1440), rect(3000, 0, 3100, 100)).is_none());
}

#[test]
fn adjacent_parts_on_fractional_output_tile_without_seam() {
    let out = rect(0, 0, 1670, 1043);
    let a = crop_for_region(out, (1920, 1200), rect(0, 0, 333, 100)).unwrap();
    let b = crop_for_region(out, (1920, 1200), rect(333, 0, 666, 100)).unwrap();
    assert_eq!(a.x + a.w as i32, b.x);
}

#[test]
fn crop_agrees_with_binary64_arithmetic() {
    let widths = [1u32, 3, 7, 640, 1366, 1670, 1707, 2259, 2560];
    let pixels = [1u32, 5, 1080, 1366, 1920, 2560, 3840];
    for &l in widths.iter() {
        for &p in pixels.iter() {
            let r = Ratio::new(p, l);
            let f = p as f64 / l as f64;
            for v in [0i64, 1, 2, 3, 17, 333, 835, 1043, 1669, -5, -333] {
                assert_eq!(r.scale(v), (v as f64 * f).round() as i128, "{p}/{l} at {v}");
            }
        }
    }
}

#[test]
fn parts_of_a_cut_region_tile_it() {
    let out = rect(0, 0, 1670, 1043);
    let size = (1920, 1200);
    let whole = crop_for_region(out, size, rect(10, 20, 900, 700)).unwrap();
    for at in [11, 333, 500, 899] {
        let a = crop_for_region(out, size, rect(10, 20, at, 700)).unwrap();
        let b = crop_for_region(out, size, rect(at, 20, 900, 700)).unwrap();
        assert_eq!((a.x, a.x + a.w as i32, a.w + b.w), (whole.x, b.x, whole.w));
        assert_eq!((a.y, a.h, b.y, b.h), (whole.y, whole.h, whole.y, whole.h));
    }
    for at in [21, 333, 500, 699] {
        let a = crop_for_region(out, size, rect(10, 20, 900, at)).unwrap();
        let b = crop_for_region(out, size, rect(10, at, 900, 700)).unwrap();
        assert_eq!((a.y, a.y + a.h as i32, a.h + b.h), (whole.y, b.y, whole.h));
        assert_eq!((a.x, a.w, b.x, b.w), (whole.x, whole.w, whole.x, whole.w));
    }
}

#[test]
fn larger_ratio_is_taken() {
    let a = Ratio::new(3, 2);
    let b = Ratio::new(5, 4);
    assert_eq!(a.max(b), a);
    assert_eq!(b.max(a), a);
    assert_eq!(Ratio::one().scale(41), 41);
    assert_eq!(Ratio::smallest().scale(1_000_000), 0);
    assert_eq!(Ratio::new(0, 9).scale(77), 0);
}

#[test]
fn crop_keeps_one_pixel() {
    let c = crop_for_region(rect(0, 0, 1000, 1000), (10, 10), rect(500, 500, 501, 501)).unwrap();
    assert_eq!((c.w, c.h), (1, 1));
}

#[test]
fn physical_size_follows_the_mode_and_the_transform() {
    let mode = |w, h, current| OutputMode { dimensions: (w, h), current };
    let d = described(vec![mode(640, 480, false), mode(1920, 1200, true)], Transform::Normal, None);
    assert_eq!(physical_size_of(&d), (1920, 1200));
    let d = described(vec![mode(1920, 1200, true)], Transform::_90, None);
    assert_eq!(physical_size_of(&d), (1200, 1920));
    let d = described(vec![mode(1920, 1200, true)], Transform::Flipped180, None);
    assert_eq!(physical_size_of(&d), (1920, 1200));
    let d = described(vec![], Transform::Flipped270, Some((800, 600)));
    assert_eq!(physical_size_of(&d), (1600, 1200));
    let d = described(vec![mode(0, 1200, true)], Transform::Normal, Some((-3, i32::MAX)));
    assert_eq!(physical_size_of(&d), (0, u32::MAX - 1));
}

#[test]
fn described_output_is_fresh() {
    let mut d = described(vec![], Transform::Normal, None);
    d.logical_position = None;
    let o = OutputInfo::described(31, d, None);
    assert_eq!(o.name, "output-31");
    assert_eq!(o.logical_pos, (0, 0));
    assert_eq!(o.logical_size, (0, 0));
    assert!(!o.freeze_done && o.toolbar_id.is_none() && o.frozen.is_none());
    assert!(o.is_placed());
    let far = output("DP-1", (i32::MAX, 0), (10, 10), (10, 10));
    assert!(!far.is_placed());
}

#[test]
fn region_across_two_outputs_has_two_parts() {
    let outs = vec![
        output("DP-1", (0, 0), (100, 100), (100, 100)),
        output("DP-2", (100, 0), (100, 100), (200, 200)),
    ];
    let region = rect(50, 10, 150, 60);
    assert_eq!(count_overlapping(&outs, &region), 2);
    let layout = compute_region_parts(&outs, &region).unwrap();
    assert_eq!((layout.canvas_w, layout.canvas_h), (200, 100));
    assert_eq!(layout.target_scale, Ratio::new(2, 1));
    assert_eq!(layout.parts.len(), 2);
    let a = &layout.parts[0];
    assert_eq!(a.output_name, "DP-1");
    assert_eq!(a.src_crop, CropRect { x: 50, y: 10, w: 50, h: 50 });
    assert_eq!((a.dst_pos, a.dst_size), ((0, 0), (100, 100)));
    let b = &layout.parts[1];
    assert_eq!(b.src_crop, CropRect { x: 0, y: 20, w: 100, h: 100 });
    assert_eq!((b.dst_pos, b.dst_size), ((100, 0), (100, 100)));
    assert_eq!(a.dst_pos.0 + a.dst_size.0, b.dst_pos.0);
    assert!(compute_region_parts(&outs, &rect(500, 500, 600, 600)).is_none());
    assert!(compute_region_parts(&outs, &rect(50, 10, 50, 60)).is_none());
}

#[test]
fn region_target_is_the_output_of_its_middle() {
    let outs = vec![
        output("DP-1", (0, 0), (100, 100), (100, 100)),
        output("DP-2", (100, 0), (100, 100), (200, 200)),
    ];
    let (name, crop) = region_output_and_crop(&outs, &rect(180, 60, 80, 20)).unwrap();
    assert_eq!(name, "DP-2");
    assert_eq!(crop, CropRect { x: 0, y: 40, w: 160, h: 80 });
    assert!(region_output_and_crop(&outs, &rect(300, 0, 400, 10)).is_none());
}

#[test]
fn bounds_of_a_selection() {
    assert!(is_bounded(&rect(0, 0, 10, 10)));
    assert!(!is_bounded(&rect(i32::MIN, 0, i32::MAX, 10)));
    assert!(!is_bounded(&rect(i32::MAX - 1, 0, i32::MAX, 10)));
}

#[test]
fn border_is_cut_off_a_screen() {
    assert_eq!(border_crop((1920, 1080)), Some(CropRect { x: 3, y: 3, w: 1914, h: 1074 }));
    assert_eq!(border_crop((7, 7)), Some(CropRect { x: 3, y: 3, w: 1, h: 1 }));
    assert_eq!(border_crop((6, 1080)), None);
}

#[test]
fn stitched_image_takes_each_output_by_its_density() {
    let mut outs = vec![
        output("DP-1", (0, 0), (2, 2), (2, 2)),
        output("DP-2", (2, 0), (2, 2), (4, 4)),
    ];
    outs[0].frozen = Some(frame(2, 2, 10));
    outs[1].frozen = Some(frame(4, 4, 20));
    let f = stitch_region_screenshot(&outs, &rect(1, 0, 3, 1)).unwrap();
    assert_eq!((f.width, f.height, f.stride), (4, 2, 16));
    let row: Vec<u8> = f.pixels[0..16].to_vec();
    assert_eq!(row, vec![10, 10, 10, 10, 10, 10, 10, 10, 20, 20, 20, 20, 20, 20, 20, 20]);
    assert_eq!(f.pixels[16..32].to_vec(), row);
    outs[0].frozen = None;
    let f = stitch_region_screenshot(&outs, &rect(1, 0, 3, 1)).unwrap();
    assert_eq!(f.pixels[0..4].to_vec(), vec![0, 0, 0, 0]);
    assert_eq!(f.pixels[8..12].to_vec(), vec![20, 20, 20, 20]);
    outs[1].frozen = None;
    assert!(stitch_region_screenshot(&outs, &rect(1, 0, 3, 1)).is_none());
}

#[test]
fn stitched_part_of_equal_size_is_copied() {
    let mut outs = vec![output("DP-1", (0, 0), (3, 2), (3, 2))];
    let pixels: Vec<u8> = (0u8..24).collect();
    outs[0].frozen = Some(Arc::new(CapturedFrame { pixels: pixels.clone(), width: 3, height: 2, stride: 12 }));
    let f = stitch_region_screenshot(&outs, &rect(0, 0, 3, 2)).unwrap();
    assert_eq!(f.pixels, pixels);
}

#[test]
fn canvas_that_cannot_be_held() {
    assert!(can_hold(3840, 2160));
    assert!(!can_hold(u32::MAX, 1));
}
