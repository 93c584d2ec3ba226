use cosmic_capture::capture::screencopy::{crop_rgba, packed_rows, CapturedFrame, CropOutside};
use cosmic_capture::cli::CommonArgs;
use cosmic_capture::encode::gif::{rgba_pixels, Rgba};
use cosmic_capture::encode::video::CropRect;
use cosmic_capture::pipeline::debug::read_back;
use cosmic_capture::paths::FilePath;
use cosmic_capture::pipeline::screenshot::{
    cli_destination, encode_frame, resolve_crop, write_png, Destination, ScreenshotError,
};

fn padded() -> CapturedFrame {
    // Two rows of two pixels, each with four bytes of padding.
    CapturedFrame { pixels: (0u8..24).collect(), width: 2, height: 2, stride: 12 }
}

fn decode(file: &[u8]) -> (u32, u32, Vec<u8>) {
    let decoder = png::Decoder::new(std::io::Cursor::new(file));
    let mut reader = decoder.read_info().unwrap();
    let mut buf = vec![0u8; reader.output_buffer_size().unwrap()];
    let info = reader.next_frame(&mut buf).unwrap();
    buf.truncate(info.buffer_size());
    (info.width, info.height, buf)
}

#[test]
fn crop_takes_the_rows() {
    let f = padded();
    assert_eq!(crop_rgba(&f, 1, 0, 1, 2).unwrap(), vec![4, 5, 6, 7, 16, 17, 18, 19]);
    assert_eq!(crop_rgba(&f, 0, 0, 2, 2).unwrap(), packed_rows(&f));
}

#[test]
fn crop_outside_is_refused() {
    let e = crop_rgba(&padded(), 1, 0, 2, 1).err().unwrap();
    assert_eq!(e, CropOutside { cx: 1, cy: 0, cw: 2, ch: 1, width: 2, height: 2 });
    assert_eq!(e.message(), "crop 1,0 2x1 doesn't fit in frame 2x2");
}

#[test]
fn whole_crop_is_clipped() {
    let c = CropRect { x: -5, y: 1, w: 100, h: 100 };
    let (pixels, w, h) = resolve_crop(&padded(), Some(c)).unwrap();
    assert_eq!((w, h), (2, 1));
    assert_eq!(pixels, vec![12, 13, 14, 15, 16, 17, 18, 19]);
}

#[test]
fn crop_off_the_first_edge_is_clipped() {
    let row: Vec<u8> = vec![1, 1, 1, 1, 2, 2, 2, 2, 3, 3, 3, 3, 4, 4, 4, 4];
    let f = CapturedFrame { pixels: row, width: 4, height: 1, stride: 16 };
    let c = CropRect { x: -1, y: 0, w: 2, h: 1 };
    assert_eq!(resolve_crop(&f, Some(c)).unwrap(), (vec![1, 1, 1, 1], 1, 1));
    let c = CropRect { x: 0, y: -1, w: 2, h: 2 };
    assert_eq!(resolve_crop(&f, Some(c)).unwrap(), (vec![1, 1, 1, 1, 2, 2, 2, 2], 2, 1));
    let c = CropRect { x: -2, y: 0, w: 2, h: 1 };
    assert_eq!(resolve_crop(&f, Some(c)).err().unwrap(), ScreenshotError::EmptyCrop);
}

#[test]
fn padding_is_left_out_without_a_crop() {
    let rows: Vec<u8> = vec![0, 1, 2, 3, 4, 5, 6, 7, 12, 13, 14, 15, 16, 17, 18, 19];
    assert_eq!(resolve_crop(&padded(), None).unwrap(), (rows.clone(), 2, 2));
    let file = encode_frame(&padded(), None).unwrap();
    assert_eq!(decode(&file), (2, 2, rows));
}

#[test]
fn empty_crop_is_an_error() {
    let c = CropRect { x: 2, y: 0, w: 4, h: 4 };
    let e = resolve_crop(&padded(), Some(c)).err().unwrap();
    assert_eq!(e, ScreenshotError::EmptyCrop);
    assert_eq!(e.message(), "crop is empty after clipping to output");
}

#[test]
fn image_file_holds_the_pixels() {
    let c = CropRect { x: 1, y: 0, w: 1, h: 2 };
    let file = encode_frame(&padded(), Some(c)).unwrap();
    assert_eq!(decode(&file), (1, 2, vec![4, 5, 6, 7, 16, 17, 18, 19]));
    let tight = CapturedFrame { pixels: (0u8..16).collect(), width: 2, height: 2, stride: 8 };
    let file = encode_frame(&tight, None).unwrap();
    assert_eq!(decode(&file), (2, 2, (0u8..16).collect()));
}

#[test]
fn image_errors() {
    let e = write_png(&[1, 2, 3, 4], 0, 1).err().unwrap();
    assert_eq!(e, ScreenshotError::Header);
    assert_eq!(e.message(), "png write_header");
    let e = write_png(&[1, 2, 3], 1, 1).err().unwrap();
    assert_eq!(e, ScreenshotError::ImageData);
    assert_eq!(e.message(), "png write_image_data");
    let torn = CapturedFrame { pixels: vec![0; 12], width: 2, height: 2, stride: 8 };
    assert_eq!(encode_frame(&torn, None).err().unwrap(), ScreenshotError::ImageData);
    let outside = CropOutside { cx: 0, cy: 0, cw: 3, ch: 1, width: 2, height: 2 };
    let e = ScreenshotError::CropOutside(outside);
    assert_eq!(e.message(), "crop 0,0 3x1 doesn't fit in frame 2x2");
}

#[test]
fn image_pixels_leave_the_padding_out() {
    let v = rgba_pixels(&padded().pixels, 2, 2, 12);
    assert_eq!(v.len(), 4);
    assert_eq!(v[0], Rgba { r: 0, g: 1, b: 2, a: 3 });
    assert_eq!(v[3], Rgba { r: 16, g: 17, b: 18, a: 19 });
}

#[test]
fn read_back_swaps_red_and_blue() {
    let out = read_back(&padded().pixels, 12, 2, 2);
    assert_eq!(out, vec![2, 1, 0, 3, 6, 5, 4, 7, 14, 13, 12, 15, 18, 17, 16, 19]);
    assert!(read_back(&[], 12, 2, 0).is_empty());
}

#[test]
fn command_line_screenshot_goes_where_it_is_told() {
    let d = cli_destination(CommonArgs { file: Some(FilePath::of_text("f")), notify: false, clipboard: true });
    assert!(matches!(d, Destination::Both(f) if *f.bytes == b"f"));
    let d = cli_destination(CommonArgs { file: None, notify: false, clipboard: true });
    assert!(matches!(d, Destination::Clipboard));
    let d = cli_destination(CommonArgs { file: Some(FilePath::of_text("f")), notify: false, clipboard: false });
    assert!(matches!(d, Destination::File(Some(f)) if *f.bytes == b"f"));
}
