use cosmic_capture::notify;
use cosmic_capture::paths::{
    config_dir, config_dir_in, documents_file, documents_file_in, join, resolve, resolve_in,
    stamped_name, FilePath, Kind, LocalTime, NoHome,
};
use cosmic_capture::text;
use cosmic_capture::theme::{
    accent_argb, pack, palette_blue_argb, prefers_dark, Channels, ThemeColors,
};

fn some(s: &str) -> Option<FilePath> {
    Some(FilePath::of_text(s))
}

fn text_of(p: &FilePath) -> String {
    String::from_utf8(p.bytes.to_vec()).unwrap()
}

#[test]
fn names_join_like_paths() {
    assert_eq!(text_of(&join(&FilePath::of_text("/a"), "b")), "/a/b");
    assert_eq!(text_of(&join(&FilePath::of_text("/a/"), "b")), "/a/b");
    assert_eq!(text_of(&join(&FilePath::of_text(""), "b")), "b");
    assert_eq!(text_of(&join(&FilePath::of_text("/\u{e4}"), "\u{20ac}")), "/\u{e4}/\u{20ac}");
    assert_eq!(stamped_name("Capture", "now", "mp4"), "Capture-now.mp4");
}

#[test]
fn directories_keep_their_bytes() {
    let dir = vec![b'/', 0xff, 0x00, 0x80];
    let p = Some(FilePath::new(dir.clone()));
    let r = resolve_in(None, Kind::Screenshot, "png", p, None, None, "t").unwrap();
    assert_eq!(*r.path.bytes, [&dir[..], b"/Screenshots/Screenshot-t.png"].concat());
    assert_eq!(*r.create_dir.unwrap().bytes, [&dir[..], b"/Screenshots"].concat());
}

#[test]
fn users_file_wins() {
    let r = resolve_in(some("x.png"), Kind::Screenshot, "png", None, None, None, "t").unwrap();
    assert_eq!(text_of(&r.path), "x.png");
    assert!(r.create_dir.is_none());
}

#[test]
fn captures_go_to_their_directories() {
    let r = resolve_in(None, Kind::Screenshot, "png", some("/p"), some("/v"), some("/h"), "t").unwrap();
    assert_eq!(text_of(&r.path), "/p/Screenshots/Screenshot-t.png");
    assert_eq!(text_of(&r.create_dir.unwrap()), "/p/Screenshots");
    let r = resolve_in(None, Kind::Recording, "gif", some("/p"), some("/v"), some("/h"), "t").unwrap();
    assert_eq!(text_of(&r.path), "/v/Captures/Capture-t.gif");
    let r = resolve_in(None, Kind::Recording, "mp4", some("/p"), None, some("/h"), "t").unwrap();
    assert_eq!(text_of(&r.path), "/h/Captures/Capture-t.mp4");
}

#[test]
fn no_directory_is_an_error() {
    let e = resolve_in(None, Kind::Recording, "mp4", some("/p"), None, None, "t").err().unwrap();
    assert_eq!(e, NoHome);
    assert_eq!(e.message(), "could not locate home directory");
}

#[test]
fn kinds_have_names_of_their_own() {
    let a = resolve_in(None, Kind::Screenshot, "x", some("/d"), some("/d"), None, "t").unwrap().path;
    let b = resolve_in(None, Kind::Recording, "x", some("/d"), some("/d"), None, "t").unwrap().path;
    assert_ne!(a, b);
}

#[test]
fn real_clock_and_directories_are_used() {
    if let Ok(r) = resolve(None, Kind::Recording, "mp4") {
        let path = text_of(&r.path);
        let name = path.rsplit('/').next().unwrap().to_string();
        assert!(name.starts_with("Capture-") && name.ends_with(".mp4"));
        assert_eq!(name.len(), "Capture-2024-01-31_12-00-00.mp4".len());
        for (c, like) in name.chars().zip("Capture-2024-01-31_12-00-00.mp4".chars()).skip(8).take(19) {
            assert!(c == like || (c.is_ascii_digit() && like.is_ascii_digit()));
        }
        assert_eq!(format!("{}/{}", text_of(&r.create_dir.unwrap()), name), path);
    }
    if let Ok(r) = resolve(None, Kind::Screenshot, "png") {
        assert!(text_of(&r.path).contains("/Screenshots/Screenshot-"));
    }
    if let Some(d) = config_dir() {
        assert!(text_of(&d).ends_with("/cosmic-capture"));
    }
    if let Some(f) = documents_file() {
        let f = text_of(&f);
        assert!(f.contains("/Screenshot-") && f.ends_with(".png"));
    }
    let r = resolve(some("f"), Kind::Screenshot, "png").unwrap();
    assert_eq!(text_of(&r.path), "f");
}

#[test]
fn times_are_written_out() {
    let t = LocalTime { year: 2024, month: 1, day: 31, hour: 9, minute: 5, second: 0 };
    assert_eq!(t.stamp_text(), "2024-01-31_09-05-00");
    assert_eq!(LocalTime { year: 7, ..t }.stamp_text(), "0007-01-31_09-05-00");
    assert_eq!(LocalTime { year: -7, ..t }.stamp_text(), "-0007-01-31_09-05-00");
    assert_eq!(LocalTime { year: 12345, ..t }.stamp_text(), "+12345-01-31_09-05-00");
}

#[test]
fn settings_have_a_directory() {
    assert_eq!(config_dir_in(some("/c")), some("/c/cosmic-capture"));
    assert_eq!(config_dir_in(None), None);
}

#[test]
fn documents_take_screenshots() {
    assert_eq!(documents_file_in(some("/d"), "t"), some("/d/Screenshot-t.png"));
    assert_eq!(documents_file_in(None, "t"), None);
}

#[test]
fn notification_says_what_was_saved() {
    assert_eq!(notify::saved_summary("GIF"), "GIF saved");
    assert_eq!(notify::EXPIRE_TIMEOUT_MS, 5000);
}

#[test]
fn colours_are_packed() {
    let t = ThemeColors {
        accent: Channels { r: 0x12, g: 0x34, b: 0x56, a: 0x80 },
        blue: Channels { r: 1, g: 2, b: 3, a: 0 },
    };
    assert_eq!(accent_argb(&t), 0xff12_3456);
    assert_eq!(palette_blue_argb(&t), 0x0001_0203);
    assert_ne!(pack(&t.accent), pack(&t.blue));
    assert!(prefers_dark(None) && prefers_dark(Some(true)) && !prefers_dark(Some(false)));
}

#[test]
fn numbers_are_written_out() {
    let mut s = text::owned("n=");
    text::push_decimal(&mut s, 0);
    text::push_decimal(&mut s, 18_446_744_073_709_551_615);
    assert_eq!(s, "n=018446744073709551615");
    let mut s = String::new();
    text::push_two_digits(&mut s, 7);
    text::push_two_digits(&mut s, 123);
    assert_eq!(s, "07123");
    let mut s = String::new();
    text::push_hex(&mut s, 0xe200);
    assert_eq!(s, "0xe200");
    assert!(text::same("ä", "ä") && !text::same("a", "b") && !text::same("a", "ab"));
}
