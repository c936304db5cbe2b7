//! The thumbnail fallback chain over shell snapshots.
use ghost_meta::thumbnail::{
    detect_thumbnail_alpha, read_seriko_use_self_alpha, resolve_thumbnail, AlphaMode,
    ShellSnapshot, ThumbnailKind,
};

fn shell(listing: Option<Vec<&str>>, thumbnail_exists: bool) -> ShellSnapshot {
    ShellSnapshot {
        master_path: "root/shell/master".to_string(),
        listing: listing.map(|names| names.into_iter().map(|n| n.to_string()).collect()),
        descript_bytes: None,
        thumbnail_path: "root/thumbnail.png".to_string(),
        thumbnail_exists,
        thumbnail_bytes: None,
    }
}

fn rgba_png_bytes() -> Vec<u8> {
    let img: image::RgbaImage = image::ImageBuffer::from_pixel(1, 1, image::Rgba([0u8, 0, 0, 128]));
    let mut buf: Vec<u8> = Vec::new();
    img.write_to(&mut std::io::Cursor::new(&mut buf), image::ImageFormat::Png).unwrap();
    buf
}

fn rgb_png_bytes() -> Vec<u8> {
    let img: image::RgbImage = image::ImageBuffer::from_pixel(1, 1, image::Rgb([255u8, 0, 0]));
    let mut buf: Vec<u8> = Vec::new();
    img.write_to(&mut std::io::Cursor::new(&mut buf), image::ImageFormat::Png).unwrap();
    buf
}

#[test]
fn missing_shell_master_yields_none() {
    let result = resolve_thumbnail(&shell(None, false));
    assert!(result.is_none());
}

#[test]
fn no_surface_and_no_thumbnail_yields_none() {
    let result = resolve_thumbnail(&shell(Some(vec![]), false));
    assert!(result.is_none());
}

#[test]
fn surface0_png_is_found() {
    let info = resolve_thumbnail(&shell(Some(vec!["surface0.png"]), false)).unwrap();
    assert_eq!(info.path, "root/shell/master/surface0.png");
    assert_eq!(info.kind, ThumbnailKind::Surface);
}

#[test]
fn surface0_apng_beats_surface0_png() {
    let info = resolve_thumbnail(&shell(Some(vec!["surface0.apng", "surface0.png"]), false))
        .unwrap();
    assert_eq!(info.path, "root/shell/master/surface0.apng");
}

#[test]
fn apng_wins_whatever_the_enumeration_order() {
    let info = resolve_thumbnail(&shell(Some(vec!["surface0.png", "surface0.apng"]), false))
        .unwrap();
    assert_eq!(info.path, "root/shell/master/surface0.apng");
}

#[test]
fn lexicographically_first_surface_wins() {
    // '.' sorts before '0', so surface0.png precedes surface00.png
    let info = resolve_thumbnail(
        &shell(Some(vec!["surface00.png", "surface0.png", "surface000.png"]), false),
    ).unwrap();
    assert_eq!(info.path, "root/shell/master/surface0.png");
}

#[test]
fn thumbnail_png_is_the_fallback() {
    let info = resolve_thumbnail(&shell(Some(vec![]), true)).unwrap();
    assert_eq!(info.path, "root/thumbnail.png");
    assert_eq!(info.kind, ThumbnailKind::Thumbnail);
}

#[test]
fn surface_beats_thumbnail_png() {
    let info = resolve_thumbnail(&shell(Some(vec!["surface0.png"]), true)).unwrap();
    assert_eq!(info.path, "root/shell/master/surface0.png");
    assert_eq!(info.kind, ThumbnailKind::Surface);
}

#[test]
fn seriko_use_self_alpha_one_turns_self_alpha_on() {
    let mut s = shell(Some(vec!["surface0.png"]), false);
    s.descript_bytes = Some(b"charset,UTF-8\nseriko.use_self_alpha,1\n".to_vec());
    let info = resolve_thumbnail(&s).unwrap();
    assert_eq!(info.alpha, AlphaMode::SelfAlpha);
}

#[test]
fn seriko_use_self_alpha_zero_stays_key_color() {
    let mut s = shell(Some(vec!["surface0.png"]), false);
    s.descript_bytes = Some(b"charset,UTF-8\nseriko.use_self_alpha,0\n".to_vec());
    let info = resolve_thumbnail(&s).unwrap();
    assert_eq!(info.alpha, AlphaMode::KeyColor);
}

#[test]
fn missing_seriko_field_stays_key_color() {
    let mut s = shell(Some(vec!["surface0.png"]), false);
    s.descript_bytes = Some(b"charset,UTF-8\n".to_vec());
    let info = resolve_thumbnail(&s).unwrap();
    assert_eq!(info.alpha, AlphaMode::KeyColor);
}

#[test]
fn unreadable_shell_descriptor_stays_key_color() {
    assert_eq!(read_seriko_use_self_alpha(&None), AlphaMode::KeyColor);
}

#[test]
fn surface_png_does_not_match() {
    // no zero at all
    let result = resolve_thumbnail(&shell(Some(vec!["surface.png"]), false));
    assert!(result.is_none());
}

#[test]
fn surface1_png_does_not_match() {
    // the run after the prefix does not start with a zero
    let result = resolve_thumbnail(&shell(Some(vec!["surface1.png"]), false));
    assert!(result.is_none());
}

#[test]
fn surface0x_png_does_not_match() {
    // what follows the zeros is neither of the two extensions
    let result = resolve_thumbnail(&shell(Some(vec!["surface0x.png"]), false));
    assert!(result.is_none());
}

#[test]
fn filenames_match_case_insensitively() {
    let info = resolve_thumbnail(&shell(Some(vec!["Surface0.PNG"]), false)).unwrap();
    assert_eq!(info.path, "root/shell/master/Surface0.PNG");
}

#[test]
fn rgba_thumbnail_reports_self_alpha() {
    assert_eq!(detect_thumbnail_alpha(&Some(rgba_png_bytes())), AlphaMode::SelfAlpha);
}

#[test]
fn rgb_thumbnail_reports_key_color() {
    assert_eq!(detect_thumbnail_alpha(&Some(rgb_png_bytes())), AlphaMode::KeyColor);
}

#[test]
fn unavailable_thumbnail_bytes_report_key_color() {
    // header inspection unavailable: the safe default is the key colour
    let mut s = shell(Some(vec![]), true);
    s.thumbnail_bytes = None;
    let info = resolve_thumbnail(&s).unwrap();
    assert_eq!(info.path, "root/thumbnail.png");
    assert_eq!(info.alpha, AlphaMode::KeyColor);
}

#[test]
fn rgba_thumbnail_resolves_with_self_alpha() {
    let mut s = shell(None, true);
    s.thumbnail_bytes = Some(rgba_png_bytes());
    let info = resolve_thumbnail(&s).unwrap();
    assert_eq!(info.kind, ThumbnailKind::Thumbnail);
    assert_eq!(info.alpha, AlphaMode::SelfAlpha);
}
