use mtklogo::config::{Format, Profile, ProfileError};
use mtklogo::errors::{NamingError, PixelError};
use mtklogo::image::infer_height;
use mtklogo::{ColorMode, ContentType, Endian, FileInfo};

fn all_modes() -> Vec<ColorMode> {
    ColorMode::enumerate()
}

#[test]
fn mode_names_round_trip() {
    for mode in all_modes() {
        let name = mode.name();
        assert_eq!(ColorMode::by_name(name.as_str()), Ok(mode));
    }
}

#[test]
fn mode_names_are_canonical() {
    let names: Vec<String> = all_modes().iter().map(|m| m.name()).collect();
    let expected = vec![
        String::from("rgbabe"),
        String::from("rgbale"),
        String::from("bgrabe"),
        String::from("bgrale"),
        String::from("rgb565be"),
        String::from("rgb565le"),
    ];
    assert_eq!(names, expected);
}

#[test]
fn by_name_rejects_unknown_token() {
    assert_eq!(ColorMode::by_name("argb"), Err(PixelError::UnknownColorMode));
    assert_eq!(ColorMode::by_name(""), Err(PixelError::UnknownColorMode));
}

#[test]
fn bytes_per_pixel_by_mode() {
    assert_eq!(ColorMode::Rgba(Endian::Big).bytes_per_pixel(), 4);
    assert_eq!(ColorMode::Bgra(Endian::Little).bytes_per_pixel(), 4);
    assert_eq!(ColorMode::Rgb565(Endian::Big).bytes_per_pixel(), 2);
}

#[test]
fn filenames_round_trip_for_every_mode() {
    for mode in all_modes() {
        for id in [0usize, 7, 42, 999, 1234] {
            let info = FileInfo { id, content_type: ContentType::PNG(mode) };
            let name = info.filename();
            assert_eq!(FileInfo::from_name(name.as_str()), Ok(info));
        }
    }
}

#[test]
fn filenames_round_trip_for_raw() {
    let info = FileInfo { id: 3, content_type: ContentType::Z };
    let name = info.filename();
    assert_eq!(name, "logo_003_raw.z");
    assert_eq!(FileInfo::from_name(name.as_str()), Ok(info));
}

#[test]
fn filename_is_zero_padded() {
    let info = FileInfo { id: 7, content_type: ContentType::PNG(ColorMode::Rgba(Endian::Big)) };
    assert_eq!(info.filename(), "logo_007_rgbabe.png");
}

#[test]
fn from_info_picks_the_content_type() {
    let mode = ColorMode::Bgra(Endian::Little);
    let zipped = FileInfo::from_info(5, true, &mode);
    assert_eq!(zipped.content_type, ContentType::Z);
    let image = FileInfo::from_info(5, false, &mode);
    assert_eq!(image.content_type, ContentType::PNG(mode));
}

#[test]
fn from_name_rejects_missing_id_token() {
    assert_eq!(FileInfo::from_name("logo.png"), Err(NamingError::MissingIdToken));
}

#[test]
fn from_name_rejects_bad_id_token() {
    assert_eq!(FileInfo::from_name("logo_abc_raw.z"), Err(NamingError::BadIdToken));
    assert_eq!(FileInfo::from_name("logo__raw.z"), Err(NamingError::BadIdToken));
}

#[test]
fn from_name_rejects_unknown_suffix() {
    assert_eq!(FileInfo::from_name("logo_003_other.gif"), Err(NamingError::UnknownSuffix));
}

#[test]
fn content_type_from_name_matches_suffixes() {
    assert_eq!(
        ContentType::from_name("a_1_rgb565le.png"),
        Some(ContentType::PNG(ColorMode::Rgb565(Endian::Little)))
    );
    assert_eq!(ContentType::from_name("a_1_raw.z"), Some(ContentType::Z));
    assert_eq!(ContentType::from_name("a_1_raw.gz"), None);
}

#[test]
fn height_inference_reports_exact_division_only() {
    let rgba = ColorMode::Rgba(Endian::Big);
    // 64 bytes at width 4, 4 bytes per pixel: height 4.
    assert_eq!(infer_height(&rgba, 64, 4), Some(4));
    // not a multiple of the row size: no match.
    assert_eq!(infer_height(&rgba, 65, 4), None);
    // fewer bytes than one row: height would be 0, no match.
    assert_eq!(infer_height(&rgba, 8, 4), None);
    // a zero width never matches.
    assert_eq!(infer_height(&rgba, 64, 0), None);
    // 2-byte mode halves the row size.
    assert_eq!(infer_height(&ColorMode::Rgb565(Endian::Big), 64, 4), Some(8));
}

fn sample_profile() -> Profile {
    Profile {
        name: String::from("default"),
        color_model: String::from("rgbabe"),
        alias: None,
        formats: vec![
            Format { w: 16, h: 8, t: Some(String::from("small")) },
            Format { w: 64, h: 32, t: None },
        ],
    }
}

#[test]
fn guess_format_finds_the_matching_geometry() {
    let p = sample_profile();
    // 16*8 pixels at 4 bytes per pixel.
    let f = p.guess_format(16 * 8 * 4, false).unwrap();
    assert_eq!((f.w, f.h), (16, 8));
    assert_eq!(f.t, Some(String::from("small")));
}

#[test]
fn guess_format_flips_on_request() {
    let p = sample_profile();
    let f = p.guess_format(16 * 8 * 4, true).unwrap();
    assert_eq!((f.w, f.h), (8, 16));
    assert_eq!(f.t, Some(String::from("flip(small)")));
}

#[test]
fn guess_format_rejects_unmatched_sizes() {
    let p = sample_profile();
    assert!(matches!(p.guess_format(12345, false), Err(ProfileError::NoMatchingFormat)));
}

#[test]
fn guess_format_rejects_unknown_color_model() {
    let p = sample_profile().with_color_model(String::from("sepia"));
    assert!(matches!(p.guess_format(512, false), Err(ProfileError::UnknownColorMode)));
}

#[test]
fn slot_order_sorts_stably_by_id() {
    let infos = vec![
        FileInfo { id: 2, content_type: ContentType::Z },
        FileInfo { id: 0, content_type: ContentType::PNG(ColorMode::Rgba(Endian::Big)) },
        FileInfo { id: 2, content_type: ContentType::PNG(ColorMode::Bgra(Endian::Little)) },
        FileInfo { id: 1, content_type: ContentType::Z },
    ];
    // ids 0, 1, then the two files with id 2 in their original order.
    assert_eq!(mtklogo::slot_order(&infos), vec![1, 3, 0, 2]);
    assert_eq!(mtklogo::slot_order(&Vec::new()), Vec::<usize>::new());
}

#[test]
fn format_flip_swaps_dimensions() {
    let f = Format { w: 3, h: 9, t: None };
    let g = f.flip();
    assert_eq!((g.w, g.h), (9, 3));
    assert_eq!(g.t, None);
}
