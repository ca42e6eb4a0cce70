use mtklogo::image::{rgba_to_bgra, strip_alpha, u32be_to_u32le};
use mtklogo::{ColorMode, Endian};

/// One pixel: R, G, B, A clearly distinguishable.
fn one_pixel() -> Vec<u8> {
    vec![0x11, 0x22, 0x33, 0x44]
}

#[test]
fn bgra_big_swaps_channel_bytes() {
    let device = rgba_to_bgra(&one_pixel(), 1, 1, Endian::Big).unwrap();
    assert_eq!(device, vec![0x33, 0x22, 0x11, 0x44]);
}

#[test]
fn bgra_little_reverses_the_swapped_word() {
    let device = rgba_to_bgra(&one_pixel(), 1, 1, Endian::Little).unwrap();
    assert_eq!(device, vec![0x44, 0x11, 0x22, 0x33]);
}

#[test]
fn u32be_to_u32le_applies_the_same_transform() {
    let a = u32be_to_u32le(&one_pixel(), 1).unwrap();
    let b = rgba_to_bgra(&one_pixel(), 1, 1, Endian::Little).unwrap();
    assert_eq!(a, b);
}

#[test]
fn conversions_reject_short_buffers() {
    assert!(rgba_to_bgra(&[0x11, 0x22], 1, 1, Endian::Big).is_err());
    assert!(u32be_to_u32le(&[0x11, 0x22], 1).is_err());
}

/// A raster with varied channel values.
fn raster(w: u32, h: u32) -> Vec<u8> {
    let mut rgba = Vec::new();
    for y in 0..h {
        for x in 0..w {
            rgba.push((x * 31 + y) as u8);
            rgba.push((y * 17 + x) as u8);
            rgba.push((x ^ y) as u8);
            rgba.push((255 - x - y) as u8);
        }
    }
    rgba
}

#[test]
fn lossless_modes_round_trip() {
    let (w, h) = (8u32, 4u32);
    let pivot = raster(w, h);
    let modes = [
        ColorMode::Rgba(Endian::Big),
        ColorMode::Rgba(Endian::Little),
        ColorMode::Bgra(Endian::Big),
        ColorMode::Bgra(Endian::Little),
    ];
    for mode in modes {
        let device = mode.rgba_to_device(&pivot, w, h).unwrap();
        let back = mode.device_to_rgba(&device, w, h).unwrap();
        assert_eq!(back, pivot);
    }
}

#[test]
fn rgb565_round_trip_masks_low_bits() {
    let (w, h) = (8u32, 4u32);
    let pivot = raster(w, h);
    for endian in [Endian::Big, Endian::Little] {
        let mode = ColorMode::Rgb565(endian);
        let device = mode.rgba_to_device(&pivot, w, h).unwrap();
        assert_eq!(device.len(), pivot.len() / 2);
        let back = mode.device_to_rgba(&device, w, h).unwrap();
        assert_eq!(back.len(), pivot.len());
        for p in 0..(w * h) as usize {
            assert_eq!(back[4 * p], pivot[4 * p] & 0xF8);
            assert_eq!(back[4 * p + 1], pivot[4 * p + 1] & 0xFC);
            assert_eq!(back[4 * p + 2], pivot[4 * p + 2] & 0xF8);
            assert_eq!(back[4 * p + 3], 0xFF);
        }
    }
}

#[test]
fn rgba_big_is_an_identity_copy() {
    let mode = ColorMode::Rgba(Endian::Big);
    let pivot = raster(4, 4);
    assert_eq!(mode.rgba_to_device(&pivot, 4, 4).unwrap(), pivot);
    assert_eq!(mode.device_to_rgba(&pivot, 4, 4).unwrap(), pivot);
}

#[test]
fn strip_alpha_forces_opacity() {
    let mut data = vec![1, 2, 3, 4, 5, 6, 7, 8, 9];
    strip_alpha(&mut data);
    assert_eq!(data, vec![1, 2, 3, 0xFF, 5, 6, 7, 0xFF, 9]);
}

#[test]
fn png_decode_rejects_garbage() {
    assert_eq!(
        mtklogo::image::png_to_rgba(&[1, 2, 3, 4]),
        Err(mtklogo::errors::ImageError::DecodeFailed)
    );
}

#[test]
fn png_encode_rejects_empty_dimensions() {
    assert_eq!(
        mtklogo::image::rgba_to_png(&[], 0, 0),
        Err(mtklogo::errors::ImageError::EncodeFailed)
    );
}

#[test]
fn write_png_rejects_short_device_buffers() {
    let mode = ColorMode::Bgra(Endian::Big);
    assert_eq!(
        mode.write_png(&[1, 2, 3], 2, 2),
        Err(mtklogo::errors::ImageError::MalformedPixelData)
    );
}

#[test]
fn write_png_rejects_buffers_not_filling_the_dimensions() {
    // the identity mode accepts any buffer, but the encoder demands an
    // exact fit.
    let mode = ColorMode::Rgba(Endian::Big);
    assert_eq!(
        mode.write_png(&[1, 2, 3, 4, 5], 1, 1),
        Err(mtklogo::errors::ImageError::EncodeFailed)
    );
}

#[test]
fn write_png_rejects_dimensions_beyond_the_format() {
    let mode = ColorMode::Rgba(Endian::Big);
    assert_eq!(
        mode.write_png(&[], 0x8000_0000, 0x8000_0000),
        Err(mtklogo::errors::ImageError::EncodeFailed)
    );
}

#[test]
fn png_survives_a_device_trip() {
    let mode = ColorMode::Rgba(Endian::Big);
    let (w, h) = (8u32, 8u32);
    let device = raster(w, h);
    let png = mode.write_png(&device, w, h).unwrap();
    let (device_again, ww, hh) = mode.read_png(&png).unwrap();
    assert_eq!((ww, hh), (w, h));
    assert_eq!(device_again, device);
}
