use mtklogo::image::{png_to_rgba, rgba_to_png};
use mtklogo::z_lib_flate2::{deflate, inflate};
use mtklogo::{same_bytes, LogoImage};

/// A synthetic payload with enough structure to compress.
fn sample_payload(len: usize) -> Vec<u8> {
    let mut data = Vec::with_capacity(len);
    for i in 0..len {
        data.push(((i / 7) % 251) as u8);
    }
    data
}

fn sample_image() -> LogoImage {
    let blob1 = deflate(&sample_payload(4096)).unwrap();
    let blob2 = deflate(&sample_payload(2048)).unwrap();
    LogoImage::new_blobs(vec![blob1, blob2])
}

/// We just test that we can read and write (serialize) a well crafted logo image file.
#[test]
fn can_explode() {
    let expected_images: usize = 2;
    let sample = sample_image();
    assert_eq!(sample.blobs.len(), expected_images);
    assert_eq!(sample.table.logo_count, expected_images as u32);
    assert_eq!(sample.table.offsets.len(), expected_images);
    // I can re-assemble without crashing
    let mut writer = Vec::<u8>::with_capacity(2000000);
    sample.write(&mut writer);
}

/// We check that compressing/decompressing the same data leads to 'equivalent' payloads.
#[test]
fn zlib_is_quite_symetric() {
    // Let's take some already compressed data.
    let blob1 = deflate(&sample_payload(8192)).unwrap();
    // decompresses it
    let decompressed = inflate(&blob1).unwrap();
    let recompressed = deflate(&decompressed).unwrap();
    println!("{} - {}", blob1.len(), recompressed.len());
    // Since the compressor is deterministic, it must be the exact same bytes!
    assert!(same_bytes(&blob1, &recompressed));
}

/// The other compression backend also round-trips its own streams.
#[test]
fn libflate_round_trip() {
    let data = sample_payload(4096);
    let compressed = mtklogo::z_lib_libflate::deflate(&data).unwrap();
    let back = mtklogo::z_lib_libflate::inflate(&compressed).unwrap();
    assert_eq!(data, back);
}

/// Each backend can read the stream the other wrote.
#[test]
fn zlib_backends_agree() {
    let data = sample_payload(4096);
    let a = mtklogo::z_lib_flate2::deflate(&data).unwrap();
    let b = mtklogo::z_lib_libflate::deflate(&data).unwrap();
    assert_eq!(mtklogo::z_lib_libflate::inflate(&a).unwrap(), data);
    assert_eq!(mtklogo::z_lib_flate2::inflate(&b).unwrap(), data);
}

/// Truncated garbage is not a zlib stream.
#[test]
fn inflate_rejects_garbage() {
    assert!(inflate(&[0x01, 0x02, 0x03]).is_err());
}

/// We check that converting from raster to PNG back and forth does not change a single bit!
#[test]
fn png_is_not_lossy() {
    // a full-size synthetic raster.
    let (w, h) = (720u32, 1080u32);
    let mut raster = Vec::with_capacity((w * h * 4) as usize);
    for y in 0..h {
        for x in 0..w {
            raster.push((x % 256) as u8);
            raster.push((y % 256) as u8);
            raster.push(((x + y) % 256) as u8);
            raster.push(((x * y) % 256) as u8);
        }
    }
    // saves it as a PNG
    println!("SAVE...");
    let png_data = rgba_to_png(&raster, w, h).unwrap();

    // converts it one more time to raster!
    let (raster_again, ww, hh) = png_to_rgba(&png_data).unwrap();
    assert_eq!(w, ww);
    assert_eq!(h, hh);

    // Hopefully: decode(encode(x)) = x...
    assert!(same_bytes(&raster, &raster_again));
}
