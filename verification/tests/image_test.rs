use byteorder::{BigEndian, LittleEndian, ReadBytesExt};
use mtklogo::image::{rgb5652rgba, rgb565_to_rgba, rgba2rgb565, rgba_to_rgb565};
use mtklogo::Endian;

fn test_pair(color32: u32, color16: u16) {
    assert_eq!(rgba2rgb565(color32), color16);
    // of course, we'll loose a few bits, thus the mask... + alpha.
    assert_eq!(rgb5652rgba(color16), color32 & 0xF8FCF800 | 0xFF);
}

#[test]
fn test_i_do_not_mess_up_bitwise_ops() {
    // White...
    test_pair(0xFFFFFF00, 0xFFFF);
    // Red...
    test_pair(0xFF000000, 0xF800);
    // Green...
    test_pair(0x00FF0000, 0x07E0);
    // Blue...
    test_pair(0x0000FF00, 0x001F);
}

#[test]
fn test_i_do_not_mess_up_bigendian() {
    // red in rgb565 model.
    let color16 = [0xF8 as u8, 0x00];
    assert_eq!(0xF8 as u8, color16[0]);
    assert_eq!(0x00 as u8, color16[1]);
    assert_eq!(0xF800 as u16, (&color16 as &[u8]).read_u16::<BigEndian>().unwrap());
    // convert it using writers
    let converted = rgb565_to_rgba(&color16, 1, 1, Endian::Big).unwrap();
    // red in rgba model full opacity.
    assert_eq!(0xF80000FF as u32, (&converted as &[u8]).read_u32::<BigEndian>().unwrap());
}

#[test]
fn test_i_do_not_mess_up_littleendian() {
    // red in rgb565 model, little endian.
    let color16 = [0x00, 0xF8 as u8];
    assert_eq!(0x00 as u8, color16[0]);
    assert_eq!(0xF8 as u8, color16[1]);
    assert_eq!(0xF800 as u16, (&color16 as &[u8]).read_u16::<LittleEndian>().unwrap());
    // convert it using writers
    let converted = rgb565_to_rgba(&color16, 1, 1, Endian::Little).unwrap();
    // red in rgba model full opacity (rgba is a 'pivot' format, always in BigEndian).
    assert_eq!(0xF80000FF as u32, (&converted as &[u8]).read_u32::<BigEndian>().unwrap());
}

/// Compares rasters pixel for pixel, omitting a few bits specified by the mask.
fn compare_rasters(a: &[u8], b: &[u8], pixels: usize, mask: u32) {
    let mut ra: &[u8] = a;
    let mut rb: &[u8] = b;
    for _ in 0..pixels {
        let before = ra.read_u32::<BigEndian>().unwrap();
        let after = rb.read_u32::<BigEndian>().unwrap();
        assert_eq!(before & mask, after & mask);
    }
}

/// A small synthetic RGBA raster covering many channel values.
fn sample_raster(w: u32, h: u32) -> Vec<u8> {
    let mut rgba = Vec::new();
    for y in 0..h {
        for x in 0..w {
            rgba.push((x * 7 + y) as u8);
            rgba.push((y * 13 + x) as u8);
            rgba.push((x * y + 3) as u8);
            rgba.push((x + y * 5) as u8);
        }
    }
    rgba
}

fn dither_one_endian(endian: Endian) {
    let (w, h) = (24, 16);
    let rgba = sample_raster(w, h);
    // encodes it as rgb565
    let rgba565 = rgba_to_rgb565(&rgba, w, h, endian).unwrap();
    // It must be halved in size.
    assert_eq!(rgba.len() / 2, rgba565.len());
    // encodes it again as rgb
    let rgb_again = rgb565_to_rgba(&rgba565, w, h, endian).unwrap();
    assert_eq!(rgb_again.len(), rgba.len());
    // let's check that we have the same images but with a little degradation...
    compare_rasters(&rgba, &rgb_again, (w * h) as usize, 0xF8FCF800);
}

#[test]
fn dither_rgb565() {
    // It should dither the same for big or little endian...
    dither_one_endian(Endian::Big);
    dither_one_endian(Endian::Little);
}
