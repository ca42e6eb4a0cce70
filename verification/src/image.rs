//! The pixel conversion engine.
//!
//! Every conversion routes through the pivot format: RGBA, four bytes per
//! pixel, channel order R,G,B,A, packed as one big-endian 32-bit word per
//! pixel. Device encodings differ from the pivot in channel order, bit
//! depth and byte order.
use vstd::prelude::*;

use crate::byteio::{
    lemma_u16_bytes_round_trip, lemma_u32_bytes_inverse, lemma_u32_bytes_round_trip, push_u16_be,
    push_u16_le, push_u32_be, push_u32_le, read_u16_be, read_u16_le, read_u32_be, read_u32_le,
    u16_be, u16_be_bytes, u16_le, u16_le_bytes, u32_be, u32_be_bytes, u32_le, u32_le_bytes,
};
use crate::errors::{ImageError, PixelError};
use crate::{ColorMode, Endian};

verus! {

/// Swaps the R and B byte positions of a pivot word, turning R,G,B,A into
/// B,G,R,A and back.
pub open spec fn swap_rb(c: u32) -> u32 {
    (((c & 0xFF000000) >> 16) | ((c & 0x0000FF00) << 16) | (c & 0x00FF00FF))
}

/// Packs a pivot word into 16-bit 5-6-5: the top five bits of R, six of G,
/// five of B; alpha is discarded.
pub open spec fn pack_rgb565(c: u32) -> u16 {
    ((((c & 0xF8000000) >> 16) | ((c & 0x00FC0000) >> 13) | ((c & 0x0000F800) >> 11)) as u16)
}

/// Expands a 5-6-5 word back to a pivot word; the channels keep their top
/// bits, the rest are zero, and alpha is forced fully opaque.
pub open spec fn unpack_rgb565(c: u16) -> u32 {
    ((((c & 0xF800) as u32) << 16) | (((c & 0x07E0) as u32) << 13) | (((c & 0x001F) as u32) << 11)
        | 0xFF)
}

/// The four bytes of a 32-bit word in the given byte order.
pub open spec fn word_bytes(c: u32, e: Endian) -> Seq<u8> {
    match e {
        Endian::Big => u32_be_bytes(c),
        Endian::Little => u32_le_bytes(c),
    }
}

/// The 32-bit word stored at pixel index `i` in the given byte order.
pub open spec fn word_at(s: Seq<u8>, i: int, e: Endian) -> u32 {
    match e {
        Endian::Big => u32_be(s.subrange(4 * i, 4 * i + 4)),
        Endian::Little => u32_le(s.subrange(4 * i, 4 * i + 4)),
    }
}

/// The two bytes of a 16-bit word in the given byte order.
pub open spec fn word16_bytes(c: u16, e: Endian) -> Seq<u8> {
    match e {
        Endian::Big => u16_be_bytes(c),
        Endian::Little => u16_le_bytes(c),
    }
}

/// The 16-bit word stored at pixel index `i` in the given byte order.
pub open spec fn word16_at(s: Seq<u8>, i: int, e: Endian) -> u16 {
    match e {
        Endian::Big => u16_be(s.subrange(2 * i, 2 * i + 2)),
        Endian::Little => u16_le(s.subrange(2 * i, 2 * i + 2)),
    }
}

/// The pivot word of pixel `i`: always big-endian.
pub open spec fn pivot_word(p: Seq<u8>, i: int) -> u32 {
    u32_be(p.subrange(4 * i, 4 * i + 4))
}

/// `n` pivot pixels with R and B swapped, re-emitted one word per pixel in
/// byte order `e`.
pub open spec fn spec_rgba_to_bgra(p: Seq<u8>, n: int, e: Endian) -> Seq<u8> {
    Seq::new((4 * n) as nat, |j: int| word_bytes(swap_rb(pivot_word(p, j / 4)), e)[j % 4])
}

/// `n` device words read in byte order `e`, R and B swapped back, re-emitted
/// as pivot pixels.
pub open spec fn spec_bgra_to_rgba(d: Seq<u8>, n: int, e: Endian) -> Seq<u8> {
    Seq::new((4 * n) as nat, |j: int| u32_be_bytes(swap_rb(word_at(d, j / 4, e)))[j % 4])
}

/// `n` pivot pixels packed to 5-6-5, emitted one 16-bit word per pixel in
/// byte order `e`.
pub open spec fn spec_rgba_to_rgb565(p: Seq<u8>, n: int, e: Endian) -> Seq<u8> {
    Seq::new((2 * n) as nat, |j: int| word16_bytes(pack_rgb565(pivot_word(p, j / 2)), e)[j % 2])
}

/// `n` 5-6-5 words read in byte order `e`, expanded to pivot pixels with
/// alpha forced opaque.
pub open spec fn spec_rgb565_to_rgba(d: Seq<u8>, n: int, e: Endian) -> Seq<u8> {
    Seq::new((4 * n) as nat, |j: int| u32_be_bytes(unpack_rgb565(word16_at(d, j / 4, e)))[j % 4])
}

/// Division facts for addressing 4-byte pixel words.
proof fn lemma_div4(i: int, k: int)
    requires
        0 <= i,
        0 <= k < 4,
    ensures
        (4 * i + k) / 4 == i,
        (4 * i + k) % 4 == k,
{
    vstd::arithmetic::div_mod::lemma_fundamental_div_mod_converse(4 * i + k, 4, i, k);
}

/// Division facts for addressing 2-byte pixel words.
proof fn lemma_div2(i: int, k: int)
    requires
        0 <= i,
        0 <= k < 2,
    ensures
        (2 * i + k) / 2 == i,
        (2 * i + k) % 2 == k,
{
    vstd::arithmetic::div_mod::lemma_fundamental_div_mod_converse(2 * i + k, 2, i, k);
}

/// Swaps the R and B bytes of a 32-bit RGBA word (making it BGRA), leaving G
/// and A in place.
pub fn rgba2bgra(color32: u32) -> (r: u32)
    ensures
        r == swap_rb(color32),
{
    let r = (color32 & 0xFF000000) >> 16;
    let b = (color32 & 0x0000FF00) << 16;
    let ga = color32 & 0x00FF00FF;
    r | b | ga
}

/// Packs a 32-bit RGBA word into 16-bit 5-6-5, dropping alpha.
pub fn rgba2rgb565(color32: u32) -> (r: u16)
    ensures
        r == pack_rgb565(color32),
{
    let r = ((color32 & 0xF8000000) >> 16) as u16;
    let g = ((color32 & 0x00FC0000) >> 13) as u16;
    let b = ((color32 & 0x0000F800) >> 11) as u16;
    proof {
        assert(((color32 & 0xF8000000) >> 16) < 0x10000 && ((color32 & 0x00FC0000) >> 13) < 0x10000
            && ((color32 & 0x0000F800) >> 11) < 0x10000 && ((((color32 & 0xF8000000) >> 16) as u16)
            | (((color32 & 0x00FC0000) >> 13) as u16) | (((color32 & 0x0000F800) >> 11) as u16))
            == pack_rgb565(color32)) by (bit_vector);
    }
    r | g | b
}

/// Expands a 16-bit 5-6-5 word to a 32-bit RGBA word with full opacity.
pub fn rgb5652rgba(color16: u16) -> (r: u32)
    ensures
        r == unpack_rgb565(color16),
{
    let r = ((color16 & 0xF800) as u32) << 16;
    let g = ((color16 & 0x07E0) as u32) << 13;
    let b = ((color16 & 0x001F) as u32) << 11;
    r | g | b | 0xFF
}

/// Reads `n` big-endian pivot words, swaps R and B in each, and emits each
/// result in byte order `e`.
fn convert_rgba_words(data: &[u8], n: usize, e: Endian) -> (r: Vec<u8>)
    requires
        4 * n <= data@.len(),
        data@.len() <= usize::MAX,
    ensures
        r@ == spec_rgba_to_bgra(data@, n as int, e),
{
    let mut out: Vec<u8> = Vec::with_capacity(4 * n);
    let mut i: usize = 0;
    proof {
        assert(out@ =~= spec_rgba_to_bgra(data@, 0, e));
    }
    while i < n
        invariant
            i <= n,
            4 * n <= data@.len(),
            data@.len() <= usize::MAX,
            out@ == spec_rgba_to_bgra(data@, i as int, e),
        decreases n - i,
    {
        let c = read_u32_be(data, 4 * i);
        let t = rgba2bgra(c);
        match e {
            Endian::Big => push_u32_be(&mut out, t),
            Endian::Little => push_u32_le(&mut out, t),
        }
        proof {
            assert forall|k: int| 0 <= k < 4 implies word_bytes(
                swap_rb(pivot_word(data@, (4 * i + k) / 4)),
                e,
            )[(4 * i + k) % 4] == word_bytes(t, e)[k] by {
                lemma_div4(i as int, k);
            }
            assert(out@ =~= spec_rgba_to_bgra(data@, i + 1, e));
        }
        i = i + 1;
    }
    out
}

/// Reads `n` device words in byte order `e`, swaps R and B in each, and
/// emits each result as a big-endian pivot word.
fn convert_bgra_words(data: &[u8], n: usize, e: Endian) -> (r: Vec<u8>)
    requires
        4 * n <= data@.len(),
        data@.len() <= usize::MAX,
    ensures
        r@ == spec_bgra_to_rgba(data@, n as int, e),
{
    let mut out: Vec<u8> = Vec::with_capacity(4 * n);
    let mut i: usize = 0;
    proof {
        assert(out@ =~= spec_bgra_to_rgba(data@, 0, e));
    }
    while i < n
        invariant
            i <= n,
            4 * n <= data@.len(),
            data@.len() <= usize::MAX,
            out@ == spec_bgra_to_rgba(data@, i as int, e),
        decreases n - i,
    {
        let c = match e {
            Endian::Big => read_u32_be(data, 4 * i),
            Endian::Little => read_u32_le(data, 4 * i),
        };
        let t = rgba2bgra(c);
        push_u32_be(&mut out, t);
        proof {
            assert forall|k: int| 0 <= k < 4 implies u32_be_bytes(
                swap_rb(word_at(data@, (4 * i + k) / 4, e)),
            )[(4 * i + k) % 4] == u32_be_bytes(t)[k] by {
                lemma_div4(i as int, k);
            }
            assert(out@ =~= spec_bgra_to_rgba(data@, i + 1, e));
        }
        i = i + 1;
    }
    out
}

/// Reads `n` big-endian pivot words, packs each to 5-6-5, and emits each
/// 16-bit result in byte order `e`.
fn convert_to_rgb565_words(data: &[u8], n: usize, e: Endian) -> (r: Vec<u8>)
    requires
        4 * n <= data@.len(),
        data@.len() <= usize::MAX,
    ensures
        r@ == spec_rgba_to_rgb565(data@, n as int, e),
{
    let mut out: Vec<u8> = Vec::with_capacity(2 * n);
    let mut i: usize = 0;
    proof {
        assert(out@ =~= spec_rgba_to_rgb565(data@, 0, e));
    }
    while i < n
        invariant
            i <= n,
            4 * n <= data@.len(),
            data@.len() <= usize::MAX,
            out@ == spec_rgba_to_rgb565(data@, i as int, e),
        decreases n - i,
    {
        let c = read_u32_be(data, 4 * i);
        let t = rgba2rgb565(c);
        match e {
            Endian::Big => push_u16_be(&mut out, t),
            Endian::Little => push_u16_le(&mut out, t),
        }
        proof {
            assert forall|k: int| 0 <= k < 2 implies word16_bytes(
                pack_rgb565(pivot_word(data@, (2 * i + k) / 2)),
                e,
            )[(2 * i + k) % 2] == word16_bytes(t, e)[k] by {
                lemma_div2(i as int, k);
            }
            assert(out@ =~= spec_rgba_to_rgb565(data@, i + 1, e));
        }
        i = i + 1;
    }
    out
}

/// Reads `n` 5-6-5 words in byte order `e`, expands each, and emits each
/// result as a big-endian pivot word.
fn convert_from_rgb565_words(data: &[u8], n: usize, e: Endian) -> (r: Vec<u8>)
    requires
        2 * n <= data@.len(),
        data@.len() <= usize::MAX,
    ensures
        r@ == spec_rgb565_to_rgba(data@, n as int, e),
{
    let mut out: Vec<u8> = Vec::new();
    let mut i: usize = 0;
    proof {
        assert(out@ =~= spec_rgb565_to_rgba(data@, 0, e));
    }
    while i < n
        invariant
            i <= n,
            2 * n <= data@.len(),
            data@.len() <= usize::MAX,
            out@ == spec_rgb565_to_rgba(data@, i as int, e),
        decreases n - i,
    {
        let c = match e {
            Endian::Big => read_u16_be(data, 2 * i),
            Endian::Little => read_u16_le(data, 2 * i),
        };
        let t = rgb5652rgba(c);
        push_u32_be(&mut out, t);
        proof {
            assert forall|k: int| 0 <= k < 4 implies u32_be_bytes(
                unpack_rgb565(word16_at(data@, (4 * i + k) / 4, e)),
            )[(4 * i + k) % 4] == u32_be_bytes(t)[k] by {
                lemma_div4(i as int, k);
            }
            assert(out@ =~= spec_rgb565_to_rgba(data@, i + 1, e));
        }
        i = i + 1;
    }
    out
}

/// Checks that a buffer of `data_len` bytes holds at least `w * h` pixel
/// words of `unit` bytes each, and hands back the pixel count.
fn checked_pixel_count(data_len: usize, w: u32, h: u32, unit: u64) -> (r: Option<usize>)
    requires
        1 <= unit <= 4,
    ensures
        r matches Some(n) ==> n == (w as int) * (h as int) && (unit as int) * (n as int)
            <= data_len as int,
        r is None ==> (unit as int) * ((w as int) * (h as int)) > data_len as int,
{
    proof {
        vstd::arithmetic::mul::lemma_mul_upper_bound(
            w as int,
            u32::MAX as int,
            h as int,
            u32::MAX as int,
        );
    }
    let pixels = (w as u64) * (h as u64);
    let q = (data_len as u64) / unit;
    proof {
        vstd::arithmetic::div_mod::lemma_fundamental_div_mod(data_len as int, unit as int);
        vstd::arithmetic::div_mod::lemma_mod_bound(data_len as int, unit as int);
        vstd::arithmetic::div_mod::lemma_div_nonincreasing(data_len as int, unit as int);
    }
    if q < pixels {
        proof {
            vstd::arithmetic::mul::lemma_mul_left_inequality(
                unit as int,
                q as int + 1,
                pixels as int,
            );
            vstd::arithmetic::mul::lemma_mul_is_distributive_add(unit as int, q as int, 1);
        }
        None
    } else {
        proof {
            vstd::arithmetic::mul::lemma_mul_left_inequality(unit as int, pixels as int, q as int);
        }
        Some(pixels as usize)
    }
}

/// Converts an RGBA pivot byte buffer to BGRA device words in the given
/// byte order. The buffer must hold at least `w * h` pivot pixels; a
/// longer buffer is deliberately accepted, its bytes past the last pixel
/// ignored.
pub fn rgba_to_bgra(data: &[u8], w: u32, h: u32, endian: Endian) -> (r: Result<Vec<u8>, PixelError>)
    ensures
        r matches Ok(v) ==> 4 * ((w as int) * (h as int)) <= data@.len() && v@ == spec_rgba_to_bgra(
            data@,
            (w as int) * (h as int),
            endian,
        ),
        r is Err ==> 4 * ((w as int) * (h as int)) > data@.len() && r == Err::<Vec<u8>, PixelError>(
            PixelError::MalformedPixelData,
        ),
{
    match checked_pixel_count(data.len(), w, h, 4) {
        None => Err(PixelError::MalformedPixelData),
        Some(n) => Ok(convert_rgba_words(data, n, endian)),
    }
}

/// Converts BGRA device words in the given byte order back to the RGBA
/// pivot. The buffer must hold at least `w * h` device words; a longer
/// buffer is deliberately accepted, its bytes past the last word ignored.
pub fn bgra_to_rgba(data: &[u8], w: u32, h: u32, endian: Endian) -> (r: Result<Vec<u8>, PixelError>)
    ensures
        r matches Ok(v) ==> 4 * ((w as int) * (h as int)) <= data@.len() && v@ == spec_bgra_to_rgba(
            data@,
            (w as int) * (h as int),
            endian,
        ),
        r is Err ==> 4 * ((w as int) * (h as int)) > data@.len() && r == Err::<Vec<u8>, PixelError>(
            PixelError::MalformedPixelData,
        ),
{
    match checked_pixel_count(data.len(), w, h, 4) {
        None => Err(PixelError::MalformedPixelData),
        Some(n) => Ok(convert_bgra_words(data, n, endian)),
    }
}

/// Applies the R/B swap to `words` big-endian 32-bit words and re-emits
/// them little-endian: the transform the `Rgba(Little)` mode stores. A
/// buffer longer than `words` words is deliberately accepted, its tail
/// ignored.
pub fn u32be_to_u32le(data: &[u8], words: usize) -> (r: Result<Vec<u8>, PixelError>)
    ensures
        r matches Ok(v) ==> 4 * (words as int) <= data@.len() && v@ == spec_rgba_to_bgra(
            data@,
            words as int,
            Endian::Little,
        ),
        r is Err ==> 4 * (words as int) > data@.len() && r == Err::<Vec<u8>, PixelError>(
            PixelError::MalformedPixelData,
        ),
{
    proof {
        vstd::arithmetic::div_mod::lemma_fundamental_div_mod(data@.len() as int, 4);
        vstd::arithmetic::div_mod::lemma_mod_bound(data@.len() as int, 4);
    }
    if data.len() / 4 < words {
        return Err(PixelError::MalformedPixelData);
    }
    Ok(convert_rgba_words(data, words, Endian::Little))
}

/// Converts an RGBA pivot byte buffer to 5-6-5 device words in the given
/// byte order. The buffer must hold at least `w * h` pivot pixels; a
/// longer buffer is deliberately accepted, its bytes past the last pixel
/// ignored.
pub fn rgba_to_rgb565(data: &[u8], w: u32, h: u32, endian: Endian) -> (r: Result<
    Vec<u8>,
    PixelError,
>)
    ensures
        r matches Ok(v) ==> 4 * ((w as int) * (h as int)) <= data@.len() && v@ == spec_rgba_to_rgb565(
            data@,
            (w as int) * (h as int),
            endian,
        ),
        r is Err ==> 4 * ((w as int) * (h as int)) > data@.len() && r == Err::<Vec<u8>, PixelError>(
            PixelError::MalformedPixelData,
        ),
{
    match checked_pixel_count(data.len(), w, h, 4) {
        None => Err(PixelError::MalformedPixelData),
        Some(n) => Ok(convert_to_rgb565_words(data, n, endian)),
    }
}

/// Converts 5-6-5 device words in the given byte order back to the RGBA
/// pivot, with alpha forced opaque. The buffer must hold at least `w * h`
/// device words; a longer buffer is deliberately accepted, its tail
/// ignored.
pub fn rgb565_to_rgba(data: &[u8], w: u32, h: u32, endian: Endian) -> (r: Result<
    Vec<u8>,
    PixelError,
>)
    ensures
        r matches Ok(v) ==> 2 * ((w as int) * (h as int)) <= data@.len() && v@ == spec_rgb565_to_rgba(
            data@,
            (w as int) * (h as int),
            endian,
        ),
        r is Err ==> 2 * ((w as int) * (h as int)) > data@.len() && r == Err::<Vec<u8>, PixelError>(
            PixelError::MalformedPixelData,
        ),
{
    match checked_pixel_count(data.len(), w, h, 2) {
        None => Err(PixelError::MalformedPixelData),
        Some(n) => Ok(convert_from_rgb565_words(data, n, endian)),
    }
}

/// What converting `n` pivot pixels to device bytes yields for each mode.
/// `Rgba(Big)` is an identity copy of the whole buffer; every other mode
/// demands `n` whole pivot words and converts exactly those, deliberately
/// ignoring any bytes past them — only a buffer too short for its
/// dimensions is malformed.
pub open spec fn spec_rgba_to_device(mode: ColorMode, p: Seq<u8>, n: int) -> Result<
    Seq<u8>,
    PixelError,
> {
    match mode {
        ColorMode::Rgba(Endian::Big) => Ok(p),
        ColorMode::Rgba(Endian::Little) => if p.len() < 4 * n {
            Err(PixelError::MalformedPixelData)
        } else {
            Ok(spec_rgba_to_bgra(p, n, Endian::Little))
        },
        ColorMode::Bgra(e) => if p.len() < 4 * n {
            Err(PixelError::MalformedPixelData)
        } else {
            Ok(spec_rgba_to_bgra(p, n, e))
        },
        ColorMode::Rgb565(e) => if p.len() < 4 * n {
            Err(PixelError::MalformedPixelData)
        } else {
            Ok(spec_rgba_to_rgb565(p, n, e))
        },
    }
}

/// What converting `n` device pixels back to the pivot yields for each
/// mode: the exact inverse of `spec_rgba_to_device` on its image, except
/// that 5-6-5 modes lose the low channel bits and force alpha opaque.
pub open spec fn spec_device_to_rgba(mode: ColorMode, d: Seq<u8>, n: int) -> Result<
    Seq<u8>,
    PixelError,
> {
    match mode {
        ColorMode::Rgba(Endian::Big) => Ok(d),
        ColorMode::Rgba(Endian::Little) => if d.len() < 4 * n {
            Err(PixelError::MalformedPixelData)
        } else {
            Ok(spec_bgra_to_rgba(d, n, Endian::Little))
        },
        ColorMode::Bgra(e) => if d.len() < 4 * n {
            Err(PixelError::MalformedPixelData)
        } else {
            Ok(spec_bgra_to_rgba(d, n, e))
        },
        ColorMode::Rgb565(e) => if d.len() < 2 * n {
            Err(PixelError::MalformedPixelData)
        } else {
            Ok(spec_rgb565_to_rgba(d, n, e))
        },
    }
}

impl ColorMode {
    /// Converts an image in RGBA pivot format to this mode's device bytes.
    pub fn rgba_to_device(&self, rgba: &[u8], w: u32, h: u32) -> (r: Result<Vec<u8>, PixelError>)
        ensures
            r matches Ok(v) ==> spec_rgba_to_device(*self, rgba@, (w as int) * (h as int)) == Ok::<
                Seq<u8>,
                PixelError,
            >(v@),
            r matches Err(e) ==> spec_rgba_to_device(*self, rgba@, (w as int) * (h as int)) == Err::<
                Seq<u8>,
                PixelError,
            >(e),
    {
        match self {
            ColorMode::Rgba(Endian::Big) => Ok(vstd::slice::slice_to_vec(rgba)),
            ColorMode::Rgba(Endian::Little) => {
                match checked_pixel_count(rgba.len(), w, h, 4) {
                    None => Err(PixelError::MalformedPixelData),
                    Some(n) => Ok(convert_rgba_words(rgba, n, Endian::Little)),
                }
            },
            ColorMode::Bgra(e) => {
                match checked_pixel_count(rgba.len(), w, h, 4) {
                    None => Err(PixelError::MalformedPixelData),
                    Some(n) => Ok(convert_rgba_words(rgba, n, *e)),
                }
            },
            ColorMode::Rgb565(e) => {
                match checked_pixel_count(rgba.len(), w, h, 4) {
                    None => Err(PixelError::MalformedPixelData),
                    Some(n) => Ok(convert_to_rgb565_words(rgba, n, *e)),
                }
            },
        }
    }

    /// Converts this mode's device bytes back to the RGBA pivot format.
    pub fn device_to_rgba(&self, device: &[u8], w: u32, h: u32) -> (r: Result<Vec<u8>, PixelError>)
        ensures
            r matches Ok(v) ==> spec_device_to_rgba(*self, device@, (w as int) * (h as int)) == Ok::<
                Seq<u8>,
                PixelError,
            >(v@),
            r matches Err(e) ==> spec_device_to_rgba(*self, device@, (w as int) * (h as int))
                == Err::<Seq<u8>, PixelError>(e),
    {
        match self {
            ColorMode::Rgba(Endian::Big) => Ok(vstd::slice::slice_to_vec(device)),
            ColorMode::Rgba(Endian::Little) => {
                match checked_pixel_count(device.len(), w, h, 4) {
                    None => Err(PixelError::MalformedPixelData),
                    Some(n) => Ok(convert_bgra_words(device, n, Endian::Little)),
                }
            },
            ColorMode::Bgra(e) => {
                match checked_pixel_count(device.len(), w, h, 4) {
                    None => Err(PixelError::MalformedPixelData),
                    Some(n) => Ok(convert_bgra_words(device, n, *e)),
                }
            },
            ColorMode::Rgb565(e) => {
                match checked_pixel_count(device.len(), w, h, 2) {
                    None => Err(PixelError::MalformedPixelData),
                    Some(n) => Ok(convert_from_rgb565_words(device, n, *e)),
                }
            },
        }
    }
}

/// Forces the alpha channel of an RGBA pivot buffer to full opacity: every
/// fourth byte becomes `0xFF`; bytes after the last whole pixel stay.
pub fn strip_alpha(data: &mut Vec<u8>)
    ensures
        final(data)@.len() == old(data)@.len(),
        forall|j: int|
            0 <= j < old(data)@.len() ==> final(data)@[j] == if j % 4 == 3 {
                0xFFu8
            } else {
                old(data)@[j]
            },
{
    let words = data.len() / 4;
    proof {
        vstd::arithmetic::div_mod::lemma_fundamental_div_mod(data@.len() as int, 4);
        vstd::arithmetic::div_mod::lemma_mod_bound(data@.len() as int, 4);
    }
    let mut k: usize = 0;
    let mut offset: usize = 3;
    while k < words
        invariant
            k <= words,
            offset == 4 * k + 3,
            4 * (words as int) <= data@.len(),
            data@.len() <= usize::MAX,
            data@.len() == old(data)@.len(),
            forall|j: int|
                0 <= j < data@.len() ==> data@[j] == if j % 4 == 3 && j < 4 * k {
                    0xFFu8
                } else {
                    old(data)@[j]
                },
        decreases words - k,
    {
        data.set(offset, 0xFF);
        proof {
            lemma_div4(k as int, 3);
        }
        offset = offset + 4;
        k = k + 1;
    }
    proof {
        assert forall|j: int| 0 <= j < old(data)@.len() implies data@[j] == (if j % 4 == 3 {
            0xFFu8
        } else {
            old(data)@[j]
        }) by {
            if j % 4 == 3 {
                vstd::arithmetic::div_mod::lemma_fundamental_div_mod(j, 4);
                vstd::arithmetic::div_mod::lemma_div_is_ordered(j, data@.len() as int - 1, 4);
            }
        }
    }
}

/// The only height `h` for which `n` bytes hold a `w`-wide image at `bpp`
/// bytes per pixel: `n / (w * bpp)` when that divides evenly and is not
/// zero; no height otherwise.
pub open spec fn spec_infer_height(bpp: int, n: int, w: int) -> Option<int> {
    let unit = w * bpp;
    if unit <= 0 {
        None
    } else if n % unit != 0 || n / unit == 0 {
        None
    } else {
        Some(n / unit)
    }
}

/// Infers the height of an image of `data_len` bytes and width `width` in
/// the given mode, as a caller exploring candidate modes needs it: `None`
/// is a non-fatal "no match", not an error.
pub fn infer_height(mode: &ColorMode, data_len: usize, width: u32) -> (r: Option<usize>)
    ensures
        r matches Some(hh) ==> spec_infer_height(
            mode.spec_bytes_per_pixel() as int,
            data_len as int,
            width as int,
        ) == Some(hh as int),
        r is None ==> spec_infer_height(
            mode.spec_bytes_per_pixel() as int,
            data_len as int,
            width as int,
        ) is None,
{
    let bpp = mode.bytes_per_pixel();
    proof {
        vstd::arithmetic::mul::lemma_mul_upper_bound(width as int, u32::MAX as int, bpp as int, 4);
    }
    let unit = (width as u64) * (bpp as u64);
    if unit == 0 {
        return None;
    }
    let n = data_len as u64;
    proof {
        vstd::arithmetic::div_mod::lemma_div_nonincreasing(n as int, unit as int);
        vstd::arithmetic::div_mod::lemma_div_pos_is_pos(n as int, unit as int);
    }
    if n % unit != 0 {
        return None;
    }
    let hh = n / unit;
    if hh == 0 {
        return None;
    }
    Some(hh as usize)
}

/// What decoding a PNG byte stream yields — the raw pixel buffer, width
/// and height — when it decodes at all; decoding is a function of the
/// input bytes alone.
pub uninterp spec fn png_decode_of(d: Seq<u8>) -> Option<(Seq<u8>, u32, u32)>;

/// What encoding a pixel buffer of the given dimensions as an RGBA8 PNG
/// yields, when the encoder accepts the dimensions and the buffer's
/// length; the output depends on the arguments alone.
pub uninterp spec fn png_encode_of(p: Seq<u8>, w: u32, h: u32) -> Option<Seq<u8>>;

/// Relies on png's `Decoder` and `Reader`: decodes a PNG byte stream into
/// its raw pixel buffer, width and height, with an explicit unlimited
/// memory budget so that success depends on the stream alone; decoding is
/// deterministic, so the call succeeds exactly when the named result
/// exists.
#[verifier::external_body]
pub fn png_to_rgba(data: &[u8]) -> (r: Result<(Vec<u8>, u32, u32), ImageError>)
    ensures
        r matches Ok(t) ==> png_decode_of(data@) == Some((t.0@, t.1, t.2)),
        r is Err ==> png_decode_of(data@) is None,
        r matches Err(e) ==> e == ImageError::DecodeFailed,
{
    let limits = png::Limits { bytes: usize::MAX };
    let decoder = png::Decoder::new_with_limits(std::io::Cursor::new(data), limits);
    let mut reader = match decoder.read_info() {
        Ok(x) => x,
        Err(_) => return Err(ImageError::DecodeFailed),
    };
    let len = match reader.output_buffer_size() {
        Some(l) => l,
        None => return Err(ImageError::DecodeFailed),
    };
    let mut buf = vec![0u8; len];
    match reader.next_frame(&mut buf) {
        Ok(info) => Ok((buf, info.width, info.height)),
        Err(_) => Err(ImageError::DecodeFailed),
    }
}

/// Relies on png's `Encoder` and `Writer::write_image_data`: encodes an
/// RGBA8 pixel buffer as a PNG byte stream. The buffer must match the
/// dimensions exactly and each dimension must stay below 2^31: the
/// encoder multiplies row length by height unchecked, and the format
/// itself caps dimensions at 2^31 - 1. Within those bounds the encoder
/// fails exactly on dimensions it rejects (zero width or height), a
/// function of the arguments; and the crate's decoder reads an RGBA8
/// stream it wrote back to the same pixels and dimensions, bit for bit.
#[verifier::external_body]
pub fn rgba_to_png(data: &[u8], w: u32, h: u32) -> (r: Result<Vec<u8>, ImageError>)
    requires
        data@.len() == 4 * ((w as int) * (h as int)),
        w < 0x8000_0000,
        h < 0x8000_0000,
    ensures
        r matches Ok(v) ==> png_encode_of(data@, w, h) == Some(v@),
        r matches Ok(v) ==> png_decode_of(v@) == Some((data@, w, h)),
        r is Err ==> png_encode_of(data@, w, h) is None,
        r matches Err(e) ==> e == ImageError::EncodeFailed,
{
    let mut out: Vec<u8> = Vec::new();
    {
        let mut encoder = png::Encoder::new(&mut out, w, h);
        encoder.set_color(png::ColorType::Rgba);
        encoder.set_depth(png::BitDepth::Eight);
        let mut writer = match encoder.write_header() {
            Ok(x) => x,
            Err(_) => return Err(ImageError::EncodeFailed),
        };
        if writer.write_image_data(data).is_err() {
            return Err(ImageError::EncodeFailed);
        }
    }
    Ok(out)
}

impl ColorMode {
    /// Reads a PNG stream and converts its pixels to this mode's device
    /// bytes, returning them with the image's width and height: a stream
    /// that does not decode gives the decode error; decoded pixels the
    /// conversion rejects give the malformed-pixel error; otherwise the
    /// result is exactly the conversion of the decoded pixels at the
    /// decoded dimensions.
    pub fn read_png(&self, data: &[u8]) -> (r: Result<(Vec<u8>, u32, u32), ImageError>)
        ensures
            png_decode_of(data@) is None ==> r == Err::<(Vec<u8>, u32, u32), ImageError>(
                ImageError::DecodeFailed,
            ),
            png_decode_of(data@) matches Some(p) ==> {
                &&& (spec_rgba_to_device(*self, p.0, (p.1 as int) * (p.2 as int)) matches Ok(d)
                    ==> r matches Ok(t) && t.0@ == d && t.1 == p.1 && t.2 == p.2)
                &&& (spec_rgba_to_device(*self, p.0, (p.1 as int) * (p.2 as int)) is Err ==> r
                    == Err::<(Vec<u8>, u32, u32), ImageError>(ImageError::MalformedPixelData))
            },
    {
        let (rgba, w, h) = match png_to_rgba(data) {
            Ok(t) => t,
            Err(e) => { return Err(e); },
        };
        match self.rgba_to_device(rgba.as_slice(), w, h) {
            Ok(device) => Ok((device, w, h)),
            Err(_) => Err(ImageError::MalformedPixelData),
        }
    }

    /// Converts device bytes of this mode to the RGBA pivot and encodes
    /// them as a PNG stream: a buffer the conversion rejects gives the
    /// malformed-pixel error; converted pixels that do not exactly fill
    /// the dimensions, or dimensions beyond what the format can carry,
    /// give the encode error; otherwise the stream is exactly the PNG
    /// encoding of the converted pixels.
    pub fn write_png(&self, data: &[u8], w: u32, h: u32) -> (r: Result<Vec<u8>, ImageError>)
        ensures
            spec_device_to_rgba(*self, data@, (w as int) * (h as int)) is Err ==> r == Err::<
                Vec<u8>,
                ImageError,
            >(ImageError::MalformedPixelData),
            spec_device_to_rgba(*self, data@, (w as int) * (h as int)) matches Ok(rgba) ==> {
                let fits = rgba.len() == 4 * ((w as int) * (h as int)) && w < 0x8000_0000 && h
                    < 0x8000_0000;
                &&& (fits ==> {
                    &&& (png_encode_of(rgba, w, h) matches Some(v) ==> r matches Ok(out) && out@
                        == v)
                    &&& (png_encode_of(rgba, w, h) is None ==> r == Err::<Vec<u8>, ImageError>(
                        ImageError::EncodeFailed,
                    ))
                })
                &&& (!fits ==> r == Err::<Vec<u8>, ImageError>(ImageError::EncodeFailed))
            },
    {
        let rgba = match self.device_to_rgba(data, w, h) {
            Ok(v) => v,
            Err(_) => { return Err(ImageError::MalformedPixelData); },
        };
        if w >= 0x8000_0000 || h >= 0x8000_0000 {
            return Err(ImageError::EncodeFailed);
        }
        proof {
            vstd::arithmetic::mul::lemma_mul_upper_bound(
                w as int,
                0x7FFF_FFFF,
                h as int,
                0x7FFF_FFFF,
            );
        }
        let needed = 4 * ((w as u64) * (h as u64));
        if (rgba.len() as u64) != needed {
            return Err(ImageError::EncodeFailed);
        }
        rgba_to_png(rgba.as_slice(), w, h)
    }
}

/// Lossless modes: converting any whole-pixel pivot buffer to an RGBA or
/// BGRA device encoding and back reproduces it bit for bit.
pub proof fn lemma_lossless_mode_round_trip(mode: ColorMode, p: Seq<u8>, n: int)
    requires
        n >= 0,
        p.len() == 4 * n,
        mode is Rgba || mode is Bgra,
    ensures
        spec_rgba_to_device(mode, p, n) matches Ok(d) && spec_device_to_rgba(mode, d, n) == Ok::<
            Seq<u8>,
            PixelError,
        >(p),
{
    match mode {
        ColorMode::Rgba(Endian::Big) => {
        },
        ColorMode::Rgba(Endian::Little) => {
            lemma_swapped_words_invert(p, n, Endian::Little);
        },
        ColorMode::Bgra(e) => {
            lemma_swapped_words_invert(p, n, e);
        },
        ColorMode::Rgb565(_) => {
        },
    }
}

/// Helper: the R/B-swapping device trip inverts itself for either byte
/// order.
proof fn lemma_swapped_words_invert(p: Seq<u8>, n: int, e: Endian)
    requires
        n >= 0,
        p.len() == 4 * n,
    ensures
        spec_bgra_to_rgba(spec_rgba_to_bgra(p, n, e), n, e) == p,
{
    let d = spec_rgba_to_bgra(p, n, e);
    let q = spec_bgra_to_rgba(d, n, e);
    assert forall|i: int| 0 <= i < n implies word_at(d, i, e) == swap_rb(pivot_word(p, i)) by {
        assert forall|k: int| 0 <= k < 4 implies d[4 * i + k] == word_bytes(
            swap_rb(pivot_word(p, i)),
            e,
        )[k] by {
            lemma_div4(i, k);
        }
        assert(d.subrange(4 * i, 4 * i + 4) =~= word_bytes(swap_rb(pivot_word(p, i)), e));
        lemma_u32_bytes_round_trip(swap_rb(pivot_word(p, i)));
    }
    assert forall|j: int| 0 <= j < 4 * n implies q[j] == p[j] by {
        let i = j / 4;
        vstd::arithmetic::div_mod::lemma_fundamental_div_mod(j, 4);
        vstd::arithmetic::div_mod::lemma_mod_bound(j, 4);
        vstd::arithmetic::div_mod::lemma_div_is_ordered(j, 4 * n - 1, 4);
        lemma_div4(i, j % 4);
        let c = pivot_word(p, i);
        assert(swap_rb(swap_rb(c)) == c) by (bit_vector);
        lemma_u32_bytes_inverse(p.subrange(4 * i, 4 * i + 4));
        assert(q[j] == u32_be_bytes(c)[j % 4]);
        assert(u32_be_bytes(u32_be(p.subrange(4 * i, 4 * i + 4))) =~= p.subrange(4 * i, 4 * i + 4));
    }
    assert(q =~= p);
}

/// Lossy mode: converting any whole-pixel pivot buffer to 5-6-5 and back
/// keeps the top five bits of R, six of G and five of B, zeroes the rest,
/// and forces alpha fully opaque — per pixel, the word comes back as
/// `(original & 0xF8FCF800) | 0xFF`.
pub proof fn lemma_rgb565_round_trip(e: Endian, p: Seq<u8>, n: int)
    requires
        n >= 0,
        p.len() == 4 * n,
    ensures
        spec_rgba_to_device(ColorMode::Rgb565(e), p, n) matches Ok(d) && spec_device_to_rgba(
            ColorMode::Rgb565(e),
            d,
            n,
        ) matches Ok(q) && q.len() == 4 * n && forall|i: int|
            0 <= i < n ==> pivot_word(q, i) == ((pivot_word(p, i) & 0xF8FCF800) | 0xFF),
{
    let d = spec_rgba_to_rgb565(p, n, e);
    let q = spec_rgb565_to_rgba(d, n, e);
    assert forall|i: int| 0 <= i < n implies word16_at(d, i, e) == pack_rgb565(pivot_word(p, i)) by {
        assert forall|k: int| 0 <= k < 2 implies d[2 * i + k] == word16_bytes(
            pack_rgb565(pivot_word(p, i)),
            e,
        )[k] by {
            lemma_div2(i, k);
        }
        assert(d.subrange(2 * i, 2 * i + 2) =~= word16_bytes(pack_rgb565(pivot_word(p, i)), e));
        lemma_u16_bytes_round_trip(pack_rgb565(pivot_word(p, i)));
    }
    assert forall|i: int| 0 <= i < n implies pivot_word(q, i) == ((pivot_word(p, i) & 0xF8FCF800)
        | 0xFF) by {
        assert forall|k: int| 0 <= k < 4 implies q[4 * i + k] == u32_be_bytes(
            unpack_rgb565(word16_at(d, i, e)),
        )[k] by {
            lemma_div4(i, k);
        }
        assert(q.subrange(4 * i, 4 * i + 4) =~= u32_be_bytes(unpack_rgb565(word16_at(d, i, e))));
        lemma_u32_bytes_round_trip(unpack_rgb565(word16_at(d, i, e)));
        let c = pivot_word(p, i);
        assert(unpack_rgb565(pack_rgb565(c)) == ((c & 0xF8FCF800) | 0xFF)) by (bit_vector);
    }
}

} // verus!
