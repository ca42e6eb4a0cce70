//! The fixed 512-byte container preamble: a big-endian magic number, a
//! little-endian declared size, a 32-byte ASCII type tag, and fill bytes up
//! to the 512-byte boundary.
use vstd::prelude::*;

use crate::byteio::{
    lemma_u32_bytes_round_trip, read_u32_be, read_u32_le, push_u32_be, push_u32_le, u32_be,
    u32_be_bytes, u32_le, u32_le_bytes,
};
use crate::errors::FormatError;

verus! {

/// On-disk size of the preamble in bytes.
pub const HEADER_SIZE: usize = 512;

/// The fixed magic number, stored big-endian at offset 0.
pub const MAGIC: u32 = 0x88168858;

/// Conventional value of the padding bytes after the type tag.
pub const FILL_BYTE: u8 = 0xFF;

/// Number of bytes reserved for the ASCII type tag.
pub const TAG_LEN: usize = 32;

/// An MTK image header: the declared payload size and the image type.
#[derive(Copy, Clone, Debug, PartialEq, Eq, Structural)]
pub struct MtkHeader {
    pub size: u32,
    pub mtk_type: MtkType,
}

/// The recognized image types, as announced by the header's type tag.
#[derive(Copy, Clone, Debug, PartialEq, Eq, Structural)]
pub enum MtkType {
    RECOVERY,
    ROOTFS,
    KERNEL,
    LOGO,
}

/// The ASCII tag name of an image type.
pub open spec fn spec_tag_label(t: MtkType) -> Seq<u8> {
    match t {
        MtkType::RECOVERY => seq![82u8, 69u8, 67u8, 79u8, 86u8, 69u8, 82u8, 89u8],
        MtkType::ROOTFS => seq![82u8, 79u8, 79u8, 84u8, 70u8, 83u8],
        MtkType::KERNEL => seq![75u8, 69u8, 82u8, 78u8, 69u8, 76u8],
        MtkType::LOGO => seq![76u8, 79u8, 71u8, 79u8],
    }
}

/// An upper-case ASCII letter mapped to lower case; other bytes unchanged.
pub open spec fn ascii_lower(w: u8) -> u8 {
    if 65 <= w && w <= 90 {
        (w + 32) as u8
    } else {
        w
    }
}

/// A lower-case ASCII letter mapped to upper case; other bytes unchanged.
pub open spec fn ascii_upper(w: u8) -> u8 {
    if 97 <= w && w <= 122 {
        (w - 32) as u8
    } else {
        w
    }
}

/// Does byte `c` match pattern byte `w`, ignoring ASCII case?
pub open spec fn byte_matches_ci(c: u8, w: u8) -> bool {
    c == ascii_lower(w) || c == ascii_upper(w)
}

/// Does `s` start with `p`, byte for byte, ignoring ASCII case?
pub open spec fn starts_with_ci(s: Seq<u8>, p: Seq<u8>) -> bool {
    &&& p.len() <= s.len()
    &&& forall|i: int| 0 <= i < p.len() ==> byte_matches_ci(s[i], p[i])
}

/// Checks whether one byte slice starts with another, assuming the pattern is
/// ASCII and ignoring case.
pub fn starts_with_ascii_ignore_case(bytes: &[u8], with: &[u8]) -> (r: bool)
    ensures
        r == starts_with_ci(bytes@, with@),
{
    if bytes.len() < with.len() {
        return false;
    }
    let mut i: usize = 0;
    while i < with.len()
        invariant
            i <= with@.len(),
            with@.len() <= bytes@.len(),
            forall|j: int| 0 <= j < i ==> byte_matches_ci(bytes@[j], with@[j]),
        decreases with@.len() - i,
    {
        let c = bytes[i];
        let w = with[i];
        let lower: u8 = if 65 <= w && w <= 90 {
            w + 32
        } else {
            w
        };
        let upper: u8 = if 97 <= w && w <= 122 {
            w - 32
        } else {
            w
        };
        if lower != c && upper != c {
            return false;
        }
        i = i + 1;
    }
    true
}

/// The image type announced by a 32-byte tag field, if any: the first of the
/// recognized tag names that the field starts with, compared without regard
/// to ASCII case.
#[verifier::opaque]
pub open spec fn spec_mtk_type_from_bytes(s: Seq<u8>) -> Option<MtkType> {
    if starts_with_ci(s, spec_tag_label(MtkType::RECOVERY)) {
        Some(MtkType::RECOVERY)
    } else if starts_with_ci(s, spec_tag_label(MtkType::ROOTFS)) {
        Some(MtkType::ROOTFS)
    } else if starts_with_ci(s, spec_tag_label(MtkType::KERNEL)) {
        Some(MtkType::KERNEL)
    } else if starts_with_ci(s, spec_tag_label(MtkType::LOGO)) {
        Some(MtkType::LOGO)
    } else {
        None
    }
}

impl MtkType {
    /// The ASCII bytes of this type's tag name.
    pub fn label_bytes(self) -> (v: Vec<u8>)
        ensures
            v@ == spec_tag_label(self),
    {
        let mut v: Vec<u8> = Vec::new();
        match self {
            MtkType::RECOVERY => {
                v.push(82);
                v.push(69);
                v.push(67);
                v.push(79);
                v.push(86);
                v.push(69);
                v.push(82);
                v.push(89);
            },
            MtkType::ROOTFS => {
                v.push(82);
                v.push(79);
                v.push(79);
                v.push(84);
                v.push(70);
                v.push(83);
            },
            MtkType::KERNEL => {
                v.push(75);
                v.push(69);
                v.push(82);
                v.push(78);
                v.push(69);
                v.push(76);
            },
            MtkType::LOGO => {
                v.push(76);
                v.push(79);
                v.push(71);
                v.push(79);
            },
        }
        assert(v@ =~= spec_tag_label(self));
        v
    }

    /// Recognizes the image type announced by a tag field.
    pub fn from_bytes(bytes: &[u8]) -> (r: Option<MtkType>)
        ensures
            r == spec_mtk_type_from_bytes(bytes@),
    {
        proof {
            reveal(spec_mtk_type_from_bytes);
        }
        let recovery = MtkType::RECOVERY.label_bytes();
        if starts_with_ascii_ignore_case(bytes, recovery.as_slice()) {
            return Some(MtkType::RECOVERY);
        }
        let rootfs = MtkType::ROOTFS.label_bytes();
        if starts_with_ascii_ignore_case(bytes, rootfs.as_slice()) {
            return Some(MtkType::ROOTFS);
        }
        let kernel = MtkType::KERNEL.label_bytes();
        if starts_with_ascii_ignore_case(bytes, kernel.as_slice()) {
            return Some(MtkType::KERNEL);
        }
        let logo = MtkType::LOGO.label_bytes();
        if starts_with_ascii_ignore_case(bytes, logo.as_slice()) {
            return Some(MtkType::LOGO);
        }
        None
    }
}

/// The 32-byte tag field of an image type: its tag name, zero-padded.
pub open spec fn spec_tag_field(t: MtkType) -> Seq<u8> {
    spec_tag_label(t) + Seq::new((TAG_LEN - spec_tag_label(t).len()) as nat, |i: int| 0u8)
}

/// The exact 512 bytes that writing a header emits.
pub open spec fn spec_header_bytes(h: MtkHeader) -> Seq<u8> {
    u32_be_bytes(MAGIC) + u32_le_bytes(h.size) + spec_tag_field(h.mtk_type) + Seq::new(
        (HEADER_SIZE - 8 - TAG_LEN) as nat,
        |i: int| FILL_BYTE,
    )
}

/// The result of reading a header from the start of a byte stream.
#[verifier::opaque]
pub open spec fn spec_header_read(s: Seq<u8>) -> Result<MtkHeader, FormatError> {
    if s.len() < 4 {
        Err(FormatError::Truncated)
    } else if u32_be(s.subrange(0, 4)) != MAGIC {
        Err(FormatError::BadMagic)
    } else if s.len() < 8 + TAG_LEN {
        Err(FormatError::Truncated)
    } else {
        match spec_mtk_type_from_bytes(s.subrange(8, 8 + TAG_LEN as int)) {
            None => Err(FormatError::UnknownType),
            Some(t) => if s.len() < HEADER_SIZE {
                Err(FormatError::Truncated)
            } else {
                Ok(MtkHeader { size: u32_le(s.subrange(4, 8)), mtk_type: t })
            },
        }
    }
}

/// Are all padding bytes of the header region the conventional fill byte?
pub open spec fn spec_fill_ok(s: Seq<u8>) -> bool {
    forall|i: int| 8 + TAG_LEN <= i < HEADER_SIZE ==> s[i] == FILL_BYTE
}

/// The result of reading a header under the strict padding policy: as the
/// permissive reading, except that non-fill padding is rejected.
pub open spec fn spec_header_read_strict(s: Seq<u8>) -> Result<MtkHeader, FormatError> {
    match spec_header_read(s) {
        Ok(h) => if spec_fill_ok(s) {
            Ok(h)
        } else {
            Err(FormatError::BadFill)
        },
        Err(e) => Err(e),
    }
}

impl MtkHeader {
    /// Reads a header from the start of `data`.
    ///
    /// Succeeds exactly when `data` holds at least 512 bytes that open with
    /// the magic number and carry a recognized type tag; the errors single
    /// out, in the order the stream is consumed, a short stream, a wrong
    /// magic number, and an unknown tag.
    pub fn read(data: &[u8]) -> (r: Result<MtkHeader, FormatError>)
        ensures
            r == spec_header_read(data@),
    {
        proof {
            reveal(spec_header_read);
        }
        if data.len() < 4 {
            return Err(FormatError::Truncated);
        }
        let magic = read_u32_be(data, 0);
        if magic != MAGIC {
            return Err(FormatError::BadMagic);
        }
        if data.len() < 8 + TAG_LEN {
            return Err(FormatError::Truncated);
        }
        let size = read_u32_le(data, 4);
        let tag = vstd::slice::slice_subrange(data, 8, 8 + TAG_LEN);
        match MtkType::from_bytes(tag) {
            None => Err(FormatError::UnknownType),
            Some(t) => {
                if data.len() < HEADER_SIZE {
                    Err(FormatError::Truncated)
                } else {
                    Ok(MtkHeader { size, mtk_type: t })
                }
            },
        }
    }

    /// Reads a header under an explicit padding policy: permissive reads
    /// ignore the 472 padding bytes, strict reads demand that each one is
    /// the fill byte.
    pub fn read_checked(data: &[u8], strict_fill: bool) -> (r: Result<MtkHeader, FormatError>)
        ensures
            r == if strict_fill {
                spec_header_read_strict(data@)
            } else {
                spec_header_read(data@)
            },
    {
        let h = match Self::read(data) {
            Ok(h) => h,
            Err(e) => { return Err(e); },
        };
        if !strict_fill {
            return Ok(h);
        }
        proof {
            reveal(spec_header_read);
        }
        let mut i: usize = 8 + TAG_LEN;
        while i < HEADER_SIZE
            invariant
                8 + TAG_LEN <= i <= HEADER_SIZE,
                HEADER_SIZE <= data@.len(),
                strict_fill,
                spec_header_read(data@) == Ok::<MtkHeader, FormatError>(h),
                forall|k: int| 8 + TAG_LEN <= k < i ==> data@[k] == FILL_BYTE,
            decreases HEADER_SIZE - i,
        {
            if data[i] != FILL_BYTE {
                return Err(FormatError::BadFill);
            }
            i = i + 1;
        }
        Ok(h)
    }

    /// Appends this header's exact 512-byte encoding to `out`.
    pub fn write(&self, out: &mut Vec<u8>)
        ensures
            final(out)@ == old(out)@ + spec_header_bytes(*self),
    {
        push_u32_be(out, MAGIC);
        push_u32_le(out, self.size);
        let label = self.mtk_type.label_bytes();
        let mut tag = label;
        let pad_len: usize = TAG_LEN - tag.len();
        let mut pad = vec![0u8; pad_len];
        tag.append(&mut pad);
        assert(tag@ =~= spec_tag_field(self.mtk_type));
        out.append(&mut tag);
        let fill_len: usize = HEADER_SIZE - 8 - TAG_LEN;
        let mut fill = vec![FILL_BYTE; fill_len];
        out.append(&mut fill);
        assert(final(out)@ =~= old(out)@ + spec_header_bytes(*self));
    }
}

/// Within the tag field of any image type, the announced type reads back as
/// that same type.
pub proof fn lemma_tag_field_recognized(t: MtkType)
    ensures
        spec_mtk_type_from_bytes(spec_tag_field(t)) == Some(t),
{
    reveal(spec_mtk_type_from_bytes);
    let s = spec_tag_field(t);
    match t {
        MtkType::RECOVERY => {
            assert(starts_with_ci(s, spec_tag_label(MtkType::RECOVERY)));
        },
        MtkType::ROOTFS => {
            assert(!byte_matches_ci(s[1], spec_tag_label(MtkType::RECOVERY)[1]));
            assert(starts_with_ci(s, spec_tag_label(MtkType::ROOTFS)));
        },
        MtkType::KERNEL => {
            assert(!byte_matches_ci(s[0], spec_tag_label(MtkType::RECOVERY)[0]));
            assert(!byte_matches_ci(s[0], spec_tag_label(MtkType::ROOTFS)[0]));
            assert(starts_with_ci(s, spec_tag_label(MtkType::KERNEL)));
        },
        MtkType::LOGO => {
            assert(!byte_matches_ci(s[0], spec_tag_label(MtkType::RECOVERY)[0]));
            assert(!byte_matches_ci(s[0], spec_tag_label(MtkType::ROOTFS)[0]));
            assert(!byte_matches_ci(s[0], spec_tag_label(MtkType::KERNEL)[0]));
            assert(starts_with_ci(s, spec_tag_label(MtkType::LOGO)));
        },
    }
}

/// Reading a stream that opens with the encoding of a header recovers that
/// header, whatever follows it.
pub proof fn lemma_header_read_prefix(h: MtkHeader, rest: Seq<u8>)
    ensures
        spec_header_read(spec_header_bytes(h) + rest) == Ok::<MtkHeader, FormatError>(h),
{
    reveal(spec_header_read);
    let s = spec_header_bytes(h) + rest;
    assert(spec_header_bytes(h).len() == HEADER_SIZE);
    assert(s.subrange(0, 4) =~= u32_be_bytes(MAGIC));
    assert(s.subrange(4, 8) =~= u32_le_bytes(h.size));
    assert(s.subrange(8, 8 + TAG_LEN as int) =~= spec_tag_field(h.mtk_type));
    lemma_u32_bytes_round_trip(MAGIC);
    lemma_u32_bytes_round_trip(h.size);
    lemma_tag_field_recognized(h.mtk_type);
}

/// Header round trip: reading back the exact bytes written for any header
/// recovers that header, under either padding policy.
pub proof fn lemma_header_round_trip(h: MtkHeader)
    ensures
        spec_header_read(spec_header_bytes(h)) == Ok::<MtkHeader, FormatError>(h),
        spec_header_read_strict(spec_header_bytes(h)) == Ok::<MtkHeader, FormatError>(h),
{
    lemma_header_read_prefix(h, Seq::empty());
    assert(spec_header_bytes(h) + Seq::empty() =~= spec_header_bytes(h));
    assert(spec_fill_ok(spec_header_bytes(h)));
}

} // verus!
