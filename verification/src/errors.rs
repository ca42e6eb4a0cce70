//! Error taxonomy of the library.
//!
//! `FormatError` covers everything that can go wrong while decoding a
//! container; `CodecError` covers the external compression calls;
//! `PixelError` covers pixel-format conversion; `NamingError` covers slot
//! file-name parsing.
use vstd::prelude::*;

verus! {

/// A container stream violates the binary layout.
#[derive(Clone, Copy, Debug, PartialEq, Eq, Structural)]
pub enum FormatError {
    /// The first four bytes are not the fixed magic number.
    BadMagic,
    /// The 32-byte type tag matches none of the recognized names.
    UnknownType,
    /// The header is well formed but its type tag is not the logo tag.
    NotALogo,
    /// The table's block size differs from the header's declared size.
    SizeMismatch,
    /// The stream ends before the structure it should hold.
    Truncated,
    /// Under the strict padding policy: a padding byte is not the fill
    /// byte.
    BadFill,
    /// A slot's range runs backwards: its offset is above the next one.
    BadOffsets,
}

/// An external compression or decompression call failed.
#[derive(Clone, Copy, Debug, PartialEq, Eq, Structural)]
pub enum CodecError {
    InflateFailed,
    DeflateFailed,
}

/// A pixel buffer or a color-mode name is unusable.
#[derive(Clone, Copy, Debug, PartialEq, Eq, Structural)]
pub enum PixelError {
    /// The buffer is shorter than the dimensions require.
    MalformedPixelData,
    /// The name matches no supported color mode.
    UnknownColorMode,
}

/// A slot file name cannot be parsed back into slot id and content type.
#[derive(Clone, Copy, Debug, PartialEq, Eq, Structural)]
pub enum NamingError {
    /// The name has no underscore-delimited id token.
    MissingIdToken,
    /// The id token is not an unsigned decimal number.
    BadIdToken,
    /// The name ends neither in a color-mode image suffix nor in the raw
    /// suffix.
    UnknownSuffix,
}

/// An external image decode or encode call failed, or the pixel data handed
/// to it was unusable.
#[derive(Clone, Copy, Debug, PartialEq, Eq, Structural)]
pub enum ImageError {
    DecodeFailed,
    EncodeFailed,
    MalformedPixelData,
}

} // verus!
