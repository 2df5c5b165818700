//! Error and result types of this library.

use vstd::prelude::*;

verus! {

/// Why a read from a byte source could not be carried out.
#[derive(Debug, Clone, Copy, PartialEq, Eq, Structural)]
pub enum IoErrorKind {
    /// A position or a length was negative.
    InvalidInput,
    /// The byte source ended before the requested bytes were read.
    UnexpectedEof,
}

/// Error types.
#[derive(Debug, Clone, Copy, PartialEq, Eq, Structural)]
pub enum QError {
    /// A read from the byte source failed.
    IoError(IoErrorKind),
    /// Invalid LMP file.
    InvalidLmp,
    /// Palette bigger than 256 colors, or without a single one.
    InvalidPaletteSize,
    /// Wrong magic bytes in the file header.
    BadMagicBytes,
    /// Invalid filename for a PAK file.
    BadFileName,
    /// Unable to find the given file in the PAK.
    FileNotFound,
    /// Palette does not contain given color.
    ColorNotInPalette,
}

/// Result of most things in this library that can fail.
pub type QResult<T> = Result<T, QError>;

} // verus!
