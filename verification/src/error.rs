//! The failure conditions of decoding and rebuilding, with positional
//! context.
//!
//! Every construction failure carries the condition itself
//! ([`ErrorKind`]) and a chain of [`Frame`]s naming the ordinal index
//! and byte offset of each enclosing chunk that was being parsed when
//! the failure surfaced, innermost first.  No chunk is ever partially
//! trusted: a record or subrecord either fully validates or does not
//! exist.

use vstd::prelude::*;

verus! {

/// Which chunk kind a context frame refers to.
#[derive(Clone, Copy, Debug, PartialEq, Eq, Structural)]
pub enum Level {
    Record,
    Subrecord,
}

/// One step of positional context: the ordinal index of the chunk
/// among its siblings and the byte offset at which it starts.  For a
/// record the offset is absolute in the buffer; for a subrecord it is
/// relative to the start of the owning record.
#[derive(Clone, Copy, Debug, PartialEq, Eq, Structural)]
pub struct Frame {
    pub level: Level,
    pub index: usize,
    pub offset: u32,
}

/// The failure conditions.
#[derive(Clone, Debug, PartialEq, Eq)]
pub enum ErrorKind {
    /// The window holds fewer bytes than the fixed chunk header needs.
    TooShort { header: u32, length: u32 },
    /// The declared payload size exceeds the bytes available after the
    /// header.
    SizeOverflow { declared: u32, available: u32 },
    /// A textual record's declared size differs from the total framed
    /// length of its subrecord children, so no valid record could be
    /// rebuilt from it.
    SizeMismatch { declared: u32, actual: u32 },
    /// A textual tag is neither 4 plain characters nor 8 valid hex
    /// digits.
    UnknownTag,
    /// Hex text with a non-hex-digit character or an odd digit count.
    InvalidHex,
    /// A textual chunk has no `size` attribute.
    MissingSize,
    /// A textual `size` attribute that does not parse as a 32-bit
    /// decimal number.
    InvalidSize,
    /// The input starts with neither the binary magic nor a textual
    /// marker; carries the offending leading bytes.
    UnrecognizedFormat { bytes: Vec<u8> },
}

/// A decoding or rebuilding failure with its context chain.
#[derive(Clone, Debug, PartialEq, Eq)]
pub struct Error {
    pub kind: ErrorKind,
    /// Positional context, innermost chunk first.
    pub frames: Vec<Frame>,
}

/// Mathematical image of [`ErrorKind`]: sizes as unbounded integers,
/// bytes as a sequence.
pub enum ErrorKindV {
    TooShort { header: int, length: int },
    SizeOverflow { declared: int, available: int },
    SizeMismatch { declared: int, actual: int },
    UnknownTag,
    InvalidHex,
    MissingSize,
    InvalidSize,
    UnrecognizedFormat { bytes: Seq<u8> },
}

/// Mathematical image of [`Error`].
pub struct ErrorV {
    pub kind: ErrorKindV,
    pub frames: Seq<Frame>,
}

impl View for ErrorKind {
    type V = ErrorKindV;

    open spec fn view(&self) -> ErrorKindV {
        match self {
            ErrorKind::TooShort { header, length } => ErrorKindV::TooShort {
                header: *header as int,
                length: *length as int,
            },
            ErrorKind::SizeOverflow { declared, available } => ErrorKindV::SizeOverflow {
                declared: *declared as int,
                available: *available as int,
            },
            ErrorKind::SizeMismatch { declared, actual } => ErrorKindV::SizeMismatch {
                declared: *declared as int,
                actual: *actual as int,
            },
            ErrorKind::UnknownTag => ErrorKindV::UnknownTag,
            ErrorKind::InvalidHex => ErrorKindV::InvalidHex,
            ErrorKind::MissingSize => ErrorKindV::MissingSize,
            ErrorKind::InvalidSize => ErrorKindV::InvalidSize,
            ErrorKind::UnrecognizedFormat { bytes } => ErrorKindV::UnrecognizedFormat {
                bytes: bytes@,
            },
        }
    }
}

impl View for Error {
    type V = ErrorV;

    open spec fn view(&self) -> ErrorV {
        ErrorV { kind: self.kind@, frames: self.frames@ }
    }
}

/// An error without context frames.
pub open spec fn spec_bare(kind: ErrorKindV) -> ErrorV {
    ErrorV { kind: kind, frames: Seq::empty() }
}

/// `e` with one more context frame appended.
pub open spec fn spec_with_frame(e: ErrorV, level: Level, index: int, offset: int) -> ErrorV {
    ErrorV {
        kind: e.kind,
        frames: e.frames.push(
            Frame { level: level, index: index as usize, offset: offset as u32 },
        ),
    }
}

/// The view of a `Result` whose sides both have views.
pub open spec fn spec_result<T: View, E: View>(r: Result<T, E>) -> Result<T::V, E::V> {
    match r {
        Ok(t) => Ok(t@),
        Err(e) => Err(e@),
    }
}

} // verus!
