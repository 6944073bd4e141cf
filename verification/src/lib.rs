//! Decoder for binary log frames emitted by a deferred-formatting logger.
//!
//! A frame is an address-sized log identifier followed by a packed argument
//! payload. The identifier is the byte offset of a fixed-layout metadata
//! record inside the image's dedicated metadata section; the layout of the
//! payload is described by a compiler-generated structure type in the image's
//! debug information. This crate locates and parses the metadata record,
//! resolves the argument type from the debug information, materializes a
//! value tree from the payload bytes, and renders it through a format-string
//! mini-language.

use vstd::prelude::*;

pub mod bytes;
pub mod decoder;
pub mod dwarf;
pub mod ext;
pub mod format;
pub mod log;
pub mod metadata;
pub mod parser;
pub mod render;
pub mod search;
pub mod text;
pub mod types;
pub mod utf8;
pub mod var;

verus! {

/// Byte order of the target image.
#[derive(Clone, Copy, Debug, PartialEq, Eq, Structural)]
pub enum Endian {
    Little,
    Big,
}

/// Everything that can go wrong while decoding a log frame.
///
/// Debug-information tags, attributes and encodings are carried as their
/// raw numeric values.
#[derive(Debug)]
pub enum DecodeError {
    /// The underlying debug-info reader failed.
    Gimli(gimli::Error),
    /// The image container could not be read.
    Object(object::Error),
    /// The image lacks the metadata section.
    MissingSection,
    /// A debug-info entry is missing the given attribute.
    NoAttribute(u16),
    /// No compilation unit with the given name exists.
    NoCompilationUnit(Vec<u8>),
    /// A metadata string is missing its trailing NUL byte.
    NoNullTerm,
    /// No type with the given name exists in the compilation unit.
    NoType(Vec<u8>),
    /// The log id lies past the end of the metadata section.
    OutOfBounds(u64, u64),
    /// A metadata string at the given log id is not valid UTF-8.
    Utf8(u64),
    /// A base type has an unsupported (encoding, byte size) pair.
    UnsupportedBaseType(u16, u64),
    /// A pointer type has an unsupported byte size.
    UnsupportedPointerSize(u64),
    /// A debug-info entry has a tag the grammar does not permit here.
    UnexpectedTag(u16),
    /// An attribute is present but has the wrong kind of value.
    BadAttribute,
    /// There is no debug-info entry at the given offset.
    NoDIE(u64),
    /// The metadata record declares an unsupported schema version.
    Schema(u32),
    /// An invariant violation, reported at its source.
    Custom(&'static str),
}

} // verus!
