//! Errors of the `.vox` parser and of scene assembly.

use vstd::prelude::*;

verus! {

/// What went wrong while reading a `.vox` file.
#[derive(Debug, Clone, Copy, PartialEq, Eq)]
pub enum VoxErrorKind {
    /// The input ended before a value was complete.
    UnexpectedEnd,
    /// Bytes were left over where the input must be consumed exactly.
    TrailingBytes,
    /// A fixed tag (the magic `VOX ` or the `MAIN` chunk tag) did not match.
    InvalidTag,
    /// Only file version 150 is supported.
    FileVersionUnknown(u32),
    /// The main chunk has a payload (it should only have children).
    InvalidMainChunk,
    /// The MATT id is outside the palette (i.e., i < 1 || i > 255).
    InvalidMattId(u32),
    /// The MATT type is none of 0 (diffuse), 1 (metal), 2 (glass), 3 (emissive),
    /// or its weight is out of range for the type.
    InvalidMattType,
    /// A MATT material property value is out of its range.
    InvalidMattProperty,
    /// A STRING's bytes are not valid UTF-8.
    InvalidUTF8String,
    /// The `_hidden` attribute of a nTRN is neither `0` nor `1`.
    InvalidTRNHidden,
    /// The reserved field of a nTRN is not -1.
    InvalidTRNReserved(i32),
    /// The number of frames of a nTRN is not 1.
    InvalidTRNFrames(i32),
    /// The `_r` or `_t` frame attribute of a nTRN is malformed.
    InvalidTRNProperty,
    /// The number of nSHP models is not 1.
    InvalidSHPModelCount(u32),
    /// The MATL id is outside the palette (i.e., i < 0 || i > 255).
    InvalidMatlId(i32),
    /// The MATL `_type` is missing or unknown.
    InvalidMatlType,
    /// A MATL property value is malformed or out of range.
    InvalidMatlProperty,
    /// The reserved field of a LAYR is not -1.
    InvalidLayrReserved(i32),
    /// A layer id is negative (other than -1, which means "no layer").
    InvalidLayrId,
    /// The `_hidden` attribute of a LAYR is neither `0` nor `1`.
    InvalidLayrProperty,
    /// The chunk tag is none of the known ones.
    UnknownChunk([u8; 4]),
    /// SIZE and XYZI chunks do not alternate.
    NonAlternatingModel,
    /// The scene graph references missing nodes or models, its root is not a
    /// transform node, or it refers back to itself.
    InvalidScene,
}

} // verus!
