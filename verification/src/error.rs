//! The failures a decode can end in.

use vstd::prelude::*;

verus! {

/// What went wrong.
#[derive(Clone, Copy, Debug, PartialEq, Eq, Structural)]
pub enum DecodeErrorKind {
    /// A field would have been read past the end of the buffer.
    Bounds,
    /// A chunk tag is not the expected literal, or the header chunk does not
    /// declare a body of six bytes.
    MalformedChunk,
    /// The header's format field is not 1, 2 or 3.
    InvalidFormat,
    /// A status byte is not in the table of recognized messages.
    UnknownMessage,
    /// A variable-length quantity does not end within four bytes.
    MalformedQuantity,
    /// The events of a track do not end exactly where its chunk ends.
    Framing,
}

/// A failure together with the offset of the field at which it was detected.
#[derive(Clone, Copy, Debug, PartialEq, Eq, Structural)]
pub struct DecodeError {
    pub kind: DecodeErrorKind,
    pub offset: usize,
}

/// The failure of the given kind at the given offset.
pub open spec fn failure(kind: DecodeErrorKind, offset: int) -> DecodeError {
    DecodeError { kind, offset: offset as usize }
}

impl DecodeError {
    /// Builds the failure of `kind` detected at `offset`.
    pub fn new(kind: DecodeErrorKind, offset: usize) -> (e: DecodeError)
        ensures
            e == failure(kind, offset as int),
            e.kind == kind,
            e.offset == offset,
    {
        DecodeError { kind, offset }
    }
}

} // verus!
