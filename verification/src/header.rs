//! The fourteen-byte header chunk.

use vstd::prelude::*;
use crate::error::{failure, DecodeError, DecodeErrorKind};
use crate::primitives::{be_u16, be_u32, in_bounds, u16_from_u8_at, u32_from_u8_at};

verus! {

/// How the tracks of a file relate to one another.
#[derive(Clone, Copy, Debug, PartialEq, Eq, Structural)]
pub enum FileFormat {
    /// One track; written as 1.
    SingleTrack,
    /// Several tracks that play together; written as 2.
    MultipleSynchronous,
    /// Several independent tracks; written as 3.
    MultipleAsynchronous,
}

/// The header of a file: its format, the number of track chunks that follow,
/// and the timing resolution in ticks per quarter note.
#[derive(Clone, Copy, Debug, PartialEq, Eq, Structural)]
pub struct MidiHeader {
    pub file_format: FileFormat,
    pub num_tracks: u16,
    pub ticks_per_quarter: u16,
}

/// The number of bytes the header chunk occupies.
pub const HEADER_LENGTH: usize = 14;

/// The body length that every header chunk declares.
pub const HEADER_BODY_LENGTH: u32 = 6;

/// The format a header's format field selects, if any.
pub open spec fn spec_file_format(value: int) -> Option<FileFormat> {
    if value == 1 {
        Some(FileFormat::SingleTrack)
    } else if value == 2 {
        Some(FileFormat::MultipleSynchronous)
    } else if value == 3 {
        Some(FileFormat::MultipleAsynchronous)
    } else {
        None
    }
}

/// Whether the four bytes at `offset` are exactly `tag`.
pub open spec fn has_tag(buf: Seq<u8>, offset: int, tag: Seq<u8>) -> bool {
    in_bounds(buf, offset, 4) && buf.subrange(offset, offset + 4) == tag
}

/// The tag of the header chunk, `MThd`.
pub open spec fn header_tag() -> Seq<u8> {
    seq![0x4du8, 0x54u8, 0x68u8, 0x64u8]
}

/// Decoding the header chunk at the start of the buffer, field by field; the
/// first field that is missing or wrong decides the failure, and carries its
/// own offset.
pub open spec fn spec_parse_header(buf: Seq<u8>) -> Result<MidiHeader, DecodeError> {
    if !in_bounds(buf, 0, 4) {
        Err(failure(DecodeErrorKind::Bounds, 0))
    } else if !has_tag(buf, 0, header_tag()) {
        Err(failure(DecodeErrorKind::MalformedChunk, 0))
    } else if !in_bounds(buf, 4, 4) {
        Err(failure(DecodeErrorKind::Bounds, 4))
    } else if be_u32(buf, 4) != 6 {
        Err(failure(DecodeErrorKind::MalformedChunk, 4))
    } else if !in_bounds(buf, 8, 2) {
        Err(failure(DecodeErrorKind::Bounds, 8))
    } else if spec_file_format(be_u16(buf, 8)) is None {
        Err(failure(DecodeErrorKind::InvalidFormat, 8))
    } else if !in_bounds(buf, 10, 2) {
        Err(failure(DecodeErrorKind::Bounds, 10))
    } else if !in_bounds(buf, 12, 2) {
        Err(failure(DecodeErrorKind::Bounds, 12))
    } else {
        Ok(
            MidiHeader {
                file_format: spec_file_format(be_u16(buf, 8))->Some_0,
                num_tracks: be_u16(buf, 10) as u16,
                ticks_per_quarter: be_u16(buf, 12) as u16,
            },
        )
    }
}

impl FileFormat {
    /// The number that stands for this format in a header.
    pub open spec fn spec_code(self) -> int {
        match self {
            FileFormat::SingleTrack => 1,
            FileFormat::MultipleSynchronous => 2,
            FileFormat::MultipleAsynchronous => 3,
        }
    }

    /// The number that stands for this format in a header.
    pub fn code(&self) -> (r: u16)
        ensures
            r == self.spec_code(),
            spec_file_format(r as int) == Some(*self),
    {
        match self {
            FileFormat::SingleTrack => 1,
            FileFormat::MultipleSynchronous => 2,
            FileFormat::MultipleAsynchronous => 3,
        }
    }
}

/// The format that `value` selects: 1, 2 and 3 name the three formats, and
/// no other value names one.
pub fn file_format_from_u16(value: u16) -> (r: Option<FileFormat>)
    ensures
        r == spec_file_format(value as int),
        r is Some <==> 1 <= value <= 3,
{
    match value {
        1 => Some(FileFormat::SingleTrack),
        2 => Some(FileFormat::MultipleSynchronous),
        3 => Some(FileFormat::MultipleAsynchronous),
        _ => None,
    }
}

/// The number of a format selects that format, and a number that selects a
/// format is the number of that format.
pub proof fn lemma_format_codes(format: FileFormat, value: int)
    ensures
        spec_file_format(format.spec_code()) == Some(format),
        spec_file_format(value) matches Some(found) ==> found.spec_code() == value,
        spec_file_format(value) is Some <==> 1 <= value <= 3,
{
}

/// The fourteen bytes that encode `header`.
pub open spec fn header_encoding(header: MidiHeader) -> Seq<u8> {
    seq![
        0x4du8,
        0x54u8,
        0x68u8,
        0x64u8,
        0u8,
        0u8,
        0u8,
        6u8,
        0u8,
        header.file_format.spec_code() as u8,
        (header.num_tracks / 0x100) as u8,
        (header.num_tracks % 0x100) as u8,
        (header.ticks_per_quarter / 0x100) as u8,
        (header.ticks_per_quarter % 0x100) as u8,
    ]
}

/// Decoding the encoding of a header gives the header back, every bit of the
/// track count and of the timing resolution included, whatever follows the
/// fourteen bytes.
pub proof fn lemma_header_round_trip(header: MidiHeader, rest: Seq<u8>)
    ensures
        spec_parse_header(header_encoding(header) + rest) == Ok::<MidiHeader, DecodeError>(
            header,
        ),
{
    let code = header_encoding(header);
    let buf = code + rest;
    assert forall|i: int| 0 <= i < 14 implies buf[i] == code[i] by {}
    assert(buf.subrange(0, 4) =~= header_tag());
}

/// A header that decodes carries the big-endian values of bytes 10 to 11 and
/// 12 to 13 as its track count and timing resolution, and the format that
/// bytes 8 to 9 select.
pub proof fn lemma_header_fields(buf: Seq<u8>)
    ensures
        spec_parse_header(buf) matches Ok(header) ==> {
            &&& buf.len() >= 14
            &&& header.num_tracks == buf[10] * 0x100 + buf[11]
            &&& header.ticks_per_quarter == buf[12] * 0x100 + buf[13]
            &&& header.file_format.spec_code() == buf[8] * 0x100 + buf[9]
        },
{
}

/// Comparing the four bytes at `offset` with `tag`: whether they are equal,
/// or a bounds failure at `offset` when they are not all there.
pub open spec fn spec_tag_matches(buf: Seq<u8>, offset: int, tag: Seq<u8>) -> Result<
    bool,
    DecodeError,
> {
    if in_bounds(buf, offset, 4) {
        Ok(has_tag(buf, offset, tag))
    } else {
        Err(failure(DecodeErrorKind::Bounds, offset))
    }
}

/// Compares the four bytes at `offset` with `tag`.
pub fn tag_matches(buf: &[u8], offset: usize, tag: [u8; 4]) -> (r: Result<bool, DecodeError>)
    ensures
        r == spec_tag_matches(buf@, offset as int, tag@),
{
    if buf.len() < 4 || offset > buf.len() - 4 {
        return Err(DecodeError::new(DecodeErrorKind::Bounds, offset));
    }
    let same: bool = buf[offset] == tag[0] && buf[offset + 1] == tag[1] && buf[offset + 2] == tag[2]
        && buf[offset + 3] == tag[3];
    proof {
        let window = buf@.subrange(offset as int, offset + 4);
        assert(window.len() == 4 && tag@.len() == 4);
        assert(window[0] == buf@[offset as int] && window[1] == buf@[offset + 1] && window[2]
            == buf@[offset + 2] && window[3] == buf@[offset + 3]);
        if same {
            assert(window =~= tag@);
        }
    }
    Ok(same)
}

/// Decodes the header chunk that opens `buf`.
///
/// On success the track count and the timing resolution are the big-endian
/// values of bytes 10..12 and 12..14, whatever they are.
pub fn parse_header(buf: &[u8]) -> (r: Result<MidiHeader, DecodeError>)
    ensures
        r == spec_parse_header(buf@),
        r is Ok ==> buf@.len() >= HEADER_LENGTH,
        r matches Ok(h) ==> h.num_tracks == be_u16(buf@, 10) && h.ticks_per_quarter == be_u16(
            buf@,
            12,
        ),
{
    let tagged: bool = tag_matches(buf, 0, [0x4d, 0x54, 0x68, 0x64])?;
    if !tagged {
        return Err(DecodeError::new(DecodeErrorKind::MalformedChunk, 0));
    }
    let body_length: u32 = u32_from_u8_at(buf, 4)?;
    if body_length != HEADER_BODY_LENGTH {
        return Err(DecodeError::new(DecodeErrorKind::MalformedChunk, 4));
    }
    let format_code: u16 = u16_from_u8_at(buf, 8)?;
    let file_format = match file_format_from_u16(format_code) {
        Some(x) => x,
        None => {
            return Err(DecodeError::new(DecodeErrorKind::InvalidFormat, 8));
        },
    };
    let num_tracks: u16 = u16_from_u8_at(buf, 10)?;
    let ticks_per_quarter: u16 = u16_from_u8_at(buf, 12)?;
    Ok(MidiHeader { file_format, num_tracks, ticks_per_quarter })
}

} // verus!
