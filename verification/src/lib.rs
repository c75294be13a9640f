//! A decoder for the standard MIDI file container format.
//!
//! A byte buffer is framed into one header chunk and a sequence of track
//! chunks; each track holds delta-time-tagged events. Every decoding function
//! is stated against a mathematical model of the format over `Seq<u8>`, so the
//! result of a decode, success or failure, is a function of the bytes alone.

pub mod error;
pub mod primitives;
pub mod header;
pub mod event;
pub mod track;
pub mod file;
pub mod render;
pub mod locality;

pub use error::{DecodeError, DecodeErrorKind};
pub use primitives::{lower_seven_bits, msb_is_one, parse_ticks, u16_from_u8_at, u32_from_u8_at};
pub use header::{file_format_from_u16, parse_header, FileFormat, MidiHeader};
pub use event::{parse_event, parse_message, MidiEvent, MidiMessage, StatusByte};
pub use track::{get_track_size, parse_track, MidiTrack};
pub use file::{parse_all_tracks, parse_file, MidiFile};
pub use render::render;
