//! Events: a delta time followed by one message.

use vstd::prelude::*;
use crate::error::{failure, DecodeError, DecodeErrorKind};
use crate::primitives::{
    copy_bytes,
    in_bounds,
    lemma_vlq_value_bound,
    parse_ticks,
    spec_parse_ticks,
    vlq_prefix,
    vlq_value,
};

verus! {

/// The kinds of message, named by the status byte that opens them.
#[derive(Clone, Copy, Debug, PartialEq, Eq, Structural)]
pub enum StatusByte {
    /// Release a note and stop playing it (0x80 to 0x8F).
    NoteOff,
    /// Play a note and start sounding it (0x90 to 0x9F).
    NoteOn,
    /// Apply pressure to a note that is playing (0xA0 to 0xAF).
    Aftertouch,
    /// Move a controller, such as a slider, knob or switch (0xB0 to 0xBF).
    Controller,
    /// Assign a program to a channel (0xC0 to 0xCF).
    ProgramChange,
    /// Apply pressure to a whole channel (0xD0 to 0xDF).
    ChannelPressure,
    /// Bend the pitch of a channel up or down (0xE0 to 0xEF).
    PitchWheel,
    /// A device-specific block of bytes (0xF0).
    SystemExclusive,
    /// Keep the time in line with another device (0xF1).
    MidiTimeCode,
    /// Cue to a point in the sequence (0xF2).
    SongPositionPointer,
    /// Choose a sequence for playback (0xF3).
    SongSelect,
    /// Tune (0xF6).
    TuneRequest,
    /// The tick of the clock (0xF8).
    MidiClock,
    /// Start playback (0xFA).
    MidiStart,
    /// Resume playback (0xFB).
    MidiContinue,
    /// Stop playback (0xFC).
    MidiStop,
    /// The connection is alive (0xFE).
    ActiveSense,
    /// Return to the default state (0xFF).
    Reset,
}

/// One message: its kind, the channel it addresses, and its payload bytes.
#[derive(Clone, Debug, PartialEq, Eq)]
pub struct MidiMessage {
    pub status_byte: StatusByte,
    /// The low nibble of the status byte for a channel message, else 0.
    pub channel: u8,
    /// The bytes after the status byte that belong to the message; for a
    /// system-exclusive message the block without its length prefix.
    pub data: Vec<u8>,
}

/// A message as a mathematical value.
pub ghost struct MessageModel {
    pub status_byte: StatusByte,
    pub channel: u8,
    pub data: Seq<u8>,
}

/// One event: the ticks since the previous event of the track, and a message.
#[derive(Clone, Debug, PartialEq, Eq)]
pub struct MidiEvent {
    pub delta_time: u32,
    pub message: MidiMessage,
}

/// An event as a mathematical value.
pub ghost struct EventModel {
    pub delta_time: u32,
    pub message: MessageModel,
}

impl View for MidiMessage {
    type V = MessageModel;

    open spec fn view(&self) -> MessageModel {
        MessageModel { status_byte: self.status_byte, channel: self.channel, data: self.data@ }
    }
}

impl View for MidiEvent {
    type V = EventModel;

    open spec fn view(&self) -> EventModel {
        EventModel { delta_time: self.delta_time, message: self.message@ }
    }
}

impl StatusByte {
    /// The status byte of this kind, on channel 0 for a channel message.
    pub open spec fn spec_code(self) -> u8 {
        match self {
            StatusByte::NoteOff => 0x80,
            StatusByte::NoteOn => 0x90,
            StatusByte::Aftertouch => 0xA0,
            StatusByte::Controller => 0xB0,
            StatusByte::ProgramChange => 0xC0,
            StatusByte::ChannelPressure => 0xD0,
            StatusByte::PitchWheel => 0xE0,
            StatusByte::SystemExclusive => 0xF0,
            StatusByte::MidiTimeCode => 0xF1,
            StatusByte::SongPositionPointer => 0xF2,
            StatusByte::SongSelect => 0xF3,
            StatusByte::TuneRequest => 0xF6,
            StatusByte::MidiClock => 0xF8,
            StatusByte::MidiStart => 0xFA,
            StatusByte::MidiContinue => 0xFB,
            StatusByte::MidiStop => 0xFC,
            StatusByte::ActiveSense => 0xFE,
            StatusByte::Reset => 0xFF,
        }
    }

    /// Whether messages of this kind address a channel.
    pub open spec fn is_channel_voice(self) -> bool {
        self.spec_code() < 0xF0
    }

    /// The number of payload bytes that follow the status byte, where the
    /// kind fixes it; a system-exclusive block states its own length.
    pub open spec fn spec_payload_length(self) -> Option<int> {
        match self {
            StatusByte::NoteOff => Some(2),
            StatusByte::NoteOn => Some(2),
            StatusByte::Aftertouch => Some(2),
            StatusByte::Controller => Some(2),
            StatusByte::ProgramChange => Some(1),
            StatusByte::ChannelPressure => Some(1),
            StatusByte::PitchWheel => Some(2),
            StatusByte::SystemExclusive => None,
            _ => Some(0),
        }
    }

    /// The status byte of this kind, on channel 0 for a channel message.
    pub fn code(&self) -> (r: u8)
        ensures
            r == self.spec_code(),
            spec_classify(r) == Some(*self),
    {
        match self {
            StatusByte::NoteOff => 0x80,
            StatusByte::NoteOn => 0x90,
            StatusByte::Aftertouch => 0xA0,
            StatusByte::Controller => 0xB0,
            StatusByte::ProgramChange => 0xC0,
            StatusByte::ChannelPressure => 0xD0,
            StatusByte::PitchWheel => 0xE0,
            StatusByte::SystemExclusive => 0xF0,
            StatusByte::MidiTimeCode => 0xF1,
            StatusByte::SongPositionPointer => 0xF2,
            StatusByte::SongSelect => 0xF3,
            StatusByte::TuneRequest => 0xF6,
            StatusByte::MidiClock => 0xF8,
            StatusByte::MidiStart => 0xFA,
            StatusByte::MidiContinue => 0xFB,
            StatusByte::MidiStop => 0xFC,
            StatusByte::ActiveSense => 0xFE,
            StatusByte::Reset => 0xFF,
        }
    }

    /// The number of payload bytes that follow the status byte, where the
    /// kind fixes it.
    pub fn payload_length(&self) -> (r: Option<usize>)
        ensures
            match r {
                Some(n) => self.spec_payload_length() == Some(n as int),
                None => self.spec_payload_length() is None,
            },
    {
        match self {
            StatusByte::NoteOff => Some(2),
            StatusByte::NoteOn => Some(2),
            StatusByte::Aftertouch => Some(2),
            StatusByte::Controller => Some(2),
            StatusByte::ProgramChange => Some(1),
            StatusByte::ChannelPressure => Some(1),
            StatusByte::PitchWheel => Some(2),
            StatusByte::SystemExclusive => None,
            _ => Some(0),
        }
    }

    /// The kind of message that `status` opens, if it opens one.
    pub fn from_u8(status: u8) -> (r: Option<StatusByte>)
        ensures
            r == spec_classify(status),
    {
        assert(status >> 4 == status / 16) by (bit_vector);
        let high: u8 = status >> 4;
        match high {
            0x8 => Some(StatusByte::NoteOff),
            0x9 => Some(StatusByte::NoteOn),
            0xA => Some(StatusByte::Aftertouch),
            0xB => Some(StatusByte::Controller),
            0xC => Some(StatusByte::ProgramChange),
            0xD => Some(StatusByte::ChannelPressure),
            0xE => Some(StatusByte::PitchWheel),
            0xF => match status {
                0xF0 => Some(StatusByte::SystemExclusive),
                0xF1 => Some(StatusByte::MidiTimeCode),
                0xF2 => Some(StatusByte::SongPositionPointer),
                0xF3 => Some(StatusByte::SongSelect),
                0xF6 => Some(StatusByte::TuneRequest),
                0xF8 => Some(StatusByte::MidiClock),
                0xFA => Some(StatusByte::MidiStart),
                0xFB => Some(StatusByte::MidiContinue),
                0xFC => Some(StatusByte::MidiStop),
                0xFE => Some(StatusByte::ActiveSense),
                0xFF => Some(StatusByte::Reset),
                _ => None,
            },
            _ => None,
        }
    }
}

/// The table of status bytes. From 0x80 to 0xEF the high nibble names the
/// kind and the low nibble the channel; from 0xF0 on the whole byte names
/// the kind. A byte below 0x80, and 0xF4, 0xF5, 0xF7, 0xF9 and 0xFD, open no
/// message.
pub open spec fn spec_classify(status: u8) -> Option<StatusByte> {
    if status < 0x80 {
        None
    } else if status < 0x90 {
        Some(StatusByte::NoteOff)
    } else if status < 0xA0 {
        Some(StatusByte::NoteOn)
    } else if status < 0xB0 {
        Some(StatusByte::Aftertouch)
    } else if status < 0xC0 {
        Some(StatusByte::Controller)
    } else if status < 0xD0 {
        Some(StatusByte::ProgramChange)
    } else if status < 0xE0 {
        Some(StatusByte::ChannelPressure)
    } else if status < 0xF0 {
        Some(StatusByte::PitchWheel)
    } else if status == 0xF0 {
        Some(StatusByte::SystemExclusive)
    } else if status == 0xF1 {
        Some(StatusByte::MidiTimeCode)
    } else if status == 0xF2 {
        Some(StatusByte::SongPositionPointer)
    } else if status == 0xF3 {
        Some(StatusByte::SongSelect)
    } else if status == 0xF6 {
        Some(StatusByte::TuneRequest)
    } else if status == 0xF8 {
        Some(StatusByte::MidiClock)
    } else if status == 0xFA {
        Some(StatusByte::MidiStart)
    } else if status == 0xFB {
        Some(StatusByte::MidiContinue)
    } else if status == 0xFC {
        Some(StatusByte::MidiStop)
    } else if status == 0xFE {
        Some(StatusByte::ActiveSense)
    } else if status == 0xFF {
        Some(StatusByte::Reset)
    } else {
        None
    }
}

/// The channel a status byte addresses: its low nibble below 0xF0, else 0.
pub open spec fn spec_channel(status: u8) -> u8 {
    if status < 0xF0 {
        status % 16
    } else {
        0
    }
}

impl MessageModel {
    /// The payload has the shape that the kind asks for, and only channel
    /// messages name a channel.
    pub open spec fn well_formed(self) -> bool {
        &&& self.channel < 16
        &&& !self.status_byte.is_channel_voice() ==> self.channel == 0
        &&& self.status_byte.spec_payload_length() matches Some(n) ==> self.data.len() == n
    }
}

impl EventModel {
    /// The delta time fits in the 28 bits that a quantity of four bytes can
    /// hold, and the message is well formed.
    pub open spec fn well_formed(self) -> bool {
        self.delta_time < 0x1000_0000 && self.message.well_formed()
    }
}

/// Where the payload of a message of `kind` lies, given the offset `body`
/// just past the status byte: its start and its length. A fixed payload
/// starts at `body`; a system-exclusive block starts after the
/// variable-length quantity that states its length.
pub open spec fn spec_payload_extent(buf: Seq<u8>, body: int, kind: StatusByte) -> Result<
    (int, int),
    DecodeError,
> {
    match kind.spec_payload_length() {
        Some(n) => Ok((body, n)),
        None => match spec_parse_ticks(buf, body) {
            Ok((n, start)) => Ok((start, n as int)),
            Err(e) => Err(e),
        },
    }
}

/// Decoding the message whose status byte is at `offset`: the message and
/// the offset just past its payload. A missing status byte is a bounds
/// failure at `offset`, a status byte outside the table an unknown message
/// at `offset`, and a payload that runs past the buffer a bounds failure at
/// the start of the payload.
pub open spec fn spec_parse_message(buf: Seq<u8>, offset: int) -> Result<
    (MessageModel, int),
    DecodeError,
> {
    if !in_bounds(buf, offset, 1) {
        Err(failure(DecodeErrorKind::Bounds, offset))
    } else {
        match spec_classify(buf[offset]) {
            None => Err(failure(DecodeErrorKind::UnknownMessage, offset)),
            Some(kind) => match spec_payload_extent(buf, offset + 1, kind) {
                Err(e) => Err(e),
                Ok((start, length)) => if !in_bounds(buf, start, length) {
                    Err(failure(DecodeErrorKind::Bounds, start))
                } else {
                    Ok(
                        (
                            MessageModel {
                                status_byte: kind,
                                channel: spec_channel(buf[offset]),
                                data: buf.subrange(start, start + length),
                            },
                            start + length,
                        ),
                    )
                },
            },
        }
    }
}

/// Decoding the event at `offset`: a delta time as a variable-length
/// quantity, then a message; the event and the offset just past it, or the
/// failure of whichever part fails first.
pub open spec fn spec_parse_event(buf: Seq<u8>, offset: int) -> Result<
    (EventModel, int),
    DecodeError,
> {
    match spec_parse_ticks(buf, offset) {
        Err(e) => Err(e),
        Ok((ticks, at)) => match spec_parse_message(buf, at) {
            Err(e) => Err(e),
            Ok((message, next)) => Ok((EventModel { delta_time: ticks, message }, next)),
        },
    }
}

/// The status byte of a kind is classified as that kind, and a classified
/// status byte is the status byte of its kind with the channel put in.
pub proof fn lemma_status_codes(kind: StatusByte, status: u8)
    ensures
        spec_classify(kind.spec_code()) == Some(kind),
        spec_channel(kind.spec_code()) == 0,
        spec_classify(status) matches Some(found) ==> status == found.spec_code() + spec_channel(
            status,
        ) && (spec_channel(status) != 0 ==> found.is_channel_voice()),
{
}

/// A decoded event takes at least two bytes, lies inside the buffer, and is
/// well formed.
pub proof fn lemma_event_extent(buf: Seq<u8>, offset: int)
    ensures
        spec_parse_event(buf, offset) matches Ok((event, next)) ==> 0 <= offset && offset + 2
            <= next <= buf.len() && event.well_formed(),
{
    if spec_parse_event(buf, offset) is Ok {
        lemma_vlq_value_bound(buf, offset, (vlq_prefix(buf, offset) + 1) as nat);
    }
}

/// A buffer cut off inside an event no longer yields that event: decoding
/// at the same offset ends in a bounds failure.
pub proof fn lemma_truncated_event_is_bounds(buf: Seq<u8>, offset: int, length: int)
    requires
        spec_parse_event(buf, offset) is Ok,
        0 <= length < spec_parse_event(buf, offset)->Ok_0.1,
    ensures
        spec_parse_event(buf.take(length), offset) matches Err(e) && e.kind
            == DecodeErrorKind::Bounds,
{
    let cut = buf.take(length);
    assert forall|i: int| 0 <= i < length implies cut[i] == buf[i] by {}
    let (ticks, at) = spec_parse_ticks(buf, offset)->Ok_0;
    lemma_truncated_quantity(buf, offset, length);
    if length >= at {
        assert(spec_parse_ticks(cut, offset) == spec_parse_ticks(buf, offset));
        if length > at {
            let kind = spec_classify(buf[at])->Some_0;
            if kind == StatusByte::SystemExclusive {
                lemma_truncated_quantity(buf, at + 1, length);
            }
        }
    }
}

/// A quantity that decodes in a buffer decodes to the same in a prefix of
/// the buffer that holds all of it, and is a bounds failure in a prefix
/// that does not.
pub proof fn lemma_truncated_quantity(buf: Seq<u8>, offset: int, length: int)
    requires
        spec_parse_ticks(buf, offset) is Ok,
        0 <= length <= buf.len(),
    ensures
        length >= spec_parse_ticks(buf, offset)->Ok_0.1 ==> spec_parse_ticks(
            buf.take(length),
            offset,
        ) == spec_parse_ticks(buf, offset),
        length < spec_parse_ticks(buf, offset)->Ok_0.1 ==> spec_parse_ticks(
            buf.take(length),
            offset,
        ) == Err::<(u32, int), DecodeError>(failure(DecodeErrorKind::Bounds, offset)),
{
    let cut = buf.take(length);
    assert forall|i: int| 0 <= i < length implies cut[i] == buf[i] by {}
    reveal_with_fuel(vlq_value, 5);
}

/// The channel that `status` addresses.
pub fn channel_of(status: u8) -> (r: u8)
    ensures
        r == spec_channel(status),
        r < 16,
{
    if status < 0xF0 {
        assert(status & 0x0F == status % 16) by (bit_vector);
        status & 0x0F
    } else {
        0
    }
}

/// Decodes the message whose status byte is at `offset` and returns it with
/// the offset just past its payload.
pub fn parse_message(buf: &[u8], offset: usize) -> (r: Result<(MidiMessage, usize), DecodeError>)
    ensures
        match r {
            Ok((message, next)) => spec_parse_message(buf@, offset as int) == Ok::<
                (MessageModel, int),
                DecodeError,
            >((message@, next as int)),
            Err(e) => spec_parse_message(buf@, offset as int) == Err::<
                (MessageModel, int),
                DecodeError,
            >(e),
        },
        r matches Ok((message, next)) ==> message@.well_formed() && offset < next <= buf@.len(),
{
    if offset >= buf.len() {
        return Err(DecodeError::new(DecodeErrorKind::Bounds, offset));
    }
    let status: u8 = buf[offset];
    let kind = match StatusByte::from_u8(status) {
        Some(kind) => kind,
        None => {
            return Err(DecodeError::new(DecodeErrorKind::UnknownMessage, offset));
        },
    };
    let body: usize = offset + 1;
    let (start, length): (usize, usize) = match kind.payload_length() {
        Some(n) => (body, n),
        None => {
            let (n, start): (u32, usize) = parse_ticks(buf, body)?;
            (start, n as usize)
        },
    };
    if length > buf.len() - start {
        return Err(DecodeError::new(DecodeErrorKind::Bounds, start));
    }
    let data = copy_bytes(buf, start, start + length);
    let channel: u8 = channel_of(status);
    Ok((MidiMessage { status_byte: kind, channel, data }, start + length))
}

/// Decodes the event at `offset` and returns it with the offset just past
/// it. An event takes at least two bytes and never reaches past the buffer.
pub fn parse_event(buf: &[u8], offset: usize) -> (r: Result<(MidiEvent, usize), DecodeError>)
    ensures
        match r {
            Ok((event, next)) => spec_parse_event(buf@, offset as int) == Ok::<
                (EventModel, int),
                DecodeError,
            >((event@, next as int)),
            Err(e) => spec_parse_event(buf@, offset as int) == Err::<(EventModel, int), DecodeError>(
                e,
            ),
        },
        r matches Ok((event, next)) ==> event@.well_formed() && offset + 2 <= next <= buf@.len(),
{
    let (ticks, at): (u32, usize) = parse_ticks(buf, offset)?;
    let (message, next): (MidiMessage, usize) = parse_message(buf, at)?;
    Ok((MidiEvent { delta_time: ticks, message }, next))
}

} // verus!
