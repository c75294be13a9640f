//! Track chunks: a tag, a declared length, and the events that fill it.

use vstd::prelude::*;
use crate::error::{failure, DecodeError, DecodeErrorKind};
use crate::event::{lemma_event_extent, parse_event, spec_parse_event, EventModel, MidiEvent};
use crate::header::{has_tag, tag_matches};
use crate::primitives::{be_u32, in_bounds, spec_u32_at, u32_from_u8_at};

verus! {

/// One track: the byte length its chunk declares and its events in playback
/// order.
#[derive(Clone, Debug, PartialEq, Eq)]
pub struct MidiTrack {
    pub track_length: u32,
    pub events: Vec<MidiEvent>,
}

/// A track as a mathematical value.
pub ghost struct TrackModel {
    pub track_length: u32,
    pub events: Seq<EventModel>,
}

/// The events of a vector as mathematical values, in the same order.
pub open spec fn events_model(events: Seq<MidiEvent>) -> Seq<EventModel> {
    events.map_values(|e: MidiEvent| e@)
}

impl View for MidiTrack {
    type V = TrackModel;

    open spec fn view(&self) -> TrackModel {
        TrackModel { track_length: self.track_length, events: events_model(self.events@) }
    }
}

impl TrackModel {
    /// Every event of the track is well formed.
    pub open spec fn well_formed(self) -> bool {
        forall|i: int| 0 <= i < self.events.len() ==> (#[trigger] self.events[i]).well_formed()
    }
}

/// The number of bytes a chunk's tag and length field occupy.
pub const CHUNK_HEADER_LENGTH: usize = 8;

/// The tag of a track chunk, `MTrk`.
pub open spec fn track_tag() -> Seq<u8> {
    seq![0x4du8, 0x54u8, 0x72u8, 0x6bu8]
}

/// A result with `head` put in front of what it holds; a failure stays as it
/// is.
pub open spec fn prepend<T>(head: Seq<T>, rest: Result<Seq<T>, DecodeError>) -> Result<
    Seq<T>,
    DecodeError,
> {
    match rest {
        Ok(tail) => Ok(head + tail),
        Err(e) => Err(e),
    }
}

/// Decoding the events that fill the bytes from `cursor` up to `end`, one
/// after the other. The first event that fails decides the failure. An event
/// that starts before `end` and stops after it is a framing failure at the
/// offset where that event starts.
pub open spec fn spec_parse_events(buf: Seq<u8>, cursor: int, end: int) -> Result<
    Seq<EventModel>,
    DecodeError,
>
    decreases end - cursor,
{
    if cursor >= end {
        Ok(Seq::empty())
    } else {
        match spec_parse_event(buf, cursor) {
            Err(e) => Err(e),
            Ok((event, next)) => if next > end {
                Err(failure(DecodeErrorKind::Framing, cursor))
            } else {
                proof {
                    lemma_event_extent(buf, cursor);
                }
                prepend(seq![event], spec_parse_events(buf, next, end))
            },
        }
    }
}

/// The length that the chunk at `offset` declares: the big-endian `u32` four
/// bytes into it. A buffer that ends inside the tag is a bounds failure at
/// `offset`, one that ends inside the length a bounds failure four bytes on.
pub open spec fn spec_track_size(buf: Seq<u8>, offset: int) -> Result<u32, DecodeError> {
    if !in_bounds(buf, offset, 4) {
        Err(failure(DecodeErrorKind::Bounds, offset))
    } else {
        spec_u32_at(buf, offset + 4)
    }
}

/// Decoding the track chunk at `offset`: the track and the offset just past
/// the chunk. The tag must be `MTrk`; the events must end exactly where the
/// declared length says the chunk ends.
pub open spec fn spec_parse_track(buf: Seq<u8>, offset: int) -> Result<
    (TrackModel, int),
    DecodeError,
> {
    if !in_bounds(buf, offset, 4) {
        Err(failure(DecodeErrorKind::Bounds, offset))
    } else if !has_tag(buf, offset, track_tag()) {
        Err(failure(DecodeErrorKind::MalformedChunk, offset))
    } else if !in_bounds(buf, offset + 4, 4) {
        Err(failure(DecodeErrorKind::Bounds, offset + 4))
    } else {
        let length = be_u32(buf, offset + 4);
        let end = offset + 8 + length;
        track_of(length as u32, end, spec_parse_events(buf, offset + 8, end))
    }
}

/// The track that a chunk of the given declared length, ending at `end`,
/// makes of its decoded events; a failure among the events is the track's.
pub open spec fn track_of(length: u32, end: int, events: Result<Seq<EventModel>, DecodeError>)
    -> Result<(TrackModel, int), DecodeError> {
    match events {
        Err(e) => Err(e),
        Ok(events) => Ok((TrackModel { track_length: length, events }, end)),
    }
}

/// How decoding the events from `cursor` goes on after its first event.
pub proof fn lemma_events_step(buf: Seq<u8>, cursor: int, end: int)
    requires
        cursor < end,
    ensures
        match spec_parse_event(buf, cursor) {
            Err(e) => spec_parse_events(buf, cursor, end) == Err::<Seq<EventModel>, DecodeError>(
                e,
            ),
            Ok((event, next)) => spec_parse_events(buf, cursor, end) == if next > end {
                Err::<Seq<EventModel>, DecodeError>(failure(DecodeErrorKind::Framing, cursor))
            } else {
                prepend(seq![event], spec_parse_events(buf, next, end))
            },
        },
{
}

/// Whether `events` are what decoding one event right after the other gives
/// from `cursor` on, the last of them ending at `end`.
pub open spec fn decode_in_a_row(buf: Seq<u8>, cursor: int, events: Seq<EventModel>, end: int)
    -> bool
    decreases events.len(),
{
    if events.len() == 0 {
        cursor == end
    } else {
        match spec_parse_event(buf, cursor) {
            Ok((event, next)) => event == events[0] && decode_in_a_row(
                buf,
                next,
                events.drop_first(),
                end,
            ),
            Err(_) => false,
        }
    }
}

/// Whether a track chunk that declares `length` bytes of events starts at
/// `offset`.
pub open spec fn has_track_header(buf: Seq<u8>, offset: int, length: u32) -> bool {
    has_tag(buf, offset, track_tag()) && in_bounds(buf, offset + 4, 4) && be_u32(buf, offset + 4)
        == length
}

/// Events that decode in a row end no earlier than they start.
pub proof fn lemma_row_advances(buf: Seq<u8>, cursor: int, events: Seq<EventModel>, end: int)
    requires
        decode_in_a_row(buf, cursor, events, end),
    ensures
        cursor + 2 * events.len() <= end,
    decreases events.len(),
{
    if events.len() > 0 {
        lemma_event_extent(buf, cursor);
        let next = spec_parse_event(buf, cursor)->Ok_0.1;
        lemma_row_advances(buf, next, events.drop_first(), end);
    }
}

/// Events that decode in a row and end exactly at `end` are what the bytes
/// up to `end` decode to, in that order.
pub proof fn lemma_events_fill_exactly(
    buf: Seq<u8>,
    cursor: int,
    events: Seq<EventModel>,
    end: int,
)
    requires
        decode_in_a_row(buf, cursor, events, end),
    ensures
        spec_parse_events(buf, cursor, end) == Ok::<Seq<EventModel>, DecodeError>(events),
    decreases events.len(),
{
    if events.len() == 0 {
        assert(events =~= Seq::empty());
    } else {
        let (event, next) = spec_parse_event(buf, cursor)->Ok_0;
        lemma_event_extent(buf, cursor);
        lemma_row_advances(buf, next, events.drop_first(), end);
        lemma_events_fill_exactly(buf, next, events.drop_first(), end);
        lemma_events_step(buf, cursor, end);
        assert(seq![event] + events.drop_first() =~= events);
    }
}

/// Events that decode in a row up to `last`, followed by an event that
/// starts before `end` and stops behind it, are a framing failure at `last`.
pub proof fn lemma_events_overshoot(
    buf: Seq<u8>,
    cursor: int,
    events: Seq<EventModel>,
    last: int,
    end: int,
)
    requires
        decode_in_a_row(buf, cursor, events, last),
        last < end,
        spec_parse_event(buf, last) is Ok,
        spec_parse_event(buf, last)->Ok_0.1 > end,
    ensures
        spec_parse_events(buf, cursor, end) == Err::<Seq<EventModel>, DecodeError>(
            failure(DecodeErrorKind::Framing, last),
        ),
    decreases events.len(),
{
    lemma_row_advances(buf, cursor, events, last);
    lemma_events_step(buf, cursor, end);
    if events.len() > 0 {
        let next = spec_parse_event(buf, cursor)->Ok_0.1;
        lemma_row_advances(buf, next, events.drop_first(), last);
        lemma_events_overshoot(buf, next, events.drop_first(), last, end);
    }
}

/// What the bytes from `cursor` up to `end` decode to are events that
/// decode in a row from `cursor` and end exactly at `end`.
pub proof fn lemma_events_are_a_row(buf: Seq<u8>, cursor: int, end: int)
    requires
        cursor <= end,
        spec_parse_events(buf, cursor, end) is Ok,
    ensures
        decode_in_a_row(buf, cursor, spec_parse_events(buf, cursor, end)->Ok_0, end),
    decreases end - cursor,
{
    if cursor < end {
        lemma_events_step(buf, cursor, end);
        lemma_event_extent(buf, cursor);
        let (event, next) = spec_parse_event(buf, cursor)->Ok_0;
        lemma_events_are_a_row(buf, next, end);
        let rest = spec_parse_events(buf, next, end)->Ok_0;
        let all = spec_parse_events(buf, cursor, end)->Ok_0;
        assert(all =~= seq![event] + rest);
        assert(all.drop_first() =~= rest);
    }
}

/// Events that decode up to `end` lie inside the buffer.
pub proof fn lemma_events_extent(buf: Seq<u8>, cursor: int, end: int)
    requires
        cursor <= end,
        cursor <= buf.len(),
        spec_parse_events(buf, cursor, end) is Ok,
    ensures
        end <= buf.len(),
    decreases end - cursor,
{
    if cursor < end {
        lemma_events_step(buf, cursor, end);
        lemma_event_extent(buf, cursor);
        let next = spec_parse_event(buf, cursor)->Ok_0.1;
        lemma_events_extent(buf, next, end);
    }
}

/// Events that decode are well formed, each of them.
pub proof fn lemma_events_well_formed(buf: Seq<u8>, cursor: int, end: int)
    requires
        spec_parse_events(buf, cursor, end) is Ok,
    ensures
        forall|i: int|
            0 <= i < spec_parse_events(buf, cursor, end)->Ok_0.len() ==> (
            #[trigger] spec_parse_events(buf, cursor, end)->Ok_0[i]).well_formed(),
    decreases end - cursor,
{
    if cursor < end {
        lemma_events_step(buf, cursor, end);
        lemma_event_extent(buf, cursor);
        let next = spec_parse_event(buf, cursor)->Ok_0.1;
        lemma_events_well_formed(buf, next, end);
    }
}

/// A decoded track chunk lies inside the buffer, ends where its declared
/// length says, and is well formed.
pub proof fn lemma_track_extent(buf: Seq<u8>, offset: int)
    ensures
        spec_parse_track(buf, offset) matches Ok((track, next)) ==> 0 <= offset && next == offset
            + 8 + track.track_length && next <= buf.len() && track.well_formed(),
{
    if spec_parse_track(buf, offset) is Ok {
        let length = be_u32(buf, offset + 4);
        lemma_events_extent(buf, offset + 8, offset + 8 + length);
        lemma_events_well_formed(buf, offset + 8, offset + 8 + length);
    }
}

/// A track chunk whose events decode in a row and end exactly where its
/// declared length ends decodes to those events, in that order, and to the
/// offset just past the chunk.
pub proof fn lemma_track_filled_exactly(
    buf: Seq<u8>,
    offset: int,
    length: u32,
    events: Seq<EventModel>,
)
    requires
        has_track_header(buf, offset, length),
        decode_in_a_row(buf, offset + 8, events, offset + 8 + length),
    ensures
        spec_parse_track(buf, offset) == Ok::<(TrackModel, int), DecodeError>(
            (TrackModel { track_length: length, events }, offset + 8 + length),
        ),
{
    lemma_events_fill_exactly(buf, offset + 8, events, offset + 8 + length);
}

/// A track chunk whose events decode in a row up to an event that straddles
/// the end of its declared length is a framing failure at that event.
pub proof fn lemma_track_overshot(
    buf: Seq<u8>,
    offset: int,
    length: u32,
    events: Seq<EventModel>,
    last: int,
)
    requires
        has_track_header(buf, offset, length),
        decode_in_a_row(buf, offset + 8, events, last),
        last < offset + 8 + length,
        spec_parse_event(buf, last) is Ok,
        spec_parse_event(buf, last)->Ok_0.1 > offset + 8 + length,
    ensures
        spec_parse_track(buf, offset) == Err::<(TrackModel, int), DecodeError>(
            failure(DecodeErrorKind::Framing, last),
        ),
{
    lemma_events_overshoot(buf, offset + 8, events, last, offset + 8 + length);
}

/// The events of a decoded track are the events encoded in its chunk, one
/// right after the other from the end of the chunk's header to the end of
/// its declared length.
pub proof fn lemma_track_events_in_order(buf: Seq<u8>, offset: int)
    requires
        spec_parse_track(buf, offset) is Ok,
    ensures
        ({
            let (track, next) = spec_parse_track(buf, offset)->Ok_0;
            &&& has_track_header(buf, offset, track.track_length)
            &&& next == offset + 8 + track.track_length
            &&& decode_in_a_row(buf, offset + 8, track.events, next)
        }),
{
    let length = be_u32(buf, offset + 4);
    lemma_events_are_a_row(buf, offset + 8, offset + 8 + length);
}

/// Putting one more element behind the head before prepending.
pub proof fn lemma_prepend_push<T>(head: Seq<T>, item: T, rest: Result<Seq<T>, DecodeError>)
    ensures
        prepend(head, prepend(seq![item], rest)) == prepend(head.push(item), rest),
{
    match rest {
        Ok(tail) => {
            assert(head + (seq![item] + tail) =~= head.push(item) + tail);
        },
        Err(_) => {},
    }
}

/// The model of a vector of events grows with the vector.
pub proof fn lemma_events_model_push(events: Seq<MidiEvent>, event: MidiEvent)
    ensures
        events_model(events.push(event)) == events_model(events).push(event@),
{
    assert(events_model(events.push(event)) =~= events_model(events).push(event@));
}

/// Reads the length that the chunk at `offset` declares.
pub fn get_track_size(buf: &[u8], offset: usize) -> (r: Result<u32, DecodeError>)
    ensures
        r == spec_track_size(buf@, offset as int),
        r is Ok ==> offset + 8 <= buf@.len() <= usize::MAX,
{
    if buf.len() < 4 || offset > buf.len() - 4 {
        return Err(DecodeError::new(DecodeErrorKind::Bounds, offset));
    }
    let size: Result<u32, DecodeError> = u32_from_u8_at(buf, offset + 4);
    size
}

/// Decodes the track chunk at `offset` and returns the track with the offset
/// just past the chunk.
///
/// On success the events are those encoded between the chunk's header and
/// its declared end, in encoded order, and the chunk lies inside the buffer.
pub fn parse_track(buf: &[u8], offset: usize) -> (r: Result<(MidiTrack, usize), DecodeError>)
    ensures
        match r {
            Ok((track, next)) => spec_parse_track(buf@, offset as int) == Ok::<
                (TrackModel, int),
                DecodeError,
            >((track@, next as int)),
            Err(e) => spec_parse_track(buf@, offset as int) == Err::<(TrackModel, int), DecodeError>(
                e,
            ),
        },
        r matches Ok((track, next)) ==> track@.well_formed() && next == offset + 8
            + track.track_length && next <= buf@.len(),
{
    let tagged: bool = tag_matches(buf, offset, [0x4d, 0x54, 0x72, 0x6b])?;
    if !tagged {
        return Err(DecodeError::new(DecodeErrorKind::MalformedChunk, offset));
    }
    let track_size: u32 = get_track_size(buf, offset)?;
    let first: usize = offset + CHUNK_HEADER_LENGTH;
    let end: u128 = first as u128 + track_size as u128;
    let mut event_offset: usize = first;
    let mut midi_events: Vec<MidiEvent> = Vec::new();
    while (event_offset as u128) < end
        invariant
            first <= event_offset <= buf@.len(),
            event_offset <= end,
            spec_parse_track(buf@, offset as int) == track_of(
                track_size,
                end as int,
                spec_parse_events(buf@, first as int, end as int),
            ),
            end == first + track_size,
            first == offset + 8,
            forall|i: int|
                0 <= i < midi_events@.len() ==> (#[trigger] events_model(
                    midi_events@,
                )[i]).well_formed(),
            spec_parse_events(buf@, first as int, end as int) == prepend(
                events_model(midi_events@),
                spec_parse_events(buf@, event_offset as int, end as int),
            ),
        decreases end - event_offset,
    {
        proof {
            lemma_events_step(buf@, event_offset as int, end as int);
        }
        let (event, new_offset): (MidiEvent, usize) = parse_event(buf, event_offset)?;
        if new_offset as u128 > end {
            return Err(DecodeError::new(DecodeErrorKind::Framing, event_offset));
        }
        proof {
            lemma_prepend_push(
                events_model(midi_events@),
                event@,
                spec_parse_events(buf@, new_offset as int, end as int),
            );
            lemma_events_model_push(midi_events@, event);
        }
        midi_events.push(event);
        event_offset = new_offset;
    }
    proof {
        assert(events_model(midi_events@) + Seq::<EventModel>::empty() =~= events_model(
            midi_events@,
        ));
    }
    Ok((MidiTrack { track_length: track_size, events: midi_events }, event_offset))
}

} // verus!
