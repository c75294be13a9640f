//! A plain-text dump of a decoded file.
//!
//! The text names the header fields first, then each track with the number
//! of its events, then each event of the track with its delta time and its
//! message, all in stored order.

use vstd::prelude::*;
use vstd::string::StringExecFns;
use crate::event::{EventModel, MidiEvent, StatusByte};
use crate::file::{tracks_model, FileModel, MidiFile};
use crate::header::{FileFormat, MidiHeader};
use crate::track::{events_model, MidiTrack, TrackModel};

verus! {

/// The text of one decimal digit.
pub open spec fn digit_text(digit: int) -> Seq<char> {
    if digit == 0 {
        "0"@
    } else if digit == 1 {
        "1"@
    } else if digit == 2 {
        "2"@
    } else if digit == 3 {
        "3"@
    } else if digit == 4 {
        "4"@
    } else if digit == 5 {
        "5"@
    } else if digit == 6 {
        "6"@
    } else if digit == 7 {
        "7"@
    } else if digit == 8 {
        "8"@
    } else {
        "9"@
    }
}

/// The decimal text of a number, without leading zeros.
pub open spec fn decimal_text(value: nat) -> Seq<char>
    decreases value,
{
    if value < 10 {
        digit_text(value as int)
    } else {
        decimal_text(value / 10) + digit_text((value % 10) as int)
    }
}

/// The name of a file format.
pub open spec fn format_name(format: FileFormat) -> Seq<char> {
    match format {
        FileFormat::SingleTrack => "single track"@,
        FileFormat::MultipleSynchronous => "multiple synchronous tracks"@,
        FileFormat::MultipleAsynchronous => "multiple asynchronous tracks"@,
    }
}

/// The name of a kind of message.
pub open spec fn kind_name(kind: StatusByte) -> Seq<char> {
    match kind {
        StatusByte::NoteOff => "note off"@,
        StatusByte::NoteOn => "note on"@,
        StatusByte::Aftertouch => "aftertouch"@,
        StatusByte::Controller => "controller"@,
        StatusByte::ProgramChange => "program change"@,
        StatusByte::ChannelPressure => "channel pressure"@,
        StatusByte::PitchWheel => "pitch wheel"@,
        StatusByte::SystemExclusive => "system exclusive"@,
        StatusByte::MidiTimeCode => "time code"@,
        StatusByte::SongPositionPointer => "song position pointer"@,
        StatusByte::SongSelect => "song select"@,
        StatusByte::TuneRequest => "tune request"@,
        StatusByte::MidiClock => "clock"@,
        StatusByte::MidiStart => "start"@,
        StatusByte::MidiContinue => "continue"@,
        StatusByte::MidiStop => "stop"@,
        StatusByte::ActiveSense => "active sense"@,
        StatusByte::Reset => "reset"@,
    }
}

/// The line that names the header fields.
pub open spec fn header_text(header: MidiHeader) -> Seq<char> {
    "format: "@ + format_name(header.file_format) + ", tracks: "@ + decimal_text(
        header.num_tracks as nat,
    ) + ", ticks per quarter: "@ + decimal_text(header.ticks_per_quarter as nat) + "\n"@
}

/// The payload bytes in decimal, each behind a blank.
pub open spec fn bytes_text(data: Seq<u8>) -> Seq<char>
    decreases data.len(),
{
    if data.len() == 0 {
        Seq::empty()
    } else {
        bytes_text(data.drop_last()) + " "@ + decimal_text(data.last() as nat)
    }
}

/// The line of one event: its delta time, the name of its message, the
/// channel, and the payload bytes.
pub open spec fn event_text(event: EventModel) -> Seq<char> {
    "  +"@ + decimal_text(event.delta_time as nat) + " "@ + kind_name(event.message.status_byte)
        + ", channel "@ + decimal_text(event.message.channel as nat) + ", data:"@ + bytes_text(
        event.message.data,
    ) + "\n"@
}

/// The lines of the events of a track, in stored order.
pub open spec fn events_text(events: Seq<EventModel>) -> Seq<char>
    decreases events.len(),
{
    if events.len() == 0 {
        Seq::empty()
    } else {
        events_text(events.drop_last()) + event_text(events.last())
    }
}

/// The lines of the track at `index`: one that gives its number and the
/// number of its events, then the lines of its events.
pub open spec fn track_text(index: nat, track: TrackModel) -> Seq<char> {
    "track "@ + decimal_text(index) + ", events: "@ + decimal_text(track.events.len()) + "\n"@
        + events_text(track.events)
}

/// The lines of all tracks, in stored order.
pub open spec fn tracks_text(tracks: Seq<TrackModel>) -> Seq<char>
    decreases tracks.len(),
{
    if tracks.len() == 0 {
        Seq::empty()
    } else {
        tracks_text(tracks.drop_last()) + track_text(
            (tracks.len() - 1) as nat,
            tracks.last(),
        )
    }
}

/// The whole dump: the header line, then the tracks.
pub open spec fn render_text(file: FileModel) -> Seq<char> {
    header_text(file.header) + tracks_text(file.tracks)
}

fn digit_str(digit: u64) -> (r: &'static str)
    requires
        digit < 10,
    ensures
        r@ == digit_text(digit as int),
{
    if digit == 0 {
        "0"
    } else if digit == 1 {
        "1"
    } else if digit == 2 {
        "2"
    } else if digit == 3 {
        "3"
    } else if digit == 4 {
        "4"
    } else if digit == 5 {
        "5"
    } else if digit == 6 {
        "6"
    } else if digit == 7 {
        "7"
    } else if digit == 8 {
        "8"
    } else {
        "9"
    }
}

fn format_str(format: FileFormat) -> (r: &'static str)
    ensures
        r@ == format_name(format),
{
    match format {
        FileFormat::SingleTrack => "single track",
        FileFormat::MultipleSynchronous => "multiple synchronous tracks",
        FileFormat::MultipleAsynchronous => "multiple asynchronous tracks",
    }
}

fn kind_str(kind: StatusByte) -> (r: &'static str)
    ensures
        r@ == kind_name(kind),
{
    match kind {
        StatusByte::NoteOff => "note off",
        StatusByte::NoteOn => "note on",
        StatusByte::Aftertouch => "aftertouch",
        StatusByte::Controller => "controller",
        StatusByte::ProgramChange => "program change",
        StatusByte::ChannelPressure => "channel pressure",
        StatusByte::PitchWheel => "pitch wheel",
        StatusByte::SystemExclusive => "system exclusive",
        StatusByte::MidiTimeCode => "time code",
        StatusByte::SongPositionPointer => "song position pointer",
        StatusByte::SongSelect => "song select",
        StatusByte::TuneRequest => "tune request",
        StatusByte::MidiClock => "clock",
        StatusByte::MidiStart => "start",
        StatusByte::MidiContinue => "continue",
        StatusByte::MidiStop => "stop",
        StatusByte::ActiveSense => "active sense",
        StatusByte::Reset => "reset",
    }
}

fn push_decimal(out: &mut String, value: u64)
    ensures
        final(out)@ == old(out)@ + decimal_text(value as nat),
    decreases value,
{
    if value >= 10 {
        push_decimal(out, value / 10);
    }
    out.append(digit_str(value % 10));
    proof {
        let digit = digit_text((value % 10) as int);
        if value >= 10 {
            let front = decimal_text((value / 10) as nat);
            assert((old(out)@ + front) + digit =~= old(out)@ + (front + digit));
        }
    }
}

fn push_bytes(out: &mut String, data: &Vec<u8>)
    ensures
        final(out)@ == old(out)@ + bytes_text(data@),
{
    let mut index: usize = 0;
    assert(data@.take(0) =~= Seq::<u8>::empty());
    assert(old(out)@ + Seq::<char>::empty() =~= old(out)@);
    while index < data.len()
        invariant
            index <= data@.len(),
            out@ == old(out)@ + bytes_text(data@.take(index as int)),
        decreases data@.len() - index,
    {
        let ghost before = out@;
        out.append(" ");
        push_decimal(out, data[index] as u64);
        proof {
            let done = data@.take(index as int);
            let more = data@.take(index + 1);
            assert(more.drop_last() =~= done);
            assert(more.last() == data@[index as int]);
            assert((before + " "@) + decimal_text(data@[index as int] as nat) =~= old(out)@ + (
            bytes_text(done) + " "@ + decimal_text(data@[index as int] as nat)));
        }
        index = index + 1;
    }
    assert(data@.take(index as int) =~= data@);
}

fn push_event(out: &mut String, event: &MidiEvent)
    ensures
        final(out)@ == old(out)@ + event_text(event@),
{
    out.append("  +");
    push_decimal(out, event.delta_time as u64);
    out.append(" ");
    out.append(kind_str(event.message.status_byte));
    out.append(", channel ");
    push_decimal(out, event.message.channel as u64);
    out.append(", data:");
    push_bytes(out, &event.message.data);
    out.append("\n");
    assert(out@ =~= old(out)@ + event_text(event@));
}

fn push_events(out: &mut String, events: &Vec<MidiEvent>)
    ensures
        final(out)@ == old(out)@ + events_text(events_model(events@)),
{
    let ghost all = events_model(events@);
    let mut index: usize = 0;
    assert(all.take(0) =~= Seq::<EventModel>::empty());
    assert(old(out)@ + Seq::<char>::empty() =~= old(out)@);
    while index < events.len()
        invariant
            index <= events@.len(),
            all == events_model(events@),
            out@ == old(out)@ + events_text(all.take(index as int)),
        decreases events@.len() - index,
    {
        let ghost before = out@;
        push_event(out, &events[index]);
        proof {
            let done = all.take(index as int);
            let more = all.take(index + 1);
            assert(more.drop_last() =~= done);
            assert(more.last() == events@[index as int]@);
            assert(before + event_text(events@[index as int]@) =~= old(out)@ + (events_text(done)
                + event_text(events@[index as int]@)));
        }
        index = index + 1;
    }
    assert(all.take(index as int) =~= all);
}

fn push_track(out: &mut String, index: usize, track: &MidiTrack)
    ensures
        final(out)@ == old(out)@ + track_text(index as nat, track@),
{
    out.append("track ");
    push_decimal(out, index as u64);
    out.append(", events: ");
    push_decimal(out, track.events.len() as u64);
    out.append("\n");
    push_events(out, &track.events);
    assert(out@ =~= old(out)@ + track_text(index as nat, track@));
}

fn push_header(out: &mut String, header: &MidiHeader)
    ensures
        final(out)@ == old(out)@ + header_text(*header),
{
    out.append("format: ");
    out.append(format_str(header.file_format));
    out.append(", tracks: ");
    push_decimal(out, header.num_tracks as u64);
    out.append(", ticks per quarter: ");
    push_decimal(out, header.ticks_per_quarter as u64);
    out.append("\n");
    assert(out@ =~= old(out)@ + header_text(*header));
}

/// Renders a decoded file as text: the header fields, then every track with
/// the number of its events, then every event of the track, all in stored
/// order. Every file has a text.
pub fn render(file: &MidiFile) -> (text: String)
    ensures
        text@ == render_text(file@),
{
    let mut out = String::new();
    push_header(&mut out, &file.header);
    let ghost start = out@;
    let ghost all = tracks_model(file.tracks@);
    let mut index: usize = 0;
    assert(start =~= header_text(file.header));
    assert(all.take(0) =~= Seq::<TrackModel>::empty());
    assert(start + Seq::<char>::empty() =~= start);
    while index < file.tracks.len()
        invariant
            index <= file.tracks@.len(),
            all == tracks_model(file.tracks@),
            out@ == start + tracks_text(all.take(index as int)),
        decreases file.tracks@.len() - index,
    {
        let ghost before = out@;
        push_track(&mut out, index, &file.tracks[index]);
        proof {
            let done = all.take(index as int);
            let more = all.take(index + 1);
            assert(more.drop_last() =~= done);
            assert(more.last() == file.tracks@[index as int]@);
            assert(before + track_text(index as nat, file.tracks@[index as int]@) =~= start + (
            tracks_text(done) + track_text(index as nat, file.tracks@[index as int]@)));
        }
        index = index + 1;
    }
    assert(all.take(index as int) =~= all);
    out
}

} // verus!
