use midi::{
    parse_file, render, FileFormat, MidiEvent, MidiFile, MidiHeader, MidiMessage, MidiTrack,
    StatusByte,
};

fn event(delta_time: u32, status_byte: StatusByte, channel: u8, data: &[u8]) -> MidiEvent {
    MidiEvent { delta_time, message: MidiMessage { status_byte, channel, data: data.to_vec() } }
}

#[test]
fn render_of_a_file_without_tracks_is_the_header_line() {
    let file = MidiFile {
        header: MidiHeader {
            file_format: FileFormat::SingleTrack,
            num_tracks: 0,
            ticks_per_quarter: 96,
        },
        tracks: vec![],
    };
    assert_eq!(render(&file), "format: single track, tracks: 0, ticks per quarter: 96\n");
}

#[test]
fn render_lists_tracks_and_events_in_stored_order() {
    let file = MidiFile {
        header: MidiHeader {
            file_format: FileFormat::MultipleSynchronous,
            num_tracks: 2,
            ticks_per_quarter: 480,
        },
        tracks: vec![
            MidiTrack {
                track_length: 11,
                events: vec![
                    event(0, StatusByte::NoteOn, 0, &[60, 100]),
                    event(480, StatusByte::NoteOff, 0, &[60, 0]),
                    event(0, StatusByte::MidiStop, 0, &[]),
                ],
            },
            MidiTrack {
                track_length: 3,
                events: vec![event(268_435_455, StatusByte::ProgramChange, 15, &[255])],
            },
        ],
    };
    let expected = "format: multiple synchronous tracks, tracks: 2, ticks per quarter: 480\n\
                    track 0, events: 3\n\
                    \x20 +0 note on, channel 0, data: 60 100\n\
                    \x20 +480 note off, channel 0, data: 60 0\n\
                    \x20 +0 stop, channel 0, data:\n\
                    track 1, events: 1\n\
                    \x20 +268435455 program change, channel 15, data: 255\n";
    assert_eq!(render(&file), expected);
}

#[test]
fn render_names_every_kind_and_format() {
    let kinds = [
        (StatusByte::NoteOff, "note off"),
        (StatusByte::NoteOn, "note on"),
        (StatusByte::Aftertouch, "aftertouch"),
        (StatusByte::Controller, "controller"),
        (StatusByte::ProgramChange, "program change"),
        (StatusByte::ChannelPressure, "channel pressure"),
        (StatusByte::PitchWheel, "pitch wheel"),
        (StatusByte::SystemExclusive, "system exclusive"),
        (StatusByte::MidiTimeCode, "time code"),
        (StatusByte::SongPositionPointer, "song position pointer"),
        (StatusByte::SongSelect, "song select"),
        (StatusByte::TuneRequest, "tune request"),
        (StatusByte::MidiClock, "clock"),
        (StatusByte::MidiStart, "start"),
        (StatusByte::MidiContinue, "continue"),
        (StatusByte::MidiStop, "stop"),
        (StatusByte::ActiveSense, "active sense"),
        (StatusByte::Reset, "reset"),
    ];
    for (kind, name) in kinds {
        let file = MidiFile {
            header: MidiHeader {
                file_format: FileFormat::MultipleAsynchronous,
                num_tracks: 1,
                ticks_per_quarter: 65535,
            },
            tracks: vec![MidiTrack { track_length: 2, events: vec![event(10, kind, 0, &[])] }],
        };
        let expected = format!(
            "format: multiple asynchronous tracks, tracks: 1, ticks per quarter: 65535\n\
             track 0, events: 1\n\
             \x20 +10 {}, channel 0, data:\n",
            name
        );
        assert_eq!(render(&file), expected);
    }
}

#[test]
fn render_of_a_decoded_file() {
    let bytes = [
        0x4d, 0x54, 0x68, 0x64, 0, 0, 0, 6, 0, 1, 0, 1, 0, 0x60, 0x4d, 0x54, 0x72, 0x6b, 0, 0, 0,
        10, 0x00, 0xf0, 0x02, 0x7e, 0x09, 0x81, 0x00, 0xb2, 0x07, 0x7f,
    ];
    let file = parse_file(&bytes).unwrap();
    assert_eq!(
        render(&file),
        "format: single track, tracks: 1, ticks per quarter: 96\n\
         track 0, events: 2\n\
         \x20 +0 system exclusive, channel 0, data: 126 9\n\
         \x20 +128 controller, channel 2, data: 7 127\n"
    );
}
