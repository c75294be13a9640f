use midi::{
    get_track_size, parse_all_tracks, parse_file, parse_header, parse_track, DecodeError,
    DecodeErrorKind, FileFormat, MidiEvent, MidiFile, MidiHeader, MidiMessage, MidiTrack,
    StatusByte,
};

fn event(delta_time: u32, status_byte: StatusByte, channel: u8, data: &[u8]) -> MidiEvent {
    MidiEvent { delta_time, message: MidiMessage { status_byte, channel, data: data.to_vec() } }
}

fn header_bytes(format: u16, tracks: u16, ticks: u16) -> Vec<u8> {
    let mut bytes = vec![0x4d, 0x54, 0x68, 0x64, 0, 0, 0, 6];
    bytes.extend_from_slice(&format.to_be_bytes());
    bytes.extend_from_slice(&tracks.to_be_bytes());
    bytes.extend_from_slice(&ticks.to_be_bytes());
    bytes
}

fn track_bytes(declared: u32, body: &[u8]) -> Vec<u8> {
    let mut bytes = vec![0x4d, 0x54, 0x72, 0x6b];
    bytes.extend_from_slice(&declared.to_be_bytes());
    bytes.extend_from_slice(body);
    bytes
}

const BODY: [u8; 11] = [0x00, 0x90, 0x3c, 0x64, 0x83, 0x60, 0x80, 0x3c, 0x00, 0x00, 0xfc];

fn body_events() -> Vec<MidiEvent> {
    vec![
        event(0, StatusByte::NoteOn, 0, &[0x3c, 0x64]),
        event(480, StatusByte::NoteOff, 0, &[0x3c, 0x00]),
        event(0, StatusByte::MidiStop, 0, &[]),
    ]
}

#[test]
fn track_whose_events_fill_it_decodes_in_order() {
    let bytes = track_bytes(11, &BODY);
    assert_eq!(
        parse_track(&bytes, 0),
        Ok((MidiTrack { track_length: 11, events: body_events() }, 19))
    );
}

#[test]
fn track_at_an_offset_with_bytes_after_it() {
    let mut bytes = vec![0xaa, 0xbb, 0xcc];
    bytes.extend(track_bytes(11, &BODY));
    bytes.extend_from_slice(&[0x01, 0x02]);
    assert_eq!(
        parse_track(&bytes, 3),
        Ok((MidiTrack { track_length: 11, events: body_events() }, 22))
    );
    assert_eq!(get_track_size(&bytes, 3), Ok(11));
}

#[test]
fn empty_track_decodes_to_no_events() {
    let bytes = track_bytes(0, &[]);
    assert_eq!(parse_track(&bytes, 0), Ok((MidiTrack { track_length: 0, events: vec![] }, 8)));
}

#[test]
fn track_whose_event_straddles_the_end_is_a_framing_failure() {
    for declared in [1u32, 2, 3, 5, 8, 10] {
        let bytes = track_bytes(declared, &BODY);
        let failure = parse_track(&bytes, 0).unwrap_err();
        assert_eq!(failure.kind, DecodeErrorKind::Framing);
    }
    let bytes = track_bytes(10, &BODY);
    assert_eq!(
        parse_track(&bytes, 0),
        Err(DecodeError { kind: DecodeErrorKind::Framing, offset: 17 })
    );
    let bytes = track_bytes(3, &BODY);
    assert_eq!(
        parse_track(&bytes, 0),
        Err(DecodeError { kind: DecodeErrorKind::Framing, offset: 8 })
    );
}

#[test]
fn track_that_stops_on_an_event_boundary_keeps_the_events_before_it() {
    let bytes = track_bytes(4, &BODY);
    assert_eq!(
        parse_track(&bytes, 0),
        Ok((
            MidiTrack { track_length: 4, events: vec![event(0, StatusByte::NoteOn, 0, &[0x3c, 0x64])] },
            12
        ))
    );
}

#[test]
fn track_longer_than_the_buffer_is_a_bounds_failure() {
    let bytes = track_bytes(12, &BODY);
    assert_eq!(
        parse_track(&bytes, 0),
        Err(DecodeError { kind: DecodeErrorKind::Bounds, offset: 19 })
    );
    let bytes = track_bytes(u32::MAX, &BODY);
    assert_eq!(
        parse_track(&bytes, 0),
        Err(DecodeError { kind: DecodeErrorKind::Bounds, offset: 19 })
    );
}

#[test]
fn track_with_a_wrong_tag_is_a_malformed_chunk() {
    let mut bytes = track_bytes(11, &BODY);
    bytes[3] = 0x64;
    assert_eq!(
        parse_track(&bytes, 0),
        Err(DecodeError { kind: DecodeErrorKind::MalformedChunk, offset: 0 })
    );
    assert_eq!(
        parse_track(&header_bytes(1, 1, 96), 0),
        Err(DecodeError { kind: DecodeErrorKind::MalformedChunk, offset: 0 })
    );
}

#[test]
fn track_header_cut_short_is_a_bounds_failure() {
    let bytes = track_bytes(11, &BODY);
    for length in 0..4 {
        assert_eq!(
            parse_track(&bytes[..length], 0),
            Err(DecodeError { kind: DecodeErrorKind::Bounds, offset: 0 })
        );
    }
    for length in 4..8 {
        assert_eq!(
            parse_track(&bytes[..length], 0),
            Err(DecodeError { kind: DecodeErrorKind::Bounds, offset: 4 })
        );
    }
    assert_eq!(
        get_track_size(&bytes[..3], 0),
        Err(DecodeError { kind: DecodeErrorKind::Bounds, offset: 0 })
    );
    assert_eq!(
        get_track_size(&bytes[..7], 0),
        Err(DecodeError { kind: DecodeErrorKind::Bounds, offset: 4 })
    );
}

#[test]
fn track_with_an_unknown_status_byte_fails_there() {
    let body = [0x00, 0x90, 0x3c, 0x64, 0x00, 0xf7, 0x00];
    let bytes = track_bytes(7, &body);
    assert_eq!(
        parse_track(&bytes, 0),
        Err(DecodeError { kind: DecodeErrorKind::UnknownMessage, offset: 13 })
    );
}

fn two_track_file() -> Vec<u8> {
    let mut bytes = header_bytes(2, 2, 480);
    bytes.extend(track_bytes(11, &BODY));
    bytes.extend(track_bytes(3, &[0x05, 0xc1, 0x07]));
    bytes
}

fn two_track_value() -> MidiFile {
    MidiFile {
        header: MidiHeader {
            file_format: FileFormat::MultipleSynchronous,
            num_tracks: 2,
            ticks_per_quarter: 480,
        },
        tracks: vec![
            MidiTrack { track_length: 11, events: body_events() },
            MidiTrack {
                track_length: 3,
                events: vec![event(5, StatusByte::ProgramChange, 1, &[0x07])],
            },
        ],
    }
}

#[test]
fn file_decodes_header_and_tracks_in_order() {
    assert_eq!(parse_file(&two_track_file()), Ok(two_track_value()));
}

#[test]
fn file_has_as_many_tracks_as_its_header_says() {
    let file = parse_file(&two_track_file()).unwrap();
    assert_eq!(file.tracks.len(), file.header.num_tracks as usize);
    let none = parse_file(&header_bytes(1, 0, 96)).unwrap();
    assert_eq!(none.tracks.len(), 0);
    assert_eq!(none.header.ticks_per_quarter, 96);
}

#[test]
fn file_ignores_bytes_after_the_last_track() {
    let mut bytes = two_track_file();
    bytes.extend_from_slice(&[0xde, 0xad, 0xbe, 0xef]);
    assert_eq!(parse_file(&bytes), Ok(two_track_value()));
}

#[test]
fn file_decoded_twice_gives_equal_results() {
    let bytes = two_track_file();
    assert_eq!(parse_file(&bytes), parse_file(&bytes));
    let broken = &bytes[..20];
    assert_eq!(parse_file(broken), parse_file(broken));
    assert!(parse_file(broken).is_err());
}

#[test]
fn file_with_a_missing_track_is_a_bounds_failure() {
    let mut bytes = header_bytes(2, 3, 480);
    bytes.extend(track_bytes(11, &BODY));
    bytes.extend(track_bytes(3, &[0x05, 0xc1, 0x07]));
    assert_eq!(
        parse_file(&bytes),
        Err(DecodeError { kind: DecodeErrorKind::Bounds, offset: 44 })
    );
}

#[test]
fn file_passes_on_the_first_failure() {
    let mut bad_header = two_track_file();
    bad_header[9] = 7;
    assert_eq!(
        parse_file(&bad_header),
        Err(DecodeError { kind: DecodeErrorKind::InvalidFormat, offset: 8 })
    );
    let mut bad_tag = two_track_file();
    bad_tag[33] = 0x00;
    assert_eq!(
        parse_file(&bad_tag),
        Err(DecodeError { kind: DecodeErrorKind::MalformedChunk, offset: 33 })
    );
    let mut bad_frame = two_track_file();
    bad_frame[21] = 10;
    assert_eq!(
        parse_file(&bad_frame),
        Err(DecodeError { kind: DecodeErrorKind::Framing, offset: 31 })
    );
    let mut bad_status = two_track_file();
    bad_status[23] = 0x10;
    assert_eq!(
        parse_file(&bad_status),
        Err(DecodeError { kind: DecodeErrorKind::UnknownMessage, offset: 23 })
    );
    assert_eq!(
        parse_file(&[]),
        Err(DecodeError { kind: DecodeErrorKind::Bounds, offset: 0 })
    );
}

#[test]
fn all_tracks_follow_the_header() {
    let bytes = two_track_file();
    let header = parse_header(&bytes).unwrap();
    assert_eq!(parse_all_tracks(header, &bytes), Ok(two_track_value().tracks));
    let one = MidiHeader { num_tracks: 1, ..header };
    assert_eq!(parse_all_tracks(one, &bytes).unwrap().len(), 1);
}

#[test]
fn file_cut_off_anywhere_is_a_bounds_failure() {
    let bytes = two_track_file();
    assert!(parse_file(&bytes).is_ok());
    for length in 0..bytes.len() {
        let failure = parse_file(&bytes[..length]).unwrap_err();
        assert_eq!(failure.kind, DecodeErrorKind::Bounds);
        assert!(failure.offset <= length);
    }
}

#[test]
fn track_cut_off_between_two_events_is_a_bounds_failure() {
    let bytes = track_bytes(11, &BODY);
    assert_eq!(
        parse_track(&bytes[..12], 0),
        Err(DecodeError { kind: DecodeErrorKind::Bounds, offset: 12 })
    );
    assert_eq!(
        parse_track(&bytes[..14], 0),
        Err(DecodeError { kind: DecodeErrorKind::Bounds, offset: 14 })
    );
}

#[test]
fn failure_is_built_from_kind_and_offset() {
    let failure = DecodeError::new(DecodeErrorKind::Framing, 9);
    assert_eq!(failure, DecodeError { kind: DecodeErrorKind::Framing, offset: 9 });
    assert_ne!(failure, DecodeError::new(DecodeErrorKind::Bounds, 9));
    assert_ne!(failure, DecodeError::new(DecodeErrorKind::Framing, 8));
}
