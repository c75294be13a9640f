//! Whole files: one header chunk and the track chunks it announces.

use vstd::prelude::*;
use crate::error::DecodeError;
use crate::header::{parse_header, spec_parse_header, MidiHeader, HEADER_LENGTH};
use crate::track::{
    lemma_prepend_push,
    parse_track,
    prepend,
    spec_parse_track,
    MidiTrack,
    TrackModel,
};

verus! {

/// A decoded file: its header and its tracks in the order of the file.
#[derive(Clone, Debug, PartialEq, Eq)]
pub struct MidiFile {
    pub header: MidiHeader,
    pub tracks: Vec<MidiTrack>,
}

/// A file as a mathematical value.
pub ghost struct FileModel {
    pub header: MidiHeader,
    pub tracks: Seq<TrackModel>,
}

/// The tracks of a vector as mathematical values, in the same order.
pub open spec fn tracks_model(tracks: Seq<MidiTrack>) -> Seq<TrackModel> {
    tracks.map_values(|t: MidiTrack| t@)
}

impl View for MidiFile {
    type V = FileModel;

    open spec fn view(&self) -> FileModel {
        FileModel { header: self.header, tracks: tracks_model(self.tracks@) }
    }
}

impl FileModel {
    /// A file holds as many tracks as its header announces, each of them
    /// well formed.
    pub open spec fn well_formed(self) -> bool {
        &&& self.tracks.len() == self.header.num_tracks
        &&& forall|i: int|
            0 <= i < self.tracks.len() ==> (#[trigger] self.tracks[i]).well_formed()
    }
}

/// Decoding `count` track chunks that follow one another from `cursor` on.
/// The first track that fails decides the failure.
pub open spec fn spec_parse_tracks(buf: Seq<u8>, cursor: int, count: nat) -> Result<
    Seq<TrackModel>,
    DecodeError,
>
    decreases count,
{
    if count == 0 {
        Ok(Seq::empty())
    } else {
        match spec_parse_track(buf, cursor) {
            Err(e) => Err(e),
            Ok((track, next)) => prepend(
                seq![track],
                spec_parse_tracks(buf, next, (count - 1) as nat),
            ),
        }
    }
}

/// Where the last of `count` track chunks that follow one another from
/// `cursor` on ends; where they do not all decode, where the last one that
/// does ends.
pub open spec fn spec_tracks_end(buf: Seq<u8>, cursor: int, count: nat) -> int
    decreases count,
{
    if count == 0 {
        cursor
    } else {
        match spec_parse_track(buf, cursor) {
            Err(_) => cursor,
            Ok((_, next)) => spec_tracks_end(buf, next, (count - 1) as nat),
        }
    }
}

/// Where the part of the buffer that decoding looks at ends: behind the
/// last track chunk that the header announces.
pub open spec fn spec_file_end(buf: Seq<u8>) -> int {
    match spec_parse_header(buf) {
        Err(_) => 0,
        Ok(header) => spec_tracks_end(buf, HEADER_LENGTH as int, header.num_tracks as nat),
    }
}

/// The file that a header and its decoded tracks make; a failure among the
/// tracks is the file's.
pub open spec fn file_of(header: MidiHeader, tracks: Result<Seq<TrackModel>, DecodeError>)
    -> Result<FileModel, DecodeError> {
    match tracks {
        Err(e) => Err(e),
        Ok(tracks) => Ok(FileModel { header, tracks }),
    }
}

/// Decoding a whole buffer: the header chunk at offset 0, then as many track
/// chunks as the header announces, one right after the other. Bytes after
/// the last track play no part.
pub open spec fn spec_parse_file(buf: Seq<u8>) -> Result<FileModel, DecodeError> {
    match spec_parse_header(buf) {
        Err(e) => Err(e),
        Ok(header) => file_of(
            header,
            spec_parse_tracks(buf, HEADER_LENGTH as int, header.num_tracks as nat),
        ),
    }
}

/// The outcome of a decode as a mathematical value.
pub open spec fn outcome_model(r: Result<MidiFile, DecodeError>) -> Result<
    FileModel,
    DecodeError,
> {
    match r {
        Ok(file) => Ok(file@),
        Err(e) => Err(e),
    }
}

/// The model of a vector of tracks grows with the vector.
pub proof fn lemma_tracks_model_push(tracks: Seq<MidiTrack>, track: MidiTrack)
    ensures
        tracks_model(tracks.push(track)) == tracks_model(tracks).push(track@),
{
    assert(tracks_model(tracks.push(track)) =~= tracks_model(tracks).push(track@));
}

/// Decodes the track chunks that follow the header chunk of `buf`, as many
/// as `header` announces.
pub fn parse_all_tracks(header: MidiHeader, buf: &[u8]) -> (r: Result<Vec<MidiTrack>, DecodeError>)
    ensures
        match r {
            Ok(tracks) => spec_parse_tracks(
                buf@,
                HEADER_LENGTH as int,
                header.num_tracks as nat,
            ) == Ok::<Seq<TrackModel>, DecodeError>(tracks_model(tracks@)),
            Err(e) => spec_parse_tracks(buf@, HEADER_LENGTH as int, header.num_tracks as nat)
                == Err::<Seq<TrackModel>, DecodeError>(e),
        },
        r matches Ok(tracks) ==> tracks@.len() == header.num_tracks && forall|i: int|
            0 <= i < tracks@.len() ==> (#[trigger] tracks_model(tracks@)[i]).well_formed(),
{
    let mut tracks: Vec<MidiTrack> = Vec::new();
    let mut cursor: usize = HEADER_LENGTH;
    let mut parsed: u16 = 0;
    while parsed < header.num_tracks
        invariant
            parsed <= header.num_tracks,
            tracks@.len() == parsed,
            forall|i: int|
                0 <= i < tracks@.len() ==> (#[trigger] tracks_model(tracks@)[i]).well_formed(),
            spec_parse_tracks(buf@, HEADER_LENGTH as int, header.num_tracks as nat) == prepend(
                tracks_model(tracks@),
                spec_parse_tracks(buf@, cursor as int, (header.num_tracks - parsed) as nat),
            ),
        decreases header.num_tracks - parsed,
    {
        let (track, next): (MidiTrack, usize) = parse_track(buf, cursor)?;
        proof {
            lemma_prepend_push(
                tracks_model(tracks@),
                track@,
                spec_parse_tracks(buf@, next as int, (header.num_tracks - parsed - 1) as nat),
            );
            lemma_tracks_model_push(tracks@, track);
        }
        tracks.push(track);
        cursor = next;
        parsed = parsed + 1;
    }
    proof {
        assert(tracks_model(tracks@) + Seq::<TrackModel>::empty() =~= tracks_model(tracks@));
    }
    Ok(tracks)
}

/// Decodes a whole file held in `buf`.
///
/// The outcome is the one the format assigns to the bytes: the decoded file,
/// or the first failure met on the way. A decoded file holds exactly as many
/// tracks as its header announces.
pub fn parse_file(buf: &[u8]) -> (r: Result<MidiFile, DecodeError>)
    ensures
        outcome_model(r) == spec_parse_file(buf@),
        r matches Ok(file) ==> file@.well_formed(),
{
    match parse_header(buf) {
        Ok(header) => match parse_all_tracks(header, buf) {
            Ok(tracks) => Ok(MidiFile { header, tracks }),
            Err(e) => Err(e),
        },
        Err(e) => Err(e),
    }
}

/// Decoding is a function of the bytes: two outcomes of decoding the same
/// buffer are the same value.
pub proof fn lemma_parse_file_deterministic(
    buf: Seq<u8>,
    first: Result<MidiFile, DecodeError>,
    second: Result<MidiFile, DecodeError>,
)
    requires
        outcome_model(first) == spec_parse_file(buf),
        outcome_model(second) == spec_parse_file(buf),
    ensures
        outcome_model(first) == outcome_model(second),
        first is Ok <==> second is Ok,
{
}

} // verus!
