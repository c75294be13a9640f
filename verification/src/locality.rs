//! Decoding looks only at the bytes it consumes.
//!
//! What decodes in one buffer decodes to the same in any buffer that holds
//! the same bytes up to the end of what was consumed, so bytes behind a
//! decoded file play no part. A buffer cut off before that end no longer
//! decodes: it ends in a bounds failure.

use vstd::prelude::*;
use crate::error::{DecodeError, DecodeErrorKind};
use crate::event::{
    lemma_event_extent,
    lemma_truncated_event_is_bounds,
    spec_classify,
    spec_parse_event,
    spec_parse_message,
    StatusByte,
};
use crate::file::{spec_file_end, spec_parse_file, spec_parse_tracks, spec_tracks_end};
use crate::header::{has_tag, header_tag, spec_parse_header, HEADER_LENGTH};
use crate::primitives::{be_u32, spec_parse_ticks, vlq_value};
use crate::track::{
    lemma_events_extent,
    lemma_events_step,
    lemma_track_extent,
    spec_parse_events,
    spec_parse_track,
    track_tag,
};

verus! {

/// Whether two buffers hold the same first `n` bytes.
pub open spec fn same_prefix(a: Seq<u8>, b: Seq<u8>, n: int) -> bool {
    &&& 0 <= n <= a.len()
    &&& n <= b.len()
    &&& forall|i: int| 0 <= i < n ==> a[i] == b[i]
}

/// A buffer and what is left of it after a cut share the bytes before the
/// cut.
pub proof fn lemma_cut_shares_prefix(buf: Seq<u8>, length: int)
    requires
        0 <= length <= buf.len(),
    ensures
        same_prefix(buf, buf.take(length), length),
        buf.take(length).len() == length,
{
}

/// A buffer and the same buffer with bytes behind it share the whole of the
/// first.
pub proof fn lemma_tail_shares_prefix(buf: Seq<u8>, tail: Seq<u8>)
    ensures
        same_prefix(buf, buf + tail, buf.len() as int),
{
}

/// A chunk tag reads the same in two buffers that share the bytes it lies in.
pub proof fn lemma_tag_local(a: Seq<u8>, b: Seq<u8>, n: int, offset: int, tag: Seq<u8>)
    requires
        same_prefix(a, b, n),
        0 <= offset,
        offset + 4 <= n,
    ensures
        has_tag(b, offset, tag) == has_tag(a, offset, tag),
{
    assert(a.subrange(offset, offset + 4) =~= b.subrange(offset, offset + 4));
}

/// A quantity decodes to the same in two buffers that share the bytes up to
/// its end.
pub proof fn lemma_quantity_local(a: Seq<u8>, b: Seq<u8>, n: int, offset: int)
    requires
        same_prefix(a, b, n),
        spec_parse_ticks(a, offset) is Ok,
        spec_parse_ticks(a, offset)->Ok_0.1 <= n,
    ensures
        spec_parse_ticks(b, offset) == spec_parse_ticks(a, offset),
{
    reveal_with_fuel(vlq_value, 5);
}

/// A message decodes to the same in two buffers that share the bytes up to
/// its end.
pub proof fn lemma_message_local(a: Seq<u8>, b: Seq<u8>, n: int, offset: int)
    requires
        same_prefix(a, b, n),
        spec_parse_message(a, offset) is Ok,
        spec_parse_message(a, offset)->Ok_0.1 <= n,
    ensures
        spec_parse_message(b, offset) == spec_parse_message(a, offset),
{
    let (message, next) = spec_parse_message(a, offset)->Ok_0;
    let kind = spec_classify(a[offset])->Some_0;
    if kind == StatusByte::SystemExclusive {
        lemma_quantity_local(a, b, n, offset + 1);
    }
    let start = next - message.data.len();
    assert(a.subrange(start, next) =~= b.subrange(start, next));
}

/// An event decodes to the same in two buffers that share the bytes up to
/// its end.
pub proof fn lemma_event_local(a: Seq<u8>, b: Seq<u8>, n: int, offset: int)
    requires
        same_prefix(a, b, n),
        spec_parse_event(a, offset) is Ok,
        spec_parse_event(a, offset)->Ok_0.1 <= n,
    ensures
        spec_parse_event(b, offset) == spec_parse_event(a, offset),
{
    let at = spec_parse_ticks(a, offset)->Ok_0.1;
    lemma_quantity_local(a, b, n, offset);
    lemma_message_local(a, b, n, at);
}

/// The events of a chunk decode to the same in two buffers that share the
/// bytes up to the chunk's end.
pub proof fn lemma_events_local(a: Seq<u8>, b: Seq<u8>, n: int, cursor: int, end: int)
    requires
        same_prefix(a, b, n),
        cursor <= end <= n,
        spec_parse_events(a, cursor, end) is Ok,
    ensures
        spec_parse_events(b, cursor, end) == spec_parse_events(a, cursor, end),
    decreases end - cursor,
{
    if cursor < end {
        lemma_events_step(a, cursor, end);
        lemma_events_step(b, cursor, end);
        lemma_event_extent(a, cursor);
        let next = spec_parse_event(a, cursor)->Ok_0.1;
        lemma_event_local(a, b, n, cursor);
        lemma_events_local(a, b, n, next, end);
    }
}

/// A track chunk decodes to the same in two buffers that share the bytes up
/// to its end.
pub proof fn lemma_track_local(a: Seq<u8>, b: Seq<u8>, n: int, offset: int)
    requires
        same_prefix(a, b, n),
        spec_parse_track(a, offset) is Ok,
        spec_parse_track(a, offset)->Ok_0.1 <= n,
    ensures
        spec_parse_track(b, offset) == spec_parse_track(a, offset),
{
    lemma_track_extent(a, offset);
    let length = be_u32(a, offset + 4);
    lemma_tag_local(a, b, n, offset, track_tag());
    lemma_events_local(a, b, n, offset + 8, offset + 8 + length);
}

/// Track chunks that decode one after the other lie inside the buffer.
pub proof fn lemma_tracks_extent(buf: Seq<u8>, cursor: int, count: nat)
    requires
        0 <= cursor <= buf.len(),
        spec_parse_tracks(buf, cursor, count) is Ok,
    ensures
        cursor <= spec_tracks_end(buf, cursor, count) <= buf.len(),
        spec_parse_tracks(buf, cursor, count)->Ok_0.len() == count,
        forall|i: int|
            0 <= i < count ==> (#[trigger] spec_parse_tracks(
                buf,
                cursor,
                count,
            )->Ok_0[i]).well_formed(),
    decreases count,
{
    if count > 0 {
        lemma_track_extent(buf, cursor);
        let next = spec_parse_track(buf, cursor)->Ok_0.1;
        lemma_tracks_extent(buf, next, (count - 1) as nat);
    }
}

/// Track chunks decode to the same in two buffers that share the bytes up
/// to the end of the last of them.
pub proof fn lemma_tracks_local(a: Seq<u8>, b: Seq<u8>, n: int, cursor: int, count: nat)
    requires
        same_prefix(a, b, n),
        0 <= cursor <= a.len(),
        spec_parse_tracks(a, cursor, count) is Ok,
        spec_tracks_end(a, cursor, count) <= n,
    ensures
        spec_parse_tracks(b, cursor, count) == spec_parse_tracks(a, cursor, count),
        spec_tracks_end(b, cursor, count) == spec_tracks_end(a, cursor, count),
    decreases count,
{
    if count > 0 {
        lemma_track_extent(a, cursor);
        let next = spec_parse_track(a, cursor)->Ok_0.1;
        lemma_tracks_extent(a, next, (count - 1) as nat);
        lemma_track_local(a, b, n, cursor);
        lemma_tracks_local(a, b, n, next, (count - 1) as nat);
    }
}

/// A header decodes to the same in two buffers that share their first
/// fourteen bytes.
pub proof fn lemma_header_local(a: Seq<u8>, b: Seq<u8>, n: int)
    requires
        same_prefix(a, b, n),
        HEADER_LENGTH <= n,
    ensures
        spec_parse_header(b) == spec_parse_header(a),
{
    lemma_tag_local(a, b, n, 0, header_tag());
}

/// A decoded file holds as many tracks as its header announces, and the
/// part of the buffer it was decoded from lies inside the buffer.
pub proof fn lemma_decoded_file_is_well_formed(buf: Seq<u8>)
    requires
        spec_parse_file(buf) is Ok,
    ensures
        spec_parse_file(buf)->Ok_0.well_formed(),
        HEADER_LENGTH <= spec_file_end(buf) <= buf.len(),
{
    let header = spec_parse_header(buf)->Ok_0;
    lemma_tracks_extent(buf, HEADER_LENGTH as int, header.num_tracks as nat);
}

/// A file decodes to the same in two buffers that share the bytes up to the
/// end of its last track.
pub proof fn lemma_file_local(a: Seq<u8>, b: Seq<u8>, n: int)
    requires
        same_prefix(a, b, n),
        spec_parse_file(a) is Ok,
        spec_file_end(a) <= n,
    ensures
        spec_parse_file(b) == spec_parse_file(a),
{
    let header = spec_parse_header(a)->Ok_0;
    lemma_decoded_file_is_well_formed(a);
    lemma_header_local(a, b, n);
    lemma_tracks_local(a, b, n, HEADER_LENGTH as int, header.num_tracks as nat);
}

/// Bytes behind the last track of a file that decodes change nothing.
pub proof fn lemma_trailing_bytes_are_ignored(buf: Seq<u8>, tail: Seq<u8>)
    requires
        spec_parse_file(buf) is Ok,
    ensures
        spec_parse_file(buf + tail) == spec_parse_file(buf),
{
    lemma_decoded_file_is_well_formed(buf);
    lemma_tail_shares_prefix(buf, tail);
    lemma_file_local(buf, buf + tail, buf.len() as int);
}

/// Whether a result is a bounds failure.
pub open spec fn is_bounds_failure<T>(r: Result<T, DecodeError>) -> bool {
    r matches Err(e) && e.kind == DecodeErrorKind::Bounds
}

/// The events of a chunk that decode in a buffer are a bounds failure in
/// the buffer cut off among them.
pub proof fn lemma_truncated_events(buf: Seq<u8>, cursor: int, end: int, length: int)
    requires
        0 <= cursor <= length < end,
        cursor <= buf.len(),
        spec_parse_events(buf, cursor, end) is Ok,
    ensures
        is_bounds_failure(spec_parse_events(buf.take(length), cursor, end)),
    decreases end - cursor,
{
    let cut = buf.take(length);
    lemma_events_extent(buf, cursor, end);
    lemma_cut_shares_prefix(buf, length);
    lemma_events_step(buf, cursor, end);
    lemma_events_step(cut, cursor, end);
    lemma_event_extent(buf, cursor);
    let next = spec_parse_event(buf, cursor)->Ok_0.1;
    if length < next {
        lemma_truncated_event_is_bounds(buf, cursor, length);
    } else {
        lemma_event_local(buf, cut, length, cursor);
        lemma_truncated_events(buf, next, end, length);
    }
}

/// A track chunk that decodes in a buffer is a bounds failure in the buffer
/// cut off inside the chunk.
pub proof fn lemma_truncated_track(buf: Seq<u8>, offset: int, length: int)
    requires
        spec_parse_track(buf, offset) is Ok,
        0 <= length < spec_parse_track(buf, offset)->Ok_0.1,
    ensures
        is_bounds_failure(spec_parse_track(buf.take(length), offset)),
{
    let cut = buf.take(length);
    lemma_track_extent(buf, offset);
    lemma_cut_shares_prefix(buf, length);
    if length >= offset + 4 {
        lemma_tag_local(buf, cut, length, offset, track_tag());
    }
    if length >= offset + 8 {
        let size = be_u32(buf, offset + 4);
        lemma_truncated_events(buf, offset + 8, offset + 8 + size, length);
    }
}

/// Track chunks that decode in a buffer are a bounds failure in the buffer
/// cut off among them.
pub proof fn lemma_truncated_tracks(buf: Seq<u8>, cursor: int, count: nat, length: int)
    requires
        0 <= cursor <= length,
        cursor <= buf.len(),
        spec_parse_tracks(buf, cursor, count) is Ok,
        length < spec_tracks_end(buf, cursor, count),
    ensures
        is_bounds_failure(spec_parse_tracks(buf.take(length), cursor, count)),
    decreases count,
{
    let cut = buf.take(length);
    lemma_tracks_extent(buf, cursor, count);
    lemma_cut_shares_prefix(buf, length);
    lemma_track_extent(buf, cursor);
    let next = spec_parse_track(buf, cursor)->Ok_0.1;
    if length < next {
        lemma_truncated_track(buf, cursor, length);
    } else {
        lemma_track_local(buf, cut, length, cursor);
        lemma_truncated_tracks(buf, next, (count - 1) as nat, length);
    }
}

/// A file that decodes in a buffer is a bounds failure in the buffer cut off
/// anywhere before the end of its last track: inside the header, inside a
/// chunk header, inside an event or between two events.
pub proof fn lemma_truncated_file_is_bounds(buf: Seq<u8>, length: int)
    requires
        spec_parse_file(buf) is Ok,
        0 <= length < spec_file_end(buf),
    ensures
        is_bounds_failure(spec_parse_file(buf.take(length))),
{
    let cut = buf.take(length);
    let header = spec_parse_header(buf)->Ok_0;
    lemma_decoded_file_is_well_formed(buf);
    lemma_cut_shares_prefix(buf, length);
    if length >= HEADER_LENGTH {
        lemma_header_local(buf, cut, length);
        lemma_truncated_tracks(buf, HEADER_LENGTH as int, header.num_tracks as nat, length);
    } else {
        if length >= 4 {
            lemma_tag_local(buf, cut, length, 0, header_tag());
        }
    }
}

} // verus!
