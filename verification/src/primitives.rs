//! Fixed-width big-endian readers and the variable-length quantity decoder.

use vstd::prelude::*;
use crate::error::{failure, DecodeError, DecodeErrorKind};

verus! {

/// The big-endian value of the two bytes at `offset`.
pub open spec fn be_u16(buf: Seq<u8>, offset: int) -> int {
    buf[offset] as int * 0x100 + buf[offset + 1] as int
}

/// The big-endian value of the four bytes at `offset`.
pub open spec fn be_u32(buf: Seq<u8>, offset: int) -> int {
    buf[offset] as int * 0x100_0000 + buf[offset + 1] as int * 0x1_0000
        + buf[offset + 2] as int * 0x100 + buf[offset + 3] as int
}

/// Whether `width` bytes starting at `offset` lie inside the buffer.
pub open spec fn in_bounds(buf: Seq<u8>, offset: int, width: int) -> bool {
    0 <= offset && offset + width <= buf.len()
}

/// Reading a big-endian `u16` at `offset`: the value, or a bounds failure at
/// `offset` when the two bytes are not all there.
pub open spec fn spec_u16_at(buf: Seq<u8>, offset: int) -> Result<u16, DecodeError> {
    if in_bounds(buf, offset, 2) {
        Ok(be_u16(buf, offset) as u16)
    } else {
        Err(failure(DecodeErrorKind::Bounds, offset))
    }
}

/// Reading a big-endian `u32` at `offset`: the value, or a bounds failure at
/// `offset` when the four bytes are not all there.
pub open spec fn spec_u32_at(buf: Seq<u8>, offset: int) -> Result<u32, DecodeError> {
    if in_bounds(buf, offset, 4) {
        Ok(be_u32(buf, offset) as u32)
    } else {
        Err(failure(DecodeErrorKind::Bounds, offset))
    }
}

/// Whether there is a byte at `index` and its high bit asks for another byte.
pub open spec fn continuation_at(buf: Seq<u8>, index: int) -> bool {
    0 <= index < buf.len() && buf[index] >= 0x80
}

/// How many continuation bytes open the quantity at `offset`, counted up to
/// four.
pub open spec fn vlq_prefix(buf: Seq<u8>, offset: int) -> int {
    if !continuation_at(buf, offset) {
        0
    } else if !continuation_at(buf, offset + 1) {
        1
    } else if !continuation_at(buf, offset + 2) {
        2
    } else if !continuation_at(buf, offset + 3) {
        3
    } else {
        4
    }
}

/// The number written in base 128 by the low seven bits of the `count` bytes
/// at `offset`, most significant first.
pub open spec fn vlq_value(buf: Seq<u8>, offset: int, count: nat) -> nat
    decreases count,
{
    if count == 0 {
        0
    } else {
        (vlq_value(buf, offset, (count - 1) as nat) * 0x80 + buf[offset + count - 1] as nat % 0x80) as nat
    }
}

/// Decoding a variable-length quantity at `offset`: the value and the offset
/// just past it. The quantity is the run of bytes with the high bit set
/// followed by one byte with the high bit clear. Four bytes with the high bit
/// set are a malformed quantity; a buffer that ends before the closing byte
/// is a bounds failure. Both failures carry the offset where the quantity
/// starts.
pub open spec fn spec_parse_ticks(buf: Seq<u8>, offset: int) -> Result<(u32, int), DecodeError> {
    let k = vlq_prefix(buf, offset);
    if k == 4 {
        Err(failure(DecodeErrorKind::MalformedQuantity, offset))
    } else if !in_bounds(buf, offset + k, 1) {
        Err(failure(DecodeErrorKind::Bounds, offset))
    } else {
        Ok((vlq_value(buf, offset, (k + 1) as nat) as u32, offset + k + 1))
    }
}

/// Whether the high bit of `number` is set.
pub fn msb_is_one(number: u8) -> (r: bool)
    ensures
        r == (number >= 0x80),
{
    number > 127
}

/// The low seven bits of `number`.
pub fn lower_seven_bits(number: u8) -> (r: u8)
    ensures
        r == number % 0x80,
        r < 0x80,
{
    assert(number & 0x7f == number % 0x80) by (bit_vector);
    number & 0b0111_1111
}

/// Reads the big-endian `u16` at `offset`.
pub fn u16_from_u8_at(buf: &[u8], offset: usize) -> (r: Result<u16, DecodeError>)
    ensures
        r == spec_u16_at(buf@, offset as int),
{
    if buf.len() < 2 || offset > buf.len() - 2 {
        return Err(DecodeError::new(DecodeErrorKind::Bounds, offset));
    }
    let hi: u16 = buf[offset] as u16;
    let lo: u16 = buf[offset + 1] as u16;
    assert((hi << 8) | lo == hi * 0x100 + lo) by (bit_vector)
        requires
            hi < 0x100,
            lo < 0x100,
    ;
    Ok((hi << 8) | lo)
}

/// Reads the big-endian `u32` at `offset`.
pub fn u32_from_u8_at(buf: &[u8], offset: usize) -> (r: Result<u32, DecodeError>)
    ensures
        r == spec_u32_at(buf@, offset as int),
{
    if buf.len() < 4 || offset > buf.len() - 4 {
        return Err(DecodeError::new(DecodeErrorKind::Bounds, offset));
    }
    let b0: u32 = buf[offset] as u32;
    let b1: u32 = buf[offset + 1] as u32;
    let b2: u32 = buf[offset + 2] as u32;
    let b3: u32 = buf[offset + 3] as u32;
    assert((b0 << 24) | (b1 << 16) | (b2 << 8) | b3 == b0 * 0x100_0000 + b1 * 0x1_0000 + b2 * 0x100
        + b3) by (bit_vector)
        requires
            b0 < 0x100,
            b1 < 0x100,
            b2 < 0x100,
            b3 < 0x100,
    ;
    Ok((b0 << 24) | (b1 << 16) | (b2 << 8) | b3)
}

/// The largest value that `count` seven-bit groups can hold, plus one.
pub open spec fn vlq_limit(count: int) -> int {
    if count <= 0 {
        1
    } else if count == 1 {
        0x80
    } else if count == 2 {
        0x4000
    } else if count == 3 {
        0x20_0000
    } else {
        0x1000_0000
    }
}

/// Decodes the variable-length quantity at `offset` and returns its value
/// with the offset just past it.
pub fn parse_ticks(buf: &[u8], offset: usize) -> (r: Result<(u32, usize), DecodeError>)
    ensures
        match r {
            Ok((ticks, next)) => spec_parse_ticks(buf@, offset as int) == Ok::<
                (u32, int),
                DecodeError,
            >((ticks, next as int)),
            Err(e) => spec_parse_ticks(buf@, offset as int) == Err::<(u32, int), DecodeError>(e),
        },
        r matches Ok((ticks, next)) ==> ticks < 0x1000_0000 && offset < next <= offset + 4 && next
            <= buf@.len(),
{
    let mut value: u32 = 0;
    let mut taken: usize = 0;
    while taken < 4
        invariant
            taken <= 4,
            forall|j: int| offset <= j < offset + taken ==> continuation_at(buf@, j),
            value == vlq_value(buf@, offset as int, taken as nat),
            value < vlq_limit(taken as int),
        decreases 4 - taken,
    {
        if offset >= buf.len() || taken >= buf.len() - offset {
            return Err(DecodeError::new(DecodeErrorKind::Bounds, offset));
        }
        let current: u8 = buf[offset + taken];
        let chunk: u32 = lower_seven_bits(current) as u32;
        assert((value << 7) | chunk == value * 0x80 + chunk) by (bit_vector)
            requires
                value < 0x20_0000,
                chunk < 0x80,
        ;
        value = (value << 7) | chunk;
        taken = taken + 1;
        if !msb_is_one(current) {
            return Ok((value, offset + taken));
        }
    }
    Err(DecodeError::new(DecodeErrorKind::MalformedQuantity, offset))
}

/// Whether the `count` bytes at `offset` spell a quantity: one to four bytes
/// inside the buffer, the last with its high bit clear and each one before
/// it with its high bit set.
pub open spec fn is_quantity(buf: Seq<u8>, offset: int, count: int) -> bool {
    &&& 1 <= count <= 4
    &&& in_bounds(buf, offset, count)
    &&& forall|i: int| offset <= i < offset + count - 1 ==> buf[i] >= 0x80
    &&& buf[offset + count - 1] < 0x80
}

/// The seven-bit group of `value` that stands `place` groups above the
/// lowest one.
pub open spec fn seven_bit_group(value: int, place: nat) -> int
    decreases place,
{
    if place == 0 {
        value % 0x80
    } else {
        seven_bit_group(value / 0x80, (place - 1) as nat)
    }
}

/// The shortest encoding of `value` as a variable-length quantity: its
/// seven-bit groups from the highest that is needed down to the lowest, each
/// but the last with the high bit set.
pub open spec fn vlq_encoding(value: u32) -> Seq<u8> {
    let v = value as int;
    if v < 0x80 {
        seq![seven_bit_group(v, 0) as u8]
    } else if v < 0x4000 {
        seq![(0x80 + seven_bit_group(v, 1)) as u8, seven_bit_group(v, 0) as u8]
    } else if v < 0x20_0000 {
        seq![
            (0x80 + seven_bit_group(v, 2)) as u8,
            (0x80 + seven_bit_group(v, 1)) as u8,
            seven_bit_group(v, 0) as u8,
        ]
    } else {
        seq![
            (0x80 + seven_bit_group(v, 3)) as u8,
            (0x80 + seven_bit_group(v, 2)) as u8,
            (0x80 + seven_bit_group(v, 1)) as u8,
            seven_bit_group(v, 0) as u8,
        ]
    }
}

/// `count` seven-bit groups hold a number below `vlq_limit(count)`.
pub proof fn lemma_vlq_value_bound(buf: Seq<u8>, offset: int, count: nat)
    requires
        count <= 4,
    ensures
        vlq_value(buf, offset, count) < vlq_limit(count as int),
    decreases count,
{
    if count > 0 {
        lemma_vlq_value_bound(buf, offset, (count - 1) as nat);
    }
}

/// Every quantity of one to four bytes decodes to the number its seven-bit
/// groups write in base 128, and the decoder stops right behind it.
pub proof fn lemma_quantity_decodes(buf: Seq<u8>, offset: int, count: int)
    requires
        is_quantity(buf, offset, count),
    ensures
        spec_parse_ticks(buf, offset) == Ok::<(u32, int), DecodeError>(
            (vlq_value(buf, offset, count as nat) as u32, offset + count),
        ),
        vlq_value(buf, offset, count as nat) < vlq_limit(count),
{
    lemma_vlq_value_bound(buf, offset, count as nat);
    assert(vlq_prefix(buf, offset) == count - 1);
}

/// Decoding the shortest encoding of a value below 2^28 gives the value back
/// and takes exactly the bytes of the encoding, whatever follows them.
pub proof fn lemma_vlq_round_trip(value: u32, rest: Seq<u8>)
    requires
        value < 0x1000_0000,
    ensures
        spec_parse_ticks(vlq_encoding(value) + rest, 0) == Ok::<(u32, int), DecodeError>(
            (value, vlq_encoding(value).len() as int),
        ),
        is_quantity(vlq_encoding(value) + rest, 0, vlq_encoding(value).len() as int),
{
    let code = vlq_encoding(value);
    let buf = code + rest;
    let count = code.len();
    let v = value as int;
    let g0 = v % 0x80;
    let g1 = v / 0x80 % 0x80;
    let g2 = v / 0x80 / 0x80 % 0x80;
    let g3 = v / 0x80 / 0x80 / 0x80 % 0x80;
    reveal_with_fuel(seven_bit_group, 5);
    assert(seven_bit_group(v, 0) == g0 && seven_bit_group(v, 1) == g1 && seven_bit_group(v, 2)
        == g2 && seven_bit_group(v, 3) == g3);
    assert(v == ((g3 * 0x80 + g2) * 0x80 + g1) * 0x80 + g0);
    assert forall|i: int| 0 <= i < count implies buf[i] == code[i] by {}
    assert(is_quantity(buf, 0, count as int));
    lemma_quantity_decodes(buf, 0, count as int);
    reveal_with_fuel(vlq_value, 5);
    if v < 0x80 {
        assert(vlq_value(buf, 0, 1) == g0);
    } else if v < 0x4000 {
        assert(buf[0] % 0x80 == g1 && buf[1] % 0x80 == g0);
        assert(vlq_value(buf, 0, 2) == g1 * 0x80 + g0);
    } else if v < 0x20_0000 {
        assert(buf[0] % 0x80 == g2 && buf[1] % 0x80 == g1 && buf[2] % 0x80 == g0);
        assert(vlq_value(buf, 0, 3) == (g2 * 0x80 + g1) * 0x80 + g0);
    } else {
        assert(buf[0] % 0x80 == g3 && buf[1] % 0x80 == g2 && buf[2] % 0x80 == g1 && buf[3] % 0x80
            == g0);
        assert(vlq_value(buf, 0, 4) == ((g3 * 0x80 + g2) * 0x80 + g1) * 0x80 + g0);
    }
}

/// Copies the bytes from `start` up to `end` out of the buffer.
pub(crate) fn copy_bytes(buf: &[u8], start: usize, end: usize) -> (r: Vec<u8>)
    requires
        start <= end <= buf@.len(),
    ensures
        r@ == buf@.subrange(start as int, end as int),
{
    let mut bytes: Vec<u8> = Vec::new();
    let mut index: usize = start;
    while index < end
        invariant
            start <= index <= end <= buf@.len(),
            bytes@ == buf@.subrange(start as int, index as int),
        decreases end - index,
    {
        bytes.push(buf[index]);
        index = index + 1;
        assert(bytes@ =~= buf@.subrange(start as int, index as int));
    }
    bytes
}

} // verus!
