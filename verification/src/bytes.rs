//! Fixed-width little-endian fields inside byte sequences.
use vstd::prelude::*;

verus! {

/// The number held by the two bytes at `at`, least significant byte first.
#[verifier::opaque]
pub open spec fn u16_at(bytes: Seq<u8>, at: int) -> u16 {
    (bytes[at] + 0x100 * bytes[at + 1]) as u16
}

/// The number held by the four bytes at `at`, least significant byte first.
#[verifier::opaque]
pub open spec fn u32_at(bytes: Seq<u8>, at: int) -> u32 {
    (bytes[at] + 0x100 * bytes[at + 1] + 0x1_0000 * bytes[at + 2] + 0x100_0000 * bytes[at + 3]) as u32
}

/// The number held by the eight bytes at `at`, least significant byte first.
#[verifier::opaque]
pub open spec fn u64_at(bytes: Seq<u8>, at: int) -> u64 {
    (u32_at(bytes, at) + 0x1_0000_0000 * u32_at(bytes, at + 4)) as u64
}

/// The two bytes that stand for `value`.
pub open spec fn u16_bytes(value: u16) -> Seq<u8> {
    seq![(value % 0x100) as u8, (value / 0x100) as u8]
}

/// The four bytes that stand for `value`.
pub open spec fn u32_bytes(value: u32) -> Seq<u8> {
    seq![
        (value % 0x100) as u8,
        (value / 0x100 % 0x100) as u8,
        (value / 0x1_0000 % 0x100) as u8,
        (value / 0x100_0000) as u8,
    ]
}

/// The eight bytes that stand for `value`.
pub open spec fn u64_bytes(value: u64) -> Seq<u8> {
    u32_bytes((value % 0x1_0000_0000) as u32) + u32_bytes((value / 0x1_0000_0000) as u32)
}

/// A field of a cut-out piece is the field at the shifted place of the whole.
pub proof fn fields_of_subrange(bytes: Seq<u8>, start: int, end: int, at: int)
    requires
        0 <= start <= end <= bytes.len(),
        0 <= at,
    ensures
        at + 2 <= end - start ==> u16_at(bytes.subrange(start, end), at) == u16_at(
            bytes,
            start + at,
        ),
        at + 4 <= end - start ==> u32_at(bytes.subrange(start, end), at) == u32_at(
            bytes,
            start + at,
        ),
        at + 8 <= end - start ==> u64_at(bytes.subrange(start, end), at) == u64_at(
            bytes,
            start + at,
        ),
{
    reveal(u16_at);
    reveal(u32_at);
    reveal(u64_at);
}

/// Reading a two-byte field gives back the number that was written there.
pub proof fn u16_round_trip(bytes: Seq<u8>, at: int, value: u16)
    requires
        0 <= at,
        at + 2 <= bytes.len(),
        bytes.subrange(at, at + 2) == u16_bytes(value),
    ensures
        u16_at(bytes, at) == value,
{
    reveal(u16_at);
    let field = bytes.subrange(at, at + 2);
    assert(bytes[at] == field[0]);
    assert(bytes[at + 1] == field[1]);
}

/// Reading a four-byte field gives back the number that was written there.
pub proof fn u32_round_trip(bytes: Seq<u8>, at: int, value: u32)
    requires
        0 <= at,
        at + 4 <= bytes.len(),
        bytes.subrange(at, at + 4) == u32_bytes(value),
    ensures
        u32_at(bytes, at) == value,
{
    reveal(u32_at);
    let field = bytes.subrange(at, at + 4);
    assert(bytes[at] == field[0]);
    assert(bytes[at + 1] == field[1]);
    assert(bytes[at + 2] == field[2]);
    assert(bytes[at + 3] == field[3]);
}

/// Reading an eight-byte field gives back the number that was written there.
pub proof fn u64_round_trip(bytes: Seq<u8>, at: int, value: u64)
    requires
        0 <= at,
        at + 8 <= bytes.len(),
        bytes.subrange(at, at + 8) == u64_bytes(value),
    ensures
        u64_at(bytes, at) == value,
{
    reveal(u64_at);
    let low = (value % 0x1_0000_0000) as u32;
    let high = (value / 0x1_0000_0000) as u32;
    let field = bytes.subrange(at, at + 8);
    assert(bytes.subrange(at, at + 4) =~= field.subrange(0, 4));
    assert(field.subrange(0, 4) =~= u32_bytes(low));
    assert(bytes.subrange(at + 4, at + 8) =~= field.subrange(4, 8));
    assert(field.subrange(4, 8) =~= u32_bytes(high));
    u32_round_trip(bytes, at, low);
    u32_round_trip(bytes, at + 4, high);
}

/// The number held by the two bytes at `at`.
pub fn get_u16(bytes: &[u8], at: usize) -> (value: u16)
    requires
        at + 2 <= bytes@.len(),
    ensures
        value == u16_at(bytes@, at as int),
{
    proof {
        reveal(u16_at);
    }
    bytes[at] as u16 + 0x100 * (bytes[at + 1] as u16)
}

/// The number held by the four bytes at `at`.
pub fn get_u32(bytes: &[u8], at: usize) -> (value: u32)
    requires
        at + 4 <= bytes@.len(),
    ensures
        value == u32_at(bytes@, at as int),
{
    proof {
        reveal(u32_at);
    }
    bytes[at] as u32 + 0x100 * (bytes[at + 1] as u32) + 0x1_0000 * (bytes[at + 2] as u32)
        + 0x100_0000 * (bytes[at + 3] as u32)
}

/// The number held by the eight bytes at `at`.
pub fn get_u64(bytes: &[u8], at: usize) -> (value: u64)
    requires
        at + 8 <= bytes@.len(),
    ensures
        value == u64_at(bytes@, at as int),
{
    proof {
        reveal(u64_at);
    }
    let low: u32 = get_u32(bytes, at);
    assert(at + 8 <= usize::MAX) by {
        assert(bytes.len() == bytes@.len());
    }
    let high: u32 = get_u32(bytes, at + 4);
    low as u64 + 0x1_0000_0000 * (high as u64)
}

/// The bytes of `value`.
pub fn bytes_of_u32(value: u32) -> (bytes: [u8; 4])
    ensures
        bytes@ == u32_bytes(value),
{
    let bytes: [u8; 4] = [
        (value % 0x100) as u8,
        (value / 0x100 % 0x100) as u8,
        (value / 0x1_0000 % 0x100) as u8,
        (value / 0x100_0000) as u8,
    ];
    assert(bytes@ =~= u32_bytes(value));
    bytes
}

/// Appends the bytes of `value`.
pub fn push_u16(bytes: &mut Vec<u8>, value: u16)
    ensures
        final(bytes)@ == old(bytes)@ + u16_bytes(value),
{
    bytes.push((value % 0x100) as u8);
    bytes.push((value / 0x100) as u8);
}

/// Appends the bytes of `value`.
pub fn push_u32(bytes: &mut Vec<u8>, value: u32)
    ensures
        final(bytes)@ == old(bytes)@ + u32_bytes(value),
{
    bytes.push((value % 0x100) as u8);
    bytes.push((value / 0x100 % 0x100) as u8);
    bytes.push((value / 0x1_0000 % 0x100) as u8);
    bytes.push((value / 0x100_0000) as u8);
}

/// Appends the bytes of `value`.
pub fn push_u64(bytes: &mut Vec<u8>, value: u64)
    ensures
        final(bytes)@ == old(bytes)@ + u64_bytes(value),
{
    push_u32(bytes, (value % 0x1_0000_0000) as u32);
    push_u32(bytes, (value / 0x1_0000_0000) as u32);
}

/// Appends the bytes of `tail`.
pub fn push_slice(bytes: &mut Vec<u8>, tail: &[u8])
    ensures
        final(bytes)@ == old(bytes)@ + tail@,
{
    bytes.extend_from_slice(tail);
    assert(bytes@ =~= old(bytes)@ + tail@);
}

} // verus!
