//! Little-endian integers in a byte sequence.
use byteorder::ByteOrder;
use byteorder::LittleEndian;
use vstd::prelude::*;

verus! {

/// The 16-bit little-endian integer stored at `at`.
pub open spec fn u16_at(data: Seq<u8>, at: int) -> u16 {
    (data[at] as int + 0x100 * (data[at + 1] as int)) as u16
}

/// The 32-bit little-endian integer stored at `at`.
pub open spec fn u32_at(data: Seq<u8>, at: int) -> u32 {
    (data[at] as int + 0x100 * (data[at + 1] as int) + 0x1_0000 * (data[at + 2] as int)
        + 0x100_0000 * (data[at + 3] as int)) as u32
}

/// The 64-bit little-endian integer stored at `at`.
pub open spec fn u64_at(data: Seq<u8>, at: int) -> u64 {
    (u32_at(data, at) as int + 0x1_0000_0000 * (u32_at(data, at + 4) as int)) as u64
}

/// `byteorder::LittleEndian::read_u16`: the first two bytes of `buf`, the
/// low byte first. The outside function panics on a shorter slice.
#[verifier::external_body]
pub(crate) fn le_read_u16(buf: &[u8]) -> (v: u16)
    requires
        buf@.len() >= 2,
    ensures
        v == u16_at(buf@, 0),
{
    LittleEndian::read_u16(buf)
}

/// `byteorder::LittleEndian::read_u32`: the first four bytes of `buf`, the
/// low byte first. The outside function panics on a shorter slice.
#[verifier::external_body]
pub(crate) fn le_read_u32(buf: &[u8]) -> (v: u32)
    requires
        buf@.len() >= 4,
    ensures
        v == u32_at(buf@, 0),
{
    LittleEndian::read_u32(buf)
}

/// `byteorder::LittleEndian::read_u64`: the first eight bytes of `buf`, the
/// low byte first. The outside function panics on a shorter slice.
#[verifier::external_body]
pub(crate) fn le_read_u64(buf: &[u8]) -> (v: u64)
    requires
        buf@.len() >= 8,
    ensures
        v == u64_at(buf@, 0),
{
    LittleEndian::read_u64(buf)
}

/// The four bytes of `v`, the low byte first.
pub open spec fn u32_bytes(v: u32) -> Seq<u8> {
    seq![
        (v as int % 0x100) as u8,
        (v as int / 0x100 % 0x100) as u8,
        (v as int / 0x1_0000 % 0x100) as u8,
        (v as int / 0x100_0000) as u8,
    ]
}

/// The two bytes of `v`, the low byte first.
pub open spec fn u16_bytes(v: u16) -> Seq<u8> {
    seq![(v as int % 0x100) as u8, (v as int / 0x100) as u8]
}

/// Where the bytes of `v` are stored, `v` is read.
pub proof fn lemma_u16_at_bytes(data: Seq<u8>, at: int, v: u16)
    requires
        0 <= at,
        at + 2 <= data.len(),
        data.subrange(at, at + 2) == u16_bytes(v),
    ensures
        u16_at(data, at) == v,
{
    assert(data[at] == data.subrange(at, at + 2)[0]);
    assert(data[at + 1] == data.subrange(at, at + 2)[1]);
}

/// Where the bytes of `v` are stored, `v` is read.
pub proof fn lemma_u32_at_bytes(data: Seq<u8>, at: int, v: u32)
    requires
        0 <= at,
        at + 4 <= data.len(),
        data.subrange(at, at + 4) == u32_bytes(v),
    ensures
        u32_at(data, at) == v,
{
    assert(data[at] == data.subrange(at, at + 4)[0]);
    assert(data[at + 1] == data.subrange(at, at + 4)[1]);
    assert(data[at + 2] == data.subrange(at, at + 4)[2]);
    assert(data[at + 3] == data.subrange(at, at + 4)[3]);
}

/// The word that four bytes stand for has those bytes.
pub proof fn lemma_bytes_of_word(data: Seq<u8>, at: int)
    requires
        0 <= at,
        at + 4 <= data.len(),
    ensures
        u32_bytes(u32_at(data, at)) == data.subrange(at, at + 4),
{
    let b0 = data[at] as int;
    let b1 = data[at + 1] as int;
    let b2 = data[at + 2] as int;
    let b3 = data[at + 3] as int;
    let v = b0 + 0x100 * b1 + 0x1_0000 * b2 + 0x100_0000 * b3;
    assert(v == u32_at(data, at));
    assert(v % 0x100 == b0);
    assert(v / 0x100 == b1 + 0x100 * b2 + 0x1_0000 * b3);
    assert(v / 0x1_0000 == b2 + 0x100 * b3);
    assert(v / 0x100_0000 == b3);
    assert(u32_bytes(u32_at(data, at)) =~= data.subrange(at, at + 4));
}

/// The bytes of a word stand for that word.
pub proof fn lemma_word_of_bytes(w: u32)
    ensures
        u32_at(u32_bytes(w), 0) == w,
{
}

/// `byteorder::LittleEndian::write_u32` on a buffer of four bytes: the
/// bytes of `v`, the low byte first.
#[verifier::external_body]
pub(crate) fn le_write_u32(v: u32) -> (b: [u8; 4])
    ensures
        b@ == u32_bytes(v),
{
    let mut buf = [0u8;4];
    LittleEndian::write_u32(&mut buf, v);
    buf
}

} // verus!
