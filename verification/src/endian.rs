//! Little-endian encoding of the fixed-width fields of both containers.

use byteorder::{ByteOrder, LittleEndian};
use vstd::prelude::*;

verus! {

/// The 16-bit value of two bytes, the less significant one first.
pub open spec fn u16_of(b0: u8, b1: u8) -> u16 {
    (b0 as int + b1 as int * 0x100) as u16
}

/// The 32-bit value of four bytes, the least significant one first.
pub open spec fn u32_of(b0: u8, b1: u8, b2: u8, b3: u8) -> u32 {
    (b0 as int + b1 as int * 0x100 + b2 as int * 0x1_0000 + b3 as int * 0x100_0000) as u32
}

/// The 16-bit value whose little-endian encoding is the first two bytes of `bytes`.
pub open spec fn u16_from_le(bytes: Seq<u8>) -> u16 {
    u16_of(bytes[0], bytes[1])
}

/// The 32-bit value whose little-endian encoding is the first four bytes of `bytes`.
pub open spec fn u32_from_le(bytes: Seq<u8>) -> u32 {
    u32_of(bytes[0], bytes[1], bytes[2], bytes[3])
}

/// The signed reading of a 16-bit pattern (two's complement).
pub open spec fn i16_from_bits(bits: u16) -> i16 {
    if bits < 0x8000 {
        bits as i16
    } else {
        (bits - 0x1_0000) as i16
    }
}

/// The signed 16-bit value whose little-endian encoding is the first two bytes of `bytes`.
pub open spec fn i16_from_le(bytes: Seq<u8>) -> i16 {
    i16_from_bits(u16_from_le(bytes))
}

/// The two bytes that encode `value`, least significant first.
pub open spec fn u16_to_le(value: u16) -> Seq<u8> {
    seq![(value % 0x100) as u8, (value / 0x100) as u8]
}

/// The four bytes that encode `value`, least significant first.
pub open spec fn u32_to_le(value: u32) -> Seq<u8> {
    seq![
        (value % 0x100) as u8,
        (value / 0x100 % 0x100) as u8,
        (value / 0x1_0000 % 0x100) as u8,
        (value / 0x100_0000) as u8,
    ]
}

/// Decoding undoes encoding, for both widths.
pub proof fn lemma_le_decode_encode(half: u16, word: u32)
    ensures
        u16_to_le(half).len() == 2,
        u32_to_le(word).len() == 4,
        u16_from_le(u16_to_le(half)) == half,
        u32_from_le(u32_to_le(word)) == word,
{
}

/// Encoding undoes decoding: the bytes a value was read from are the bytes
/// it is written as.
pub proof fn lemma_le_encode_decode(bytes: Seq<u8>)
    ensures
        bytes.len() == 2 ==> u16_to_le(u16_from_le(bytes)) == bytes,
        bytes.len() == 4 ==> u32_to_le(u32_from_le(bytes)) == bytes,
{
    if bytes.len() == 2 {
        let (b0, b1) = (bytes[0], bytes[1]);
        let v: u16 = u16_from_le(bytes);
        assert(v == b0 + b1 * 0x100);
        assert({
            &&& ((b0 + b1 * 0x100) as u16 % 0x100) as u8 == b0
            &&& ((b0 + b1 * 0x100) as u16 / 0x100) as u8 == b1
        }) by (bit_vector);
        assert(u16_to_le(v) =~= bytes);
    }
    if bytes.len() == 4 {
        let (b0, b1, b2, b3) = (bytes[0], bytes[1], bytes[2], bytes[3]);
        let v: u32 = u32_from_le(bytes);
        assert(v == b0 + b1 * 0x100 + b2 * 0x1_0000 + b3 * 0x100_0000);
        assert({
            let w = (b0 + b1 * 0x100 + b2 * 0x1_0000 + b3 * 0x100_0000) as u32;
            &&& (w % 0x100) as u8 == b0
            &&& (w / 0x100 % 0x100) as u8 == b1
            &&& (w / 0x1_0000 % 0x100) as u8 == b2
            &&& (w / 0x100_0000) as u8 == b3
        }) by (bit_vector);
        assert(u32_to_le(v) =~= bytes);
    }
}

/// `byteorder::LittleEndian::read_u16`: the value of the first two bytes of
/// `buf`, least significant first. It panics on a shorter buffer, which the
/// precondition leaves out.
#[verifier::external_body]
pub(crate) fn le_read_u16(buf: &[u8]) -> (value: u16)
    requires
        buf@.len() >= 2,
    ensures
        value == u16_from_le(buf@),
{
    LittleEndian::read_u16(buf)
}

/// `byteorder::LittleEndian::read_u32`: the value of the first four bytes of
/// `buf`, least significant first. It panics on a shorter buffer, which the
/// precondition leaves out.
#[verifier::external_body]
pub(crate) fn le_read_u32(buf: &[u8]) -> (value: u32)
    requires
        buf@.len() >= 4,
    ensures
        value == u32_from_le(buf@),
{
    LittleEndian::read_u32(buf)
}

/// `byteorder::LittleEndian::read_i16`: the first two bytes of `buf` read as
/// an unsigned little-endian value and reinterpreted as signed. It panics on
/// a shorter buffer, which the precondition leaves out.
#[verifier::external_body]
pub(crate) fn le_read_i16(buf: &[u8]) -> (value: i16)
    requires
        buf@.len() >= 2,
    ensures
        value == i16_from_le(buf@),
{
    LittleEndian::read_i16(buf)
}

/// `byteorder::LittleEndian::write_u16` on a two-byte buffer: the buffer then
/// holds `value`, least significant byte first.
#[verifier::external_body]
pub(crate) fn le_write_u16(value: u16) -> (bytes: [u8; 2])
    ensures
        bytes@ == u16_to_le(value),
{
    let mut bytes = [0u8; 2];
    LittleEndian::write_u16(&mut bytes, value);
    bytes
}

/// `byteorder::LittleEndian::write_u32` on a four-byte buffer: the buffer then
/// holds `value`, least significant byte first.
#[verifier::external_body]
pub(crate) fn le_write_u32(value: u32) -> (bytes: [u8; 4])
    ensures
        bytes@ == u32_to_le(value),
{
    let mut bytes = [0u8; 4];
    LittleEndian::write_u32(&mut bytes, value);
    bytes
}

} // verus!
