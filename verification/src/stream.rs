//! A read position over a byte buffer held in memory, and the matching
//! append-only writers. Both containers are decoded and encoded through these.

use crate::endian::{
    i16_from_bits, le_read_i16, le_read_u16, le_read_u32, le_write_u16, le_write_u32, u16_of,
    u16_to_le, u32_of, u32_to_le,
};
use crate::error::LinkError;
use vstd::prelude::*;
use vstd::slice::{slice_subrange, slice_to_vec};

verus! {

/// Whether the `count` bytes that start at `pos` all lie inside `data`.
pub open spec fn in_bounds(data: Seq<u8>, pos: int, count: int) -> bool {
    0 <= pos && 0 <= count && pos + count <= data.len()
}

/// Whether a read of `count` bytes at `pos` succeeds: a read of nothing
/// always does, any other must lie inside `data`.
pub open spec fn readable(data: Seq<u8>, pos: int, count: int) -> bool {
    count == 0 || in_bounds(data, pos, count)
}

/// The `count` bytes of `data` that start at `pos`.
pub open spec fn bytes_at(data: Seq<u8>, pos: int, count: int) -> Seq<u8> {
    Seq::new(count as nat, |i: int| data[pos + i])
}

/// The little-endian 16-bit field of `data` at `pos`.
pub open spec fn u16_at(data: Seq<u8>, pos: int) -> u16 {
    u16_of(data[pos], data[pos + 1])
}

/// The little-endian 32-bit field of `data` at `pos`.
pub open spec fn u32_at(data: Seq<u8>, pos: int) -> u32 {
    u32_of(data[pos], data[pos + 1], data[pos + 2], data[pos + 3])
}

/// The little-endian signed 16-bit field of `data` at `pos`.
pub open spec fn i16_at(data: Seq<u8>, pos: int) -> i16 {
    i16_from_bits(u16_at(data, pos))
}

/// A whole input held in memory together with the position of the next read.
/// The position may lie beyond the end; a read there fails.
pub struct ByteReader {
    pub data: Vec<u8>,
    pub position: u64,
}

impl ByteReader {
    /// A reader at the start of `data`.
    pub fn new(data: Vec<u8>) -> (reader: ByteReader)
        ensures
            reader.data@ == data@,
            reader.position == 0,
    {
        ByteReader { data, position: 0 }
    }

    /// The position of the next read.
    pub fn stream_position(&self) -> (position: u64)
        ensures
            position == self.position,
    {
        self.position
    }

    /// Moves the next read to `position`, inside the data or not.
    pub fn seek(&mut self, position: u64)
        ensures
            final(self).data@ == old(self).data@,
            final(self).position == position,
    {
        self.position = position;
    }

    /// Moves the next read forward by `count` bytes. Fails, and stays where it
    /// is, if the new position cannot be represented.
    pub fn skip(&mut self, count: u64) -> (done: Result<(), LinkError>)
        ensures
            final(self).data@ == old(self).data@,
            match done {
                Ok(_) => final(self).position == old(self).position + count,
                Err(e) => e == LinkError::MalformedContainer && old(self).position + count
                    > u64::MAX && final(self).position == old(self).position,
            },
    {
        if count > u64::MAX - self.position {
            return Err(LinkError::MalformedContainer);
        }
        self.position = self.position + count;
        Ok(())
    }

    /// Reads `count` bytes and moves past them. Fails, and stays where it is,
    /// if fewer than `count` bytes are left. Reading no bytes succeeds at
    /// every position.
    pub fn read_exact(&mut self, count: usize) -> (bytes: Result<Vec<u8>, LinkError>)
        ensures
            final(self).data@ == old(self).data@,
            match bytes {
                Ok(b) => readable(old(self).data@, old(self).position as int, count as int)
                    && b@ == bytes_at(old(self).data@, old(self).position as int, count as int)
                    && final(self).position == old(self).position + count,
                Err(e) => e == LinkError::MalformedContainer && !readable(
                    old(self).data@,
                    old(self).position as int,
                    count as int,
                ) && final(self).position == old(self).position,
            },
    {
        if count == 0 {
            let bytes: Vec<u8> = Vec::new();
            assert(bytes@ =~= bytes_at(self.data@, self.position as int, 0));
            return Ok(bytes);
        }
        let len: usize = self.data.len();
        if len < count || self.position > (len - count) as u64 {
            return Err(LinkError::MalformedContainer);
        }
        let at: usize = self.position as usize;
        let window = slice_subrange(self.data.as_slice(), at, at + count);
        let bytes = slice_to_vec(window);
        assert(bytes@ =~= bytes_at(self.data@, self.position as int, count as int));
        self.position = self.position + count as u64;
        Ok(bytes)
    }

    /// Reads one byte.
    pub fn read_u8(&mut self) -> (value: Result<u8, LinkError>)
        ensures
            final(self).data@ == old(self).data@,
            match value {
                Ok(v) => in_bounds(old(self).data@, old(self).position as int, 1) && v == old(
                    self,
                ).data@[old(self).position as int] && final(self).position == old(self).position
                    + 1,
                Err(e) => e == LinkError::MalformedContainer && !in_bounds(
                    old(self).data@,
                    old(self).position as int,
                    1,
                ) && final(self).position == old(self).position,
            },
    {
        let len = self.data.len();
        if len < 1 || self.position > (len - 1) as u64 {
            return Err(LinkError::MalformedContainer);
        }
        let value = self.data[self.position as usize];
        self.position = self.position + 1;
        Ok(value)
    }

    /// Reads a little-endian 16-bit value.
    pub fn read_u16(&mut self) -> (value: Result<u16, LinkError>)
        ensures
            final(self).data@ == old(self).data@,
            match value {
                Ok(v) => in_bounds(old(self).data@, old(self).position as int, 2) && v == u16_at(
                    old(self).data@,
                    old(self).position as int,
                ) && final(self).position == old(self).position + 2,
                Err(e) => e == LinkError::MalformedContainer && !in_bounds(
                    old(self).data@,
                    old(self).position as int,
                    2,
                ) && final(self).position == old(self).position,
            },
    {
        let len = self.data.len();
        if len < 2 || self.position > (len - 2) as u64 {
            return Err(LinkError::MalformedContainer);
        }
        let at = self.position as usize;
        let value = le_read_u16(slice_subrange(self.data.as_slice(), at, at + 2));
        self.position = self.position + 2;
        Ok(value)
    }

    /// Reads a little-endian signed 16-bit value.
    pub fn read_i16(&mut self) -> (value: Result<i16, LinkError>)
        ensures
            final(self).data@ == old(self).data@,
            match value {
                Ok(v) => in_bounds(old(self).data@, old(self).position as int, 2) && v == i16_at(
                    old(self).data@,
                    old(self).position as int,
                ) && final(self).position == old(self).position + 2,
                Err(e) => e == LinkError::MalformedContainer && !in_bounds(
                    old(self).data@,
                    old(self).position as int,
                    2,
                ) && final(self).position == old(self).position,
            },
    {
        let len = self.data.len();
        if len < 2 || self.position > (len - 2) as u64 {
            return Err(LinkError::MalformedContainer);
        }
        let at = self.position as usize;
        let value = le_read_i16(slice_subrange(self.data.as_slice(), at, at + 2));
        self.position = self.position + 2;
        Ok(value)
    }

    /// Reads a little-endian 32-bit value.
    pub fn read_u32(&mut self) -> (value: Result<u32, LinkError>)
        ensures
            final(self).data@ == old(self).data@,
            match value {
                Ok(v) => in_bounds(old(self).data@, old(self).position as int, 4) && v == u32_at(
                    old(self).data@,
                    old(self).position as int,
                ) && final(self).position == old(self).position + 4,
                Err(e) => e == LinkError::MalformedContainer && !in_bounds(
                    old(self).data@,
                    old(self).position as int,
                    4,
                ) && final(self).position == old(self).position,
            },
    {
        let len = self.data.len();
        if len < 4 || self.position > (len - 4) as u64 {
            return Err(LinkError::MalformedContainer);
        }
        let at = self.position as usize;
        let value = le_read_u32(slice_subrange(self.data.as_slice(), at, at + 4));
        self.position = self.position + 4;
        Ok(value)
    }
}

/// Appends one byte to `destination`.
pub fn write_u8(destination: &mut Vec<u8>, value: u8)
    ensures
        final(destination)@ == old(destination)@.push(value),
{
    destination.push(value);
}

/// Appends `value` to `destination`, least significant byte first.
pub fn write_u16(destination: &mut Vec<u8>, value: u16)
    ensures
        final(destination)@ == old(destination)@ + u16_to_le(value),
{
    let bytes = le_write_u16(value);
    destination.push(bytes[0]);
    destination.push(bytes[1]);
    assert(destination@ =~= old(destination)@ + u16_to_le(value));
}

/// Appends `value` to `destination`, least significant byte first.
pub fn write_u32(destination: &mut Vec<u8>, value: u32)
    ensures
        final(destination)@ == old(destination)@ + u32_to_le(value),
{
    let bytes = le_write_u32(value);
    destination.push(bytes[0]);
    destination.push(bytes[1]);
    destination.push(bytes[2]);
    destination.push(bytes[3]);
    assert(destination@ =~= old(destination)@ + u32_to_le(value));
}

/// Appends all of `bytes` to `destination`.
pub fn write_all(destination: &mut Vec<u8>, bytes: &[u8])
    ensures
        final(destination)@ == old(destination)@ + bytes@,
{
    let mut i: usize = 0;
    while i < bytes.len()
        invariant
            i <= bytes@.len(),
            destination@ == old(destination)@ + bytes@.subrange(0, i as int),
        decreases bytes@.len() - i,
    {
        destination.push(bytes[i]);
        i = i + 1;
        assert(destination@ =~= old(destination)@ + bytes@.subrange(0, i as int));
    }
    assert(bytes@.subrange(0, i as int) =~= bytes@);
}

} // verus!
