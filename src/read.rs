//! Big-endian reads against a cursor over an in-memory buffer.
use crate::error::DecodeError;
use vstd::prelude::*;

verus! {

/// A read position over a byte buffer.
pub struct Cursor<'a> {
    pub data: &'a [u8],
    pub pos: usize,
}

impl<'a> Cursor<'a> {
    pub fn new(data: &'a [u8]) -> (r: Cursor<'a>)
        ensures
            r.data@ == data@,
            r.pos == 0,
    {
        Cursor { data, pos: 0 }
    }

    pub fn position(&self) -> (r: usize)
        ensures
            r == self.pos,
    {
        self.pos
    }
}

/// `n` bytes are there to be read at position `p` of `s`.
pub open spec fn available(s: Seq<u8>, p: int, n: int) -> bool {
    0 <= p && 0 <= n && p + n <= s.len()
}

pub open spec fn be16(s: Seq<u8>, p: int) -> u16 {
    ((s[p] as u16) << 8u16) | (s[p + 1] as u16)
}

pub open spec fn be32(s: Seq<u8>, p: int) -> u32 {
    ((s[p] as u32) << 24u32) | ((s[p + 1] as u32) << 16u32) | ((s[p + 2] as u32) << 8u32) | (s[p
        + 3] as u32)
}

pub open spec fn be64(s: Seq<u8>, p: int) -> u64 {
    ((be32(s, p) as u64) << 32u64) | (be32(s, p + 4) as u64)
}

/// Each `parse_*` gives the value found at position `p` of `s` and the
/// position just after it.
pub open spec fn parse_u8(s: Seq<u8>, p: int) -> Result<(u8, int), DecodeError> {
    if available(s, p, 1) {
        Ok((s[p], p + 1))
    } else {
        Err(DecodeError::Truncated)
    }
}

pub open spec fn parse_u16(s: Seq<u8>, p: int) -> Result<(u16, int), DecodeError> {
    if available(s, p, 2) {
        Ok((be16(s, p), p + 2))
    } else {
        Err(DecodeError::Truncated)
    }
}

pub open spec fn parse_u32(s: Seq<u8>, p: int) -> Result<(u32, int), DecodeError> {
    if available(s, p, 4) {
        Ok((be32(s, p), p + 4))
    } else {
        Err(DecodeError::Truncated)
    }
}

pub open spec fn parse_u64(s: Seq<u8>, p: int) -> Result<(u64, int), DecodeError> {
    if available(s, p, 8) {
        Ok((be64(s, p), p + 8))
    } else {
        Err(DecodeError::Truncated)
    }
}

pub open spec fn parse_i32(s: Seq<u8>, p: int) -> Result<(i32, int), DecodeError> {
    if available(s, p, 4) {
        Ok((be32(s, p) as i32, p + 4))
    } else {
        Err(DecodeError::Truncated)
    }
}

pub open spec fn parse_i64(s: Seq<u8>, p: int) -> Result<(i64, int), DecodeError> {
    if available(s, p, 8) {
        Ok((be64(s, p) as i64, p + 8))
    } else {
        Err(DecodeError::Truncated)
    }
}

pub open spec fn parse_bytes(s: Seq<u8>, p: int, n: int) -> Result<(Seq<u8>, int), DecodeError> {
    if available(s, p, n) {
        Ok((s.subrange(p, p + n), p + n))
    } else {
        Err(DecodeError::Truncated)
    }
}

/// A read from `before` left the cursor at `after` and returned `r`, as
/// `expected` (a value's model and the position after it, or an error) says.
/// On an error the position is unspecified; the buffer never changes.
pub open spec fn read_as<T: View>(
    before: Cursor,
    after: Cursor,
    r: Result<T, DecodeError>,
    expected: Result<(T::V, int), DecodeError>,
) -> bool {
    &&& after.data@ == before.data@
    &&& match expected {
        Ok((v, q)) => r matches Ok(x) && x@ == v && after.pos == q,
        Err(e) => r == Err::<T, DecodeError>(e),
    }
}

fn can_read(bytes: &Cursor, n: usize) -> (r: bool)
    ensures
        r == available(bytes.data@, bytes.pos as int, n as int),
        bytes.data@.len() <= usize::MAX,
{
    bytes.pos <= bytes.data.len() && n <= bytes.data.len() - bytes.pos
}

pub fn read_u8(bytes: &mut Cursor) -> (r: Result<u8, DecodeError>)
    ensures
        read_as(*old(bytes), *final(bytes), r, parse_u8(old(bytes).data@, old(bytes).pos as int)),
{
    if !can_read(bytes, 1) {
        return Err(DecodeError::Truncated);
    }
    let v = bytes.data[bytes.pos];
    bytes.pos = bytes.pos + 1;
    Ok(v)
}

pub fn read_u16(bytes: &mut Cursor) -> (r: Result<u16, DecodeError>)
    ensures
        read_as(*old(bytes), *final(bytes), r, parse_u16(old(bytes).data@, old(bytes).pos as int)),
{
    if !can_read(bytes, 2) {
        return Err(DecodeError::Truncated);
    }
    let p = bytes.pos;
    let v = ((bytes.data[p] as u16) << 8u16) | (bytes.data[p + 1] as u16);
    bytes.pos = p + 2;
    Ok(v)
}

fn be32_at(d: &[u8], p: usize) -> (r: u32)
    requires
        available(d@, p as int, 4),
    ensures
        r == be32(d@, p as int),
{
    ((d[p] as u32) << 24u32) | ((d[p + 1] as u32) << 16u32) | ((d[p + 2] as u32) << 8u32) | (d[p
        + 3] as u32)
}

pub fn read_u32(bytes: &mut Cursor) -> (r: Result<u32, DecodeError>)
    ensures
        read_as(*old(bytes), *final(bytes), r, parse_u32(old(bytes).data@, old(bytes).pos as int)),
{
    if !can_read(bytes, 4) {
        return Err(DecodeError::Truncated);
    }
    let v = be32_at(bytes.data, bytes.pos);
    bytes.pos = bytes.pos + 4;
    Ok(v)
}

pub fn read_u64(bytes: &mut Cursor) -> (r: Result<u64, DecodeError>)
    ensures
        read_as(*old(bytes), *final(bytes), r, parse_u64(old(bytes).data@, old(bytes).pos as int)),
{
    if !can_read(bytes, 8) {
        return Err(DecodeError::Truncated);
    }
    let p = bytes.pos;
    let v = ((be32_at(bytes.data, p) as u64) << 32u64) | (be32_at(bytes.data, p + 4) as u64);
    bytes.pos = p + 8;
    Ok(v)
}

pub fn read_i32(bytes: &mut Cursor) -> (r: Result<i32, DecodeError>)
    ensures
        read_as(*old(bytes), *final(bytes), r, parse_i32(old(bytes).data@, old(bytes).pos as int)),
{
    match read_u32(bytes) {
        Ok(v) => Ok(v as i32),
        Err(e) => Err(e),
    }
}

pub fn read_i64(bytes: &mut Cursor) -> (r: Result<i64, DecodeError>)
    ensures
        read_as(*old(bytes), *final(bytes), r, parse_i64(old(bytes).data@, old(bytes).pos as int)),
{
    match read_u64(bytes) {
        Ok(v) => Ok(v as i64),
        Err(e) => Err(e),
    }
}

/// Reads the next `size` bytes as they stand.
pub fn read_bytes(bytes: &mut Cursor, size: usize) -> (r: Result<Vec<u8>, DecodeError>)
    ensures
        read_as(
            *old(bytes),
            *final(bytes),
            r,
            parse_bytes(old(bytes).data@, old(bytes).pos as int, size as int),
        ),
{
    if !can_read(bytes, size) {
        return Err(DecodeError::Truncated);
    }
    let start = bytes.pos;
    let mut out: Vec<u8> = Vec::with_capacity(size);
    let mut i: usize = 0;
    while i < size
        invariant
            available(bytes.data@, start as int, size as int),
            bytes.data@.len() <= usize::MAX,
            0 <= i <= size,
            out@ == bytes.data@.subrange(start as int, start + i),
        decreases size - i,
    {
        out.push(bytes.data[start + i]);
        i = i + 1;
    }
    bytes.pos = start + size;
    Ok(out)
}

} // verus!
