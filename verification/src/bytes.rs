//! Reading big-endian numbers and runs of bytes out of a byte slice.

use crate::error::BaliError;
use vstd::prelude::*;

verus! {

/// Whether `n` bytes of `b` start at `pos`.
pub open spec fn has_bytes(b: Seq<u8>, pos: int, n: int) -> bool {
    0 <= pos && 0 <= n && pos + n <= b.len()
}

/// The number that the two bytes at `pos` spell, high byte first.
pub open spec fn be16(b: Seq<u8>, pos: int) -> int {
    b[pos] * 256 + b[pos + 1]
}

/// The number that the four bytes at `pos` spell, high byte first.
pub open spec fn be32(b: Seq<u8>, pos: int) -> int {
    ((b[pos] * 256 + b[pos + 1]) * 256 + b[pos + 2]) * 256 + b[pos + 3]
}

/// The error for a field at `pos` that the stream is too short to hold.
pub open spec fn truncated_at(pos: int) -> BaliError {
    BaliError::Truncated { offset: pos as usize }
}

/// The byte at `pos`, if the stream holds it.
pub open spec fn spec_read_u8(b: Seq<u8>, pos: int) -> Result<u8, BaliError> {
    if has_bytes(b, pos, 1) {
        Ok(b[pos])
    } else {
        Err(truncated_at(pos))
    }
}

/// The big-endian 16-bit number at `pos`, if the stream holds it.
pub open spec fn spec_read_u16(b: Seq<u8>, pos: int) -> Result<u16, BaliError> {
    if has_bytes(b, pos, 2) {
        Ok(be16(b, pos) as u16)
    } else {
        Err(truncated_at(pos))
    }
}

/// The big-endian 32-bit number at `pos`, if the stream holds it.
pub open spec fn spec_read_u32(b: Seq<u8>, pos: int) -> Result<u32, BaliError> {
    if has_bytes(b, pos, 4) {
        Ok(be32(b, pos) as u32)
    } else {
        Err(truncated_at(pos))
    }
}

/// The byte at `pos`.
pub fn read_u8(b: &[u8], pos: usize) -> (r: Result<u8, BaliError>)
    ensures
        r == spec_read_u8(b@, pos as int),
        r is Ok ==> pos + 1 <= usize::MAX,
{
    if pos < b.len() {
        Ok(b[pos])
    } else {
        Err(BaliError::Truncated { offset: pos })
    }
}

/// The big-endian 16-bit number at `pos`.
pub fn read_u16(b: &[u8], pos: usize) -> (r: Result<u16, BaliError>)
    ensures
        r == spec_read_u16(b@, pos as int),
        r is Ok ==> pos + 2 <= usize::MAX,
{
    if pos <= b.len() && b.len() - pos >= 2 {
        let hi: u16 = b[pos] as u16;
        let lo: u16 = b[pos + 1] as u16;
        Ok(hi * 256 + lo)
    } else {
        Err(BaliError::Truncated { offset: pos })
    }
}

/// The big-endian 32-bit number at `pos`.
pub fn read_u32(b: &[u8], pos: usize) -> (r: Result<u32, BaliError>)
    ensures
        r == spec_read_u32(b@, pos as int),
        r is Ok ==> pos + 4 <= usize::MAX,
{
    if pos <= b.len() && b.len() - pos >= 4 {
        let b0: u32 = b[pos] as u32;
        let b1: u32 = b[pos + 1] as u32;
        let b2: u32 = b[pos + 2] as u32;
        let b3: u32 = b[pos + 3] as u32;
        Ok(((b0 * 256 + b1) * 256 + b2) * 256 + b3)
    } else {
        Err(BaliError::Truncated { offset: pos })
    }
}

/// Appends the bytes of `src` from `from` up to `to` to `out`.
pub(crate) fn push_range(out: &mut Vec<u8>, src: &[u8], from: usize, to: usize)
    requires
        from <= to <= src@.len(),
    ensures
        final(out)@ == old(out)@ + src@.subrange(from as int, to as int),
{
    let mut i: usize = from;
    while i < to
        invariant
            from <= i <= to <= src@.len(),
            out@ == old(out)@ + src@.subrange(from as int, i as int),
        decreases to - i,
    {
        out.push(src[i]);
        i = i + 1;
        assert(out@ =~= old(out)@ + src@.subrange(from as int, i as int));
    }
}

/// The `n` bytes of `b` that start at `pos`, as a vector of their own.
pub fn read_bytes(b: &[u8], pos: usize, n: usize) -> (r: Result<Vec<u8>, BaliError>)
    ensures
        match r {
            Ok(v) => has_bytes(b@, pos as int, n as int) && v@ == b@.subrange(pos as int, pos + n),
            Err(e) => !has_bytes(b@, pos as int, n as int) && e == truncated_at(pos as int),
        },
        r is Ok ==> pos + n <= usize::MAX,
{
    if pos <= b.len() && b.len() - pos >= n {
        let mut v: Vec<u8> = Vec::new();
        push_range(&mut v, b, pos, pos + n);
        assert(v@ =~= b@.subrange(pos as int, pos + n));
        Ok(v)
    } else {
        Err(BaliError::Truncated { offset: pos })
    }
}

} // verus!
