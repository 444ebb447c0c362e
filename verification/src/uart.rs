//! What is sent to the processor over the serial line, and what it answers.
//!
//! The host sends the length of the image and then the image, byte by byte,
//! and waits for one byte of acknowledgement after each byte. The length
//! takes one byte, or two with the low byte first. At the end the processor
//! sends the number of cycles that the program ran, low byte first.

use crate::bytes::push_range;
use crate::error::{is_result, BaliError};
use vstd::prelude::*;

verus! {

/// The number of bytes in which the processor reports its cycles.
pub const CYCLE_BYTES: usize = 8;

/// The bytes that announce an image of `len` bytes.
pub open spec fn length_prefix(len: int, long: bool) -> Result<Seq<u8>, BaliError> {
    if long {
        if len > 0xffff {
            Err(BaliError::TransferTooLong)
        } else {
            Ok(seq![(len % 256) as u8, (len / 256) as u8])
        }
    } else {
        if len > 0xff {
            Err(BaliError::TransferTooLong)
        } else {
            Ok(seq![len as u8])
        }
    }
}

/// The bytes that the host sends for the image `bin`: its length and then
/// its bytes.
pub open spec fn spec_frame(bin: Seq<u8>, long: bool) -> Result<Seq<u8>, BaliError> {
    match length_prefix(bin.len() as int, long) {
        Ok(prefix) => Ok(prefix + bin),
        Err(e) => Err(e),
    }
}

/// The number that `bytes` spell, low byte first.
pub open spec fn little_endian(bytes: Seq<u8>) -> nat
    decreases bytes.len(),
{
    if bytes.len() == 0 {
        0
    } else {
        bytes[0] as nat + 256 * little_endian(bytes.drop_first())
    }
}

/// The number of values that `n` bytes can spell.
pub open spec fn values_of(n: nat) -> nat
    decreases n,
{
    if n == 0 {
        1
    } else {
        256 * values_of((n - 1) as nat)
    }
}

/// A number of `n` bytes is below the number of values of `n` bytes.
pub proof fn lemma_little_endian_bound(bytes: Seq<u8>)
    ensures
        little_endian(bytes) < values_of(bytes.len()),
    decreases bytes.len(),
{
    if bytes.len() > 0 {
        lemma_little_endian_bound(bytes.drop_first());
    }
}

/// More bytes spell more values.
pub proof fn lemma_values_grow(m: nat, n: nat)
    requires
        m <= n,
    ensures
        values_of(m) <= values_of(n),
    decreases n - m,
{
    if m < n {
        lemma_values_grow(m, (n - 1) as nat);
    }
}

/// Lays out what the host sends for the image `bin`: the length of the
/// image, in two bytes where `long` holds and in one otherwise, and then the
/// image. It is an error where the length does not fit.
pub fn transfer_frame(bin: &[u8], long: bool) -> (r: Result<Vec<u8>, BaliError>)
    ensures
        is_result(r, spec_frame(bin@, long)),
{
    let len: usize = bin.len();
    let mut frame: Vec<u8> = Vec::new();
    if long {
        if len > 0xffff {
            return Err(BaliError::TransferTooLong);
        }
        frame.push((len % 256) as u8);
        frame.push((len / 256) as u8);
    } else {
        if len > 0xff {
            return Err(BaliError::TransferTooLong);
        }
        frame.push(len as u8);
    }
    let ghost prefix = frame@;
    assert(prefix =~= length_prefix(len as int, long)->Ok_0);
    push_range(&mut frame, bin, 0, len);
    assert(bin@.subrange(0, len as int) =~= bin@);
    Ok(frame)
}

/// Reads the number of cycles that the processor reports in `cycles`, low
/// byte first. There is none where `cycles` has more than eight bytes.
pub fn turnaround(cycles: &[u8]) -> (r: Option<u64>)
    ensures
        match r {
            Some(count) => cycles@.len() <= 8 && count == little_endian(cycles@),
            None => cycles@.len() > 8,
        },
{
    let len: usize = cycles.len();
    if len > 8 {
        return None;
    }
    let mut count: u64 = 0;
    let mut i: usize = len;
    assert(cycles@.skip(len as int) =~= Seq::<u8>::empty());
    while i > 0
        invariant
            i <= len <= 8,
            len == cycles@.len(),
            count == little_endian(cycles@.skip(i as int)),
        decreases i,
    {
        proof {
            let rest = cycles@.skip(i as int);
            let more = cycles@.skip(i - 1);
            assert(more.drop_first() =~= rest);
            assert(more[0] == cycles@[i - 1]);
            lemma_little_endian_bound(more);
            lemma_values_grow(more.len(), 8);
            reveal_with_fuel(values_of, 9);
            assert(values_of(8) == 0x1_0000_0000_0000_0000);
        }
        i = i - 1;
        count = count * 256 + cycles[i] as u64;
    }
    assert(cycles@.skip(0) =~= cycles@);
    Some(count)
}

} // verus!
