//! Conversion of 8-bit input bytes into 7-bit ASCII.

use vstd::prelude::*;
use vstd::slice::*;

verus! {

/// End of file marker: conversion stops in front of it.
pub const EOF_BYTE: u8 = 0x1A;

/// Bit mask that keeps the low seven bits of a byte.
pub const ASCII_MASK: u8 = 0x7F;

/// Number of bytes that a caller reads and converts at a time.
pub const CHUNK_SIZE: usize = 16384;

/// `n` is the number of bytes in front of the first end of file marker of
/// `s`, or the length of `s` where it holds no marker.
pub open spec fn is_chunk_end(s: Seq<u8>, n: int) -> bool {
    &&& 0 <= n <= s.len()
    &&& forall|i: int| 0 <= i < n ==> s[i] != EOF_BYTE
    &&& n < s.len() ==> s[n] == EOF_BYTE
}

/// The first `n` bytes of `s`, each without its top bit.
pub open spec fn masked_prefix(s: Seq<u8>, n: int) -> Seq<u8> {
    Seq::new(n as nat, |i: int| s[i] & ASCII_MASK)
}

/// Clears the top bit of every byte in front of the first end of file
/// marker, in place, and returns that part of the buffer. The marker and
/// what follows it stay as they were. A result shorter than the buffer
/// tells the caller that the marker was met.
pub fn convert_chunk(buf: &mut [u8]) -> (r: &[u8])
    ensures
        is_chunk_end(old(buf)@, r@.len() as int),
        r@ == masked_prefix(old(buf)@, r@.len() as int),
        final(buf)@ == r@ + old(buf)@.skip(r@.len() as int),
{
    let n: usize = buf.len();
    let mut count: usize = 0;
    while count < n && buf[count] != EOF_BYTE
        invariant
            n == buf@.len(),
            buf@.len() == old(buf)@.len(),
            0 <= count <= n,
            forall|i: int| 0 <= i < count ==> old(buf)@[i] != EOF_BYTE,
            forall|i: int| 0 <= i < count ==> buf@[i] == old(buf)@[i] & ASCII_MASK,
            forall|i: int| count <= i < n ==> buf@[i] == old(buf)@[i],
        decreases n - count,
    {
        let b: u8 = buf[count];
        buf[count] = b & ASCII_MASK;
        count += 1;
    }
    let r = slice_subrange(buf, 0, count);
    assert(r@ =~= masked_prefix(old(buf)@, count as int));
    assert(buf@ =~= r@ + old(buf)@.skip(count as int));
    r
}

/// Whether a stream goes on behind a chunk of `read` bytes of which
/// `converted` were converted: it does unless nothing was read, or the
/// conversion stopped in front of an end of file marker.
pub open spec fn goes_on(read: int, converted: int) -> bool {
    read > 0 && converted == read
}

/// Converts what was read of a stream into the buffer, and tells whether
/// to read on. Returns the bytes to write, which are those in front of the
/// first end of file marker, each without its top bit, and `false` where
/// nothing was read or a marker was met: then the stream is at its end and
/// what follows is not to be read.
pub fn convert_step(buf: &mut [u8]) -> (r: (&[u8], bool))
    ensures
        is_chunk_end(old(buf)@, r.0@.len() as int),
        r.0@ == masked_prefix(old(buf)@, r.0@.len() as int),
        final(buf)@ == r.0@ + old(buf)@.skip(r.0@.len() as int),
        r.1 == goes_on(old(buf)@.len() as int, r.0@.len() as int),
{
    let read = buf.len();
    let converted = convert_chunk(buf);
    let more = read > 0 && converted.len() == read;
    (converted, more)
}

} // verus!
