//! The byte layout that ETW reads: little-endian integers and NUL-terminated
//! UTF-8, appended to growing buffers.

use vstd::prelude::*;
use vstd::string::*;
use vstd::utf8::*;

verus! {

/// The two bytes of `n`, low byte first.
pub open spec fn u16_le(n: u16) -> Seq<u8> {
    seq![(n & 0xff) as u8, ((n >> 8) & 0xff) as u8]
}

/// The eight bytes of `n`, low byte first.
pub open spec fn u64_le(n: u64) -> Seq<u8> {
    seq![
        (n & 0xff) as u8,
        ((n >> 8) & 0xff) as u8,
        ((n >> 16) & 0xff) as u8,
        ((n >> 24) & 0xff) as u8,
        ((n >> 32) & 0xff) as u8,
        ((n >> 40) & 0xff) as u8,
        ((n >> 48) & 0xff) as u8,
        ((n >> 56) & 0xff) as u8,
    ]
}

/// The eight bytes of `n` in two's complement, low byte first.
pub open spec fn i64_le(n: i64) -> Seq<u8> {
    u64_le(n as u64)
}

/// A text as a NUL-terminated string.
pub open spec fn cstring(text: Seq<char>) -> Seq<u8> {
    encode_utf8(text).push(0)
}

/// Appends bytes.
pub fn put_slice(buf: &mut Vec<u8>, bytes: &[u8])
    ensures
        final(buf)@ == old(buf)@ + bytes@,
{
    buf.extend_from_slice(bytes);
    assert(buf@ =~= old(buf)@ + bytes@);
}

/// Appends one byte.
pub fn put_u8(buf: &mut Vec<u8>, byte: u8)
    ensures
        final(buf)@ == old(buf)@.push(byte),
{
    buf.push(byte);
}

/// Appends an integer, low byte first.
pub fn put_u16_le(buf: &mut Vec<u8>, n: u16)
    ensures
        final(buf)@ == old(buf)@ + u16_le(n),
{
    buf.push((n & 0xff) as u8);
    buf.push(((n >> 8) & 0xff) as u8);
    assert(buf@ =~= old(buf)@ + u16_le(n));
}

/// Appends an integer, low byte first.
pub fn put_u64_le(buf: &mut Vec<u8>, n: u64)
    ensures
        final(buf)@ == old(buf)@ + u64_le(n),
{
    buf.push((n & 0xff) as u8);
    buf.push(((n >> 8) & 0xff) as u8);
    buf.push(((n >> 16) & 0xff) as u8);
    buf.push(((n >> 24) & 0xff) as u8);
    buf.push(((n >> 32) & 0xff) as u8);
    buf.push(((n >> 40) & 0xff) as u8);
    buf.push(((n >> 48) & 0xff) as u8);
    buf.push(((n >> 56) & 0xff) as u8);
    assert(buf@ =~= old(buf)@ + u64_le(n));
}

/// Appends an integer in two's complement, low byte first.
pub fn put_i64_le(buf: &mut Vec<u8>, n: i64)
    ensures
        final(buf)@ == old(buf)@ + i64_le(n),
{
    put_u64_le(buf, n as u64);
}

/// Overwrites the first two bytes with an integer, low byte first.
pub fn set_u16_le(buf: &mut Vec<u8>, n: u16)
    requires
        old(buf)@.len() >= 2,
    ensures
        final(buf)@ == u16_le(n) + old(buf)@.skip(2),
{
    buf.set(0, (n & 0xff) as u8);
    buf.set(1, ((n >> 8) & 0xff) as u8);
    assert(buf@ =~= u16_le(n) + old(buf)@.skip(2));
}

/// Appends a text and its terminator.
pub fn put_cstring(buf: &mut Vec<u8>, text: &str)
    ensures
        final(buf)@ == old(buf)@ + cstring(text@),
{
    put_slice(buf, text.as_bytes());
    put_u8(buf, 0);
    assert(buf@ =~= old(buf)@ + cstring(text@));
}

/// The number that two bytes spell, low byte first.
pub open spec fn le_u16(bytes: Seq<u8>) -> int {
    bytes[0] + bytes[1] * 256
}

/// The number that eight bytes spell, low byte first.
pub open spec fn le_u64(bytes: Seq<u8>) -> int {
    bytes[0] + bytes[1] * 0x100 + bytes[2] * 0x1_0000 + bytes[3] * 0x100_0000 + bytes[4]
        * 0x1_0000_0000 + bytes[5] * 0x100_0000_0000 + bytes[6] * 0x1_0000_0000_0000 + bytes[7]
        * 0x100_0000_0000_0000
}

/// The bytes of an integer spell that integer.
pub proof fn law_u16_le(n: u16)
    ensures
        u16_le(n).len() == 2,
        le_u16(u16_le(n)) == n,
{
    assert(((n & 0xff) as u8) + (((n >> 8) & 0xff) as u8) * 256 == n) by (bit_vector);
}

/// The bytes of an integer spell that integer.
pub proof fn law_u64_le(n: u64)
    ensures
        u64_le(n).len() == 8,
        le_u64(u64_le(n)) == n,
{
    assert(((n & 0xff) as u8) + (((n >> 8) & 0xff) as u8) * 0x100 + (((n >> 16) & 0xff) as u8)
        * 0x1_0000 + (((n >> 24) & 0xff) as u8) * 0x100_0000 + (((n >> 32) & 0xff) as u8)
        * 0x1_0000_0000 + (((n >> 40) & 0xff) as u8) * 0x100_0000_0000 + (((n >> 48) & 0xff) as u8)
        * 0x1_0000_0000_0000 + (((n >> 56) & 0xff) as u8) * 0x100_0000_0000_0000 == n)
        by (bit_vector);
}

/// The bytes of a signed integer spell it in two's complement: a negative one
/// as the number that lies 2^64 above it.
pub proof fn law_i64_le(n: i64)
    ensures
        i64_le(n).len() == 8,
        n >= 0 ==> le_u64(i64_le(n)) == n,
        n < 0 ==> le_u64(i64_le(n)) == n + 0x1_0000_0000_0000_0000,
{
    law_u64_le(n as u64);
    assert(n >= 0 ==> (n as u64) == n) by (bit_vector);
    assert(n < 0 ==> (n as u64) == n + 0x1_0000_0000_0000_0000) by (bit_vector);
}

} // verus!
