//! Little-endian, length-prefixed encoders that append to a byte buffer.
use vstd::bytes::{spec_u32_to_le_bytes, spec_u64_to_le_bytes, u32_to_le_bytes, u64_to_le_bytes};
use vstd::prelude::*;
use vstd::utf8::encode_utf8;

verus! {

/// Appends one byte.
pub fn u8(writer: &mut Vec<u8>, value: u8)
    ensures
        final(writer)@ == old(writer)@.push(value),
{
    writer.push(value);
}

/// Appends the four little-endian bytes of `value`.
pub fn u32(writer: &mut Vec<u8>, value: u32)
    ensures
        final(writer)@ == old(writer)@ + spec_u32_to_le_bytes(value),
{
    let bytes = u32_to_le_bytes(value);
    array_raw(writer, bytes.as_slice());
}

/// Appends the eight little-endian bytes of `value`.
pub fn u64(writer: &mut Vec<u8>, value: u64)
    ensures
        final(writer)@ == old(writer)@ + spec_u64_to_le_bytes(value),
{
    let bytes = u64_to_le_bytes(value);
    array_raw(writer, bytes.as_slice());
}

/// Appends a 32-bit length followed by the UTF-8 bytes of `value`.
pub fn string(writer: &mut Vec<u8>, value: &str)
    requires
        encode_utf8(value@).len() <= u32::MAX,
    ensures
        final(writer)@ == old(writer)@ + spec_u32_to_le_bytes(encode_utf8(value@).len() as u32)
            + encode_utf8(value@),
{
    let bytes = value.as_bytes();
    u32(writer, bytes.len() as u32);
    array_raw(writer, bytes);
}

/// Appends the UTF-8 bytes of `value`, with no length in front.
pub fn string_raw(writer: &mut Vec<u8>, value: &str)
    ensures
        final(writer)@ == old(writer)@ + encode_utf8(value@),
{
    array_raw(writer, value.as_bytes());
}

/// Appends a 32-bit length followed by the bytes of `value`.
pub fn array(writer: &mut Vec<u8>, value: &[u8])
    requires
        value@.len() <= u32::MAX,
    ensures
        final(writer)@ == old(writer)@ + spec_u32_to_le_bytes(value@.len() as u32) + value@,
{
    u32(writer, value.len() as u32);
    array_raw(writer, value);
}

/// Appends the bytes of `value`, with no length in front.
pub fn array_raw(writer: &mut Vec<u8>, value: &[u8])
    ensures
        final(writer)@ == old(writer)@ + value@,
{
    let ghost start = writer@;
    let mut i: usize = 0;
    while i < value.len()
        invariant
            i <= value@.len(),
            writer@ == start + value@.subrange(0, i as int),
        decreases value@.len() - i,
    {
        writer.push(value[i]);
        i = i + 1;
        assert(value@.subrange(0, i as int) == value@.subrange(0, i - 1 as int).push(value@[i - 1]));
    }
    assert(value@.subrange(0, value@.len() as int) == value@);
}

} // verus!
