//! Decoders that read from a byte slice at a cursor position.
//!
//! Each decoder either consumes exactly the bytes of one value and returns
//! it, or fails and leaves the cursor where it was.
use crate::binary::{decoded_as, BinaryError};
use vstd::bytes::{spec_u32_from_le_bytes, spec_u64_from_le_bytes, u32_from_le_bytes, u64_from_le_bytes};
use vstd::prelude::*;
use vstd::slice::{slice_subrange, slice_to_vec};
use vstd::utf8::{decode_utf8, valid_utf8};

verus! {

/// One byte.
pub open spec fn parse_u8(s: Seq<u8>) -> Result<(u8, nat), BinaryError> {
    if s.len() >= 1 {
        Ok((s[0], 1))
    } else {
        Err(BinaryError::UnexpectedEndOfInput)
    }
}

/// Four little-endian bytes.
pub open spec fn parse_u32(s: Seq<u8>) -> Result<(u32, nat), BinaryError> {
    if s.len() >= 4 {
        Ok((spec_u32_from_le_bytes(s.take(4)), 4))
    } else {
        Err(BinaryError::UnexpectedEndOfInput)
    }
}

/// Eight little-endian bytes.
pub open spec fn parse_u64(s: Seq<u8>) -> Result<(u64, nat), BinaryError> {
    if s.len() >= 8 {
        Ok((spec_u64_from_le_bytes(s.take(8)), 8))
    } else {
        Err(BinaryError::UnexpectedEndOfInput)
    }
}

/// `len` bytes taken as they are.
pub open spec fn parse_bytes(s: Seq<u8>, len: nat) -> Result<(Seq<u8>, nat), BinaryError> {
    if s.len() >= len {
        Ok((s.take(len as int), len))
    } else {
        Err(BinaryError::UnexpectedEndOfInput)
    }
}

/// `len` bytes that must be UTF-8, decoded to characters.
pub open spec fn parse_string_raw(s: Seq<u8>, len: nat) -> Result<(Seq<char>, nat), BinaryError> {
    if s.len() < len {
        Err(BinaryError::UnexpectedEndOfInput)
    } else if !valid_utf8(s.take(len as int)) {
        Err(BinaryError::InvalidEncoding)
    } else {
        Ok((decode_utf8(s.take(len as int)), len))
    }
}

/// A 32-bit length followed by that many UTF-8 bytes.
pub open spec fn parse_string(s: Seq<u8>) -> Result<(Seq<char>, nat), BinaryError> {
    match parse_u32(s) {
        Err(e) => Err(e),
        Ok((len, k)) => match parse_string_raw(s.skip(k as int), len as nat) {
            Err(e) => Err(e),
            Ok((t, m)) => Ok((t, k + m)),
        },
    }
}

/// A 32-bit length followed by that many bytes.
pub open spec fn parse_array(s: Seq<u8>) -> Result<(Seq<u8>, nat), BinaryError> {
    match parse_u32(s) {
        Err(e) => Err(e),
        Ok((len, k)) => match parse_bytes(s.skip(k as int), len as nat) {
            Err(e) => Err(e),
            Ok((b, m)) => Ok((b, k + m)),
        },
    }
}

/// Relies on `String::from_utf8`: it accepts exactly the well-formed UTF-8
/// byte sequences, and the string it returns holds the characters they encode.
#[verifier::external_body]
pub(crate) fn utf8_string(bytes: Vec<u8>) -> (r: Option<String>)
    ensures
        r is Some <==> valid_utf8(bytes@),
        r is Some ==> r->Some_0@ == decode_utf8(bytes@),
{
    String::from_utf8(bytes).ok()
}

/// Advances the cursor by `n` bytes, or to the end of the data if fewer remain.
pub fn skip(data: &[u8], pos: &mut usize, n: u64)
    requires
        *old(pos) <= data@.len(),
    ensures
        *final(pos) as int == if *old(pos) + n <= data@.len() {
            *old(pos) + n
        } else {
            data@.len() as int
        },
{
    let remaining = data.len() - *pos;
    if n <= remaining as u64 {
        *pos = *pos + n as usize;
    } else {
        *pos = data.len();
    }
}

/// Fills the whole of `buf` with the bytes at the cursor, or fails without
/// touching `buf` when fewer bytes remain.
pub fn exact(data: &[u8], pos: &mut usize, buf: &mut [u8]) -> (r: Result<(), BinaryError>)
    requires
        *old(pos) <= data@.len(),
    ensures
        match parse_bytes(data@.skip(*old(pos) as int), old(buf)@.len()) {
            Ok((b, n)) => r is Ok && final(buf)@ == b && *final(pos) == *old(pos) + n,
            Err(e) => r == Err::<(), BinaryError>(e) && final(buf)@ == old(buf)@ && *final(pos)
                == *old(pos),
        },
{
    let start = *pos;
    if data.len() - start < buf.len() {
        return Err(BinaryError::UnexpectedEndOfInput);
    }
    let ghost original = buf@;
    let mut i: usize = 0;
    while i < buf.len()
        invariant
            start + buf@.len() <= data@.len() <= usize::MAX,
            i <= buf@.len(),
            buf@.len() == original.len(),
            forall|j: int| 0 <= j < i ==> buf@[j] == data@[start + j],
        decreases buf@.len() - i,
    {
        buf[i] = data[start + i];
        i = i + 1;
    }
    assert(buf@ =~= data@.skip(start as int).take(buf@.len() as int));
    *pos = start + buf.len();
    Ok(())
}

/// One byte.
pub fn u8(data: &[u8], pos: &mut usize) -> (r: Result<u8, BinaryError>)
    requires
        *old(pos) <= data@.len(),
    ensures
        decoded_as(r, parse_u8(data@.skip(*old(pos) as int)), *old(pos), *final(pos)),
{
    if *pos < data.len() {
        let v = data[*pos];
        *pos = *pos + 1;
        Ok(v)
    } else {
        Err(BinaryError::UnexpectedEndOfInput)
    }
}

/// A little-endian 32-bit integer.
pub fn u32(data: &[u8], pos: &mut usize) -> (r: Result<u32, BinaryError>)
    requires
        *old(pos) <= data@.len(),
    ensures
        decoded_as(r, parse_u32(data@.skip(*old(pos) as int)), *old(pos), *final(pos)),
{
    let start = *pos;
    if data.len() - start < 4 {
        return Err(BinaryError::UnexpectedEndOfInput);
    }
    let bytes = slice_subrange(data, start, start + 4);
    assert(bytes@ =~= data@.skip(start as int).take(4));
    let v = u32_from_le_bytes(bytes);
    *pos = start + 4;
    Ok(v)
}

/// A little-endian 64-bit integer.
pub fn u64(data: &[u8], pos: &mut usize) -> (r: Result<u64, BinaryError>)
    requires
        *old(pos) <= data@.len(),
    ensures
        decoded_as(r, parse_u64(data@.skip(*old(pos) as int)), *old(pos), *final(pos)),
{
    let start = *pos;
    if data.len() - start < 8 {
        return Err(BinaryError::UnexpectedEndOfInput);
    }
    let bytes = slice_subrange(data, start, start + 8);
    assert(bytes@ =~= data@.skip(start as int).take(8));
    let v = u64_from_le_bytes(bytes);
    *pos = start + 8;
    Ok(v)
}

/// `len` bytes that must be UTF-8, with no length in front.
pub fn string_raw(data: &[u8], pos: &mut usize, len: u32) -> (r: Result<String, BinaryError>)
    requires
        *old(pos) <= data@.len(),
    ensures
        decoded_as(r, parse_string_raw(data@.skip(*old(pos) as int), len as nat), *old(pos), *final(pos)),
{
    let start = *pos;
    if ((data.len() - start) as u64) < len as u64 {
        return Err(BinaryError::UnexpectedEndOfInput);
    }
    let end = start + len as usize;
    let bytes = slice_to_vec(slice_subrange(data, start, end));
    assert(bytes@ =~= data@.skip(start as int).take(len as int));
    match utf8_string(bytes) {
        Some(s) => {
            *pos = end;
            Ok(s)
        },
        None => Err(BinaryError::InvalidEncoding),
    }
}

/// A 32-bit length followed by that many UTF-8 bytes.
pub fn string(data: &[u8], pos: &mut usize) -> (r: Result<String, BinaryError>)
    requires
        *old(pos) <= data@.len(),
    ensures
        decoded_as(r, parse_string(data@.skip(*old(pos) as int)), *old(pos), *final(pos)),
{
    let start = *pos;
    let len = u32(data, pos)?;
    assert(data@.skip(start as int).skip(4) =~= data@.skip(*pos as int));
    match string_raw(data, pos, len) {
        Ok(s) => Ok(s),
        Err(e) => {
            *pos = start;
            Err(e)
        },
    }
}

/// A 32-bit length followed by that many bytes.
pub fn array(data: &[u8], pos: &mut usize) -> (r: Result<Vec<u8>, BinaryError>)
    requires
        *old(pos) <= data@.len(),
    ensures
        decoded_as(r, parse_array(data@.skip(*old(pos) as int)), *old(pos), *final(pos)),
{
    let start = *pos;
    let len = u32(data, pos)?;
    assert(data@.skip(start as int).skip(4) =~= data@.skip(*pos as int));
    let mut buf = vec![0u8; len as usize];
    match exact(data, pos, buf.as_mut_slice()) {
        Ok(()) => Ok(buf),
        Err(e) => {
            *pos = start;
            Err(e)
        },
    }
}

} // verus!
