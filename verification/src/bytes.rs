//! Fixed-width little-endian integers and length-prefixed text.

use vstd::prelude::*;
use vstd::slice::slice_to_vec;
use vstd::utf8::{decode_utf8, valid_utf8};

use crate::error::Error;
use crate::reader::{reads, spec_take, Reader};
use crate::text::{lemma_trim_end, string_from_utf8_lossy, trim_end, trim_end_nuls, utf8_lossy};

verus! {

/// The unsigned number that four bytes spell, least significant byte first.
pub open spec fn spec_u32_le(b: Seq<u8>) -> u32
    recommends
        b.len() == 4,
{
    (b[0] as int + b[1] as int * 0x100 + b[2] as int * 0x1_0000 + b[3] as int * 0x100_0000) as u32
}

/// The signed number that four bytes spell in two's complement, least
/// significant byte first.
pub open spec fn spec_i32_le(b: Seq<u8>) -> i32
    recommends
        b.len() == 4,
{
    let u = spec_u32_le(b) as int;
    if u < 0x8000_0000 {
        u as i32
    } else {
        (u - 0x1_0000_0000) as i32
    }
}

/// The unsigned number that eight bytes spell, least significant byte first.
pub open spec fn spec_u64_le(b: Seq<u8>) -> u64
    recommends
        b.len() == 8,
{
    (spec_u32_le(b.subrange(0, 4)) as int + spec_u32_le(b.subrange(4, 8)) as int
        * 0x1_0000_0000) as u64
}

/// The signed number that eight bytes spell in two's complement, least
/// significant byte first.
pub open spec fn spec_i64_le(b: Seq<u8>) -> i64
    recommends
        b.len() == 8,
{
    let u = spec_u64_le(b) as int;
    if u < 0x8000_0000_0000_0000 {
        u as i64
    } else {
        (u - 0x1_0000_0000_0000_0000) as i64
    }
}

/// What reading an unsigned 32-bit integer at `pos` gives.
pub open spec fn spec_read_u32_le(data: Seq<u8>, pos: int) -> Result<(u32, int), Error> {
    match spec_take(data, pos, 4) {
        Ok((b, next)) => Ok((spec_u32_le(b), next)),
        Err(e) => Err(e),
    }
}

/// What reading a signed 32-bit integer at `pos` gives.
pub open spec fn spec_read_i32_le(data: Seq<u8>, pos: int) -> Result<(i32, int), Error> {
    match spec_take(data, pos, 4) {
        Ok((b, next)) => Ok((spec_i32_le(b), next)),
        Err(e) => Err(e),
    }
}

/// What reading an unsigned 64-bit integer at `pos` gives.
pub open spec fn spec_read_u64_le(data: Seq<u8>, pos: int) -> Result<(u64, int), Error> {
    match spec_take(data, pos, 8) {
        Ok((b, next)) => Ok((spec_u64_le(b), next)),
        Err(e) => Err(e),
    }
}

/// What reading a signed 64-bit integer at `pos` gives.
pub open spec fn spec_read_i64_le(data: Seq<u8>, pos: int) -> Result<(i64, int), Error> {
    match spec_take(data, pos, 8) {
        Ok((b, next)) => Ok((spec_i64_le(b), next)),
        Err(e) => Err(e),
    }
}

/// Reads the next `BYTES` bytes into an array.
pub fn read_bytes<const BYTES: usize>(reader: &mut Reader) -> (res: Result<[u8; BYTES], Error>)
    ensures
        final(reader).data@ == old(reader).data@,
        reads(
            res,
            final(reader).pos,
            spec_take(old(reader).data@, old(reader).pos as int, BYTES as int),
        ),
{
    let bytes = reader.take(BYTES as u64)?;
    let mut buf = [0u8;BYTES];
    let mut i: usize = 0;
    while i < BYTES
        invariant
            i <= BYTES,
            bytes@.len() == BYTES,
            forall|j: int| 0 <= j < i ==> buf@[j] == bytes@[j],
        decreases BYTES - i,
    {
        buf[i] = bytes[i];
        i = i + 1;
    }
    assert(buf@ =~= bytes@);
    Ok(buf)
}

/// Reads a little-endian unsigned 32-bit integer.
pub fn read_u32_le(reader: &mut Reader) -> (res: Result<u32, Error>)
    ensures
        final(reader).data@ == old(reader).data@,
        reads(res, final(reader).pos, spec_read_u32_le(old(reader).data@, old(reader).pos as int)),
{
    let buf = read_bytes::<4>(reader)?;
    Ok(u32_from_le(&buf))
}

/// Reads a little-endian signed 32-bit integer.
pub fn read_i32_le(reader: &mut Reader) -> (res: Result<i32, Error>)
    ensures
        final(reader).data@ == old(reader).data@,
        reads(res, final(reader).pos, spec_read_i32_le(old(reader).data@, old(reader).pos as int)),
{
    let buf = read_bytes::<4>(reader)?;
    let u = u32_from_le(&buf);
    if u < 0x8000_0000 {
        Ok(u as i32)
    } else {
        Ok((u - 0x8000_0000) as i32 + i32::MIN)
    }
}

/// Reads a little-endian unsigned 64-bit integer.
pub fn read_u64_le(reader: &mut Reader) -> (res: Result<u64, Error>)
    ensures
        final(reader).data@ == old(reader).data@,
        reads(res, final(reader).pos, spec_read_u64_le(old(reader).data@, old(reader).pos as int)),
{
    let buf = read_bytes::<8>(reader)?;
    Ok(u64_from_le(&buf))
}

/// Reads a little-endian signed 64-bit integer.
pub fn read_i64_le(reader: &mut Reader) -> (res: Result<i64, Error>)
    ensures
        final(reader).data@ == old(reader).data@,
        reads(res, final(reader).pos, spec_read_i64_le(old(reader).data@, old(reader).pos as int)),
{
    let buf = read_bytes::<8>(reader)?;
    let u = u64_from_le(&buf);
    if u < 0x8000_0000_0000_0000 {
        Ok(u as i64)
    } else {
        Ok((u - 0x8000_0000_0000_0000) as i64 + i64::MIN)
    }
}

fn u32_from_le(buf: &[u8; 4]) -> (v: u32)
    ensures
        v == spec_u32_le(buf@),
{
    buf[0] as u32 + buf[1] as u32 * 0x100 + buf[2] as u32 * 0x1_0000 + buf[3] as u32 * 0x100_0000
}

fn u64_from_le(buf: &[u8; 8]) -> (v: u64)
    ensures
        v == spec_u64_le(buf@),
{
    let lo: u64 = buf[0] as u64 + buf[1] as u64 * 0x100 + buf[2] as u64 * 0x1_0000 + buf[3] as u64
        * 0x100_0000;
    let hi: u64 = buf[4] as u64 + buf[5] as u64 * 0x100 + buf[6] as u64 * 0x1_0000 + buf[7] as u64
        * 0x100_0000;
    lo + hi * 0x1_0000_0000
}

/// What reading a length-prefixed string at `pos` gives. A positive length
/// counts bytes of strict UTF-8; a negative length `-n` stands for `2 * n`
/// bytes that are decoded leniently; NULs at the end are dropped.
#[verifier::opaque]
pub open spec fn spec_read_string(data: Seq<u8>, pos: int) -> Result<(Seq<char>, int), Error> {
    match spec_read_i32_le(data, pos) {
        Err(e) => Err(e),
        Ok((len, start)) => if len > 0 {
            match spec_take(data, start, len as int) {
                Err(e) => Err(e),
                Ok((b, next)) => if valid_utf8(b) {
                    Ok((trim_end(decode_utf8(b), '\0'), next))
                } else {
                    Err(Error::StringParsingFailed)
                },
            }
        } else if len < 0 {
            match spec_take(data, start, -2 * len) {
                Err(e) => Err(e),
                Ok((b, next)) => Ok((trim_end(utf8_lossy(b), '\0'), next)),
            }
        } else {
            Ok((Seq::empty(), start))
        },
    }
}

/// A string whose length prefix is 0 is empty, and ends with its prefix.
pub proof fn lemma_zero_length_string_is_empty(data: Seq<u8>, pos: int, next: int)
    requires
        spec_read_i32_le(data, pos) == Ok::<(i32, int), Error>((0i32, next)),
    ensures
        spec_read_string(data, pos) == Ok::<(Seq<char>, int), Error>((Seq::empty(), next)),
{
    reveal(spec_read_string);
}

/// A string whose length prefix is negative is read whatever its bytes
/// hold, where the bytes are there: twice as many as the prefix says.
pub proof fn lemma_lenient_string_is_read(data: Seq<u8>, pos: int, len: i32, start: int)
    requires
        spec_read_i32_le(data, pos) == Ok::<(i32, int), Error>((len, start)),
        len < 0,
        start + 2 * -len <= data.len(),
    ensures
        spec_read_string(data, pos) == Ok::<(Seq<char>, int), Error>(
            (
                trim_end(utf8_lossy(data.subrange(start, start + 2 * -len)), '\0'),
                start + 2 * -len,
            ),
        ),
{
    reveal(spec_read_string);
}

/// No string that is read ends with a NUL.
pub proof fn lemma_string_has_no_trailing_nul(data: Seq<u8>, pos: int)
    ensures
        spec_read_string(data, pos) matches Ok((text, _)) ==> text.len() == 0 || text.last()
            != '\0',
{
    reveal(spec_read_string);
    if let Ok((text, _)) = spec_read_string(data, pos) {
        let (len, start) = spec_read_i32_le(data, pos)->Ok_0;
        if len > 0 {
            lemma_trim_end(decode_utf8(spec_take(data, start, len as int)->Ok_0.0), '\0');
        } else if len < 0 {
            lemma_trim_end(utf8_lossy(spec_take(data, start, -2 * len)->Ok_0.0), '\0');
        }
    }
}

/// Reads a length-prefixed string.
pub fn read_string(reader: &mut Reader) -> (res: Result<String, Error>)
    ensures
        final(reader).data@ == old(reader).data@,
        reads(res, final(reader).pos, spec_read_string(old(reader).data@, old(reader).pos as int)),
{
    proof {
        reveal(spec_read_string);
    }
    let len = read_i32_le(reader)?;
    let string = if len > 0 {
        let bytes = reader.take(len as u64)?;
        match String::from_utf8(slice_to_vec(bytes)) {
            Ok(s) => s,
            Err(_) => {
                return Err(Error::StringParsingFailed);
            },
        }
    } else if len < 0 {
        let count: u64 = (-(len as i64)) as u64 * 2;
        let bytes = reader.take(count)?;
        string_from_utf8_lossy(bytes)
    } else {
        String::new()
    };
    Ok(trim_end_nuls(string.as_str()).to_owned())
}

} // verus!
