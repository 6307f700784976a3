//! Fixed-width integers as they stand on the wire, and the byte-order
//! routines of the `byteorder` crate that decode them.
use byteorder::{BigEndian, ByteOrder as _, LittleEndian, NativeEndian};
use vstd::prelude::*;

verus! {

/// Big-endian `u16` stored at `s[i..i + 2]`.
pub open spec fn be16(s: Seq<u8>, i: int) -> u16 {
    ((s[i] as u16) << 8u16) | (s[i + 1] as u16)
}

/// Little-endian `u16` stored at `s[i..i + 2]`.
pub open spec fn le16(s: Seq<u8>, i: int) -> u16 {
    ((s[i + 1] as u16) << 8u16) | (s[i] as u16)
}

/// Big-endian `u32` stored at `s[i..i + 4]`.
pub open spec fn be32(s: Seq<u8>, i: int) -> u32 {
    ((s[i] as u32) << 24u32) | ((s[i + 1] as u32) << 16u32) | ((s[i + 2] as u32) << 8u32) | (
    s[i + 3] as u32)
}

/// Little-endian `u32` stored at `s[i..i + 4]`.
pub open spec fn le32(s: Seq<u8>, i: int) -> u32 {
    ((s[i + 3] as u32) << 24u32) | ((s[i + 2] as u32) << 16u32) | ((s[i + 1] as u32) << 8u32) | (
    s[i] as u32)
}

/// Big-endian `u64` stored at `s[i..i + 8]`.
pub open spec fn be64(s: Seq<u8>, i: int) -> u64 {
    ((be32(s, i) as u64) << 32u64) | (be32(s, i + 4) as u64)
}

/// Little-endian `u64` stored at `s[i..i + 8]`.
pub open spec fn le64(s: Seq<u8>, i: int) -> u64 {
    ((le32(s, i + 4) as u64) << 32u64) | (le32(s, i) as u64)
}

/// Relies on `BigEndian::read_u16` of byteorder: the first two bytes, most
/// significant first.
#[verifier::external_body]
pub(crate) fn read_be_u16(b: &[u8]) -> (r: u16)
    requires
        b@.len() >= 2,
    ensures
        r == be16(b@, 0),
{
    BigEndian::read_u16(b)
}

/// Relies on `BigEndian::read_u32` of byteorder: the first four bytes, most
/// significant first.
#[verifier::external_body]
pub(crate) fn read_be_u32(b: &[u8]) -> (r: u32)
    requires
        b@.len() >= 4,
    ensures
        r == be32(b@, 0),
{
    BigEndian::read_u32(b)
}

/// Relies on `BigEndian::read_u64` of byteorder: the first eight bytes, most
/// significant first.
#[verifier::external_body]
pub(crate) fn read_be_u64(b: &[u8]) -> (r: u64)
    requires
        b@.len() >= 8,
    ensures
        r == be64(b@, 0),
{
    BigEndian::read_u64(b)
}

/// Relies on `LittleEndian::read_u32` of byteorder: the first four bytes,
/// least significant first.
#[verifier::external_body]
pub(crate) fn read_le_u32(b: &[u8]) -> (r: u32)
    requires
        b@.len() >= 4,
    ensures
        r == le32(b@, 0),
{
    LittleEndian::read_u32(b)
}

/// Relies on `LittleEndian::read_u64` of byteorder: the first eight bytes,
/// least significant first.
#[verifier::external_body]
pub(crate) fn read_le_u64(b: &[u8]) -> (r: u64)
    requires
        b@.len() >= 8,
    ensures
        r == le64(b@, 0),
{
    LittleEndian::read_u64(b)
}

/// Relies on `NativeEndian::read_u16` of byteorder, which is the little- or
/// the big-endian reading, as the target machine stores integers.
#[verifier::external_body]
fn read_native_u16(b: &[u8]) -> (r: u16)
    requires
        b@.len() >= 2,
    ensures
        r == le16(b@, 0) || r == be16(b@, 0),
{
    NativeEndian::read_u16(b)
}

/// Whether the machine stores integers least significant byte first.
pub(crate) fn native_is_little_endian() -> bool {
    let probe: [u8; 2] = [1u8, 0u8];
    read_native_u16(&probe) == 1
}

/// The characters that the bytes `b` stand for in UTF-8, or `None` where
/// they are no valid UTF-8.
pub uninterp spec fn utf8_decoded(b: Seq<u8>) -> Option<Seq<char>>;

/// Relies on `String::from_utf8`: the string of the bytes where they are
/// valid UTF-8, an error where they are not.
#[verifier::external_body]
pub(crate) fn utf8_string(b: Vec<u8>) -> (r: Option<String>)
    ensures
        match r {
            Some(t) => utf8_decoded(b@) == Some(t@),
            None => utf8_decoded(b@) is None,
        },
{
    String::from_utf8(b).ok()
}

} // verus!
