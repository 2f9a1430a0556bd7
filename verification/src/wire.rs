//! Reading and writing 16-bit fields in network byte order.

use crate::error::DnsError;
use vstd::prelude::*;

verus! {

/// The number held by the two bytes at `index` and `index + 1`, most
/// significant byte first.
pub open spec fn be16(buf: Seq<u8>, index: int) -> int {
    buf[index] * 256 + buf[index + 1]
}

/// The more significant byte of `value`.
pub open spec fn high_byte(value: u16) -> u8 {
    (value / 256) as u8
}

/// The less significant byte of `value`.
pub open spec fn low_byte(value: u16) -> u8 {
    (value % 256) as u8
}

/// `buf` with `value` stored at `index` and `index + 1`, most significant
/// byte first.
pub open spec fn put_be16(buf: Seq<u8>, index: int, value: u16) -> Seq<u8> {
    buf.update(index, high_byte(value)).update(index + 1, low_byte(value))
}

/// What reading a 16-bit field at `index` gives: the field's value, or
/// `OutOfBounds` when the two bytes do not both lie inside `buf`.
pub open spec fn read_be16(buf: Seq<u8>, index: int) -> Result<u16, DnsError> {
    if 0 <= index && index + 2 <= buf.len() {
        Ok(be16(buf, index) as u16)
    } else {
        Err(DnsError::OutOfBounds)
    }
}

/// A stored value is read back unchanged, and the bytes around it are left
/// alone.
pub proof fn lemma_put_then_read(buf: Seq<u8>, index: int, value: u16)
    requires
        0 <= index,
        index + 2 <= buf.len(),
    ensures
        put_be16(buf, index, value).len() == buf.len(),
        read_be16(put_be16(buf, index, value), index) == Ok::<u16, DnsError>(value),
        forall|i: int|
            0 <= i < buf.len() && i != index && i != index + 1 ==> put_be16(buf, index, value)[i]
                == buf[i],
{
}

/// Reads the big-endian 16-bit field that starts at `index`.
pub fn get_u16(payload: &[u8], index: usize) -> (r: Result<u16, DnsError>)
    ensures
        r == read_be16(payload@, index as int),
{
    if payload.len() < 2 || index > payload.len() - 2 {
        return Err(DnsError::OutOfBounds);
    }
    let high: u16 = payload[index] as u16;
    let low: u16 = payload[index + 1] as u16;
    Ok(high * 256 + low)
}

/// Writes `value` as a big-endian 16-bit field that starts at `index`.
pub fn set_u16(payload: &mut [u8], index: usize, value: u16)
    requires
        index + 2 <= old(payload)@.len(),
    ensures
        final(payload)@ == put_be16(old(payload)@, index as int, value),
{
    payload[index] = (value / 256) as u8;
    payload[index + 1] = (value % 256) as u8;
}

} // verus!
