//! The fixed header of a message: the identifier, two bytes of flags and
//! four counts, twelve bytes in all.

use crate::error::DnsError;
use crate::rcode::{code_from_number, ResponseCode};
use crate::wire::{be16, get_u16, put_be16, set_u16};
use vstd::prelude::*;

verus! {

/// Length of the header in bytes.
pub const HEADER_LENGTH: usize = 12;

/// Position of the identifier.
pub const ID_OFFSET: usize = 0;

/// Position of the first flags byte: QR, Opcode, AA, TC and RD.
pub const FLAGS_OFFSET: usize = 2;

/// Position of the second flags byte: RA, Z and RCODE.
pub const RCODE_OFFSET: usize = 3;

/// Position of the number of questions.
pub const QDCOUNT_OFFSET: usize = 4;

/// Position of the number of answer records.
pub const ANCOUNT_OFFSET: usize = 6;

/// Position of the number of authority records.
pub const NSCOUNT_OFFSET: usize = 8;

/// Position of the number of additional records.
pub const ARCOUNT_OFFSET: usize = 10;

/// The query/response bit: bit 7 of the first flags byte.
pub const QR_MASK: u8 = 0x80;

/// The recursion bit: bit 0 of the first flags byte.
pub const RD_MASK: u8 = 0x01;

/// The flag that tells of available recursion is read where the recursion
/// bit is: bit 0 of the first flags byte.
pub const RA_MASK: u8 = 0x01;

/// The response code: bits 0 to 3 of the second flags byte.
pub const RCODE_MASK: u8 = 0x0F;

/// Whether `byte` has a bit of `mask` set.
pub open spec fn has_bit(byte: u8, mask: u8) -> bool {
    byte & mask != 0
}

/// `byte` with the bits of `mask` set or cleared, and every other bit as it
/// was.
pub open spec fn with_bit(byte: u8, mask: u8, state: bool) -> u8 {
    if state {
        byte | mask
    } else {
        byte & !mask
    }
}

/// A 16-bit field of the header, or `OutOfBounds` when `buf` is too short to
/// hold a header.
pub open spec fn header_field(buf: Seq<u8>, offset: int) -> Result<u16, DnsError> {
    if buf.len() < HEADER_LENGTH {
        Err(DnsError::OutOfBounds)
    } else {
        Ok(be16(buf, offset) as u16)
    }
}

/// A flag of the header, or `OutOfBounds` when `buf` is too short to hold a
/// header.
pub open spec fn header_flag(buf: Seq<u8>, offset: int, mask: u8) -> Result<bool, DnsError> {
    if buf.len() < HEADER_LENGTH {
        Err(DnsError::OutOfBounds)
    } else {
        Ok(has_bit(buf[offset], mask))
    }
}

/// The response code of the header, or `OutOfBounds` when `buf` is too short
/// to hold a header.
pub open spec fn header_rcode(buf: Seq<u8>) -> Result<ResponseCode, DnsError> {
    if buf.len() < HEADER_LENGTH {
        Err(DnsError::OutOfBounds)
    } else {
        Ok(code_from_number(buf[RCODE_OFFSET as int] & RCODE_MASK))
    }
}

/// `buf` with the recursion bit set or cleared.
pub open spec fn with_rd(buf: Seq<u8>, state: bool) -> Seq<u8> {
    buf.update(FLAGS_OFFSET as int, with_bit(buf[FLAGS_OFFSET as int], RD_MASK, state))
}

/// Tests the bits of `mask` in `byte`.
pub fn test_bit(byte: u8, mask: u8) -> (set: bool)
    ensures
        set == has_bit(byte, mask),
{
    byte & mask != 0
}

/// Sets or clears the bits of `mask` in `byte`.
pub fn assign_bit(byte: u8, mask: u8, state: bool) -> (changed: u8)
    ensures
        changed == with_bit(byte, mask, state),
{
    if state {
        byte | mask
    } else {
        byte & !mask
    }
}

/// Reads the 16-bit field of the header at `offset`.
fn get_field(payload: &[u8], offset: usize) -> (r: Result<u16, DnsError>)
    requires
        offset + 2 <= HEADER_LENGTH,
    ensures
        r == header_field(payload@, offset as int),
{
    if payload.len() < HEADER_LENGTH {
        return Err(DnsError::OutOfBounds);
    }
    get_u16(payload, offset)
}

/// Reads the flag of the header that `mask` selects in the byte at `offset`.
fn get_flag(payload: &[u8], offset: usize, mask: u8) -> (r: Result<bool, DnsError>)
    requires
        offset < HEADER_LENGTH,
    ensures
        r == header_flag(payload@, offset as int, mask),
{
    if payload.len() < HEADER_LENGTH {
        return Err(DnsError::OutOfBounds);
    }
    Ok(test_bit(payload[offset], mask))
}

/// Writes the identifier of the message.
pub fn set_id(payload: &mut Vec<u8>, id: u16)
    requires
        old(payload)@.len() >= HEADER_LENGTH,
    ensures
        final(payload)@ == put_be16(old(payload)@, ID_OFFSET as int, id),
{
    set_u16(payload, ID_OFFSET, id);
}

/// Reads the identifier of the message.
pub fn get_id(payload: &[u8]) -> (r: Result<u16, DnsError>)
    ensures
        r == header_field(payload@, ID_OFFSET as int),
{
    get_field(payload, ID_OFFSET)
}

/// Tells whether the message is a response: the top bit of the first flags
/// byte.
pub fn get_qr(payload: &[u8]) -> (r: Result<bool, DnsError>)
    ensures
        r == header_flag(payload@, FLAGS_OFFSET as int, QR_MASK),
{
    get_flag(payload, FLAGS_OFFSET, QR_MASK)
}

/// Sets or clears the recursion bit, bit 0 of the first flags byte, and
/// leaves every other bit of the message as it was.
pub fn set_rd(payload: &mut Vec<u8>, state: bool)
    requires
        old(payload)@.len() >= HEADER_LENGTH,
    ensures
        final(payload)@ == with_rd(old(payload)@, state),
{
    let flags: u8 = payload[FLAGS_OFFSET];
    payload[FLAGS_OFFSET] = assign_bit(flags, RD_MASK, state);
}

/// Tells whether recursion is desired: bit 0 of the first flags byte, the
/// bit that `set_rd` writes.
pub fn get_rd(payload: &[u8]) -> (r: Result<bool, DnsError>)
    ensures
        r == header_flag(payload@, FLAGS_OFFSET as int, RD_MASK),
{
    get_flag(payload, FLAGS_OFFSET, RD_MASK)
}

/// Tells whether recursion is available. In a response this is read from
/// the same place as the recursion bit of the query: bit 0 of the first
/// flags byte.
pub fn get_ra(payload: &[u8]) -> (r: Result<bool, DnsError>)
    ensures
        r == header_flag(payload@, FLAGS_OFFSET as int, RA_MASK),
{
    get_flag(payload, FLAGS_OFFSET, RA_MASK)
}

/// Reads the response code: the low four bits of the second flags byte.
pub fn get_rcode(payload: &[u8]) -> (r: Result<ResponseCode, DnsError>)
    ensures
        r == header_rcode(payload@),
{
    if payload.len() < HEADER_LENGTH {
        return Err(DnsError::OutOfBounds);
    }
    let rc_value: u8 = payload[RCODE_OFFSET] & RCODE_MASK;
    Ok(ResponseCode::from(rc_value))
}

/// Writes the number of questions.
pub fn set_qdcount(payload: &mut [u8], count: u16)
    requires
        old(payload)@.len() >= HEADER_LENGTH,
    ensures
        final(payload)@ == put_be16(old(payload)@, QDCOUNT_OFFSET as int, count),
{
    set_u16(payload, QDCOUNT_OFFSET, count);
}

/// Reads the number of questions.
pub fn get_qdcount(payload: &[u8]) -> (r: Result<u16, DnsError>)
    ensures
        r == header_field(payload@, QDCOUNT_OFFSET as int),
{
    get_field(payload, QDCOUNT_OFFSET)
}

/// Reads the number of answer records.
pub fn get_ancount(payload: &[u8]) -> (r: Result<u16, DnsError>)
    ensures
        r == header_field(payload@, ANCOUNT_OFFSET as int),
{
    get_field(payload, ANCOUNT_OFFSET)
}

/// What the masks of the header select, in numbers: the query/response bit
/// is set in a byte of 128 or more, the recursion bit in an odd byte, and the
/// response code is the byte's remainder on division by 16.
pub proof fn lemma_masks_in_numbers(byte: u8)
    ensures
        has_bit(byte, QR_MASK) == (byte >= 128),
        has_bit(byte, RD_MASK) == (byte % 2 == 1),
        byte & RCODE_MASK == byte % 16,
{
    assert((byte & 0x80u8 != 0u8) == (byte >= 128u8)) by (bit_vector);
    assert((byte & 0x01u8 != 0u8) == (byte % 2u8 == 1u8)) by (bit_vector);
    assert(byte & 0x0Fu8 == byte % 16u8) by (bit_vector);
}

/// The recursion bit reads back as it was written, and writing it changes
/// nothing else: no other byte of the message, and no other bit of the
/// first flags byte.
pub proof fn lemma_rd_round_trip(buf: Seq<u8>, state: bool)
    requires
        buf.len() >= HEADER_LENGTH,
    ensures
        with_rd(buf, state).len() == buf.len(),
        header_flag(with_rd(buf, state), FLAGS_OFFSET as int, RD_MASK) == Ok::<bool, DnsError>(
            state,
        ),
        forall|i: int|
            0 <= i < buf.len() && i != FLAGS_OFFSET ==> with_rd(buf, state)[i] == buf[i],
        with_rd(buf, state)[FLAGS_OFFSET as int] & !RD_MASK == buf[FLAGS_OFFSET as int]
            & !RD_MASK,
{
    let flags = buf[FLAGS_OFFSET as int];
    assert((flags | 0x01u8) & 0x01u8 != 0u8) by (bit_vector);
    assert((flags & !0x01u8) & 0x01u8 == 0u8) by (bit_vector);
    assert((flags | 0x01u8) & !0x01u8 == flags & !0x01u8) by (bit_vector);
    assert((flags & !0x01u8) & !0x01u8 == flags & !0x01u8) by (bit_vector);
}

/// Setting the recursion bit and clearing it again gives the message with
/// the bit cleared: the other bits of the byte are as they were at first, and
/// a message in which the bit was clear comes back whole.
pub proof fn lemma_rd_set_then_clear(buf: Seq<u8>)
    requires
        buf.len() >= HEADER_LENGTH,
    ensures
        with_rd(with_rd(buf, true), false) == with_rd(buf, false),
        header_flag(buf, FLAGS_OFFSET as int, RD_MASK) == Ok::<bool, DnsError>(false) ==> with_rd(
            with_rd(buf, true),
            false,
        ) == buf,
{
    let flags = buf[FLAGS_OFFSET as int];
    assert((flags | 0x01u8) & !0x01u8 == flags & !0x01u8) by (bit_vector);
    assert(flags & 0x01u8 == 0u8 ==> flags & !0x01u8 == flags) by (bit_vector);
    assert(with_rd(with_rd(buf, true), false) =~= with_rd(buf, false));
    if header_flag(buf, FLAGS_OFFSET as int, RD_MASK) == Ok::<bool, DnsError>(false) {
        assert(with_rd(buf, false) =~= buf);
    }
}

} // verus!
