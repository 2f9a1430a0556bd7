//! The answer section: resource records, and the addresses in their RDATA.

use crate::error::DnsError;
use crate::header::{get_ancount, ANCOUNT_OFFSET, HEADER_LENGTH};
use crate::wire::{be16, get_u16};
use vstd::prelude::*;

verus! {

/// Distance from the start of a record to its RDLENGTH field: a two-byte
/// NAME, then TYPE, CLASS and TTL.
pub const RDLENGTH_OFFSET: usize = 10;

/// Distance from the start of a record to its RDATA.
pub const RDATA_OFFSET: usize = 12;

/// The two top bits of an octet, both set in a compression pointer.
pub const POINTER_MASK: u8 = 0xC0;

/// The RDLENGTH that the record at `index` announces.
pub open spec fn rdlength(buf: Seq<u8>, index: int) -> int {
    be16(buf, index + RDLENGTH_OFFSET)
}

/// The position right behind the record at `index`: its fixed part is 12
/// bytes long, and RDLENGTH bytes of RDATA follow.
pub open spec fn record_end(buf: Seq<u8>, index: int) -> int {
    index + RDATA_OFFSET + rdlength(buf, index)
}

/// The RDATA of the record at `index`.
pub open spec fn rdata(buf: Seq<u8>, index: int) -> Seq<u8> {
    buf.subrange(index + RDATA_OFFSET, record_end(buf, index))
}

/// What is wrong with the record at `index`, if anything: `OutOfBounds` when
/// the buffer ends before the record's RDLENGTH field does, `TruncatedRecord`
/// when it ends before the announced RDATA does.
pub open spec fn record_fault(buf: Seq<u8>, index: int) -> Option<DnsError> {
    if index < 0 || index + RDATA_OFFSET > buf.len() {
        Some(DnsError::OutOfBounds)
    } else if record_end(buf, index) > buf.len() {
        Some(DnsError::TruncatedRecord)
    } else {
        None
    }
}

/// The character for the digit `d`.
pub open spec fn digit(d: int) -> char {
    ('0' as u8 + d) as u8 as char
}

/// `value` written in decimal, without leading zeros.
pub open spec fn decimal(value: nat) -> Seq<char>
    decreases value,
{
    if value < 10 {
        seq![digit(value as int)]
    } else {
        decimal(value / 10).push(digit((value % 10) as int))
    }
}

/// The bytes written in decimal and joined by dots: `93.184.216.34` for the
/// four bytes of an address, the empty text for no bytes.
pub open spec fn dotted(bytes: Seq<u8>) -> Seq<char>
    decreases bytes.len(),
{
    if bytes.len() == 0 {
        Seq::empty()
    } else if bytes.len() == 1 {
        decimal(bytes[0] as nat)
    } else {
        dotted(bytes.drop_last()) + seq!['.'] + decimal(bytes.last() as nat)
    }
}

/// The texts of `count` records in a row, the first at `index` and each
/// further one right behind the one before it; or the fault of the first
/// record that cannot be read.
pub open spec fn walk_records(buf: Seq<u8>, index: int, count: nat) -> Result<
    Seq<Seq<char>>,
    DnsError,
>
    decreases count,
{
    if count == 0 {
        Ok(Seq::empty())
    } else {
        match record_fault(buf, index) {
            Some(e) => Err(e),
            None => match walk_records(buf, record_end(buf, index), (count - 1) as nat) {
                Ok(rest) => Ok(seq![dotted(rdata(buf, index))] + rest),
                Err(e) => Err(e),
            },
        }
    }
}

/// Puts `done` in front of what a walk over the remaining records gives.
pub open spec fn after(done: Seq<Seq<char>>, rest: Result<Seq<Seq<char>>, DnsError>) -> Result<
    Seq<Seq<char>>,
    DnsError,
> {
    match rest {
        Ok(texts) => Ok(done + texts),
        Err(e) => Err(e),
    }
}

/// The addresses that the answer section of `buf` holds when it starts at
/// `index`: one text for each of the ANCOUNT records that the header
/// announces.
pub open spec fn answers(buf: Seq<u8>, index: int) -> Result<Seq<Seq<char>>, DnsError> {
    if buf.len() < HEADER_LENGTH {
        Err(DnsError::OutOfBounds)
    } else {
        walk_records(buf, index, be16(buf, ANCOUNT_OFFSET as int) as nat)
    }
}

/// Appends one decimal digit to `text`.
fn push_digit(text: &mut String, d: u8)
    requires
        d < 10,
    ensures
        final(text)@ == old(text)@.push(digit(d as int)),
{
    proof {
        reveal_strlit("0");
        reveal_strlit("1");
        reveal_strlit("2");
        reveal_strlit("3");
        reveal_strlit("4");
        reveal_strlit("5");
        reveal_strlit("6");
        reveal_strlit("7");
        reveal_strlit("8");
        reveal_strlit("9");
    }
    let glyph: &str = match d {
        0 => "0",
        1 => "1",
        2 => "2",
        3 => "3",
        4 => "4",
        5 => "5",
        6 => "6",
        7 => "7",
        8 => "8",
        _ => "9",
    };
    text.append(glyph);
    assert(text@ =~= old(text)@.push(digit(d as int)));
}

/// Appends `value` in decimal to `text`.
fn push_decimal(text: &mut String, value: u8)
    ensures
        final(text)@ == old(text)@ + decimal(value as nat),
{
    let ghost v = value as nat;
    if value >= 100 {
        push_digit(text, value / 100);
    }
    if value >= 10 {
        push_digit(text, (value / 10) % 10);
    }
    push_digit(text, value % 10);
    proof {
        reveal_with_fuel(decimal, 3);
        assert(text@ =~= old(text)@ + decimal(v));
    }
}

/// Writes `bytes` in decimal, joined by dots.
pub fn dotted_decimal(bytes: &[u8]) -> (text: String)
    ensures
        text@ == dotted(bytes@),
{
    let mut text = String::new();
    let n: usize = bytes.len();
    let mut i: usize = 0;
    while i < n
        invariant
            n == bytes@.len(),
            i <= n,
            text@ == dotted(bytes@.take(i as int)),
        decreases n - i,
    {
        proof {
            reveal_strlit(".");
            assert(bytes@.take(i + 1).drop_last() =~= bytes@.take(i as int));
        }
        if i > 0 {
            text.append(".");
        }
        push_decimal(&mut text, bytes[i]);
        i += 1;
        assert(text@ =~= dotted(bytes@.take(i as int)));
    }
    assert(bytes@.take(n as int) =~= bytes@);
    text
}

/// Tells whether `octet` opens a compression pointer: its two top bits are
/// set.
pub fn is_pointer(octet: u8) -> (r: bool)
    ensures
        r == (octet & POINTER_MASK == POINTER_MASK),
        r == (octet >= 0xC0),
{
    assert((octet & 0xC0 == 0xC0) == (octet >= 0xC0)) by (bit_vector);
    octet & POINTER_MASK == POINTER_MASK
}

/// Reads the record at `index`: its RDATA as dotted decimal text, and the
/// position right behind the record.
///
/// The buffer must hold the twelve bytes up to the end of RDLENGTH, else the
/// record is `OutOfBounds`; it must hold the RDATA that RDLENGTH announces,
/// else the record is a `TruncatedRecord`. No byte outside `payload` is read.
pub fn get_ip(payload: &[u8], index: usize) -> (r: Result<(String, usize), DnsError>)
    ensures
        match r {
            Ok((text, next)) => record_fault(payload@, index as int) is None && text@ == dotted(
                rdata(payload@, index as int),
            ) && next == record_end(payload@, index as int),
            Err(e) => record_fault(payload@, index as int) == Some(e),
        },
{
    let total: usize = payload.len();
    if total < RDATA_OFFSET || index > total - RDATA_OFFSET {
        return Err(DnsError::OutOfBounds);
    }
    let r_data_length: usize = match get_u16(payload, index + RDLENGTH_OFFSET) {
        Ok(length) => length as usize,
        Err(e) => {
            return Err(e);
        },
    };
    let r_data_index: usize = index + RDATA_OFFSET;
    if r_data_length > total - r_data_index {
        return Err(DnsError::TruncatedRecord);
    }
    let new_index: usize = r_data_index + r_data_length;
    let answer = dotted_decimal(&payload[r_data_index..new_index]);
    Ok((answer, new_index))
}

/// Reads the addresses of the answer section that starts at `index`.
///
/// The header says how many records there are. Each is read in turn, the
/// next one right behind the one before it, and gives one text. The first
/// record that cannot be read ends the walk with its fault.
pub fn get_ips(payload: &[u8], index: usize) -> (r: Result<Vec<String>, DnsError>)
    ensures
        match r {
            Ok(ips) => answers(payload@, index as int) == Ok::<Seq<Seq<char>>, DnsError>(
                ips.deep_view(),
            ) && ips@.len() == be16(payload@, ANCOUNT_OFFSET as int),
            Err(e) => answers(payload@, index as int) == Err::<Seq<Seq<char>>, DnsError>(e),
        },
{
    let ancount: u16 = match get_ancount(payload) {
        Ok(count) => count,
        Err(e) => {
            return Err(e);
        },
    };
    let mut ips: Vec<String> = Vec::new();
    let mut cursor: usize = index;
    let mut i: u16 = 0;
    assert(ips.deep_view() =~= Seq::<Seq<char>>::empty());
    while i < ancount
        invariant
            i <= ancount,
            ips@.len() == i,
            ancount == be16(payload@, ANCOUNT_OFFSET as int),
            answers(payload@, index as int) == walk_records(
                payload@,
                index as int,
                ancount as nat,
            ),
            walk_records(payload@, index as int, ancount as nat) == after(
                ips.deep_view(),
                walk_records(payload@, cursor as int, (ancount - i) as nat),
            ),
        decreases ancount - i,
    {
        let ghost done = ips.deep_view();
        match get_ip(payload, cursor) {
            Ok((answer, new_index)) => {
                ips.push(answer);
                cursor = new_index;
            },
            Err(e) => {
                return Err(e);
            },
        }
        i += 1;
        proof {
            let text = ips@[ips@.len() - 1]@;
            assert(ips.deep_view() =~= done.push(text));
            let rest = walk_records(payload@, cursor as int, (ancount - i) as nat);
            if let Ok(texts) = rest {
                assert(done + (seq![text] + texts) =~= done.push(text) + texts);
            }
        }
    }
    proof {
        assert(ips.deep_view() + Seq::<Seq<char>>::empty() =~= ips.deep_view());
    }
    Ok(ips)
}

/// Where the record with the number `k` starts in a walk from `index`: the
/// first one at `index`, each further one right behind the one before it.
pub open spec fn record_start(buf: Seq<u8>, index: int, k: nat) -> int
    decreases k,
{
    if k == 0 {
        index
    } else {
        record_start(buf, record_end(buf, index), (k - 1) as nat)
    }
}

/// A walk over records that can all be read gives one text for each, in
/// their order: the RDATA of the record in dotted decimal.
pub proof fn lemma_walk_reads_all(buf: Seq<u8>, index: int, count: nat)
    requires
        forall|k: nat| k < count ==> record_fault(buf, #[trigger] record_start(buf, index, k)) is None,
    ensures
        walk_records(buf, index, count) == Ok::<Seq<Seq<char>>, DnsError>(
            Seq::new(count, |k: int| dotted(rdata(buf, record_start(buf, index, k as nat)))),
        ),
    decreases count,
{
    let texts = Seq::new(count, |k: int| dotted(rdata(buf, record_start(buf, index, k as nat))));
    if count == 0 {
        assert(texts =~= Seq::<Seq<char>>::empty());
    } else {
        let next = record_end(buf, index);
        let fewer = (count - 1) as nat;
        assert(record_start(buf, index, 0) == index);
        assert forall|k: nat| k < fewer implies record_fault(
            buf,
            #[trigger] record_start(buf, next, k),
        ) is None by {
            assert(record_start(buf, index, k + 1) == record_start(buf, next, k));
        }
        lemma_walk_reads_all(buf, next, fewer);
        let rest = Seq::new(fewer, |k: int| dotted(rdata(buf, record_start(buf, next, k as nat))));
        assert forall|k: int| 0 <= k < count implies texts[k] == (seq![dotted(rdata(buf, index))]
            + rest)[k] by {
            if k > 0 {
                assert(record_start(buf, index, k as nat) == record_start(
                    buf,
                    next,
                    (k - 1) as nat,
                ));
            }
        }
        assert(texts =~= seq![dotted(rdata(buf, index))] + rest);
    }
}

/// A walk ends with the fault of the first record that cannot be read.
pub proof fn lemma_walk_stops_at_fault(
    buf: Seq<u8>,
    index: int,
    count: nat,
    at: nat,
    fault: DnsError,
)
    requires
        at < count,
        forall|k: nat| k < at ==> record_fault(buf, #[trigger] record_start(buf, index, k)) is None,
        record_fault(buf, record_start(buf, index, at)) == Some(fault),
    ensures
        walk_records(buf, index, count) == Err::<Seq<Seq<char>>, DnsError>(fault),
    decreases at,
{
    if at > 0 {
        let next = record_end(buf, index);
        assert(record_start(buf, index, 0) == index);
        assert forall|k: nat| k < at - 1 implies record_fault(
            buf,
            #[trigger] record_start(buf, next, k),
        ) is None by {
            assert(record_start(buf, index, k + 1) == record_start(buf, next, k));
        }
        lemma_walk_stops_at_fault(buf, next, (count - 1) as nat, (at - 1) as nat, fault);
    }
}

/// A walk that comes to a record whose RDATA the buffer cuts short ends
/// with `TruncatedRecord`.
pub proof fn lemma_truncated_record(buf: Seq<u8>, index: int, count: nat, at: nat)
    requires
        at < count,
        forall|k: nat| k < at ==> record_fault(buf, #[trigger] record_start(buf, index, k)) is None,
        0 <= record_start(buf, index, at),
        record_start(buf, index, at) + RDATA_OFFSET <= buf.len(),
        buf.len() < record_end(buf, record_start(buf, index, at)),
    ensures
        walk_records(buf, index, count) == Err::<Seq<Seq<char>>, DnsError>(
            DnsError::TruncatedRecord,
        ),
{
    lemma_walk_stops_at_fault(buf, index, count, at, DnsError::TruncatedRecord);
}

} // verus!
