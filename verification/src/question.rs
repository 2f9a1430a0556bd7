//! The question section: a domain name as a sequence of length-prefixed
//! labels, closed by a zero octet and followed by QTYPE and QCLASS.

use crate::error::DnsError;
use crate::header::HEADER_LENGTH;
use crate::wire::set_u16;
use vstd::prelude::*;
use vstd::string::StringSliceAdditionalSpecFns;

verus! {

/// The byte that separates the labels of a written domain name.
pub const DOT: u8 = 0x2E;

/// The record type asked for: an IPv4 address.
pub const QTYPE_A: u16 = 1;

/// The class asked for: Internet.
pub const QCLASS_IN: u16 = 1;

/// Whether a label of `name` starts at `k`: at the very beginning, and right
/// after every dot.
pub open spec fn is_label_start(name: Seq<u8>, k: int) -> bool {
    0 <= k <= name.len() && (k == 0 || name[k - 1] == DOT)
}

/// The first position at or after `from` that holds a dot, or the length of
/// `name` when no dot follows.
pub open spec fn label_end(name: Seq<u8>, from: int) -> int
    decreases name.len() - from,
{
    if from < 0 || from >= name.len() || name[from] == DOT {
        from
    } else {
        label_end(name, from + 1)
    }
}

/// Number of bytes of the label that starts at `k`.
pub open spec fn label_len(name: Seq<u8>, k: int) -> int {
    label_end(name, k) - k
}

/// A name can be encoded when it is empty, or when each of its labels holds
/// at least one byte and at most 255.
pub open spec fn valid_name(name: Seq<u8>) -> bool {
    name.len() == 0 || forall|k: int| #[trigger]
        is_label_start(name, k) ==> 1 <= label_len(name, k) <= 255
}

/// The labels of `name` on the wire. The encoding is one byte longer than the
/// name: the length of the first label is put in front, and every dot gives
/// way to the length of the label behind it.
pub open spec fn encoded_labels(name: Seq<u8>) -> Seq<u8> {
    Seq::new(
        (name.len() + 1) as nat,
        |i: int|
            if is_label_start(name, i) {
                label_len(name, i) as u8
            } else {
                name[i - 1]
            },
    )
}

/// The whole question section for `name`: its labels, the terminating zero
/// octet, QTYPE 1 and QCLASS 1.
pub open spec fn question_section(name: Seq<u8>) -> Seq<u8> {
    encoded_labels(name) + seq![0u8, 0u8, 1u8, 0u8, 1u8]
}

/// `buf` with the question section for `name` written at the end of the
/// header; the bytes before and behind the section stay.
pub open spec fn with_question(buf: Seq<u8>, name: Seq<u8>) -> Seq<u8> {
    buf.subrange(0, HEADER_LENGTH as int) + question_section(name) + buf.subrange(
        HEADER_LENGTH + name.len() + 6,
        buf.len() as int,
    )
}

/// A stretch without dots that ends at a dot, or at the end of the name, is
/// one label.
pub proof fn lemma_label_end(name: Seq<u8>, from: int, end: int)
    requires
        0 <= from <= end <= name.len(),
        forall|j: int| from <= j < end ==> name[j] != DOT,
        end == name.len() || name[end] == DOT,
    ensures
        label_end(name, from) == end,
    decreases end - from,
{
    if from < end {
        lemma_label_end(name, from + 1, end);
    }
}

/// A label ends inside the name, at a dot or at the end of the name, and no
/// dot lies inside it.
pub proof fn lemma_label_end_is_a_boundary(name: Seq<u8>, from: int)
    requires
        0 <= from <= name.len(),
    ensures
        from <= label_end(name, from) <= name.len(),
        label_end(name, from) == name.len() || name[label_end(name, from)] == DOT,
        forall|j: int| from <= j < label_end(name, from) ==> name[j] != DOT,
    decreases name.len() - from,
{
    if from < name.len() && name[from] != DOT {
        lemma_label_end_is_a_boundary(name, from + 1);
    }
}

/// Decides whether `name` can be encoded.
pub fn is_valid_name(name: &[u8]) -> (ok: bool)
    ensures
        ok == valid_name(name@),
{
    let n: usize = name.len();
    if n == 0 {
        return true;
    }
    let mut start: usize = 0;
    let mut i: usize = 0;
    while i < n
        invariant
            n == name@.len(),
            n > 0,
            start <= i <= n,
            is_label_start(name@, start as int),
            forall|j: int| start <= j < i ==> name@[j] != DOT,
            forall|k: int|
                #[trigger] is_label_start(name@, k) && k < start ==> 1 <= label_len(name@, k)
                    <= 255,
        decreases n - i,
    {
        if name[i] == DOT {
            proof {
                lemma_label_end(name@, start as int, i as int);
            }
            let size: usize = i - start;
            if size == 0 || size > 255 {
                return false;
            }
            start = i + 1;
        }
        i += 1;
    }
    proof {
        lemma_label_end(name@, start as int, n as int);
    }
    let size: usize = n - start;
    1 <= size && size <= 255
}

/// Writes the question section for `question` into `payload`, right behind
/// the header.
///
/// The labels are written one after the other, each as a length octet and
/// its bytes, then the terminating zero octet, QTYPE 1 and QCLASS 1. A name
/// with an empty or oversized label is refused, and `payload` is then left as
/// it was.
pub fn parse_question(payload: &mut Vec<u8>, question: &str) -> (r: Result<(), DnsError>)
    requires
        old(payload)@.len() >= HEADER_LENGTH + question.spec_bytes().len() + 6,
    ensures
        match r {
            Ok(_) => valid_name(question.spec_bytes()) && final(payload)@ == with_question(
                old(payload)@,
                question.spec_bytes(),
            ),
            Err(e) => e == DnsError::InvalidName && !valid_name(question.spec_bytes())
                && final(payload)@ == old(payload)@,
        },
{
    let name: &[u8] = question.as_bytes();
    if !is_valid_name(name) {
        return Err(DnsError::InvalidName);
    }
    let n: usize = name.len();
    let total: usize = payload.len();
    let ghost before = payload@;
    let mut start: usize = 0;
    let mut i: usize = 0;
    while i < n
        invariant
            n == name@.len(),
            valid_name(name@),
            payload@.len() == total == before.len(),
            total >= HEADER_LENGTH + n + 6,
            start <= i <= n,
            is_label_start(name@, start as int),
            forall|j: int| start <= j < i ==> name@[j] != DOT,
            forall|k: int| 0 <= k < HEADER_LENGTH ==> payload@[k] == before[k],
            forall|k: int| HEADER_LENGTH + n + 6 <= k < total ==> payload@[k] == before[k],
            forall|k: int|
                0 <= k <= i && k != start ==> payload@[HEADER_LENGTH + k] == encoded_labels(
                    name@,
                )[k],
        decreases n - i,
    {
        let byte: u8 = name[i];
        if byte == DOT {
            proof {
                lemma_label_end(name@, start as int, i as int);
            }
            payload[HEADER_LENGTH + start] = (i - start) as u8;
            start = i + 1;
        } else {
            payload[HEADER_LENGTH + i + 1] = byte;
        }
        i += 1;
    }
    proof {
        lemma_label_end(name@, start as int, n as int);
    }
    payload[HEADER_LENGTH + start] = (n - start) as u8;
    payload[HEADER_LENGTH + n + 1] = 0;
    set_u16(payload, HEADER_LENGTH + n + 2, QTYPE_A);
    set_u16(payload, HEADER_LENGTH + n + 4, QCLASS_IN);
    assert(payload@ =~= with_question(before, name@));
    Ok(())
}

/// Where a walk over length octets that starts at `pos` meets the zero octet:
/// a non-zero octet is the length of a label, and the walk goes on right
/// behind that label. `None` when the buffer ends first.
pub open spec fn terminator_from(buf: Seq<u8>, pos: int) -> Option<int>
    decreases buf.len() - pos,
{
    if pos < 0 || pos >= buf.len() {
        None
    } else if buf[pos] == 0 {
        Some(pos)
    } else if pos + buf[pos] + 1 >= buf.len() {
        None
    } else {
        terminator_from(buf, pos + buf[pos] + 1)
    }
}

/// Number of bytes of the question section of `buf`: the labels, the
/// terminating zero octet, and the four bytes of QTYPE and QCLASS. `None`
/// when the labels are not terminated inside `buf`.
pub open spec fn question_span(buf: Seq<u8>) -> Option<int> {
    match terminator_from(buf, HEADER_LENGTH as int) {
        Some(t) => Some(t - HEADER_LENGTH + 5),
        None => None,
    }
}

/// Measures the question section of `payload`.
///
/// The labels are walked from the end of the header to their terminating
/// zero octet, and no byte outside `payload` is read. The result counts the
/// labels, the terminator, QTYPE and QCLASS, so the answer section starts
/// that many bytes behind the header.
pub fn question_length(payload: &[u8]) -> (r: Result<usize, DnsError>)
    ensures
        match r {
            Ok(n) => question_span(payload@) == Some(n as int),
            Err(e) => e == DnsError::MalformedQuestion && question_span(payload@) is None,
        },
{
    let total: usize = payload.len();
    let mut pos: usize = HEADER_LENGTH;
    while pos < total && payload[pos] != 0
        invariant
            total == payload@.len(),
            HEADER_LENGTH <= pos,
            terminator_from(payload@, pos as int) == terminator_from(
                payload@,
                HEADER_LENGTH as int,
            ),
        decreases total - pos,
    {
        let step: usize = payload[pos] as usize + 1;
        if step >= total - pos {
            return Err(DnsError::MalformedQuestion);
        }
        pos += step;
    }
    if pos >= total {
        return Err(DnsError::MalformedQuestion);
    }
    Ok(pos - HEADER_LENGTH + 5)
}

} // verus!
