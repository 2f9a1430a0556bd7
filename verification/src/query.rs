//! A standard query: a header with the recursion bit set and one question,
//! and the question section for the name.

use crate::error::DnsError;
use crate::header::{
    header_field, header_flag, set_id, set_qdcount, set_rd, FLAGS_OFFSET, HEADER_LENGTH,
    ID_OFFSET, QDCOUNT_OFFSET, RD_MASK,
};
use crate::question::{
    encoded_labels, is_label_start, label_end, label_len, lemma_label_end_is_a_boundary,
    parse_question, question_section, question_span, terminator_from, valid_name,
};
use crate::wire::{high_byte, low_byte};
use vstd::prelude::*;
use vstd::string::StringSliceAdditionalSpecFns;

verus! {

/// The header of a query with the identifier `id`: QR 0 and OPCODE 0 for a
/// standard query, the recursion bit set, one question and no records.
pub open spec fn query_header(id: u16) -> Seq<u8> {
    seq![high_byte(id), low_byte(id), 1u8, 0u8, 0u8, 1u8, 0u8, 0u8, 0u8, 0u8, 0u8, 0u8]
}

/// The query for `name` with the identifier `id`: the header, then the
/// question section. It is 18 bytes longer than the name.
pub open spec fn query_message(id: u16, name: Seq<u8>) -> Seq<u8> {
    query_header(id) + question_section(name)
}

/// Composes a standard query for the address of `domain_name`.
///
/// The identifier is set to `id`, the recursion bit and the number of
/// questions to 1. The name is encoded as a sequence of labels; QTYPE and
/// QCLASS are both 1. A name with an empty label or with one of more than
/// 255 bytes is refused; the empty name is accepted and gives a single
/// label of no bytes.
pub fn compose(id: u16, domain_name: &str) -> (r: Result<Vec<u8>, DnsError>)
    requires
        domain_name.spec_bytes().len() + 18 <= usize::MAX,
    ensures
        match r {
            Ok(payload) => valid_name(domain_name.spec_bytes()) && payload@ == query_message(
                id,
                domain_name.spec_bytes(),
            ),
            Err(e) => e == DnsError::InvalidName && !valid_name(domain_name.spec_bytes()),
        },
{
    let length: usize = domain_name.len() + 18;
    let mut payload: Vec<u8> = vec![0u8; length];
    set_id(&mut payload, id);
    set_rd(&mut payload, true);
    set_qdcount(&mut payload, 1);
    match parse_question(&mut payload, domain_name) {
        Ok(_) => {
            proof {
                assert(0u8 | 1u8 == 1u8) by (bit_vector);
                assert(payload@ =~= query_message(id, domain_name.spec_bytes()));
            }
            Ok(payload)
        },
        Err(e) => Err(e),
    }
}

/// In a buffer that holds the question section of a name without empty
/// labels, the walk from the length octet of any label ends at the
/// terminator of the section.
proof fn lemma_walk_reaches_terminator(buf: Seq<u8>, name: Seq<u8>, k: int)
    requires
        name.len() > 0,
        valid_name(name),
        is_label_start(name, k),
        buf.len() >= HEADER_LENGTH + name.len() + 6,
        buf.subrange(HEADER_LENGTH as int, HEADER_LENGTH + name.len() + 6) == question_section(
            name,
        ),
    ensures
        terminator_from(buf, HEADER_LENGTH + k) == Some(HEADER_LENGTH + name.len() + 1),
    decreases name.len() - k,
{
    let n = name.len() as int;
    let section = buf.subrange(HEADER_LENGTH as int, HEADER_LENGTH + n + 6);
    let end = label_end(name, k);
    lemma_label_end_is_a_boundary(name, k);
    assert(1 <= label_len(name, k) <= 255);
    assert(buf[HEADER_LENGTH + k] == section[k]);
    assert(section[k] == encoded_labels(name)[k]);
    assert(buf[HEADER_LENGTH + k] == label_len(name, k));
    if end == n {
        assert(buf[HEADER_LENGTH + n + 1] == section[n + 1]);
    } else {
        assert(is_label_start(name, end + 1));
        lemma_walk_reaches_terminator(buf, name, end + 1);
    }
}

/// The question section of a name that is not empty and has no empty label
/// is measured as six bytes more than the name, in any buffer that holds it
/// behind the header.
pub proof fn lemma_question_length(buf: Seq<u8>, name: Seq<u8>)
    requires
        name.len() > 0,
        valid_name(name),
        buf.len() >= HEADER_LENGTH + name.len() + 6,
        buf.subrange(HEADER_LENGTH as int, HEADER_LENGTH + name.len() + 6) == question_section(
            name,
        ),
    ensures
        question_span(buf) == Some(name.len() as int + 6),
{
    lemma_walk_reaches_terminator(buf, name, 0);
}

/// A query carries its identifier, has the recursion bit set and announces
/// one question, whatever the name.
pub proof fn lemma_query_header(id: u16, name: Seq<u8>)
    ensures
        query_message(id, name).len() == name.len() + 18,
        header_field(query_message(id, name), ID_OFFSET as int) == Ok::<u16, DnsError>(id),
        header_field(query_message(id, name), QDCOUNT_OFFSET as int) == Ok::<u16, DnsError>(1),
        header_flag(query_message(id, name), FLAGS_OFFSET as int, RD_MASK) == Ok::<
            bool,
            DnsError,
        >(true),
{
    assert(1u8 & 1u8 != 0u8) by (bit_vector);
}

/// The question section of a query for a name that is not empty and has no
/// empty label is measured as six bytes more than the name.
pub proof fn lemma_query_question_length(id: u16, name: Seq<u8>)
    requires
        name.len() > 0,
        valid_name(name),
    ensures
        question_span(query_message(id, name)) == Some(name.len() as int + 6),
{
    let message = query_message(id, name);
    assert(message.subrange(HEADER_LENGTH as int, HEADER_LENGTH + name.len() + 6)
        =~= question_section(name));
    lemma_question_length(message, name);
}

} // verus!
