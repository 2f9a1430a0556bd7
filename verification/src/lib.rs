//! A small codec for DNS messages in the RFC 1035 wire format.
//!
//! The crate builds a standard query for a domain name and decodes the
//! header fields, the response code and the IPv4 addresses of a response.

pub mod answer;
pub mod error;
pub mod header;
pub mod query;
pub mod question;
pub mod rcode;
pub mod wire;

pub use answer::{dotted_decimal, get_ip, get_ips, is_pointer};
pub use error::DnsError;
pub use header::{
    assign_bit, get_ancount, get_id, get_qdcount, get_qr, get_ra, get_rcode, get_rd, set_id,
    set_qdcount, set_rd, test_bit, HEADER_LENGTH,
};
pub use query::compose;
pub use question::{is_valid_name, parse_question, question_length};
pub use rcode::ResponseCode;
pub use wire::{get_u16, set_u16};
