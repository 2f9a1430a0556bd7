use vstd::prelude::*;

verus! {

/// Why a message could not be encoded or decoded.
#[derive(Debug, Clone, Copy, PartialEq, Eq, Structural)]
pub enum DnsError {
    /// A label of the domain name is empty or longer than 255 bytes.
    InvalidName,
    /// The buffer is shorter than a field that was to be read.
    OutOfBounds,
    /// The label sequence of the question has no terminating zero octet.
    MalformedQuestion,
    /// A record announces more RDATA than the buffer holds.
    TruncatedRecord,
}

} // verus!
