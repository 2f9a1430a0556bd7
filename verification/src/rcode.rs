//! The response code of a message: the low four bits of its second flags
//! byte.

use vstd::prelude::*;
use vstd::std_specs::convert::FromSpecImpl;

verus! {

/// What the server says of the query.
#[derive(Debug, Clone, Copy, PartialEq, Eq, Structural)]
pub enum ResponseCode {
    /// No error condition.
    NoError,
    /// The server could not interpret the query.
    FormatError,
    /// The server could not process the query.
    ServerFailure,
    /// The domain name does not exist.
    NameError,
    /// The server does not support this kind of query.
    NotImplemented,
    /// The server refuses to answer.
    Refused,
    /// Any code that has no meaning assigned.
    NA,
}

/// The number that stands for `code` on the wire. The catch-all variant is
/// given the first number that has no meaning assigned.
pub open spec fn code_number(code: ResponseCode) -> u8 {
    match code {
        ResponseCode::NoError => 0,
        ResponseCode::FormatError => 1,
        ResponseCode::ServerFailure => 2,
        ResponseCode::NameError => 3,
        ResponseCode::NotImplemented => 4,
        ResponseCode::Refused => 5,
        ResponseCode::NA => 6,
    }
}

/// The response code that `number` stands for: the numbers 0 to 5 have a
/// variant each, and every other number is the catch-all variant.
pub open spec fn code_from_number(number: u8) -> ResponseCode {
    if number == 0 {
        ResponseCode::NoError
    } else if number == 1 {
        ResponseCode::FormatError
    } else if number == 2 {
        ResponseCode::ServerFailure
    } else if number == 3 {
        ResponseCode::NameError
    } else if number == 4 {
        ResponseCode::NotImplemented
    } else if number == 5 {
        ResponseCode::Refused
    } else {
        ResponseCode::NA
    }
}

impl From<ResponseCode> for u8 {
    fn from(val: ResponseCode) -> (number: u8) {
        match val {
            ResponseCode::NoError => 0,
            ResponseCode::FormatError => 1,
            ResponseCode::ServerFailure => 2,
            ResponseCode::NameError => 3,
            ResponseCode::NotImplemented => 4,
            ResponseCode::Refused => 5,
            ResponseCode::NA => 6,
        }
    }
}

impl FromSpecImpl<ResponseCode> for u8 {
    open spec fn obeys_from_spec() -> bool {
        true
    }

    open spec fn from_spec(val: ResponseCode) -> u8 {
        code_number(val)
    }
}

impl From<u8> for ResponseCode {
    fn from(val: u8) -> (code: ResponseCode) {
        match val {
            0 => ResponseCode::NoError,
            1 => ResponseCode::FormatError,
            2 => ResponseCode::ServerFailure,
            3 => ResponseCode::NameError,
            4 => ResponseCode::NotImplemented,
            5 => ResponseCode::Refused,
            _ => ResponseCode::NA,
        }
    }
}

impl FromSpecImpl<u8> for ResponseCode {
    open spec fn obeys_from_spec() -> bool {
        true
    }

    open spec fn from_spec(val: u8) -> ResponseCode {
        code_from_number(val)
    }
}

/// A number from 0 to 5 comes back from its response code unchanged, and
/// every other number gives the catch-all variant.
pub proof fn lemma_number_round_trip(number: u8)
    ensures
        number <= 5 ==> code_number(code_from_number(number)) == number,
        number > 5 ==> code_from_number(number) == ResponseCode::NA,
{
}

/// Every response code comes back from its number unchanged.
pub proof fn lemma_code_round_trip(code: ResponseCode)
    ensures
        code_from_number(code_number(code)) == code,
        code_number(code) <= 6,
{
}

} // verus!
