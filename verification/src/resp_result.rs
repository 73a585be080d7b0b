use crate::text::{push_decimal, push_signed_decimal, decimal, signed_decimal};
use std::num::ParseIntError;
use std::string::FromUtf8Error;
use vstd::prelude::*;
use vstd::std_specs::convert::FromSpecImpl;

verus! {

/// `std::string::FromUtf8Error`, carried through as an opaque value.
#[verifier::external_type_specification]
#[verifier::external_body]
pub struct ExFromUtf8Error(FromUtf8Error);

/// `std::num::ParseIntError`, carried through as an opaque value.
#[verifier::external_type_specification]
#[verifier::external_body]
pub struct ExParseIntError(ParseIntError);

/// The length carried by a length-prefixed RESP value.
pub type RESPLength = i32;

/// Errors raised while decoding RESP data.
#[derive(Debug, PartialEq, Eq, Structural)]
pub enum RESPError {
    FromUtf8,
    OutOfBounds(usize),
    WrongType,
    Unknown,
    IncorrectLength(RESPLength),
    ParseInt,
}

/// The message that describes a decoding error.
pub open spec fn resp_error_text(e: RESPError) -> Seq<char> {
    match e {
        RESPError::FromUtf8 => "Failed to convert bytes to UTF-8 string"@,
        RESPError::OutOfBounds(index) => "Index "@ + decimal(index as nat) + " is out of bounds"@,
        RESPError::WrongType => "Unexpected type byte"@,
        RESPError::Unknown => "Unknown format for RESP string"@,
        RESPError::IncorrectLength(length) => "Incorrect length "@ + signed_decimal(length as int),
        RESPError::ParseInt => "Cannot parse string into integer"@,
    }
}

impl RESPError {
    /// The message that describes the error.
    pub fn to_string(&self) -> (text: String)
        ensures
            text@ == resp_error_text(*self),
    {
        match self {
            RESPError::FromUtf8 => String::from_str("Failed to convert bytes to UTF-8 string"),
            RESPError::OutOfBounds(index) => {
                let mut text = String::from_str("Index ");
                push_decimal(&mut text, *index as u64);
                text.append(" is out of bounds");
                text
            },
            RESPError::WrongType => String::from_str("Unexpected type byte"),
            RESPError::Unknown => String::from_str("Unknown format for RESP string"),
            RESPError::IncorrectLength(length) => {
                let mut text = String::from_str("Incorrect length ");
                push_signed_decimal(&mut text, *length as i64);
                text
            },
            RESPError::ParseInt => String::from_str("Cannot parse string into integer"),
        }
    }
}

impl From<FromUtf8Error> for RESPError {
    /// Bytes that are not UTF-8 text.
    fn from(_e: FromUtf8Error) -> (res: Self) {
        RESPError::FromUtf8
    }
}

impl FromSpecImpl<FromUtf8Error> for RESPError {
    open spec fn obeys_from_spec() -> bool {
        true
    }

    open spec fn from_spec(v: FromUtf8Error) -> RESPError {
        RESPError::FromUtf8
    }
}

impl From<ParseIntError> for RESPError {
    /// Text that is not an integer.
    fn from(_e: ParseIntError) -> (res: Self) {
        RESPError::ParseInt
    }
}

impl FromSpecImpl<ParseIntError> for RESPError {
    open spec fn obeys_from_spec() -> bool {
        true
    }

    open spec fn from_spec(v: ParseIntError) -> RESPError {
        RESPError::ParseInt
    }
}

/// The outcome of a RESP decoding step.
pub type RESPResult<T> = Result<T, RESPError>;

} // verus!
