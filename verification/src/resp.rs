//! RESP2: the values of the protocol, their wire format, and stream framing.

pub mod codec;
pub mod laws;
pub mod types;

use vstd::prelude::*;
use vstd::string::*;

use crate::resp::types::{RespType, RespValue};

verus! {

/// Represents errors that can occur during RESP parsing.
#[derive(Debug, PartialEq, Eq)]
pub enum RespError {
    /// The buffer doesn't yet hold a full RESP value. Not a protocol error:
    /// callers reading from a stream (see `codec`) should wait for more bytes.
    Incomplete,
    /// Represents an error in parsing a bulk string, with an error message.
    InvalidBulkString(String),
    /// Represents an error in parsing a simple string, with an error message.
    InvalidSimpleString(String),
    /// Represents an error in parsing a simple error, with an error message.
    InvalidSimpleError(String),
    /// Represents any other error with a descriptive message.
    Other(String),
}

/// The mathematical content of a `RespError`: its kind and its message.
pub enum RespErrorView {
    Incomplete,
    InvalidBulkString(Seq<char>),
    InvalidSimpleString(Seq<char>),
    InvalidSimpleError(Seq<char>),
    Other(Seq<char>),
}

impl View for RespError {
    type V = RespErrorView;

    open spec fn view(&self) -> RespErrorView {
        match self {
            RespError::Incomplete => RespErrorView::Incomplete,
            RespError::InvalidBulkString(m) => RespErrorView::InvalidBulkString(m@),
            RespError::InvalidSimpleString(m) => RespErrorView::InvalidSimpleString(m@),
            RespError::InvalidSimpleError(m) => RespErrorView::InvalidSimpleError(m@),
            RespError::Other(m) => RespErrorView::Other(m@),
        }
    }
}

impl RespErrorView {
    /// The text that describes the error.
    pub open spec fn message(self) -> Seq<char> {
        match self {
            RespErrorView::Incomplete => "Incomplete RESP data: waiting for more bytes"@,
            RespErrorView::InvalidBulkString(m) => m,
            RespErrorView::InvalidSimpleString(m) => m,
            RespErrorView::InvalidSimpleError(m) => m,
            RespErrorView::Other(m) => m,
        }
    }
}

impl RespError {
    /// The reply that tells a client its request could not be parsed: a
    /// SimpleError carrying the error's text.
    pub fn to_reply(&self) -> (r: RespType)
        ensures
            r@ == RespValue::SimpleError(self@.message()),
    {
        RespType::SimpleError(self.message())
    }

    /// The text that describes the error, as it is shown to a client.
    pub fn message(&self) -> (r: String)
        ensures
            r@ == self@.message(),
    {
        match self {
            RespError::Incomplete => String::from_str("Incomplete RESP data: waiting for more bytes"),
            RespError::InvalidBulkString(m) => m.clone(),
            RespError::InvalidSimpleString(m) => m.clone(),
            RespError::InvalidSimpleError(m) => m.clone(),
            RespError::Other(m) => m.clone(),
        }
    }
}

} // verus!
