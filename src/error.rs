//! Why a byte buffer could not be read as a request.
use vstd::prelude::*;

verus! {

/// A structured, non-fatal failure of the request parser.
#[derive(Clone, Copy, Debug, PartialEq, Eq, Structural)]
pub enum ParseError {
    /// The first token of the request line names no supported verb.
    InvalidMethod,
    /// The third token of the request line is neither `HTTP/1.1` nor `HTTP/1.0`.
    InvalidProtocol,
    /// The request line or a header line is malformed.
    InvalidRequest,
    /// The buffer ends before the request does.
    IncompleteRequest,
}

} // verus!
