//! What the connection routine does with the bytes read so far, and the
//! seam through which parsed requests reach the code that answers them.
use vstd::prelude::*;
use vstd::string::*;
use crate::bytes::{ascii_bytes, copy_range, literal};
use crate::error::ParseError;
use crate::request::{Request, parse_request};
use crate::response::{Response, ResponseModel};
use crate::status_code::StatusCode;

verus! {

/// Anything that turns a parsed request into a response. The server holds
/// one for its whole life and calls it once per parsed request.
pub trait Handler {
    fn handle(&self, request: &Request) -> Response;
}

/// The short diagnostic sent in the body of a 400 response.
pub open spec fn diagnostic(e: ParseError) -> Seq<u8> {
    match e {
        ParseError::InvalidMethod => ascii_bytes("invalid method"@),
        ParseError::InvalidProtocol => ascii_bytes("invalid protocol"@),
        ParseError::InvalidRequest => ascii_bytes("invalid request"@),
        ParseError::IncompleteRequest => ascii_bytes("incomplete request"@),
    }
}

/// The response that answers a request that could not be parsed.
pub open spec fn error_model(e: ParseError) -> ResponseModel {
    ResponseModel { status: 400, headers: Seq::empty(), body: diagnostic(e) }
}

/// A 400 response whose body says why the request could not be parsed.
pub fn error_response(e: ParseError) -> (r: Response)
    ensures
        r@ == error_model(e),
{
    proof {
        reveal_strlit("invalid method");
        reveal_strlit("invalid protocol");
        reveal_strlit("invalid request");
        reveal_strlit("incomplete request");
    }
    let text = match e {
        ParseError::InvalidMethod => literal("invalid method"),
        ParseError::InvalidProtocol => literal("invalid protocol"),
        ParseError::InvalidRequest => literal("invalid request"),
        ParseError::IncompleteRequest => literal("incomplete request"),
    };
    let body = copy_range(text, 0, text.len());
    assert(body@ =~= diagnostic(e));
    Response::new(StatusCode::bad_request(), body)
}

/// The next step of a connection, given the bytes read from it so far.
#[derive(Debug)]
pub enum Outcome {
    /// The request is not complete yet: read more bytes.
    ReadMore,
    /// A request was parsed: hand it to the handler.
    Dispatch(Request),
    /// Send this response and close.
    Reply(Response),
}

/// What the connection routine does next with `buf`, the bytes read so far.
/// `cap` bounds the buffer; `closed` tells that the peer sends nothing more.
/// A request still incomplete when the buffer is full counts as invalid.
pub open spec fn outcome_spec(buf: Seq<u8>, cap: nat, closed: bool, o: Outcome) -> bool {
    match parse_request(buf) {
        Ok(m) => o matches Outcome::Dispatch(req) && req@ == m,
        Err(ParseError::IncompleteRequest) => if buf.len() >= cap {
            o matches Outcome::Reply(resp) && resp@ == error_model(ParseError::InvalidRequest)
        } else if closed {
            o matches Outcome::Reply(resp) && resp@ == error_model(ParseError::IncompleteRequest)
        } else {
            o is ReadMore
        },
        Err(e) => o matches Outcome::Reply(resp) && resp@ == error_model(e),
    }
}

/// Decides the next step of a connection from the bytes read so far.
pub fn on_bytes(buf: &[u8], cap: usize, closed: bool) -> (r: Outcome)
    ensures
        outcome_spec(buf@, cap as nat, closed, r),
{
    match Request::parse(buf) {
        Ok(req) => Outcome::Dispatch(req),
        Err(ParseError::IncompleteRequest) => {
            if buf.len() >= cap {
                Outcome::Reply(error_response(ParseError::InvalidRequest))
            } else if closed {
                Outcome::Reply(error_response(ParseError::IncompleteRequest))
            } else {
                Outcome::ReadMore
            }
        },
        Err(e) => Outcome::Reply(error_response(e)),
    }
}

} // verus!
