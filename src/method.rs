//! The closed set of HTTP verbs, parsed strictly from a token.
use vstd::prelude::*;
use vstd::string::*;
use crate::bytes::{ascii_bytes, bytes_eq, literal};
use crate::error::ParseError;

verus! {

/// An HTTP verb. A value is only ever made by parsing a token that spells
/// one of these names exactly.
#[derive(Clone, Copy, Debug, PartialEq, Eq, Structural)]
pub enum Method {
    GET,
    POST,
    PUT,
    DELETE,
    HEAD,
    OPTIONS,
    PATCH,
    CONNECT,
    TRACE,
}

impl Method {
    /// The verb as it stands on a request line.
    pub open spec fn token(self) -> Seq<u8> {
        match self {
            Method::GET => ascii_bytes("GET"@),
            Method::POST => ascii_bytes("POST"@),
            Method::PUT => ascii_bytes("PUT"@),
            Method::DELETE => ascii_bytes("DELETE"@),
            Method::HEAD => ascii_bytes("HEAD"@),
            Method::OPTIONS => ascii_bytes("OPTIONS"@),
            Method::PATCH => ascii_bytes("PATCH"@),
            Method::CONNECT => ascii_bytes("CONNECT"@),
            Method::TRACE => ascii_bytes("TRACE"@),
        }
    }

    /// Parses a verb from the bytes of a token: an exact, case-sensitive match.
    pub fn from_bytes(t: &[u8]) -> (r: Result<Method, ParseError>)
        ensures
            r == method_result(t@),
    {
        proof {
            reveal_strlit("GET");
            reveal_strlit("POST");
            reveal_strlit("PUT");
            reveal_strlit("DELETE");
            reveal_strlit("HEAD");
            reveal_strlit("OPTIONS");
            reveal_strlit("PATCH");
            reveal_strlit("CONNECT");
            reveal_strlit("TRACE");
        }
        if bytes_eq(t, literal("GET")) {
            Ok(Method::GET)
        } else if bytes_eq(t, literal("POST")) {
            Ok(Method::POST)
        } else if bytes_eq(t, literal("PUT")) {
            Ok(Method::PUT)
        } else if bytes_eq(t, literal("DELETE")) {
            Ok(Method::DELETE)
        } else if bytes_eq(t, literal("HEAD")) {
            Ok(Method::HEAD)
        } else if bytes_eq(t, literal("OPTIONS")) {
            Ok(Method::OPTIONS)
        } else if bytes_eq(t, literal("PATCH")) {
            Ok(Method::PATCH)
        } else if bytes_eq(t, literal("CONNECT")) {
            Ok(Method::CONNECT)
        } else if bytes_eq(t, literal("TRACE")) {
            Ok(Method::TRACE)
        } else {
            Err(ParseError::InvalidMethod)
        }
    }

    /// Parses a verb from a token: an exact, case-sensitive match on its bytes,
    /// with no case folding and no trimming.
    pub fn parse(token: &str) -> (r: Result<Method, ParseError>)
        ensures
            r == method_result(token.spec_bytes()),
    {
        Method::from_bytes(token.as_bytes())
    }
}

/// The verb that a token spells, if any.
pub open spec fn method_of(t: Seq<u8>) -> Option<Method> {
    if t == Method::GET.token() {
        Some(Method::GET)
    } else if t == Method::POST.token() {
        Some(Method::POST)
    } else if t == Method::PUT.token() {
        Some(Method::PUT)
    } else if t == Method::DELETE.token() {
        Some(Method::DELETE)
    } else if t == Method::HEAD.token() {
        Some(Method::HEAD)
    } else if t == Method::OPTIONS.token() {
        Some(Method::OPTIONS)
    } else if t == Method::PATCH.token() {
        Some(Method::PATCH)
    } else if t == Method::CONNECT.token() {
        Some(Method::CONNECT)
    } else if t == Method::TRACE.token() {
        Some(Method::TRACE)
    } else {
        None
    }
}

/// The outcome of parsing a token as a verb.
pub open spec fn method_result(t: Seq<u8>) -> Result<Method, ParseError> {
    match method_of(t) {
        Some(m) => Ok(m),
        None => Err(ParseError::InvalidMethod),
    }
}

/// Each verb's token parses back to that verb, and is made of upper-case
/// ASCII letters only.
pub proof fn lemma_method_token(m: Method)
    ensures
        method_of(m.token()) == Some(m),
        m.token().len() > 0,
        forall|i: int| 0 <= i < m.token().len() ==> 65 <= #[trigger] m.token()[i] <= 90,
{
    reveal_strlit("GET");
    reveal_strlit("POST");
    reveal_strlit("PUT");
    reveal_strlit("DELETE");
    reveal_strlit("HEAD");
    reveal_strlit("OPTIONS");
    reveal_strlit("PATCH");
    reveal_strlit("CONNECT");
    reveal_strlit("TRACE");
    assert(Method::GET.token() =~= seq![71u8, 69, 84]);
    assert(Method::POST.token() =~= seq![80u8, 79, 83, 84]);
    assert(Method::PUT.token() =~= seq![80u8, 85, 84]);
    assert(Method::DELETE.token() =~= seq![68u8, 69, 76, 69, 84, 69]);
    assert(Method::HEAD.token() =~= seq![72u8, 69, 65, 68]);
    assert(Method::OPTIONS.token() =~= seq![79u8, 80, 84, 73, 79, 78, 83]);
    assert(Method::PATCH.token() =~= seq![80u8, 65, 84, 67, 72]);
    assert(Method::CONNECT.token() =~= seq![67u8, 79, 78, 78, 69, 67, 84]);
    assert(Method::TRACE.token() =~= seq![84u8, 82, 65, 67, 69]);
}

} // verus!
