//! Status codes and their canonical reason phrases.
use vstd::prelude::*;
use crate::bytes::{ascii_bytes, bytes_eq, literal};

verus! {

/// The canonical reason phrase of a code; empty for a code outside the
/// supported table.
pub open spec fn reason_of(code: u16) -> Seq<u8> {
    match code {
        100 => ascii_bytes("Continue"@),
        101 => ascii_bytes("Switching Protocols"@),
        200 => ascii_bytes("OK"@),
        201 => ascii_bytes("Created"@),
        202 => ascii_bytes("Accepted"@),
        204 => ascii_bytes("No Content"@),
        301 => ascii_bytes("Moved Permanently"@),
        302 => ascii_bytes("Found"@),
        304 => ascii_bytes("Not Modified"@),
        400 => ascii_bytes("Bad Request"@),
        401 => ascii_bytes("Unauthorized"@),
        403 => ascii_bytes("Forbidden"@),
        404 => ascii_bytes("Not Found"@),
        405 => ascii_bytes("Method Not Allowed"@),
        500 => ascii_bytes("Internal Server Error"@),
        501 => ascii_bytes("Not Implemented"@),
        503 => ascii_bytes("Service Unavailable"@),
        _ => Seq::empty(),
    }
}

/// Whether a code has a canonical reason phrase.
pub open spec fn is_supported(code: u16) -> bool {
    reason_of(code).len() > 0
}

/// The supported code whose canonical reason phrase is `p`, if any.
pub open spec fn code_of_reason(p: Seq<u8>) -> Option<u16> {
    if p == reason_of(100) {
        Some(100)
    } else if p == reason_of(101) {
        Some(101)
    } else if p == reason_of(200) {
        Some(200)
    } else if p == reason_of(201) {
        Some(201)
    } else if p == reason_of(202) {
        Some(202)
    } else if p == reason_of(204) {
        Some(204)
    } else if p == reason_of(301) {
        Some(301)
    } else if p == reason_of(302) {
        Some(302)
    } else if p == reason_of(304) {
        Some(304)
    } else if p == reason_of(400) {
        Some(400)
    } else if p == reason_of(401) {
        Some(401)
    } else if p == reason_of(403) {
        Some(403)
    } else if p == reason_of(404) {
        Some(404)
    } else if p == reason_of(405) {
        Some(405)
    } else if p == reason_of(500) {
        Some(500)
    } else if p == reason_of(501) {
        Some(501)
    } else if p == reason_of(503) {
        Some(503)
    } else {
        None
    }
}

/// A numeric status code between 100 and 599.
#[derive(Clone, Copy, Debug, PartialEq, Eq)]
pub struct StatusCode {
    code: u16,
}

impl View for StatusCode {
    type V = u16;

    closed spec fn view(&self) -> u16 {
        self.code
    }
}

impl StatusCode {
    #[verifier::type_invariant]
    spec fn in_range(self) -> bool {
        100 <= self.code <= 599
    }

    /// The status code with number `code`, when it lies between 100 and 599.
    pub fn new(code: u16) -> (r: Option<StatusCode>)
        ensures
            r is Some <==> 100 <= code <= 599,
            r matches Some(s) ==> s@ == code,
    {
        if 100 <= code && code <= 599 {
            Some(StatusCode { code })
        } else {
            None
        }
    }

    /// 200 OK.
    pub fn ok() -> (r: StatusCode)
        ensures
            r@ == 200,
    {
        StatusCode { code: 200 }
    }

    /// 400 Bad Request.
    pub fn bad_request() -> (r: StatusCode)
        ensures
            r@ == 400,
    {
        StatusCode { code: 400 }
    }

    /// 404 Not Found.
    pub fn not_found() -> (r: StatusCode)
        ensures
            r@ == 404,
    {
        StatusCode { code: 404 }
    }

    /// 500 Internal Server Error.
    pub fn internal_server_error() -> (r: StatusCode)
        ensures
            r@ == 500,
    {
        StatusCode { code: 500 }
    }

    /// The number of this status code.
    pub fn code(&self) -> (r: u16)
        ensures
            r == self@,
            100 <= r <= 599,
    {
        proof {
            use_type_invariant(self);
        }
        self.code
    }

    /// The canonical reason phrase; empty for a code outside the supported table.
    pub fn reason_phrase(&self) -> (r: &'static [u8])
        ensures
            r@ == reason_of(self@),
    {
        proof {
            reveal_strlit("Continue");
            reveal_strlit("Switching Protocols");
            reveal_strlit("OK");
            reveal_strlit("Created");
            reveal_strlit("Accepted");
            reveal_strlit("No Content");
            reveal_strlit("Moved Permanently");
            reveal_strlit("Found");
            reveal_strlit("Not Modified");
            reveal_strlit("Bad Request");
            reveal_strlit("Unauthorized");
            reveal_strlit("Forbidden");
            reveal_strlit("Not Found");
            reveal_strlit("Method Not Allowed");
            reveal_strlit("Internal Server Error");
            reveal_strlit("Not Implemented");
            reveal_strlit("Service Unavailable");
            reveal_strlit("");
        }
        match self.code {
            100 => literal("Continue"),
            101 => literal("Switching Protocols"),
            200 => literal("OK"),
            201 => literal("Created"),
            202 => literal("Accepted"),
            204 => literal("No Content"),
            301 => literal("Moved Permanently"),
            302 => literal("Found"),
            304 => literal("Not Modified"),
            400 => literal("Bad Request"),
            401 => literal("Unauthorized"),
            403 => literal("Forbidden"),
            404 => literal("Not Found"),
            405 => literal("Method Not Allowed"),
            500 => literal("Internal Server Error"),
            501 => literal("Not Implemented"),
            503 => literal("Service Unavailable"),
            _ => literal(""),
        }
    }

    /// The supported status code whose canonical reason phrase is `phrase`.
    pub fn from_reason(phrase: &[u8]) -> (r: Option<StatusCode>)
        ensures
            r is Some <==> code_of_reason(phrase@) is Some,
            r matches Some(s) ==> code_of_reason(phrase@) == Some(s@),
    {
        proof {
            reveal_strlit("Continue");
            reveal_strlit("Switching Protocols");
            reveal_strlit("OK");
            reveal_strlit("Created");
            reveal_strlit("Accepted");
            reveal_strlit("No Content");
            reveal_strlit("Moved Permanently");
            reveal_strlit("Found");
            reveal_strlit("Not Modified");
            reveal_strlit("Bad Request");
            reveal_strlit("Unauthorized");
            reveal_strlit("Forbidden");
            reveal_strlit("Not Found");
            reveal_strlit("Method Not Allowed");
            reveal_strlit("Internal Server Error");
            reveal_strlit("Not Implemented");
            reveal_strlit("Service Unavailable");
        }
        if bytes_eq(phrase, literal("Continue")) {
            Some(StatusCode { code: 100 })
        } else if bytes_eq(phrase, literal("Switching Protocols")) {
            Some(StatusCode { code: 101 })
        } else if bytes_eq(phrase, literal("OK")) {
            Some(StatusCode { code: 200 })
        } else if bytes_eq(phrase, literal("Created")) {
            Some(StatusCode { code: 201 })
        } else if bytes_eq(phrase, literal("Accepted")) {
            Some(StatusCode { code: 202 })
        } else if bytes_eq(phrase, literal("No Content")) {
            Some(StatusCode { code: 204 })
        } else if bytes_eq(phrase, literal("Moved Permanently")) {
            Some(StatusCode { code: 301 })
        } else if bytes_eq(phrase, literal("Found")) {
            Some(StatusCode { code: 302 })
        } else if bytes_eq(phrase, literal("Not Modified")) {
            Some(StatusCode { code: 304 })
        } else if bytes_eq(phrase, literal("Bad Request")) {
            Some(StatusCode { code: 400 })
        } else if bytes_eq(phrase, literal("Unauthorized")) {
            Some(StatusCode { code: 401 })
        } else if bytes_eq(phrase, literal("Forbidden")) {
            Some(StatusCode { code: 403 })
        } else if bytes_eq(phrase, literal("Not Found")) {
            Some(StatusCode { code: 404 })
        } else if bytes_eq(phrase, literal("Method Not Allowed")) {
            Some(StatusCode { code: 405 })
        } else if bytes_eq(phrase, literal("Internal Server Error")) {
            Some(StatusCode { code: 500 })
        } else if bytes_eq(phrase, literal("Not Implemented")) {
            Some(StatusCode { code: 501 })
        } else if bytes_eq(phrase, literal("Service Unavailable")) {
            Some(StatusCode { code: 503 })
        } else {
            None
        }
    }
}

/// The table can be read in both directions: each supported code has a
/// non-empty phrase, and that phrase leads back to the same code.
pub proof fn lemma_reason_round_trip(code: u16)
    requires
        is_supported(code),
    ensures
        code_of_reason(reason_of(code)) == Some(code),
{
    reveal_strlit("Continue");
    reveal_strlit("Switching Protocols");
    reveal_strlit("OK");
    reveal_strlit("Created");
    reveal_strlit("Accepted");
    reveal_strlit("No Content");
    reveal_strlit("Moved Permanently");
    reveal_strlit("Found");
    reveal_strlit("Not Modified");
    reveal_strlit("Bad Request");
    reveal_strlit("Unauthorized");
    reveal_strlit("Forbidden");
    reveal_strlit("Not Found");
    reveal_strlit("Method Not Allowed");
    reveal_strlit("Internal Server Error");
    reveal_strlit("Not Implemented");
    reveal_strlit("Service Unavailable");
    assert(reason_of(100) =~= seq![67u8, 111, 110, 116, 105, 110, 117, 101]);
    assert(reason_of(101) =~= seq![83u8, 119, 105, 116, 99, 104, 105, 110, 103, 32, 80, 114, 111, 116, 111, 99, 111, 108, 115]);
    assert(reason_of(200) =~= seq![79u8, 75]);
    assert(reason_of(201) =~= seq![67u8, 114, 101, 97, 116, 101, 100]);
    assert(reason_of(202) =~= seq![65u8, 99, 99, 101, 112, 116, 101, 100]);
    assert(reason_of(204) =~= seq![78u8, 111, 32, 67, 111, 110, 116, 101, 110, 116]);
    assert(reason_of(301) =~= seq![77u8, 111, 118, 101, 100, 32, 80, 101, 114, 109, 97, 110, 101, 110, 116, 108, 121]);
    assert(reason_of(302) =~= seq![70u8, 111, 117, 110, 100]);
    assert(reason_of(304) =~= seq![78u8, 111, 116, 32, 77, 111, 100, 105, 102, 105, 101, 100]);
    assert(reason_of(400) =~= seq![66u8, 97, 100, 32, 82, 101, 113, 117, 101, 115, 116]);
    assert(reason_of(401) =~= seq![85u8, 110, 97, 117, 116, 104, 111, 114, 105, 122, 101, 100]);
    assert(reason_of(403) =~= seq![70u8, 111, 114, 98, 105, 100, 100, 101, 110]);
    assert(reason_of(404) =~= seq![78u8, 111, 116, 32, 70, 111, 117, 110, 100]);
    assert(reason_of(405) =~= seq![77u8, 101, 116, 104, 111, 100, 32, 78, 111, 116, 32, 65, 108, 108, 111, 119, 101, 100]);
    assert(reason_of(500) =~= seq![73u8, 110, 116, 101, 114, 110, 97, 108, 32, 83, 101, 114, 118, 101, 114, 32, 69, 114, 114, 111, 114]);
    assert(reason_of(501) =~= seq![78u8, 111, 116, 32, 73, 109, 112, 108, 101, 109, 101, 110, 116, 101, 100]);
    assert(reason_of(503) =~= seq![83u8, 101, 114, 118, 105, 99, 101, 32, 85, 110, 97, 118, 97, 105, 108, 97, 98, 108, 101]);
}

} // verus!
