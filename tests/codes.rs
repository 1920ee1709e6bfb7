use server::{Method, ParseError, StatusCode};

#[test]
fn parses_every_verb() {
    assert_eq!(Method::parse("GET"), Ok(Method::GET));
    assert_eq!(Method::parse("POST"), Ok(Method::POST));
    assert_eq!(Method::parse("PUT"), Ok(Method::PUT));
    assert_eq!(Method::parse("DELETE"), Ok(Method::DELETE));
    assert_eq!(Method::parse("HEAD"), Ok(Method::HEAD));
    assert_eq!(Method::parse("OPTIONS"), Ok(Method::OPTIONS));
    assert_eq!(Method::parse("PATCH"), Ok(Method::PATCH));
    assert_eq!(Method::parse("CONNECT"), Ok(Method::CONNECT));
    assert_eq!(Method::parse("TRACE"), Ok(Method::TRACE));
}

#[test]
fn rejects_other_tokens() {
    assert_eq!(Method::parse("Get"), Err(ParseError::InvalidMethod));
    assert_eq!(Method::parse(" GET"), Err(ParseError::InvalidMethod));
    assert_eq!(Method::parse(""), Err(ParseError::InvalidMethod));
    assert_eq!(Method::from_bytes(b"FOO"), Err(ParseError::InvalidMethod));
}

#[test]
fn status_code_range() {
    assert!(StatusCode::new(99).is_none());
    assert!(StatusCode::new(600).is_none());
    assert_eq!(StatusCode::new(100).unwrap().code(), 100);
    assert_eq!(StatusCode::new(599).unwrap().code(), 599);
}

#[test]
fn canonical_reason_phrases() {
    assert_eq!(StatusCode::ok().reason_phrase(), b"OK");
    assert_eq!(StatusCode::bad_request().reason_phrase(), b"Bad Request");
    assert_eq!(StatusCode::not_found().reason_phrase(), b"Not Found");
    assert_eq!(StatusCode::internal_server_error().reason_phrase(), b"Internal Server Error");
    assert_eq!(StatusCode::new(405).unwrap().reason_phrase(), b"Method Not Allowed");
}

#[test]
fn unsupported_code_has_empty_phrase() {
    assert_eq!(StatusCode::new(299).unwrap().reason_phrase(), b"");
}

#[test]
fn reverse_lookup() {
    assert_eq!(StatusCode::from_reason(b"Not Found").map(|s| s.code()), Some(404));
    assert_eq!(StatusCode::from_reason(b"OK").map(|s| s.code()), Some(200));
    assert_eq!(StatusCode::from_reason(b"not found"), None);
    assert_eq!(StatusCode::from_reason(b""), None);
}

#[test]
fn reverse_lookup_inverts_the_table() {
    for code in 100u16..600 {
        let status = StatusCode::new(code).unwrap();
        let phrase = status.reason_phrase();
        if !phrase.is_empty() {
            assert_eq!(StatusCode::from_reason(phrase).map(|s| s.code()), Some(code));
        }
    }
}
