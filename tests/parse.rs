use server::{Method, ParseError, QueryStringValue, Request};

fn single(s: &[u8]) -> QueryStringValue {
    QueryStringValue::Single(s.to_vec())
}

fn multiple(vs: &[&[u8]]) -> QueryStringValue {
    QueryStringValue::Multiple(vs.iter().map(|v| v.to_vec()).collect())
}

#[test]
fn parses_search_scenario() {
    let buf = b"GET /search?q=rust&tag=sys&tag=web HTTP/1.1\r\nHost: x\r\n\r\n";
    let req = Request::parse(buf).unwrap();
    assert_eq!(req.method(), Method::GET);
    assert_eq!(req.path().as_slice(), b"/search");
    let qs = req.query_string().as_ref().unwrap();
    assert_eq!(qs.get(b"q"), Some(&single(b"rust")));
    assert_eq!(qs.get(b"tag"), Some(&multiple(&[b"sys", b"web"])));
    assert_eq!(qs.get(b"missing"), None);
    assert!(req.body().is_empty());
    assert_eq!(req.header(b"host").map(|v| v.as_slice()), Some(&b"x"[..]));
}

#[test]
fn repeated_key_keeps_order_for_each_verb() {
    let verbs: [(&str, Method); 9] = [
        ("GET", Method::GET),
        ("POST", Method::POST),
        ("PUT", Method::PUT),
        ("DELETE", Method::DELETE),
        ("HEAD", Method::HEAD),
        ("OPTIONS", Method::OPTIONS),
        ("PATCH", Method::PATCH),
        ("CONNECT", Method::CONNECT),
        ("TRACE", Method::TRACE),
    ];
    for (text, method) in verbs {
        let buf = format!("{} /path?k=v1&k=v2 HTTP/1.1\r\n\r\n", text);
        let req = Request::parse(buf.as_bytes()).unwrap();
        assert_eq!(req.method(), method);
        assert_eq!(req.path().as_slice(), b"/path");
        let qs = req.query_string().as_ref().unwrap();
        assert_eq!(qs.get(b"k"), Some(&multiple(&[b"v1", b"v2"])));
    }
}

#[test]
fn three_values_stay_in_order() {
    let req = Request::parse(b"GET /?a=3&a=1&a=2 HTTP/1.1\r\n\r\n").unwrap();
    let qs = req.query_string().as_ref().unwrap();
    assert_eq!(qs.get(b"a"), Some(&multiple(&[b"3", b"1", b"2"])));
}

#[test]
fn unknown_verb_is_invalid_method() {
    assert_eq!(Request::parse(b"FOO / HTTP/1.1\r\n\r\n").unwrap_err(), ParseError::InvalidMethod);
}

#[test]
fn verbs_are_case_sensitive() {
    assert_eq!(Request::parse(b"get / HTTP/1.1\r\n\r\n").unwrap_err(), ParseError::InvalidMethod);
}

#[test]
fn method_checked_before_protocol() {
    assert_eq!(Request::parse(b"FOO / HTTP/2.0\r\n\r\n").unwrap_err(), ParseError::InvalidMethod);
}

#[test]
fn unsupported_protocol() {
    assert_eq!(
        Request::parse(b"GET / HTTP/2.0\r\n\r\n").unwrap_err(),
        ParseError::InvalidProtocol
    );
}

#[test]
fn http_1_0_is_accepted() {
    let req = Request::parse(b"HEAD /index.html HTTP/1.0\r\n\r\n").unwrap();
    assert_eq!(req.method(), Method::HEAD);
    assert_eq!(req.path().as_slice(), b"/index.html");
    assert!(req.query_string().is_none());
}

#[test]
fn too_few_or_too_many_tokens() {
    assert_eq!(Request::parse(b"GET /\r\n\r\n").unwrap_err(), ParseError::InvalidRequest);
    assert_eq!(
        Request::parse(b"GET / HTTP/1.1 extra\r\n\r\n").unwrap_err(),
        ParseError::InvalidRequest
    );
    assert_eq!(
        Request::parse(b"GET  / HTTP/1.1\r\n\r\n").unwrap_err(),
        ParseError::InvalidRequest
    );
}

#[test]
fn path_must_start_with_slash() {
    assert_eq!(
        Request::parse(b"GET index.html HTTP/1.1\r\n\r\n").unwrap_err(),
        ParseError::InvalidRequest
    );
    assert_eq!(
        Request::parse(b"GET ?a=b HTTP/1.1\r\n\r\n").unwrap_err(),
        ParseError::InvalidRequest
    );
}

#[test]
fn header_line_without_colon() {
    assert_eq!(
        Request::parse(b"GET / HTTP/1.1\r\nHost x\r\n\r\n").unwrap_err(),
        ParseError::InvalidRequest
    );
}

#[test]
fn empty_buffer_is_incomplete() {
    assert_eq!(Request::parse(b"").unwrap_err(), ParseError::IncompleteRequest);
}

#[test]
fn truncated_request_is_incomplete_until_complete() {
    let full: &[u8] = b"POST /submit HTTP/1.1\r\nHost: x\r\nContent-Length: 5\r\n\r\nhello";
    for k in 0..full.len() {
        assert_eq!(
            Request::parse(&full[..k]).unwrap_err(),
            ParseError::IncompleteRequest,
            "prefix of {} bytes",
            k
        );
    }
    let req = Request::parse(full).unwrap();
    assert_eq!(req.body().as_slice(), b"hello");
}

#[test]
fn remaining_bytes_complete_the_request() {
    let first: &[u8] = b"GET /a?x=1 HTTP/1.1\r\nHo";
    let rest: &[u8] = b"st: y\r\n\r\n";
    assert_eq!(Request::parse(first).unwrap_err(), ParseError::IncompleteRequest);
    let mut joined = first.to_vec();
    joined.extend_from_slice(rest);
    let req = Request::parse(&joined).unwrap();
    assert_eq!(req.path().as_slice(), b"/a");
    assert_eq!(req.header(b"HOST").map(|v| v.as_slice()), Some(&b"y"[..]));
}

#[test]
fn bytes_after_the_body_are_ignored() {
    let req = Request::parse(b"PUT / HTTP/1.1\r\ncontent-length: 3\r\n\r\nabcdef").unwrap();
    assert_eq!(req.body().as_slice(), b"abc");
}

#[test]
fn body_shorter_than_declared_is_incomplete() {
    assert_eq!(
        Request::parse(b"PUT / HTTP/1.1\r\nContent-Length: 10\r\n\r\nabc").unwrap_err(),
        ParseError::IncompleteRequest
    );
}

#[test]
fn huge_content_length_is_incomplete() {
    assert_eq!(
        Request::parse(
            b"PUT / HTTP/1.1\r\nContent-Length: 99999999999999999999999999\r\n\r\nabc"
        )
        .unwrap_err(),
        ParseError::IncompleteRequest
    );
}

#[test]
fn non_numeric_content_length_means_no_body() {
    let req = Request::parse(b"PUT / HTTP/1.1\r\nContent-Length: -3\r\n\r\nabc").unwrap();
    assert!(req.body().is_empty());
    let req = Request::parse(b"PUT / HTTP/1.1\r\nContent-Length: \r\n\r\nabc").unwrap();
    assert!(req.body().is_empty());
}

#[test]
fn no_content_length_means_no_body() {
    let req = Request::parse(b"POST / HTTP/1.1\r\n\r\nabc").unwrap();
    assert!(req.body().is_empty());
}

#[test]
fn header_values_are_trimmed() {
    let req = Request::parse(b"GET / HTTP/1.1\r\nAccept:  \t text/html \t\r\n\r\n").unwrap();
    assert_eq!(req.header(b"accept").map(|v| v.as_slice()), Some(&b"text/html"[..]));
}

#[test]
fn repeated_headers_are_joined() {
    let req = Request::parse(
        b"GET / HTTP/1.1\r\nAccept: a\r\nHost: h\r\naccept: b\r\n\r\n",
    )
    .unwrap();
    assert_eq!(req.headers().len(), 2);
    assert_eq!(req.header(b"ACCEPT").map(|v| v.as_slice()), Some(&b"a, b"[..]));
    assert_eq!(req.header(b"host").map(|v| v.as_slice()), Some(&b"h"[..]));
    assert_eq!(req.header(b"cookie"), None);
}

#[test]
fn query_pair_without_equals_has_empty_value() {
    let req = Request::parse(b"GET /p?flag&x=1=2 HTTP/1.1\r\n\r\n").unwrap();
    let qs = req.query_string().as_ref().unwrap();
    assert_eq!(qs.get(b"flag"), Some(&single(b"")));
    assert_eq!(qs.get(b"x"), Some(&single(b"1=2")));
}

#[test]
fn empty_query_after_question_mark() {
    let req = Request::parse(b"GET /p? HTTP/1.1\r\n\r\n").unwrap();
    assert_eq!(req.path().as_slice(), b"/p");
    let qs = req.query_string().as_ref().unwrap();
    assert_eq!(qs.get(b""), Some(&single(b"")));
}

#[test]
fn path_splits_at_first_question_mark() {
    let req = Request::parse(b"GET /a?b?c=d HTTP/1.1\r\n\r\n").unwrap();
    assert_eq!(req.path().as_slice(), b"/a");
    let qs = req.query_string().as_ref().unwrap();
    assert_eq!(qs.get(b"b?c"), Some(&single(b"d")));
}
