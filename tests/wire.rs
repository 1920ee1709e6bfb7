use server::connection::{error_response, on_bytes};
use server::server::{AcceptEvent, ServerState};
use server::{Handler, Outcome, ParseError, Request, Response, Server, StatusCode};

#[test]
fn serializes_status_line_headers_and_body() {
    let mut r = Response::new(StatusCode::ok(), b"hi".to_vec());
    r.insert_header(b"Content-Type".to_vec(), b"text/plain".to_vec());
    r.insert_header(b"X-A".to_vec(), b"1".to_vec());
    assert_eq!(
        r.serialize(),
        b"HTTP/1.1 200 OK\r\nContent-Type: text/plain\r\nX-A: 1\r\nContent-Length: 2\r\n\r\nhi"
            .to_vec()
    );
}

#[test]
fn status_line_for_each_supported_code() {
    for code in 100u16..600 {
        let status = StatusCode::new(code).unwrap();
        let phrase = status.reason_phrase().to_vec();
        let bytes = Response::new(status, Vec::new()).serialize();
        let mut line = format!("HTTP/1.1 {} ", code).into_bytes();
        line.extend_from_slice(&phrase);
        line.extend_from_slice(b"\r\n");
        assert!(bytes.starts_with(&line));
    }
    let bytes = Response::new(StatusCode::not_found(), Vec::new()).serialize();
    assert!(bytes.starts_with(b"HTTP/1.1 404 Not Found\r\n"));
}

#[test]
fn unsupported_code_serializes_with_empty_reason() {
    let bytes = Response::new(StatusCode::new(299).unwrap(), Vec::new()).serialize();
    assert_eq!(bytes, b"HTTP/1.1 299 \r\nContent-Length: 0\r\n\r\n".to_vec());
}

#[test]
fn caller_content_length_is_kept() {
    let mut r = Response::new(StatusCode::ok(), b"abc".to_vec());
    r.insert_header(b"content-length".to_vec(), b"7".to_vec());
    assert_eq!(
        r.serialize(),
        b"HTTP/1.1 200 OK\r\ncontent-length: 7\r\n\r\nabc".to_vec()
    );
}

#[test]
fn repeated_response_header_is_joined() {
    let mut r = Response::new(StatusCode::ok(), Vec::new());
    r.insert_header(b"Vary".to_vec(), b"a".to_vec());
    r.insert_header(b"vary".to_vec(), b"b".to_vec());
    assert_eq!(r.headers().len(), 1);
    assert_eq!(
        r.serialize(),
        b"HTTP/1.1 200 OK\r\nVary: a, b\r\nContent-Length: 0\r\n\r\n".to_vec()
    );
}

#[test]
fn content_length_reads_back_as_body_length() {
    for body in [&b""[..], b"x", b"hello world", &[7u8; 1234][..]] {
        let mut r = Response::new(StatusCode::ok(), body.to_vec());
        r.insert_header(b"Server".to_vec(), b"test".to_vec());
        let bytes = r.serialize();
        let status_end = bytes.windows(2).position(|w| w == b"\r\n").unwrap() + 2;
        let mut as_request = b"POST / HTTP/1.1\r\n".to_vec();
        as_request.extend_from_slice(&bytes[status_end..]);
        let req = Request::parse(&as_request).unwrap();
        let declared = req.header(b"Content-Length").unwrap();
        assert_eq!(String::from_utf8(declared.clone()).unwrap(), body.len().to_string());
        assert_eq!(req.body().as_slice(), body);
    }
}

#[test]
fn error_response_is_400_with_diagnostic() {
    let r = error_response(ParseError::InvalidMethod);
    assert_eq!(r.status().code(), 400);
    assert_eq!(r.body().as_slice(), b"invalid method");
    assert_eq!(
        r.serialize(),
        b"HTTP/1.1 400 Bad Request\r\nContent-Length: 14\r\n\r\ninvalid method".to_vec()
    );
    assert_eq!(error_response(ParseError::InvalidProtocol).body().as_slice(), b"invalid protocol");
    assert_eq!(error_response(ParseError::InvalidRequest).body().as_slice(), b"invalid request");
    assert_eq!(
        error_response(ParseError::IncompleteRequest).body().as_slice(),
        b"incomplete request"
    );
}

#[test]
fn unknown_verb_gets_a_400_reply() {
    match on_bytes(b"FOO / HTTP/1.1\r\n\r\n", 1024, false) {
        Outcome::Reply(r) => {
            assert_eq!(r.status().code(), 400);
            assert!(r.serialize().starts_with(b"HTTP/1.1 400 Bad Request\r\n"));
            assert_eq!(r.body().as_slice(), b"invalid method");
        }
        other => panic!("unexpected outcome {:?}", other),
    }
}

#[test]
fn incomplete_request_reads_more() {
    assert!(matches!(on_bytes(b"GET / HTTP/1.1\r\n", 1024, false), Outcome::ReadMore));
    assert!(matches!(on_bytes(b"", 1024, false), Outcome::ReadMore));
}

#[test]
fn full_buffer_without_request_is_invalid() {
    let buf = [b'a'; 16];
    match on_bytes(&buf, 16, false) {
        Outcome::Reply(r) => assert_eq!(r.body().as_slice(), b"invalid request"),
        other => panic!("unexpected outcome {:?}", other),
    }
}

#[test]
fn closed_peer_with_partial_request() {
    match on_bytes(b"GET / HTT", 1024, true) {
        Outcome::Reply(r) => assert_eq!(r.body().as_slice(), b"incomplete request"),
        other => panic!("unexpected outcome {:?}", other),
    }
}

struct PathEcho;

impl Handler for PathEcho {
    fn handle(&self, request: &Request) -> Response {
        Response::new(StatusCode::ok(), request.path().clone())
    }
}

#[test]
fn parsed_request_is_dispatched_to_handler() {
    match on_bytes(b"GET /hello HTTP/1.1\r\n\r\n", 1024, false) {
        Outcome::Dispatch(req) => {
            let resp = PathEcho.handle(&req);
            assert_eq!(
                resp.serialize(),
                b"HTTP/1.1 200 OK\r\nContent-Length: 6\r\n\r\n/hello".to_vec()
            );
        }
        other => panic!("unexpected outcome {:?}", other),
    }
}

#[test]
fn server_keeps_its_address() {
    let s = Server::new("127.0.0.1:8080".to_string());
    assert_eq!(s.addr(), "127.0.0.1:8080");
}

#[test]
fn accept_loop_states() {
    let s = ServerState::bound();
    assert!(s.is_listening());
    let s = s.on_accept(AcceptEvent::Accepted);
    assert!(s.is_listening());
    let s = s.on_accept(AcceptEvent::TransientError);
    assert_eq!(s, ServerState::Listening);
    let s = s.on_accept(AcceptEvent::ListenerFailed);
    assert_eq!(s, ServerState::Terminated);
    assert!(!s.is_listening());
    assert_eq!(s.on_accept(AcceptEvent::Accepted), ServerState::Terminated);
}
