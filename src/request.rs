//! Incoming requests and the parser that reads them from a byte buffer.
use vstd::prelude::*;
use vstd::string::*;
use crate::bytes::{
    COLON, QUESTION, SLASH, SP, ascii_bytes, bytes_eq, copy_range, decimal_value,
    find_byte, find_byte_exec, find_crlf, find_crlf_from, lemma_find_byte_from,
    lemma_find_crlf_from, literal, parse_decimal, split_bytes, split_on, trim, trim_range, views,
    Decimal,
};
use crate::error::ParseError;
use crate::headers::{Headers, header_insert, header_lookup};
use crate::method::{Method, method_of};
use crate::query_string::{QueryString, query_of};

verus! {

/// What a request holds, as mathematical values.
pub struct RequestModel {
    pub method: Method,
    pub path: Seq<u8>,
    pub query: Option<Map<Seq<u8>, Seq<Seq<u8>>>>,
    pub headers: Seq<(Seq<u8>, Seq<u8>)>,
    pub body: Seq<u8>,
}

/// The name of the field that gives the body's length, as the parser looks it up.
pub open spec fn content_length_name() -> Seq<u8> {
    ascii_bytes("content-length"@)
}

/// Whether a token names a supported protocol version.
pub open spec fn is_protocol(t: Seq<u8>) -> bool {
    t == ascii_bytes("HTTP/1.1"@) || t == ascii_bytes("HTTP/1.0"@)
}

/// A request target split at its first `?` into the path and the raw query.
pub open spec fn split_target(t: Seq<u8>) -> (Seq<u8>, Option<Seq<u8>>) {
    match find_byte(t, QUESTION) {
        Some(i) => (t.subrange(0, i as int), Some(t.subrange(i as int + 1, t.len() as int))),
        None => (t, None),
    }
}

/// A header line split at its first `:` into a name and a value without
/// surrounding white space; `None` for a line without `:`.
pub open spec fn header_field(line: Seq<u8>) -> Option<(Seq<u8>, Seq<u8>)> {
    match find_byte(line, COLON) {
        Some(c) => Some(
            (line.subrange(0, c as int), trim(line.subrange(c as int + 1, line.len() as int))),
        ),
        None => None,
    }
}

/// Reads the header lines of `buf` from `pos` up to the first empty line,
/// adding each to `acc`; gives the fields and where the body starts.
pub open spec fn parse_headers(buf: Seq<u8>, pos: nat, acc: Seq<(Seq<u8>, Seq<u8>)>) -> Result<
    (Seq<(Seq<u8>, Seq<u8>)>, nat),
    ParseError,
>
    decreases buf.len() - pos,
{
    match find_crlf_from(buf, pos) {
        None => Err(ParseError::IncompleteRequest),
        Some(e) => {
            if e == pos {
                Ok((acc, e + 2))
            } else {
                match header_field(buf.subrange(pos as int, e as int)) {
                    None => Err(ParseError::InvalidRequest),
                    Some(f) => {
                        proof {
                            lemma_find_crlf_from(buf, pos);
                        }
                        parse_headers(buf, e + 2, header_insert(acc, f.0, f.1))
                    },
                }
            }
        },
    }
}

/// The body that follows the header section at `start`: as many bytes as a
/// numeric `Content-Length` field gives, or none.
pub open spec fn body_of(buf: Seq<u8>, headers: Seq<(Seq<u8>, Seq<u8>)>, start: nat) -> Result<
    Seq<u8>,
    ParseError,
> {
    match header_lookup(headers, content_length_name()) {
        Some(v) => match decimal_value(v) {
            Some(n) => if start + n <= buf.len() {
                Ok(buf.subrange(start as int, (start + n) as int))
            } else {
                Err(ParseError::IncompleteRequest)
            },
            None => Ok(Seq::empty()),
        },
        None => Ok(Seq::empty()),
    }
}

/// What the parser makes of a buffer.
pub open spec fn parse_request(buf: Seq<u8>) -> Result<RequestModel, ParseError> {
    match find_crlf_from(buf, 0) {
        None => Err(ParseError::IncompleteRequest),
        Some(e) => {
            let tokens = split_on(buf.subrange(0, e as int), SP);
            if tokens.len() != 3 {
                Err(ParseError::InvalidRequest)
            } else {
                match method_of(tokens[0]) {
                    None => Err(ParseError::InvalidMethod),
                    Some(method) => {
                        let (path, raw_query) = split_target(tokens[1]);
                        if path.len() == 0 || path[0] != SLASH {
                            Err(ParseError::InvalidRequest)
                        } else if !is_protocol(tokens[2]) {
                            Err(ParseError::InvalidProtocol)
                        } else {
                            match parse_headers(buf, e + 2, Seq::empty()) {
                                Err(err) => Err(err),
                                Ok((headers, start)) => match body_of(buf, headers, start) {
                                    Err(err) => Err(err),
                                    Ok(body) => Ok(
                                        RequestModel {
                                            method,
                                            path,
                                            query: match raw_query {
                                                Some(q) => Some(query_of(q)),
                                                None => None,
                                            },
                                            headers,
                                            body,
                                        },
                                    ),
                                },
                            }
                        }
                    },
                }
            }
        },
    }
}

/// A parsed request: built once by the parser and read-only afterwards.
#[derive(Debug, PartialEq, Eq)]
pub struct Request {
    method: Method,
    path: Vec<u8>,
    query_string: Option<QueryString>,
    headers: Headers,
    body: Vec<u8>,
}

impl View for Request {
    type V = RequestModel;

    closed spec fn view(&self) -> RequestModel {
        RequestModel {
            method: self.method,
            path: self.path@,
            query: match self.query_string {
                Some(q) => Some(q@),
                None => None,
            },
            headers: self.headers@,
            body: self.body@,
        }
    }
}

/// Reads the header lines from `pos`, as `parse_headers` describes.
fn read_headers(buf: &[u8], pos: usize) -> (r: Result<(Headers, usize), ParseError>)
    requires
        pos <= buf@.len(),
    ensures
        match r {
            Ok((h, start)) => parse_headers(buf@, pos as nat, Seq::empty()) == Ok::<
                _,
                ParseError,
            >((h@, start as nat)),
            Err(e) => parse_headers(buf@, pos as nat, Seq::empty()) == Err::<
                (Seq<(Seq<u8>, Seq<u8>)>, nat),
                _,
            >(e),
        },
{
    let mut headers = Headers::new();
    let mut p: usize = pos;
    let n = buf.len();
    loop
        invariant
            n == buf@.len(),
            p <= n,
            parse_headers(buf@, p as nat, headers@) == parse_headers(
                buf@,
                pos as nat,
                Seq::empty(),
            ),
        decreases buf@.len() - p,
    {
        proof {
            lemma_find_crlf_from(buf@, p as nat);
        }
        match find_crlf(buf, p) {
            None => {
                return Err(ParseError::IncompleteRequest);
            },
            Some(e) => {
                assert(e + 1 < n);
                if e == p {
                    return Ok((headers, e + 2));
                }
                let line = &buf[p..e];
                proof {
                    lemma_find_byte_from(line@, COLON, 0);
                }
                match find_byte_exec(line, COLON, 0) {
                    None => {
                        return Err(ParseError::InvalidRequest);
                    },
                    Some(c) => {
                        let n = line.len();
                        let name = copy_range(line, 0, c);
                        let value = trim_range(line, c + 1, n);
                        headers.insert(name, value);
                        p = e + 2;
                    },
                }
            },
        }
    }
}

/// The body that follows the header section, as `body_of` describes.
fn read_body(buf: &[u8], headers: &Headers, start: usize) -> (r: Result<Vec<u8>, ParseError>)
    requires
        start <= buf@.len(),
    ensures
        match r {
            Ok(b) => body_of(buf@, headers@, start as nat) == Ok::<_, ParseError>(b@),
            Err(e) => body_of(buf@, headers@, start as nat) == Err::<Seq<u8>, _>(e),
        },
{
    proof {
        reveal_strlit("content-length");
    }
    match headers.get(literal("content-length")) {
        None => {
            let empty: Vec<u8> = Vec::new();
            assert(empty@ =~= Seq::<u8>::empty());
            Ok(empty)
        },
        Some(v) => {
            let available = buf.len() - start;
            match parse_decimal(v.as_slice(), available) {
                Decimal::NotANumber => {
                    let empty: Vec<u8> = Vec::new();
                    assert(empty@ =~= Seq::<u8>::empty());
                    Ok(empty)
                },
                Decimal::Within(n) => Ok(copy_range(buf, start, start + n)),
                Decimal::Beyond => Err(ParseError::IncompleteRequest),
            }
        },
    }
}

impl Request {
    /// Parses a request from a byte buffer. Never panics: each way in which
    /// the buffer can fail to be a request gives its own error.
    pub fn parse(buf: &[u8]) -> (r: Result<Request, ParseError>)
        ensures
            match r {
                Ok(req) => parse_request(buf@) == Ok::<_, ParseError>(req@),
                Err(e) => parse_request(buf@) == Err::<RequestModel, _>(e),
            },
    {
        proof {
            lemma_find_crlf_from(buf@, 0);
        }
        let e = match find_crlf(buf, 0) {
            None => {
                return Err(ParseError::IncompleteRequest);
            },
            Some(e) => e,
        };
        let n = buf.len();
        assert(e + 1 < n);
        let line = &buf[0..e];
        let tokens = split_bytes(line, SP);
        if tokens.len() != 3 {
            return Err(ParseError::InvalidRequest);
        }
        proof {
            assert(views(tokens@)[0] == tokens@[0]@);
            assert(views(tokens@)[1] == tokens@[1]@);
            assert(views(tokens@)[2] == tokens@[2]@);
        }
        let method = match Method::from_bytes(tokens[0].as_slice()) {
            Ok(m) => m,
            Err(err) => {
                return Err(err);
            },
        };
        let target = tokens[1].as_slice();
        proof {
            lemma_find_byte_from(target@, QUESTION, 0);
        }
        let (path, raw_query) = match find_byte_exec(target, QUESTION, 0) {
            Some(i) => {
                let n = target.len();
                (copy_range(target, 0, i), Some(copy_range(target, i + 1, n)))
            },
            None => (copy_range(target, 0, target.len()), None),
        };
        if path.len() == 0 || path[0] != SLASH {
            return Err(ParseError::InvalidRequest);
        }
        proof {
            reveal_strlit("HTTP/1.1");
            reveal_strlit("HTTP/1.0");
        }
        let protocol = tokens[2].as_slice();
        if !bytes_eq(protocol, literal("HTTP/1.1")) && !bytes_eq(protocol, literal("HTTP/1.0")) {
            return Err(ParseError::InvalidProtocol);
        }
        let (headers, start) = match read_headers(buf, e + 2) {
            Ok(hs) => hs,
            Err(err) => {
                return Err(err);
            },
        };
        proof {
            lemma_parse_headers_bound(buf@, (e + 2) as nat, Seq::empty());
        }
        let body = match read_body(buf, &headers, start) {
            Ok(b) => b,
            Err(err) => {
                return Err(err);
            },
        };
        let query_string = match raw_query {
            Some(q) => Some(QueryString::parse(q.as_slice())),
            None => None,
        };
        let req = Request { method, path, query_string, headers, body };
        proof {
            let model = parse_request(buf@);
            assert(model is Ok);
            assert(model->Ok_0.method == req@.method);
            assert(model->Ok_0.path == req@.path);
            assert(model->Ok_0.headers == req@.headers);
            assert(model->Ok_0.body == req@.body);
            assert(req@.query == match split_target(tokens@[1]@).1 {
                Some(q) => Some(query_of(q)),
                None => None::<Map<Seq<u8>, Seq<Seq<u8>>>>,
            });
            assert(model->Ok_0.query == req@.query);
        }
        Ok(req)
    }

    /// The verb of the request line.
    pub fn method(&self) -> (r: Method)
        ensures
            r == self@.method,
    {
        self.method
    }

    /// The path: the request target up to its first `?`.
    pub fn path(&self) -> (r: &Vec<u8>)
        ensures
            r@ == self@.path,
    {
        &self.path
    }

    /// The query string, when the request target has a `?`.
    pub fn query_string(&self) -> (r: &Option<QueryString>)
        ensures
            match r {
                Some(q) => self@.query == Some(q@),
                None => self@.query is None,
            },
    {
        &self.query_string
    }

    /// The header fields, in order of first appearance.
    pub fn headers(&self) -> (r: &Headers)
        ensures
            r@ == self@.headers,
    {
        &self.headers
    }

    /// The value of a header field, matching its name without regard to case.
    pub fn header(&self, name: &[u8]) -> (r: Option<&Vec<u8>>)
        ensures
            match r {
                Some(v) => header_lookup(self@.headers, name@) == Some(v@),
                None => header_lookup(self@.headers, name@) is None,
            },
    {
        self.headers.get(name)
    }

    /// The body.
    pub fn body(&self) -> (r: &Vec<u8>)
        ensures
            r@ == self@.body,
    {
        &self.body
    }
}

/// The body of a parsed header section starts within the buffer.
pub proof fn lemma_parse_headers_bound(buf: Seq<u8>, pos: nat, acc: Seq<(Seq<u8>, Seq<u8>)>)
    ensures
        parse_headers(buf, pos, acc) matches Ok((_, start)) ==> pos + 2 <= start <= buf.len(),
    decreases buf.len() - pos,
{
    lemma_find_crlf_from(buf, pos);
    if let Some(e) = find_crlf_from(buf, pos) {
        if e != pos {
            if let Some(f) = header_field(buf.subrange(pos as int, e as int)) {
                lemma_parse_headers_bound(buf, e + 2, header_insert(acc, f.0, f.1));
            }
        }
    }
}

} // verus!
