//! Outgoing responses and their wire form.
use vstd::prelude::*;
use vstd::string::*;
use crate::bytes::{
    COLON, CR, LF, SP, ascii_bytes, decimal_bytes, decimal_repr, literal, push_all,
};
use crate::headers::{Headers, field_line, fields_bytes, header_insert, header_lookup};
use crate::request::content_length_name;
use crate::status_code::{StatusCode, reason_of};

verus! {

/// What a response holds, as mathematical values.
pub struct ResponseModel {
    pub status: u16,
    pub headers: Seq<(Seq<u8>, Seq<u8>)>,
    pub body: Seq<u8>,
}

/// `HTTP/1.1 {code} {reason}` and a line terminator.
pub open spec fn status_line(code: u16) -> Seq<u8> {
    ascii_bytes("HTTP/1.1 "@) + decimal_repr(code as nat) + seq![SP] + reason_of(code) + seq![
        CR,
        LF,
    ]
}

/// The `Content-Length` line that serialisation adds for a body of `n` bytes.
pub open spec fn length_line(n: nat) -> Seq<u8> {
    field_line((ascii_bytes("Content-Length"@), decimal_repr(n)))
}

/// The header section after the status line: the fields in order, then a
/// `Content-Length` line unless the fields already name one, then an empty line.
pub open spec fn head_fields(r: ResponseModel) -> Seq<u8> {
    fields_bytes(r.headers) + if header_lookup(r.headers, content_length_name()) is None {
        length_line(r.body.len())
    } else {
        Seq::empty()
    } + seq![CR, LF]
}

/// The wire form of a response.
pub open spec fn serialize_response(r: ResponseModel) -> Seq<u8> {
    status_line(r.status) + head_fields(r) + r.body
}

/// An outgoing response.
#[derive(Debug, PartialEq, Eq)]
pub struct Response {
    status: StatusCode,
    headers: Headers,
    body: Vec<u8>,
}

impl View for Response {
    type V = ResponseModel;

    closed spec fn view(&self) -> ResponseModel {
        ResponseModel { status: self.status@, headers: self.headers@, body: self.body@ }
    }
}

impl Response {
    /// A response with no header fields.
    pub fn new(status: StatusCode, body: Vec<u8>) -> (r: Response)
        ensures
            r@ == (ResponseModel {
                status: status@,
                headers: Seq::empty(),
                body: body@,
            }),
    {
        Response { status, headers: Headers::new(), body }
    }

    /// Adds a header field, merging it into a field of the same name.
    pub fn insert_header(&mut self, name: Vec<u8>, value: Vec<u8>)
        ensures
            final(self)@ == (ResponseModel {
                headers: header_insert(old(self)@.headers, name@, value@),
                ..old(self)@
            }),
    {
        self.headers.insert(name, value);
    }

    /// The status code.
    pub fn status(&self) -> (r: StatusCode)
        ensures
            r@ == self@.status,
    {
        self.status
    }

    /// The header fields, in order.
    pub fn headers(&self) -> (r: &Headers)
        ensures
            r@ == self@.headers,
    {
        &self.headers
    }

    /// The body.
    pub fn body(&self) -> (r: &Vec<u8>)
        ensures
            r@ == self@.body,
    {
        &self.body
    }

    /// The wire form: status line, header fields in insertion order, a
    /// `Content-Length` line unless one was set, an empty line, the body.
    pub fn serialize(&self) -> (r: Vec<u8>)
        ensures
            r@ == serialize_response(self@),
    {
        proof {
            reveal_strlit("HTTP/1.1 ");
            reveal_strlit("Content-Length");
            reveal_strlit("content-length");
        }
        let mut out: Vec<u8> = Vec::new();
        push_all(&mut out, literal("HTTP/1.1 "));
        let code = self.status.code();
        let digits = decimal_bytes(code as usize);
        push_all(&mut out, digits.as_slice());
        out.push(SP);
        push_all(&mut out, self.status.reason_phrase());
        out.push(CR);
        out.push(LF);
        assert(out@ =~= status_line(self@.status));
        self.headers.write_to(&mut out);
        let ghost with_fields = out@;
        if self.headers.get(literal("content-length")).is_none() {
            push_all(&mut out, literal("Content-Length"));
            out.push(COLON);
            out.push(SP);
            let len = decimal_bytes(self.body.len());
            push_all(&mut out, len.as_slice());
            out.push(CR);
            out.push(LF);
            assert(out@ =~= with_fields + length_line(self@.body.len()));
        } else {
            assert(out@ =~= with_fields + Seq::<u8>::empty());
        }
        out.push(CR);
        out.push(LF);
        push_all(&mut out, self.body.as_slice());
        assert(out@ =~= serialize_response(self@));
        out
    }
}

} // verus!
