//! What the request parser does on whole classes of buffers.
use vstd::prelude::*;
use crate::bytes::{
    AMPERSAND, CR, EQUALS, LF, QUESTION, SLASH, SP, ascii_bytes, crlf_at, find_crlf_from,
    lemma_find_byte_at, lemma_find_crlf_at, lemma_find_crlf_from, lemma_split_on_join,
    lemma_split_on_single, split_on,
};
use crate::connection::{Outcome, error_model, outcome_spec};
use crate::error::ParseError;
use crate::headers::{header_index_from, header_lookup};
use crate::method::{Method, lemma_method_token, method_of};
use crate::query_string::{pair_of, query_of, query_pairs, values_for};
use crate::request::{
    body_of, header_field, is_protocol, lemma_parse_headers_bound, parse_headers,
    parse_request, split_target,
};

verus! {

/// Whether `s` holds no byte `b`.
pub open spec fn excludes(s: Seq<u8>, b: u8) -> bool {
    forall|i: int| 0 <= i < s.len() ==> s[i] != b
}

/// The protocol token `HTTP/1.1`.
pub open spec fn http_1_1() -> Seq<u8> {
    ascii_bytes("HTTP/1.1"@)
}

/// How many bytes of `buf` the request takes: its head and its body.
pub open spec fn request_len(buf: Seq<u8>) -> nat {
    match find_crlf_from(buf, 0) {
        Some(e) => match parse_headers(buf, e + 2, Seq::empty()) {
            Ok((h, start)) => match body_of(buf, h, start) {
                Ok(b) => start + b.len(),
                Err(_) => 0,
            },
            Err(_) => 0,
        },
        None => 0,
    }
}

proof fn lemma_excludes_concat(a: Seq<u8>, b: Seq<u8>, x: u8)
    requires
        excludes(a, x),
        excludes(b, x),
    ensures
        excludes(a + b, x),
{
    assert forall|i: int| 0 <= i < (a + b).len() implies (a + b)[i] != x by {
        if i >= a.len() {
            assert((a + b)[i] == b[i - a.len()]);
        }
    }
}

proof fn lemma_excludes_one(b: u8, x: u8)
    requires
        b != x,
    ensures
        excludes(seq![b], x),
{
}

proof fn lemma_http_1_1()
    ensures
        is_protocol(http_1_1()),
        excludes(http_1_1(), SP),
        excludes(http_1_1(), CR),
{
    reveal_strlit("HTTP/1.1");
    assert(http_1_1() =~= seq![72u8, 84, 84, 80, 47, 49, 46, 49]);
}

proof fn lemma_token_excludes(m: Method)
    ensures
        method_of(m.token()) == Some(m),
        excludes(m.token(), SP),
        excludes(m.token(), CR),
{
    lemma_method_token(m);
}

/// A line without `CR` followed by a line terminator: the first
/// terminator is the one after the line.
proof fn lemma_first_line(line: Seq<u8>, rest: Seq<u8>)
    requires
        excludes(line, CR),
    ensures
        find_crlf_from(line + seq![CR, LF] + rest, 0) == Some(line.len()),
        (line + seq![CR, LF] + rest).subrange(0, line.len() as int) == line,
{
    let buf = line + seq![CR, LF] + rest;
    assert forall|j: int| 0 <= j < line.len() implies !crlf_at(buf, j) by {
        assert(buf[j] == line[j]);
    }
    assert(crlf_at(buf, line.len() as int));
    lemma_find_crlf_at(buf, 0, line.len());
    assert(buf.subrange(0, line.len() as int) =~= line);
}

/// Three tokens joined by single spaces split back into those tokens.
proof fn lemma_three_tokens(a: Seq<u8>, b: Seq<u8>, c: Seq<u8>)
    requires
        excludes(a, SP),
        excludes(b, SP),
        excludes(c, SP),
    ensures
        split_on(a + seq![SP] + b + seq![SP] + c, SP) == seq![a, b, c],
{
    lemma_split_on_join(a + seq![SP] + b, c, SP);
    lemma_split_on_join(a, b, SP);
    lemma_split_on_single(a, SP);
    lemma_split_on_single(b, SP);
    lemma_split_on_single(c, SP);
    assert(split_on(a + seq![SP] + b + seq![SP] + c, SP) =~= seq![a, b, c]);
}

/// A `key=value` pair whose key holds no `=`.
proof fn lemma_pair(k: Seq<u8>, v: Seq<u8>)
    requires
        excludes(k, EQUALS),
    ensures
        pair_of(k + seq![EQUALS] + v) == (k, v),
{
    let p = k + seq![EQUALS] + v;
    assert forall|j: int| 0 <= j < k.len() implies p[j] != EQUALS by {
        assert(p[j] == k[j]);
    }
    lemma_find_byte_at(p, EQUALS, 0, k.len());
    assert(p.subrange(0, k.len() as int) =~= k);
    assert(p.subrange(k.len() as int + 1, p.len() as int) =~= v);
}

/// No field has a name when there are no fields.
proof fn lemma_lookup_empty(name: Seq<u8>)
    ensures
        header_lookup(Seq::empty(), name) is None,
{
    assert(header_index_from(Seq::empty(), name, 0) is None);
}

/// A request whose query repeats a key parses to its verb and path, and
/// maps that key to both values in the order given.
pub proof fn lemma_parse_repeated_key(
    m: Method,
    path: Seq<u8>,
    k: Seq<u8>,
    v1: Seq<u8>,
    v2: Seq<u8>,
)
    requires
        path.len() > 0,
        path[0] == SLASH,
        excludes(path, SP),
        excludes(path, CR),
        excludes(path, QUESTION),
        excludes(k, SP),
        excludes(k, CR),
        excludes(k, AMPERSAND),
        excludes(k, EQUALS),
        excludes(v1, SP),
        excludes(v1, CR),
        excludes(v1, AMPERSAND),
        excludes(v2, SP),
        excludes(v2, CR),
        excludes(v2, AMPERSAND),
    ensures
        ({
            let query = k + seq![EQUALS] + v1 + seq![AMPERSAND] + k + seq![EQUALS] + v2;
            let buf = m.token() + seq![SP] + path + seq![QUESTION] + query + seq![SP] + http_1_1()
                + seq![CR, LF, CR, LF];
            &&& parse_request(buf) is Ok
            &&& parse_request(buf)->Ok_0.method == m
            &&& parse_request(buf)->Ok_0.path == path
            &&& parse_request(buf)->Ok_0.query == Some(query_of(query))
            &&& query_of(query).contains_key(k)
            &&& query_of(query)[k] == seq![v1, v2]
        }),
{
    let first_pair = k + seq![EQUALS] + v1;
    let second_pair = k + seq![EQUALS] + v2;
    let query = k + seq![EQUALS] + v1 + seq![AMPERSAND] + k + seq![EQUALS] + v2;
    let target = path + seq![QUESTION] + query;
    let tok = m.token();
    let line = tok + seq![SP] + target + seq![SP] + http_1_1();
    let buf = m.token() + seq![SP] + path + seq![QUESTION] + query + seq![SP] + http_1_1() + seq![
        CR,
        LF,
        CR,
        LF,
    ];
    lemma_token_excludes(m);
    lemma_http_1_1();
    // Neither the target nor the line holds a space or a carriage return.
    lemma_excludes_one(EQUALS, SP);
    lemma_excludes_one(EQUALS, CR);
    lemma_excludes_one(EQUALS, AMPERSAND);
    lemma_excludes_one(AMPERSAND, SP);
    lemma_excludes_one(AMPERSAND, CR);
    lemma_excludes_one(QUESTION, SP);
    lemma_excludes_one(QUESTION, CR);
    lemma_excludes_one(SP, CR);
    lemma_excludes_concat(k, seq![EQUALS], SP);
    lemma_excludes_concat(k + seq![EQUALS], v1, SP);
    lemma_excludes_concat(k + seq![EQUALS], v2, SP);
    lemma_excludes_concat(k, seq![EQUALS], CR);
    lemma_excludes_concat(k + seq![EQUALS], v1, CR);
    lemma_excludes_concat(k + seq![EQUALS], v2, CR);
    lemma_excludes_concat(k, seq![EQUALS], AMPERSAND);
    lemma_excludes_concat(k + seq![EQUALS], v1, AMPERSAND);
    lemma_excludes_concat(k + seq![EQUALS], v2, AMPERSAND);
    assert(query =~= first_pair + seq![AMPERSAND] + second_pair);
    lemma_excludes_concat(first_pair, seq![AMPERSAND], SP);
    lemma_excludes_concat(first_pair + seq![AMPERSAND], second_pair, SP);
    lemma_excludes_concat(first_pair, seq![AMPERSAND], CR);
    lemma_excludes_concat(first_pair + seq![AMPERSAND], second_pair, CR);
    lemma_excludes_concat(path, seq![QUESTION], SP);
    lemma_excludes_concat(path + seq![QUESTION], query, SP);
    lemma_excludes_concat(path, seq![QUESTION], CR);
    lemma_excludes_concat(path + seq![QUESTION], query, CR);
    lemma_excludes_concat(tok, seq![SP], CR);
    lemma_excludes_concat(tok + seq![SP], target, CR);
    lemma_excludes_concat(tok + seq![SP] + target, seq![SP], CR);
    lemma_excludes_concat(tok + seq![SP] + target + seq![SP], http_1_1(), CR);
    // The request line ends at the first terminator, and splits into three tokens.
    assert(buf =~= line + seq![CR, LF] + seq![CR, LF]);
    lemma_first_line(line, seq![CR, LF]);
    let e = line.len();
    lemma_three_tokens(tok, target, http_1_1());
    // The target splits at its `?`.
    assert forall|j: int| 0 <= j < path.len() implies target[j] != QUESTION by {
        assert(target[j] == path[j]);
    }
    lemma_find_byte_at(target, QUESTION, 0, path.len());
    assert(target.subrange(0, path.len() as int) =~= path);
    assert(target.subrange(path.len() as int + 1, target.len() as int) =~= query);
    assert(split_target(target) == (path, Some(query)));
    // An empty line follows at once: no fields and no body.
    assert(crlf_at(buf, e as int + 2));
    lemma_find_crlf_at(buf, e + 2, e + 2);
    assert(parse_headers(buf, e + 2, Seq::empty()) == Ok::<_, ParseError>(
        (Seq::<(Seq<u8>, Seq<u8>)>::empty(), e + 4),
    ));
    lemma_lookup_empty(crate::request::content_length_name());
    // The query gives the key both values.
    lemma_split_on_join(first_pair, second_pair, AMPERSAND);
    lemma_split_on_single(first_pair, AMPERSAND);
    lemma_split_on_single(second_pair, AMPERSAND);
    lemma_pair(k, v1);
    lemma_pair(k, v2);
    let pairs = query_pairs(query);
    assert(pairs =~= seq![(k, v1), (k, v2)]);
    assert(pairs.drop_last() =~= seq![(k, v1)]);
    assert(pairs.drop_last().drop_last() =~= Seq::<(Seq<u8>, Seq<u8>)>::empty());
    assert(values_for(pairs.drop_last().drop_last(), k) =~= Seq::<Seq<u8>>::empty());
    assert(values_for(pairs.drop_last(), k) =~= seq![v1]);
    assert(values_for(pairs, k) =~= seq![v1, v2]);
}

/// A request line whose first token is no supported verb fails with
/// `InvalidMethod`, and the connection routine answers it with a 400 response.
pub proof fn lemma_unknown_verb(
    verb: Seq<u8>,
    target: Seq<u8>,
    protocol: Seq<u8>,
    rest: Seq<u8>,
    cap: nat,
    closed: bool,
    o: Outcome,
)
    requires
        method_of(verb) is None,
        excludes(verb, SP),
        excludes(verb, CR),
        excludes(target, SP),
        excludes(target, CR),
        excludes(protocol, SP),
        excludes(protocol, CR),
    ensures
        ({
            let buf = verb + seq![SP] + target + seq![SP] + protocol + seq![CR, LF] + rest;
            &&& parse_request(buf) == Err::<crate::request::RequestModel, _>(
                ParseError::InvalidMethod,
            )
            &&& outcome_spec(buf, cap, closed, o) ==> (o matches Outcome::Reply(r) && r@
                == error_model(ParseError::InvalidMethod) && r@.status == 400)
        }),
{
    let line = verb + seq![SP] + target + seq![SP] + protocol;
    lemma_excludes_one(SP, CR);
    lemma_excludes_concat(verb, seq![SP], CR);
    lemma_excludes_concat(verb + seq![SP], target, CR);
    lemma_excludes_concat(verb + seq![SP] + target, seq![SP], CR);
    lemma_excludes_concat(verb + seq![SP] + target + seq![SP], protocol, CR);
    lemma_first_line(line, rest);
    lemma_three_tokens(verb, target, protocol);
}

/// The search for a line terminator in a prefix of `s` finds the same one
/// when it lies wholly in the prefix, and none otherwise.
proof fn lemma_find_crlf_take(s: Seq<u8>, k: int, i: nat)
    requires
        0 <= k <= s.len(),
    ensures
        match find_crlf_from(s, i) {
            Some(e) => if e + 2 <= k {
                find_crlf_from(s.take(k), i) == Some(e)
            } else {
                find_crlf_from(s.take(k), i) is None
            },
            None => find_crlf_from(s.take(k), i) is None,
        },
    decreases s.len() - i,
{
    let t = s.take(k);
    lemma_find_crlf_from(s, i);
    if i + 1 >= s.len() {
    } else if crlf_at(s, i as int) {
        if i + 2 <= k {
            assert(crlf_at(t, i as int));
        }
    } else {
        lemma_find_crlf_take(s, k, i + 1);
        if i + 1 < k {
            assert(!crlf_at(t, i as int));
        }
    }
}

/// Reading the header section of a prefix of `buf`: incomplete when the
/// prefix ends before the section does, the same result otherwise.
proof fn lemma_parse_headers_take(
    buf: Seq<u8>,
    pos: nat,
    acc: Seq<(Seq<u8>, Seq<u8>)>,
    k: int,
)
    requires
        0 <= k <= buf.len(),
        parse_headers(buf, pos, acc) is Ok,
    ensures
        k < parse_headers(buf, pos, acc)->Ok_0.1 ==> parse_headers(buf.take(k), pos, acc)
            == Err::<(Seq<(Seq<u8>, Seq<u8>)>, nat), _>(ParseError::IncompleteRequest),
        k >= parse_headers(buf, pos, acc)->Ok_0.1 ==> parse_headers(buf.take(k), pos, acc)
            == parse_headers(buf, pos, acc),
    decreases buf.len() - pos,
{
    lemma_find_crlf_from(buf, pos);
    lemma_find_crlf_take(buf, k, pos);
    let e = find_crlf_from(buf, pos)->0;
    if e != pos {
        let f = header_field(buf.subrange(pos as int, e as int))->0;
        let next = crate::headers::header_insert(acc, f.0, f.1);
        lemma_parse_headers_bound(buf, e + 2, next);
        if e + 2 <= k {
            assert(buf.take(k).subrange(pos as int, e as int) =~= buf.subrange(
                pos as int,
                e as int,
            ));
            lemma_parse_headers_take(buf, e + 2, next, k);
        }
    }
}

/// A buffer that holds a request, cut short anywhere before the request's
/// last byte, is an incomplete request; once the rest of the request has
/// arrived the same request is parsed, whatever bytes follow it.
pub proof fn lemma_truncated_request(buf: Seq<u8>, k: int)
    requires
        parse_request(buf) is Ok,
        0 <= k <= buf.len(),
    ensures
        k < request_len(buf) ==> parse_request(buf.take(k)) == Err::<
            crate::request::RequestModel,
            _,
        >(ParseError::IncompleteRequest),
        k >= request_len(buf) ==> parse_request(buf.take(k)) == parse_request(buf),
{
    let t = buf.take(k);
    lemma_find_crlf_take(buf, k, 0);
    let e = find_crlf_from(buf, 0)->0;
    let (h, start) = parse_headers(buf, e + 2, Seq::empty())->Ok_0;
    lemma_parse_headers_bound(buf, e + 2, Seq::empty());
    if e + 2 <= k {
        assert(t.subrange(0, e as int) =~= buf.subrange(0, e as int));
        lemma_parse_headers_take(buf, e + 2, Seq::empty(), k);
        if k >= start {
            let b = body_of(buf, h, start)->Ok_0;
            if k >= start + b.len() {
                assert(t.subrange(start as int, (start + b.len()) as int) =~= buf.subrange(
                    start as int,
                    (start + b.len()) as int,
                ));
            }
        }
    }
}

} // verus!
