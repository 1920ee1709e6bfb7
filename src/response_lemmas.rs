//! What holds of the wire form of every response.
use vstd::prelude::*;
use crate::bytes::{
    COLON, CR, LF, SP, ascii_bytes, crlf_at, decimal_repr, decimal_value, is_ows,
    lemma_decimal_repr_digits, lemma_decimal_round_trip, lemma_find_byte_at, lemma_find_crlf_at,
    lemma_trim_end_at, lemma_trim_start_at, lower_all, same_ignoring_case,
};
use crate::error::ParseError;
use crate::headers::{
    field_line, fields_bytes, header_index, header_index_from, header_insert, header_lookup,
};
use crate::request::{body_of, content_length_name, header_field, parse_headers};
use crate::request_lemmas::excludes;
use crate::response::{ResponseModel, head_fields, length_line, serialize_response, status_line};
use crate::status_code::{code_of_reason, is_supported, lemma_reason_round_trip, reason_of};

verus! {

/// A field that reads back as itself: its name holds no `:` and no `CR`,
/// its value holds no `CR` and does not start or end with white space.
pub open spec fn field_ok(f: (Seq<u8>, Seq<u8>)) -> bool {
    &&& excludes(f.0, COLON)
    &&& excludes(f.0, CR)
    &&& excludes(f.1, CR)
    &&& f.1.len() > 0 ==> !is_ows(f.1[0]) && !is_ows(f.1.last())
}

/// The list that results from adding `hs` one after the other to `acc`.
pub open spec fn insert_all(acc: Seq<(Seq<u8>, Seq<u8>)>, hs: Seq<(Seq<u8>, Seq<u8>)>) -> Seq<
    (Seq<u8>, Seq<u8>),
>
    decreases hs.len(),
{
    if hs.len() == 0 {
        acc
    } else {
        insert_all(header_insert(acc, hs[0].0, hs[0].1), hs.drop_first())
    }
}

/// For a supported code, the wire form begins with the status line
/// `HTTP/1.1 {code} {reason}` and a line terminator, where `reason` is the
/// table's phrase for the code.
pub proof fn lemma_serialized_status_line(r: ResponseModel)
    requires
        is_supported(r.status),
    ensures
        ({
            let line = ascii_bytes("HTTP/1.1 "@) + decimal_repr(r.status as nat) + seq![SP]
                + reason_of(r.status) + seq![CR, LF];
            &&& serialize_response(r).take(line.len() as int) == line
            &&& reason_of(r.status).len() > 0
            &&& code_of_reason(reason_of(r.status)) == Some(r.status)
        }),
{
    let line = status_line(r.status);
    assert(serialize_response(r).take(line.len() as int) =~= line);
    lemma_reason_round_trip(r.status);
}

proof fn lemma_fields_bytes_concat(a: Seq<(Seq<u8>, Seq<u8>)>, b: Seq<(Seq<u8>, Seq<u8>)>)
    ensures
        fields_bytes(a + b) == fields_bytes(a) + fields_bytes(b),
    decreases b.len(),
{
    if b.len() == 0 {
        assert(a + b =~= a);
        assert(fields_bytes(a) + fields_bytes(b) =~= fields_bytes(a));
    } else {
        lemma_fields_bytes_concat(a, b.drop_last());
        assert((a + b).drop_last() =~= a + b.drop_last());
        assert(fields_bytes(a + b) =~= fields_bytes(a) + fields_bytes(b));
    }
}

proof fn lemma_fields_bytes_one(f: (Seq<u8>, Seq<u8>))
    ensures
        fields_bytes(seq![f]) == field_line(f),
{
    assert(seq![f].drop_last() =~= Seq::<(Seq<u8>, Seq<u8>)>::empty());
    assert(fields_bytes(seq![f].drop_last()) == Seq::<u8>::empty());
    assert(fields_bytes(seq![f]) =~= field_line(f));
}

proof fn lemma_fields_bytes_first(hs: Seq<(Seq<u8>, Seq<u8>)>)
    requires
        hs.len() > 0,
    ensures
        fields_bytes(hs) == field_line(hs[0]) + fields_bytes(hs.drop_first()),
{
    lemma_fields_bytes_concat(seq![hs[0]], hs.drop_first());
    assert(seq![hs[0]] + hs.drop_first() =~= hs);
    lemma_fields_bytes_one(hs[0]);
}

proof fn lemma_index_some(h: Seq<(Seq<u8>, Seq<u8>)>, name: Seq<u8>, i: nat)
    ensures
        header_index_from(h, name, i) matches Some(k) ==> i <= k < h.len() && same_ignoring_case(
            h[k as int].0,
            name,
        ),
    decreases h.len() - i,
{
    if i < h.len() {
        lemma_index_some(h, name, i + 1);
    }
}

/// The line of a well-formed field reads back as that field.
proof fn lemma_field_reads_back(f: (Seq<u8>, Seq<u8>))
    requires
        field_ok(f),
    ensures
        header_field(f.0 + seq![COLON, SP] + f.1) == Some(f),
{
    let line = f.0 + seq![COLON, SP] + f.1;
    assert forall|j: int| 0 <= j < f.0.len() implies line[j] != COLON by {
        assert(line[j] == f.0[j]);
    }
    lemma_find_byte_at(line, COLON, 0, f.0.len());
    assert(line.subrange(0, f.0.len() as int) =~= f.0);
    let rest = line.subrange(f.0.len() as int + 1, line.len() as int);
    assert(rest =~= seq![SP] + f.1);
    lemma_trim_start_at(rest, 1);
    assert(rest.subrange(1, rest.len() as int) =~= f.1);
    lemma_trim_end_at(f.1, f.1.len() as int);
    assert(f.1.subrange(0, f.1.len() as int) =~= f.1);
}

/// Reading the lines of well-formed fields adds those fields in order.
proof fn lemma_read_fields(
    bytes: Seq<u8>,
    pos: nat,
    acc: Seq<(Seq<u8>, Seq<u8>)>,
    hs: Seq<(Seq<u8>, Seq<u8>)>,
)
    requires
        forall|i: int| 0 <= i < hs.len() ==> field_ok(#[trigger] hs[i]),
        pos + fields_bytes(hs).len() <= bytes.len(),
        bytes.subrange(pos as int, (pos + fields_bytes(hs).len()) as int) == fields_bytes(hs),
    ensures
        parse_headers(bytes, pos, acc) == parse_headers(
            bytes,
            pos + fields_bytes(hs).len(),
            insert_all(acc, hs),
        ),
    decreases hs.len(),
{
    if hs.len() > 0 {
        let f = hs[0];
        assert(field_ok(f));
        let text = f.0 + seq![COLON, SP] + f.1;
        let line = field_line(f);
        let rest = fields_bytes(hs.drop_first());
        lemma_fields_bytes_first(hs);
        let e = pos + text.len();
        // The first terminator from `pos` ends the field's text.
        assert forall|j: int| pos <= j < e implies !crlf_at(bytes, j) by {
            assert(bytes[j] == fields_bytes(hs)[j - pos]);
            assert(fields_bytes(hs)[j - pos] == line[j - pos]);
            assert(line[j - pos] == text[j - pos]);
            if j - pos < f.0.len() {
                assert(text[j - pos] == f.0[j - pos]);
            } else if j - pos >= f.0.len() + 2 {
                assert(text[j - pos] == f.1[j - pos - f.0.len() - 2]);
            }
        }
        assert(bytes[e as int] == fields_bytes(hs)[text.len() as int]);
        assert(bytes[e as int + 1] == fields_bytes(hs)[text.len() as int + 1]);
        assert(crlf_at(bytes, e as int));
        lemma_find_crlf_at(bytes, pos, e);
        assert(bytes.subrange(pos as int, e as int) =~= text);
        lemma_field_reads_back(f);
        let fbh = fields_bytes(hs);
        assert forall|i: int| 0 <= i < rest.len() implies bytes[e + 2 + i] == rest[i] by {
            assert(bytes.subrange(pos as int, (pos + fbh.len()) as int)[line.len() + i] == bytes[e
                + 2 + i]);
            assert(fbh[line.len() + i] == rest[i]);
        }
        assert(bytes.subrange((e + 2) as int, (e + 2 + rest.len()) as int) =~= rest);
        assert forall|i: int| 0 <= i < hs.drop_first().len() implies field_ok(
            #[trigger] hs.drop_first()[i],
        ) by {
            assert(hs.drop_first()[i] == hs[i + 1]);
        }
        lemma_read_fields(bytes, e + 2, header_insert(acc, f.0, f.1), hs.drop_first());
    }
}

proof fn lemma_index_none(h: Seq<(Seq<u8>, Seq<u8>)>, name: Seq<u8>, i: nat)
    ensures
        header_index_from(h, name, i) is None <==> forall|j: int|
            i <= j < h.len() ==> !same_ignoring_case(#[trigger] h[j].0, name),
    decreases h.len() - i,
{
    if i < h.len() {
        lemma_index_none(h, name, i + 1);
    }
}

/// Adding fields whose names differ from `name` never brings in a field
/// named `name`.
proof fn lemma_insert_all_keeps_out(
    acc: Seq<(Seq<u8>, Seq<u8>)>,
    hs: Seq<(Seq<u8>, Seq<u8>)>,
    name: Seq<u8>,
)
    requires
        forall|j: int| 0 <= j < acc.len() ==> !same_ignoring_case(#[trigger] acc[j].0, name),
        forall|j: int| 0 <= j < hs.len() ==> !same_ignoring_case(#[trigger] hs[j].0, name),
    ensures
        forall|j: int|
            0 <= j < insert_all(acc, hs).len() ==> !same_ignoring_case(
                #[trigger] insert_all(acc, hs)[j].0,
                name,
            ),
    decreases hs.len(),
{
    if hs.len() > 0 {
        let next = header_insert(acc, hs[0].0, hs[0].1);
        lemma_index_some(acc, hs[0].0, 0);
        assert forall|j: int| 0 <= j < next.len() implies !same_ignoring_case(
            #[trigger] next[j].0,
            name,
        ) by {
            if j < acc.len() {
                assert(next[j].0 == acc[j].0);
            } else {
                assert(next[j].0 == hs[0].0);
            }
        }
        assert forall|j: int| 0 <= j < hs.drop_first().len() implies !same_ignoring_case(
            #[trigger] hs.drop_first()[j].0,
            name,
        ) by {
            assert(hs.drop_first()[j] == hs[j + 1]);
        }
        lemma_insert_all_keeps_out(next, hs.drop_first(), name);
        assert(insert_all(acc, hs) == insert_all(next, hs.drop_first()));
    } else {
        assert(insert_all(acc, hs) == acc);
    }
}

/// The field that serialisation adds.
pub open spec fn length_field(n: nat) -> (Seq<u8>, Seq<u8>) {
    (ascii_bytes("Content-Length"@), decimal_repr(n))
}

proof fn lemma_length_field(n: nat)
    ensures
        field_ok(length_field(n)),
        same_ignoring_case(length_field(n).0, content_length_name()),
{
    reveal_strlit("Content-Length");
    reveal_strlit("content-length");
    let name = length_field(n).0;
    assert(name =~= seq![67u8, 111, 110, 116, 101, 110, 116, 45, 76, 101, 110, 103, 116, 104]);
    assert(content_length_name() =~= seq![
        99u8,
        111,
        110,
        116,
        101,
        110,
        116,
        45,
        108,
        101,
        110,
        103,
        116,
        104,
    ]);
    assert(lower_all(name) =~= lower_all(content_length_name()));
    lemma_decimal_repr_digits(n);
    let v = decimal_repr(n);
    assert(!is_ows(v[0]));
    assert(!is_ows(v.last()));
}

/// Serialising a response whose fields are well formed and name no
/// `Content-Length`, then reading its header section back with the request
/// parser's rules, gives a `Content-Length` equal to the body's length, and
/// exactly the body follows the header section.
pub proof fn lemma_content_length_round_trip(r: ResponseModel)
    requires
        forall|i: int| 0 <= i < r.headers.len() ==> field_ok(#[trigger] r.headers[i]),
        header_lookup(r.headers, content_length_name()) is None,
    ensures
        ({
            let bytes = serialize_response(r);
            let parsed = parse_headers(bytes, status_line(r.status).len(), Seq::empty());
            &&& parsed is Ok
            &&& header_lookup(parsed->Ok_0.0, content_length_name()) == Some(
                decimal_repr(r.body.len()),
            )
            &&& decimal_value(decimal_repr(r.body.len())) == Some(r.body.len())
            &&& body_of(bytes, parsed->Ok_0.0, parsed->Ok_0.1) == Ok::<_, ParseError>(r.body)
            &&& parsed->Ok_0.1 + r.body.len() == bytes.len()
        }),
{
    let n = r.body.len();
    let sl = status_line(r.status);
    let fb = fields_bytes(r.headers);
    let cl = length_field(n);
    let clb = fields_bytes(seq![cl]);
    let bytes = serialize_response(r);
    let name = content_length_name();
    lemma_fields_bytes_one(cl);
    assert(clb =~= length_line(n));
    assert(head_fields(r) == fb + length_line(n) + seq![CR, LF]);
    assert(bytes =~= sl + fb + clb + seq![CR, LF] + r.body);
    let pos1 = sl.len();
    let pos2 = pos1 + fb.len();
    let pos3 = pos2 + clb.len();
    // The caller's fields read back one after the other.
    assert(bytes.subrange(pos1 as int, pos2 as int) =~= fb);
    lemma_read_fields(bytes, pos1, Seq::empty(), r.headers);
    let acc1 = insert_all(Seq::empty(), r.headers);
    // Then the added length field.
    lemma_length_field(n);
    assert(bytes.subrange(pos2 as int, pos3 as int) =~= clb);
    lemma_read_fields(bytes, pos2, acc1, seq![cl]);
    assert(seq![cl].drop_first() =~= Seq::<(Seq<u8>, Seq<u8>)>::empty());
    let acc2 = insert_all(acc1, seq![cl]);
    assert(seq![cl][0] == cl);
    assert(insert_all(header_insert(acc1, cl.0, cl.1), Seq::empty()) == header_insert(
        acc1,
        cl.0,
        cl.1,
    ));
    assert(acc2 == header_insert(acc1, cl.0, cl.1));
    // Then the empty line.
    assert(crlf_at(bytes, pos3 as int));
    lemma_find_crlf_at(bytes, pos3, pos3);
    assert(parse_headers(bytes, pos3, acc2) == Ok::<_, ParseError>((acc2, pos3 + 2)));
    // No field of the caller's is a length field, so the added one is found.
    lemma_index_none(r.headers, name, 0);
    lemma_insert_all_keeps_out(Seq::empty(), r.headers, name);
    lemma_index_none(acc1, name, 0);
    lemma_index_none(acc1, cl.0, 0);
    assert forall|j: int| 0 <= j < acc1.len() implies !same_ignoring_case(
        #[trigger] acc1[j].0,
        cl.0,
    ) by {
        assert(!same_ignoring_case(acc1[j].0, name));
    }
    assert(header_index(acc1, cl.0) is None);
    assert(acc2 == acc1.push(cl));
    lemma_index_none(acc2, name, 0);
    assert(same_ignoring_case(acc2[acc1.len() as int].0, name));
    assert(header_index_from(acc2, name, acc1.len()) == Some(acc1.len()));
    lemma_index_prefix_skip(acc2, name, acc1.len());
    assert(header_lookup(acc2, name) == Some(cl.1));
    // The body is exactly the declared number of bytes.
    lemma_decimal_round_trip(n);
    assert(bytes.subrange((pos3 + 2) as int, (pos3 + 2 + n) as int) =~= r.body);
}

/// Where no field before `i` has the name, the first one with it is found
/// from `i` on.
proof fn lemma_index_prefix_skip(h: Seq<(Seq<u8>, Seq<u8>)>, name: Seq<u8>, i: nat)
    requires
        i <= h.len(),
        forall|j: int| 0 <= j < i ==> !same_ignoring_case(#[trigger] h[j].0, name),
    ensures
        header_index_from(h, name, 0) == header_index_from(h, name, i),
    decreases i,
{
    if i > 0 {
        lemma_index_from_step(h, name, 0, (i - 1) as nat);
    }
}

proof fn lemma_index_from_step(h: Seq<(Seq<u8>, Seq<u8>)>, name: Seq<u8>, a: nat, b: nat)
    requires
        a <= b < h.len(),
        forall|j: int| a <= j <= b ==> !same_ignoring_case(#[trigger] h[j].0, name),
    ensures
        header_index_from(h, name, a) == header_index_from(h, name, b + 1),
    decreases b - a,
{
    if a < b {
        lemma_index_from_step(h, name, a + 1, b);
    }
}

} // verus!
