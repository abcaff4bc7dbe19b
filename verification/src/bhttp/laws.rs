//! What holds across the encoder and the decoder: a message that the
//! encoder writes decodes back to the same head and the same content.
use vstd::prelude::*;
use crate::bhttp::{
    host_name, spec_body_content, spec_chunks_encode, spec_content_chunks, spec_control_data, spec_decode_request,
    spec_decode_response, spec_field_line, spec_field_lines, spec_field_lines_encode, spec_final_status,
    spec_first_host, spec_indeterminate_field_section, spec_indeterminate_response_head_encode,
    spec_known_field_section, spec_known_length, spec_known_response_head_encode, spec_opt_authority,
    spec_prefixed_encode, spec_request_after_framing, spec_request_head, spec_request_head_encode,
    spec_response_after_framing, spec_status, spec_written_authority, BodyKind, ControlV, FieldV, RequestHeadV,
    ResponseHeadV,
};
use crate::bhttp::encode::{
    lemma_field_lines_encode_concat, spec_encode_item, spec_encoded_items, spec_stream_bytes, EncodedMessageKind,
};
use crate::error::Error;
use crate::http_parts::{
    spec_http_authority, spec_http_header_name, spec_http_header_value, spec_http_method, spec_http_path,
    spec_http_scheme,
};
use crate::stream_buf::spec_prefixed;
use crate::varint::{lemma_varint_encode_len, lemma_varint_roundtrip, spec_varint_encode, MAX_VAR_INT};

verus! {

/// A length that a varint can carry and that fits in memory.
pub open spec fn len_ok(b: Seq<u8>) -> bool {
    b.len() <= MAX_VAR_INT && b.len() <= usize::MAX
}

/// Fields that `http` gives back as they are (lower-case names, valid
/// values), with names that are not empty and lengths that fit.
pub open spec fn fields_canonical(h: Seq<FieldV>) -> bool {
    forall|i: int|
        0 <= i < h.len() ==> {
            &&& (#[trigger] h[i]).0.len() > 0
            &&& len_ok(h[i].0)
            &&& len_ok(h[i].1)
            &&& spec_http_header_name(h[i].0) == Some(h[i].0)
            &&& spec_http_header_value(h[i].1) == Some(h[i].1)
        }
}

/// A request head that `http` gives back as it is: a method, a scheme, an
/// authority (not empty) and a path, each in the form `http` builds.
pub open spec fn request_canonical(r: RequestHeadV) -> bool {
    &&& r.scheme.len() > 0
    &&& r.authority.len() > 0
    &&& len_ok(r.method)
    &&& len_ok(r.scheme)
    &&& len_ok(r.authority)
    &&& len_ok(r.path)
    &&& spec_http_method(r.method) == Some(r.method)
    &&& spec_http_scheme(r.scheme) == Some(r.scheme)
    &&& spec_http_authority(r.authority) == Some(r.authority)
    &&& spec_http_path(r.path) == Some(r.path)
    &&& fields_canonical(r.headers)
}

/// A response head with a final status code (informational responses are
/// skipped by the decoder) and canonical fields.
pub open spec fn response_canonical(r: ResponseHeadV) -> bool {
    &&& 200 <= r.status <= 999
    &&& fields_canonical(r.headers)
}

/// Chunks of content that a varint can carry the lengths of.
pub open spec fn chunks_ok(cs: Seq<Seq<u8>>) -> bool {
    forall|i: int| 0 <= i < cs.len() ==> len_ok(#[trigger] cs[i])
}

/// Chunks as the items of a stream.
pub open spec fn ok_items(cs: Seq<Seq<u8>>) -> Seq<Result<Seq<u8>, Error>> {
    Seq::new(cs.len(), |i: int| Ok::<Seq<u8>, Error>(cs[i]))
}

proof fn lemma_skip_concat(a: Seq<u8>, b: Seq<u8>)
    ensures
        (a + b).skip(a.len() as int) == b,
{
    assert((a + b).skip(a.len() as int) =~= b);
}

/// A length-prefixed string reads back whatever follows it.
pub proof fn lemma_prefixed_roundtrip(b: Seq<u8>, rest: Seq<u8>)
    requires
        len_ok(b),
    ensures
        spec_prefixed(spec_prefixed_encode(b) + rest) == Some((b, spec_prefixed_encode(b).len())),
{
    let v = spec_varint_encode(b.len() as u64);
    let s = spec_prefixed_encode(b) + rest;
    assert(s =~= v + (b + rest));
    lemma_varint_roundtrip(b.len() as u64, b + rest);
    lemma_varint_encode_len(b.len() as u64);
    assert(s.subrange(v.len() as int, (v.len() + b.len()) as int) =~= b);
}

/// A field line reads back whatever follows it.
pub proof fn lemma_field_line_roundtrip(f: FieldV, rest: Seq<u8>)
    requires
        fields_canonical(seq![f]),
    ensures
        spec_field_line(spec_prefixed_encode(f.0) + spec_prefixed_encode(f.1) + rest) == Some(
            (f, (spec_prefixed_encode(f.0).len() + spec_prefixed_encode(f.1).len()) as nat),
        ),
{
    assert(seq![f][0] == f);
    let a = spec_prefixed_encode(f.0);
    let b = spec_prefixed_encode(f.1);
    let s = a + b + rest;
    assert(s =~= a + (b + rest));
    lemma_prefixed_roundtrip(f.0, b + rest);
    lemma_skip_concat(a, b + rest);
    lemma_prefixed_roundtrip(f.1, rest);
}

/// Field lines fill exactly their encoding.
pub proof fn lemma_field_lines_roundtrip(h: Seq<FieldV>)
    requires
        fields_canonical(h),
    ensures
        spec_field_lines(spec_field_lines_encode(h)) == Some(h),
    decreases h.len(),
{
    if h.len() == 0 {
        assert(h =~= Seq::<FieldV>::empty());
    } else {
        let f = h[0];
        let t = h.drop_first();
        assert(fields_canonical(seq![f])) by {
            assert(seq![f][0] == h[0]);
        }
        assert(fields_canonical(t)) by {
            assert forall|i: int| 0 <= i < t.len() implies #[trigger] t[i] == h[i + 1] by {}
        }
        let rest = spec_field_lines_encode(t);
        let s = spec_field_lines_encode(h);
        lemma_field_line_roundtrip(f, rest);
        let n = (spec_prefixed_encode(f.0).len() + spec_prefixed_encode(f.1).len()) as nat;
        lemma_varint_encode_len(f.0.len() as u64);
        assert(s.skip(n as int) =~= rest);
        lemma_field_lines_roundtrip(t);
        assert(seq![f] + t =~= h);
    }
}

/// An indeterminate-length field section reads back whatever follows its
/// terminator.
pub proof fn lemma_indeterminate_section_roundtrip(h: Seq<FieldV>, rest: Seq<u8>)
    requires
        fields_canonical(h),
    ensures
        spec_indeterminate_field_section(spec_field_lines_encode(h) + spec_varint_encode(0) + rest) == Some(
            (h, (spec_field_lines_encode(h).len() + 1) as nat),
        ),
    decreases h.len(),
{
    let s = spec_field_lines_encode(h) + spec_varint_encode(0) + rest;
    lemma_varint_encode_len(0);
    if h.len() == 0 {
        assert(s =~= spec_varint_encode(0) + rest);
        lemma_varint_roundtrip(0, rest);
        assert(h =~= Seq::<FieldV>::empty());
    } else {
        let f = h[0];
        let t = h.drop_first();
        assert(fields_canonical(seq![f])) by {
            assert(seq![f][0] == h[0]);
        }
        assert(fields_canonical(t)) by {
            assert forall|i: int| 0 <= i < t.len() implies #[trigger] t[i] == h[i + 1] by {}
        }
        let a = spec_prefixed_encode(f.0);
        let b = spec_prefixed_encode(f.1);
        let tail = spec_field_lines_encode(t) + spec_varint_encode(0) + rest;
        assert(s =~= a + b + tail);
        lemma_field_line_roundtrip(f, tail);
        lemma_varint_encode_len(f.0.len() as u64);
        assert(s =~= spec_varint_encode(f.0.len() as u64) + (f.0 + b + tail));
        lemma_varint_roundtrip(f.0.len() as u64, f.0 + b + tail);
        assert(s.skip((a.len() + b.len()) as int) =~= tail);
        lemma_indeterminate_section_roundtrip(t, rest);
        assert(seq![f] + t =~= h);
    }
}

/// A known-length field section reads back whatever follows it.
pub proof fn lemma_known_section_roundtrip(h: Seq<FieldV>, rest: Seq<u8>)
    requires
        fields_canonical(h),
        len_ok(spec_field_lines_encode(h)),
    ensures
        spec_known_field_section(spec_prefixed_encode(spec_field_lines_encode(h)) + rest) == Some(
            (h, spec_prefixed_encode(spec_field_lines_encode(h)).len()),
        ),
{
    let lines = spec_field_lines_encode(h);
    lemma_prefixed_roundtrip(lines, rest);
    lemma_varint_encode_len(lines.len() as u64);
    lemma_field_lines_roundtrip(h);
}

/// Indeterminate-length content reads back as its chunks, in order, the
/// empty ones contributing nothing.
pub proof fn lemma_chunks_roundtrip(cs: Seq<Seq<u8>>, rest: Seq<u8>)
    requires
        chunks_ok(cs),
    ensures
        spec_content_chunks(spec_chunks_encode(cs) + rest) == Some(cs.flatten()),
    decreases cs.len(),
{
    lemma_varint_encode_len(0);
    if cs.len() == 0 {
        lemma_varint_roundtrip(0, rest);
    } else {
        let c = cs[0];
        let t = cs.drop_first();
        assert(chunks_ok(t)) by {
            assert forall|i: int| 0 <= i < t.len() implies len_ok(#[trigger] t[i]) by {
                assert(t[i] == cs[i + 1]);
            }
        }
        lemma_chunks_roundtrip(t, rest);
        assert(cs.flatten() == c + t.flatten());
        if c.len() == 0 {
            assert(c + t.flatten() =~= t.flatten());
        } else {
            let s = spec_chunks_encode(cs) + rest;
            let tail = spec_chunks_encode(t) + rest;
            let v = spec_varint_encode(c.len() as u64);
            assert(s =~= v + (c + tail));
            lemma_varint_roundtrip(c.len() as u64, c + tail);
            lemma_varint_encode_len(c.len() as u64);
            assert(s.skip((v.len() + c.len()) as int) =~= tail);
            assert(s.subrange(v.len() as int, (v.len() + c.len()) as int) =~= c);
        }
    }
}

/// Request control data reads back whatever follows it; an authority left
/// out reads back as none.
#[verifier::rlimit(40)]
proof fn lemma_control_data_roundtrip(r: RequestHeadV, rest: Seq<u8>)
    requires
        request_canonical(r),
    ensures
        ({
            let w = spec_written_authority(r);
            let e = spec_prefixed_encode(r.method) + spec_prefixed_encode(r.scheme) + spec_prefixed_encode(w)
                + spec_prefixed_encode(r.path);
            spec_control_data(e + rest) == Some((
                ControlV {
                    method: r.method,
                    scheme: r.scheme,
                    authority: if w.len() == 0 { None } else { Some(w) },
                    path: r.path,
                },
                e.len(),
            ))
        }),
{
    let w = spec_written_authority(r);
    let pm = spec_prefixed_encode(r.method);
    let ps = spec_prefixed_encode(r.scheme);
    let pa = spec_prefixed_encode(w);
    let pp = spec_prefixed_encode(r.path);
    let s = pm + ps + pa + pp + rest;
    assert(w.len() == 0 || w == r.authority);
    assert(s =~= pm + (ps + pa + pp + rest));
    lemma_prefixed_roundtrip(r.method, ps + pa + pp + rest);
    assert(s.skip(pm.len() as int) =~= ps + (pa + pp + rest));
    lemma_prefixed_roundtrip(r.scheme, pa + pp + rest);
    assert(s.skip((pm.len() + ps.len()) as int) =~= pa + (pp + rest));
    lemma_prefixed_roundtrip(w, pp + rest);
    assert(s.skip((pm.len() + ps.len() + pa.len()) as int) =~= pp + rest);
    lemma_prefixed_roundtrip(r.path, rest);
}

/// The head that the decoder builds from the control data that the encoder
/// wrote is the head encoded.
proof fn lemma_request_head_roundtrip(r: RequestHeadV)
    requires
        request_canonical(r),
    ensures
        ({
            let w = spec_written_authority(r);
            let c = ControlV {
                method: r.method,
                scheme: r.scheme,
                authority: if w.len() == 0 { None } else { Some(w) },
                path: r.path,
            };
            spec_request_head(c, r.headers) == Some(r)
        }),
{
}

/// The bytes of the items of an encoded message, with no error among them:
/// the initial chunk, then the encoded content.
pub proof fn lemma_items_bytes(kind: EncodedMessageKind, initial: Seq<u8>, cs: Seq<Seq<u8>>)
    requires
        chunks_ok(cs),
    ensures
        spec_stream_bytes(spec_encoded_items(kind, Some(initial), ok_items(cs))) == initial + match kind {
            EncodedMessageKind::IndeterminateLength => spec_chunks_encode(cs),
            EncodedMessageKind::KnownLength => cs.flatten(),
        },
    decreases cs.len(),
{
    let items = spec_encoded_items(kind, Some(initial), ok_items(cs));
    assert(items[0] == Ok::<Seq<u8>, Error>(initial));
    if cs.len() == 0 {
        let last = match kind {
            EncodedMessageKind::IndeterminateLength => seq![Ok::<Seq<u8>, Error>(seq![0u8])],
            EncodedMessageKind::KnownLength => Seq::empty(),
        };
        assert(items.drop_first() =~= last);
        assert(spec_stream_bytes(items) == initial + spec_stream_bytes(last));
        if kind == EncodedMessageKind::IndeterminateLength {
            assert(last.drop_first() =~= Seq::<Result<Seq<u8>, Error>>::empty());
            assert(spec_stream_bytes(last) == seq![0u8] + spec_stream_bytes(last.drop_first()));
            reveal_with_fuel(crate::varint::be_bytes, 2);
            assert(spec_varint_encode(0) =~= seq![0u8]);
            assert(seq![0u8] + Seq::<u8>::empty() =~= seq![0u8]);
            assert(spec_chunks_encode(cs) == spec_varint_encode(0));
        } else {
            assert(spec_stream_bytes(last) == Seq::<u8>::empty());
            assert(cs.flatten() =~= Seq::<u8>::empty());
            assert(initial + Seq::<u8>::empty() =~= initial);
        }
    } else {
        let c = cs[0];
        let t = cs.drop_first();
        assert(chunks_ok(t)) by {
            assert forall|i: int| 0 <= i < t.len() implies len_ok(#[trigger] t[i]) by {
                assert(t[i] == cs[i + 1]);
            }
        }
        let enc = spec_encode_item(kind, Ok::<Seq<u8>, Error>(c)).unwrap();
        lemma_items_bytes(kind, enc, t);
        let items2 = spec_encoded_items(kind, Some(enc), ok_items(t));
        assert(items.drop_first() =~= items2);
        assert(cs.flatten() == c + t.flatten());
        match kind {
            EncodedMessageKind::IndeterminateLength => {
                if c.len() == 0 {
                    assert(enc + spec_chunks_encode(t) =~= spec_chunks_encode(cs));
                } else {
                    assert(enc + spec_chunks_encode(t) =~= spec_chunks_encode(cs));
                }
                assert(initial + (enc + spec_chunks_encode(t)) =~= initial + spec_chunks_encode(cs));
            },
            EncodedMessageKind::KnownLength => {
                assert(initial + (c + t.flatten()) =~= initial + cs.flatten());
            },
        }
    }
}

/// A request that the encoder writes decodes back to the same head, with
/// indeterminate-length content that reads back as the chunks written,
/// concatenated.
#[verifier::rlimit(50)]
pub proof fn law_request_roundtrip(r: RequestHeadV, cs: Seq<Seq<u8>>)
    requires
        request_canonical(r),
        chunks_ok(cs),
    ensures
        ({
            let head = spec_request_head_encode(r);
            let bytes = head + spec_chunks_encode(cs);
            let kind = BodyKind::IndeterminateLength { remaining_in_current_chunk: Some(0) };
            &&& spec_decode_request(bytes) == Some((r, kind, head.len()))
            &&& spec_body_content(kind, bytes.skip(head.len() as int)) == Some(cs.flatten())
        }),
{
    let w = spec_written_authority(r);
    let ctl = spec_prefixed_encode(r.method) + spec_prefixed_encode(r.scheme) + spec_prefixed_encode(w)
        + spec_prefixed_encode(r.path);
    let chunks = spec_chunks_encode(cs);
    let fr = spec_varint_encode(2);
    let head = spec_request_head_encode(r);
    let bytes = head + chunks;
    let after = spec_field_lines_encode(r.headers) + spec_varint_encode(0) + chunks;
    assert(bytes =~= fr + (ctl + after));
    lemma_varint_roundtrip(2, ctl + after);
    lemma_varint_encode_len(2);
    lemma_skip_concat(fr, ctl + after);
    lemma_control_data_roundtrip(r, after);
    lemma_skip_concat(ctl, after);
    lemma_indeterminate_section_roundtrip(r.headers, chunks);
    lemma_varint_encode_len(0);
    lemma_request_head_roundtrip(r);
    assert(after.skip((spec_field_lines_encode(r.headers).len() + 1) as int) =~= chunks);
    assert(head.len() == fr.len() + ctl.len() + spec_field_lines_encode(r.headers).len() + 1);
    lemma_skip_concat(head, chunks);
    lemma_chunks_roundtrip(cs, Seq::empty());
    assert(chunks + Seq::<u8>::empty() =~= chunks);
}

/// The final status code reads back whatever follows it.
proof fn lemma_final_status_roundtrip(st: u16, rest: Seq<u8>)
    requires
        200 <= st <= 999,
    ensures
        spec_final_status(spec_varint_encode(st as u64) + rest) == Some((st, spec_varint_encode(st as u64).len())),
{
    lemma_varint_roundtrip(st as u64, rest);
    lemma_varint_encode_len(st as u64);
}

/// A response that the encoder writes with indeterminate-length content
/// decodes back to the same head, and its content reads back as the chunks
/// written, concatenated.
#[verifier::rlimit(50)]
pub proof fn law_indeterminate_response_roundtrip(r: ResponseHeadV, cs: Seq<Seq<u8>>)
    requires
        response_canonical(r),
        chunks_ok(cs),
    ensures
        ({
            let head = spec_indeterminate_response_head_encode(r);
            let bytes = head + spec_chunks_encode(cs);
            let kind = BodyKind::IndeterminateLength { remaining_in_current_chunk: Some(0) };
            &&& spec_decode_response(bytes) == Some((r, kind, head.len()))
            &&& spec_body_content(kind, bytes.skip(head.len() as int)) == Some(cs.flatten())
        }),
{
    let chunks = spec_chunks_encode(cs);
    let fr = spec_varint_encode(3);
    let stb = spec_varint_encode(r.status as u64);
    let head = spec_indeterminate_response_head_encode(r);
    let bytes = head + chunks;
    let after = spec_field_lines_encode(r.headers) + spec_varint_encode(0) + chunks;
    assert(bytes =~= fr + (stb + after));
    lemma_varint_roundtrip(3, stb + after);
    lemma_varint_encode_len(3);
    lemma_skip_concat(fr, stb + after);
    lemma_final_status_roundtrip(r.status, after);
    lemma_skip_concat(stb, after);
    lemma_indeterminate_section_roundtrip(r.headers, chunks);
    lemma_varint_encode_len(0);
    assert(after.skip((spec_field_lines_encode(r.headers).len() + 1) as int) =~= chunks);
    lemma_skip_concat(head, chunks);
    lemma_chunks_roundtrip(cs, Seq::empty());
    assert(chunks + Seq::<u8>::empty() =~= chunks);
}

/// A response that the encoder writes with known-length content decodes
/// back to the same head, and its content reads back as the bytes written.
#[verifier::rlimit(50)]
pub proof fn law_known_response_roundtrip(r: ResponseHeadV, content: Seq<u8>)
    requires
        response_canonical(r),
        len_ok(spec_field_lines_encode(r.headers)),
        content.len() <= MAX_VAR_INT,
    ensures
        ({
            let head = spec_known_response_head_encode(r, content.len() as u64);
            let bytes = head + content;
            let kind = BodyKind::KnownLength { remaining: content.len() as u64 };
            &&& spec_decode_response(bytes) == Some((r, kind, head.len()))
            &&& spec_body_content(kind, bytes.skip(head.len() as int)) == Some(content)
        }),
{
    let fr = spec_varint_encode(1);
    let stb = spec_varint_encode(r.status as u64);
    let sec = spec_prefixed_encode(spec_field_lines_encode(r.headers));
    let cl = spec_varint_encode(content.len() as u64);
    let head = spec_known_response_head_encode(r, content.len() as u64);
    let bytes = head + content;
    let after = sec + (cl + content);
    assert(bytes =~= fr + (stb + after));
    lemma_varint_roundtrip(1, stb + after);
    lemma_varint_encode_len(1);
    lemma_skip_concat(fr, stb + after);
    lemma_final_status_roundtrip(r.status, after);
    lemma_skip_concat(stb, after);
    lemma_known_section_roundtrip(r.headers, cl + content);
    lemma_skip_concat(sec, cl + content);
    lemma_varint_roundtrip(content.len() as u64, content);
    lemma_varint_encode_len(content.len() as u64);
    lemma_skip_concat(cl, content);
    lemma_skip_concat(head, content);
    assert(content.take(content.len() as int) =~= content);
}

} // verus!
