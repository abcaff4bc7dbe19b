//! Binary HTTP messages (RFC 9292): their model, their grammar, and the
//! decoder and encoder of requests and responses.
use vstd::prelude::*;
use crate::http_parts::{
    spec_http_authority, spec_http_header_name, spec_http_header_value, spec_http_method,
    spec_http_path, spec_http_scheme,
};
use crate::stream_buf::spec_prefixed;
use crate::varint::{lemma_varint_decode_bound, spec_varint_decode, spec_varint_encode};

pub mod body;
pub mod decode;
pub mod encode;
pub mod laws;

verus! {

/// A field (header) line: a name and a value.
pub type FieldV = (Seq<u8>, Seq<u8>);

#[derive(Clone, Debug, PartialEq, Eq)]
pub struct Field {
    pub name: Vec<u8>,
    pub value: Vec<u8>,
}

impl View for Field {
    type V = FieldV;

    open spec fn view(&self) -> FieldV {
        (self.name@, self.value@)
    }
}

pub open spec fn fields_view(f: Seq<Field>) -> Seq<FieldV> {
    Seq::new(f.len(), |i: int| f[i]@)
}

/// The head of a request: its method, its target URI (scheme, authority,
/// path and query) and its header fields.
#[derive(Clone, Debug, PartialEq, Eq)]
pub struct RequestHead {
    pub method: Vec<u8>,
    pub scheme: Vec<u8>,
    pub authority: Vec<u8>,
    pub path: Vec<u8>,
    pub headers: Vec<Field>,
}

pub struct RequestHeadV {
    pub method: Seq<u8>,
    pub scheme: Seq<u8>,
    pub authority: Seq<u8>,
    pub path: Seq<u8>,
    pub headers: Seq<FieldV>,
}

impl View for RequestHead {
    type V = RequestHeadV;

    open spec fn view(&self) -> RequestHeadV {
        RequestHeadV {
            method: self.method@,
            scheme: self.scheme@,
            authority: self.authority@,
            path: self.path@,
            headers: fields_view(self.headers@),
        }
    }
}

/// The head of a response: its final status code and its header fields.
#[derive(Clone, Debug, PartialEq, Eq)]
pub struct ResponseHead {
    pub status: u16,
    pub headers: Vec<Field>,
}

pub struct ResponseHeadV {
    pub status: u16,
    pub headers: Seq<FieldV>,
}

impl View for ResponseHead {
    type V = ResponseHeadV;

    open spec fn view(&self) -> ResponseHeadV {
        ResponseHeadV { status: self.status, headers: fields_view(self.headers@) }
    }
}

/// Request control data as read, before the authority is settled.
pub struct ControlV {
    pub method: Seq<u8>,
    pub scheme: Seq<u8>,
    pub authority: Option<Seq<u8>>,
    pub path: Seq<u8>,
}

/// How the content of a message is framed, and how much of it is left.
#[derive(Clone, Copy, Debug, PartialEq, Eq)]
pub enum BodyKind {
    KnownLength { remaining: u64 },
    IndeterminateLength { remaining_in_current_chunk: Option<u64> },
}

// ---------------------------------------------------------------------------
// The grammar, read from the bytes still to be decoded.
// ---------------------------------------------------------------------------

/// An authority as read from control data: empty means none.
pub open spec fn spec_opt_authority(a: Seq<u8>) -> Option<Option<Seq<u8>>> {
    if a.len() == 0 {
        Some(None)
    } else {
        match spec_http_authority(a) {
            Some(x) => Some(Some(x)),
            None => None,
        }
    }
}

/// Request control data: method, scheme, authority and path, each
/// length-prefixed and each accepted by `http`.
pub open spec fn spec_control_data(s: Seq<u8>) -> Option<(ControlV, nat)> {
    match spec_prefixed(s) {
        None => None,
        Some((m, n1)) => match spec_prefixed(s.skip(n1 as int)) {
            None => None,
            Some((sc, n2)) => match spec_prefixed(s.skip((n1 + n2) as int)) {
                None => None,
                Some((a, n3)) => match spec_prefixed(s.skip((n1 + n2 + n3) as int)) {
                    None => None,
                    Some((p, n4)) => match (
                        spec_http_method(m),
                        spec_http_scheme(sc),
                        spec_opt_authority(a),
                        spec_http_path(p),
                    ) {
                        (Some(mm), Some(ss), Some(aa), Some(pp)) => Some(
                            (ControlV { method: mm, scheme: ss, authority: aa, path: pp }, n1 + n2 + n3 + n4),
                        ),
                        _ => None,
                    },
                },
            },
        },
    }
}

/// A field line at the start of `s`: a length-prefixed name and a
/// length-prefixed value, each accepted by `http`; and its length.
pub open spec fn spec_field_line(s: Seq<u8>) -> Option<(FieldV, nat)> {
    match spec_prefixed(s) {
        None => None,
        Some((name, n1)) => match spec_prefixed(s.skip(n1 as int)) {
            None => None,
            Some((value, n2)) => match (spec_http_header_name(name), spec_http_header_value(value)) {
                (Some(nn), Some(vv)) => Some(((nn, vv), n1 + n2)),
                _ => None,
            },
        },
    }
}

/// Field lines filling all of `s` (the content of a known-length field
/// section).
pub open spec fn spec_field_lines(s: Seq<u8>) -> Option<Seq<FieldV>>
    decreases s.len(),
{
    if s.len() == 0 {
        Some(Seq::empty())
    } else {
        match spec_field_line(s) {
            None => None,
            Some((f, n)) => {
                proof {
                    lemma_prefixed_nonempty(s);
                }
                if n == 0 {
                    None
                } else {
                    match spec_field_lines(s.skip(n as int)) {
                        None => None,
                        Some(rest) => Some(seq![f] + rest),
                    }
                }
            },
        }
    }
}

/// A known-length field section: absent when nothing is left, else a
/// length-prefixed run of field lines.
pub open spec fn spec_known_field_section(s: Seq<u8>) -> Option<(Seq<FieldV>, nat)> {
    if s.len() == 0 {
        Some((Seq::empty(), 0))
    } else {
        match spec_prefixed(s) {
            None => None,
            Some((content, n)) => match spec_field_lines(content) {
                None => None,
                Some(f) => Some((f, n)),
            },
        }
    }
}

/// An indeterminate-length field section: field lines up to a zero name
/// length, or up to the end of the input.
pub open spec fn spec_indeterminate_field_section(s: Seq<u8>) -> Option<(Seq<FieldV>, nat)>
    decreases s.len(),
{
    if s.len() == 0 {
        Some((Seq::empty(), 0))
    } else {
        match spec_varint_decode(s) {
            None => None,
            Some((l, n)) => {
                proof {
                    lemma_varint_decode_bound(s);
                }
                if l == 0 {
                    Some((Seq::empty(), n))
                } else {
                    match spec_field_line(s) {
                        None => None,
                        Some((f, k)) => {
                            proof {
                                lemma_prefixed_nonempty(s);
                            }
                            match spec_indeterminate_field_section(s.skip(k as int)) {
                                None => None,
                                Some((rest, m)) => Some((seq![f] + rest, k + m)),
                            }
                        },
                    }
                }
            },
        }
    }
}

/// The first value of a `host` field.
pub open spec fn spec_first_host(h: Seq<FieldV>) -> Option<Seq<u8>>
    decreases h.len(),
{
    if h.len() == 0 {
        None
    } else if h[0].0 == host_name() {
        Some(h[0].1)
    } else {
        spec_first_host(h.drop_first())
    }
}

pub open spec fn host_name() -> Seq<u8> {
    seq![104u8, 111u8, 115u8, 116u8]
}

/// A request head from its control data and fields: the authority is the
/// one of the control data, or else the first `host` field, accepted by
/// `http` as an authority.
pub open spec fn spec_request_head(c: ControlV, h: Seq<FieldV>) -> Option<RequestHeadV> {
    let authority = match c.authority {
        Some(a) => Some(a),
        None => match spec_first_host(h) {
            Some(host) => spec_http_authority(host),
            None => None,
        },
    };
    match authority {
        Some(a) => Some(RequestHeadV { method: c.method, scheme: c.scheme, authority: a, path: c.path, headers: h }),
        None => None,
    }
}

/// The content length of a known-length message: zero when nothing is
/// left, else a varint.
pub open spec fn spec_known_length(s: Seq<u8>) -> Option<(u64, nat)> {
    if s.len() == 0 {
        Some((0, 0))
    } else {
        spec_varint_decode(s)
    }
}

/// A request after its framing indicator, given the framing.
pub open spec fn spec_request_after_framing(known: bool, s: Seq<u8>) -> Option<(RequestHeadV, BodyKind, nat)> {
    match spec_control_data(s) {
        None => None,
        Some((c, n1)) => {
            let s1 = s.skip(n1 as int);
            let fs = if known { spec_known_field_section(s1) } else { spec_indeterminate_field_section(s1) };
            match fs {
                None => None,
                Some((h, n2)) => {
                    let s2 = s1.skip(n2 as int);
                    let body = if known {
                        match spec_known_length(s2) {
                            Some((len, n3)) => Some((BodyKind::KnownLength { remaining: len }, n3)),
                            None => None,
                        }
                    } else {
                        Some((BodyKind::IndeterminateLength { remaining_in_current_chunk: Some(0) }, 0nat))
                    };
                    match (body, spec_request_head(c, h)) {
                        (Some((b, n3)), Some(head)) => Some((head, b, n1 + n2 + n3)),
                        _ => None,
                    }
                },
            }
        },
    }
}

/// A binary HTTP request: framing indicator 0 (known-length) or 2
/// (indeterminate-length), then its head; the kind of its content and the
/// bytes read up to the content.
pub open spec fn spec_decode_request(s: Seq<u8>) -> Option<(RequestHeadV, BodyKind, nat)> {
    match spec_varint_decode(s) {
        None => None,
        Some((f, n)) => if f == 0 || f == 2 {
            match spec_request_after_framing(f == 0, s.skip(n as int)) {
                Some((head, b, k)) => Some((head, b, n + k)),
                None => None,
            }
        } else {
            None
        },
    }
}

/// A status code at the start of `s`, accepted as such.
pub open spec fn spec_status(s: Seq<u8>) -> Option<(u16, nat)> {
    match spec_varint_decode(s) {
        None => None,
        Some((v, n)) => if v <= 0xffff && 100 <= v <= 999 {
            Some((v as u16, n))
        } else {
            None
        },
    }
}

/// The final status code of a response: informational (1xx) responses,
/// each with a known-length field section, are skipped.
pub open spec fn spec_final_status(s: Seq<u8>) -> Option<(u16, nat)>
    decreases s.len(),
{
    match spec_status(s) {
        None => None,
        Some((st, n)) => {
            proof {
                lemma_varint_decode_bound(s);
            }
            if st < 200 {
                match spec_known_field_section(s.skip(n as int)) {
                    None => None,
                    Some((_, m)) => match spec_final_status(s.skip((n + m) as int)) {
                        None => None,
                        Some((fin, k)) => Some((fin, n + m + k)),
                    },
                }
            } else {
                Some((st, n))
            }
        },
    }
}

/// A response after its framing indicator, given the framing.
pub open spec fn spec_response_after_framing(known: bool, s: Seq<u8>) -> Option<(ResponseHeadV, BodyKind, nat)> {
    match spec_final_status(s) {
        None => None,
        Some((st, n1)) => {
            let s1 = s.skip(n1 as int);
            let fs = if known { spec_known_field_section(s1) } else { spec_indeterminate_field_section(s1) };
            match fs {
                None => None,
                Some((h, n2)) => {
                    let s2 = s1.skip(n2 as int);
                    if known {
                        match spec_known_length(s2) {
                            Some((len, n3)) => Some((
                                ResponseHeadV { status: st, headers: h },
                                BodyKind::KnownLength { remaining: len },
                                n1 + n2 + n3,
                            )),
                            None => None,
                        }
                    } else {
                        Some((
                            ResponseHeadV { status: st, headers: h },
                            BodyKind::IndeterminateLength { remaining_in_current_chunk: Some(0) },
                            n1 + n2,
                        ))
                    }
                },
            }
        },
    }
}

/// A binary HTTP response: framing indicator 1 (known-length) or 3
/// (indeterminate-length), then its head.
pub open spec fn spec_decode_response(s: Seq<u8>) -> Option<(ResponseHeadV, BodyKind, nat)> {
    match spec_varint_decode(s) {
        None => None,
        Some((f, n)) => if f == 1 || f == 3 {
            match spec_response_after_framing(f == 1, s.skip(n as int)) {
                Some((head, b, k)) => Some((head, b, n + k)),
                None => None,
            }
        } else {
            None
        },
    }
}

/// The chunks of indeterminate-length content: length-prefixed chunks up
/// to a zero length, or up to the end of the input.
pub open spec fn spec_content_chunks(s: Seq<u8>) -> Option<Seq<u8>>
    decreases s.len(),
{
    if s.len() == 0 {
        Some(Seq::empty())
    } else {
        match spec_varint_decode(s) {
            None => None,
            Some((l, n)) => {
                proof {
                    lemma_varint_decode_bound(s);
                }
                if l == 0 {
                    Some(Seq::empty())
                } else if n + l <= s.len() {
                    match spec_content_chunks(s.skip(n + l)) {
                        None => None,
                        Some(rest) => Some(s.subrange(n as int, n + l) + rest),
                    }
                } else {
                    None
                }
            },
        }
    }
}

/// The content that a body in state `k` yields from the input `s`.
pub open spec fn spec_body_content(k: BodyKind, s: Seq<u8>) -> Option<Seq<u8>> {
    match k {
        BodyKind::KnownLength { remaining } => if remaining <= s.len() {
            Some(s.take(remaining as int))
        } else {
            None
        },
        BodyKind::IndeterminateLength { remaining_in_current_chunk: None } => Some(Seq::empty()),
        BodyKind::IndeterminateLength { remaining_in_current_chunk: Some(r) } => if r == 0 {
            spec_content_chunks(s)
        } else if r <= s.len() {
            match spec_content_chunks(s.skip(r as int)) {
                None => None,
                Some(rest) => Some(s.take(r as int) + rest),
            }
        } else {
            None
        },
    }
}

// ---------------------------------------------------------------------------
// The encodings.
// ---------------------------------------------------------------------------

/// A length-prefixed byte string.
pub open spec fn spec_prefixed_encode(b: Seq<u8>) -> Seq<u8> {
    spec_varint_encode(b.len() as u64) + b
}

/// Field lines, in order.
pub open spec fn spec_field_lines_encode(h: Seq<FieldV>) -> Seq<u8>
    decreases h.len(),
{
    if h.len() == 0 {
        Seq::empty()
    } else {
        spec_prefixed_encode(h[0].0) + spec_prefixed_encode(h[0].1) + spec_field_lines_encode(h.drop_first())
    }
}

/// Whether the encoder writes the authority: it leaves it out when the
/// first `host` field holds it.
pub open spec fn spec_written_authority(r: RequestHeadV) -> Seq<u8> {
    match spec_first_host(r.headers) {
        Some(host) => if host == r.authority { Seq::empty() } else { r.authority },
        None => r.authority,
    }
}

/// The initial chunk of an indeterminate-length request: framing indicator
/// 2, control data, field lines, and the field section terminator.
pub open spec fn spec_request_head_encode(r: RequestHeadV) -> Seq<u8> {
    spec_varint_encode(2) + spec_prefixed_encode(r.method) + spec_prefixed_encode(r.scheme)
        + spec_prefixed_encode(spec_written_authority(r)) + spec_prefixed_encode(r.path)
        + spec_field_lines_encode(r.headers) + spec_varint_encode(0)
}

/// The initial chunk of an indeterminate-length response.
pub open spec fn spec_indeterminate_response_head_encode(r: ResponseHeadV) -> Seq<u8> {
    spec_varint_encode(3) + spec_varint_encode(r.status as u64) + spec_field_lines_encode(r.headers)
        + spec_varint_encode(0)
}

/// The initial chunk of a known-length response of `size` content bytes:
/// framing indicator 1, status, the length-prefixed field section, and the
/// content length.
pub open spec fn spec_known_response_head_encode(r: ResponseHeadV, size: u64) -> Seq<u8> {
    spec_varint_encode(1) + spec_varint_encode(r.status as u64) + spec_prefixed_encode(
        spec_field_lines_encode(r.headers),
    ) + spec_varint_encode(size)
}

/// Indeterminate-length content: each non-empty chunk, length-prefixed,
/// then the content terminator.
pub open spec fn spec_chunks_encode(cs: Seq<Seq<u8>>) -> Seq<u8>
    decreases cs.len(),
{
    if cs.len() == 0 {
        spec_varint_encode(0)
    } else if cs[0].len() == 0 {
        spec_chunks_encode(cs.drop_first())
    } else {
        spec_prefixed_encode(cs[0]) + spec_chunks_encode(cs.drop_first())
    }
}

/// A length-prefixed string takes at least one byte.
pub proof fn lemma_prefixed_nonempty(s: Seq<u8>)
    ensures
        spec_prefixed(s) matches Some((b, n)) ==> n >= 1 && n <= s.len(),
        spec_field_line(s) matches Some((f, n)) ==> n >= 1 && n <= s.len(),
{
    if spec_varint_decode(s) is Some {
        lemma_varint_decode_bound(s);
    }
    if let Some((b, n1)) = spec_prefixed(s) {
        let s1 = s.skip(n1 as int);
        if spec_varint_decode(s1) is Some {
            lemma_varint_decode_bound(s1);
        }
    }
}

/// Control data lies within the input.
pub proof fn lemma_control_data_bound(s: Seq<u8>)
    ensures
        spec_control_data(s) matches Some((_, n)) ==> n <= s.len(),
{
    if let Some((_, n)) = spec_control_data(s) {
        let (_, n1) = spec_prefixed(s).unwrap();
        lemma_prefixed_nonempty(s);
        let s1 = s.skip(n1 as int);
        let (_, n2) = spec_prefixed(s1).unwrap();
        lemma_prefixed_nonempty(s1);
        let s2 = s.skip((n1 + n2) as int);
        assert(s2 =~= s1.skip(n2 as int));
        let (_, n3) = spec_prefixed(s2).unwrap();
        lemma_prefixed_nonempty(s2);
        let s3 = s.skip((n1 + n2 + n3) as int);
        assert(s3 =~= s2.skip(n3 as int));
        lemma_prefixed_nonempty(s3);
    }
}

/// A known-length field section lies within the input.
pub proof fn lemma_known_field_section_bound(s: Seq<u8>)
    ensures
        spec_known_field_section(s) matches Some((_, n)) ==> n <= s.len(),
{
    lemma_prefixed_nonempty(s);
}

/// An indeterminate-length field section lies within the input.
pub proof fn lemma_indeterminate_field_section_bound(s: Seq<u8>)
    ensures
        spec_indeterminate_field_section(s) matches Some((_, n)) ==> n <= s.len(),
    decreases s.len(),
{
    if s.len() > 0 {
        if let Some((l, n)) = spec_varint_decode(s) {
            lemma_varint_decode_bound(s);
            if l != 0 {
                lemma_prefixed_nonempty(s);
                if let Some((f, k)) = spec_field_line(s) {
                    lemma_indeterminate_field_section_bound(s.skip(k as int));
                }
            }
        }
    }
}

/// The known content length lies within the input.
pub proof fn lemma_known_length_bound(s: Seq<u8>)
    ensures
        spec_known_length(s) matches Some((_, n)) ==> n <= s.len(),
{
    if s.len() > 0 && spec_varint_decode(s) is Some {
        lemma_varint_decode_bound(s);
    }
}

/// The final status lies within the input.
pub proof fn lemma_final_status_bound(s: Seq<u8>)
    ensures
        spec_final_status(s) matches Some((_, n)) ==> n <= s.len(),
    decreases s.len(),
{
    if let Some((st, n)) = spec_status(s) {
        lemma_varint_decode_bound(s);
        if st < 200 {
            let s1 = s.skip(n as int);
            lemma_known_field_section_bound(s1);
            if let Some((_, m)) = spec_known_field_section(s1) {
                assert(s.skip((n + m) as int) =~= s1.skip(m as int));
                lemma_final_status_bound(s.skip((n + m) as int));
            }
        }
    }
}

/// A request after its framing indicator lies within the input.
pub proof fn lemma_request_after_framing_bound(known: bool, s: Seq<u8>)
    ensures
        spec_request_after_framing(known, s) matches Some((_, _, n)) ==> n <= s.len(),
{
    lemma_control_data_bound(s);
    if let Some((c, n1)) = spec_control_data(s) {
        let s1 = s.skip(n1 as int);
        lemma_known_field_section_bound(s1);
        lemma_indeterminate_field_section_bound(s1);
        let fs = if known { spec_known_field_section(s1) } else { spec_indeterminate_field_section(s1) };
        if let Some((h, n2)) = fs {
            lemma_known_length_bound(s1.skip(n2 as int));
        }
    }
}

/// A response after its framing indicator lies within the input.
pub proof fn lemma_response_after_framing_bound(known: bool, s: Seq<u8>)
    ensures
        spec_response_after_framing(known, s) matches Some((_, _, n)) ==> n <= s.len(),
{
    lemma_final_status_bound(s);
    if let Some((st, n1)) = spec_final_status(s) {
        let s1 = s.skip(n1 as int);
        lemma_known_field_section_bound(s1);
        lemma_indeterminate_field_section_bound(s1);
        let fs = if known { spec_known_field_section(s1) } else { spec_indeterminate_field_section(s1) };
        if let Some((h, n2)) = fs {
            lemma_known_length_bound(s1.skip(n2 as int));
        }
    }
}

} // verus!
