//! Decoding of binary HTTP requests and responses from a `StreamBuf`.
//!
//! Each decoder states what it returns in terms of the grammar of
//! `bhttp`: on success, the grammar reads the same value from the bytes
//! that were left, and the reader has consumed exactly what the grammar
//! read. On a clean reader (see `StreamBuf::clean`) it also fails only
//! where the grammar does, and an error that is not the end of the input
//! is final: no input that continues what was read is accepted either. On
//! a quiet reader (no source error, whatever its limit) input that the
//! grammar accepts is refused only for the buffer limit.
use vstd::prelude::*;
use crate::bhttp::body::DecodedBody;
use crate::bhttp::{
    lemma_control_data_bound, lemma_request_after_framing_bound, lemma_response_after_framing_bound,
    lemma_known_field_section_bound, lemma_indeterminate_field_section_bound, lemma_final_status_bound,
    lemma_known_length_bound, fields_view, host_name, lemma_prefixed_nonempty, spec_control_data, spec_decode_request,
    spec_decode_response, spec_field_line, spec_field_lines, spec_final_status, spec_first_host,
    spec_indeterminate_field_section, spec_known_field_section, spec_known_length,
    spec_opt_authority, spec_request_after_framing, spec_request_head, spec_response_after_framing,
    spec_status, BodyKind, ControlV, Field, FieldV, RequestHead, RequestHeadV, ResponseHead,
    ResponseHeadV,
};
use crate::error::{Error, ErrorKind, Invalid};
use crate::http_parts::{
    http_authority, http_header_name, http_header_value, http_method, http_path, http_scheme,
    http_status_code_valid, opt_view, spec_http_authority, spec_http_header_name, spec_http_method, spec_http_path,
    spec_http_scheme,
    spec_http_header_value,
};
use crate::stream_buf::{
    int_need, lemma_prefixed_extend, lemma_skip_extend, lemma_varint_extend, lemma_varint_need, spec_prefixed, IntWidth,
    StreamBuf,
};
use crate::varint::{decode_varint, lemma_varint_decode_bound, spec_varint_decode};

verus! {

/// Request control data as read.
pub struct ControlData {
    pub method: Vec<u8>,
    pub scheme: Vec<u8>,
    pub authority: Option<Vec<u8>>,
    pub path: Vec<u8>,
}

impl View for ControlData {
    type V = ControlV;

    open spec fn view(&self) -> ControlV {
        ControlV { method: self.method@, scheme: self.scheme@, authority: opt_view(self.authority), path: self.path@ }
    }
}

/// A decoded request: its head, and its content still to be read.
pub struct DecodedRequest {
    pub head: RequestHead,
    pub body: DecodedBody,
}

/// A decoded response: its head, and its content still to be read.
pub struct DecodedResponse {
    pub head: ResponseHead,
    pub body: DecodedBody,
}

proof fn lemma_skip_skip(s: Seq<u8>, a: int, b: int)
    requires
        0 <= a,
        0 <= b,
        a + b <= s.len(),
    ensures
        s.skip(a).skip(b) == s.skip(a + b),
{
    assert(s.skip(a).skip(b) =~= s.skip(a + b));
}

/// A length-prefixed string that `d` holds whole reads the same with more
/// input after `d`, and so does what follows it.
proof fn lemma_prefixed_stage(d: Seq<u8>, t: Seq<u8>)
    requires
        spec_prefixed(d) is Some,
    ensures
        spec_prefixed(d + t) == spec_prefixed(d),
        (d + t).skip(spec_prefixed(d).unwrap().1 as int) == d.skip(spec_prefixed(d).unwrap().1 as int) + t,
{
    lemma_prefixed_extend(d, t);
    lemma_prefixed_nonempty(d);
    lemma_skip_extend(d, t, spec_prefixed(d).unwrap().1 as int);
}

/// Reads a length-prefixed string.
fn read_prefixed(sb: &mut StreamBuf) -> (r: Result<Vec<u8>, Error>)
    requires
        old(sb).wf(),
    ensures
        final(sb).wf(),
        r matches Ok(b) ==> spec_prefixed(old(sb).data()) matches Some((x, n)) && x == b@
            && final(sb).data() == old(sb).data().skip(n as int),
        r is Ok ==> final(sb).follows(old(sb)),
        old(sb).clean() ==> (r is Ok <==> spec_prefixed(old(sb).data()) is Some),
        old(sb).clean() && r is Ok ==> final(sb).clean(),
        old(sb).clean() ==> (r matches Err(e) ==> e.spec_kind() == ErrorKind::UnexpectedEof || forall|t: Seq<u8>|
            #[trigger] spec_prefixed(old(sb).data() + t) is None),
        old(sb).quiet() && spec_prefixed(old(sb).data()) is Some ==> r is Ok || r == Err::<Vec<u8>, Error>(
            Error::MaxBufSize,
        ),
        old(sb).quiet() && r is Ok ==> final(sb).quiet(),
{
    let ghost st0 = *sb;
    let r = sb.read_with_varint_length();
    proof {
        if r is Ok {
            if st0.clean() {
                sb.lemma_follows_clean(&st0);
            }
            if st0.quiet() {
                sb.lemma_follows_quiet(&st0);
            }
        }
    }
    r
}

/// Where the control data at the start of `d` is refused at some part,
/// and that part is refused whatever follows `d`, the control data is
/// refused whatever follows `d`.
proof fn lemma_control_data_refused(d: Seq<u8>, t: Seq<u8>)
    ensures
        spec_prefixed(d + t) is None ==> spec_control_data(d + t) is None,
        spec_prefixed(d) matches Some((m, n1)) ==> {
            let d1 = d.skip(n1 as int);
            &&& spec_http_method(m) is None ==> spec_control_data(d + t) is None
            &&& spec_prefixed(d1 + t) is None ==> spec_control_data(d + t) is None
            &&& spec_prefixed(d1) matches Some((sc, n2)) ==> {
                let d2 = d1.skip(n2 as int);
                &&& spec_http_scheme(sc) is None ==> spec_control_data(d + t) is None
                &&& spec_prefixed(d2 + t) is None ==> spec_control_data(d + t) is None
                &&& spec_prefixed(d2) matches Some((au, n3)) ==> {
                    let d3 = d2.skip(n3 as int);
                    &&& spec_opt_authority(au) is None ==> spec_control_data(d + t) is None
                    &&& spec_prefixed(d3 + t) is None ==> spec_control_data(d + t) is None
                    &&& (spec_prefixed(d3) matches Some((pa, _)) ==> (spec_http_path(pa) is None ==> spec_control_data(d + t) is None))
                }
            }
        },
{
    if let Some((m, n1)) = spec_prefixed(d) {
        lemma_prefixed_stage(d, t);
        let d1 = d.skip(n1 as int);
        if let Some((sc, n2)) = spec_prefixed(d1) {
            lemma_prefixed_stage(d1, t);
            lemma_skip_skip(d + t, n1 as int, n2 as int);
            lemma_prefixed_nonempty(d1);
            lemma_skip_extend(d, t, (n1 + n2) as int);
            lemma_skip_skip(d, n1 as int, n2 as int);
            let d2 = d1.skip(n2 as int);
            if let Some((au, n3)) = spec_prefixed(d2) {
                lemma_prefixed_stage(d2, t);
                lemma_prefixed_nonempty(d2);
                lemma_skip_skip(d + t, (n1 + n2) as int, n3 as int);
                lemma_skip_skip(d, (n1 + n2) as int, n3 as int);
                lemma_skip_extend(d, t, (n1 + n2 + n3) as int);
                let d3 = d2.skip(n3 as int);
                if spec_prefixed(d3) is Some {
                    lemma_prefixed_stage(d3, t);
                }
            }
        }
    }
}

/// Control data that `d` holds whole reads the same with more input after
/// `d`, and so does what follows it.
proof fn lemma_control_data_extend(d: Seq<u8>, t: Seq<u8>)
    requires
        spec_control_data(d) is Some,
    ensures
        spec_control_data(d + t) == spec_control_data(d),
        (d + t).skip(spec_control_data(d).unwrap().1 as int) == d.skip(spec_control_data(d).unwrap().1 as int) + t,
{
    let (m, n1) = spec_prefixed(d).unwrap();
    lemma_prefixed_nonempty(d);
    lemma_prefixed_stage(d, t);
    let d1 = d.skip(n1 as int);
    let (sc, n2) = spec_prefixed(d1).unwrap();
    lemma_prefixed_nonempty(d1);
    lemma_prefixed_stage(d1, t);
    lemma_skip_skip(d, n1 as int, n2 as int);
    lemma_skip_skip(d + t, n1 as int, n2 as int);
    let d2 = d1.skip(n2 as int);
    let (au, n3) = spec_prefixed(d2).unwrap();
    lemma_prefixed_nonempty(d2);
    lemma_prefixed_stage(d2, t);
    lemma_skip_skip(d, (n1 + n2) as int, n3 as int);
    lemma_skip_skip(d + t, (n1 + n2) as int, n3 as int);
    let d3 = d2.skip(n3 as int);
    lemma_prefixed_nonempty(d3);
    lemma_prefixed_stage(d3, t);
    let n4 = spec_prefixed(d3).unwrap().1;
    lemma_skip_skip(d, (n1 + n2 + n3) as int, n4 as int);
    lemma_skip_extend(d, t, (n1 + n2 + n3 + n4) as int);
    lemma_skip_extend(d, t, (n1 + n2 + n3) as int);
    lemma_skip_extend(d, t, (n1 + n2) as int);
}

/// Reads request control data: method, scheme, authority and path.
pub fn decode_request_control_data(sb: &mut StreamBuf) -> (r: Result<ControlData, Error>)
    requires
        old(sb).wf(),
    ensures
        final(sb).wf(),
        r matches Ok(c) ==> spec_control_data(old(sb).data()) matches Some((x, n)) && x == c@
            && final(sb).data() == old(sb).data().skip(n as int),
        r is Ok ==> final(sb).follows(old(sb)),
        old(sb).clean() ==> (r is Ok <==> spec_control_data(old(sb).data()) is Some),
        old(sb).clean() && r is Ok ==> final(sb).clean(),
        old(sb).clean() ==> (r matches Err(e) ==> e.spec_kind() == ErrorKind::UnexpectedEof || forall|t: Seq<u8>|
            #[trigger] spec_control_data(old(sb).data() + t) is None),
        old(sb).quiet() && spec_control_data(old(sb).data()) is Some ==> r is Ok || r == Err::<ControlData, Error>(
            Error::MaxBufSize,
        ),
        old(sb).quiet() && r is Ok ==> final(sb).quiet(),
{
    let ghost st0 = *sb;
    let ghost d0 = sb.data();
    let m = match read_prefixed(sb) {
        Ok(x) => x,
        Err(e) => {
            proof {
                assert forall|t: Seq<u8>| st0.clean() && e.spec_kind() != ErrorKind::UnexpectedEof
                    implies #[trigger] spec_control_data(d0 + t) is None by {
                    lemma_control_data_refused(d0, t);
                }
            }
            return Err(e);
        },
    };
    let ghost st1 = *sb;
    let ghost n1 = spec_prefixed(d0).unwrap().1;
    proof {
        lemma_prefixed_nonempty(d0);
        if st0.quiet() {
            st1.lemma_follows_quiet(&st0);
        }
    }
    let method = match http_method(m.as_slice()) {
        Some(x) => x,
        None => {
            proof {
                assert forall|t: Seq<u8>| #[trigger] spec_control_data(d0 + t) is None by {
                    lemma_control_data_refused(d0, t);
                }
            }
            return Err(Error::InvalidData(Invalid::Method));
        },
    };
    let sc = match read_prefixed(sb) {
        Ok(x) => x,
        Err(e) => {
            proof {
                assert forall|t: Seq<u8>| st0.clean() && e.spec_kind() != ErrorKind::UnexpectedEof
                    implies #[trigger] spec_control_data(d0 + t) is None by {
                    lemma_control_data_refused(d0, t);
                }
            }
            return Err(e);
        },
    };
    let ghost st2 = *sb;
    let ghost n2 = spec_prefixed(st1.data()).unwrap().1;
    proof {
        lemma_prefixed_nonempty(st1.data());
        lemma_skip_skip(d0, n1 as int, n2 as int);
        sb.lemma_follows_trans(&st1, &st0);
        if st0.quiet() {
            st2.lemma_follows_quiet(&st0);
        }
    }
    let scheme = match http_scheme(sc.as_slice()) {
        Some(x) => x,
        None => {
            proof {
                assert forall|t: Seq<u8>| #[trigger] spec_control_data(d0 + t) is None by {
                    lemma_control_data_refused(d0, t);
                }
            }
            return Err(Error::InvalidData(Invalid::Scheme));
        },
    };
    let a = match read_prefixed(sb) {
        Ok(x) => x,
        Err(e) => {
            proof {
                assert forall|t: Seq<u8>| st0.clean() && e.spec_kind() != ErrorKind::UnexpectedEof
                    implies #[trigger] spec_control_data(d0 + t) is None by {
                    lemma_control_data_refused(d0, t);
                }
            }
            return Err(e);
        },
    };
    let ghost st3 = *sb;
    let ghost n3 = spec_prefixed(st2.data()).unwrap().1;
    proof {
        lemma_prefixed_nonempty(st2.data());
        lemma_skip_skip(d0, (n1 + n2) as int, n3 as int);
        sb.lemma_follows_trans(&st2, &st0);
        if st0.quiet() {
            st3.lemma_follows_quiet(&st0);
        }
    }
    let authority = if a.len() == 0 {
        None
    } else {
        match http_authority(a.as_slice()) {
            Some(x) => Some(x),
            None => {
                proof {
                    assert forall|t: Seq<u8>| #[trigger] spec_control_data(d0 + t) is None by {
                        lemma_control_data_refused(d0, t);
                    }
                }
                return Err(Error::InvalidData(Invalid::Authority));
            },
        }
    };
    let p = match read_prefixed(sb) {
        Ok(x) => x,
        Err(e) => {
            proof {
                assert forall|t: Seq<u8>| st0.clean() && e.spec_kind() != ErrorKind::UnexpectedEof
                    implies #[trigger] spec_control_data(d0 + t) is None by {
                    lemma_control_data_refused(d0, t);
                }
            }
            return Err(e);
        },
    };
    let ghost n4 = spec_prefixed(st3.data()).unwrap().1;
    proof {
        lemma_prefixed_nonempty(st3.data());
        lemma_skip_skip(d0, (n1 + n2 + n3) as int, n4 as int);
        sb.lemma_follows_trans(&st3, &st0);
        if st0.quiet() {
            sb.lemma_follows_quiet(&st0);
        }
    }
    let path = match http_path(p.as_slice()) {
        Some(x) => x,
        None => {
            proof {
                assert forall|t: Seq<u8>| #[trigger] spec_control_data(d0 + t) is None by {
                    lemma_control_data_refused(d0, t);
                }
            }
            return Err(Error::InvalidData(Invalid::Path));
        },
    };
    Ok(ControlData { method, scheme, authority, path })
}

/// `a` followed by the fields `o`, if any.
pub open spec fn prepend_fields(a: Seq<FieldV>, o: Option<Seq<FieldV>>) -> Option<Seq<FieldV>> {
    match o {
        Some(x) => Some(a + x),
        None => None,
    }
}

/// The length-prefixed string at the start of `s`, and the length of the
/// prefix and string together.
fn prefixed_at<'a>(s: &'a [u8]) -> (r: Option<(&'a [u8], usize)>)
    ensures
        match spec_prefixed(s@) {
            Some((b, n)) => r matches Some((x, k)) && x@ == b && k == n,
            None => r is None,
        },
{
    let (len, n) = match decode_varint(s) {
        Some(x) => x,
        None => return None,
    };
    proof {
        lemma_varint_decode_bound(s@);
    }
    if len > (s.len() - n) as u64 {
        return None;
    }
    let end = n + len as usize;
    Some((vstd::slice::slice_subrange(s, n, end), end))
}

/// The field line at the start of `s`, and its length.
fn field_line_at(s: &[u8]) -> (r: Result<(Field, usize), Error>)
    ensures
        match spec_field_line(s@) {
            Some((f, n)) => r matches Ok((x, k)) && x@ == f && k == n,
            None => r is Err,
        },
{
    let (name, n1) = match prefixed_at(s) {
        Some(x) => x,
        None => return Err(Error::InvalidData(Invalid::TruncatedFieldName)),
    };
    proof {
        lemma_prefixed_nonempty(s@);
    }
    let rest = vstd::slice::slice_subrange(s, n1, s.len());
    assert(rest@ == s@.skip(n1 as int));
    let (value, n2) = match prefixed_at(rest) {
        Some(x) => x,
        None => return Err(Error::InvalidData(Invalid::TruncatedFieldValue)),
    };
    proof {
        lemma_prefixed_nonempty(rest@);
    }
    let name = match http_header_name(name) {
        Some(x) => x,
        None => return Err(Error::InvalidData(Invalid::HeaderName)),
    };
    let value = match http_header_value(value) {
        Some(x) => x,
        None => return Err(Error::InvalidData(Invalid::HeaderValue)),
    };
    Ok((Field { name, value }, n1 + n2))
}

/// The field lines that fill all of `buf`, in order.
pub fn parse_field_lines(buf: &[u8]) -> (r: Result<Vec<Field>, Error>)
    ensures
        match spec_field_lines(buf@) {
            Some(f) => r matches Ok(x) && fields_view(x@) == f,
            None => r is Err,
        },
{
    let mut out: Vec<Field> = Vec::new();
    let mut pos: usize = 0;
    assert(buf@.skip(0) == buf@);
    proof {
        assert(fields_view(out@) =~= Seq::<FieldV>::empty());
        if let Some(x) = spec_field_lines(buf@) {
            assert(Seq::<FieldV>::empty() + x =~= x);
        }
    }
    while pos < buf.len()
        invariant
            pos <= buf@.len(),
            spec_field_lines(buf@) == prepend_fields(fields_view(out@), spec_field_lines(buf@.skip(pos as int))),
        decreases buf@.len() - pos,
    {
        let rest = vstd::slice::slice_subrange(buf, pos, buf.len());
        assert(rest@ == buf@.skip(pos as int));
        let ghost old_out = fields_view(out@);
        let (f, k) = match field_line_at(rest) {
            Ok(x) => x,
            Err(e) => {
                return Err(e);
            },
        };
        proof {
            lemma_prefixed_nonempty(rest@);
            assert(rest@.skip(k as int) == buf@.skip(pos + k));
        }
        out.push(f);
        proof {
            assert(fields_view(out@) =~= old_out.push(f@));
            let tail = spec_field_lines(buf@.skip(pos + k));
            if let Some(t) = tail {
                assert(old_out + (seq![f@] + t) =~= old_out.push(f@) + t);
            }
        }
        pos = pos + k;
    }
    proof {
        assert(buf@.skip(pos as int) =~= Seq::<u8>::empty());
        assert(fields_view(out@) + Seq::<FieldV>::empty() =~= fields_view(out@));
    }
    Ok(out)
}

/// Reads a known-length field section: none when the input is over, else
/// a length-prefixed run of field lines.
pub fn decode_known_length_field_section(sb: &mut StreamBuf) -> (r: Result<Vec<Field>, Error>)
    requires
        old(sb).wf(),
    ensures
        final(sb).wf(),
        r matches Ok(h) ==> spec_known_field_section(old(sb).data()) matches Some((x, n))
            && x == fields_view(h@) && final(sb).data() == old(sb).data().skip(n as int),
        r is Ok ==> final(sb).follows(old(sb)),
        old(sb).clean() ==> (r is Ok <==> spec_known_field_section(old(sb).data()) is Some),
        old(sb).clean() && r is Ok ==> final(sb).clean(),
        old(sb).clean() ==> (r matches Err(e) ==> e.spec_kind() == ErrorKind::UnexpectedEof || forall|t: Seq<u8>|
            #[trigger] spec_known_field_section(old(sb).data() + t) is None),
        old(sb).quiet() && spec_known_field_section(old(sb).data()) is Some ==> r is Ok || r == Err::<
            Vec<Field>,
            Error,
        >(Error::MaxBufSize),
        old(sb).quiet() && r is Ok ==> final(sb).quiet(),
{
    let ghost st0 = *sb;
    let ghost d0 = sb.data();
    let more = sb.has_more_data()?;
    proof {
        if st0.quiet() {
            st0.lemma_dense_nonempty();
            sb.lemma_follows_quiet(&st0);
        }
    }
    let ghost st1 = *sb;
    proof {
        if st0.clean() {
            st0.lemma_dense_nonempty();
            st1.lemma_follows_clean(&st0);
        }
    }
    if !more {
        proof {
            assert(sb.data().skip(0) =~= sb.data());
            assert(fields_view(Seq::<Field>::empty()) =~= Seq::<FieldV>::empty());
        }
        return Ok(Vec::new());
    }
    let buf = match read_prefixed(sb) {
        Ok(b) => b,
        Err(e) => {
            proof {
                assert forall|t: Seq<u8>| st0.clean() && e.spec_kind() != ErrorKind::UnexpectedEof
                    implies #[trigger] spec_known_field_section(d0 + t) is None by {
                    assert((d0 + t).len() > 0);
                    assert(spec_prefixed(st1.data() + t) is None);
                }
            }
            return Err(e);
        },
    };
    proof {
        sb.lemma_follows_trans(&st1, &st0);
        lemma_prefixed_nonempty(st0.data());
        assert forall|t: Seq<u8>| #![trigger spec_known_field_section(d0 + t)] spec_field_lines(buf@) is None
            implies spec_known_field_section(d0 + t) is None by {
            lemma_prefixed_stage(d0, t);
        }
    }
    parse_field_lines(buf.as_slice())
}

/// A field line whose name length `l` was read already: `l` bytes of name,
/// then a length-prefixed value, each accepted by `http`.
pub open spec fn spec_field_after(l: nat, d: Seq<u8>) -> Option<(FieldV, nat)> {
    if l <= d.len() && l <= usize::MAX {
        match spec_prefixed(d.skip(l as int)) {
            None => None,
            Some((v, m)) => match (spec_http_header_name(d.take(l as int)), spec_http_header_value(v)) {
                (Some(nn), Some(vv)) => Some(((nn, vv), l + m)),
                _ => None,
            },
        }
    } else {
        None
    }
}

proof fn lemma_field_line_split(d: Seq<u8>)
    requires
        spec_varint_decode(d) matches Some((l, n)) && l != 0,
    ensures
        ({
            let (l, n) = spec_varint_decode(d).unwrap();
            &&& n <= d.len()
            &&& spec_field_line(d) == match spec_field_after(l as nat, d.skip(n as int)) {
                Some((f, k)) => Some((f, n + k)),
                None => None,
            }
        }),
{
    let (l, n) = spec_varint_decode(d).unwrap();
    lemma_varint_decode_bound(d);
    let d1 = d.skip(n as int);
    if l <= d1.len() {
        assert(d.subrange(n as int, n + l) =~= d1.take(l as int));
        assert(d.skip(n + l) =~= d1.skip(l as int));
    }
}

/// The rest of a field line, when `d` holds its name whole: refused
/// whatever follows `d` when its name is refused, when its value is
/// refused whatever follows, or when `d` holds its value whole and that
/// value is refused.
proof fn lemma_field_after_refused(l: nat, d: Seq<u8>, t: Seq<u8>)
    requires
        l <= d.len(),
        l <= usize::MAX,
    ensures
        spec_prefixed(d.skip(l as int) + t) is None ==> spec_field_after(l, d + t) is None,
        spec_http_header_name(d.take(l as int)) is None ==> spec_field_after(l, d + t) is None,
        spec_prefixed(d.skip(l as int)) matches Some((v, _)) ==> (spec_http_header_value(v) is None
            ==> spec_field_after(l, d + t) is None),
{
    assert((d + t).take(l as int) =~= d.take(l as int));
    lemma_skip_extend(d, t, l as int);
    if spec_prefixed(d.skip(l as int)) is Some {
        lemma_prefixed_stage(d.skip(l as int), t);
    }
}

/// Reads the rest of a field line whose name length was read already.
fn read_field_after(sb: &mut StreamBuf, name_len: usize) -> (r: Result<Field, Error>)
    requires
        old(sb).wf(),
    ensures
        final(sb).wf(),
        r is Ok ==> final(sb).follows(old(sb)),
        r matches Ok(f) ==> spec_field_after(name_len as nat, old(sb).data()) matches Some((x, k))
            && x == f@ && final(sb).data() == old(sb).data().skip(k as int),
        old(sb).clean() ==> (r is Ok <==> spec_field_after(name_len as nat, old(sb).data()) is Some),
        old(sb).clean() && r is Ok ==> final(sb).clean(),
        old(sb).clean() ==> (r matches Err(e) ==> e.spec_kind() == ErrorKind::UnexpectedEof || forall|t: Seq<u8>|
            #[trigger] spec_field_after(name_len as nat, old(sb).data() + t) is None),
        old(sb).quiet() && spec_field_after(name_len as nat, old(sb).data()) is Some ==> r is Ok || r == Err::<
            Field,
            Error,
        >(Error::MaxBufSize),
        old(sb).quiet() && r is Ok ==> final(sb).quiet(),
{
    let ghost st0 = *sb;
    let ghost d0 = sb.data();
    proof {
        if st0.clean() {
            crate::stream_buf::lemma_unbounded_no_trip(st0.buffered().len(), st0.pending(), st0.limit(), name_len as int);
        }
    }
    let name = sb.read_exact(name_len)?;
    let ghost st1 = *sb;
    proof {
        if st0.clean() {
            st1.lemma_follows_clean(&st0);
        }
        if st0.quiet() {
            st1.lemma_follows_quiet(&st0);
        }
    }
    let value = match sb.read_with_varint_length() {
        Ok(v) => v,
        Err(e) => {
            proof {
                assert forall|t: Seq<u8>| st0.clean() && e.spec_kind() != ErrorKind::UnexpectedEof
                    implies #[trigger] spec_field_after(name_len as nat, d0 + t) is None by {
                    lemma_field_after_refused(name_len as nat, d0, t);
                    assert(spec_prefixed(st1.data() + t) is None);
                }
            }
            return Err(e);
        },
    };
    proof {
        assert forall|t: Seq<u8>| #![trigger spec_field_after(name_len as nat, d0 + t)]
            (spec_http_header_name(d0.take(name_len as int)) is None || spec_http_header_value(value@) is None)
            implies spec_field_after(name_len as nat, d0 + t) is None by {
            lemma_field_after_refused(name_len as nat, d0, t);
        }
    }
    proof {
        sb.lemma_follows_trans(&st1, &st0);
        if st0.clean() {
            sb.lemma_follows_clean(&st0);
        }
        if st0.quiet() {
            sb.lemma_follows_quiet(&st0);
        }
        let m = spec_prefixed(st1.data()).unwrap().1;
        assert(st0.data().skip(name_len as int).skip(m as int) =~= st0.data().skip(name_len + m));
    }
    let name = match http_header_name(name.as_slice()) {
        Some(x) => x,
        None => return Err(Error::InvalidData(Invalid::HeaderName)),
    };
    let value = match http_header_value(value.as_slice()) {
        Some(x) => x,
        None => return Err(Error::InvalidData(Invalid::HeaderValue)),
    };
    Ok(Field { name, value })
}

/// A field line that `d` holds whole reads the same with more input after
/// `d`, and so does the indeterminate-length section from there on; and a
/// field line refused whatever follows refuses the section.
proof fn lemma_field_section_extend(d: Seq<u8>, t: Seq<u8>)
    requires
        spec_varint_decode(d) matches Some((l, _)) && l != 0,
    ensures
        ({
            let (l, n) = spec_varint_decode(d).unwrap();
            &&& l > usize::MAX ==> spec_indeterminate_field_section(d + t) is None
            &&& spec_field_after(l as nat, d.skip(n as int) + t) is None ==> spec_indeterminate_field_section(d + t) is None
            &&& spec_field_line(d) matches Some((f, k)) ==> spec_indeterminate_field_section(d + t) == match
                spec_indeterminate_field_section(d.skip(k as int) + t) {
                Some((rest, m)) => Some((seq![f] + rest, k + m)),
                None => None,
            }
        }),
{
    let (l, n) = spec_varint_decode(d).unwrap();
    lemma_varint_extend(d, t);
    lemma_varint_decode_bound(d);
    lemma_prefixed_extend(d, t);
    lemma_field_line_split(d);
    lemma_field_line_split(d + t);
    lemma_skip_extend(d, t, n as int);
    assert((d + t).len() > 0);
    if let Some((f, k)) = spec_field_line(d) {
        lemma_prefixed_nonempty(d);
        let (nm, n1) = spec_prefixed(d).unwrap();
        lemma_prefixed_stage(d, t);
        lemma_prefixed_stage(d.skip(n1 as int), t);
        lemma_skip_skip(d, n1 as int, (k - n1) as int);
        lemma_skip_skip(d + t, n1 as int, (k - n1) as int);
        lemma_skip_extend(d, t, k as int);
        assert(spec_field_line(d + t) == spec_field_line(d));
    }
}

/// Reads an indeterminate-length field section: field lines up to a zero
/// name length, or up to the end of the input.
#[verifier::rlimit(100)]
#[verifier::spinoff_prover]
pub fn decode_indeterminate_length_field_section(sb: &mut StreamBuf) -> (r: Result<Vec<Field>, Error>)
    requires
        old(sb).wf(),
    ensures
        final(sb).wf(),
        r matches Ok(h) ==> spec_indeterminate_field_section(old(sb).data()) matches Some((x, n))
            && x == fields_view(h@) && final(sb).data() == old(sb).data().skip(n as int),
        r is Ok ==> final(sb).follows(old(sb)),
        old(sb).clean() ==> (r is Ok <==> spec_indeterminate_field_section(old(sb).data()) is Some),
        old(sb).clean() && r is Ok ==> final(sb).clean(),
        old(sb).clean() ==> (r matches Err(e) ==> e.spec_kind() == ErrorKind::UnexpectedEof || forall|t: Seq<u8>|
            #[trigger] spec_indeterminate_field_section(old(sb).data() + t) is None),
        old(sb).quiet() && spec_indeterminate_field_section(old(sb).data()) is Some ==> r is Ok || r == Err::<
            Vec<Field>,
            Error,
        >(Error::MaxBufSize),
        old(sb).quiet() && r is Ok ==> final(sb).quiet(),
{
    let ghost st0 = *sb;
    let ghost d0 = sb.data();
    let mut out: Vec<Field> = Vec::new();
    proof {
        sb.lemma_follows_refl();
        assert(d0.skip(0) =~= d0);
        assert(fields_view(out@) =~= Seq::<FieldV>::empty());
        if let Some((x, m)) = spec_indeterminate_field_section(d0) {
            assert(Seq::<FieldV>::empty() + x =~= x);
        }
        assert forall|t: Seq<u8>| #[trigger] spec_indeterminate_field_section(d0 + t) == match
            spec_indeterminate_field_section(d0 + t) {
            Some((rest, m)) => Some((fields_view(out@) + rest, 0 + m)),
            None => None,
        } by {
            if let Some((x, m)) = spec_indeterminate_field_section(d0 + t) {
                assert(fields_view(out@) + x =~= x);
            }
        }
    }
    let ghost mut used: nat = 0;
    loop
        invariant_except_break
            spec_indeterminate_field_section(d0) == match spec_indeterminate_field_section(sb.data()) {
                Some((rest, m)) => Some((fields_view(out@) + rest, used + m)),
                None => None,
            },
            forall|t: Seq<u8>| #[trigger] spec_indeterminate_field_section(d0 + t) == match
                spec_indeterminate_field_section(sb.data() + t) {
                Some((rest, m)) => Some((fields_view(out@) + rest, used + m)),
                None => None,
            },
        invariant
            st0 == *old(sb),
            d0 == st0.data(),
            sb.wf(),
            sb.follows(&st0),
            st0.clean() ==> sb.clean(),
            st0.quiet() ==> sb.quiet(),
            used <= d0.len(),
            sb.data() == d0.skip(used as int),
        ensures
            spec_indeterminate_field_section(d0) == Some((fields_view(out@), used)),
        decreases sb.data().len(),
    {
        let ghost sti = *sb;
        let ghost di = sb.data();
        let more = match sb.has_more_data() {
            Ok(x) => x,
            Err(e) => {
                return Err(e);
            },
        };
        let ghost st1 = *sb;
        proof {
            sb.lemma_follows_trans(&sti, &st0);
            if st0.clean() {
                sti.lemma_dense_nonempty();
                st1.lemma_follows_clean(&st0);
            }
            if st0.quiet() {
                sti.lemma_dense_nonempty();
                st1.lemma_follows_quiet(&st0);
            }
        }
        if !more {
            proof {
                assert(di =~= Seq::<u8>::empty());
                assert(fields_view(out@) + Seq::<FieldV>::empty() =~= fields_view(out@));
            }
            break;
        }
        let name_len = match sb.decode_varint_usize() {
            Ok(x) => x,
            Err(e) => {
                proof {
                    if st0.clean() {
                        assert(di.len() > 0);
                        if let Some((l, n)) = spec_varint_decode(di) {
                            assert(spec_prefixed(di) is None);
                            assert(spec_field_line(di) is None);
                        }
                        assert(spec_indeterminate_field_section(di) is None);
                    }
                    if st0.quiet() && spec_indeterminate_field_section(d0) is Some {
                        assert(di.len() > 0);
                        if let Some((l, n)) = spec_varint_decode(di) {
                            if l != 0 {
                                assert(spec_field_line(di) is Some);
                                assert(spec_prefixed(di) is Some);
                            }
                        }
                    }
                    if st0.clean() {
                        assert forall|t: Seq<u8>| e.spec_kind() != ErrorKind::UnexpectedEof
                            implies #[trigger] spec_indeterminate_field_section(d0 + t) is None by {
                            lemma_field_section_extend(di, t);
                            assert(spec_indeterminate_field_section(di + t) is None);
                        }
                    }
                }
                return Err(e);
            },
        };
        let ghost st2 = *sb;
        let ghost n = int_need(IntWidth::Varint, di);
        proof {
            lemma_varint_decode_bound(di);
            sb.lemma_follows_trans(&st1, &st0);
            if st0.clean() {
                st2.lemma_follows_clean(&st0);
            }
            if st0.quiet() {
                st2.lemma_follows_quiet(&st0);
            }
        }
        if name_len == 0 {
            proof {
                assert(d0.skip(used as int).skip(n as int) =~= d0.skip((used + n) as int));
                assert(fields_view(out@) + Seq::<FieldV>::empty() =~= fields_view(out@));
                used = used + n;
            }
            break;
        }
        proof {
            lemma_field_line_split(di);
        }
        let f = match read_field_after(sb, name_len) {
            Ok(x) => x,
            Err(e) => {
                proof {
                    assert forall|t: Seq<u8>| st0.clean() && e.spec_kind() != ErrorKind::UnexpectedEof
                        implies #[trigger] spec_indeterminate_field_section(d0 + t) is None by {
                        lemma_field_section_extend(di, t);
                        assert(spec_field_after(name_len as nat, st2.data() + t) is None);
                        assert(spec_indeterminate_field_section(di + t) is None);
                    }
                }
                return Err(e);
            },
        };
        let ghost old_out = fields_view(out@);
        out.push(f);
        proof {
            sb.lemma_follows_trans(&st2, &st0);
            if st0.quiet() {
                sb.lemma_follows_quiet(&st0);
            }
            let k = spec_field_after(name_len as nat, st2.data()).unwrap().1;
            lemma_prefixed_nonempty(di);
            assert(di.skip(n as int).skip(k as int) =~= di.skip((n + k) as int));
            assert(d0.skip(used as int).skip((n + k) as int) =~= d0.skip((used + n + k) as int));
            assert(fields_view(out@) =~= old_out.push(f@));
            if let Some((t, mm)) = spec_indeterminate_field_section(sb.data()) {
                assert(old_out + (seq![f@] + t) =~= old_out.push(f@) + t);
            }
            let ghost used0 = used;
            assert forall|t: Seq<u8>| #[trigger] spec_indeterminate_field_section(d0 + t) == match
                spec_indeterminate_field_section(sb.data() + t) {
                Some((rest, m)) => Some((fields_view(out@) + rest, used0 + n + k + m)),
                None => None,
            } by {
                lemma_field_section_extend(di, t);
                assert(spec_indeterminate_field_section(d0 + t) == match spec_indeterminate_field_section(di + t) {
                    Some((rest, m)) => Some((old_out + rest, used0 + m)),
                    None => None,
                });
                if let Some((rest, m)) = spec_indeterminate_field_section(sb.data() + t) {
                    assert(old_out + (seq![f@] + rest) =~= fields_view(out@) + rest);
                }
            }
            used = used + n + k;
        }
    }
    Ok(out)
}

/// The value of the first `host` field.
pub fn first_host(h: &Vec<Field>) -> (r: Option<&Vec<u8>>)
    ensures
        match spec_first_host(fields_view(h@)) {
            Some(v) => r matches Some(x) && x@ == v,
            None => r is None,
        },
{
    let mut i: usize = 0;
    assert(fields_view(h@).skip(0) =~= fields_view(h@));
    while i < h.len()
        invariant
            i <= h@.len(),
            spec_first_host(fields_view(h@)) == spec_first_host(fields_view(h@).skip(i as int)),
        decreases h@.len() - i,
    {
        let ghost rest = fields_view(h@).skip(i as int);
        assert(rest[0] == h@[i as int]@);
        assert(rest.drop_first() =~= fields_view(h@).skip(i + 1));
        if h[i].name.len() == 4 && h[i].name[0] == 104u8 && h[i].name[1] == 111u8 && h[i].name[2] == 115u8
            && h[i].name[3] == 116u8 {
            assert(h@[i as int].name@ =~= host_name());
            return Some(&h[i].value);
        }
        proof {
            if h@[i as int].name@ == host_name() {
                assert(h@[i as int].name@[0] == 104u8);
            }
        }
        i = i + 1;
    }
    None
}

/// A request head from its control data and field section: the authority
/// is that of the control data, or else the first `host` field.
pub fn request(c: ControlData, h: Vec<Field>) -> (r: Result<RequestHead, Error>)
    ensures
        match spec_request_head(c@, fields_view(h@)) {
            Some(x) => r matches Ok(head) && head@ == x,
            None => r is Err,
        },
        r matches Err(e) ==> c@.authority is None && (e == Error::InvalidData(Invalid::NoAuthority) || e
            == Error::InvalidData(Invalid::Authority)),
{
    let authority = match c.authority {
        Some(a) => a,
        None => match first_host(&h) {
            Some(host) => match http_authority(host.as_slice()) {
                Some(a) => a,
                None => return Err(Error::InvalidData(Invalid::Authority)),
            },
            None => return Err(Error::InvalidData(Invalid::NoAuthority)),
        },
    };
    Ok(RequestHead { method: c.method, scheme: c.scheme, authority, path: c.path, headers: h })
}

/// `e` refuses the authority of a request whose control data (at the start
/// of `d`) names none: the authority then comes from a `host` field, and
/// input after `d` may still bring the fields that decide it.
pub open spec fn authority_from_fields(e: Error, d: Seq<u8>) -> bool {
    &&& e == Error::InvalidData(Invalid::NoAuthority) || e == Error::InvalidData(Invalid::Authority)
    &&& spec_control_data(d) matches Some((c, _)) && c.authority is None
}

/// Reads the rest of a request after its framing indicator.
fn decode_request_after_framing(sb: StreamBuf, known: bool) -> (r: Result<DecodedRequest, Error>)
    requires
        sb.wf(),
    ensures
        r matches Ok(req) ==> req.body.wf() && (spec_request_after_framing(known, sb.data()) matches Some((x, b, n))
            && req.head@ == x && req.body.kind() == b && req.body.input().data() == sb.data().skip(n as int)),
        sb.clean() ==> (r is Ok <==> spec_request_after_framing(known, sb.data()) is Some),
        sb.clean() ==> (r matches Ok(req) ==> req.body.input().clean()),
        sb.clean() ==> (r matches Err(e) ==> e.spec_kind() == ErrorKind::UnexpectedEof || authority_from_fields(e,
            sb.data()) || forall|t: Seq<u8>| #[trigger] spec_request_after_framing(known, sb.data() + t) is None),
        sb.quiet() && spec_request_after_framing(known, sb.data()) is Some ==> r is Ok || r == Err::<
            DecodedRequest,
            Error,
        >(Error::MaxBufSize),
{
    let mut sb = sb;
    let ghost st0 = sb;
    let ghost d0 = sb.data();
    let c = decode_request_control_data(&mut sb)?;
    let ghost st1 = sb;
    let ghost n1 = spec_control_data(d0).unwrap().1;
    proof {
        if st0.quiet() {
            st1.lemma_follows_quiet(&st0);
        }
    }
    let h_r = if known {
        decode_known_length_field_section(&mut sb)
    } else {
        decode_indeterminate_length_field_section(&mut sb)
    };
    let h = match h_r {
        Ok(h) => h,
        Err(e) => {
            proof {
                assert forall|t: Seq<u8>| st0.clean() && e.spec_kind() != ErrorKind::UnexpectedEof
                    implies #[trigger] spec_request_after_framing(known, d0 + t) is None by {
                    lemma_control_data_extend(d0, t);
                    if known {
                        assert(spec_known_field_section(st1.data() + t) is None);
                    } else {
                        assert(spec_indeterminate_field_section(st1.data() + t) is None);
                    }
                }
            }
            return Err(e);
        },
    };
    let ghost st2 = sb;
    let ghost n2 = if known {
        spec_known_field_section(st1.data()).unwrap().1
    } else {
        spec_indeterminate_field_section(st1.data()).unwrap().1
    };
    proof {
        lemma_control_data_bound(d0);
        sb.lemma_follows_trans(&st1, &st0);
        if st0.quiet() {
            st2.lemma_follows_quiet(&st0);
        }
        assert(st1.data().len() == d0.len() - n1);
        assert(st2.data().len() <= st1.data().len());
        assert(st1.data().skip(n2 as int) == st2.data());
        lemma_known_field_section_bound(st1.data());
        lemma_indeterminate_field_section_bound(st1.data());
        lemma_skip_skip(d0, n1 as int, n2 as int);
    }
    let body = if known {
        match DecodedBody::known_length(sb) {
            Ok(b) => b,
            Err(e) => {
                proof {
                    if st0.clean() {
                        st2.lemma_follows_clean(&st0);
                    }
                }
                return Err(e);
            },
        }
    } else {
        DecodedBody::indeterminate_length(sb)
    };
    proof {
        if known {
            let n3 = spec_known_length(st2.data()).unwrap().1;
            if spec_varint_decode(st2.data()) is Some {
                lemma_varint_decode_bound(st2.data());
            }
            lemma_skip_skip(d0, (n1 + n2) as int, n3 as int);
        } else {
            assert(st2.data().skip(0) =~= st2.data());
        }
        if st0.clean() && !known {
            st2.lemma_follows_clean(&st0);
        }
    }
    let head = request(c, h)?;
    Ok(DecodedRequest { head, body })
}

/// `e` refuses the authority of a request (at the start of `d`, after its
/// framing indicator) whose authority comes from its `host` field.
pub open spec fn request_authority_from_fields(e: Error, d: Seq<u8>) -> bool {
    match spec_varint_decode(d) {
        Some((_, n)) => authority_from_fields(e, d.skip(n as int)),
        None => false,
    }
}

/// Decodes a binary HTTP request: framing indicator 0 (known-length) or 2
/// (indeterminate-length), control data and field section; the content is
/// left to the returned body.
///
/// On a clean reader, input cut short fails with an end-of-input error:
/// any other error means that no continuation of the input is a request,
/// except a refused authority taken from the `host` field, which more
/// field lines could still settle. A request that the grammar accepts is
/// refused only when the buffer limit is reached.
pub fn decode_request(sb: StreamBuf) -> (r: Result<DecodedRequest, Error>)
    requires
        sb.wf(),
    ensures
        r matches Ok(req) ==> req.body.wf() && (spec_decode_request(sb.data()) matches Some((x, b, n))
            && req.head@ == x && req.body.kind() == b && req.body.input().data() == sb.data().skip(n as int)),
        sb.clean() ==> (r is Ok <==> spec_decode_request(sb.data()) is Some),
        sb.clean() ==> (r matches Ok(req) ==> req.body.input().clean()),
        sb.clean() ==> (spec_varint_decode(sb.data()) matches Some((f, _)) && f != 0 && f != 2
            ==> r == Err::<DecodedRequest, Error>(Error::InvalidData(Invalid::FramingIndicator))),
        spec_varint_decode(sb.data()) matches Some((f, n)) && !sb.trips(n as int) && f != 0 && f != 2
            ==> r == Err::<DecodedRequest, Error>(Error::InvalidData(Invalid::FramingIndicator)),
        sb.trips(int_need(IntWidth::Varint, sb.data()) as int) ==> r == Err::<DecodedRequest, Error>(Error::MaxBufSize),
        sb.clean() ==> (r matches Err(e) ==> e.spec_kind() == ErrorKind::UnexpectedEof || request_authority_from_fields(
            e,
            sb.data(),
        ) || forall|t: Seq<u8>| #[trigger] spec_decode_request(sb.data() + t) is None),
        sb.quiet() && spec_decode_request(sb.data()) is Some ==> r is Ok || r == Err::<DecodedRequest, Error>(
            Error::MaxBufSize,
        ),
{
    let mut sb = sb;
    let ghost st0 = sb;
    let ghost d0 = sb.data();
    proof {
        if st0.clean() {
            crate::stream_buf::lemma_unbounded_no_trip(st0.buffered().len(), st0.pending(), st0.limit(),
                int_need(IntWidth::Varint, d0) as int);
        }
        lemma_varint_need(d0);
    }
    let framing = sb.decode_int(IntWidth::Varint)?;
    let ghost n = int_need(IntWidth::Varint, d0);
    proof {
        lemma_varint_decode_bound(d0);
        if st0.clean() {
            sb.lemma_follows_clean(&st0);
        }
        if st0.quiet() {
            sb.lemma_follows_quiet(&st0);
        }
    }
    if framing == 0 || framing == 2 {
        let ghost st1 = sb;
        let r = decode_request_after_framing(sb, framing == 0);
        proof {
            if r is Ok {
                let k = spec_request_after_framing(framing == 0, d0.skip(n as int)).unwrap().2;
                lemma_request_after_framing_bound(framing == 0, d0.skip(n as int));
                lemma_skip_skip(d0, n as int, k as int);
            }
            if let Err(e) = r {
                assert forall|t: Seq<u8>| st0.clean() && e.spec_kind() != ErrorKind::UnexpectedEof
                    && !request_authority_from_fields(e, d0) implies #[trigger] spec_decode_request(d0 + t) is None by {
                    lemma_varint_extend(d0, t);
                    lemma_skip_extend(d0, t, n as int);
                    assert(spec_request_after_framing(framing == 0, st1.data() + t) is None);
                }
            }
        }
        r
    } else {
        proof {
            assert forall|t: Seq<u8>| #[trigger] spec_decode_request(d0 + t) is None by {
                lemma_varint_extend(d0, t);
            }
        }
        Err(Error::InvalidData(Invalid::FramingIndicator))
    }
}

/// A known-length field section that `d` holds whole (and so `d` is not
/// empty) reads the same with more input after `d`, and so does what
/// follows it.
proof fn lemma_known_section_extend(d: Seq<u8>, t: Seq<u8>)
    requires
        d.len() > 0,
        spec_known_field_section(d) is Some,
    ensures
        spec_known_field_section(d + t) == spec_known_field_section(d),
        (d + t).skip(spec_known_field_section(d).unwrap().1 as int) == d.skip(
            spec_known_field_section(d).unwrap().1 as int,
        ) + t,
{
    lemma_prefixed_stage(d, t);
}

/// A final status that `d` holds whole, with the informational responses
/// before it, reads the same with more input after `d`, and so does what
/// follows it.
proof fn lemma_final_status_extend(d: Seq<u8>, t: Seq<u8>)
    requires
        spec_final_status(d) is Some,
    ensures
        spec_final_status(d + t) == spec_final_status(d),
        (d + t).skip(spec_final_status(d).unwrap().1 as int) == d.skip(spec_final_status(d).unwrap().1 as int) + t,
    decreases d.len(),
{
    let (st, n) = spec_status(d).unwrap();
    lemma_varint_extend(d, t);
    lemma_varint_decode_bound(d);
    lemma_final_status_bound(d);
    lemma_skip_extend(d, t, spec_final_status(d).unwrap().1 as int);
    if st < 200 {
        let s1 = d.skip(n as int);
        lemma_skip_extend(d, t, n as int);
        if s1.len() == 0 {
            assert(s1.skip(0) =~= s1);
            assert(spec_status(s1) is None);
            assert(spec_final_status(s1) is None);
            assert(false);
        }
        let m = spec_known_field_section(s1).unwrap().1;
        lemma_known_section_extend(s1, t);
        lemma_known_field_section_bound(s1);
        let s2 = s1.skip(m as int);
        lemma_skip_skip(d, n as int, m as int);
        lemma_skip_skip(d + t, n as int, m as int);
        lemma_final_status_extend(s2, t);
    }
}

/// Where the final status at the start of `d` is refused at a part that is
/// refused whatever follows, it is refused whatever follows `d`.
proof fn lemma_final_status_refused(d: Seq<u8>, t: Seq<u8>)
    requires
        spec_status(d) matches Some((st, _)) && st < 200,
    ensures
        ({
            let n = spec_status(d).unwrap().1;
            let s1 = d.skip(n as int);
            &&& (forall|u: Seq<u8>| #[trigger] spec_known_field_section(s1 + u) is None)
                ==> spec_final_status(d + t) is None
            &&& spec_known_field_section(s1) matches Some((_, m)) ==> ((forall|u: Seq<u8>|
                #[trigger] spec_final_status(s1.skip(m as int) + u) is None) ==> spec_final_status(d + t) is None)
        }),
{
    let n = spec_status(d).unwrap().1;
    lemma_varint_extend(d, t);
    lemma_varint_decode_bound(d);
    lemma_skip_extend(d, t, n as int);
    let s1 = d.skip(n as int);
    assert(spec_known_field_section(s1 + t) == spec_known_field_section((d + t).skip(n as int)));
    if let Some((_, m)) = spec_known_field_section(s1) {
        let s2 = s1.skip(m as int);
        if (forall|u: Seq<u8>| #[trigger] spec_final_status(s2 + u) is None) {
            if s1.len() > 0 {
                lemma_known_section_extend(s1, t);
                lemma_skip_skip(d + t, n as int, m as int);
                assert(spec_final_status(s2 + t) is None);
            } else {
                if let Some((_, m2)) = spec_known_field_section(s1 + t) {
                    assert(s1 + t =~= t);
                    assert(s2 =~= Seq::<u8>::empty());
                    assert(s2 + (s1 + t).skip(m2 as int) =~= (s1 + t).skip(m2 as int));
                    assert(spec_final_status(s2 + (s1 + t).skip(m2 as int)) is None);
                    lemma_skip_skip(d + t, n as int, m2 as int);
                }
            }
        }
    }
}

/// Reads a status code: a varint that `http` accepts as one.
fn decode_status(sb: &mut StreamBuf) -> (r: Result<u16, Error>)
    requires
        old(sb).wf(),
    ensures
        final(sb).wf(),
        r is Ok ==> final(sb).follows(old(sb)),
        r matches Ok(st) ==> spec_status(old(sb).data()) matches Some((x, n)) && x == st
            && final(sb).data() == old(sb).data().skip(n as int),
        old(sb).clean() ==> (r is Ok <==> spec_status(old(sb).data()) is Some),
        old(sb).clean() && r is Ok ==> final(sb).clean(),
        old(sb).clean() ==> (r matches Err(e) ==> e.spec_kind() == ErrorKind::UnexpectedEof || forall|t: Seq<u8>|
            #[trigger] spec_status(old(sb).data() + t) is None),
        old(sb).quiet() && spec_status(old(sb).data()) is Some ==> r is Ok || r == Err::<u16, Error>(Error::MaxBufSize),
        old(sb).quiet() && r is Ok ==> final(sb).quiet(),
{
    let ghost st0 = *sb;
    let ghost d0 = sb.data();
    proof {
        assert forall|t: Seq<u8>| #![trigger spec_status(d0 + t)] spec_varint_decode(d0) is Some implies spec_status(
            d0 + t,
        ) == spec_status(d0) by {
            lemma_varint_extend(d0, t);
        }
    }
    let v = sb.decode_varint_usize()?;
    proof {
        if st0.clean() {
            sb.lemma_follows_clean(&st0);
        }
        if st0.quiet() {
            sb.lemma_follows_quiet(&st0);
        }
    }
    if v > 0xffff {
        return Err(Error::InvalidData(Invalid::StatusCode));
    }
    let code = v as u16;
    if !http_status_code_valid(code) {
        return Err(Error::InvalidData(Invalid::StatusCode));
    }
    Ok(code)
}

/// Reads the final status code of a response, skipping informational (1xx)
/// responses with their field sections.
pub fn decode_response_control_data(sb: &mut StreamBuf) -> (r: Result<u16, Error>)
    requires
        old(sb).wf(),
    ensures
        final(sb).wf(),
        r is Ok ==> final(sb).follows(old(sb)),
        r matches Ok(st) ==> spec_final_status(old(sb).data()) matches Some((x, n)) && x == st
            && final(sb).data() == old(sb).data().skip(n as int),
        old(sb).clean() ==> (r is Ok <==> spec_final_status(old(sb).data()) is Some),
        old(sb).clean() && r is Ok ==> final(sb).clean(),
        old(sb).clean() ==> (r matches Err(e) ==> e.spec_kind() == ErrorKind::UnexpectedEof || forall|t: Seq<u8>|
            #[trigger] spec_final_status(old(sb).data() + t) is None),
        old(sb).quiet() && spec_final_status(old(sb).data()) is Some ==> r is Ok || r == Err::<u16, Error>(
            Error::MaxBufSize,
        ),
        old(sb).quiet() && r is Ok ==> final(sb).quiet(),
    decreases old(sb).data().len(),
{
    let ghost st0 = *sb;
    let ghost d0 = sb.data();
    let status = decode_status(sb)?;
    if status >= 200 {
        return Ok(status);
    }
    let ghost st1 = *sb;
    let ghost n = spec_status(d0).unwrap().1;
    proof {
        lemma_varint_decode_bound(d0);
        if st0.quiet() {
            st1.lemma_follows_quiet(&st0);
        }
    }
    match decode_known_length_field_section(sb) {
        Ok(_) => {},
        Err(e) => {
            proof {
                assert forall|t: Seq<u8>| st0.clean() && e.spec_kind() != ErrorKind::UnexpectedEof
                    implies #[trigger] spec_final_status(d0 + t) is None by {
                    lemma_final_status_refused(d0, t);
                }
            }
            return Err(e);
        },
    }
    let ghost st2 = *sb;
    let ghost m = spec_known_field_section(st1.data()).unwrap().1;
    proof {
        lemma_known_field_section_bound(st1.data());
        lemma_skip_skip(d0, n as int, m as int);
        sb.lemma_follows_trans(&st1, &st0);
        if st0.quiet() {
            st2.lemma_follows_quiet(&st0);
        }
    }
    let r = decode_response_control_data(sb);
    proof {
        if r is Ok {
            sb.lemma_follows_trans(&st2, &st0);
            if st0.quiet() {
                sb.lemma_follows_quiet(&st0);
            }
            let k = spec_final_status(st2.data()).unwrap().1;
            lemma_final_status_bound(st2.data());
            lemma_skip_skip(d0, (n + m) as int, k as int);
        }
        if let Err(e) = r {
            if st0.clean() {
                st2.lemma_follows_clean(&st0);
            }
            assert(st2.data() == st1.data().skip(m as int));
            assert forall|t: Seq<u8>| st0.clean() && e.spec_kind() != ErrorKind::UnexpectedEof
                implies #[trigger] spec_final_status(d0 + t) is None by {
                lemma_final_status_refused(d0, t);
            }
        }
    }
    r
}

/// Reads the rest of a response after its framing indicator.
fn decode_response_after_framing(sb: StreamBuf, known: bool) -> (r: Result<DecodedResponse, Error>)
    requires
        sb.wf(),
    ensures
        r matches Ok(res) ==> res.body.wf() && (spec_response_after_framing(known, sb.data()) matches Some((x, b, n))
            && res.head@ == x && res.body.kind() == b && res.body.input().data() == sb.data().skip(n as int)),
        sb.clean() ==> (r is Ok <==> spec_response_after_framing(known, sb.data()) is Some),
        sb.clean() ==> (r matches Ok(res) ==> res.body.input().clean()),
        sb.clean() ==> (r matches Err(e) ==> e.spec_kind() == ErrorKind::UnexpectedEof || forall|t: Seq<u8>|
            #[trigger] spec_response_after_framing(known, sb.data() + t) is None),
        sb.quiet() && spec_response_after_framing(known, sb.data()) is Some ==> r is Ok || r == Err::<
            DecodedResponse,
            Error,
        >(Error::MaxBufSize),
{
    let mut sb = sb;
    let ghost st0 = sb;
    let ghost d0 = sb.data();
    let status = decode_response_control_data(&mut sb)?;
    let ghost st1 = sb;
    let ghost n1 = spec_final_status(d0).unwrap().1;
    proof {
        if st0.quiet() {
            st1.lemma_follows_quiet(&st0);
        }
    }
    let h_r = if known {
        decode_known_length_field_section(&mut sb)
    } else {
        decode_indeterminate_length_field_section(&mut sb)
    };
    let h = match h_r {
        Ok(h) => h,
        Err(e) => {
            proof {
                assert forall|t: Seq<u8>| st0.clean() && e.spec_kind() != ErrorKind::UnexpectedEof
                    implies #[trigger] spec_response_after_framing(known, d0 + t) is None by {
                    lemma_final_status_extend(d0, t);
                    if known {
                        assert(spec_known_field_section(st1.data() + t) is None);
                    } else {
                        assert(spec_indeterminate_field_section(st1.data() + t) is None);
                    }
                }
            }
            return Err(e);
        },
    };
    let ghost st2 = sb;
    let ghost n2 = if known {
        spec_known_field_section(st1.data()).unwrap().1
    } else {
        spec_indeterminate_field_section(st1.data()).unwrap().1
    };
    proof {
        lemma_final_status_bound(d0);
        sb.lemma_follows_trans(&st1, &st0);
        if st0.quiet() {
            st2.lemma_follows_quiet(&st0);
        }
        lemma_known_field_section_bound(st1.data());
        lemma_indeterminate_field_section_bound(st1.data());
        lemma_skip_skip(d0, n1 as int, n2 as int);
    }
    let body = if known {
        match DecodedBody::known_length(sb) {
            Ok(b) => b,
            Err(e) => {
                proof {
                    if st0.clean() {
                        st2.lemma_follows_clean(&st0);
                    }
                }
                return Err(e);
            },
        }
    } else {
        DecodedBody::indeterminate_length(sb)
    };
    proof {
        if known {
            let n3 = spec_known_length(st2.data()).unwrap().1;
            lemma_known_length_bound(st2.data());
            lemma_skip_skip(d0, (n1 + n2) as int, n3 as int);
        } else {
            assert(st2.data().skip(0) =~= st2.data());
        }
        if st0.clean() && !known {
            st2.lemma_follows_clean(&st0);
        }
    }
    Ok(DecodedResponse { head: ResponseHead { status, headers: h }, body })
}

/// Decodes a binary HTTP response: framing indicator 1 (known-length) or 3
/// (indeterminate-length), final status and field section; the content is
/// left to the returned body.
///
/// On a clean reader, input cut short fails with an end-of-input error:
/// any other error means that no continuation of the input is a response.
/// A response that the grammar accepts is refused only when the buffer
/// limit is reached.
pub fn decode_response(sb: StreamBuf) -> (r: Result<DecodedResponse, Error>)
    requires
        sb.wf(),
    ensures
        r matches Ok(res) ==> res.body.wf() && (spec_decode_response(sb.data()) matches Some((x, b, n))
            && res.head@ == x && res.body.kind() == b && res.body.input().data() == sb.data().skip(n as int)),
        sb.clean() ==> (r is Ok <==> spec_decode_response(sb.data()) is Some),
        sb.clean() ==> (r matches Ok(res) ==> res.body.input().clean()),
        sb.clean() ==> (spec_varint_decode(sb.data()) matches Some((f, _)) && f != 1 && f != 3
            ==> r == Err::<DecodedResponse, Error>(Error::InvalidData(Invalid::FramingIndicator))),
        spec_varint_decode(sb.data()) matches Some((f, n)) && !sb.trips(n as int) && f != 1 && f != 3
            ==> r == Err::<DecodedResponse, Error>(Error::InvalidData(Invalid::FramingIndicator)),
        sb.trips(int_need(IntWidth::Varint, sb.data()) as int) ==> r == Err::<DecodedResponse, Error>(Error::MaxBufSize),
        sb.clean() ==> (r matches Err(e) ==> e.spec_kind() == ErrorKind::UnexpectedEof || forall|t: Seq<u8>|
            #[trigger] spec_decode_response(sb.data() + t) is None),
        sb.quiet() && spec_decode_response(sb.data()) is Some ==> r is Ok || r == Err::<DecodedResponse, Error>(
            Error::MaxBufSize,
        ),
{
    let mut sb = sb;
    let ghost st0 = sb;
    let ghost d0 = sb.data();
    proof {
        if st0.clean() {
            crate::stream_buf::lemma_unbounded_no_trip(st0.buffered().len(), st0.pending(), st0.limit(),
                int_need(IntWidth::Varint, d0) as int);
        }
        lemma_varint_need(d0);
    }
    let framing = sb.decode_int(IntWidth::Varint)?;
    let ghost n = int_need(IntWidth::Varint, d0);
    proof {
        lemma_varint_decode_bound(d0);
        if st0.clean() {
            sb.lemma_follows_clean(&st0);
        }
        if st0.quiet() {
            sb.lemma_follows_quiet(&st0);
        }
    }
    if framing == 1 || framing == 3 {
        let ghost st1 = sb;
        let r = decode_response_after_framing(sb, framing == 1);
        proof {
            if r is Ok {
                let k = spec_response_after_framing(framing == 1, d0.skip(n as int)).unwrap().2;
                lemma_response_after_framing_bound(framing == 1, d0.skip(n as int));
                lemma_skip_skip(d0, n as int, k as int);
            }
            if let Err(e) = r {
                assert forall|t: Seq<u8>| st0.clean() && e.spec_kind() != ErrorKind::UnexpectedEof
                    implies #[trigger] spec_decode_response(d0 + t) is None by {
                    lemma_varint_extend(d0, t);
                    lemma_skip_extend(d0, t, n as int);
                    assert(spec_response_after_framing(framing == 1, st1.data() + t) is None);
                }
            }
        }
        r
    } else {
        proof {
            assert forall|t: Seq<u8>| #[trigger] spec_decode_response(d0 + t) is None by {
                lemma_varint_extend(d0, t);
            }
        }
        Err(Error::InvalidData(Invalid::FramingIndicator))
    }
}

} // verus!
