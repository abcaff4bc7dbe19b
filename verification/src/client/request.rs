//! Building a request from the command line.
use vstd::prelude::*;
use vstd::string::{StrSliceExecFns, StringExecFns};
use vstd::utf8::{decode_utf8, encode_utf8, valid_utf8};
use crate::args::{Method, RequestArgs};
use crate::bhttp::{fields_view, Field, FieldV, RequestHead, RequestHeadV};
use crate::client::strings_view;
use crate::http_parts::{
    http_header_name, http_header_value, http_method, http_uri, spec_http_header_name, spec_http_header_value,
    spec_http_method, spec_http_uri,
};
use crate::text::{concat, decimal, find_char, spec_decimal, spec_find, spec_trim, trim};
use crate::varint::MAX_VAR_INT;

verus! {

/// Builds the requests that the HTTP/2, HTTP/3 and OHTTP clients send.
pub struct RequestHandler;

/// A header line of the command line: `name: value`, each trimmed and
/// accepted by `http`; a line without `:` is skipped (`Some(None)`);
/// `None` where `http` refuses the name or the value.
pub open spec fn spec_header_field(h: Seq<char>) -> Option<Option<FieldV>> {
    match spec_find(h, ':') {
        None => Some(None),
        Some(i) => match (
            spec_http_header_name(encode_utf8(spec_trim(h.take(i)))),
            spec_http_header_value(encode_utf8(spec_trim(h.skip(i + 1)))),
        ) {
            (Some(n), Some(v)) => Some(Some((n, v))),
            _ => None,
        },
    }
}

/// A header line is split at its first `:`: for a name that holds no `:`
/// and any value (which may itself hold `:`, as URLs, times and IPv6
/// addresses do), the line `name:value` gives the field whose name is the
/// trimmed name and whose value is the trimmed value, each as `http`
/// accepts it; the line is refused only where `http` refuses one of them.
pub proof fn law_header_split_at_first_colon(name: Seq<char>, value: Seq<char>)
    requires
        forall|j: int| 0 <= j < name.len() ==> name[j] != ':',
    ensures
        spec_header_field(name + seq![':'] + value) == match (
            spec_http_header_name(encode_utf8(spec_trim(name))),
            spec_http_header_value(encode_utf8(spec_trim(value))),
        ) {
            (Some(n), Some(v)) => Some(Some((n, v))),
            _ => None::<Option<FieldV>>,
        },
{
    let h = name + seq![':'] + value;
    let k = name.len() as int;
    assert(h[k] == ':');
    assert(exists|i: int| 0 <= i < h.len() && h[i] == ':');
    let i = choose|i: int| 0 <= i < h.len() && h[i] == ':' && forall|j: int| 0 <= j < i ==> h[j] != ':';
    assert(0 <= k < h.len() && h[k] == ':' && forall|j: int| 0 <= j < k ==> h[j] != ':') by {
        assert forall|j: int| 0 <= j < k implies h[j] != ':' by {
            assert(h[j] == name[j]);
        }
    }
    if i < k {
        assert(h[i] == name[i]);
    }
    if i > k {
        assert(h[k] != ':');
    }
    assert(i == k);
    assert(spec_find(h, ':') == Some(k));
    assert(h.take(k) =~= name);
    assert(h.skip(k + 1) =~= value);
}

/// The fields of the header lines, in order.
pub open spec fn spec_consume_headers(hs: Seq<Seq<char>>) -> Option<Seq<FieldV>>
    decreases hs.len(),
{
    if hs.len() == 0 {
        Some(Seq::empty())
    } else {
        match (spec_header_field(hs[0]), spec_consume_headers(hs.drop_first())) {
            (Some(f), Some(rest)) => Some(
                match f {
                    Some(x) => seq![x] + rest,
                    None => rest,
                },
            ),
            _ => None,
        }
    }
}

/// The bytes of `https`.
pub open spec fn https_bytes() -> Seq<u8> {
    seq![104u8, 116u8, 116u8, 112u8, 115u8]
}

/// The port of a URI: its own, else 443 for `https`, else 80.
pub open spec fn spec_port(scheme: Option<Seq<u8>>, port: Option<u16>) -> u16 {
    match port {
        Some(p) => p,
        None => if scheme == Some(https_bytes()) {
            443
        } else {
            80
        },
    }
}

/// A path followed by its query, if any.
pub open spec fn spec_path_and_query(path: Seq<u8>, query: Option<Seq<u8>>) -> Seq<u8> {
    match query {
        Some(q) => path + seq![63u8] + q,
        None => path,
    }
}

/// The request head for a method, a URI already parsed, and fields.
pub open spec fn spec_request_head(m: Seq<u8>, u: (Option<Seq<u8>>, Option<Seq<u8>>, Option<Seq<u8>>, Option<u16>, Seq<u8>, Option<Seq<u8>>), h: Seq<FieldV>) -> RequestHeadV {
    RequestHeadV {
        method: m,
        scheme: match u.0 {
            Some(s) => s,
            None => Seq::empty(),
        },
        authority: match u.1 {
            Some(a) => a,
            None => Seq::empty(),
        },
        path: spec_path_and_query(u.4, u.5),
        headers: h,
    }
}

/// The bytes of an optional body.
pub open spec fn body_bytes(b: Option<Vec<u8>>) -> Seq<u8> {
    match b {
        Some(x) => x@,
        None => Seq::empty(),
    }
}

/// The request head and body for a method, a URI and header lines: the URI
/// must parse and have a host and a scheme, the method and every header
/// must be accepted by `http`.
pub open spec fn spec_build_request(method: Seq<char>, url: Seq<char>, headers: Seq<Seq<char>>, body: Seq<u8>) -> Option<(RequestHeadV, Seq<u8>)> {
    match spec_http_uri(url) {
        None => None,
        Some(u) => if u.2 is None || u.0 is None {
            None
        } else {
            match (spec_http_method(encode_utf8(method)), spec_consume_headers(headers)) {
                (Some(m), Some(h)) => Some((spec_request_head(m, u, h), body)),
                _ => None,
            }
        },
    }
}

/// The request head and body for `CONNECT` to a URI: the target is the
/// authority form `host:port` of the URI (its port, else that of its
/// scheme), parsed as a URI of its own.
pub open spec fn spec_build_connect(url: Seq<char>, headers: Seq<Seq<char>>, body: Seq<u8>) -> Option<(RequestHeadV, Seq<u8>)> {
    match spec_http_uri(url) {
        None => None,
        Some(u) => match u.2 {
            None => None,
            Some(host) => if u.0 is None || !valid_utf8(host) {
                None
            } else {
                let target = decode_utf8(host) + seq![':'] + spec_decimal(spec_port(u.0, u.3) as nat);
                match spec_http_uri(target) {
                    None => None,
                    Some(t) => match (spec_http_method(encode_utf8("CONNECT"@)), spec_consume_headers(headers)) {
                        (Some(m), Some(h)) => Some((spec_request_head(m, t, h), body)),
                        _ => None,
                    },
                }
            },
        },
    }
}

/// The request of a command line: `GET` without a body, or `POST` with
/// the body it must have.
pub open spec fn spec_request_of(args: RequestArgs) -> Option<(RequestHeadV, Seq<u8>)> {
    match args.method {
        Method::Get => spec_build_request("GET"@, args.url@, strings_view(args.headers@), Seq::empty()),
        Method::Post => match args.body {
            None => None,
            Some(body) => spec_build_request("POST"@, args.url@, strings_view(args.headers@), body@),
        },
    }
}

/// The bytes of a part of a URI, or none.
fn part_or_empty(p: &Option<Vec<u8>>) -> (r: Vec<u8>)
    ensures
        r@ == match p {
            Some(v) => v@,
            None => Seq::empty(),
        },
{
    match p {
        Some(v) => {
            let c = v.clone();
            assert(c@ =~= v@);
            c
        },
        None => Vec::new(),
    }
}

impl RequestHandler {
    /// The fields of header lines `name: value`; lines without `:` are
    /// skipped.
    pub fn consume_headers(headers: &Vec<String>) -> (r: Result<Vec<Field>, String>)
        ensures
            match spec_consume_headers(strings_view(headers@)) {
                Some(f) => r matches Ok(x) && fields_view(x@) == f,
                None => r is Err,
            },
    {
        let ghost hs = strings_view(headers@);
        let mut out: Vec<Field> = Vec::new();
        let mut i: usize = 0;
        proof {
            assert(hs.skip(0) =~= hs);
            assert(fields_view(out@) =~= Seq::<FieldV>::empty());
            if let Some(x) = spec_consume_headers(hs) {
                assert(Seq::<FieldV>::empty() + x =~= x);
            }
        }
        while i < headers.len()
            invariant
                hs == strings_view(headers@),
                i <= headers@.len(),
                spec_consume_headers(hs) == match spec_consume_headers(hs.skip(i as int)) {
                    Some(rest) => Some(fields_view(out@) + rest),
                    None => None,
                },
            decreases headers@.len() - i,
        {
            let h = headers[i].as_str();
            let ghost t = hs.skip(i as int);
            proof {
                assert(t[0] == h@);
                assert(t.drop_first() =~= hs.skip(i + 1));
            }
            match find_char(h, ':') {
                None => {},
                Some(k) => {
                    let key = h.substring_char(0, k);
                    let n = h.unicode_len();
                    let value = h.substring_char(k + 1, n);
                    proof {
                        assert(key@ =~= h@.take(k as int));
                        assert(value@ =~= h@.skip(k + 1));
                    }
                    let name = match http_header_name(trim(key).as_bytes()) {
                        Some(n) => n,
                        None => {
                            return Err(concat("bad header name: ", key));
                        },
                    };
                    let value = match http_header_value(trim(value).as_bytes()) {
                        Some(v) => v,
                        None => {
                            return Err(String::from_str("bad header value"));
                        },
                    };
                    let ghost before = fields_view(out@);
                    let f = Field { name, value };
                    out.push(f);
                    proof {
                        assert(fields_view(out@) =~= before.push(f@));
                        if let Some(rest) = spec_consume_headers(hs.skip(i + 1)) {
                            assert(before + (seq![f@] + rest) =~= before.push(f@) + rest);
                        }
                    }
                },
            }
            i = i + 1;
        }
        proof {
            assert(hs.skip(i as int) =~= Seq::<Seq<char>>::empty());
            assert(fields_view(out@) + Seq::<FieldV>::empty() =~= fields_view(out@));
        }
        Ok(out)
    }

    /// A request for `method` to `url` with the header lines `headers` and
    /// an optional body. The URI must have a host and a scheme. For
    /// `CONNECT` the target is `host:port` (authority form).
    pub fn build_request(method: &str, url: String, headers: Vec<String>, body: Option<Vec<u8>>) -> (r: Result<(RequestHead, Vec<u8>), String>)
        ensures
            method@ != "CONNECT"@ ==> match spec_build_request(method@, url@, strings_view(headers@), body_bytes(body)) {
                Some((h, b)) => r matches Ok((head, bb)) && head@ == h && bb@ == b,
                None => r is Err,
            },
            method@ == "CONNECT"@ ==> match spec_build_connect(url@, strings_view(headers@), body_bytes(body)) {
                Some((h, b)) => r matches Ok((head, bb)) && head@ == h && bb@ == b,
                None => r is Err,
            },
            spec_build_request(method@, url@, strings_view(headers@), body_bytes(body)) is None ==> r is Err,
    {
        let uri = match http_uri(url.as_str()) {
            Some(u) => u,
            None => return Err(String::from_str("invalid URI")),
        };
        let host = match &uri.host {
            Some(h) => h,
            None => return Err(String::from_str("Target URL must include host")),
        };
        let port = match uri.port {
            Some(p) => p,
            None => {
                let is_https = match &uri.scheme {
                    Some(s) => s.len() == 5 && s[0] == 104u8 && s[1] == 116u8 && s[2] == 116u8 && s[3] == 112u8 && s[4]
                        == 115u8,
                    None => false,
                };
                proof {
                    if let Some(s) = &uri.scheme {
                        if is_https {
                            assert(s@ =~= https_bytes());
                        }
                        if s@ == https_bytes() {
                            assert(s@[0] == 104u8 && s@[1] == 116u8 && s@[2] == 116u8 && s@[3] == 112u8 && s@[4]
                                == 115u8);
                        }
                    }
                }
                if is_https {
                    443
                } else {
                    80
                }
            },
        };
        assert(port == spec_port(crate::http_parts::opt_view(uri.scheme), uri.port));
        if uri.scheme.is_none() {
            return Err(String::from_str("URL must include scheme (http:// or https://)"));
        }
        let connect = String::from_str(method) == String::from_str("CONNECT");
        let (scheme, authority, path) = if connect {
            let host_str = crate::text::string_from_utf8(host.as_slice());
            let target = match host_str {
                Some(hs) => {
                    proof {
                        vstd::utf8::encode_utf8_decode_utf8(hs@);
                        reveal_strlit(":");
                    }
                    let with_colon = concat(hs.as_str(), ":");
                    let d = decimal(port as u64);
                    let target = concat(with_colon.as_str(), d.as_str());
                    assert(target@ =~= decode_utf8(host@) + seq![':'] + spec_decimal(port as nat));
                    target
                },
                None => return Err(String::from_str("invalid URI")),
            };
            let t = match http_uri(target.as_str()) {
                Some(t) => t,
                None => return Err(String::from_str("invalid URI")),
            };
            let mut p = t.path.clone();
            assert(p@ =~= t.path@);
            if let Some(q) = &t.query {
                p.push(63u8);
                let mut qc = q.clone();
                assert(qc@ =~= q@);
                p.append(&mut qc);
            }
            assert(p@ =~= spec_path_and_query(t.path@, crate::http_parts::opt_view(t.query)));
            (part_or_empty(&t.scheme), part_or_empty(&t.authority), p)
        } else {
            let mut p = uri.path.clone();
            assert(p@ =~= uri.path@);
            if let Some(q) = &uri.query {
                p.push(63u8);
                let mut qc = q.clone();
                assert(qc@ =~= q@);
                p.append(&mut qc);
            }
            assert(p@ =~= spec_path_and_query(uri.path@, crate::http_parts::opt_view(uri.query)));
            (part_or_empty(&uri.scheme), part_or_empty(&uri.authority), p)
        };
        let headers = Self::consume_headers(&headers)?;
        let method = match http_method(method.as_bytes()) {
            Some(m) => m,
            None => return Err(String::from_str("Failed to build request")),
        };
        let body = match body {
            Some(b) => b,
            None => Vec::new(),
        };
        Ok((RequestHead { method, scheme, authority, path, headers }, body))
    }

    /// The request of the command line: `GET`, or `POST` with its body.
    pub fn build_request_wrapper(args: RequestArgs) -> (r: Result<(RequestHead, Vec<u8>), String>)
        ensures
            match spec_request_of(args) {
                Some((h, b)) => r matches Ok((head, bb)) && head@ == h && bb@ == b,
                None => r is Err,
            },
    {
        proof {
            reveal_strlit("GET");
            reveal_strlit("POST");
            reveal_strlit("CONNECT");
        }
        match args.method {
            Method::Get => Self::build_request("GET", args.url, args.headers, None),
            Method::Post => {
                let body = match args.body {
                    Some(b) => b,
                    None => return Err(String::from_str("POST request requires a body")),
                };
                Self::build_request("POST", args.url, args.headers, Some(body))
            },
        }
    }
}

} // verus!
