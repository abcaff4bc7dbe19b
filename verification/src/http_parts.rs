//! Validation of the parts of an HTTP message by the `http` crate.
//!
//! Each function hands bytes to a parser of `http` and gives back the bytes
//! of the value it built (as its `as_str`/`as_bytes` shows them), or `None`
//! when `http` refuses them. What `http` accepts is named here, not written
//! out: each name is a function of the bytes alone.
use vstd::prelude::*;

verus! {

/// The bytes of an optional byte vector.
pub open spec fn opt_view(o: Option<Vec<u8>>) -> Option<Seq<u8>> {
    match o {
        Some(v) => Some(v@),
        None => None,
    }
}

/// What `http::Method::from_bytes` makes of a method.
pub uninterp spec fn spec_http_method(b: Seq<u8>) -> Option<Seq<u8>>;

/// What `Scheme::try_from(&[u8])` makes of a scheme.
pub uninterp spec fn spec_http_scheme(b: Seq<u8>) -> Option<Seq<u8>>;

/// What `Authority::try_from(&[u8])` makes of an authority.
pub uninterp spec fn spec_http_authority(b: Seq<u8>) -> Option<Seq<u8>>;

/// What `PathAndQuery::try_from(&[u8])` makes of a path and query.
pub uninterp spec fn spec_http_path(b: Seq<u8>) -> Option<Seq<u8>>;

/// What `HeaderName::from_bytes` makes of a field name.
pub uninterp spec fn spec_http_header_name(b: Seq<u8>) -> Option<Seq<u8>>;

/// What `HeaderValue::from_bytes` makes of a field value.
pub uninterp spec fn spec_http_header_value(b: Seq<u8>) -> Option<Seq<u8>>;

/// `http::Method::from_bytes`, giving back `Method::as_str`.
#[verifier::external_body]
pub(crate) fn http_method(b: &[u8]) -> (r: Option<Vec<u8>>)
    ensures
        opt_view(r) == spec_http_method(b@),
{
    http::Method::from_bytes(b).ok().map(|m| m.as_str().as_bytes().to_vec())
}

/// `http::uri::Scheme::try_from`, giving back `Scheme::as_str`.
#[verifier::external_body]
pub(crate) fn http_scheme(b: &[u8]) -> (r: Option<Vec<u8>>)
    ensures
        opt_view(r) == spec_http_scheme(b@),
{
    http::uri::Scheme::try_from(b).ok().map(|s| s.as_str().as_bytes().to_vec())
}

/// `http::uri::Authority::try_from`, giving back `Authority::as_str`.
#[verifier::external_body]
pub(crate) fn http_authority(b: &[u8]) -> (r: Option<Vec<u8>>)
    ensures
        opt_view(r) == spec_http_authority(b@),
{
    http::uri::Authority::try_from(b).ok().map(|a| a.as_str().as_bytes().to_vec())
}

/// `http::uri::PathAndQuery::try_from`, giving back `PathAndQuery::as_str`.
#[verifier::external_body]
pub(crate) fn http_path(b: &[u8]) -> (r: Option<Vec<u8>>)
    ensures
        opt_view(r) == spec_http_path(b@),
{
    http::uri::PathAndQuery::try_from(b).ok().map(|p| p.as_str().as_bytes().to_vec())
}

/// `http::header::HeaderName::from_bytes`, giving back `HeaderName::as_str`.
#[verifier::external_body]
pub(crate) fn http_header_name(b: &[u8]) -> (r: Option<Vec<u8>>)
    ensures
        opt_view(r) == spec_http_header_name(b@),
{
    http::header::HeaderName::from_bytes(b).ok().map(|n| n.as_str().as_bytes().to_vec())
}

/// `http::header::HeaderValue::from_bytes`, giving back `HeaderValue::as_bytes`.
#[verifier::external_body]
pub(crate) fn http_header_value(b: &[u8]) -> (r: Option<Vec<u8>>)
    ensures
        opt_view(r) == spec_http_header_value(b@),
{
    http::header::HeaderValue::from_bytes(b).ok().map(|v| v.as_bytes().to_vec())
}

/// `http::StatusCode::from_u16`, which accepts exactly the codes from 100
/// to 999.
#[verifier::external_body]
pub(crate) fn http_status_code_valid(code: u16) -> (ok: bool)
    ensures
        ok == (100 <= code <= 999),
{
    http::StatusCode::from_u16(code).is_ok()
}

/// The parts of a URI as `http::Uri` gives them: scheme, authority, host,
/// port, path and query.
pub struct UriParts {
    pub scheme: Option<Vec<u8>>,
    pub authority: Option<Vec<u8>>,
    pub host: Option<Vec<u8>>,
    pub port: Option<u16>,
    pub path: Vec<u8>,
    pub query: Option<Vec<u8>>,
}

/// The parts of a URI by their bytes.
pub type UriPartsV = (Option<Seq<u8>>, Option<Seq<u8>>, Option<Seq<u8>>, Option<u16>, Seq<u8>, Option<Seq<u8>>);

pub open spec fn uri_view(u: UriParts) -> UriPartsV {
    (opt_view(u.scheme), opt_view(u.authority), opt_view(u.host), u.port, u.path@, opt_view(u.query))
}

/// What `http::Uri` parses from a string: its parts, or `None` where it
/// refuses the string.
pub uninterp spec fn spec_http_uri(s: Seq<char>) -> Option<UriPartsV>;

/// `str::parse::<http::Uri>`, then `scheme_str`, `authority`, `host`,
/// `port_u16`, `path` and `query` of the result.
#[verifier::external_body]
pub(crate) fn http_uri(s: &str) -> (r: Option<UriParts>)
    ensures
        match r {
            Some(u) => spec_http_uri(s@) == Some(uri_view(u)),
            None => spec_http_uri(s@) is None,
        },
{
    let u = s.parse::<http::Uri>().ok()?;
    Some(UriParts {
        scheme: u.scheme_str().map(|x| x.as_bytes().to_vec()),
        authority: u.authority().map(|a| a.as_str().as_bytes().to_vec()),
        host: u.host().map(|x| x.as_bytes().to_vec()),
        port: u.port_u16(),
        path: u.path().as_bytes().to_vec(),
        query: u.query().map(|x| x.as_bytes().to_vec()),
    })
}

} // verus!
