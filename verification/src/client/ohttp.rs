//! The Oblivious HTTP client: its endpoints, the gateway's key, and the
//! encryption of the request and decryption of the response around the
//! two exchanges with the proxy.
use vstd::prelude::*;
use vstd::string::{StrSliceExecFns, StringExecFns, StringSliceAdditionalSpecFns};
use crate::bhttp::decode::decode_response;
use crate::bhttp::encode::{body_fits, encode_request, items_view, request_fits, spec_stream_bytes, spec_stream_error};
use crate::bhttp::{fields_view, spec_body_content, spec_chunks_encode, spec_decode_response, spec_request_head_encode, Field, RequestHead};
use crate::bhttp::encode::{spec_encoded_items, EncodedMessageKind};
use crate::bhttp::laws::{chunks_ok, len_ok, lemma_items_bytes, ok_items};
use crate::client::request::spec_request_of;
use crate::ohttp::{spec_header_bytes, spec_info, spec_public_key_len, EncapHeader};
use crate::ohttp::response::{response_sealed_for, spec_aead_open, spec_chunk_nonce, spec_response_key, spec_response_nonce};
use crate::client::request::RequestHandler;
use crate::client::{HttpResponse, HttpVersion};
use crate::error::{Error, Invalid, PvcliError};
use crate::ohttp::client::{
    decode_config, request_sealed, setup_request_encapsulation, spec_config_entries, spec_decoded_configs, EncapConfig,
    ResponseReceivingContext,
};
use crate::stream_buf::StreamBuf;
use crate::text::{ascii_chars, concat, spec_hex};
use crate::client::{escape_bytes, spec_escape};
use vstd::utf8::encode_utf8;
use crate::varint::MAX_VAR_INT;
use crate::args::{Method, RequestArgs};
use crate::client::strings_view;

verus! {

/// `s` without its trailing `c` characters.
pub open spec fn spec_trim_end(s: Seq<char>, c: char) -> Seq<char>
    decreases s.len(),
{
    if s.len() > 0 && s.last() == c {
        spec_trim_end(s.drop_last(), c)
    } else {
        s
    }
}

/// `s` without its leading `c` characters.
pub open spec fn spec_trim_start(s: Seq<char>, c: char) -> Seq<char>
    decreases s.len(),
{
    if s.len() > 0 && s[0] == c {
        spec_trim_start(s.drop_first(), c)
    } else {
        s
    }
}

/// `str::trim_end_matches` with a character.
pub fn trim_end_char(s: &str, c: char) -> (r: &str)
    ensures
        r@ == spec_trim_end(s@, c),
{
    let mut n = s.unicode_len();
    proof {
        assert(s@.take(n as int) =~= s@);
    }
    while n > 0 && s.get_char(n - 1) == c
        invariant
            n <= s@.len(),
            spec_trim_end(s@, c) == spec_trim_end(s@.take(n as int), c),
        decreases n,
    {
        proof {
            assert(s@.take(n as int).drop_last() =~= s@.take(n - 1));
        }
        n = n - 1;
    }
    let r = s.substring_char(0, n);
    proof {
        assert(r@ =~= s@.take(n as int));
    }
    r
}

/// `str::trim_start_matches` with a character.
pub fn trim_start_char(s: &str, c: char) -> (r: &str)
    ensures
        r@ == spec_trim_start(s@, c),
{
    let len = s.unicode_len();
    let mut i: usize = 0;
    proof {
        assert(s@.skip(0) =~= s@);
    }
    while i < len && s.get_char(i) == c
        invariant
            len == s@.len(),
            i <= len,
            spec_trim_start(s@, c) == spec_trim_start(s@.skip(i as int), c),
        decreases len - i,
    {
        proof {
            assert(s@.skip(i as int).drop_first() =~= s@.skip(i + 1));
        }
        i = i + 1;
    }
    let r = s.substring_char(i, len);
    proof {
        assert(r@ =~= s@.skip(i as int));
    }
    r
}

/// Where the OHTTP client sends its requests.
pub struct OHttpEndpoints {
    pub gateway_url: String,
    pub config_url: String,
}

/// The content type of an encapsulated request.
pub open spec fn ohttp_req_content_type() -> Seq<char> {
    "Content-Type: message/ohttp-req"@
}

/// Where the outer request goes, and so whose TLS settings it is sent
/// with: the first-hop relay's, or the proxy's.
#[derive(Clone, Copy, Debug, PartialEq, Eq, Structural)]
pub enum OuterHop {
    FirstHop,
    Proxy,
}

/// The outer request that carries the encapsulated request `encrypted`: a
/// `POST` to the first-hop relay with its headers when there is one, else
/// to the gateway with the proxy's headers; either way with the content
/// type of an encapsulated request added last. Also the hop it goes to.
pub fn outer_request(
    endpoints: &OHttpEndpoints,
    first_hop: Option<String>,
    first_hop_headers: Vec<String>,
    proxy_headers: Vec<String>,
    encrypted: Vec<u8>,
) -> (out: (RequestArgs, OuterHop))
    ensures
        ({
            let (r, hop) = out;
            &&& hop == (if first_hop is Some { OuterHop::FirstHop } else { OuterHop::Proxy })
            &&& r.method == Method::Post
            &&& r.url@ == (match first_hop {
                Some(u) => u@,
                None => endpoints.gateway_url@,
            })
            &&& strings_view(r.headers@) == (match first_hop {
                Some(_) => strings_view(first_hop_headers@),
                None => strings_view(proxy_headers@),
            }).push(ohttp_req_content_type())
            &&& r.body matches Some(b) && b@ == encrypted@
            &&& r.proxy_connect is None
            &&& r.proxy_header@.len() == 0
        }),
{
    let (url, mut headers, hop) = match first_hop {
        Some(u) => (u, first_hop_headers, OuterHop::FirstHop),
        None => (endpoints.gateway_url.clone(), proxy_headers, OuterHop::Proxy),
    };
    let ghost before = headers@;
    headers.push(String::from_str("Content-Type: message/ohttp-req"));
    proof {
        assert(strings_view(headers@) =~= strings_view(before).push(ohttp_req_content_type()));
    }
    (RequestArgs { method: Method::Post, url, headers, body: Some(encrypted), proxy_connect: None, proxy_header: Vec::new() }, hop)
}

/// The URL of a resource below the proxy: the proxy without its trailing
/// slashes, one slash, and the path without its leading slashes.
pub open spec fn spec_below(proxy: Seq<char>, path: Seq<char>) -> Seq<char> {
    spec_trim_end(proxy, '/') + seq!['/'] + spec_trim_start(path, '/')
}

impl OHttpEndpoints {
    /// The gateway and key configuration URLs below the proxy; the proxy is
    /// required.
    pub fn new(proxy_url: Option<String>, gateway_path: &str, config_path: &str) -> (r: Result<Self, String>)
        ensures
            match proxy_url {
                None => r matches Err(m) && m@ == "No proxy url (--proxy, -x) provided for ohttp"@,
                Some(p) => r matches Ok(e) && e.gateway_url@ == spec_below(p@, gateway_path@) && e.config_url@
                    == spec_below(p@, config_path@),
            },
    {
        let proxy_url = match proxy_url {
            Some(p) => p,
            None => return Err(String::from_str("No proxy url (--proxy, -x) provided for ohttp")),
        };
        let base = trim_end_char(proxy_url.as_str(), '/');
        let gateway_path = trim_start_char(gateway_path, '/');
        let config_path = trim_start_char(config_path, '/');
        let with_slash = concat(base, "/");
        proof {
            reveal_strlit("/");
        }
        let gateway_url = concat(with_slash.as_str(), gateway_path);
        let config_url = concat(with_slash.as_str(), config_path);
        Ok(OHttpEndpoints { gateway_url, config_url })
    }
}

/// The gateway's answer to the key request: anything but 200 is refused.
pub fn check_key_response(config_url: &str, status: u16, escaped_body: &str) -> (r: Result<(), PvcliError>)
    ensures
        status == 200 <==> r is Ok,
        r matches Err(e) ==> e matches PvcliError::UnexpectedStatus { status: s, message: m } && s == status && m@
            == "Fetching OHTTP gateway key at "@ + config_url@ + " returned error "@ + escaped_body@
            + ", use -vvv to debug raw response body"@,
{
    if status != 200 {
        let mut message = String::from_str("Fetching OHTTP gateway key at ");
        message.append(config_url);
        message.append(" returned error ");
        message.append(escaped_body);
        message.append(", use -vvv to debug raw response body");
        return Err(PvcliError::UnexpectedStatus { status, message });
    }
    Ok(())
}

/// The advice that precedes the body of a refused encapsulated request.
pub open spec fn gateway_error_prefix(status: u16) -> Seq<char> {
    if status == 526 {
        "OHTTP Gateway returned error, try disabling WARP or use a different wifi network and try again: "@
    } else if status == 403 {
        "OHTTP Gateway returned error, check if the endpoint is a relay with a path: "@
    } else {
        "OHTTP Gateway returned error: "@
    }
}

/// The gateway's answer to the encapsulated request: 200 is accepted; 526
/// and 403 get advice of their own.
pub fn check_gateway_response(status: u16, escaped_body: &str) -> (r: Result<(), PvcliError>)
    ensures
        status == 200 <==> r is Ok,
        r matches Err(e) ==> e matches PvcliError::UnexpectedStatus { status: s, message: m } && s == status && m@
            == gateway_error_prefix(status) + escaped_body@,
{
    let prefix = if status == 200 {
        return Ok(());
    } else if status == 526 {
        "OHTTP Gateway returned error, try disabling WARP or use a different wifi network and try again: "
    } else if status == 403 {
        "OHTTP Gateway returned error, check if the endpoint is a relay with a path: "
    } else {
        "OHTTP Gateway returned error: "
    };
    Err(PvcliError::UnexpectedStatus { status, message: concat(prefix, escaped_body) })
}

/// The configuration to encapsulate with, from the body of the gateway's
/// key response: the first key configuration that decodes, with its first
/// algorithm pair.
pub fn key_config_from_body(body: Vec<u8>) -> (r: Result<EncapConfig, Error>)
    ensures
        match spec_config_entries(body@) {
            None => r is Err,
            Some(e) => if spec_decoded_configs(e).len() == 0 {
                r == Err::<EncapConfig, Error>(Error::NoKeyConfig)
            } else {
                r matches Ok(c) && c.key_id == spec_decoded_configs(e)[0].key_id && c.public_key.kem_id
                    == spec_decoded_configs(e)[0].kem_id && c.public_key.bytes@ == spec_decoded_configs(e)[0].public_key
                    && (c.kdf_id, c.aead_id) == spec_decoded_configs(e)[0].symmetric_algorithms[0]
            },
        },
{
    let mut sb = StreamBuf::from_bytes(body);
    let cfg = decode_config(&mut sb)?;
    Ok(cfg.first_encap_config())
}

/// What the client keeps of the proxy's answer to its key request: after a
/// 200, the gateway's first key configuration and the response, its body
/// hex-encoded; otherwise the status error, with the escaped body.
pub fn fetch_proxy_key(config_url: &str, response: HttpResponse) -> (r: Result<(EncapConfig, HttpResponse), OHttpError>)
    ensures
        response.status != 200 ==> (r matches Err(OHttpError::Status(e)) && (e matches PvcliError::UnexpectedStatus {
            status: s,
            message: m,
        } && s == response.status && m@ == "Fetching OHTTP gateway key at "@ + config_url@ + " returned error "@
            + ascii_chars(spec_escape(response.body@)) + ", use -vvv to debug raw response body"@)),
        response.status == 200 ==> match spec_config_entries(response.body@) {
            None => r matches Err(OHttpError::Wire(_)),
            Some(e) => if spec_decoded_configs(e).len() == 0 {
                r == Err::<(EncapConfig, HttpResponse), OHttpError>(OHttpError::Wire(Error::NoKeyConfig))
            } else {
                r matches Ok((c, resp)) && c.key_id == spec_decoded_configs(e)[0].key_id && c.public_key.kem_id
                    == spec_decoded_configs(e)[0].kem_id && c.public_key.bytes@ == spec_decoded_configs(e)[0].public_key
                    && (c.kdf_id, c.aead_id) == spec_decoded_configs(e)[0].symmetric_algorithms[0]
                    && resp.version == response.version && resp.status == 200 && resp.headers@ == response.headers@
                    && resp.body@ == encode_utf8(spec_hex(response.body@))
            },
        },
{
    let escaped = response.body_as_string_escaped();
    if let Err(e) = check_key_response(config_url, response.status, escaped.as_str()) {
        return Err(OHttpError::Status(e));
    }
    let hex_key = response.body_as_hex();
    let body = vstd::slice::slice_to_vec(response.body.as_slice());
    let encap_config = match key_config_from_body(body) {
        Ok(c) => c,
        Err(e) => return Err(OHttpError::Wire(e)),
    };
    let HttpResponse { version, status: _, headers, body: _ } = response;
    Ok((encap_config, HttpResponse { version, status: 200, headers, body: hex_key.as_str().as_bytes_vec() }))
}

/// Whether every part of a request head can be length-prefixed.
fn head_fits(head: &RequestHead) -> (b: bool)
    ensures
        b == request_fits(head@),
{
    if head.method.len() as u64 > MAX_VAR_INT || head.scheme.len() as u64 > MAX_VAR_INT
        || head.authority.len() as u64 > MAX_VAR_INT || head.path.len() as u64 > MAX_VAR_INT {
        return false;
    }
    let mut i: usize = 0;
    while i < head.headers.len()
        invariant
            i <= head.headers@.len(),
            forall|j: int| 0 <= j < i ==> (#[trigger] head.headers@[j])@.0.len() <= MAX_VAR_INT
                && head.headers@[j]@.1.len() <= MAX_VAR_INT,
        decreases head.headers@.len() - i,
    {
        if head.headers[i].name.len() as u64 > MAX_VAR_INT || head.headers[i].value.len() as u64 > MAX_VAR_INT {
            proof {
                let h = crate::bhttp::fields_view(head.headers@);
                assert(h[i as int] == head.headers@[i as int]@);
            }
            return false;
        }
        i = i + 1;
    }
    proof {
        let h = crate::bhttp::fields_view(head.headers@);
        assert forall|j: int| 0 <= j < h.len() implies (#[trigger] h[j]).0.len() <= MAX_VAR_INT && h[j].1.len()
            <= MAX_VAR_INT by {
            assert(h[j] == head.headers@[j]@);
        }
    }
    true
}

/// The chunks of a request body: none when it is empty.
pub open spec fn body_chunks(b: Seq<u8>) -> Seq<Seq<u8>> {
    if b.len() == 0 {
        Seq::empty()
    } else {
        seq![b]
    }
}

proof fn lemma_no_stream_error(items: Seq<Result<Seq<u8>, Error>>)
    requires
        forall|i: int| 0 <= i < items.len() ==> (#[trigger] items[i]) is Ok,
    ensures
        spec_stream_error(items) is None,
    decreases items.len(),
{
    if items.len() > 0 {
        assert(items[0] is Ok);
        assert forall|i: int| 0 <= i < items.drop_first().len() implies (#[trigger] items.drop_first()[i]) is Ok by {
            assert(items.drop_first()[i] == items[i + 1]);
        }
        lemma_no_stream_error(items.drop_first());
    }
}

/// The error of a step of the OHTTP exchange.
#[derive(Debug)]
pub enum OHttpError {
    /// The request could not be built.
    Request(String),
    /// A response with an unexpected status.
    Status(PvcliError),
    /// Malformed or unopenable bytes.
    Wire(Error),
}

/// Encrypts a request for the gateway: builds it, encodes it in binary
/// HTTP, and seals it to the gateway's key. Gives the encapsulated request
/// and the context that opens the response.
pub fn encrypt(args: RequestArgs, encap_config: EncapConfig) -> (r: Result<(Vec<u8>, ResponseReceivingContext), OHttpError>)
    ensures
        spec_request_of(args) is None ==> r matches Err(OHttpError::Request(_)),
        spec_request_of(args) matches Some((h, b)) ==> (if !(request_fits(h) && b.len() <= MAX_VAR_INT) {
            r matches Err(OHttpError::Request(m)) && m@ == "request too large to encode"@
        } else if h.scheme.len() == 0 {
            r == Err::<(Vec<u8>, ResponseReceivingContext), OHttpError>(
                OHttpError::Wire(Error::InvalidData(Invalid::NoScheme)),
            )
        } else {
            r is Ok || r == Err::<(Vec<u8>, ResponseReceivingContext), OHttpError>(
                OHttpError::Wire(Error::InvalidData(Invalid::Setup)),
            )
        }),
        r matches Ok((bytes, ctx)) ==> (spec_request_of(args) matches Some((h, b)) && ({
            let bhttp = spec_request_head_encode(h) + spec_chunks_encode(body_chunks(b));
            let hdr = EncapHeader {
                key_id: encap_config.key_id,
                kem_id: encap_config.public_key.kem_id,
                kdf_id: encap_config.kdf_id,
                aead_id: encap_config.aead_id,
            };
            &&& bytes@.len() == 7 + spec_public_key_len(hdr.kem_id) + bhttp.len() + 16
            &&& bytes@.take(7) == spec_header_bytes(hdr)
            &&& ctx.inner.aead_id == encap_config.aead_id
            &&& ctx.inner.kdf_id == encap_config.kdf_id
            &&& ctx.inner.encapped_key@ == bytes@.subrange(7, (7 + spec_public_key_len(hdr.kem_id)) as int)
            &&& request_sealed(
                hdr,
                encap_config.public_key.bytes@,
                spec_info("message/bhttp request".spec_bytes(), hdr),
                "message/bhttp response".spec_bytes(),
                bhttp,
                bytes@,
                ctx.inner.response_secret@,
            )
        })),
{
    let request_sending_ctx = setup_request_encapsulation(encap_config, "message/bhttp request", "message/bhttp response");
    let (head, body) = match RequestHandler::build_request_wrapper(args) {
        Ok(x) => x,
        Err(m) => return Err(OHttpError::Request(m)),
    };
    if !head_fits(&head) || body.len() as u64 > MAX_VAR_INT {
        return Err(OHttpError::Request(String::from_str("request too large to encode")));
    }
    let mut items: Vec<Result<Vec<u8>, Error>> = Vec::new();
    if body.len() > 0 {
        items.push(Ok(body));
    }
    proof {
        let v = items_view(items@);
        assert forall|i: int| 0 <= i < v.len() implies ((#[trigger] v[i]) matches Ok(c) ==> c.len() <= MAX_VAR_INT) by {
            assert(v[i] == crate::bhttp::encode::item_view(items@[i]));
        }
    }
    let ghost hv = head@;
    let ghost cs = body_chunks(body@);
    proof {
        assert(items_view(items@) =~= ok_items(cs));
        assert(chunks_ok(cs)) by {
            assert forall|i: int| 0 <= i < cs.len() implies len_ok(#[trigger] cs[i]) by {}
        }
    }
    let encoded = match encode_request(head, items) {
        Ok(m) => m,
        Err(e) => return Err(OHttpError::Wire(e)),
    };
    proof {
        lemma_items_bytes(EncodedMessageKind::IndeterminateLength, spec_request_head_encode(hv), cs);
        lemma_no_stream_error(spec_encoded_items(EncodedMessageKind::IndeterminateLength, Some(spec_request_head_encode(hv)), ok_items(cs)));
    }
    let bhttp_bytes = match encoded.collect() {
        Ok(b) => b,
        Err(e) => return Err(OHttpError::Wire(e)),
    };
    let sb = StreamBuf::from_bytes(bhttp_bytes);
    match request_sending_ctx.encapsulate_non_chunked_content(sb) {
        Ok(x) => Ok(x),
        Err(e) => Err(OHttpError::Wire(e)),
    }
}

/// Decrypts the gateway's response: checks its status, opens the
/// encapsulated response and decodes the binary HTTP response in it.
pub fn decrypt(status: u16, body: Vec<u8>, ctx: ResponseReceivingContext) -> (r: Result<HttpResponse, OHttpError>)
    ensures
        status != 200 ==> (r matches Err(OHttpError::Status(e)) && (e matches PvcliError::UnexpectedStatus {
            status: s,
            message: m,
        } && s == status && m@ == gateway_error_prefix(status) + ascii_chars(spec_escape(body@)))),
        status == 200 ==> ({
            let l = ctx.inner.response_secret@.len();
            let d = body@;
            let n = d.take(l as int);
            let key = spec_response_key(ctx.inner.kdf_id, ctx.inner.aead_id, ctx.inner.encapped_key@,
                ctx.inner.response_secret@, n);
            let nonce = spec_chunk_nonce(spec_response_nonce(ctx.inner.kdf_id, ctx.inner.aead_id,
                ctx.inner.encapped_key@, ctx.inner.response_secret@, n), 0);
            let opened = if d.len() >= l { spec_aead_open(ctx.inner.aead_id, key, nonce, Seq::empty(), d.skip(l as int)) } else { None };
            &&& r matches Ok(resp) ==> (opened matches Some(pt) && spec_decode_response(pt) matches Some((h, k, m))
                && resp.status == h.status && fields_view(resp.headers@) == h.headers
                && spec_body_content(k, pt.skip(m as int)) == Some(resp.body@))
            &&& (opened matches Some(pt) && spec_decode_response(pt) matches Some((h, k, m))
                && spec_body_content(k, pt.skip(m as int)) is Some) ==> r is Ok
        }),
        forall|pt: Seq<u8>|
            status == 200 && #[trigger] response_sealed_for(ctx.inner, body@, pt) && (spec_decode_response(pt) matches Some(
                (h, k, m),
            ) && spec_body_content(k, pt.skip(m as int)) is Some) ==> r is Ok,
{
    let escaped = escape_bytes(&body);
    match check_gateway_response(status, escaped.as_str()) {
        Ok(()) => {},
        Err(e) => return Err(OHttpError::Status(e)),
    }
    let mut response_buf = StreamBuf::from_bytes(body);
    let decapsulated = match ctx.decapsulate_non_chunked_content(&mut response_buf) {
        Ok(b) => b,
        Err(e) => return Err(OHttpError::Wire(e)),
    };
    let decoded = match decode_response(StreamBuf::from_bytes(decapsulated)) {
        Ok(d) => d,
        Err(e) => return Err(OHttpError::Wire(e)),
    };
    let content = match decoded.body.collect() {
        Ok(c) => c,
        Err(e) => return Err(OHttpError::Wire(e)),
    };
    Ok(HttpResponse {
        version: HttpVersion::Http11,
        status: decoded.head.status,
        headers: decoded.head.headers,
        body: content,
    })
}

} // verus!
