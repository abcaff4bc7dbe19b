//! The Oblivious HTTP gateway: which requests it takes, with which labels,
//! and its key configuration.
use vstd::prelude::*;
use crate::ohttp::keys::derive_key_pair;
use crate::bhttp::encode::{
    body_fits, encode_response, fields_fit, items_view, lemma_ok_chunks_bytes, spec_encoded_items, spec_stream_bytes,
    EncodedMessageKind,
};
use crate::bhttp::{spec_field_lines_encode, spec_indeterminate_response_head_encode, spec_known_response_head_encode, ResponseHead};
use crate::error::Error;
use crate::ohttp::server::{
    config_publishable, decode_request_header, spec_request_header_outcome, RequestReceivingContext,
    ResponseSendingContext, ServerConfig,
};
use crate::ohttp::stream::EncapsulatedResponseStream;
use crate::ohttp::{spec_info, spec_public_key_len};
use crate::stream_buf::StreamBuf;
use crate::varint::MAX_VAR_INT;
use vstd::string::StringSliceAdditionalSpecFns;
use crate::ohttp::{AeadId, KdfId, KemId};

verus! {

/// The kind of an encapsulated request.
#[derive(Clone, Copy, Debug, PartialEq, Eq, Structural)]
pub enum ObliviousGatewayReqKind {
    OhttpReq,
    OhttpChunkedReq,
}

/// `message/ohttp-req`.
pub open spec fn ohttp_req_type() -> Seq<u8> {
    seq![109u8, 101u8, 115u8, 115u8, 97u8, 103u8, 101u8, 47u8, 111u8, 104u8, 116u8, 116u8, 112u8, 45u8, 114u8, 101u8, 113u8]
}

/// `message/ohttp-chunked-req`.
pub open spec fn ohttp_chunked_req_type() -> Seq<u8> {
    seq![
        109u8, 101u8, 115u8, 115u8, 97u8, 103u8, 101u8, 47u8, 111u8, 104u8, 116u8, 116u8, 112u8, 45u8, 99u8, 104u8,
        117u8, 110u8, 107u8, 101u8, 100u8, 45u8, 114u8, 101u8, 113u8,
    ]
}

fn bytes_are(b: &[u8], expected: &Vec<u8>) -> (r: bool)
    ensures
        r == (b@ == expected@),
{
    if b.len() != expected.len() {
        return false;
    }
    let mut i: usize = 0;
    while i < b.len()
        invariant
            b@.len() == expected@.len(),
            i <= b@.len(),
            forall|j: int| 0 <= j < i ==> b@[j] == expected@[j],
        decreases b@.len() - i,
    {
        if b[i] != expected[i] {
            return false;
        }
        i = i + 1;
    }
    assert(b@ =~= expected@);
    true
}

impl ObliviousGatewayReqKind {
    /// The kind of a request: a `POST` whose content type is
    /// `message/ohttp-req` or `message/ohttp-chunked-req`.
    pub fn from_req(is_post: bool, content_type: Option<&[u8]>) -> (r: Option<Self>)
        ensures
            r == (if !is_post {
                None
            } else {
                match content_type {
                    None => None,
                    Some(ct) => if ct@ == ohttp_req_type() {
                        Some(ObliviousGatewayReqKind::OhttpReq)
                    } else if ct@ == ohttp_chunked_req_type() {
                        Some(ObliviousGatewayReqKind::OhttpChunkedReq)
                    } else {
                        None
                    },
                }
            }),
    {
        if !is_post {
            return None;
        }
        let ct = match content_type {
            Some(c) => c,
            None => return None,
        };
        let req = vec![109u8, 101u8, 115u8, 115u8, 97u8, 103u8, 101u8, 47u8, 111u8, 104u8, 116u8, 116u8, 112u8, 45u8, 114u8, 101u8, 113u8];
        let chunked = vec![
            109u8, 101u8, 115u8, 115u8, 97u8, 103u8, 101u8, 47u8, 111u8, 104u8, 116u8, 116u8, 112u8, 45u8, 99u8, 104u8,
            117u8, 110u8, 107u8, 101u8, 100u8, 45u8, 114u8, 101u8, 113u8,
        ];
        assert(req@ =~= ohttp_req_type());
        assert(chunked@ =~= ohttp_chunked_req_type());
        if bytes_are(ct, &req) {
            Some(ObliviousGatewayReqKind::OhttpReq)
        } else if bytes_are(ct, &chunked) {
            Some(ObliviousGatewayReqKind::OhttpChunkedReq)
        } else {
            None
        }
    }

    /// The content type of the response.
    pub fn response_content_type(self) -> (s: &'static str)
        ensures
            s@ == (match self {
                ObliviousGatewayReqKind::OhttpReq => "message/ohttp-res"@,
                ObliviousGatewayReqKind::OhttpChunkedReq => "message/ohttp-chunked-res"@,
            }),
    {
        match self {
            ObliviousGatewayReqKind::OhttpReq => "message/ohttp-res",
            ObliviousGatewayReqKind::OhttpChunkedReq => "message/ohttp-chunked-res",
        }
    }

    /// The HPKE labels of the request and of the response.
    pub fn info_strings(self) -> (r: (&'static str, &'static str))
        ensures
            r.0 == request_label(self),
            r.1 == response_label(self),
            r.0@ == (match self {
                ObliviousGatewayReqKind::OhttpReq => "message/bhttp request"@,
                ObliviousGatewayReqKind::OhttpChunkedReq => "message/bhttp chunked request"@,
            }),
            r.1@ == (match self {
                ObliviousGatewayReqKind::OhttpReq => "message/bhttp response"@,
                ObliviousGatewayReqKind::OhttpChunkedReq => "message/bhttp chunked response"@,
            }),
    {
        match self {
            ObliviousGatewayReqKind::OhttpReq => ("message/bhttp request", "message/bhttp response"),
            ObliviousGatewayReqKind::OhttpChunkedReq => ("message/bhttp chunked request", "message/bhttp chunked response"),
        }
    }
}

/// The HPKE label of a request of this kind.
pub open spec fn request_label(kind: ObliviousGatewayReqKind) -> &'static str {
    match kind {
        ObliviousGatewayReqKind::OhttpReq => "message/bhttp request",
        ObliviousGatewayReqKind::OhttpChunkedReq => "message/bhttp chunked request",
    }
}

/// The HPKE label of the response to a request of this kind.
pub open spec fn response_label(kind: ObliviousGatewayReqKind) -> &'static str {
    match kind {
        ObliviousGatewayReqKind::OhttpReq => "message/bhttp response",
        ObliviousGatewayReqKind::OhttpChunkedReq => "message/bhttp chunked response",
    }
}

/// Reads the header of an encapsulated request of kind `req_kind` and sets
/// up its HPKE contexts with the labels of the kind.
pub fn extract_receiving_hpke_context(
    stream: &mut StreamBuf,
    hpke_config: &ServerConfig,
    req_kind: ObliviousGatewayReqKind,
) -> (r: Result<(RequestReceivingContext, ResponseSendingContext), Error>)
    requires
        hpke_config.wf(),
        old(stream).wf(),
    ensures
        final(stream).wf(),
        r matches Ok((req, resp)) ==> ({
            let d = old(stream).data();
            let h = req.encap_header;
            let n = spec_public_key_len(h.kem_id);
            &&& d.len() >= 7 + n
            &&& h.key_id < hpke_config.configs().len()
            &&& req.request_info@ == spec_info(request_label(req_kind).spec_bytes(), h)
            &&& req.response_info@ == response_label(req_kind).spec_bytes()
            &&& req.encapped_key@ == d.subrange(7, (7 + n) as int)
            &&& final(stream).data() == d.skip((7 + n) as int)
            &&& resp.inner.kdf_id == h.kdf_id && resp.inner.aead_id == h.aead_id
            &&& resp.inner.encapped_key@ == req.encapped_key@
        }),
        old(stream).clean() ==> spec_request_header_outcome(
            hpke_config.configs(),
            old(stream).data(),
            request_label(req_kind).spec_bytes(),
            response_label(req_kind).spec_bytes(),
            r,
        ),
{
    let (request_info_str, response_info_str) = req_kind.info_strings();
    decode_request_header(hpke_config, request_info_str, response_info_str, stream)
}

/// The extension the gateway keeps with a request: its kind and the
/// context that seals the response.
pub struct ObliviousGatewayReqExt {
    pub req_kind: ObliviousGatewayReqKind,
    pub response_sending_context: ResponseSendingContext,
}

/// The gateway's answer: the inner response encoded in binary HTTP, then
/// sealed whole for a request, chunk by chunk for a chunked request.
pub fn wrap_inner_oblivious_gateway_response(
    head: ResponseHead,
    body: Vec<Result<Vec<u8>, Error>>,
    exact_size: Option<u64>,
    req_ext: ObliviousGatewayReqExt,
) -> (e: EncapsulatedResponseStream)
    requires
        fields_fit(head@.headers),
        body_fits(items_view(body@)),
        exact_size matches Some(n) ==> n <= MAX_VAR_INT && spec_field_lines_encode(head@.headers).len() <= MAX_VAR_INT,
    ensures
        e.wf(),
        req_ext.req_kind is OhttpReq ==> e.state() is NonChunked,
        req_ext.req_kind is OhttpChunkedReq ==> e.state() is ChunkLen,
        e.input().data() == spec_stream_bytes(
            match exact_size {
                Some(n) => spec_encoded_items(
                    EncodedMessageKind::KnownLength,
                    Some(spec_known_response_head_encode(head@, n)),
                    items_view(body@),
                ),
                None => spec_encoded_items(
                    EncodedMessageKind::IndeterminateLength,
                    Some(spec_indeterminate_response_head_encode(head@)),
                    items_view(body@),
                ),
            },
        ),
        e.sealer().count() == 0,
        e.sealer().aead() == req_ext.response_sending_context.inner.aead_id,
{
    let binary_encoded_res = encode_response(head, body, exact_size);
    let ghost o = binary_encoded_res.output();
    let encoded_res_stream = binary_encoded_res.into_stream_buf();
    proof {
        lemma_ok_chunks_bytes(o);
        assert(encoded_res_stream.data() =~= spec_stream_bytes(o));
    }
    match req_ext.req_kind {
        ObliviousGatewayReqKind::OhttpReq => req_ext.response_sending_context.encapsulate_non_chunked_content(
            encoded_res_stream,
        ),
        ObliviousGatewayReqKind::OhttpChunkedReq => req_ext.response_sending_context.encapsulate_chunked_content(
            encoded_res_stream,
        ),
    }
}

/// The gateway's configuration: one X25519 key derived from a fixed seed,
/// for HKDF-SHA256 with AES-128-GCM.
pub fn gateway_hpke_config() -> (c: ServerConfig)
    ensures
        c.wf(),
        c.configs().len() == 1,
        c.configs()[0].key_id == 0,
        c.configs()[0].key.public_key.kem_id == KemId::X25519HkdfSha256,
        c.configs()[0].symmetric_algorithms@ == seq![(KdfId::HkdfSha256, AeadId::AesGcm128)],
{
    let mut server_config = ServerConfig::new();
    let seed = "abcdefghijklmnopqrstuvwxyz012345";
    let key_pair = derive_key_pair(KemId::X25519HkdfSha256, seed.as_bytes());
    let algs = vec![(KdfId::HkdfSha256, AeadId::AesGcm128)];
    proof {
        let v = crate::ohttp::client::KeyConfigV {
            key_id: 0,
            kem_id: KemId::X25519HkdfSha256,
            public_key: key_pair.public_key.bytes@,
            symmetric_algorithms: algs@,
        };
        crate::ohttp::server::lemma_key_config_len(v);
        assert(config_publishable(v));
    }
    let _ = server_config.add_key_config(key_pair, algs);
    server_config
}

} // verus!
