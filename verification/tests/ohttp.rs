use pvcli::args::{Method, RequestArgs};
use pvcli::bhttp::decode::{decode_request, decode_response};
use pvcli::bhttp::encode::encode_response;
use pvcli::bhttp::{Field, ResponseHead};
use pvcli::client::ohttp::{check_key_response, decrypt, encrypt, fetch_proxy_key, key_config_from_body, OHttpError};
use pvcli::client::{HttpResponse, HttpVersion};
use pvcli::error::{Error, ErrorKind, Invalid};
use pvcli::gateway::{
    extract_receiving_hpke_context, gateway_hpke_config, wrap_inner_oblivious_gateway_response, ObliviousGatewayReqExt,
    ObliviousGatewayReqKind,
};
use pvcli::ohttp::client::{decode_config, secret_len, setup_request_encapsulation, EncapConfig, KeyConfig};
use pvcli::ohttp::keys::{derive_key_pair, key_pair_from_secret};
use pvcli::ohttp::response::{AeadContext, ChunkNonce};
use pvcli::ohttp::server::{decode_request_header, encode_config, ServerConfig};
use pvcli::ohttp::stream::Encapsulated;
use pvcli::ohttp::chunked::{OpenStep, SealStep};
use pvcli::ohttp::{AeadId, EncapHeader, KdfId, KemId};
use hpke::aead::{AeadTag, AesGcm128};
use hpke::kdf::HkdfSha256;
use hpke::kem::X25519HkdfSha256;
use hpke::{Deserializable, Kem as KemTrait, OpModeR, OpModeS, Serializable};
use pvcli::stream_buf::StreamBuf;

const MOCK_GATEWAY_KEY_RESPONSE: &str =
    "0029000020f891675f4f738c4b23e9a32942f1508db5daaf395b0e78a471907eb457e15c7c000400010001";

const REQUEST_INFO: &str = "message/bhttp request";
const RESPONSE_INFO: &str = "message/bhttp response";

fn drain(mut e: Encapsulated) -> Vec<u8> {
    let mut out = Vec::new();
    while let Some(chunk) = e.next_chunk() {
        out.extend_from_slice(&chunk.unwrap());
    }
    out
}

fn sample_request() -> RequestArgs {
    RequestArgs {
        method: Method::Post,
        url: "https://example.com/hello.txt?x=1".to_string(),
        headers: vec!["content-type: text/plain".to_string()],
        body: Some(b"Baguette!".to_vec()),
        proxy_connect: None,
        proxy_header: vec![],
    }
}

fn sample_response_bytes() -> Vec<u8> {
    let head = ResponseHead {
        status: 200,
        headers: vec![Field { name: b"content-type".to_vec(), value: b"text/plain".to_vec() }],
    };
    encode_response(head, vec![Ok(b"Hello, ".to_vec()), Ok(b"World!".to_vec())], None)
        .collect()
        .unwrap()
}

#[test]
fn decode_mock_gateway_key() {
    let bytes = hex::decode(MOCK_GATEWAY_KEY_RESPONSE).unwrap();
    let mut sb = StreamBuf::from_bytes(bytes.clone());
    let cfg = decode_config(&mut sb).unwrap();
    let encap = cfg.first_encap_config();
    assert_eq!(encap.key_id, 0);
    assert_eq!(encap.public_key.kem_id, KemId::X25519HkdfSha256);
    assert_eq!(encap.public_key.bytes, bytes[5..37].to_vec());
    assert_eq!(encap.kdf_id, KdfId::HkdfSha256);
    assert_eq!(encap.aead_id, AeadId::AesGcm128);

    let again = key_config_from_body(bytes).unwrap();
    assert_eq!(again.public_key.bytes, encap.public_key.bytes);
}

#[test]
fn decode_config_refuses_truncated_and_empty_lists() {
    let mut bytes = hex::decode(MOCK_GATEWAY_KEY_RESPONSE).unwrap();
    bytes.pop();
    assert!(key_config_from_body(bytes).is_err());
    assert_eq!(key_config_from_body(Vec::new()).err(), Some(Error::NoKeyConfig));
}

#[test]
fn decode_config_skips_unknown_kem() {
    // A configuration with an unknown KEM, then the mock one.
    let mut bytes = vec![0x00, 0x09, 0x05, 0x12, 0x34, 0x00, 0x04, 0x00, 0x01, 0x00, 0x01];
    bytes.extend(hex::decode(MOCK_GATEWAY_KEY_RESPONSE).unwrap());
    let encap = key_config_from_body(bytes).unwrap();
    assert_eq!(encap.key_id, 0);
    assert_eq!(encap.public_key.kem_id, KemId::X25519HkdfSha256);
}

#[test]
fn gateway_config_roundtrip() {
    let server = gateway_hpke_config();
    let bytes = encode_config(&server);
    // Length prefix, key id, KEM, 32-byte key, algorithms.
    assert_eq!(bytes.len(), 2 + 1 + 2 + 32 + 2 + 4);
    assert_eq!(&bytes[0..2], &[0x00, 0x29]);
    let encap = key_config_from_body(bytes).unwrap();
    assert_eq!(encap.key_id, 0);
    assert_eq!(encap.public_key.kem_id, KemId::X25519HkdfSha256);
    assert_eq!(encap.kdf_id, KdfId::HkdfSha256);
    assert_eq!(encap.aead_id, AeadId::AesGcm128);
    let kp = derive_key_pair(KemId::X25519HkdfSha256, b"abcdefghijklmnopqrstuvwxyz012345");
    assert_eq!(encap.public_key.bytes, kp.public_key.bytes);
}

#[test]
fn derived_key_pair_matches_its_secret() {
    for kem in [KemId::X25519HkdfSha256, KemId::DhP256HkdfSha256, KemId::DhP384HkdfSha384] {
        let kp = derive_key_pair(kem, b"some input keying material of enough length");
        assert_eq!(kp.public_key.bytes.len(), kem.public_key_len());
        let again = key_pair_from_secret(kem, kp.private_key.clone()).unwrap();
        assert_eq!(again.public_key.bytes, kp.public_key.bytes);
    }
    assert_eq!(
        key_pair_from_secret(KemId::X25519HkdfSha256, vec![1, 2, 3]).err(),
        Some(Error::InvalidData(Invalid::PrivateKey))
    );
}

#[test]
fn algorithm_identifiers() {
    assert_eq!(KemId::try_from_u16(0x0020).unwrap(), KemId::X25519HkdfSha256);
    assert_eq!(KemId::try_from_u16(0x0010).unwrap(), KemId::DhP256HkdfSha256);
    assert_eq!(KemId::try_from_u16(0x0011).unwrap(), KemId::DhP384HkdfSha384);
    assert_eq!(KemId::try_from_u16(0x0021).err(), Some(Error::InvalidData(Invalid::KemId(0x0021))));
    assert_eq!(KdfId::try_from_u16(0x0003).unwrap(), KdfId::HkdfSha512);
    assert_eq!(KdfId::try_from_u16(0x0004).err(), Some(Error::InvalidData(Invalid::KdfId(0x0004))));
    assert_eq!(AeadId::try_from_u16(0x0003).unwrap(), AeadId::ChaCha20Poly1305);
    assert_eq!(AeadId::try_from_u16(0xffff).err(), Some(Error::InvalidData(Invalid::AeadId(0xffff))));
    assert_eq!(KemId::DhP384HkdfSha384.to_u16(), 0x0011);
    assert_eq!(KemId::DhP256HkdfSha256.public_key_len(), 65);
    assert_eq!(KemId::DhP384HkdfSha384.encapped_key_len(), 97);
    assert_eq!(AeadId::AesGcm256.key_len(), 32);
    assert_eq!(AeadId::ChaCha20Poly1305.nonce_len(), 12);
    assert_eq!(secret_len(AeadId::AesGcm128), 16);
    assert_eq!(secret_len(AeadId::AesGcm256), 32);
}

#[test]
fn encap_header_roundtrip_and_info() {
    let h = EncapHeader {
        key_id: 7,
        kem_id: KemId::DhP256HkdfSha256,
        kdf_id: KdfId::HkdfSha384,
        aead_id: AeadId::AesGcm256,
    };
    let mut out = Vec::new();
    h.put(&mut out);
    assert_eq!(out, vec![7, 0x00, 0x10, 0x00, 0x02, 0x00, 0x02]);
    assert_eq!(EncapHeader::encoded_len(), 7);
    let mut sb = StreamBuf::from_bytes(out.clone());
    assert_eq!(EncapHeader::decode(&mut sb).unwrap(), h);

    let info = h.encode_info("label");
    let mut expected = b"label".to_vec();
    expected.push(0);
    expected.extend_from_slice(&out);
    assert_eq!(info, expected);
    assert_eq!(EncapHeader::encoded_info_len("label"), expected.len());

    let mut bad = StreamBuf::from_bytes(vec![7, 0x00, 0x99, 0x00, 0x01, 0x00, 0x01]);
    assert_eq!(EncapHeader::decode(&mut bad).err(), Some(Error::InvalidData(Invalid::KemId(0x99))));
    let mut short = StreamBuf::from_bytes(vec![7, 0x00]);
    assert!(EncapHeader::decode(&mut short).is_err());
}

#[test]
fn chunk_nonces_count_up_from_the_initial_nonce() {
    let mut c = ChunkNonce::new(vec![0xff, 0x00, 0x10]);
    assert_eq!(c.next().unwrap(), vec![0xff, 0x00, 0x10]);
    assert_eq!(c.next().unwrap(), vec![0xff, 0x00, 0x11]);
    assert_eq!(c.next().unwrap(), vec![0xff, 0x00, 0x12]);

    let mut small = ChunkNonce::new(vec![0x00]);
    for i in 0..255u8 {
        assert_eq!(small.next().unwrap(), vec![i]);
    }
    assert_eq!(small.next().err(), Some(Error::InvalidData(Invalid::MessageLimitReached)));
}

#[test]
fn aead_context_seal_then_open() {
    for aead in [AeadId::AesGcm128, AeadId::AesGcm256, AeadId::ChaCha20Poly1305] {
        let key = vec![0x42; aead.key_len()];
        let nonce = vec![0x07; aead.nonce_len()];
        let mut sealer = AeadContext::new(aead, key.clone(), nonce.clone());
        let mut opener = AeadContext::new(aead, key.clone(), nonce.clone());
        let (ct1, tag1) = sealer.seal(b"first".to_vec(), b"aad").unwrap();
        let (ct2, tag2) = sealer.seal(b"first".to_vec(), b"aad").unwrap();
        assert_eq!(ct1.len(), 5);
        assert_eq!(tag1.len(), 16);
        // A fresh nonce for each message.
        assert_ne!((ct1.clone(), tag1.clone()), (ct2.clone(), tag2.clone()));
        let mut sealed1 = ct1;
        sealed1.extend(tag1);
        let mut sealed2 = ct2;
        sealed2.extend(tag2);
        assert_eq!(opener.open(sealed1, b"aad").unwrap(), b"first".to_vec());
        assert_eq!(opener.open(sealed2.clone(), b"aad").unwrap(), b"first".to_vec());
        // Out of order, it no longer opens.
        let mut late = AeadContext::new(aead, key, nonce);
        assert_eq!(late.open(sealed2, b"aad").err(), Some(Error::InvalidData(Invalid::Open)));
    }
}

#[test]
fn non_chunked_exchange_roundtrip() {
    let server = gateway_hpke_config();
    let encap = key_config_from_body(encode_config(&server)).unwrap();
    let (request, response_ctx) = encrypt(sample_request(), encap).unwrap();
    assert_eq!(&request[0..7], &[0x00, 0x00, 0x20, 0x00, 0x01, 0x00, 0x01]);

    // The gateway opens the request.
    let mut sb = StreamBuf::from_bytes(request);
    let (req_ctx, resp_ctx) = decode_request_header(&server, REQUEST_INFO, RESPONSE_INFO, &mut sb).unwrap();
    assert_eq!(req_ctx.encap_header.key_id, 0);
    let plaintext = req_ctx.decapsulate_non_chunked_content(&mut sb).unwrap();
    let decoded = decode_request(StreamBuf::from_bytes(plaintext)).unwrap();
    assert_eq!(decoded.head.method, b"POST".to_vec());
    assert_eq!(decoded.head.scheme, b"https".to_vec());
    assert_eq!(decoded.head.authority, b"example.com".to_vec());
    assert_eq!(decoded.head.path, b"/hello.txt?x=1".to_vec());
    assert!(decoded
        .head
        .headers
        .contains(&Field { name: b"content-type".to_vec(), value: b"text/plain".to_vec() }));
    assert_eq!(decoded.body.collect().unwrap(), b"Baguette!".to_vec());

    // The gateway seals its response, the client opens it.
    let sealed = drain(resp_ctx.encapsulate_non_chunked_content(StreamBuf::from_bytes(sample_response_bytes())));
    let response = decrypt(200, sealed, response_ctx).unwrap();
    assert_eq!(response.status, 200);
    assert_eq!(response.headers, vec![Field { name: b"content-type".to_vec(), value: b"text/plain".to_vec() }]);
    assert_eq!(response.body, b"Hello, World!".to_vec());
    assert_eq!(response.body_as_string_lossy(), "Hello, World!");
}

#[test]
fn tampered_response_does_not_open() {
    let server = gateway_hpke_config();
    let encap = key_config_from_body(encode_config(&server)).unwrap();
    let (request, response_ctx) = encrypt(sample_request(), encap).unwrap();
    let mut sb = StreamBuf::from_bytes(request);
    let (_req_ctx, resp_ctx) = decode_request_header(&server, REQUEST_INFO, RESPONSE_INFO, &mut sb).unwrap();
    let mut sealed = drain(resp_ctx.encapsulate_non_chunked_content(StreamBuf::from_bytes(sample_response_bytes())));
    let last = sealed.len() - 1;
    sealed[last] ^= 1;
    match decrypt(200, sealed, response_ctx) {
        Err(OHttpError::Wire(e)) => assert_eq!(e, Error::InvalidData(Invalid::Open)),
        other => panic!("unexpected result {other:?}"),
    }
}

#[test]
fn error_status_is_reported() {
    let server = gateway_hpke_config();
    let encap = key_config_from_body(encode_config(&server)).unwrap();
    let (_request, response_ctx) = encrypt(sample_request(), encap).unwrap();
    match decrypt(502, b"bad gateway".to_vec(), response_ctx) {
        Err(OHttpError::Status(e)) => assert!(e.message().contains("502") && e.message().contains("bad gateway")),
        other => panic!("unexpected result {other:?}"),
    }
}

#[test]
fn tampered_request_does_not_open() {
    let server = gateway_hpke_config();
    let encap = key_config_from_body(encode_config(&server)).unwrap();
    let (mut request, _response_ctx) = encrypt(sample_request(), encap).unwrap();
    let last = request.len() - 1;
    request[last] ^= 0x80;
    let mut sb = StreamBuf::from_bytes(request);
    let (req_ctx, _resp_ctx) = decode_request_header(&server, REQUEST_INFO, RESPONSE_INFO, &mut sb).unwrap();
    assert_eq!(
        req_ctx.decapsulate_non_chunked_content(&mut sb).err(),
        Some(Error::InvalidData(Invalid::OpenRequest))
    );
}

#[test]
fn request_to_unknown_key_is_refused() {
    let server = gateway_hpke_config();
    let mut request = vec![0x05, 0x00, 0x20, 0x00, 0x01, 0x00, 0x01];
    request.extend_from_slice(&[0u8; 32]);
    let mut sb = StreamBuf::from_bytes(request);
    assert_eq!(
        decode_request_header(&server, REQUEST_INFO, RESPONSE_INFO, &mut sb).err().map(|e| e),
        Some(Error::InvalidData(Invalid::UnknownKeyId(5)))
    );
    let mut wrong_alg = vec![0x00, 0x00, 0x20, 0x00, 0x01, 0x00, 0x03];
    wrong_alg.extend_from_slice(&[0u8; 32]);
    let mut sb = StreamBuf::from_bytes(wrong_alg);
    assert_eq!(
        decode_request_header(&server, REQUEST_INFO, RESPONSE_INFO, &mut sb).err(),
        Some(Error::InvalidData(Invalid::UnsupportedAlgorithms {
            key_id: 0,
            kdf: KdfId::HkdfSha256,
            aead: AeadId::ChaCha20Poly1305
        }))
    );
}

#[test]
fn chunked_response_roundtrip() {
    let server = gateway_hpke_config();
    let encap: EncapConfig = key_config_from_body(encode_config(&server)).unwrap();
    let ctx = setup_request_encapsulation(encap, REQUEST_INFO, RESPONSE_INFO);
    let (request, response_ctx) =
        ctx.encapsulate_non_chunked_content(StreamBuf::from_bytes(b"ping".to_vec())).unwrap();
    let mut sb = StreamBuf::from_bytes(request);
    let (req_ctx, resp_ctx) = decode_request_header(&server, REQUEST_INFO, RESPONSE_INFO, &mut sb).unwrap();
    assert_eq!(req_ctx.decapsulate_non_chunked_content(&mut sb).unwrap(), b"ping".to_vec());

    let body = StreamBuf::new(vec![b"Hello, ".to_vec(), b"chunked ".to_vec(), b"World!".to_vec()]);
    let sealed = drain(resp_ctx.encapsulate_chunked_content(body));
    let mut opened = response_ctx.decapsulate_chunked_content(StreamBuf::from_bytes(sealed)).unwrap();
    let mut plain = Vec::new();
    while let Some(chunk) = opened.next_chunk() {
        plain.extend_from_slice(&chunk.unwrap());
    }
    assert_eq!(plain, b"Hello, chunked World!".to_vec());
}

#[test]
fn gateway_request_kinds() {
    assert_eq!(
        ObliviousGatewayReqKind::from_req(true, Some(b"message/ohttp-req")),
        Some(ObliviousGatewayReqKind::OhttpReq)
    );
    assert_eq!(
        ObliviousGatewayReqKind::from_req(true, Some(b"message/ohttp-chunked-req")),
        Some(ObliviousGatewayReqKind::OhttpChunkedReq)
    );
    assert_eq!(ObliviousGatewayReqKind::from_req(false, Some(b"message/ohttp-req")), None);
    assert_eq!(ObliviousGatewayReqKind::from_req(true, Some(b"text/plain")), None);
    assert_eq!(ObliviousGatewayReqKind::from_req(true, None), None);
    assert_eq!(ObliviousGatewayReqKind::OhttpReq.response_content_type(), "message/ohttp-res");
    assert_eq!(
        ObliviousGatewayReqKind::OhttpChunkedReq.response_content_type(),
        "message/ohttp-chunked-res"
    );
    assert_eq!(
        ObliviousGatewayReqKind::OhttpChunkedReq.info_strings(),
        ("message/bhttp chunked request", "message/bhttp chunked response")
    );
}

#[test]
fn empty_server_config_encodes_to_nothing() {
    let server = ServerConfig::new();
    assert!(encode_config(&server).is_empty());
    let decoded = decode_response(StreamBuf::from_bytes(sample_response_bytes())).unwrap();
    assert_eq!(decoded.head.status, 200);
}

#[test]
fn gateway_serves_an_encapsulated_request() {
    let server = gateway_hpke_config();
    let encap = key_config_from_body(encode_config(&server)).unwrap();
    let (request, response_ctx) = encrypt(sample_request(), encap).unwrap();

    let mut stream = StreamBuf::from_bytes(request);
    let (req_ctx, resp_ctx) =
        extract_receiving_hpke_context(&mut stream, &server, ObliviousGatewayReqKind::OhttpReq).unwrap();
    assert_eq!(req_ctx.request_info, {
        let mut v = b"message/bhttp request".to_vec();
        v.push(0);
        v.extend_from_slice(&[0x00, 0x00, 0x20, 0x00, 0x01, 0x00, 0x01]);
        v
    });
    assert_eq!(req_ctx.response_info, b"message/bhttp response".to_vec());
    let inner = decode_request(StreamBuf::from_bytes(req_ctx.decapsulate_non_chunked_content(&mut stream).unwrap()))
        .unwrap();
    assert_eq!(inner.head.path, b"/hello.txt?x=1".to_vec());

    let head = ResponseHead { status: 201, headers: vec![] };
    let ext = ObliviousGatewayReqExt { req_kind: ObliviousGatewayReqKind::OhttpReq, response_sending_context: resp_ctx };
    let sealed = drain(wrap_inner_oblivious_gateway_response(head, vec![Ok(b"created".to_vec())], Some(7), ext));
    let response = decrypt(200, sealed, response_ctx).unwrap();
    assert_eq!(response.status, 201);
    assert_eq!(response.body, b"created".to_vec());
}

#[test]
fn gateway_chunked_response_is_opened_chunk_by_chunk() {
    let server = gateway_hpke_config();
    let encap = key_config_from_body(encode_config(&server)).unwrap();
    let ctx = setup_request_encapsulation(encap, "message/bhttp chunked request", "message/bhttp chunked response");
    let (request, response_ctx) =
        ctx.encapsulate_non_chunked_content(StreamBuf::from_bytes(b"ping".to_vec())).unwrap();
    let mut stream = StreamBuf::from_bytes(request);
    let (_req_ctx, resp_ctx) =
        extract_receiving_hpke_context(&mut stream, &server, ObliviousGatewayReqKind::OhttpChunkedReq).unwrap();
    let head = ResponseHead { status: 200, headers: vec![Field { name: b"a".to_vec(), value: b"b".to_vec() }] };
    let ext =
        ObliviousGatewayReqExt { req_kind: ObliviousGatewayReqKind::OhttpChunkedReq, response_sending_context: resp_ctx };
    let sealed =
        drain(wrap_inner_oblivious_gateway_response(head, vec![Ok(b"Hello, ".to_vec()), Ok(b"World!".to_vec())], None, ext));
    let mut opened = response_ctx.decapsulate_chunked_content(StreamBuf::from_bytes(sealed)).unwrap();
    let mut bhttp = Vec::new();
    while let Some(chunk) = opened.next_chunk() {
        bhttp.extend_from_slice(&chunk.unwrap());
    }
    let decoded = decode_response(StreamBuf::from_bytes(bhttp)).unwrap();
    assert_eq!(decoded.head.status, 200);
    assert_eq!(decoded.head.headers, vec![Field { name: b"a".to_vec(), value: b"b".to_vec() }]);
    assert_eq!(decoded.body.collect().unwrap(), b"Hello, World!".to_vec());
}

#[test]
fn encoded_message_as_a_stream_buf() {
    let head = ResponseHead { status: 200, headers: vec![] };
    let sb = encode_response(head.clone(), vec![Ok(b"ab".to_vec()), Ok(b"".to_vec())], None).into_stream_buf();
    let mut sb = sb;
    assert_eq!(sb.read_to_end().unwrap(), vec![0x03, 0x40, 0xc8, 0x00, 0x02, b'a', b'b', 0x00]);
    let mut with_error =
        encode_response(head, vec![Ok(b"ab".to_vec()), Err(Error::MaxBufSize)], Some(2)).into_stream_buf();
    assert_eq!(with_error.read_to_end().err(), Some(Error::Source(pvcli::error::ErrorKind::InvalidData)));
}

/// The key fetch of the client, with the proxy's answers given: the key
/// is shown in hexadecimal, and a refused fetch reports the proxy's body.
#[test]
fn test_fetch_ohttp_key() {
    let cases: [(u16, Vec<u8>, &str); 2] = [
        (200, hex::decode(MOCK_GATEWAY_KEY_RESPONSE).unwrap(), MOCK_GATEWAY_KEY_RESPONSE),
        (404, b"Request did not match any route".to_vec(), "Request did not match any route"),
    ];
    for (status, body, expected_result) in cases {
        let response = HttpResponse { version: HttpVersion::Http11, status, headers: vec![], body };
        let config_url = "http://127.0.0.1/ohttp-configs";
        let result = fetch_proxy_key(config_url, response).map_err(|e| match e {
            OHttpError::Status(e) => e.message(),
            OHttpError::Wire(e) => e.message().to_string(),
            OHttpError::Request(m) => m,
        });
        match result {
            Ok((encap, http_response)) => {
                assert_eq!(encap.key_id, 0);
                assert_eq!(http_response.status, 200);
                assert_eq!(http_response.body_as_string_lossy(), expected_result, "expected identical mock hex key")
            }
            Err(e) => assert!(
                e.contains(expected_result),
                "expected error message to contain: {}, got: {}",
                expected_result,
                e
            ),
        }
    }
}

#[test]
fn refusals_carry_their_messages() {
    assert_eq!(Error::InvalidData(Invalid::UnknownKeyId(7)).message(), "unknown key id 7");
    assert_eq!(
        Error::InvalidData(Invalid::WrongKemId {
            key_id: 0,
            expected: KemId::X25519HkdfSha256,
            got: KemId::DhP256HkdfSha256
        })
        .message(),
        "wrong kem id for key id 0 (expected X25519HkdfSha256, got DhP256HkdfSha256)"
    );
    assert_eq!(
        Error::InvalidData(Invalid::UnsupportedAlgorithms {
            key_id: 0,
            kdf: KdfId::HkdfSha256,
            aead: AeadId::AesGcm256
        })
        .message(),
        "invalid algo (HkdfSha256, AesGcm256) for key id 0"
    );
    assert_eq!(Error::InvalidData(Invalid::KemId(33)).message(), "invalid KEM id (33)");
    assert_eq!(Error::InvalidData(Invalid::OpenChunk).message(), "could not open chunk");
    assert_eq!(Error::InvalidData(Invalid::OpenRequest).message(), "could not open non chunked content");
    assert_eq!(Error::NoKeyConfig.kind(), ErrorKind::UnexpectedEof);
    assert_eq!(Error::InvalidData(Invalid::Open).kind(), ErrorKind::InvalidData);
}

#[test]
fn request_naming_an_algorithm_pair_the_key_lacks_is_refused() {
    let mut server = ServerConfig::new();
    let kp = derive_key_pair(KemId::X25519HkdfSha256, b"abcdefghijklmnopqrstuvwxyz012345");
    server.add_key_config(kp, vec![(KdfId::HkdfSha256, AeadId::AesGcm128)]).unwrap();
    let mut sb = StreamBuf::from_bytes(vec![0x00, 0x00, 0x20, 0x00, 0x01, 0x00, 0x02]);
    let e = decode_request_header(&server, REQUEST_INFO, RESPONSE_INFO, &mut sb).err().unwrap();
    assert_eq!(
        e,
        Error::InvalidData(Invalid::UnsupportedAlgorithms { key_id: 0, kdf: KdfId::HkdfSha256, aead: AeadId::AesGcm256 })
    );
    assert_eq!(e.kind(), ErrorKind::InvalidData);
    assert!(e.message().contains("invalid algo"));
}

#[test]
fn request_sealed_for_another_info_does_not_open() {
    let server = gateway_hpke_config();
    let encap = key_config_from_body(encode_config(&server)).unwrap();
    let (request, _response_ctx) = encrypt(sample_request(), encap).unwrap();
    let mut sb = StreamBuf::from_bytes(request);
    let (req_ctx, _resp_ctx) = decode_request_header(&server, "message/other request", RESPONSE_INFO, &mut sb).unwrap();
    let e = req_ctx.decapsulate_non_chunked_content(&mut sb).err().unwrap();
    assert_eq!(e, Error::InvalidData(Invalid::OpenRequest));
    assert_eq!(e.kind(), ErrorKind::InvalidData);
}

#[test]
fn truncated_key_config_prefix_is_an_end_of_input() {
    let mut sb = StreamBuf::from_bytes(vec![0x00, 0x29, 0x00, 0x00, 0x20]);
    let e = decode_config(&mut sb).err().unwrap();
    assert_eq!(e.kind(), ErrorKind::UnexpectedEof);
}

#[test]
fn key_config_with_bad_algorithm_list_length_is_refused() {
    let mut encoded = vec![0x00, 0x00, 0x20];
    encoded.extend_from_slice(&[7u8; 32]);
    encoded.extend_from_slice(&[0x00, 0x06, 0x00, 0x01, 0x00, 0x01, 0x00, 0x01]);
    let e = KeyConfig::decode(&encoded).err().unwrap();
    assert_eq!(e, Error::InvalidData(Invalid::SymmetricAlgorithmsLength(6)));
    assert_eq!(e.message(), "invalid symmetric algorithms length (6)");
    assert_eq!(e.kind(), ErrorKind::InvalidData);
    let mut empty = vec![0x00, 0x00, 0x20];
    empty.extend_from_slice(&[7u8; 32]);
    empty.extend_from_slice(&[0x00, 0x00]);
    assert_eq!(KeyConfig::decode(&empty).err(), Some(Error::InvalidData(Invalid::SymmetricAlgorithmsLength(0))));
    let mut short_key = vec![0x00, 0x00, 0x20];
    short_key.extend_from_slice(&[7u8; 20]);
    assert_eq!(KeyConfig::decode(&short_key).err(), Some(Error::InvalidData(Invalid::TruncatedKeyConfig)));
}

#[test]
fn has_more_data_keeps_a_buffered_chunk_and_pulls_the_next_one() {
    let mut sb = StreamBuf::new(vec![b"ab".to_vec(), Vec::new(), b"cd".to_vec()]);
    assert_eq!(sb.has_more_data(), Ok(true));
    assert_eq!(sb.chunk(), b"ab");
    assert_eq!(sb.has_more_data(), Ok(true));
    assert_eq!(sb.chunk(), b"ab");
    sb.advance(2);
    assert_eq!(sb.has_more_data(), Ok(true));
    assert_eq!(sb.chunk(), b"");
    assert_eq!(sb.has_more_data(), Ok(true));
    assert_eq!(sb.chunk(), b"cd");
    sb.advance(2);
    assert_eq!(sb.has_more_data(), Ok(false));
}

#[test]
fn every_suite_carries_a_request_and_its_response() {
    let kems = [KemId::DhP256HkdfSha256, KemId::DhP384HkdfSha384, KemId::X25519HkdfSha256];
    let kdfs = [KdfId::HkdfSha256, KdfId::HkdfSha384, KdfId::HkdfSha512];
    let aeads = [AeadId::AesGcm128, AeadId::AesGcm256, AeadId::ChaCha20Poly1305];
    for kem in kems {
        for kdf in kdfs {
            for aead in aeads {
                let mut server = ServerConfig::new();
                let kp = derive_key_pair(kem, b"abcdefghijklmnopqrstuvwxyz012345");
                server.add_key_config(kp, vec![(kdf, aead)]).unwrap();
                let encap = key_config_from_body(encode_config(&server)).unwrap();
                assert_eq!((encap.public_key.kem_id, encap.kdf_id, encap.aead_id), (kem, kdf, aead));
                let (request, response_ctx) = encrypt(sample_request(), encap).unwrap();
                let mut header = vec![0u8];
                header.extend_from_slice(&kem.to_u16().to_be_bytes());
                header.extend_from_slice(&kdf.to_u16().to_be_bytes());
                header.extend_from_slice(&aead.to_u16().to_be_bytes());
                assert_eq!(&request[0..7], header.as_slice());
                assert!(request.len() > 7 + kem.encapped_key_len() + 16);
                let mut sb = StreamBuf::from_bytes(request);
                let (req_ctx, resp_ctx) = decode_request_header(&server, REQUEST_INFO, RESPONSE_INFO, &mut sb).unwrap();
                let plaintext = req_ctx.decapsulate_non_chunked_content(&mut sb).unwrap();
                let decoded = decode_request(StreamBuf::from_bytes(plaintext)).unwrap();
                assert_eq!(decoded.head.path, b"/hello.txt?x=1".to_vec());
                assert_eq!(decoded.body.collect().unwrap(), b"Baguette!".to_vec());
                let sealed = drain(resp_ctx.encapsulate_non_chunked_content(StreamBuf::from_bytes(sample_response_bytes())));
                let response = decrypt(200, sealed, response_ctx).unwrap();
                assert_eq!(response.body, b"Hello, World!".to_vec());
            }
        }
    }
}

fn seal_chunked_request(server: &ServerConfig, chunks: Vec<Vec<u8>>) -> Vec<u8> {
    let encap = key_config_from_body(encode_config(server)).unwrap();
    let ctx = setup_request_encapsulation(encap, REQUEST_INFO, RESPONSE_INFO);
    let pk = <X25519HkdfSha256 as KemTrait>::PublicKey::from_bytes(&ctx.public_key).unwrap();
    let (enc, mut sender) = hpke::setup_sender::<AesGcm128, HkdfSha256, X25519HkdfSha256, _>(
        &OpModeS::Base,
        &pk,
        &ctx.request_info,
        &mut rand::thread_rng(),
    )
    .unwrap();
    let mut secret = vec![0u8; 16];
    sender.export(&ctx.response_info, &mut secret).unwrap();
    let (mut sealer, _response_ctx) =
        ctx.encapsulate_chunked_content(enc.to_bytes().to_vec(), secret, StreamBuf::new(chunks));
    let mut wire = Vec::new();
    loop {
        match sealer.step() {
            SealStep::Output(b) => wire.extend_from_slice(&b),
            SealStep::Seal(mut pt, aad) => {
                let tag = sender.seal_in_place_detached(&mut pt, &aad).unwrap();
                wire.extend_from_slice(&sealer.sealed(pt, tag.to_bytes().to_vec()).unwrap());
            }
            SealStep::Done => break,
            SealStep::Failed(e) => panic!("sealing failed: {e:?}"),
        }
    }
    wire
}

fn open_chunked_request(server: &ServerConfig, wire: Vec<u8>) -> Result<Vec<u8>, Error> {
    let mut sb = StreamBuf::from_bytes(wire);
    let (req, _resp) = decode_request_header(server, REQUEST_INFO, RESPONSE_INFO, &mut sb).unwrap();
    let sk = <X25519HkdfSha256 as KemTrait>::PrivateKey::from_bytes(&req.private_key).unwrap();
    let encapped = <X25519HkdfSha256 as KemTrait>::EncappedKey::from_bytes(&req.encapped_key).unwrap();
    let mut receiver =
        hpke::setup_receiver::<AesGcm128, HkdfSha256, X25519HkdfSha256>(&OpModeR::Base, &sk, &encapped, &req.request_info)
            .unwrap();
    let mut opener = req.decapsulate_chunked_content(sb);
    let mut out = Vec::new();
    loop {
        match opener.step() {
            OpenStep::Open(mut data, aad) => {
                let outcome = if data.len() < 16 {
                    None
                } else {
                    let split = data.len() - 16;
                    let tag = AeadTag::<AesGcm128>::from_bytes(&data[split..]).unwrap();
                    data.truncate(split);
                    receiver.open_in_place_detached(&mut data, &aad, &tag).ok().map(|_| data)
                };
                out.extend_from_slice(&opener.opened(outcome)?);
            }
            OpenStep::Done => return Ok(out),
            OpenStep::Failed(e) => return Err(e),
        }
    }
}

#[test]
fn chunked_request_roundtrip() {
    let server = gateway_hpke_config();
    let wire = seal_chunked_request(&server, vec![b"Hello, ".to_vec(), Vec::new(), b"chunked world".to_vec()]);
    assert_eq!(&wire[0..7], &[0x00, 0x00, 0x20, 0x00, 0x01, 0x00, 0x01]);
    // header and key, then 7+16 and 13+16 byte chunks with one-byte lengths, then 0 and a tag
    assert_eq!(wire.len(), 7 + 32 + (1 + 23) + (1 + 29) + (1 + 16));
    assert_eq!(open_chunked_request(&server, wire).unwrap(), b"Hello, chunked world".to_vec());
}

#[test]
fn tampered_or_truncated_chunked_request_does_not_open() {
    let server = gateway_hpke_config();
    let wire = seal_chunked_request(&server, vec![b"abcdef".to_vec(), b"ghij".to_vec()]);
    let mut tampered = wire.clone();
    tampered[7 + 32 + 2] ^= 1;
    assert_eq!(open_chunked_request(&server, tampered).err(), Some(Error::InvalidData(Invalid::OpenChunk)));
    let cut = wire[..wire.len() - 30].to_vec();
    assert_eq!(open_chunked_request(&server, cut).err().map(|e| e.kind()), Some(ErrorKind::UnexpectedEof));
    let no_final = wire[..wire.len() - 17].to_vec();
    assert!(open_chunked_request(&server, no_final).is_err());
}

#[test]
fn key_config_names_the_identifier_it_refuses() {
    let mut unknown_kem = vec![0x00, 0x00, 0x21];
    unknown_kem.extend_from_slice(&[7u8; 40]);
    let e = KeyConfig::decode(&unknown_kem).err().unwrap();
    assert_eq!(e, Error::InvalidData(Invalid::KemId(0x21)));
    assert_eq!(e.message(), "invalid KEM id (33)");
    let mut algs = vec![0x00, 0x00, 0x20];
    algs.extend_from_slice(&[7u8; 32]);
    algs.extend_from_slice(&[0x00, 0x08, 0x00, 0x01, 0x00, 0x01, 0x00, 0x05, 0x00, 0x01]);
    assert_eq!(KeyConfig::decode(&algs).err(), Some(Error::InvalidData(Invalid::KdfId(5))));
    let mut bad_aead = vec![0x00, 0x00, 0x20];
    bad_aead.extend_from_slice(&[7u8; 32]);
    bad_aead.extend_from_slice(&[0x00, 0x04, 0x00, 0x01, 0x00, 0x09]);
    let e = KeyConfig::decode(&bad_aead).err().unwrap();
    assert_eq!(e, Error::InvalidData(Invalid::AeadId(9)));
    assert_eq!(e.message(), "invalid AEAD id (9)");
}
