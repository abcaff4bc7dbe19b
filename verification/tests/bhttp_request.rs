use pvcli::bhttp::decode::{decode_request, DecodedRequest};
use pvcli::bhttp::encode::encode_request;
use pvcli::bhttp::{Field, RequestHead};
use pvcli::error::{Error, ErrorKind, Invalid};
use pvcli::stream_buf::StreamBuf;

const EXPECTED_USER_AGENT: &str = "curl/7.16.3 libcurl/7.16.3 OpenSSL/0.9.7l zlib/1.2.3";

fn known_length_headers() -> Vec<u8> {
    let mut v = vec![0x00, 0x04];
    v.extend_from_slice(b"POST");
    v.push(0x05);
    v.extend_from_slice(b"https");
    v.push(0x00);
    v.push(0x0a);
    v.extend_from_slice(b"/hello.txt");
    v.extend_from_slice(&[0x40, 0x6c]);
    v.extend_from_slice(&field_lines());
    v
}

fn field_lines() -> Vec<u8> {
    let mut v = vec![0x0a];
    v.extend_from_slice(b"user-agent");
    v.push(0x34);
    v.extend_from_slice(EXPECTED_USER_AGENT.as_bytes());
    v.push(0x04);
    v.extend_from_slice(b"host");
    v.push(0x0f);
    v.extend_from_slice(b"www.example.com");
    v.push(0x0f);
    v.extend_from_slice(b"accept-language");
    v.push(0x06);
    v.extend_from_slice(b"en, mi");
    v
}

const KNOWN_LENGTH_CONTENT: &[u8] = &[0x09, b'B', b'a', b'g', b'u', b'e', b't', b't', b'e', b'!'];
const KNOWN_LENGTH_EMPTY_TRAILERS: &[u8] = &[0x00];

fn indeterminate_length_headers() -> Vec<u8> {
    let mut v = vec![0x02, 0x04];
    v.extend_from_slice(b"POST");
    v.push(0x05);
    v.extend_from_slice(b"https");
    v.push(0x00);
    v.push(0x0a);
    v.extend_from_slice(b"/hello.txt");
    v.extend_from_slice(&field_lines());
    v.push(0x00);
    v
}

const INDETERMINATE_LENGTH_CONTENT: &[u8] = &[
    0x04, b'B', b'a', b'g', b'u', 0x04, b'e', b't', b't', b'e', 0x01, b'!',
];
const INDETERMINATE_LENGTH_CONTENT_TERMINATOR: &[u8] = &[0x00];
const INDETERMINATE_LENGTH_TRAILER_TERMINATOR: &[u8] = &[0x00];

fn concat(parts: &[&[u8]]) -> Vec<u8> {
    parts.iter().flat_map(|p| p.iter().cloned()).collect()
}

fn chunked(bytes: &[u8], chunk_len: usize) -> StreamBuf {
    StreamBuf::new(bytes.chunks(chunk_len).map(|c| c.to_vec()).collect())
}

fn assert_example_request(req: DecodedRequest, expected_body: Result<&[u8], ErrorKind>) {
    assert_eq!(req.head.method, b"POST".to_vec());
    assert_eq!(req.head.scheme, b"https".to_vec());
    assert_eq!(req.head.authority, b"www.example.com".to_vec());
    assert_eq!(req.head.path, b"/hello.txt".to_vec());
    let expected = [
        ("user-agent", EXPECTED_USER_AGENT),
        ("host", "www.example.com"),
        ("accept-language", "en, mi"),
    ];
    assert_eq!(req.head.headers.len(), expected.len());
    for (f, (n, v)) in req.head.headers.iter().zip(expected.iter()) {
        assert_eq!(f.name, n.as_bytes().to_vec());
        assert_eq!(f.value, v.as_bytes().to_vec());
    }
    let body = req.body.collect().map_err(|e| e.kind());
    assert_eq!(body, expected_body.map(|b| b.to_vec()));
}

#[test]
fn known_length() {
    let request = concat(&[&known_length_headers(), KNOWN_LENGTH_CONTENT, KNOWN_LENGTH_EMPTY_TRAILERS]);
    for chunk_len in 1..request.len() {
        let req = decode_request(chunked(&request, chunk_len)).unwrap();
        assert_example_request(req, Ok(b"Baguette!"));
    }
}

#[test]
fn request_indeterminate_length() {
    let request = concat(&[
        &indeterminate_length_headers(),
        INDETERMINATE_LENGTH_CONTENT,
        INDETERMINATE_LENGTH_CONTENT_TERMINATOR,
        INDETERMINATE_LENGTH_TRAILER_TERMINATOR,
    ]);
    for chunk_len in 1..request.len() {
        let req = decode_request(chunked(&request, chunk_len)).unwrap();
        assert_example_request(req, Ok(b"Baguette!"));
    }
}

#[test]
fn known_length_truncated_headers() {
    let headers = known_length_headers();
    let truncated_len = headers.len() - 3;
    let err = decode_request(chunked(&headers[..truncated_len], 16)).err().unwrap();
    assert_eq!(err.kind(), ErrorKind::UnexpectedEof);
}

#[test]
fn known_length_missing_headers_rfc_9458() {
    let mut example = vec![0x00, 0x03];
    example.extend_from_slice(b"GET");
    example.push(0x05);
    example.extend_from_slice(b"https");
    example.push(0x0b);
    example.extend_from_slice(b"example.com");
    example.push(0x01);
    example.extend_from_slice(b"/");
    for chunk_len in 1..example.len() {
        let req = decode_request(chunked(&example, chunk_len)).unwrap();
        assert_eq!(req.head.method, b"GET".to_vec());
        assert_eq!(req.head.scheme, b"https".to_vec());
        assert_eq!(req.head.authority, b"example.com".to_vec());
        assert_eq!(req.head.path, b"/".to_vec());
        assert!(req.head.headers.is_empty());
    }
}

#[test]
fn indeterminate_length_truncated_headers() {
    let headers = indeterminate_length_headers();
    let truncated_len = headers.len() - 3;
    let err = decode_request(chunked(&headers[..truncated_len], 16)).err().unwrap();
    assert_eq!(err.kind(), ErrorKind::UnexpectedEof);
}

#[test]
fn known_length_no_content() {
    let headers = known_length_headers();
    for chunk_len in 1..headers.len() {
        let req = decode_request(chunked(&headers, chunk_len)).unwrap();
        assert_example_request(req, Ok(b""));
    }
}

#[test]
fn known_length_truncated_content() {
    let mut request = concat(&[&known_length_headers(), KNOWN_LENGTH_CONTENT]);
    request.truncate(request.len() - 4);
    for chunk_len in 1..request.len() {
        let req = decode_request(chunked(&request, chunk_len)).unwrap();
        assert_example_request(req, Err(ErrorKind::UnexpectedEof));
    }
}

#[test]
fn indeterminate_length_truncated_content_chunk() {
    let mut request = concat(&[&indeterminate_length_headers(), INDETERMINATE_LENGTH_CONTENT]);
    request.truncate(request.len() - 4);
    for chunk_len in 1..request.len() {
        let req = decode_request(chunked(&request, chunk_len)).unwrap();
        assert_example_request(req, Err(ErrorKind::UnexpectedEof));
    }
}

#[test]
fn indeterminate_length_truncated_content() {
    let request = concat(&[&indeterminate_length_headers(), INDETERMINATE_LENGTH_CONTENT]);
    for chunk_len in 1..request.len() {
        let req = decode_request(chunked(&request, chunk_len)).unwrap();
        assert_example_request(req, Ok(b"Baguette!"));
    }
}

#[test]
fn indeterminate_length_no_content() {
    let headers = indeterminate_length_headers();
    for chunk_len in 1..headers.len() {
        let req = decode_request(chunked(&headers, chunk_len)).unwrap();
        assert_example_request(req, Ok(b""));
    }
}

#[test]
fn known_length_no_trailers() {
    let request = concat(&[&known_length_headers(), KNOWN_LENGTH_CONTENT]);
    for chunk_len in 1..request.len() {
        let req = decode_request(chunked(&request, chunk_len)).unwrap();
        assert_example_request(req, Ok(b"Baguette!"));
    }
}

#[test]
fn indeterminate_length_no_trailers() {
    let request = concat(&[
        &indeterminate_length_headers(),
        INDETERMINATE_LENGTH_CONTENT,
        INDETERMINATE_LENGTH_CONTENT_TERMINATOR,
    ]);
    for chunk_len in 1..request.len() {
        let req = decode_request(chunked(&request, chunk_len)).unwrap();
        assert_example_request(req, Ok(b"Baguette!"));
    }
}

#[test]
fn known_length_max_buf_size() {
    let headers = known_length_headers();
    let err = decode_request(chunked(&headers, 4).max_buf_size(EXPECTED_USER_AGENT.len() - 8))
        .err()
        .unwrap();
    assert_eq!(err.kind(), ErrorKind::InvalidData);
    assert_eq!(err.message(), "max buf size reached");
}

#[test]
fn indeterminate_length_max_buf_size() {
    let headers = indeterminate_length_headers();
    let err = decode_request(chunked(&headers, 4).max_buf_size(EXPECTED_USER_AGENT.len() - 8))
        .err()
        .unwrap();
    assert_eq!(err.kind(), ErrorKind::InvalidData);
    assert_eq!(err.message(), "max buf size reached");
}

fn example_request() -> RequestHead {
    RequestHead {
        method: b"POST".to_vec(),
        scheme: b"https".to_vec(),
        authority: b"www.example.com".to_vec(),
        path: b"/hello.txt".to_vec(),
        headers: vec![
            Field { name: b"user-agent".to_vec(), value: EXPECTED_USER_AGENT.as_bytes().to_vec() },
            Field { name: b"host".to_vec(), value: b"www.example.com".to_vec() },
            Field { name: b"accept-language".to_vec(), value: b"en, mi".to_vec() },
        ],
    }
}

fn stream_chunks(mut message: pvcli::bhttp::encode::EncodedMessage) -> Vec<Vec<u8>> {
    let mut chunks = Vec::new();
    while let Some(c) = message.next_chunk() {
        chunks.push(c.unwrap());
    }
    chunks
}

#[test]
fn encode_example_request() {
    let body = ["Bagu", "ette", "", "!"].iter().map(|c| Ok(c.as_bytes().to_vec())).collect();
    let encoded = encode_request(example_request(), body).unwrap();
    let bytes = encoded.collect().unwrap();
    let expected = concat(&[
        &indeterminate_length_headers(),
        INDETERMINATE_LENGTH_CONTENT,
        INDETERMINATE_LENGTH_CONTENT_TERMINATOR,
    ]);
    assert_eq!(bytes, expected);
}

#[test]
fn request_simple_roundtrip() {
    let encoded = encode_request(example_request(), Vec::new()).unwrap();
    let decoded = decode_request(StreamBuf::new(stream_chunks(encoded))).unwrap();
    let expected = example_request();
    assert_eq!(decoded.head.method, expected.method);
    assert_eq!(decoded.head.scheme, expected.scheme);
    assert_eq!(decoded.head.authority, expected.authority);
    assert_eq!(decoded.head.path, expected.path);
    assert_eq!(decoded.head.headers, expected.headers);
    assert!(decoded.body.collect().unwrap().is_empty());
}

#[test]
fn request_without_scheme_is_refused() {
    let mut head = example_request();
    head.scheme = Vec::new();
    let err = encode_request(head, Vec::new()).err().unwrap();
    assert_eq!(err.message(), "request has no scheme");
}

#[test]
fn authority_is_written_when_host_differs() {
    let mut head = example_request();
    head.authority = b"other.example".to_vec();
    let bytes = encode_request(head, Vec::new()).unwrap().collect().unwrap();
    let decoded = decode_request(StreamBuf::from_bytes(bytes)).unwrap();
    assert_eq!(decoded.head.authority, b"other.example".to_vec());
}

#[test]
fn unknown_framing_indicator_is_refused() {
    let mut request = known_length_headers();
    request[0] = 0x01;
    let err = decode_request(StreamBuf::from_bytes(request)).err().unwrap();
    assert_eq!(err, Error::InvalidData(pvcli::error::Invalid::FramingIndicator));
    assert_eq!(err.message(), "invalid framing indicator");
}

#[test]
fn request_without_authority_or_host_is_refused() {
    let mut example = vec![0x00, 0x03];
    example.extend_from_slice(b"GET");
    example.push(0x05);
    example.extend_from_slice(b"https");
    example.push(0x00);
    example.push(0x01);
    example.extend_from_slice(b"/");
    let err = decode_request(StreamBuf::from_bytes(example)).err().unwrap();
    assert_eq!(err.message(), "no authority or host found");
}

#[test]
fn source_error_is_reported() {
    let headers = known_length_headers();
    let sb = StreamBuf::new(vec![headers[..5].to_vec()]).with_source_error(ErrorKind::Other);
    let err = decode_request(sb).err().unwrap();
    assert_eq!(err, Error::Source(ErrorKind::Other));
}

fn try_decode(label: &str, hex_str: &str) -> Result<Vec<u8>, Error> {
    let bytes = hex::decode(hex_str).unwrap();
    let total = bytes.len();
    match decode_request(StreamBuf::from_bytes(bytes)) {
        Ok(req) => {
            println!(
                "[{label}] decode_request OK: {} {}://{}{} ({} total bytes)",
                String::from_utf8_lossy(&req.head.method),
                String::from_utf8_lossy(&req.head.scheme),
                String::from_utf8_lossy(&req.head.authority),
                String::from_utf8_lossy(&req.head.path),
                total
            );
            let body = req.body.collect();
            match &body {
                Ok(b) => println!("[{label}] body OK: {} bytes = {:?}", b.len(), String::from_utf8_lossy(b)),
                Err(e) => println!("[{label}] body ERROR: {} ({:?})", e.message(), e.kind()),
            }
            body
        }
        Err(e) => {
            println!("[{label}] decode_request ERROR: {} ({:?})", e.message(), e.kind());
            Err(e)
        }
    }
}

#[test]
fn bhttp_malformed_newline_check() {
    // body chunk: 0a (len 10) + {"test":1} (10 bytes) + 00 terminator
    let correct = "0204504f5354056874747073117461726765742e6f687474702e696e666f092f616e797468696e670c636f6e74656e742d74797065106170706c69636174696f6e2f6a736f6e0a757365722d6167656e740c6665727265742f302e312e30000a7b2274657374223a317d00";
    // body chunk: 0a (len 10) + {"test":1}\n (11 bytes) + 00  -> length/content mismatch
    let malformed = "0204504f5354056874747073117461726765742e6f687474702e696e666f092f616e797468696e670c636f6e74656e742d74797065106170706c69636174696f6e2f6a736f6e0a757365722d6167656e740c6665727265742f302e312e30000a7b2274657374223a317d0a00";

    assert_eq!(try_decode("correct  ", correct).unwrap(), b"{\"test\":1}".to_vec());
    // The stray newline reads as the length of a next chunk that never comes.
    assert_eq!(try_decode("malformed", malformed).err().map(|e| e.kind()), Some(ErrorKind::UnexpectedEof));
}

/// An indeterminate-length request with the given control data, no
/// fields and no content.
fn request_with_control(method: &[u8], scheme: &[u8], authority: &[u8], path: &[u8]) -> Vec<u8> {
    let mut v = vec![0x02];
    for part in [method, scheme, authority, path] {
        v.push(part.len() as u8);
        v.extend_from_slice(part);
    }
    v.extend_from_slice(&[0x00, 0x00, 0x00]);
    v
}

#[test]
fn control_data_is_validated() {
    let ok = decode_request(StreamBuf::from_bytes(request_with_control(b"GET", b"https", b"a.example", b"/x"))).unwrap();
    assert_eq!(ok.head.authority, b"a.example".to_vec());
    let cases: [(&[u8], &[u8], &[u8], &[u8], Invalid); 4] = [
        (b"G ET", b"https", b"a.example", b"/x", Invalid::Method),
        (b"GET", b"ht tp", b"a.example", b"/x", Invalid::Scheme),
        (b"GET", b"https", b"a example", b"/x", Invalid::Authority),
        (b"GET", b"https", b"a.example", b"/a b", Invalid::Path),
    ];
    for (m, s, a, p, expected) in cases {
        let err = decode_request(StreamBuf::from_bytes(request_with_control(m, s, a, p))).err();
        assert_eq!(err, Some(Error::InvalidData(expected)));
    }
}

#[test]
fn field_lines_are_validated() {
    let mut bad_name = vec![0x02, 0x03];
    bad_name.extend_from_slice(b"GET");
    bad_name.push(0x05);
    bad_name.extend_from_slice(b"https");
    bad_name.push(0x01);
    bad_name.extend_from_slice(b"a");
    bad_name.push(0x01);
    bad_name.extend_from_slice(b"/");
    let mut bad_value = bad_name.clone();
    bad_name.extend_from_slice(&[0x03, b'a', b' ', b'b', 0x01, b'v', 0x00]);
    bad_value.extend_from_slice(&[0x01, b'a', 0x02, b'\n', b'v', 0x00]);
    assert_eq!(decode_request(StreamBuf::from_bytes(bad_name)).err(), Some(Error::InvalidData(Invalid::HeaderName)));
    assert_eq!(decode_request(StreamBuf::from_bytes(bad_value)).err(), Some(Error::InvalidData(Invalid::HeaderValue)));
}
