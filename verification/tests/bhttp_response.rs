use pvcli::bhttp::decode::decode_response;
use pvcli::bhttp::encode::{encode_response, EncodedMessage, EncodedMessageKind};
use pvcli::bhttp::{BodyKind, Field, ResponseHead};
use pvcli::stream_buf::StreamBuf;

fn indeterminate_length_headers() -> Vec<u8> {
    let mut v = vec![0x03, 0x40, 0xc8, 0x04];
    v.extend_from_slice(b"date");
    v.push(0x1d);
    v.extend_from_slice(b"Mon, 27 Jul 2009 12:28:53 GMT");
    v.push(0x06);
    v.extend_from_slice(b"server");
    v.push(0x06);
    v.extend_from_slice(b"Apache");
    v.push(0x0c);
    v.extend_from_slice(b"content-type");
    v.push(0x0a);
    v.extend_from_slice(b"text/plain");
    v.push(0x00);
    v
}

fn example_response() -> ResponseHead {
    ResponseHead {
        status: 200,
        headers: vec![
            Field { name: b"date".to_vec(), value: b"Mon, 27 Jul 2009 12:28:53 GMT".to_vec() },
            Field { name: b"server".to_vec(), value: b"Apache".to_vec() },
            Field { name: b"content-type".to_vec(), value: b"text/plain".to_vec() },
        ],
    }
}

fn simple_response() -> ResponseHead {
    ResponseHead { status: 200, headers: Vec::new() }
}

fn body(chunks: &[&[u8]]) -> Vec<Result<Vec<u8>, pvcli::error::Error>> {
    chunks.iter().map(|c| Ok(c.to_vec())).collect()
}

fn assert_chunks(mut message: EncodedMessage, expected_chunks: &[&[u8]]) {
    for (i, chunk) in expected_chunks.iter().enumerate() {
        assert_eq!(message.next_chunk().unwrap().unwrap(), chunk.to_vec(), "unexpected chunk {i}");
    }
    assert!(message.next_chunk().is_none(), "too many chunks");
}

fn stream_chunks(mut message: EncodedMessage) -> Vec<Vec<u8>> {
    let mut chunks = Vec::new();
    while let Some(c) = message.next_chunk() {
        chunks.push(c.unwrap());
    }
    chunks
}

#[test]
fn response_indeterminate_length() {
    let res = encode_response(example_response(), body(&[b"Hello World! My content includes a trailing CRLF.\r\n"]), None);
    assert_chunks(
        res,
        &[&indeterminate_length_headers(), b"\x33Hello World! My content includes a trailing CRLF.\r\n", &[0x00]],
    );
}

#[test]
fn indeterminate_length_empty() {
    let res = encode_response(example_response(), Vec::new(), None);
    assert_chunks(res, &[&indeterminate_length_headers(), &[0x00]]);
}

#[test]
fn indeterminate_length_empty_content_chunk() {
    let res = encode_response(
        example_response(),
        body(&[b"Hello World! ", b"", b"My content includes a trailing CRLF.\r\n"]),
        None,
    );
    assert_chunks(
        res,
        &[
            &indeterminate_length_headers(),
            b"\x0dHello World! ",
            &[],
            b"\x26My content includes a trailing CRLF.\r\n",
            &[0x00],
        ],
    );
}

#[test]
fn response_simple_roundtrip() {
    let encoded = encode_response(simple_response(), Vec::new(), Some(0));
    let decoded = decode_response(StreamBuf::new(stream_chunks(encoded))).unwrap();
    assert_eq!(decoded.head.status, 200);
    assert!(decoded.head.headers.is_empty());
    assert!(decoded.body.collect().unwrap().is_empty());
}

#[test]
fn simple_roundtrip_headers_and_body() {
    let head = ResponseHead {
        status: 200,
        headers: vec![Field { name: b"foo".to_vec(), value: b"Bar".to_vec() }],
    };
    let encoded = encode_response(head, body(&[b"Hello,", b" World!"]), None);
    let decoded = decode_response(StreamBuf::new(stream_chunks(encoded))).unwrap();
    assert_eq!(decoded.head.status, 200);
    assert_eq!(decoded.head.headers, vec![Field { name: b"foo".to_vec(), value: b"Bar".to_vec() }]);
    assert_eq!(decoded.body.collect().unwrap(), b"Hello, World!".to_vec());
}

#[test]
fn known_length_simple() {
    let response = encode_response(simple_response(), Vec::new(), Some(0));
    assert_chunks(response, &[&[0x01, 0x40, 0xc8, 0x00, 0x00]]);
}

#[test]
fn known_length_simple_with_body() {
    let response = encode_response(simple_response(), body(&[b"Hello, World!"]), Some(13));
    assert_chunks(response, &[&[0x01, 0x40, 0xc8, 0x00, 0x0d], b"Hello, World!"]);
}

#[test]
fn known_length_simple_with_headers_with_body() {
    let head = ResponseHead {
        status: 200,
        headers: vec![Field { name: b"content-type".to_vec(), value: b"application/json".to_vec() }],
    };
    let response = encode_response(head, body(&[b"Hello, World!"]), Some(13));
    let mut first = vec![0x01, 0x40, 0xc8, 0x1e, 0x0c];
    first.extend_from_slice(b"content-type");
    first.push(0x10);
    first.extend_from_slice(b"application/json");
    first.push(0x0d);
    assert_chunks(response, &[&first, b"Hello, World!"]);
}

#[test]
fn encoded_message_kind() {
    assert_eq!(encode_response(simple_response(), Vec::new(), Some(0)).kind(), EncodedMessageKind::KnownLength);
    assert_eq!(encode_response(simple_response(), Vec::new(), None).kind(), EncodedMessageKind::IndeterminateLength);
}

#[test]
fn informational_responses_are_skipped() {
    // 103 Early Hints with one field, then 200 with no field and no content.
    let mut bytes = vec![0x01, 0x40, 0x67, 0x07, 0x04];
    bytes.extend_from_slice(b"link");
    bytes.push(0x01);
    bytes.push(b'x');
    bytes.extend_from_slice(&[0x40, 0xc8, 0x00, 0x00]);
    let decoded = decode_response(StreamBuf::from_bytes(bytes)).unwrap();
    assert_eq!(decoded.head.status, 200);
    assert!(decoded.head.headers.is_empty());
}

#[test]
fn invalid_status_code_is_refused() {
    let err = decode_response(StreamBuf::from_bytes(vec![0x01, 0x40, 0x63])).err().unwrap();
    assert_eq!(err, pvcli::error::Error::InvalidData(pvcli::error::Invalid::StatusCode));
}

#[test]
fn body_frames_and_size_hint() {
    let encoded = encode_response(simple_response(), body(&[b"Hello, World!"]), Some(13));
    let mut decoded = decode_response(StreamBuf::new(stream_chunks(encoded))).unwrap();
    assert_eq!(decoded.body.body_kind(), BodyKind::KnownLength { remaining: 13 });
    assert_eq!(decoded.body.size_hint(), (13, Some(13)));
    assert!(!decoded.body.is_end_stream());
    let frame = decoded.body.next_frame().unwrap().unwrap();
    assert_eq!(frame, b"Hello, World!".to_vec());
    assert!(decoded.body.is_end_stream());
    assert!(decoded.body.next_frame().is_none());
}
