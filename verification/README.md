# pvcli

A curl-like HTTP client for Oblivious HTTP (RFC 9458, with the chunked
extension of draft-ietf-ohai-chunked-ohttp), built around a library whose
logic is verified with Verus.

## Layout

- `src/` — the verified library.
  - `varint.rs`, `stream_buf.rs`: QUIC variable-length integers and a
    bounded byte buffer over a source of chunks.
  - `bhttp/`: Binary HTTP (RFC 9292): the grammar as spec functions,
    the decoder (`decode.rs`, `body.rs`), the encoder (`encode.rs`) and the
    round-trip laws (`laws.rs`).
  - `ohttp/`: key configurations, the encapsulation header, the response
    key schedule and chunk nonces, the sealing and opening streams, the
    client and gateway contexts, and the laws relating them. The calls into
    `hpke`, `hkdf`, `aes-gcm`, `chacha20poly1305` and `rand` are trusted
    wrappers in `ohttp/crypto.rs` and `ohttp/keys.rs`. Chunked requests
    (`ohttp/chunked.rs`) are framed by two state machines that ask the
    caller's HPKE context, which the caller holds across chunks, for each
    seal or open.
  - `client/`: what the command-line client decides — the request it
    builds from the command line, header redaction, the choice of
    transport, name-resolution overrides, and the Oblivious HTTP exchange
    (`fetch_proxy_key`, `encrypt`, `outer_request`, `decrypt`) around the
    network calls.
  - `gateway.rs`: the gateway's request kinds, labels and key
    configuration, and the wrapping of its responses.
- `app/` — the binary: argument parsing, logging, name resolution, TCP
  connections and HTTP exchanges (with `hyper`), driving the library.
- `tests/` — tests of the library.

## Verification

`src/` is verified by Verus; the trusted items (wrappers of outside
functions and the names of their results) carry doc comments saying what
their contracts claim of the outside code.
