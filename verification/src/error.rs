//! Errors of the wire-format readers and writers.
use vstd::prelude::*;
use vstd::string::StringExecFns;
use crate::text::{concat, decimal, spec_decimal};
use crate::ohttp::{AeadId, KdfId, KemId};

verus! {

/// The class of an error, as `std::io::ErrorKind` would give it.
#[derive(Debug, Clone, Copy, PartialEq, Eq)]
pub enum ErrorKind {
    UnexpectedEof,
    InvalidData,
    Other,
}

/// Why some input was refused as malformed.
#[derive(Debug, Clone, Copy, PartialEq, Eq)]
pub enum Invalid {
    /// A varint does not fit in `usize`.
    VarintTooLarge,
    /// A binary HTTP framing indicator other than the ones expected.
    FramingIndicator,
    /// A known-length field section ends inside a field name.
    TruncatedFieldName,
    /// A known-length field section ends inside a field value.
    TruncatedFieldValue,
    HeaderName,
    HeaderValue,
    Method,
    Scheme,
    /// A request to encode has no scheme.
    NoScheme,
    Authority,
    Path,
    /// A request with neither an authority nor a `host` header.
    NoAuthority,
    Uri,
    StatusCode,
    /// An unregistered KEM identifier.
    KemId(u16),
    /// An unregistered KDF identifier.
    KdfId(u16),
    /// An unregistered AEAD identifier.
    AeadId(u16),
    /// A key configuration whose list of symmetric algorithms has a bad
    /// length (in bytes).
    SymmetricAlgorithmsLength(u16),
    /// A key configuration that ends early.
    TruncatedKeyConfig,
    /// A request naming a key identifier the gateway does not have.
    UnknownKeyId(u8),
    /// A request naming another KEM than its key's.
    WrongKemId { key_id: u8, expected: KemId, got: KemId },
    /// A request naming an algorithm pair its key is not configured for.
    UnsupportedAlgorithms { key_id: u8, kdf: KdfId, aead: AeadId },
    /// Bytes that are not a private key of the KEM.
    PrivateKey,
    /// The HPKE setup of a request failed.
    Setup,
    /// Authenticated decryption of a response failed.
    Open,
    /// Authenticated decryption of a non-chunked request failed.
    OpenRequest,
    /// Authenticated decryption of a chunk of a request failed.
    OpenChunk,
    /// Encryption failed.
    Seal,
    /// The sequence of nonces is exhausted.
    MessageLimitReached,
}

/// An error of this crate's readers and writers.
#[derive(Debug, Clone, Copy, PartialEq, Eq)]
pub enum Error {
    /// The input ended before the bytes a read asked for.
    ReadExactEof,
    /// The input ended while more bytes were needed.
    FillBufEof,
    /// An OHTTP key configuration list held no usable configuration.
    NoKeyConfig,
    /// The buffered input grew past the configured limit.
    MaxBufSize,
    /// Malformed input.
    InvalidData(Invalid),
    /// An error that the source of the input reported.
    Source(ErrorKind),
}

impl Error {
    pub open spec fn spec_kind(self) -> ErrorKind {
        match self {
            Error::ReadExactEof | Error::FillBufEof | Error::NoKeyConfig => ErrorKind::UnexpectedEof,
            Error::MaxBufSize | Error::InvalidData(_) => ErrorKind::InvalidData,
            Error::Source(k) => k,
        }
    }

    /// The class of the error.
    pub fn kind(&self) -> (k: ErrorKind)
        ensures
            k == self.spec_kind(),
    {
        match self {
            Error::ReadExactEof | Error::FillBufEof | Error::NoKeyConfig => ErrorKind::UnexpectedEof,
            Error::MaxBufSize | Error::InvalidData(_) => ErrorKind::InvalidData,
            Error::Source(k) => *k,
        }
    }

    /// The text of an error.
    pub open spec fn spec_message(self) -> Seq<char> {
        match self {
            Error::ReadExactEof => "could not read exact amount of bytes"@,
            Error::FillBufEof => "could not accumulate more data"@,
            Error::NoKeyConfig => "no key config found"@,
            Error::MaxBufSize => "max buf size reached"@,
            Error::InvalidData(i) => spec_invalid_message(i),
            Error::Source(_) => "input source error"@,
        }
    }

    /// The text of the error.
    pub fn message(&self) -> (m: String)
        ensures
            m@ == self.spec_message(),
    {
        match self {
            Error::ReadExactEof => String::from_str("could not read exact amount of bytes"),
            Error::FillBufEof => String::from_str("could not accumulate more data"),
            Error::NoKeyConfig => String::from_str("no key config found"),
            Error::MaxBufSize => String::from_str("max buf size reached"),
            Error::InvalidData(i) => invalid_message(*i),
            Error::Source(_) => String::from_str("input source error"),
        }
    }
}

/// The name of a KEM, as `Debug` writes it.
pub open spec fn kem_name(k: KemId) -> Seq<char> {
    match k {
        KemId::DhP256HkdfSha256 => "DhP256HkdfSha256"@,
        KemId::DhP384HkdfSha384 => "DhP384HkdfSha384"@,
        KemId::X25519HkdfSha256 => "X25519HkdfSha256"@,
    }
}

fn kem_name_str(k: KemId) -> (s: &'static str)
    ensures
        s@ == kem_name(k),
{
    match k {
        KemId::DhP256HkdfSha256 => "DhP256HkdfSha256",
        KemId::DhP384HkdfSha384 => "DhP384HkdfSha384",
        KemId::X25519HkdfSha256 => "X25519HkdfSha256",
    }
}

/// The name of a KDF, as `Debug` writes it.
pub open spec fn kdf_name(k: KdfId) -> Seq<char> {
    match k {
        KdfId::HkdfSha256 => "HkdfSha256"@,
        KdfId::HkdfSha384 => "HkdfSha384"@,
        KdfId::HkdfSha512 => "HkdfSha512"@,
    }
}

fn kdf_name_str(k: KdfId) -> (s: &'static str)
    ensures
        s@ == kdf_name(k),
{
    match k {
        KdfId::HkdfSha256 => "HkdfSha256",
        KdfId::HkdfSha384 => "HkdfSha384",
        KdfId::HkdfSha512 => "HkdfSha512",
    }
}

/// The name of an AEAD, as `Debug` writes it.
pub open spec fn aead_name(a: AeadId) -> Seq<char> {
    match a {
        AeadId::AesGcm128 => "AesGcm128"@,
        AeadId::AesGcm256 => "AesGcm256"@,
        AeadId::ChaCha20Poly1305 => "ChaCha20Poly1305"@,
    }
}

fn aead_name_str(a: AeadId) -> (s: &'static str)
    ensures
        s@ == aead_name(a),
{
    match a {
        AeadId::AesGcm128 => "AesGcm128",
        AeadId::AesGcm256 => "AesGcm256",
        AeadId::ChaCha20Poly1305 => "ChaCha20Poly1305",
    }
}

/// The text of a refusal of malformed input, with the values it names.
pub open spec fn spec_invalid_message(i: Invalid) -> Seq<char> {
    match i {
        Invalid::VarintTooLarge => "out of range integral type conversion attempted"@,
        Invalid::FramingIndicator => "invalid framing indicator"@,
        Invalid::TruncatedFieldName => "could not decode field name"@,
        Invalid::TruncatedFieldValue => "could not decode field value"@,
        Invalid::HeaderName => "invalid HTTP header name"@,
        Invalid::HeaderValue => "failed to parse header value"@,
        Invalid::Method => "invalid HTTP method"@,
        Invalid::Scheme => "invalid scheme"@,
        Invalid::NoScheme => "request has no scheme"@,
        Invalid::Authority => "invalid authority"@,
        Invalid::Path => "invalid uri character"@,
        Invalid::NoAuthority => "no authority or host found"@,
        Invalid::Uri => "invalid uri character"@,
        Invalid::StatusCode => "invalid status code"@,
        Invalid::KemId(id) => "invalid KEM id ("@ + spec_decimal(id as nat) + ")"@,
        Invalid::KdfId(id) => "invalid KDF id ("@ + spec_decimal(id as nat) + ")"@,
        Invalid::AeadId(id) => "invalid AEAD id ("@ + spec_decimal(id as nat) + ")"@,
        Invalid::SymmetricAlgorithmsLength(l) => "invalid symmetric algorithms length ("@ + spec_decimal(l as nat) + ")"@,
        Invalid::TruncatedKeyConfig => "BufferTooShortError"@,
        Invalid::UnknownKeyId(k) => "unknown key id "@ + spec_decimal(k as nat),
        Invalid::WrongKemId { key_id, expected, got } => "wrong kem id for key id "@ + spec_decimal(key_id as nat)
            + " (expected "@ + kem_name(expected) + ", got "@ + kem_name(got) + ")"@,
        Invalid::UnsupportedAlgorithms { key_id, kdf, aead } => "invalid algo ("@ + kdf_name(kdf) + ", "@ + aead_name(
            aead,
        ) + ") for key id "@ + spec_decimal(key_id as nat),
        Invalid::PrivateKey => "Input value is invalid"@,
        Invalid::Setup => "Encapsulation failed"@,
        Invalid::Open => "could not open content"@,
        Invalid::OpenRequest => "could not open non chunked content"@,
        Invalid::OpenChunk => "could not open chunk"@,
        Invalid::Seal => "could not seal content"@,
        Invalid::MessageLimitReached => "Message limit reached"@,
    }
}

/// A number between two texts.
fn with_number(before: &str, n: u64, after: &str) -> (s: String)
    ensures
        s@ == before@ + spec_decimal(n as nat) + after@,
{
    let mut s = String::from_str(before);
    let d = decimal(n);
    s.append(d.as_str());
    s.append(after);
    s
}

fn invalid_message(i: Invalid) -> (m: String)
    ensures
        m@ == spec_invalid_message(i),
{
    match i {
        Invalid::VarintTooLarge => String::from_str("out of range integral type conversion attempted"),
        Invalid::FramingIndicator => String::from_str("invalid framing indicator"),
        Invalid::TruncatedFieldName => String::from_str("could not decode field name"),
        Invalid::TruncatedFieldValue => String::from_str("could not decode field value"),
        Invalid::HeaderName => String::from_str("invalid HTTP header name"),
        Invalid::HeaderValue => String::from_str("failed to parse header value"),
        Invalid::Method => String::from_str("invalid HTTP method"),
        Invalid::Scheme => String::from_str("invalid scheme"),
        Invalid::NoScheme => String::from_str("request has no scheme"),
        Invalid::Authority => String::from_str("invalid authority"),
        Invalid::Path => String::from_str("invalid uri character"),
        Invalid::NoAuthority => String::from_str("no authority or host found"),
        Invalid::Uri => String::from_str("invalid uri character"),
        Invalid::StatusCode => String::from_str("invalid status code"),
        Invalid::KemId(id) => with_number("invalid KEM id (", id as u64, ")"),
        Invalid::KdfId(id) => with_number("invalid KDF id (", id as u64, ")"),
        Invalid::AeadId(id) => with_number("invalid AEAD id (", id as u64, ")"),
        Invalid::SymmetricAlgorithmsLength(l) => with_number("invalid symmetric algorithms length (", l as u64, ")"),
        Invalid::TruncatedKeyConfig => String::from_str("BufferTooShortError"),
        Invalid::UnknownKeyId(k) => {
            let s = with_number("unknown key id ", k as u64, "");
            proof {
                reveal_strlit("");
                assert(s@ =~= "unknown key id "@ + spec_decimal(k as nat));
            }
            s
        },
        Invalid::WrongKemId { key_id, expected, got } => {
            let mut s = with_number("wrong kem id for key id ", key_id as u64, " (expected ");
            s.append(kem_name_str(expected));
            s.append(", got ");
            s.append(kem_name_str(got));
            s.append(")");
            proof {
                assert(s@ =~= "wrong kem id for key id "@ + spec_decimal(key_id as nat) + " (expected "@ + kem_name(expected)
                    + ", got "@ + kem_name(got) + ")"@);
            }
            s
        },
        Invalid::UnsupportedAlgorithms { key_id, kdf, aead } => {
            let mut s = String::from_str("invalid algo (");
            s.append(kdf_name_str(kdf));
            s.append(", ");
            s.append(aead_name_str(aead));
            let tail = with_number(") for key id ", key_id as u64, "");
            s.append(tail.as_str());
            proof {
                reveal_strlit("");
                assert(s@ =~= "invalid algo ("@ + kdf_name(kdf) + ", "@ + aead_name(aead) + ") for key id "@ + spec_decimal(
                    key_id as nat,
                ));
            }
            s
        },
        Invalid::PrivateKey => String::from_str("Input value is invalid"),
        Invalid::Setup => String::from_str("Encapsulation failed"),
        Invalid::Open => String::from_str("could not open content"),
        Invalid::OpenRequest => String::from_str("could not open non chunked content"),
        Invalid::OpenChunk => String::from_str("could not open chunk"),
        Invalid::Seal => String::from_str("could not seal content"),
        Invalid::MessageLimitReached => String::from_str("Message limit reached"),
    }
}

/// An error of the command-line client.
#[derive(Debug)]
pub enum PvcliError {
    Todo(String),
    /// An HPKE failure, as the `hpke` crate describes it.
    HpkeError(String),
    /// A response with a status other than the one expected.
    UnexpectedStatus { status: u16, message: String },
}

impl PvcliError {
    /// The text of the error.
    pub fn message(&self) -> (s: String)
        ensures
            s@ == match self {
                PvcliError::Todo(m) => "TODO: "@ + m@,
                PvcliError::HpkeError(m) => "HPKE error: "@ + m@,
                PvcliError::UnexpectedStatus { status, message } => "Unexpected status "@ + spec_decimal(
                    *status as nat,
                ) + ": "@ + message@,
            },
    {
        match self {
            PvcliError::Todo(m) => concat("TODO: ", m.as_str()),
            PvcliError::HpkeError(m) => concat("HPKE error: ", m.as_str()),
            PvcliError::UnexpectedStatus { status, message } => {
                let mut s = String::from_str("Unexpected status ");
                let d = decimal(*status as u64);
                s.append(d.as_str());
                s.append(": ");
                s.append(message.as_str());
                s
            },
        }
    }
}

} // verus!
