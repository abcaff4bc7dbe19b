//! The HPKE suites: each combination of KEM, KDF and AEAD that a key
//! configuration may name is dispatched to the `hpke` crate's types.
//!
//! Each arm names the `hpke` types whose identifiers are the suite's, so
//! what the calls state holds of the suite that was asked for.
use vstd::prelude::*;
use crate::ohttp::crypto::{hpke_open_base, hpke_receiver_export, hpke_seal_base, hpke_sealed, opt_bytes, spec_hpke_export, spec_hpke_open};
use crate::ohttp::{aead_code, kdf_code, kem_code, AeadId, KdfId, KemId};

verus! {

/// Encapsulates to the public key `pk` with the suite: an HPKE sender
/// context with `info`, the secret exported with `exporter_ctx`, and
/// `plaintext` sealed with `aad`. Gives the encapsulated key, the
/// ciphertext, the tag and the secret.
pub fn dispatch_seal(
    kem_id: KemId,
    kdf_id: KdfId,
    aead_id: AeadId,
    pk: &[u8],
    info: &[u8],
    exporter_ctx: &[u8],
    secret_len: usize,
    aad: &[u8],
    plaintext: Vec<u8>,
) -> (r: Option<(Vec<u8>, Vec<u8>, Vec<u8>, Vec<u8>)>)
    ensures
        r matches Some((enc, ct, tag, secret)) ==> ct@.len() == plaintext@.len() && tag@.len() == 16 && secret@.len()
            == secret_len && hpke_sealed(kem_code(kem_id), kdf_code(kdf_id), aead_code(aead_id), pk@, info@, exporter_ctx@, secret_len as nat, aad@,
            plaintext@, enc@, ct@, tag@, secret@),
{
    match (kem_id, kdf_id, aead_id) {
        (KemId::DhP256HkdfSha256, KdfId::HkdfSha256, AeadId::AesGcm128) => hpke_seal_base::<hpke::aead::AesGcm128, hpke::kdf::HkdfSha256, hpke::kem::DhP256HkdfSha256>(pk, info, exporter_ctx, secret_len, aad, plaintext),
        (KemId::DhP384HkdfSha384, KdfId::HkdfSha256, AeadId::AesGcm128) => hpke_seal_base::<hpke::aead::AesGcm128, hpke::kdf::HkdfSha256, hpke::kem::DhP384HkdfSha384>(pk, info, exporter_ctx, secret_len, aad, plaintext),
        (KemId::X25519HkdfSha256, KdfId::HkdfSha256, AeadId::AesGcm128) => hpke_seal_base::<hpke::aead::AesGcm128, hpke::kdf::HkdfSha256, hpke::kem::X25519HkdfSha256>(pk, info, exporter_ctx, secret_len, aad, plaintext),
        (KemId::DhP256HkdfSha256, KdfId::HkdfSha384, AeadId::AesGcm128) => hpke_seal_base::<hpke::aead::AesGcm128, hpke::kdf::HkdfSha384, hpke::kem::DhP256HkdfSha256>(pk, info, exporter_ctx, secret_len, aad, plaintext),
        (KemId::DhP384HkdfSha384, KdfId::HkdfSha384, AeadId::AesGcm128) => hpke_seal_base::<hpke::aead::AesGcm128, hpke::kdf::HkdfSha384, hpke::kem::DhP384HkdfSha384>(pk, info, exporter_ctx, secret_len, aad, plaintext),
        (KemId::X25519HkdfSha256, KdfId::HkdfSha384, AeadId::AesGcm128) => hpke_seal_base::<hpke::aead::AesGcm128, hpke::kdf::HkdfSha384, hpke::kem::X25519HkdfSha256>(pk, info, exporter_ctx, secret_len, aad, plaintext),
        (KemId::DhP256HkdfSha256, KdfId::HkdfSha512, AeadId::AesGcm128) => hpke_seal_base::<hpke::aead::AesGcm128, hpke::kdf::HkdfSha512, hpke::kem::DhP256HkdfSha256>(pk, info, exporter_ctx, secret_len, aad, plaintext),
        (KemId::DhP384HkdfSha384, KdfId::HkdfSha512, AeadId::AesGcm128) => hpke_seal_base::<hpke::aead::AesGcm128, hpke::kdf::HkdfSha512, hpke::kem::DhP384HkdfSha384>(pk, info, exporter_ctx, secret_len, aad, plaintext),
        (KemId::X25519HkdfSha256, KdfId::HkdfSha512, AeadId::AesGcm128) => hpke_seal_base::<hpke::aead::AesGcm128, hpke::kdf::HkdfSha512, hpke::kem::X25519HkdfSha256>(pk, info, exporter_ctx, secret_len, aad, plaintext),
        (KemId::DhP256HkdfSha256, KdfId::HkdfSha256, AeadId::AesGcm256) => hpke_seal_base::<hpke::aead::AesGcm256, hpke::kdf::HkdfSha256, hpke::kem::DhP256HkdfSha256>(pk, info, exporter_ctx, secret_len, aad, plaintext),
        (KemId::DhP384HkdfSha384, KdfId::HkdfSha256, AeadId::AesGcm256) => hpke_seal_base::<hpke::aead::AesGcm256, hpke::kdf::HkdfSha256, hpke::kem::DhP384HkdfSha384>(pk, info, exporter_ctx, secret_len, aad, plaintext),
        (KemId::X25519HkdfSha256, KdfId::HkdfSha256, AeadId::AesGcm256) => hpke_seal_base::<hpke::aead::AesGcm256, hpke::kdf::HkdfSha256, hpke::kem::X25519HkdfSha256>(pk, info, exporter_ctx, secret_len, aad, plaintext),
        (KemId::DhP256HkdfSha256, KdfId::HkdfSha384, AeadId::AesGcm256) => hpke_seal_base::<hpke::aead::AesGcm256, hpke::kdf::HkdfSha384, hpke::kem::DhP256HkdfSha256>(pk, info, exporter_ctx, secret_len, aad, plaintext),
        (KemId::DhP384HkdfSha384, KdfId::HkdfSha384, AeadId::AesGcm256) => hpke_seal_base::<hpke::aead::AesGcm256, hpke::kdf::HkdfSha384, hpke::kem::DhP384HkdfSha384>(pk, info, exporter_ctx, secret_len, aad, plaintext),
        (KemId::X25519HkdfSha256, KdfId::HkdfSha384, AeadId::AesGcm256) => hpke_seal_base::<hpke::aead::AesGcm256, hpke::kdf::HkdfSha384, hpke::kem::X25519HkdfSha256>(pk, info, exporter_ctx, secret_len, aad, plaintext),
        (KemId::DhP256HkdfSha256, KdfId::HkdfSha512, AeadId::AesGcm256) => hpke_seal_base::<hpke::aead::AesGcm256, hpke::kdf::HkdfSha512, hpke::kem::DhP256HkdfSha256>(pk, info, exporter_ctx, secret_len, aad, plaintext),
        (KemId::DhP384HkdfSha384, KdfId::HkdfSha512, AeadId::AesGcm256) => hpke_seal_base::<hpke::aead::AesGcm256, hpke::kdf::HkdfSha512, hpke::kem::DhP384HkdfSha384>(pk, info, exporter_ctx, secret_len, aad, plaintext),
        (KemId::X25519HkdfSha256, KdfId::HkdfSha512, AeadId::AesGcm256) => hpke_seal_base::<hpke::aead::AesGcm256, hpke::kdf::HkdfSha512, hpke::kem::X25519HkdfSha256>(pk, info, exporter_ctx, secret_len, aad, plaintext),
        (KemId::DhP256HkdfSha256, KdfId::HkdfSha256, AeadId::ChaCha20Poly1305) => hpke_seal_base::<hpke::aead::ChaCha20Poly1305, hpke::kdf::HkdfSha256, hpke::kem::DhP256HkdfSha256>(pk, info, exporter_ctx, secret_len, aad, plaintext),
        (KemId::DhP384HkdfSha384, KdfId::HkdfSha256, AeadId::ChaCha20Poly1305) => hpke_seal_base::<hpke::aead::ChaCha20Poly1305, hpke::kdf::HkdfSha256, hpke::kem::DhP384HkdfSha384>(pk, info, exporter_ctx, secret_len, aad, plaintext),
        (KemId::X25519HkdfSha256, KdfId::HkdfSha256, AeadId::ChaCha20Poly1305) => hpke_seal_base::<hpke::aead::ChaCha20Poly1305, hpke::kdf::HkdfSha256, hpke::kem::X25519HkdfSha256>(pk, info, exporter_ctx, secret_len, aad, plaintext),
        (KemId::DhP256HkdfSha256, KdfId::HkdfSha384, AeadId::ChaCha20Poly1305) => hpke_seal_base::<hpke::aead::ChaCha20Poly1305, hpke::kdf::HkdfSha384, hpke::kem::DhP256HkdfSha256>(pk, info, exporter_ctx, secret_len, aad, plaintext),
        (KemId::DhP384HkdfSha384, KdfId::HkdfSha384, AeadId::ChaCha20Poly1305) => hpke_seal_base::<hpke::aead::ChaCha20Poly1305, hpke::kdf::HkdfSha384, hpke::kem::DhP384HkdfSha384>(pk, info, exporter_ctx, secret_len, aad, plaintext),
        (KemId::X25519HkdfSha256, KdfId::HkdfSha384, AeadId::ChaCha20Poly1305) => hpke_seal_base::<hpke::aead::ChaCha20Poly1305, hpke::kdf::HkdfSha384, hpke::kem::X25519HkdfSha256>(pk, info, exporter_ctx, secret_len, aad, plaintext),
        (KemId::DhP256HkdfSha256, KdfId::HkdfSha512, AeadId::ChaCha20Poly1305) => hpke_seal_base::<hpke::aead::ChaCha20Poly1305, hpke::kdf::HkdfSha512, hpke::kem::DhP256HkdfSha256>(pk, info, exporter_ctx, secret_len, aad, plaintext),
        (KemId::DhP384HkdfSha384, KdfId::HkdfSha512, AeadId::ChaCha20Poly1305) => hpke_seal_base::<hpke::aead::ChaCha20Poly1305, hpke::kdf::HkdfSha512, hpke::kem::DhP384HkdfSha384>(pk, info, exporter_ctx, secret_len, aad, plaintext),
        (KemId::X25519HkdfSha256, KdfId::HkdfSha512, AeadId::ChaCha20Poly1305) => hpke_seal_base::<hpke::aead::ChaCha20Poly1305, hpke::kdf::HkdfSha512, hpke::kem::X25519HkdfSha256>(pk, info, exporter_ctx, secret_len, aad, plaintext),
    }
}

/// Opens `ct` with `tag` and `aad` as the holder of the private key `sk`
/// of the suite, for the encapsulated key `enc` and `info`.
pub fn dispatch_open(
    kem_id: KemId,
    kdf_id: KdfId,
    aead_id: AeadId,
    sk: &[u8],
    enc: &[u8],
    info: &[u8],
    aad: &[u8],
    ct: Vec<u8>,
    tag: &[u8],
) -> (r: Option<Vec<u8>>)
    ensures
        opt_bytes(r) == spec_hpke_open(kem_code(kem_id), kdf_code(kdf_id), aead_code(aead_id), sk@, enc@, info@, aad@, ct@, tag@),
        r matches Some(pt) ==> pt@.len() == ct@.len(),
{
    match (kem_id, kdf_id, aead_id) {
        (KemId::DhP256HkdfSha256, KdfId::HkdfSha256, AeadId::AesGcm128) => hpke_open_base::<hpke::aead::AesGcm128, hpke::kdf::HkdfSha256, hpke::kem::DhP256HkdfSha256>(sk, enc, info, aad, ct, tag),
        (KemId::DhP384HkdfSha384, KdfId::HkdfSha256, AeadId::AesGcm128) => hpke_open_base::<hpke::aead::AesGcm128, hpke::kdf::HkdfSha256, hpke::kem::DhP384HkdfSha384>(sk, enc, info, aad, ct, tag),
        (KemId::X25519HkdfSha256, KdfId::HkdfSha256, AeadId::AesGcm128) => hpke_open_base::<hpke::aead::AesGcm128, hpke::kdf::HkdfSha256, hpke::kem::X25519HkdfSha256>(sk, enc, info, aad, ct, tag),
        (KemId::DhP256HkdfSha256, KdfId::HkdfSha384, AeadId::AesGcm128) => hpke_open_base::<hpke::aead::AesGcm128, hpke::kdf::HkdfSha384, hpke::kem::DhP256HkdfSha256>(sk, enc, info, aad, ct, tag),
        (KemId::DhP384HkdfSha384, KdfId::HkdfSha384, AeadId::AesGcm128) => hpke_open_base::<hpke::aead::AesGcm128, hpke::kdf::HkdfSha384, hpke::kem::DhP384HkdfSha384>(sk, enc, info, aad, ct, tag),
        (KemId::X25519HkdfSha256, KdfId::HkdfSha384, AeadId::AesGcm128) => hpke_open_base::<hpke::aead::AesGcm128, hpke::kdf::HkdfSha384, hpke::kem::X25519HkdfSha256>(sk, enc, info, aad, ct, tag),
        (KemId::DhP256HkdfSha256, KdfId::HkdfSha512, AeadId::AesGcm128) => hpke_open_base::<hpke::aead::AesGcm128, hpke::kdf::HkdfSha512, hpke::kem::DhP256HkdfSha256>(sk, enc, info, aad, ct, tag),
        (KemId::DhP384HkdfSha384, KdfId::HkdfSha512, AeadId::AesGcm128) => hpke_open_base::<hpke::aead::AesGcm128, hpke::kdf::HkdfSha512, hpke::kem::DhP384HkdfSha384>(sk, enc, info, aad, ct, tag),
        (KemId::X25519HkdfSha256, KdfId::HkdfSha512, AeadId::AesGcm128) => hpke_open_base::<hpke::aead::AesGcm128, hpke::kdf::HkdfSha512, hpke::kem::X25519HkdfSha256>(sk, enc, info, aad, ct, tag),
        (KemId::DhP256HkdfSha256, KdfId::HkdfSha256, AeadId::AesGcm256) => hpke_open_base::<hpke::aead::AesGcm256, hpke::kdf::HkdfSha256, hpke::kem::DhP256HkdfSha256>(sk, enc, info, aad, ct, tag),
        (KemId::DhP384HkdfSha384, KdfId::HkdfSha256, AeadId::AesGcm256) => hpke_open_base::<hpke::aead::AesGcm256, hpke::kdf::HkdfSha256, hpke::kem::DhP384HkdfSha384>(sk, enc, info, aad, ct, tag),
        (KemId::X25519HkdfSha256, KdfId::HkdfSha256, AeadId::AesGcm256) => hpke_open_base::<hpke::aead::AesGcm256, hpke::kdf::HkdfSha256, hpke::kem::X25519HkdfSha256>(sk, enc, info, aad, ct, tag),
        (KemId::DhP256HkdfSha256, KdfId::HkdfSha384, AeadId::AesGcm256) => hpke_open_base::<hpke::aead::AesGcm256, hpke::kdf::HkdfSha384, hpke::kem::DhP256HkdfSha256>(sk, enc, info, aad, ct, tag),
        (KemId::DhP384HkdfSha384, KdfId::HkdfSha384, AeadId::AesGcm256) => hpke_open_base::<hpke::aead::AesGcm256, hpke::kdf::HkdfSha384, hpke::kem::DhP384HkdfSha384>(sk, enc, info, aad, ct, tag),
        (KemId::X25519HkdfSha256, KdfId::HkdfSha384, AeadId::AesGcm256) => hpke_open_base::<hpke::aead::AesGcm256, hpke::kdf::HkdfSha384, hpke::kem::X25519HkdfSha256>(sk, enc, info, aad, ct, tag),
        (KemId::DhP256HkdfSha256, KdfId::HkdfSha512, AeadId::AesGcm256) => hpke_open_base::<hpke::aead::AesGcm256, hpke::kdf::HkdfSha512, hpke::kem::DhP256HkdfSha256>(sk, enc, info, aad, ct, tag),
        (KemId::DhP384HkdfSha384, KdfId::HkdfSha512, AeadId::AesGcm256) => hpke_open_base::<hpke::aead::AesGcm256, hpke::kdf::HkdfSha512, hpke::kem::DhP384HkdfSha384>(sk, enc, info, aad, ct, tag),
        (KemId::X25519HkdfSha256, KdfId::HkdfSha512, AeadId::AesGcm256) => hpke_open_base::<hpke::aead::AesGcm256, hpke::kdf::HkdfSha512, hpke::kem::X25519HkdfSha256>(sk, enc, info, aad, ct, tag),
        (KemId::DhP256HkdfSha256, KdfId::HkdfSha256, AeadId::ChaCha20Poly1305) => hpke_open_base::<hpke::aead::ChaCha20Poly1305, hpke::kdf::HkdfSha256, hpke::kem::DhP256HkdfSha256>(sk, enc, info, aad, ct, tag),
        (KemId::DhP384HkdfSha384, KdfId::HkdfSha256, AeadId::ChaCha20Poly1305) => hpke_open_base::<hpke::aead::ChaCha20Poly1305, hpke::kdf::HkdfSha256, hpke::kem::DhP384HkdfSha384>(sk, enc, info, aad, ct, tag),
        (KemId::X25519HkdfSha256, KdfId::HkdfSha256, AeadId::ChaCha20Poly1305) => hpke_open_base::<hpke::aead::ChaCha20Poly1305, hpke::kdf::HkdfSha256, hpke::kem::X25519HkdfSha256>(sk, enc, info, aad, ct, tag),
        (KemId::DhP256HkdfSha256, KdfId::HkdfSha384, AeadId::ChaCha20Poly1305) => hpke_open_base::<hpke::aead::ChaCha20Poly1305, hpke::kdf::HkdfSha384, hpke::kem::DhP256HkdfSha256>(sk, enc, info, aad, ct, tag),
        (KemId::DhP384HkdfSha384, KdfId::HkdfSha384, AeadId::ChaCha20Poly1305) => hpke_open_base::<hpke::aead::ChaCha20Poly1305, hpke::kdf::HkdfSha384, hpke::kem::DhP384HkdfSha384>(sk, enc, info, aad, ct, tag),
        (KemId::X25519HkdfSha256, KdfId::HkdfSha384, AeadId::ChaCha20Poly1305) => hpke_open_base::<hpke::aead::ChaCha20Poly1305, hpke::kdf::HkdfSha384, hpke::kem::X25519HkdfSha256>(sk, enc, info, aad, ct, tag),
        (KemId::DhP256HkdfSha256, KdfId::HkdfSha512, AeadId::ChaCha20Poly1305) => hpke_open_base::<hpke::aead::ChaCha20Poly1305, hpke::kdf::HkdfSha512, hpke::kem::DhP256HkdfSha256>(sk, enc, info, aad, ct, tag),
        (KemId::DhP384HkdfSha384, KdfId::HkdfSha512, AeadId::ChaCha20Poly1305) => hpke_open_base::<hpke::aead::ChaCha20Poly1305, hpke::kdf::HkdfSha512, hpke::kem::DhP384HkdfSha384>(sk, enc, info, aad, ct, tag),
        (KemId::X25519HkdfSha256, KdfId::HkdfSha512, AeadId::ChaCha20Poly1305) => hpke_open_base::<hpke::aead::ChaCha20Poly1305, hpke::kdf::HkdfSha512, hpke::kem::X25519HkdfSha256>(sk, enc, info, aad, ct, tag),
    }
}

/// Exports `len` bytes with `exporter_ctx` from the receiver context of
/// the suite set up with the private key `sk`, the encapsulated key `enc`
/// and `info`.
pub fn dispatch_receiver_secret(
    kem_id: KemId,
    kdf_id: KdfId,
    aead_id: AeadId,
    sk: &[u8],
    enc: &[u8],
    info: &[u8],
    exporter_ctx: &[u8],
    len: usize,
) -> (r: Option<Vec<u8>>)
    ensures
        opt_bytes(r) == spec_hpke_export(kem_code(kem_id), kdf_code(kdf_id), aead_code(aead_id), sk@, enc@, info@, exporter_ctx@, len as nat),
        r matches Some(s) ==> s@.len() == len,
{
    match (kem_id, kdf_id, aead_id) {
        (KemId::DhP256HkdfSha256, KdfId::HkdfSha256, AeadId::AesGcm128) => hpke_receiver_export::<hpke::aead::AesGcm128, hpke::kdf::HkdfSha256, hpke::kem::DhP256HkdfSha256>(sk, enc, info, exporter_ctx, len),
        (KemId::DhP384HkdfSha384, KdfId::HkdfSha256, AeadId::AesGcm128) => hpke_receiver_export::<hpke::aead::AesGcm128, hpke::kdf::HkdfSha256, hpke::kem::DhP384HkdfSha384>(sk, enc, info, exporter_ctx, len),
        (KemId::X25519HkdfSha256, KdfId::HkdfSha256, AeadId::AesGcm128) => hpke_receiver_export::<hpke::aead::AesGcm128, hpke::kdf::HkdfSha256, hpke::kem::X25519HkdfSha256>(sk, enc, info, exporter_ctx, len),
        (KemId::DhP256HkdfSha256, KdfId::HkdfSha384, AeadId::AesGcm128) => hpke_receiver_export::<hpke::aead::AesGcm128, hpke::kdf::HkdfSha384, hpke::kem::DhP256HkdfSha256>(sk, enc, info, exporter_ctx, len),
        (KemId::DhP384HkdfSha384, KdfId::HkdfSha384, AeadId::AesGcm128) => hpke_receiver_export::<hpke::aead::AesGcm128, hpke::kdf::HkdfSha384, hpke::kem::DhP384HkdfSha384>(sk, enc, info, exporter_ctx, len),
        (KemId::X25519HkdfSha256, KdfId::HkdfSha384, AeadId::AesGcm128) => hpke_receiver_export::<hpke::aead::AesGcm128, hpke::kdf::HkdfSha384, hpke::kem::X25519HkdfSha256>(sk, enc, info, exporter_ctx, len),
        (KemId::DhP256HkdfSha256, KdfId::HkdfSha512, AeadId::AesGcm128) => hpke_receiver_export::<hpke::aead::AesGcm128, hpke::kdf::HkdfSha512, hpke::kem::DhP256HkdfSha256>(sk, enc, info, exporter_ctx, len),
        (KemId::DhP384HkdfSha384, KdfId::HkdfSha512, AeadId::AesGcm128) => hpke_receiver_export::<hpke::aead::AesGcm128, hpke::kdf::HkdfSha512, hpke::kem::DhP384HkdfSha384>(sk, enc, info, exporter_ctx, len),
        (KemId::X25519HkdfSha256, KdfId::HkdfSha512, AeadId::AesGcm128) => hpke_receiver_export::<hpke::aead::AesGcm128, hpke::kdf::HkdfSha512, hpke::kem::X25519HkdfSha256>(sk, enc, info, exporter_ctx, len),
        (KemId::DhP256HkdfSha256, KdfId::HkdfSha256, AeadId::AesGcm256) => hpke_receiver_export::<hpke::aead::AesGcm256, hpke::kdf::HkdfSha256, hpke::kem::DhP256HkdfSha256>(sk, enc, info, exporter_ctx, len),
        (KemId::DhP384HkdfSha384, KdfId::HkdfSha256, AeadId::AesGcm256) => hpke_receiver_export::<hpke::aead::AesGcm256, hpke::kdf::HkdfSha256, hpke::kem::DhP384HkdfSha384>(sk, enc, info, exporter_ctx, len),
        (KemId::X25519HkdfSha256, KdfId::HkdfSha256, AeadId::AesGcm256) => hpke_receiver_export::<hpke::aead::AesGcm256, hpke::kdf::HkdfSha256, hpke::kem::X25519HkdfSha256>(sk, enc, info, exporter_ctx, len),
        (KemId::DhP256HkdfSha256, KdfId::HkdfSha384, AeadId::AesGcm256) => hpke_receiver_export::<hpke::aead::AesGcm256, hpke::kdf::HkdfSha384, hpke::kem::DhP256HkdfSha256>(sk, enc, info, exporter_ctx, len),
        (KemId::DhP384HkdfSha384, KdfId::HkdfSha384, AeadId::AesGcm256) => hpke_receiver_export::<hpke::aead::AesGcm256, hpke::kdf::HkdfSha384, hpke::kem::DhP384HkdfSha384>(sk, enc, info, exporter_ctx, len),
        (KemId::X25519HkdfSha256, KdfId::HkdfSha384, AeadId::AesGcm256) => hpke_receiver_export::<hpke::aead::AesGcm256, hpke::kdf::HkdfSha384, hpke::kem::X25519HkdfSha256>(sk, enc, info, exporter_ctx, len),
        (KemId::DhP256HkdfSha256, KdfId::HkdfSha512, AeadId::AesGcm256) => hpke_receiver_export::<hpke::aead::AesGcm256, hpke::kdf::HkdfSha512, hpke::kem::DhP256HkdfSha256>(sk, enc, info, exporter_ctx, len),
        (KemId::DhP384HkdfSha384, KdfId::HkdfSha512, AeadId::AesGcm256) => hpke_receiver_export::<hpke::aead::AesGcm256, hpke::kdf::HkdfSha512, hpke::kem::DhP384HkdfSha384>(sk, enc, info, exporter_ctx, len),
        (KemId::X25519HkdfSha256, KdfId::HkdfSha512, AeadId::AesGcm256) => hpke_receiver_export::<hpke::aead::AesGcm256, hpke::kdf::HkdfSha512, hpke::kem::X25519HkdfSha256>(sk, enc, info, exporter_ctx, len),
        (KemId::DhP256HkdfSha256, KdfId::HkdfSha256, AeadId::ChaCha20Poly1305) => hpke_receiver_export::<hpke::aead::ChaCha20Poly1305, hpke::kdf::HkdfSha256, hpke::kem::DhP256HkdfSha256>(sk, enc, info, exporter_ctx, len),
        (KemId::DhP384HkdfSha384, KdfId::HkdfSha256, AeadId::ChaCha20Poly1305) => hpke_receiver_export::<hpke::aead::ChaCha20Poly1305, hpke::kdf::HkdfSha256, hpke::kem::DhP384HkdfSha384>(sk, enc, info, exporter_ctx, len),
        (KemId::X25519HkdfSha256, KdfId::HkdfSha256, AeadId::ChaCha20Poly1305) => hpke_receiver_export::<hpke::aead::ChaCha20Poly1305, hpke::kdf::HkdfSha256, hpke::kem::X25519HkdfSha256>(sk, enc, info, exporter_ctx, len),
        (KemId::DhP256HkdfSha256, KdfId::HkdfSha384, AeadId::ChaCha20Poly1305) => hpke_receiver_export::<hpke::aead::ChaCha20Poly1305, hpke::kdf::HkdfSha384, hpke::kem::DhP256HkdfSha256>(sk, enc, info, exporter_ctx, len),
        (KemId::DhP384HkdfSha384, KdfId::HkdfSha384, AeadId::ChaCha20Poly1305) => hpke_receiver_export::<hpke::aead::ChaCha20Poly1305, hpke::kdf::HkdfSha384, hpke::kem::DhP384HkdfSha384>(sk, enc, info, exporter_ctx, len),
        (KemId::X25519HkdfSha256, KdfId::HkdfSha384, AeadId::ChaCha20Poly1305) => hpke_receiver_export::<hpke::aead::ChaCha20Poly1305, hpke::kdf::HkdfSha384, hpke::kem::X25519HkdfSha256>(sk, enc, info, exporter_ctx, len),
        (KemId::DhP256HkdfSha256, KdfId::HkdfSha512, AeadId::ChaCha20Poly1305) => hpke_receiver_export::<hpke::aead::ChaCha20Poly1305, hpke::kdf::HkdfSha512, hpke::kem::DhP256HkdfSha256>(sk, enc, info, exporter_ctx, len),
        (KemId::DhP384HkdfSha384, KdfId::HkdfSha512, AeadId::ChaCha20Poly1305) => hpke_receiver_export::<hpke::aead::ChaCha20Poly1305, hpke::kdf::HkdfSha512, hpke::kem::DhP384HkdfSha384>(sk, enc, info, exporter_ctx, len),
        (KemId::X25519HkdfSha256, KdfId::HkdfSha512, AeadId::ChaCha20Poly1305) => hpke_receiver_export::<hpke::aead::ChaCha20Poly1305, hpke::kdf::HkdfSha512, hpke::kem::X25519HkdfSha256>(sk, enc, info, exporter_ctx, len),
    }
}

} // verus!
