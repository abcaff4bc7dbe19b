//! Calls into the cryptographic crates: HKDF (`hkdf`, `sha2`), the AEADs
//! (`aes-gcm`, `chacha20poly1305`), HPKE (`hpke`) and the system's random
//! number generator (`rand`).
//!
//! What a deterministic primitive computes is named here, not written out;
//! each name is a function of the arguments alone. The facts stated beside
//! the names are those the crates document: output lengths, when a call
//! succeeds, and that opening a sealed text gives the text back.
use vstd::prelude::*;
use aead::{AeadInPlace, KeyInit};
use rand::RngCore;
use hpke::{Deserializable, Serializable};
use crate::ohttp::keys::{spec_p256_public, spec_p384_public, spec_x25519_public};

verus! {

// ---------------------------------------------------------------------------
// HKDF (RFC 5869): extract with a salt, then expand.
// ---------------------------------------------------------------------------

/// What HKDF-SHA256 extracts from `ikm` with `salt` and expands to `len`
/// bytes with `info`.
pub uninterp spec fn spec_hkdf_sha256(salt: Seq<u8>, ikm: Seq<u8>, info: Seq<u8>, len: nat) -> Seq<u8>;

/// The same with SHA-384.
pub uninterp spec fn spec_hkdf_sha384(salt: Seq<u8>, ikm: Seq<u8>, info: Seq<u8>, len: nat) -> Seq<u8>;

/// The same with SHA-512.
pub uninterp spec fn spec_hkdf_sha512(salt: Seq<u8>, ikm: Seq<u8>, info: Seq<u8>, len: nat) -> Seq<u8>;

/// `hkdf::SimpleHkdf::<Sha256>::new` then `expand`: the output keying
/// material, `len` bytes. `expand` fails only above 255 hash lengths, which
/// `requires` rules out. (The two calls share one wrapper: the HKDF state
/// between them is a generic type that cannot be held here.)
#[verifier::external_body]
pub(crate) fn hkdf_sha256(salt: &[u8], ikm: &[u8], info: &[u8], len: usize) -> (okm: Vec<u8>)
    requires
        len <= 255 * 32,
    ensures
        okm@ == spec_hkdf_sha256(salt@, ikm@, info@, len as nat),
        okm@.len() == len,
{
    let prk = hkdf::SimpleHkdf::<sha2::Sha256>::new(Some(salt), ikm);
    let mut okm = vec![0u8; len];
    prk.expand(info, &mut okm).unwrap();
    okm
}

/// `hkdf::SimpleHkdf::<Sha384>::new` then `expand`.
#[verifier::external_body]
pub(crate) fn hkdf_sha384(salt: &[u8], ikm: &[u8], info: &[u8], len: usize) -> (okm: Vec<u8>)
    requires
        len <= 255 * 48,
    ensures
        okm@ == spec_hkdf_sha384(salt@, ikm@, info@, len as nat),
        okm@.len() == len,
{
    let prk = hkdf::SimpleHkdf::<sha2::Sha384>::new(Some(salt), ikm);
    let mut okm = vec![0u8; len];
    prk.expand(info, &mut okm).unwrap();
    okm
}

/// `hkdf::SimpleHkdf::<Sha512>::new` then `expand`.
#[verifier::external_body]
pub(crate) fn hkdf_sha512(salt: &[u8], ikm: &[u8], info: &[u8], len: usize) -> (okm: Vec<u8>)
    requires
        len <= 255 * 64,
    ensures
        okm@ == spec_hkdf_sha512(salt@, ikm@, info@, len as nat),
        okm@.len() == len,
{
    let prk = hkdf::SimpleHkdf::<sha2::Sha512>::new(Some(salt), ikm);
    let mut okm = vec![0u8; len];
    prk.expand(info, &mut okm).unwrap();
    okm
}

// ---------------------------------------------------------------------------
// AEADs with detached tags.
// ---------------------------------------------------------------------------

/// What AES-128-GCM makes of a plaintext: the ciphertext and the tag, or
/// `None` where it refuses the lengths.
pub uninterp spec fn spec_aes128gcm_seal(key: Seq<u8>, nonce: Seq<u8>, aad: Seq<u8>, pt: Seq<u8>) -> Option<(Seq<u8>, Seq<u8>)>;

/// What AES-128-GCM opens from a ciphertext and tag, or `None` where the
/// tag does not authenticate them.
pub uninterp spec fn spec_aes128gcm_open(key: Seq<u8>, nonce: Seq<u8>, aad: Seq<u8>, ct: Seq<u8>, tag: Seq<u8>) -> Option<Seq<u8>>;

pub uninterp spec fn spec_aes256gcm_seal(key: Seq<u8>, nonce: Seq<u8>, aad: Seq<u8>, pt: Seq<u8>) -> Option<(Seq<u8>, Seq<u8>)>;

pub uninterp spec fn spec_aes256gcm_open(key: Seq<u8>, nonce: Seq<u8>, aad: Seq<u8>, ct: Seq<u8>, tag: Seq<u8>) -> Option<Seq<u8>>;

pub uninterp spec fn spec_chacha_seal(key: Seq<u8>, nonce: Seq<u8>, aad: Seq<u8>, pt: Seq<u8>) -> Option<(Seq<u8>, Seq<u8>)>;

pub uninterp spec fn spec_chacha_open(key: Seq<u8>, nonce: Seq<u8>, aad: Seq<u8>, ct: Seq<u8>, tag: Seq<u8>) -> Option<Seq<u8>>;

/// Lengths that every AEAD here accepts.
pub open spec fn aead_lengths_ok(aad: Seq<u8>, text: Seq<u8>) -> bool {
    aad.len() <= 0x1_0000_0000 && text.len() <= 0x1_0000_0000
}

/// `aes_gcm::Aes128Gcm::encrypt_in_place_detached`: the ciphertext (as
/// long as the plaintext) and the 16-byte tag. It fails only on texts or
/// associated data above 2^36 bytes.
#[verifier::external_body]
pub(crate) fn aes128gcm_seal(key: &[u8], nonce: &[u8], aad: &[u8], pt: Vec<u8>) -> (r: Option<(Vec<u8>, Vec<u8>)>)
    requires
        key@.len() == 16,
        nonce@.len() == 12,
    ensures
        match r {
            Some((c, t)) => spec_aes128gcm_seal(key@, nonce@, aad@, pt@) == Some((c@, t@)) && c@.len() == pt@.len()
                && t@.len() == 16,
            None => spec_aes128gcm_seal(key@, nonce@, aad@, pt@) is None,
        },
        aead_lengths_ok(aad@, pt@) ==> r is Some,
{
    let cipher = aes_gcm::Aes128Gcm::new(aead::generic_array::GenericArray::from_slice(key));
    let mut buf = pt;
    let tag = cipher.encrypt_in_place_detached(aead::generic_array::GenericArray::from_slice(nonce), aad, &mut buf).ok()?;
    Some((buf, tag.to_vec()))
}

/// `aes_gcm::Aes128Gcm::decrypt_in_place_detached`: the plaintext, or
/// `None` when the tag does not authenticate. Opening what sealing made
/// gives the plaintext back.
#[verifier::external_body]
pub(crate) fn aes128gcm_open(key: &[u8], nonce: &[u8], aad: &[u8], ct: Vec<u8>, tag: &[u8]) -> (r: Option<Vec<u8>>)
    requires
        key@.len() == 16,
        nonce@.len() == 12,
        tag@.len() == 16,
    ensures
        opt_bytes(r) == spec_aes128gcm_open(key@, nonce@, aad@, ct@, tag@),
        r matches Some(p) ==> p@.len() == ct@.len(),
        forall|pt: Seq<u8>| #[trigger] spec_aes128gcm_seal(key@, nonce@, aad@, pt) == Some((ct@, tag@)) ==> opt_bytes(r) == Some(pt),
{
    let cipher = aes_gcm::Aes128Gcm::new(aead::generic_array::GenericArray::from_slice(key));
    let mut buf = ct;
    let nonce = aead::generic_array::GenericArray::from_slice(nonce);
    cipher.decrypt_in_place_detached(nonce, aad, &mut buf, aead::generic_array::GenericArray::from_slice(tag)).ok()?;
    Some(buf)
}

/// `aes_gcm::Aes256Gcm::encrypt_in_place_detached`.
#[verifier::external_body]
pub(crate) fn aes256gcm_seal(key: &[u8], nonce: &[u8], aad: &[u8], pt: Vec<u8>) -> (r: Option<(Vec<u8>, Vec<u8>)>)
    requires
        key@.len() == 32,
        nonce@.len() == 12,
    ensures
        match r {
            Some((c, t)) => spec_aes256gcm_seal(key@, nonce@, aad@, pt@) == Some((c@, t@)) && c@.len() == pt@.len()
                && t@.len() == 16,
            None => spec_aes256gcm_seal(key@, nonce@, aad@, pt@) is None,
        },
        aead_lengths_ok(aad@, pt@) ==> r is Some,
{
    let cipher = aes_gcm::Aes256Gcm::new(aead::generic_array::GenericArray::from_slice(key));
    let mut buf = pt;
    let tag = cipher.encrypt_in_place_detached(aead::generic_array::GenericArray::from_slice(nonce), aad, &mut buf).ok()?;
    Some((buf, tag.to_vec()))
}

/// `aes_gcm::Aes256Gcm::decrypt_in_place_detached`.
#[verifier::external_body]
pub(crate) fn aes256gcm_open(key: &[u8], nonce: &[u8], aad: &[u8], ct: Vec<u8>, tag: &[u8]) -> (r: Option<Vec<u8>>)
    requires
        key@.len() == 32,
        nonce@.len() == 12,
        tag@.len() == 16,
    ensures
        opt_bytes(r) == spec_aes256gcm_open(key@, nonce@, aad@, ct@, tag@),
        r matches Some(p) ==> p@.len() == ct@.len(),
        forall|pt: Seq<u8>| #[trigger] spec_aes256gcm_seal(key@, nonce@, aad@, pt) == Some((ct@, tag@)) ==> opt_bytes(r) == Some(pt),
{
    let cipher = aes_gcm::Aes256Gcm::new(aead::generic_array::GenericArray::from_slice(key));
    let mut buf = ct;
    let nonce = aead::generic_array::GenericArray::from_slice(nonce);
    cipher.decrypt_in_place_detached(nonce, aad, &mut buf, aead::generic_array::GenericArray::from_slice(tag)).ok()?;
    Some(buf)
}

/// `chacha20poly1305::ChaCha20Poly1305::encrypt_in_place_detached`. It
/// fails only on texts of 2^32 blocks or more.
#[verifier::external_body]
pub(crate) fn chacha_seal(key: &[u8], nonce: &[u8], aad: &[u8], pt: Vec<u8>) -> (r: Option<(Vec<u8>, Vec<u8>)>)
    requires
        key@.len() == 32,
        nonce@.len() == 12,
    ensures
        match r {
            Some((c, t)) => spec_chacha_seal(key@, nonce@, aad@, pt@) == Some((c@, t@)) && c@.len() == pt@.len()
                && t@.len() == 16,
            None => spec_chacha_seal(key@, nonce@, aad@, pt@) is None,
        },
        aead_lengths_ok(aad@, pt@) ==> r is Some,
{
    let cipher = chacha20poly1305::ChaCha20Poly1305::new(aead::generic_array::GenericArray::from_slice(key));
    let mut buf = pt;
    let tag = cipher.encrypt_in_place_detached(aead::generic_array::GenericArray::from_slice(nonce), aad, &mut buf).ok()?;
    Some((buf, tag.to_vec()))
}

/// `chacha20poly1305::ChaCha20Poly1305::decrypt_in_place_detached`.
#[verifier::external_body]
pub(crate) fn chacha_open(key: &[u8], nonce: &[u8], aad: &[u8], ct: Vec<u8>, tag: &[u8]) -> (r: Option<Vec<u8>>)
    requires
        key@.len() == 32,
        nonce@.len() == 12,
        tag@.len() == 16,
    ensures
        opt_bytes(r) == spec_chacha_open(key@, nonce@, aad@, ct@, tag@),
        r matches Some(p) ==> p@.len() == ct@.len(),
        forall|pt: Seq<u8>| #[trigger] spec_chacha_seal(key@, nonce@, aad@, pt) == Some((ct@, tag@)) ==> opt_bytes(r) == Some(pt),
{
    let cipher = chacha20poly1305::ChaCha20Poly1305::new(aead::generic_array::GenericArray::from_slice(key));
    let mut buf = ct;
    let nonce = aead::generic_array::GenericArray::from_slice(nonce);
    cipher.decrypt_in_place_detached(nonce, aad, &mut buf, aead::generic_array::GenericArray::from_slice(tag)).ok()?;
    Some(buf)
}

/// The bytes of an optional byte vector.
pub open spec fn opt_bytes(o: Option<Vec<u8>>) -> Option<Seq<u8>> {
    match o {
        Some(v) => Some(v@),
        None => None,
    }
}

// ---------------------------------------------------------------------------
// Randomness.
// ---------------------------------------------------------------------------

/// `rand::rngs::OsRng::fill_bytes`: `len` random bytes. Nothing is stated
/// of their values.
#[verifier::external_body]
pub(crate) fn random_bytes(len: usize) -> (b: Vec<u8>)
    ensures
        b@.len() == len,
{
    let mut buf = vec![0u8; len];
    rand::rngs::OsRng.fill_bytes(&mut buf);
    buf
}

// ---------------------------------------------------------------------------
// HPKE (RFC 9180) in base mode.
// ---------------------------------------------------------------------------

/// The serialized public key of the serialized private key `sk` of the KEM
/// whose identifier is `kem`, as `Deserializable::from_bytes` then
/// `Kem::sk_to_pk` give it; `None` where `sk` is not a private key of it.
pub open spec fn spec_hpke_public(kem: u16, sk: Seq<u8>) -> Option<Seq<u8>> {
    if kem == 0x0010 {
        spec_p256_public(sk)
    } else if kem == 0x0011 {
        spec_p384_public(sk)
    } else if kem == 0x0020 {
        spec_x25519_public(sk)
    } else {
        None
    }
}

/// The identifier RFC 9180 gives an `hpke` KEM type: its `Kem::KEM_ID`.
pub trait KemCode {
    spec fn kem_id_code() -> u16;
}

/// The identifier RFC 9180 gives an `hpke` KDF type: its `Kdf::KDF_ID`.
pub trait KdfCode {
    spec fn kdf_id_code() -> u16;
}

/// The identifier RFC 9180 gives an `hpke` AEAD type: its `Aead::AEAD_ID`.
pub trait AeadCode {
    spec fn aead_id_code() -> u16;
}

impl KemCode for hpke::kem::DhP256HkdfSha256 {
    open spec fn kem_id_code() -> u16 {
        0x0010
    }
}

impl KemCode for hpke::kem::DhP384HkdfSha384 {
    open spec fn kem_id_code() -> u16 {
        0x0011
    }
}

impl KemCode for hpke::kem::X25519HkdfSha256 {
    open spec fn kem_id_code() -> u16 {
        0x0020
    }
}

impl KdfCode for hpke::kdf::HkdfSha256 {
    open spec fn kdf_id_code() -> u16 {
        0x0001
    }
}

impl KdfCode for hpke::kdf::HkdfSha384 {
    open spec fn kdf_id_code() -> u16 {
        0x0002
    }
}

impl KdfCode for hpke::kdf::HkdfSha512 {
    open spec fn kdf_id_code() -> u16 {
        0x0003
    }
}

impl AeadCode for hpke::aead::AesGcm128 {
    open spec fn aead_id_code() -> u16 {
        0x0001
    }
}

impl AeadCode for hpke::aead::AesGcm256 {
    open spec fn aead_id_code() -> u16 {
        0x0002
    }
}

impl AeadCode for hpke::aead::ChaCha20Poly1305 {
    open spec fn aead_id_code() -> u16 {
        0x0003
    }
}

/// What `hpke::setup_receiver` in base mode of the suite with identifiers
/// `kem`, `kdf` and `aead`, with the serialized private key `sk`, the
/// serialized encapsulated key `enc` and `info`, then
/// `open_in_place_detached` of `ct` with `tag` and `aad`, give: the
/// plaintext, or `None` where a step fails.
pub uninterp spec fn spec_hpke_open(
    kem: u16,
    kdf: u16,
    aead: u16,
    sk: Seq<u8>,
    enc: Seq<u8>,
    info: Seq<u8>,
    aad: Seq<u8>,
    ct: Seq<u8>,
    tag: Seq<u8>,
) -> Option<Seq<u8>>;

/// What the same setup of a receiver context, then `export` of `len`
/// bytes with `exporter_ctx`, give; `None` where a step fails.
pub uninterp spec fn spec_hpke_export(
    kem: u16,
    kdf: u16,
    aead: u16,
    sk: Seq<u8>,
    enc: Seq<u8>,
    info: Seq<u8>,
    exporter_ctx: Seq<u8>,
    len: nat,
) -> Option<Seq<u8>>;

/// An HPKE base-mode encapsulation to `pk` of the suite `kem`, `kdf`,
/// `aead`: whoever holds a private key whose public key is `pk` opens
/// `ct` and `tag` (with `enc`, `info` and `aad`) to `pt`, and exports `s`
/// with `exporter_ctx`.
pub open spec fn hpke_sealed(
    kem: u16,
    kdf: u16,
    aead: u16,
    pk: Seq<u8>,
    info: Seq<u8>,
    exporter_ctx: Seq<u8>,
    len: nat,
    aad: Seq<u8>,
    pt: Seq<u8>,
    enc: Seq<u8>,
    ct: Seq<u8>,
    tag: Seq<u8>,
    s: Seq<u8>,
) -> bool {
    forall|sk: Seq<u8>|
        spec_hpke_public(kem, sk) == Some(pk) ==> #[trigger] spec_hpke_open(kem, kdf, aead, sk, enc, info, aad, ct, tag)
            == Some(pt) && spec_hpke_export(kem, kdf, aead, sk, enc, info, exporter_ctx, len) == Some(s)
}

/// `hpke::setup_sender` in base mode to the public key `pk` with `info`
/// (the ephemeral key drawn from `rand::thread_rng`), then `export` of
/// `secret_len` bytes with `exporter_ctx`, then `seal_in_place_detached`
/// of `plaintext` with `aad`, in the suite whose identifiers are those of
/// the type arguments (`KemCode`, `KdfCode`, `AeadCode`, which restate the
/// types' `KEM_ID`, `KDF_ID` and `AEAD_ID`). The encapsulated key, ciphertext, tag and
/// secret rest on chance; what is stated of every outcome is HPKE's
/// correctness (RFC 9180): the holder of a private key of `pk` opens the
/// ciphertext to the plaintext and exports the same secret. (The calls
/// share one wrapper: the HPKE context between them, `hpke::aead::AeadCtxS`,
/// cannot be declared to Verus, whose trait-conflict check refuses the
/// `hpke` trait bounds of its type parameters.)
#[verifier::external_body]
pub(crate) fn hpke_seal_base<
    A: hpke::aead::Aead + AeadCode,
    Kdf: hpke::kdf::Kdf + KdfCode,
    K: hpke::Kem + KemCode,
>(
    pk: &[u8],
    info: &[u8],
    exporter_ctx: &[u8],
    secret_len: usize,
    aad: &[u8],
    plaintext: Vec<u8>,
) -> (r: Option<(Vec<u8>, Vec<u8>, Vec<u8>, Vec<u8>)>)
    ensures
        r matches Some((enc, ct, tag, s)) ==> ct@.len() == plaintext@.len() && tag@.len() == 16 && s@.len()
            == secret_len && hpke_sealed(K::kem_id_code(), Kdf::kdf_id_code(), A::aead_id_code(), pk@, info@,
            exporter_ctx@, secret_len as nat, aad@, plaintext@, enc@, ct@, tag@, s@),
{
    let Ok(pk) = K::PublicKey::from_bytes(pk) else { return None };
    let Ok((enc, mut ctx)) = hpke::setup_sender::<A, Kdf, K, _>(&hpke::OpModeS::Base, &pk, info, &mut rand::thread_rng()) else { return None };
    let mut secret = vec![0u8; secret_len];
    let Ok(()) = ctx.export(exporter_ctx, &mut secret) else { return None };
    let mut buf = plaintext;
    let Ok(tag) = ctx.seal_in_place_detached(&mut buf, aad) else { return None };
    Some((enc.to_bytes().to_vec(), buf, tag.to_bytes().to_vec(), secret))
}

/// `hpke::setup_receiver` in base mode with the private key `sk` and the
/// encapsulated key `enc` (both read with `Deserializable::from_bytes`)
/// and `info`, then `open_in_place_detached` of `ct` with `tag` (read with
/// `AeadTag::from_bytes`) and `aad`, in the suite of the type arguments:
/// the plaintext, a function of the arguments named `spec_hpke_open`.
#[verifier::external_body]
pub(crate) fn hpke_open_base<
    A: hpke::aead::Aead + AeadCode,
    Kdf: hpke::kdf::Kdf + KdfCode,
    K: hpke::Kem + KemCode,
>(
    sk: &[u8],
    enc: &[u8],
    info: &[u8],
    aad: &[u8],
    ct: Vec<u8>,
    tag: &[u8],
) -> (r: Option<Vec<u8>>)
    ensures
        opt_bytes(r) == spec_hpke_open(K::kem_id_code(), Kdf::kdf_id_code(), A::aead_id_code(), sk@, enc@, info@, aad@, ct@, tag@),
        r matches Some(pt) ==> pt@.len() == ct@.len(),
{
    let (Ok(sk), Ok(enc), Ok(tag)) = (K::PrivateKey::from_bytes(sk), K::EncappedKey::from_bytes(enc), hpke::aead::AeadTag::<A>::from_bytes(tag)) else { return None };
    let Ok(mut ctx) = hpke::setup_receiver::<A, Kdf, K>(&hpke::OpModeR::Base, &sk, &enc, info) else { return None };
    let mut buf = ct;
    let Ok(()) = ctx.open_in_place_detached(&mut buf, aad, &tag) else { return None };
    Some(buf)
}

/// `hpke::setup_receiver` in base mode as in `hpke_open_base`, then
/// `export` of `len` bytes with `exporter_ctx`, in the suite of the type
/// arguments: the secret, a function of the arguments named
/// `spec_hpke_export`.
#[verifier::external_body]
pub(crate) fn hpke_receiver_export<
    A: hpke::aead::Aead + AeadCode,
    Kdf: hpke::kdf::Kdf + KdfCode,
    K: hpke::Kem + KemCode,
>(
    sk: &[u8],
    enc: &[u8],
    info: &[u8],
    exporter_ctx: &[u8],
    len: usize,
) -> (r: Option<Vec<u8>>)
    ensures
        opt_bytes(r) == spec_hpke_export(K::kem_id_code(), Kdf::kdf_id_code(), A::aead_id_code(), sk@, enc@, info@, exporter_ctx@, len as nat),
        r matches Some(s) ==> s@.len() == len,
{
    let (Ok(sk), Ok(enc)) = (K::PrivateKey::from_bytes(sk), K::EncappedKey::from_bytes(enc)) else { return None };
    let Ok(ctx) = hpke::setup_receiver::<A, Kdf, K>(&hpke::OpModeR::Base, &sk, &enc, info) else { return None };
    let mut secret = vec![0u8; len];
    let Ok(()) = ctx.export(exporter_ctx, &mut secret) else { return None };
    Some(secret)
}

// The `hpke` marker types of the supported suites, which the suite
// dispatch names as type arguments.

#[verifier::external_type_specification]
#[verifier::external_body]
pub struct ExDhP256HkdfSha256(hpke::kem::DhP256HkdfSha256);

#[verifier::external_type_specification]
#[verifier::external_body]
pub struct ExDhP384HkdfSha384(hpke::kem::DhP384HkdfSha384);

#[verifier::external_type_specification]
#[verifier::external_body]
pub struct ExX25519HkdfSha256(hpke::kem::X25519HkdfSha256);

#[verifier::external_type_specification]
#[verifier::external_body]
pub struct ExHkdfSha256(hpke::kdf::HkdfSha256);

#[verifier::external_type_specification]
#[verifier::external_body]
pub struct ExHkdfSha384(hpke::kdf::HkdfSha384);

#[verifier::external_type_specification]
#[verifier::external_body]
pub struct ExHkdfSha512(hpke::kdf::HkdfSha512);

#[verifier::external_type_specification]
#[verifier::external_body]
pub struct ExAesGcm128(hpke::aead::AesGcm128);

#[verifier::external_type_specification]
#[verifier::external_body]
pub struct ExAesGcm256(hpke::aead::AesGcm256);

#[verifier::external_type_specification]
#[verifier::external_body]
pub struct ExChaCha20Poly1305(hpke::aead::ChaCha20Poly1305);

} // verus!
