//! KEM key pairs: derived from input keying material, or rebuilt from a
//! private key.
use vstd::prelude::*;
use crate::error::{Error, Invalid};
use crate::ohttp::{spec_public_key_len, KemId};
use hpke::{Deserializable, Kem, Serializable};

verus! {

/// The private key length (`Nsk`) of a KEM.
pub open spec fn spec_private_key_len(k: KemId) -> nat {
    match k {
        KemId::DhP256HkdfSha256 => 32,
        KemId::DhP384HkdfSha384 => 48,
        KemId::X25519HkdfSha256 => 32,
    }
}

/// What `DeriveKeyPair` of DHKEM(P-256, HKDF-SHA256) makes of `ikm`:
/// the private key, then the public key; `None` where every candidate
/// scalar is refused and derivation fails.
pub uninterp spec fn spec_p256_derive(ikm: Seq<u8>) -> Option<(Seq<u8>, Seq<u8>)>;

/// The same for DHKEM(P-384, HKDF-SHA384).
pub uninterp spec fn spec_p384_derive(ikm: Seq<u8>) -> Option<(Seq<u8>, Seq<u8>)>;

/// The same for DHKEM(X25519, HKDF-SHA256).
pub uninterp spec fn spec_x25519_derive(ikm: Seq<u8>) -> (Seq<u8>, Seq<u8>);

/// The public key of a serialized P-256 private key, or `None` when the
/// bytes are not one.
pub uninterp spec fn spec_p256_public(sk: Seq<u8>) -> Option<Seq<u8>>;

pub uninterp spec fn spec_p384_public(sk: Seq<u8>) -> Option<Seq<u8>>;

pub uninterp spec fn spec_x25519_public(sk: Seq<u8>) -> Option<Seq<u8>>;

/// `DhP256HkdfSha256::derive_keypair`, both keys serialized; the public
/// key is `sk_to_pk` of the private key, which reads back from its bytes.
/// The crate panics where all its 256 candidate scalars are refused (the
/// name is `None` there, an event of probability 2^-8192), so `requires`
/// leaves that input out.
#[verifier::external_body]
fn p256_derive(ikm: &[u8]) -> (r: (Vec<u8>, Vec<u8>))
    requires
        spec_p256_derive(ikm@) is Some,
    ensures
        spec_p256_derive(ikm@) == Some((r.0@, r.1@)),
        r.0@.len() == 32 && r.1@.len() == 65,
        spec_p256_public(r.0@) == Some(r.1@),
{
    let (sk, pk) = <hpke::kem::DhP256HkdfSha256 as Kem>::derive_keypair(ikm);
    (sk.to_bytes().to_vec(), pk.to_bytes().to_vec())
}

/// `DhP384HkdfSha384::derive_keypair`, both keys serialized, the public
/// key that of the private key; as for P-256, `requires` leaves out the
/// input on which every candidate is refused and the crate panics.
#[verifier::external_body]
fn p384_derive(ikm: &[u8]) -> (r: (Vec<u8>, Vec<u8>))
    requires
        spec_p384_derive(ikm@) is Some,
    ensures
        spec_p384_derive(ikm@) == Some((r.0@, r.1@)),
        r.0@.len() == 48 && r.1@.len() == 97,
        spec_p384_public(r.0@) == Some(r.1@),
{
    let (sk, pk) = <hpke::kem::DhP384HkdfSha384 as Kem>::derive_keypair(ikm);
    (sk.to_bytes().to_vec(), pk.to_bytes().to_vec())
}

/// `X25519HkdfSha256::derive_keypair`, both keys serialized, the public
/// key that of the private key.
#[verifier::external_body]
fn x25519_derive(ikm: &[u8]) -> (r: (Vec<u8>, Vec<u8>))
    ensures
        (r.0@, r.1@) == spec_x25519_derive(ikm@),
        r.0@.len() == 32 && r.1@.len() == 32,
        spec_x25519_public(r.0@) == Some(r.1@),
{
    let (sk, pk) = <hpke::kem::X25519HkdfSha256 as Kem>::derive_keypair(ikm);
    (sk.to_bytes().to_vec(), pk.to_bytes().to_vec())
}

/// `PrivateKey::from_bytes` then `DhP256HkdfSha256::sk_to_pk`: the public
/// key, or `None` when the bytes are not a private key (always so when
/// they are not 32 bytes long).
#[verifier::external_body]
fn p256_public(sk: &[u8]) -> (r: Option<Vec<u8>>)
    ensures
        crate::ohttp::crypto::opt_bytes(r) == spec_p256_public(sk@),
        sk@.len() != 32 ==> r is None,
        r matches Some(pk) ==> pk@.len() == 65,
{
    let sk = <hpke::kem::DhP256HkdfSha256 as Kem>::PrivateKey::from_bytes(sk).ok()?;
    Some(<hpke::kem::DhP256HkdfSha256 as Kem>::sk_to_pk(&sk).to_bytes().to_vec())
}

/// `PrivateKey::from_bytes` then `DhP384HkdfSha384::sk_to_pk`.
#[verifier::external_body]
fn p384_public(sk: &[u8]) -> (r: Option<Vec<u8>>)
    ensures
        crate::ohttp::crypto::opt_bytes(r) == spec_p384_public(sk@),
        sk@.len() != 48 ==> r is None,
        r matches Some(pk) ==> pk@.len() == 97,
{
    let sk = <hpke::kem::DhP384HkdfSha384 as Kem>::PrivateKey::from_bytes(sk).ok()?;
    Some(<hpke::kem::DhP384HkdfSha384 as Kem>::sk_to_pk(&sk).to_bytes().to_vec())
}

/// `PrivateKey::from_bytes` then `X25519HkdfSha256::sk_to_pk`: any 32
/// bytes are a private key.
#[verifier::external_body]
fn x25519_public(sk: &[u8]) -> (r: Option<Vec<u8>>)
    ensures
        crate::ohttp::crypto::opt_bytes(r) == spec_x25519_public(sk@),
        sk@.len() == 32 <==> r is Some,
        r matches Some(pk) ==> pk@.len() == 32,
{
    let sk = <hpke::kem::X25519HkdfSha256 as Kem>::PrivateKey::from_bytes(sk).ok()?;
    Some(<hpke::kem::X25519HkdfSha256 as Kem>::sk_to_pk(&sk).to_bytes().to_vec())
}

/// A serialized public key of a KEM.
#[derive(Clone, Debug)]
pub struct PublicKey {
    pub kem_id: KemId,
    pub bytes: Vec<u8>,
}

/// A KEM key pair, both keys serialized.
pub struct KeyPair {
    pub public_key: PublicKey,
    pub private_key: Vec<u8>,
}

/// The key pair that `DeriveKeyPair` of `kem` makes of `ikm`, when
/// derivation succeeds.
pub open spec fn spec_derive(kem: KemId, ikm: Seq<u8>) -> Option<(Seq<u8>, Seq<u8>)> {
    match kem {
        KemId::DhP256HkdfSha256 => spec_p256_derive(ikm),
        KemId::DhP384HkdfSha384 => spec_p384_derive(ikm),
        KemId::X25519HkdfSha256 => Some(spec_x25519_derive(ikm)),
    }
}

/// The public key of a private key of `kem`, if the bytes are one.
pub open spec fn spec_public_of(kem: KemId, sk: Seq<u8>) -> Option<Seq<u8>> {
    match kem {
        KemId::DhP256HkdfSha256 => spec_p256_public(sk),
        KemId::DhP384HkdfSha384 => spec_p384_public(sk),
        KemId::X25519HkdfSha256 => spec_x25519_public(sk),
    }
}

impl KeyPair {
    pub open spec fn wf(&self) -> bool {
        &&& self.public_key.bytes@.len() == spec_public_key_len(self.public_key.kem_id)
        &&& self.private_key@.len() == spec_private_key_len(self.public_key.kem_id)
        &&& spec_public_of(self.public_key.kem_id, self.private_key@) == Some(self.public_key.bytes@)
    }

    /// The public half.
    pub fn public_key(&self) -> (pk: &PublicKey)
        ensures
            *pk == self.public_key,
    {
        &self.public_key
    }
}

/// Derives a key pair of `kem_id` from input keying material; for the NIST
/// curves, `requires` leaves out the input on which derivation fails (and
/// `hpke` panics). X25519 derivation always succeeds.
pub fn derive_key_pair(kem_id: KemId, ikm: &[u8]) -> (kp: KeyPair)
    requires
        spec_derive(kem_id, ikm@) is Some,
    ensures
        kp.wf(),
        kp.public_key.kem_id == kem_id,
        spec_derive(kem_id, ikm@) == Some((kp.private_key@, kp.public_key.bytes@)),
{
    let (sk, pk) = match kem_id {
        KemId::DhP256HkdfSha256 => p256_derive(ikm),
        KemId::DhP384HkdfSha384 => p384_derive(ikm),
        KemId::X25519HkdfSha256 => x25519_derive(ikm),
    };
    KeyPair { public_key: PublicKey { kem_id, bytes: pk }, private_key: sk }
}

/// Rebuilds the key pair of a serialized private key of `kem_id`; fails
/// when the bytes are not one.
pub fn key_pair_from_secret(kem_id: KemId, secret: Vec<u8>) -> (r: Result<KeyPair, Error>)
    ensures
        match spec_public_of(kem_id, secret@) {
            Some(pk) => r matches Ok(kp) && kp.wf() && kp.public_key.kem_id == kem_id && kp.public_key.bytes@ == pk
                && kp.private_key@ == secret@,
            None => r == Err::<KeyPair, Error>(Error::InvalidData(Invalid::PrivateKey)),
        },
{
    let pk = match kem_id {
        KemId::DhP256HkdfSha256 => p256_public(secret.as_slice()),
        KemId::DhP384HkdfSha384 => p384_public(secret.as_slice()),
        KemId::X25519HkdfSha256 => x25519_public(secret.as_slice()),
    };
    match pk {
        Some(bytes) => Ok(KeyPair { public_key: PublicKey { kem_id, bytes }, private_key: secret }),
        None => Err(Error::InvalidData(Invalid::PrivateKey)),
    }
}

} // verus!
