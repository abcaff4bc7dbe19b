//! Oblivious HTTP (RFC 9458): key configurations, encapsulation headers,
//! and the sealing and opening of requests and responses with HPKE
//! (RFC 9180).
use vstd::prelude::*;
use crate::error::{Error, Invalid};
use crate::stream_buf::{int_need, int_value, lemma_unbounded_no_trip, IntWidth, StreamBuf};
use crate::varint::{be_bytes, encode_u16};
use vstd::string::StringSliceAdditionalSpecFns;

pub mod chunked;
pub mod client;
pub mod crypto;
pub mod instance;
pub mod keys;
pub mod laws;
pub mod response;
pub mod server;
pub mod stream;

verus! {

/// A key encapsulation mechanism.
#[derive(Clone, Copy, Debug, PartialEq, Eq, Structural)]
pub enum KemId {
    DhP256HkdfSha256,
    DhP384HkdfSha384,
    X25519HkdfSha256,
}

/// A key derivation function.
#[derive(Clone, Copy, Debug, PartialEq, Eq, Structural)]
pub enum KdfId {
    HkdfSha256,
    HkdfSha384,
    HkdfSha512,
}

/// An AEAD algorithm.
#[derive(Clone, Copy, Debug, PartialEq, Eq, Structural)]
pub enum AeadId {
    AesGcm128,
    AesGcm256,
    ChaCha20Poly1305,
}

/// The registered identifier of a KEM (RFC 9180, section 7.1).
pub open spec fn kem_code(k: KemId) -> u16 {
    match k {
        KemId::DhP256HkdfSha256 => 0x0010,
        KemId::DhP384HkdfSha384 => 0x0011,
        KemId::X25519HkdfSha256 => 0x0020,
    }
}

/// The registered identifier of a KDF (RFC 9180, section 7.2).
pub open spec fn kdf_code(k: KdfId) -> u16 {
    match k {
        KdfId::HkdfSha256 => 0x0001,
        KdfId::HkdfSha384 => 0x0002,
        KdfId::HkdfSha512 => 0x0003,
    }
}

/// The registered identifier of an AEAD (RFC 9180, section 7.3).
pub open spec fn aead_code(a: AeadId) -> u16 {
    match a {
        AeadId::AesGcm128 => 0x0001,
        AeadId::AesGcm256 => 0x0002,
        AeadId::ChaCha20Poly1305 => 0x0003,
    }
}

/// The KEM of a registered identifier, if it is one this crate supports.
pub open spec fn kem_of_code(id: u16) -> Option<KemId> {
    if id == 0x0010 {
        Some(KemId::DhP256HkdfSha256)
    } else if id == 0x0011 {
        Some(KemId::DhP384HkdfSha384)
    } else if id == 0x0020 {
        Some(KemId::X25519HkdfSha256)
    } else {
        None
    }
}

pub open spec fn kdf_of_code(id: u16) -> Option<KdfId> {
    if id == 0x0001 {
        Some(KdfId::HkdfSha256)
    } else if id == 0x0002 {
        Some(KdfId::HkdfSha384)
    } else if id == 0x0003 {
        Some(KdfId::HkdfSha512)
    } else {
        None
    }
}

pub open spec fn aead_of_code(id: u16) -> Option<AeadId> {
    if id == 0x0001 {
        Some(AeadId::AesGcm128)
    } else if id == 0x0002 {
        Some(AeadId::AesGcm256)
    } else if id == 0x0003 {
        Some(AeadId::ChaCha20Poly1305)
    } else {
        None
    }
}

/// Length of a serialized public key (`Npk`), which is also that of an
/// encapsulated key (`Nenc`), for these KEMs.
pub open spec fn spec_public_key_len(k: KemId) -> nat {
    match k {
        KemId::DhP256HkdfSha256 => 65,
        KemId::DhP384HkdfSha384 => 97,
        KemId::X25519HkdfSha256 => 32,
    }
}

/// Length of an AEAD key (`Nk`).
pub open spec fn spec_key_len(a: AeadId) -> nat {
    match a {
        AeadId::AesGcm128 => 16,
        AeadId::AesGcm256 => 32,
        AeadId::ChaCha20Poly1305 => 32,
    }
}

/// Length of an AEAD nonce (`Nn`).
pub open spec fn spec_nonce_len(a: AeadId) -> nat {
    12
}

/// Every code of a supported algorithm names it back.
pub proof fn lemma_codes_roundtrip(k: KemId, d: KdfId, a: AeadId)
    ensures
        kem_of_code(kem_code(k)) == Some(k),
        kdf_of_code(kdf_code(d)) == Some(d),
        aead_of_code(aead_code(a)) == Some(a),
{
}

impl KemId {
    /// The KEM of a registered identifier.
    pub fn try_from_u16(id: u16) -> (r: Result<Self, Error>)
        ensures
            match kem_of_code(id) {
                Some(k) => r == Ok::<KemId, Error>(k),
                None => r == Err::<KemId, Error>(Error::InvalidData(Invalid::KemId(id))),
            },
    {
        if id == 0x0010 {
            Ok(KemId::DhP256HkdfSha256)
        } else if id == 0x0011 {
            Ok(KemId::DhP384HkdfSha384)
        } else if id == 0x0020 {
            Ok(KemId::X25519HkdfSha256)
        } else {
            Err(Error::InvalidData(Invalid::KemId(id)))
        }
    }

    /// The registered identifier.
    pub fn to_u16(self) -> (id: u16)
        ensures
            id == kem_code(self),
    {
        match self {
            KemId::DhP256HkdfSha256 => 0x0010,
            KemId::DhP384HkdfSha384 => 0x0011,
            KemId::X25519HkdfSha256 => 0x0020,
        }
    }

    /// Length of a serialized public key.
    pub fn public_key_len(self) -> (n: usize)
        ensures
            n == spec_public_key_len(self),
    {
        match self {
            KemId::DhP256HkdfSha256 => 65,
            KemId::DhP384HkdfSha384 => 97,
            KemId::X25519HkdfSha256 => 32,
        }
    }

    /// Length of an encapsulated key.
    pub fn encapped_key_len(self) -> (n: usize)
        ensures
            n == spec_public_key_len(self),
    {
        self.public_key_len()
    }
}

impl KdfId {
    pub fn try_from_u16(id: u16) -> (r: Result<Self, Error>)
        ensures
            match kdf_of_code(id) {
                Some(k) => r == Ok::<KdfId, Error>(k),
                None => r == Err::<KdfId, Error>(Error::InvalidData(Invalid::KdfId(id))),
            },
    {
        if id == 0x0001 {
            Ok(KdfId::HkdfSha256)
        } else if id == 0x0002 {
            Ok(KdfId::HkdfSha384)
        } else if id == 0x0003 {
            Ok(KdfId::HkdfSha512)
        } else {
            Err(Error::InvalidData(Invalid::KdfId(id)))
        }
    }

    pub fn to_u16(self) -> (id: u16)
        ensures
            id == kdf_code(self),
    {
        match self {
            KdfId::HkdfSha256 => 0x0001,
            KdfId::HkdfSha384 => 0x0002,
            KdfId::HkdfSha512 => 0x0003,
        }
    }
}

impl AeadId {
    pub fn try_from_u16(id: u16) -> (r: Result<Self, Error>)
        ensures
            match aead_of_code(id) {
                Some(a) => r == Ok::<AeadId, Error>(a),
                None => r == Err::<AeadId, Error>(Error::InvalidData(Invalid::AeadId(id))),
            },
    {
        if id == 0x0001 {
            Ok(AeadId::AesGcm128)
        } else if id == 0x0002 {
            Ok(AeadId::AesGcm256)
        } else if id == 0x0003 {
            Ok(AeadId::ChaCha20Poly1305)
        } else {
            Err(Error::InvalidData(Invalid::AeadId(id)))
        }
    }

    pub fn to_u16(self) -> (id: u16)
        ensures
            id == aead_code(self),
    {
        match self {
            AeadId::AesGcm128 => 0x0001,
            AeadId::AesGcm256 => 0x0002,
            AeadId::ChaCha20Poly1305 => 0x0003,
        }
    }

    /// Length of a key.
    pub fn key_len(self) -> (n: usize)
        ensures
            n == spec_key_len(self),
    {
        match self {
            AeadId::AesGcm128 => 16,
            AeadId::AesGcm256 => 32,
            AeadId::ChaCha20Poly1305 => 32,
        }
    }

    /// Length of a nonce.
    pub fn nonce_len(self) -> (n: usize)
        ensures
            n == spec_nonce_len(self),
    {
        12
    }
}

/// Two bytes, big-endian.
pub open spec fn be16(v: u16) -> Seq<u8> {
    be_bytes(v as nat, 2)
}

/// The header of an encapsulated request: key identifier and the three
/// algorithm identifiers.
#[derive(Clone, Copy, Debug, PartialEq, Eq, Structural)]
pub struct EncapHeader {
    pub key_id: u8,
    pub kem_id: KemId,
    pub kdf_id: KdfId,
    pub aead_id: AeadId,
}

/// The encoding of a header.
pub open spec fn spec_header_bytes(h: EncapHeader) -> Seq<u8> {
    seq![h.key_id] + be16(kem_code(h.kem_id)) + be16(kdf_code(h.kdf_id)) + be16(aead_code(h.aead_id))
}

/// The HPKE `info` of a request: the label, a zero byte, then the header.
pub open spec fn spec_info(label: Seq<u8>, h: EncapHeader) -> Seq<u8> {
    label + seq![0u8] + spec_header_bytes(h)
}

/// What a header reads as, given the four integers at its start.
pub open spec fn spec_header_of(key_id: u8, kem: u16, kdf: u16, aead: u16) -> Result<EncapHeader, Error> {
    match (kem_of_code(kem), kdf_of_code(kdf), aead_of_code(aead)) {
        (None, _, _) => Err(Error::InvalidData(Invalid::KemId(kem))),
        (Some(_), None, _) => Err(Error::InvalidData(Invalid::KdfId(kdf))),
        (Some(_), Some(_), None) => Err(Error::InvalidData(Invalid::AeadId(aead))),
        (Some(k), Some(d), Some(a)) => Ok(EncapHeader { key_id: key_id, kem_id: k, kdf_id: d, aead_id: a }),
    }
}

/// The big-endian integer of `n` bytes at offset `off` of `s`.
pub open spec fn be_at(s: Seq<u8>, off: int, n: nat) -> nat {
    crate::varint::be_value(s.subrange(off, off + n))
}

/// Appends the two bytes of `v`, big-endian.
pub fn put_u16(out: &mut Vec<u8>, v: u16)
    ensures
        final(out)@ == old(out)@ + be16(v),
{
    let mut b = encode_u16(v);
    out.append(&mut b);
}

impl EncapHeader {
    /// Reads a header: the key identifier, then the KEM, KDF and AEAD
    /// identifiers, big-endian.
    pub fn decode(sb: &mut StreamBuf) -> (r: Result<EncapHeader, Error>)
        requires
            old(sb).wf(),
        ensures
            final(sb).wf(),
            r is Ok ==> final(sb).follows(old(sb)),
            r matches Ok(h) ==> old(sb).data().len() >= 7 && final(sb).data() == old(sb).data().skip(7)
                && spec_header_of(
                    old(sb).data()[0],
                    be_at(old(sb).data(), 1, 2) as u16,
                    be_at(old(sb).data(), 3, 2) as u16,
                    be_at(old(sb).data(), 5, 2) as u16,
                ) == Ok::<EncapHeader, Error>(h),
            old(sb).clean() ==> (r is Ok <==> old(sb).data().len() >= 7 && spec_header_of(
                old(sb).data()[0],
                be_at(old(sb).data(), 1, 2) as u16,
                be_at(old(sb).data(), 3, 2) as u16,
                be_at(old(sb).data(), 5, 2) as u16,
            ) is Ok),
            old(sb).clean() && r is Ok ==> final(sb).clean(),
    {
        let ghost st0 = *sb;
        let ghost d0 = sb.data();
        proof {
            if st0.clean() {
                lemma_unbounded_no_trip(st0.buffered().len(), st0.pending(), st0.limit(), 1);
            }
        }
        let key_id = sb.decode_int(IntWidth::U8)?;
        let ghost st1 = *sb;
        proof {
            if st0.clean() {
                st1.lemma_follows_clean(&st0);
                lemma_unbounded_no_trip(st1.buffered().len(), st1.pending(), st1.limit(), 2);
            }
        }
        let kem = sb.decode_int(IntWidth::U16)?;
        let ghost st2 = *sb;
        proof {
            sb.lemma_follows_trans(&st1, &st0);
            if st0.clean() {
                st2.lemma_follows_clean(&st0);
                lemma_unbounded_no_trip(st2.buffered().len(), st2.pending(), st2.limit(), 2);
            }
        }
        let kdf = sb.decode_int(IntWidth::U16)?;
        let ghost st3 = *sb;
        proof {
            sb.lemma_follows_trans(&st2, &st0);
            if st0.clean() {
                st3.lemma_follows_clean(&st0);
                lemma_unbounded_no_trip(st3.buffered().len(), st3.pending(), st3.limit(), 2);
            }
        }
        let aead = sb.decode_int(IntWidth::U16)?;
        proof {
            sb.lemma_follows_trans(&st3, &st0);
            if st0.clean() {
                sb.lemma_follows_clean(&st0);
            }
            assert(d0.skip(1).take(2) =~= d0.subrange(1, 3));
            assert(d0.skip(1).skip(2).take(2) =~= d0.subrange(3, 5));
            assert(d0.skip(1).skip(2).skip(2).take(2) =~= d0.subrange(5, 7));
            assert(d0.skip(1).skip(2).skip(2).skip(2) =~= d0.skip(7));
            assert(d0.take(1) =~= seq![d0[0]]);
            assert(crate::varint::pow256(2) == 0x10000) by {
                reveal_with_fuel(crate::varint::pow256, 3);
            }
            assert(crate::varint::be_value(d0.take(1)) == d0[0] as nat) by {
                assert(d0.take(1).drop_last() =~= Seq::<u8>::empty());
                assert(crate::varint::be_value(Seq::<u8>::empty()) == 0);
                assert(d0.take(1).last() == d0[0]);
            }
            crate::varint::lemma_be_value_bound(d0.subrange(1, 3));
            crate::varint::lemma_be_value_bound(d0.subrange(3, 5));
            crate::varint::lemma_be_value_bound(d0.subrange(5, 7));
        }
        let kem_id = KemId::try_from_u16(kem as u16)?;
        let kdf_id = KdfId::try_from_u16(kdf as u16)?;
        let aead_id = AeadId::try_from_u16(aead as u16)?;
        Ok(EncapHeader { key_id: key_id as u8, kem_id, kdf_id, aead_id })
    }

    /// The length of an encoded header.
    pub fn encoded_len() -> (n: usize)
        ensures
            n == 7,
    {
        1 + 2 + 2 + 2
    }

    /// Appends the encoding of the header.
    pub fn put(&self, out: &mut Vec<u8>)
        ensures
            final(out)@ == old(out)@ + spec_header_bytes(*self),
    {
        out.push(self.key_id);
        put_u16(out, self.kem_id.to_u16());
        put_u16(out, self.kdf_id.to_u16());
        put_u16(out, self.aead_id.to_u16());
        assert(final(out)@ =~= old(out)@ + spec_header_bytes(*self));
    }

    /// The length of the HPKE `info` of a request with label `s`.
    pub fn encoded_info_len(s: &str) -> (n: usize)
        requires
            s.spec_bytes().len() + 8 <= usize::MAX,
        ensures
            n == s.spec_bytes().len() + 8,
    {
        s.len() + 1 + Self::encoded_len()
    }

    /// The HPKE `info` of a request with label `s`.
    pub fn encode_info(&self, s: &str) -> (info: Vec<u8>)
        ensures
            info@ == spec_info(s.spec_bytes(), *self),
    {
        let mut out = vstd::slice::slice_to_vec(s.as_bytes());
        out.push(0u8);
        self.put(&mut out);
        assert(out@ =~= spec_info(s.spec_bytes(), *self));
        out
    }
}

/// An encoded header takes seven bytes.
pub proof fn lemma_header_len(h: EncapHeader)
    ensures
        spec_header_bytes(h).len() == 7,
{
    crate::varint::lemma_be_bytes_len(kem_code(h.kem_id) as nat, 2);
    crate::varint::lemma_be_bytes_len(kdf_code(h.kdf_id) as nat, 2);
    crate::varint::lemma_be_bytes_len(aead_code(h.aead_id) as nat, 2);
}

} // verus!
