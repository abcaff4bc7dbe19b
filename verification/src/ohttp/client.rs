//! The client side of Oblivious HTTP: reading the gateway's key
//! configurations, encapsulating a request and opening the response.
use vstd::prelude::*;
use crate::error::{Error, ErrorKind, Invalid};
use crate::ohttp::crypto::hpke_sealed;
use crate::ohttp::chunked::{ChunkedRequestSealer, SealerState};
use crate::ohttp::keys::PublicKey;
use crate::ohttp::response::{
    response_sealed_for, spec_aead_open, spec_response_key, spec_response_nonce, AeadContext, ResponseContext,
};
use crate::ohttp::stream::{Decapsulated, DecapsulatedResponseStream};
use crate::ohttp::{
    aead_code, aead_of_code, be_at, kdf_code, kdf_of_code, kem_code, kem_of_code, spec_header_bytes, spec_info, spec_key_len, spec_public_key_len,
    AeadId, EncapHeader, KdfId, KemId,
};
use crate::stream_buf::{lemma_unbounded_no_trip, IntWidth, StreamBuf};
use crate::varint::{be_value, decode_u16, decode_u8, pow256};
use vstd::string::StringSliceAdditionalSpecFns;

verus! {

/// A key configuration as the gateway publishes it.
pub struct KeyConfigV {
    pub key_id: u8,
    pub kem_id: KemId,
    pub public_key: Seq<u8>,
    pub symmetric_algorithms: Seq<(KdfId, AeadId)>,
}

/// `count` pairs of KDF and AEAD identifiers, four bytes each.
pub open spec fn spec_algorithms(s: Seq<u8>, count: nat) -> Option<Seq<(KdfId, AeadId)>>
    decreases count,
{
    if count == 0 {
        Some(Seq::empty())
    } else if s.len() < 4 {
        None
    } else {
        match (kdf_of_code(be_at(s, 0, 2) as u16), aead_of_code(be_at(s, 2, 2) as u16)) {
            (Some(k), Some(a)) => match spec_algorithms(s.skip(4), (count - 1) as nat) {
                Some(rest) => Some(seq![(k, a)] + rest),
                None => None,
            },
            _ => None,
        }
    }
}

/// Why `count` algorithm pairs at the start of `s` are refused: the first
/// pair whose KDF, or else whose AEAD, is not a registered one.
pub open spec fn spec_algorithms_refusal(s: Seq<u8>, count: nat) -> Invalid
    decreases count,
{
    if count == 0 || s.len() < 4 {
        Invalid::TruncatedKeyConfig
    } else if kdf_of_code(be_at(s, 0, 2) as u16) is None {
        Invalid::KdfId(be_at(s, 0, 2) as u16)
    } else if aead_of_code(be_at(s, 2, 2) as u16) is None {
        Invalid::AeadId(be_at(s, 2, 2) as u16)
    } else {
        spec_algorithms_refusal(s.skip(4), (count - 1) as nat)
    }
}

/// Why a key configuration is refused, checked in this order: too short
/// for its KEM identifier, an unknown KEM, too short for the public key
/// and the list length, a list length that is zero, not a multiple of four
/// or longer than what is left, then the first unknown algorithm.
pub open spec fn spec_key_config_refusal(s: Seq<u8>) -> Invalid {
    if s.len() < 3 {
        Invalid::TruncatedKeyConfig
    } else {
        match kem_of_code(be_at(s, 1, 2) as u16) {
            None => Invalid::KemId(be_at(s, 1, 2) as u16),
            Some(kem) => {
                let n = spec_public_key_len(kem);
                if s.len() < 5 + n {
                    Invalid::TruncatedKeyConfig
                } else {
                    let l = be_at(s, (3 + n) as int, 2);
                    if l == 0 || l % 4 != 0 || s.len() < 5 + n + l {
                        Invalid::SymmetricAlgorithmsLength(l as u16)
                    } else {
                        spec_algorithms_refusal(s.skip((5 + n) as int), l / 4)
                    }
                }
            },
        }
    }
}

/// A key configuration (RFC 9458, section 3): key identifier, KEM
/// identifier, public key, and a non-empty list of algorithm pairs whose
/// length in bytes is a multiple of four. Bytes after the list are ignored.
#[verifier::opaque]
pub open spec fn spec_decode_key_config(s: Seq<u8>) -> Option<KeyConfigV> {
    if s.len() < 3 {
        None
    } else {
        match kem_of_code(be_at(s, 1, 2) as u16) {
            None => None,
            Some(kem) => {
                let n = spec_public_key_len(kem);
                if s.len() < 5 + n {
                    None
                } else {
                    let l = be_at(s, (3 + n) as int, 2);
                    if l == 0 || l % 4 != 0 || s.len() < 5 + n + l {
                        None
                    } else {
                        match spec_algorithms(s.skip((5 + n) as int), l / 4) {
                            Some(algs) => Some(
                                KeyConfigV {
                                    key_id: s[0],
                                    kem_id: kem,
                                    public_key: s.subrange(3, (3 + n) as int),
                                    symmetric_algorithms: algs,
                                },
                            ),
                            None => None,
                        }
                    }
                }
            },
        }
    }
}

/// A list of key configurations, each prefixed by its length on two bytes,
/// up to the end of the input.
pub open spec fn spec_config_entries(s: Seq<u8>) -> Option<Seq<Seq<u8>>>
    decreases s.len(),
{
    if s.len() == 0 {
        Some(Seq::empty())
    } else if s.len() < 2 {
        None
    } else {
        let l = be_value(s.take(2));
        if 2 + l > s.len() {
            None
        } else {
            match spec_config_entries(s.skip((2 + l) as int)) {
                Some(rest) => Some(seq![s.subrange(2, (2 + l) as int)] + rest),
                None => None,
            }
        }
    }
}

/// The configurations of a list that decode, in order; the others are
/// skipped.
pub open spec fn spec_decoded_configs(e: Seq<Seq<u8>>) -> Seq<KeyConfigV>
    decreases e.len(),
{
    if e.len() == 0 {
        Seq::empty()
    } else {
        let rest = spec_decoded_configs(e.drop_first());
        match spec_decode_key_config(e[0]) {
            Some(c) => seq![c] + rest,
            None => rest,
        }
    }
}

/// A key configuration of the gateway.
pub struct KeyConfig {
    pub key_id: u8,
    pub key: PublicKey,
    pub symmetric_algorithms: Vec<(KdfId, AeadId)>,
}

impl View for KeyConfig {
    type V = KeyConfigV;

    open spec fn view(&self) -> KeyConfigV {
        KeyConfigV {
            key_id: self.key_id,
            kem_id: self.key.kem_id,
            public_key: self.key.bytes@,
            symmetric_algorithms: self.symmetric_algorithms@,
        }
    }
}

proof fn lemma_u16_bound(s: Seq<u8>)
    requires
        s.len() == 2,
    ensures
        be_value(s) < 0x10000,
{
    crate::varint::lemma_be_value_bound(s);
    assert(pow256(2) == 0x10000) by {
        reveal_with_fuel(pow256, 3);
    }
}

/// The big-endian `u16` at offset `off` of `s`.
fn u16_at(s: &[u8], off: usize) -> (r: u16)
    requires
        off + 2 <= s@.len(),
    ensures
        r == be_at(s@, off as int, 2),
{
    let rest = vstd::slice::slice_subrange(s, off, s.len());
    proof {
        assert(rest@.take(2) =~= s@.subrange(off as int, off + 2));
        lemma_u16_bound(s@.subrange(off as int, off + 2));
    }
    match decode_u16(rest) {
        Some(v) => v,
        None => 0,
    }
}

impl KeyConfig {
    /// Decodes one key configuration.
    pub fn decode(encoded: &[u8]) -> (r: Result<KeyConfig, Error>)
        ensures
            match spec_decode_key_config(encoded@) {
                Some(v) => r matches Ok(kc) && kc@ == v,
                None => r is Err,
            },
            r matches Err(e) ==> e == Error::InvalidData(spec_key_config_refusal(encoded@)),
    {
        reveal(spec_decode_key_config);
        let s = encoded;
        let key_id = match decode_u8(s) {
            Some(k) => k,
            None => return Err(Error::InvalidData(Invalid::TruncatedKeyConfig)),
        };
        proof {
            assert(crate::varint::be_value(s@.take(1)) == s@[0] as nat) by {
                assert(s@.take(1).drop_last() =~= Seq::<u8>::empty());
                assert(crate::varint::be_value(Seq::<u8>::empty()) == 0);
                assert(s@.take(1).last() == s@[0]);
            }
        }
        if s.len() < 3 {
            return Err(Error::InvalidData(Invalid::TruncatedKeyConfig));
        }
        let kem_id = KemId::try_from_u16(u16_at(s, 1))?;
        let n = kem_id.public_key_len();
        if s.len() < 5 + n {
            return Err(Error::InvalidData(Invalid::TruncatedKeyConfig));
        }
        let public_key = vstd::slice::slice_to_vec(vstd::slice::slice_subrange(s, 3, 3 + n));
        let l = u16_at(s, 3 + n) as usize;
        if l == 0 || l % 4 != 0 || s.len() - (5 + n) < l {
            return Err(Error::InvalidData(Invalid::SymmetricAlgorithmsLength(l as u16)));
        }
        let base = 5 + n;
        let count = l / 4;
        let mut algs: Vec<(KdfId, AeadId)> = Vec::new();
        let mut i: usize = 0;
        let total = s.len();
        proof {
            assert(4 * count == l) by (nonlinear_arith)
                requires
                    count == l / 4,
                    l % 4 == 0,
            ;
            assert(spec_decode_key_config(s@) == match spec_algorithms(s@.skip(base as int), count as nat) {
                Some(a) => Some(KeyConfigV { key_id: key_id, kem_id: kem_id, public_key: s@.subrange(3, 3 + n), symmetric_algorithms: a }),
                None => None,
            });
            assert(s@.skip(base as int).skip(0) =~= s@.skip(base as int));
            if let Some(x) = spec_algorithms(s@.skip(base as int), count as nat) {
                assert(Seq::<(KdfId, AeadId)>::empty() + x =~= x);
            }
        }
        while i < count
            invariant
                s@ == encoded@,
                total == s@.len(),
                base + 4 * count <= s@.len(),
                i <= count,
                spec_decode_key_config(s@) is None <==> spec_algorithms(s@.skip(base as int), count as nat) is None,
                spec_key_config_refusal(s@) == spec_algorithms_refusal(s@.skip(base + 4 * i), (count - i) as nat),
                spec_algorithms(s@.skip(base as int), count as nat) == match spec_algorithms(
                    s@.skip(base + 4 * i),
                    (count - i) as nat,
                ) {
                    Some(rest) => Some(algs@ + rest),
                    None => None,
                },
            decreases count - i,
        {
            assert(4 * i + 4 <= 4 * count) by (nonlinear_arith)
                requires
                    i < count,
            ;
            let off = base + 4 * i;
            let ghost t = s@.skip(off as int);
            assert(be_at(t, 0, 2) == be_at(s@, off as int, 2)) by {
                assert(t.subrange(0, 2) =~= s@.subrange(off as int, off + 2));
            }
            assert(be_at(t, 2, 2) == be_at(s@, off + 2, 2)) by {
                assert(t.subrange(2, 4) =~= s@.subrange(off + 2, off + 4));
            }
            assert(t.skip(4) =~= s@.skip(off + 4));
            assert(t.len() >= 4);
            let kdf = match KdfId::try_from_u16(u16_at(s, off)) {
                Ok(k) => k,
                Err(e) => {
                    assert(spec_algorithms(t, (count - i) as nat) is None);
                    return Err(e);
                },
            };
            let aead = match AeadId::try_from_u16(u16_at(s, off + 2)) {
                Ok(a) => a,
                Err(e) => {
                    assert(spec_algorithms(t, (count - i) as nat) is None);
                    return Err(e);
                },
            };
            let ghost before = algs@;
            algs.push((kdf, aead));
            proof {
                if let Some(rest) = spec_algorithms(s@.skip(off + 4), (count - i - 1) as nat) {
                    assert(before + (seq![(kdf, aead)] + rest) =~= algs@ + rest);
                }
            }
            i = i + 1;
        }
        proof {
            assert(algs@ + Seq::<(KdfId, AeadId)>::empty() =~= algs@);
            assert(public_key@ =~= s@.subrange(3, 3 + n as int));
        }
        Ok(KeyConfig { key_id, key: PublicKey { kem_id, bytes: public_key }, symmetric_algorithms: algs })
    }
}

/// The gateway's key configurations that this client can use.
pub struct ClientConfig {
    key_configs: Vec<KeyConfig>,
}

/// The views of a list of key configurations.
pub open spec fn configs_view(v: Seq<KeyConfig>) -> Seq<KeyConfigV> {
    Seq::new(v.len(), |i: int| v[i]@)
}

impl ClientConfig {
    pub closed spec fn configs(&self) -> Seq<KeyConfigV> {
        configs_view(self.key_configs@)
    }

    /// At least one configuration, each with at least one algorithm pair
    /// and a public key of the length its KEM gives.
    pub open spec fn wf(&self) -> bool {
        &&& self.configs().len() > 0
        &&& forall|i: int|
            0 <= i < self.configs().len() ==> (#[trigger] self.configs()[i]).symmetric_algorithms.len() > 0
                && self.configs()[i].public_key.len() == spec_public_key_len(self.configs()[i].kem_id)
    }

    /// The first configuration with its first algorithm pair.
    pub fn first_encap_config(&self) -> (c: EncapConfig)
        requires
            self.wf(),
        ensures
            c.key_id == self.configs()[0].key_id,
            c.public_key.kem_id == self.configs()[0].kem_id,
            c.public_key.bytes@ == self.configs()[0].public_key,
            (c.kdf_id, c.aead_id) == self.configs()[0].symmetric_algorithms[0],
    {
        let key_config = &self.key_configs[0];
        assert(self.configs()[0] == key_config@);
        let (kdf_id, aead_id) = key_config.symmetric_algorithms[0];
        let bytes = key_config.key.bytes.clone();
        assert(bytes@ =~= key_config.key.bytes@);
        EncapConfig {
            key_id: key_config.key_id,
            public_key: PublicKey { kem_id: key_config.key.kem_id, bytes },
            kdf_id,
            aead_id,
        }
    }
}

proof fn lemma_decoded_nonempty_algs(e: Seq<Seq<u8>>)
    ensures
        forall|i: int|
            0 <= i < spec_decoded_configs(e).len() ==> (#[trigger] spec_decoded_configs(e)[i]).symmetric_algorithms.len() > 0
                && spec_decoded_configs(e)[i].public_key.len() == spec_public_key_len(spec_decoded_configs(e)[i].kem_id),
    decreases e.len(),
{
    if e.len() > 0 {
        lemma_decoded_nonempty_algs(e.drop_first());
        if let Some(c) = spec_decode_key_config(e[0]) {
            reveal(spec_decode_key_config);
            let s = e[0];
            let n = spec_public_key_len(c.kem_id);
            let l = be_at(s, (3 + n) as int, 2);
            lemma_algorithms_len(s.skip((5 + n) as int), l / 4);
            let d = spec_decoded_configs(e);
            let rest = spec_decoded_configs(e.drop_first());
            assert forall|i: int| 0 <= i < d.len() implies (#[trigger] d[i]).symmetric_algorithms.len() > 0
                && d[i].public_key.len() == spec_public_key_len(d[i].kem_id) by {
                if i > 0 {
                    assert(d[i] == rest[i - 1]);
                }
            }
        }
    }
}

proof fn lemma_algorithms_len(s: Seq<u8>, count: nat)
    ensures
        spec_algorithms(s, count) matches Some(a) ==> a.len() == count,
    decreases count,
{
    if count > 0 && s.len() >= 4 {
        lemma_algorithms_len(s.skip(4), (count - 1) as nat);
    }
}

/// Reads a list of key configurations up to the end of the input, keeping
/// those this client can decode; fails when none is left.
pub fn decode_config(sb: &mut StreamBuf) -> (r: Result<ClientConfig, Error>)
    requires
        old(sb).wf(),
    ensures
        final(sb).wf(),
        r matches Ok(cfg) ==> cfg.wf() && (spec_config_entries(old(sb).data()) matches Some(e)
            && cfg.configs() == spec_decoded_configs(e)),
        old(sb).clean() ==> (r is Ok <==> (spec_config_entries(old(sb).data()) matches Some(e)
            && spec_decoded_configs(e).len() > 0)),
        old(sb).clean() ==> (spec_config_entries(old(sb).data()) matches Some(e) && spec_decoded_configs(e).len() == 0
            ==> r == Err::<ClientConfig, Error>(Error::NoKeyConfig)),
        old(sb).clean() ==> (r matches Err(e) ==> e.spec_kind() == ErrorKind::UnexpectedEof),
{
    let ghost st0 = *sb;
    let ghost d0 = sb.data();
    let mut key_configs: Vec<KeyConfig> = Vec::new();
    let ghost mut entries: Seq<Seq<u8>> = Seq::empty();
    proof {
        sb.lemma_follows_refl();
        assert(d0.skip(0) =~= d0);
        assert(configs_view(key_configs@) =~= Seq::<KeyConfigV>::empty());
        if let Some(x) = spec_config_entries(d0) {
            assert(Seq::<Seq<u8>>::empty() + x =~= x);
        }
    }
    let ghost mut used: nat = 0;
    loop
        invariant_except_break
            spec_config_entries(d0) == match spec_config_entries(sb.data()) {
                Some(rest) => Some(entries + rest),
                None => None,
            },
        invariant
            st0 == *old(sb),
            d0 == st0.data(),
            sb.wf(),
            sb.follows(&st0),
            st0.clean() ==> sb.clean(),
            used <= d0.len(),
            sb.data() == d0.skip(used as int),
            configs_view(key_configs@) == spec_decoded_configs(entries),
        ensures
            spec_config_entries(d0) == Some(entries),
        decreases sb.data().len(),
    {
        let ghost sti = *sb;
        let ghost di = sb.data();
        let more = match sb.has_more_data() {
            Ok(x) => x,
            Err(e) => {
                return Err(e);
            },
        };
        let ghost st1 = *sb;
        proof {
            sb.lemma_follows_trans(&sti, &st0);
            if st0.clean() {
                sti.lemma_dense_nonempty();
                st1.lemma_follows_clean(&st0);
                lemma_unbounded_no_trip(st1.buffered().len(), st1.pending(), st1.limit(), 2);
            }
        }
        if !more {
            proof {
                assert(di =~= Seq::<u8>::empty());
                assert(entries + Seq::<Seq<u8>>::empty() =~= entries);
            }
            break;
        }
        let len = match sb.decode_int(IntWidth::U16) {
            Ok(x) => x,
            Err(e) => {
                return Err(e);
            },
        };
        let ghost st2 = *sb;
        proof {
            sb.lemma_follows_trans(&st1, &st0);
            lemma_u16_bound(di.take(2));
            if st0.clean() {
                st2.lemma_follows_clean(&st0);
                lemma_unbounded_no_trip(st2.buffered().len(), st2.pending(), st2.limit(), len as int);
            }
        }
        let encoded = match sb.read_exact(len as usize) {
            Ok(x) => x,
            Err(e) => {
                return Err(e);
            },
        };
        proof {
            sb.lemma_follows_trans(&st2, &st0);
            if st0.clean() {
                sb.lemma_follows_clean(&st0);
            }
            assert(di.skip(2).take(len as int) =~= di.subrange(2, 2 + len));
            assert(di.skip(2).skip(len as int) =~= di.skip(2 + len));
            assert(d0.skip(used as int).skip(2 + len) =~= d0.skip(used + 2 + len));
        }
        let ghost old_entries = entries;
        let ghost old_view = configs_view(key_configs@);
        match KeyConfig::decode(encoded.as_slice()) {
            Ok(kc) => {
                key_configs.push(kc);
            },
            Err(_) => {},
        }
        proof {
            entries = old_entries.push(encoded@);
            lemma_decoded_push(old_entries, encoded@);
            if spec_decode_key_config(encoded@) is Some {
                assert(configs_view(key_configs@) =~= old_view.push(spec_decode_key_config(encoded@).unwrap()));
            } else {
                assert(configs_view(key_configs@) =~= old_view);
            }
            if let Some(rest) = spec_config_entries(sb.data()) {
                assert(old_entries + (seq![encoded@] + rest) =~= entries + rest);
            }
            used = (used + 2 + len) as nat;
        }
    }
    if key_configs.len() == 0 {
        return Err(Error::NoKeyConfig);
    }
    let cfg = ClientConfig { key_configs };
    proof {
        lemma_decoded_nonempty_algs(entries);
    }
    Ok(cfg)
}

proof fn lemma_decoded_push(e: Seq<Seq<u8>>, x: Seq<u8>)
    ensures
        spec_decoded_configs(e.push(x)) == spec_decoded_configs(e) + match spec_decode_key_config(x) {
            Some(c) => seq![c],
            None => Seq::empty(),
        },
    decreases e.len(),
{
    let tail = match spec_decode_key_config(x) {
        Some(c) => seq![c],
        None => Seq::<KeyConfigV>::empty(),
    };
    if e.len() == 0 {
        assert(e.push(x) =~= seq![x]);
        assert(spec_decoded_configs(Seq::<Seq<u8>>::empty()) =~= Seq::<KeyConfigV>::empty());
        assert(spec_decoded_configs(e) =~= Seq::<KeyConfigV>::empty());
        assert(seq![x].drop_first() =~= Seq::<Seq<u8>>::empty());
        assert(Seq::<KeyConfigV>::empty() + tail =~= tail);
        if let Some(c) = spec_decode_key_config(x) {
            assert(seq![c] + Seq::<KeyConfigV>::empty() =~= seq![c]);
        }
    } else {
        assert(e.push(x).drop_first() =~= e.drop_first().push(x));
        lemma_decoded_push(e.drop_first(), x);
        assert(e.push(x)[0] == e[0]);
        if let Some(c) = spec_decode_key_config(e[0]) {
            assert(seq![c] + (spec_decoded_configs(e.drop_first()) + tail) =~= (seq![c] + spec_decoded_configs(
                e.drop_first(),
            )) + tail);
        }
    }
}

/// What a client needs to encapsulate a request to a gateway key.
#[derive(Clone, Debug)]
pub struct EncapConfig {
    pub key_id: u8,
    pub public_key: PublicKey,
    pub kdf_id: KdfId,
    pub aead_id: AeadId,
}

/// The length of the response secret: that of an AEAD key or of a nonce,
/// whichever is longer.
pub open spec fn spec_secret_len(aead: AeadId) -> nat {
    if spec_key_len(aead) >= 12 {
        spec_key_len(aead)
    } else {
        12
    }
}

/// The response secret length of an AEAD.
pub fn secret_len(aead: AeadId) -> (n: usize)
    ensures
        n == spec_secret_len(aead),
{
    let k = aead.key_len();
    let nn = aead.nonce_len();
    if k >= nn {
        k
    } else {
        nn
    }
}

/// What the encapsulation of a request needs: its header, the gateway's
/// public key and the HPKE `info` strings of the request and response.
pub struct RequestSendingContext {
    pub encap_header: EncapHeader,
    pub public_key: Vec<u8>,
    pub request_info: Vec<u8>,
    pub response_info: Vec<u8>,
}

/// Prepares the encapsulation of a request to the configuration `config`:
/// the header names its key and algorithms, and the request's `info` is the
/// label `request_info_str`, a zero byte and the header.
pub fn setup_request_encapsulation(config: EncapConfig, request_info_str: &str, response_info_str: &str) -> (c: RequestSendingContext)
    ensures
        c.encap_header == (EncapHeader {
            key_id: config.key_id,
            kem_id: config.public_key.kem_id,
            kdf_id: config.kdf_id,
            aead_id: config.aead_id,
        }),
        c.public_key@ == config.public_key.bytes@,
        c.request_info@ == spec_info(request_info_str.spec_bytes(), c.encap_header),
        c.response_info@ == response_info_str.spec_bytes(),
{
    let encap_header = EncapHeader {
        key_id: config.key_id,
        kem_id: config.public_key.kem_id,
        kdf_id: config.kdf_id,
        aead_id: config.aead_id,
    };
    let request_info = encap_header.encode_info(request_info_str);
    let response_info = vstd::slice::slice_to_vec(response_info_str.as_bytes());
    RequestSendingContext { encap_header, public_key: config.public_key.bytes, request_info, response_info }
}

/// The bytes of an encapsulated request with the header `h` to the public
/// key `public_key`, with the content `pt`:
/// its header, then an encapsulated key, ciphertext and tag that the
/// holder of a private key of the gateway's public key opens, with the
/// request's `info` and no associated data, to `pt`, exporting `secret`
/// with the response's `info`.
pub open spec fn request_sealed(
    h: EncapHeader,
    public_key: Seq<u8>,
    request_info: Seq<u8>,
    response_info: Seq<u8>,
    pt: Seq<u8>,
    bytes: Seq<u8>,
    secret: Seq<u8>,
) -> bool {
    let n = spec_public_key_len(h.kem_id) as int;
    let l = pt.len() as int;
    &&& bytes.len() == 7 + n + l + 16
    &&& bytes.take(7) == spec_header_bytes(h)
    &&& hpke_sealed(
        kem_code(h.kem_id),
        kdf_code(h.kdf_id),
        aead_code(h.aead_id),
        public_key,
        request_info,
        response_info,
        spec_secret_len(h.aead_id),
        Seq::empty(),
        pt,
        bytes.subrange(7, 7 + n),
        bytes.subrange(7 + n, 7 + n + l),
        bytes.skip(7 + n + l),
        secret,
    )
}

impl RequestSendingContext {
    /// Starts the chunked encapsulation of the content of `stream_buf` for
    /// an HPKE sender context that the caller set up (in base mode) to this
    /// context's public key and request `info`: `encapped_key` is its
    /// encapsulated key and `response_secret` what it exports with the
    /// response `info`. The header and the encapsulated key are sent
    /// first; the machine then asks the caller's context for each seal.
    pub fn encapsulate_chunked_content(
        self,
        encapped_key: Vec<u8>,
        response_secret: Vec<u8>,
        stream_buf: StreamBuf,
    ) -> (r: (ChunkedRequestSealer, ResponseReceivingContext))
        requires
            stream_buf.wf(),
        ensures
            r.0.wf(),
            r.0.input() == stream_buf,
            r.0.state() matches SealerState::Initial(c) && c@ == spec_header_bytes(self.encap_header) + encapped_key@,
            r.1.inner.kdf_id == self.encap_header.kdf_id,
            r.1.inner.aead_id == self.encap_header.aead_id,
            r.1.inner.encapped_key@ == encapped_key@,
            r.1.inner.response_secret@ == response_secret@,
    {
        let h = self.encap_header;
        let mut initial: Vec<u8> = Vec::new();
        h.put(&mut initial);
        proof {
            crate::ohttp::lemma_header_len(h);
            assert(initial@ =~= spec_header_bytes(h));
        }
        let mut e = encapped_key.clone();
        assert(e@ =~= encapped_key@);
        initial.append(&mut e);
        let sealer = ChunkedRequestSealer::new(initial, stream_buf);
        let ctx = ResponseReceivingContext {
            inner: ResponseContext { kdf_id: h.kdf_id, aead_id: h.aead_id, encapped_key, response_secret },
        };
        (sealer, ctx)
    }

    /// Seals the whole content of `stream_buf` to the gateway's key: the
    /// encapsulated request (header, encapsulated key, ciphertext, tag)
    /// and the context that opens the response.
    pub fn encapsulate_non_chunked_content(self, stream_buf: StreamBuf) -> (r: Result<(Vec<u8>, ResponseReceivingContext), Error>)
        requires
            stream_buf.wf(),
        ensures
            r matches Ok((bytes, ctx)) ==> ({
                let h = self.encap_header;
                let n = spec_public_key_len(h.kem_id);
                &&& stream_buf.end_error() is None
                &&& bytes@.len() == 7 + n + stream_buf.data().len() + 16
                &&& bytes@.take(7) == spec_header_bytes(h)
                &&& bytes@.subrange(7, (7 + n) as int) == ctx.inner.encapped_key@
                &&& ctx.inner.kdf_id == h.kdf_id
                &&& ctx.inner.aead_id == h.aead_id
                &&& ctx.inner.response_secret@.len() == spec_secret_len(h.aead_id)
                &&& request_sealed(
                    h,
                    self.public_key@,
                    self.request_info@,
                    self.response_info@,
                    stream_buf.data(),
                    bytes@,
                    ctx.inner.response_secret@,
                )
            }),
            stream_buf.end_error() matches Some(e) ==> r == Err::<(Vec<u8>, ResponseReceivingContext), Error>(e),
            r matches Err(e) ==> stream_buf.end_error() == Some(e) || e == Error::InvalidData(Invalid::Setup),
    {
        let mut sb = stream_buf;
        let content = sb.read_to_end()?;
        let h = self.encap_header;
        let slen = secret_len(h.aead_id);
        let (enc, ct, tag, secret) = match crate::ohttp::instance::dispatch_seal(
            h.kem_id,
            h.kdf_id,
            h.aead_id,
            self.public_key.as_slice(),
            self.request_info.as_slice(),
            self.response_info.as_slice(),
            slen,
            Vec::new().as_slice(),
            content,
        ) {
            Some(x) => x,
            None => return Err(Error::InvalidData(Invalid::Setup)),
        };
        if enc.len() != h.kem_id.encapped_key_len() {
            return Err(Error::InvalidData(Invalid::Setup));
        }
        let mut out: Vec<u8> = Vec::new();
        h.put(&mut out);
        proof {
            crate::ohttp::lemma_header_len(h);
            assert(out@ =~= spec_header_bytes(h));
        }
        let mut e = enc.clone();
        assert(e@ =~= enc@);
        out.append(&mut e);
        let mut c = ct;
        out.append(&mut c);
        let mut t = tag;
        out.append(&mut t);
        proof {
            let n = enc@.len() as int;
            assert(out@.take(7) =~= spec_header_bytes(h));
            assert(out@.subrange(7, 7 + n) =~= enc@);
            assert(out@.subrange(7 + n, 7 + n + ct@.len()) =~= ct@);
            assert(out@.skip(7 + n + ct@.len()) =~= tag@);
        }
        let ctx = ResponseReceivingContext {
            inner: ResponseContext { kdf_id: h.kdf_id, aead_id: h.aead_id, encapped_key: enc, response_secret: secret },
        };
        Ok((out, ctx))
    }
}

/// What opens the response of an encapsulated request.
pub struct ResponseReceivingContext {
    pub inner: ResponseContext,
}

impl ResponseReceivingContext {
    /// Reads the response nonce (as long as the response secret) and
    /// derives the AEAD context of the response from it.
    pub fn derive_aead_context(&self, sb: &mut StreamBuf) -> (r: Result<AeadContext, Error>)
        requires
            old(sb).wf(),
        ensures
            final(sb).wf(),
            r matches Ok(c) ==> ({
                let l = self.inner.response_secret@.len();
                let n = old(sb).data().take(l as int);
                &&& old(sb).data().len() >= l
                &&& final(sb).data() == old(sb).data().skip(l as int)
                &&& final(sb).follows(old(sb))
                &&& c.wf() && c.count() == 0 && c.aead() == self.inner.aead_id
                &&& c.key() == spec_response_key(self.inner.kdf_id, self.inner.aead_id, self.inner.encapped_key@,
                    self.inner.response_secret@, n)
                &&& c.initial_nonce() == spec_response_nonce(self.inner.kdf_id, self.inner.aead_id,
                    self.inner.encapped_key@, self.inner.response_secret@, n)
            }),
            old(sb).clean() ==> (r is Ok <==> old(sb).data().len() >= self.inner.response_secret@.len()),
    {
        proof {
            if old(sb).clean() {
                lemma_unbounded_no_trip(old(sb).buffered().len(), old(sb).pending(), old(sb).limit(),
                    self.inner.response_secret@.len() as int);
            }
        }
        let response_nonce = sb.read_exact(self.inner.response_secret.len())?;
        Ok(self.inner.derive_aead_context(response_nonce.as_slice()))
    }

    /// Opens a non-chunked response: the response nonce, then the content
    /// sealed whole with the first nonce of the response context.
    pub fn decapsulate_non_chunked_content(self, sb: &mut StreamBuf) -> (r: Result<Vec<u8>, Error>)
        requires
            old(sb).wf(),
        ensures
            final(sb).wf(),
            ({
                let l = self.inner.response_secret@.len();
                let d = old(sb).data();
                let n = d.take(l as int);
                let key = spec_response_key(self.inner.kdf_id, self.inner.aead_id, self.inner.encapped_key@,
                    self.inner.response_secret@, n);
                let nonce = spec_response_nonce(self.inner.kdf_id, self.inner.aead_id, self.inner.encapped_key@,
                    self.inner.response_secret@, n);
                &&& r matches Ok(pt) ==> d.len() >= l && spec_aead_open(self.inner.aead_id, key,
                    crate::ohttp::response::spec_chunk_nonce(nonce, 0), Seq::empty(), d.skip(l as int)) == Some(pt@)
                &&& old(sb).clean() ==> (r is Ok <==> d.len() >= l && spec_aead_open(self.inner.aead_id, key,
                    crate::ohttp::response::spec_chunk_nonce(nonce, 0), Seq::empty(), d.skip(l as int)) is Some)
            }),
            forall|pt: Seq<u8>|
                old(sb).clean() && #[trigger] response_sealed_for(self.inner, old(sb).data(), pt) ==> (r matches Ok(p)
                    && p@ == pt),
    {
        let ghost d0 = old(sb).data();
        let ghost l = self.inner.response_secret@.len();
        let mut ctx = self.derive_aead_context(sb)?;
        let ghost mid = *sb;
        let content = sb.read_to_end()?;
        proof {
            assert(pow256(12) > 1) by {
                reveal_with_fuel(pow256, 13);
            }
            assert forall|pt: Seq<u8>| #[trigger] response_sealed_for(self.inner, d0, pt) implies d0.subrange(
                l as int,
                (l + pt.len()) as int,
            ) + d0.skip((l + pt.len()) as int) == content@ && d0.skip((l + pt.len()) as int).len() == 16 by {
                assert(d0.subrange(l as int, (l + pt.len()) as int) + d0.skip((l + pt.len()) as int) =~= d0.skip(l as int));
            }
        }
        let no_aad: Vec<u8> = Vec::new();
        ctx.open(content, no_aad.as_slice())
    }

    /// Opens a chunked response: reads the response nonce, then gives the
    /// stream that opens the chunks.
    pub fn decapsulate_chunked_content(self, stream_buf: StreamBuf) -> (r: Result<DecapsulatedResponseStream, Error>)
        requires
            stream_buf.wf(),
        ensures
            r matches Ok(d) ==> d.wf() && d.state() is ChunkLen && d.opener().count() == 0
                && d.opener().aead() == self.inner.aead_id && d.input().data() == stream_buf.data().skip(
                self.inner.response_secret@.len() as int,
            ),
            stream_buf.clean() ==> (r is Ok <==> stream_buf.data().len() >= self.inner.response_secret@.len()),
    {
        let mut sb = stream_buf;
        let ctx = self.derive_aead_context(&mut sb)?;
        Ok(Decapsulated::new(ctx, sb))
    }
}

} // verus!
