//! The gateway side of Oblivious HTTP: its key configurations, their
//! publication, and the opening of requests and sealing of responses.
use vstd::prelude::*;
use crate::ohttp::chunked::ChunkedRequestOpener;
use crate::error::{Error, Invalid};
use crate::ohttp::client::{secret_len, spec_secret_len, KeyConfigV};
use crate::ohttp::crypto::{random_bytes, spec_hpke_export, spec_hpke_open};
use crate::ohttp::keys::KeyPair;
use crate::ohttp::response::{spec_response_key, spec_response_nonce, AeadContext, ResponseContext};
use crate::ohttp::stream::{Encapsulated, EncapsulatedResponseStream};
use crate::ohttp::{
    aead_code, be16, be_at, kdf_code, kem_code, put_u16, spec_header_of, spec_info, spec_public_key_len, AeadId,
    EncapHeader, KdfId, KemId,
};
use crate::stream_buf::{lemma_unbounded_no_trip, StreamBuf};
use vstd::string::StringSliceAdditionalSpecFns;

verus! {

/// A key configuration of the gateway, with its private key.
pub struct ServerKeyConfig {
    pub key_id: u8,
    pub key: KeyPair,
    pub symmetric_algorithms: Vec<(KdfId, AeadId)>,
}

impl ServerKeyConfig {
    /// The configuration as published.
    pub open spec fn public_view(&self) -> KeyConfigV {
        KeyConfigV {
            key_id: self.key_id,
            kem_id: self.key.public_key.kem_id,
            public_key: self.key.public_key.bytes@,
            symmetric_algorithms: self.symmetric_algorithms@,
        }
    }
}

/// The encoding of a list of algorithm pairs.
pub open spec fn spec_algorithms_bytes(a: Seq<(KdfId, AeadId)>) -> Seq<u8>
    decreases a.len(),
{
    if a.len() == 0 {
        Seq::empty()
    } else {
        be16(kdf_code(a[0].0)) + be16(aead_code(a[0].1)) + spec_algorithms_bytes(a.drop_first())
    }
}

/// The encoding of a key configuration.
pub open spec fn spec_key_config_bytes(c: KeyConfigV) -> Seq<u8> {
    seq![c.key_id] + be16(kem_code(c.kem_id)) + c.public_key + be16((4 * c.symmetric_algorithms.len()) as u16)
        + spec_algorithms_bytes(c.symmetric_algorithms)
}

/// The encoding of a list of key configurations, each prefixed by its
/// length.
pub open spec fn spec_configs_bytes(cs: Seq<KeyConfigV>) -> Seq<u8>
    decreases cs.len(),
{
    if cs.len() == 0 {
        Seq::empty()
    } else {
        be16(spec_key_config_bytes(cs[0]).len() as u16) + spec_key_config_bytes(cs[0]) + spec_configs_bytes(
            cs.drop_first(),
        )
    }
}

/// A configuration that can be published: a public key of the length its
/// KEM gives, at least one algorithm pair, and an encoding whose length
/// and list length fit in two bytes.
pub open spec fn config_publishable(c: KeyConfigV) -> bool {
    &&& c.public_key.len() == spec_public_key_len(c.kem_id)
    &&& c.symmetric_algorithms.len() > 0
    &&& 4 * c.symmetric_algorithms.len() <= 0xffff
    &&& spec_key_config_bytes(c).len() + 2 <= 0xffff
}

/// The public views of server key configurations.
pub open spec fn server_configs_view(v: Seq<ServerKeyConfig>) -> Seq<KeyConfigV> {
    Seq::new(v.len(), |i: int| v[i].public_view())
}

proof fn lemma_be_bytes_2_len(x: nat)
    ensures
        crate::varint::be_bytes(x, 2).len() == 2,
{
    crate::varint::lemma_be_bytes_len(x, 2);
}

proof fn lemma_algorithms_bytes_len(a: Seq<(KdfId, AeadId)>)
    ensures
        spec_algorithms_bytes(a).len() == 4 * a.len(),
    decreases a.len(),
{
    if a.len() > 0 {
        lemma_be_bytes_2_len(kdf_code(a[0].0) as nat);
        lemma_be_bytes_2_len(aead_code(a[0].1) as nat);
        lemma_algorithms_bytes_len(a.drop_first());
    }
}

/// The length of an encoded key configuration.
pub proof fn lemma_key_config_len(c: KeyConfigV)
    ensures
        spec_key_config_bytes(c).len() == 5 + c.public_key.len() + 4 * c.symmetric_algorithms.len(),
{
    lemma_be_bytes_2_len(kem_code(c.kem_id) as nat);
    lemma_be_bytes_2_len(((4 * c.symmetric_algorithms.len()) as u16) as nat);
    lemma_algorithms_bytes_len(c.symmetric_algorithms);
}

/// The key configurations of a gateway.
pub struct ServerConfig {
    key_configs: Vec<ServerKeyConfig>,
}

impl ServerConfig {
    pub closed spec fn configs(&self) -> Seq<ServerKeyConfig> {
        self.key_configs@
    }

    /// Each configuration is publishable, its key pair is whole, and its
    /// key identifier is its place in the list.
    pub open spec fn wf(&self) -> bool {
        &&& self.configs().len() <= 256
        &&& forall|i: int|
            0 <= i < self.configs().len() ==> {
                &&& (#[trigger] self.configs()[i]).key_id == i
                &&& config_publishable(self.configs()[i].public_view())
                &&& self.configs()[i].key.wf()
            }
    }

    /// A gateway with no key.
    pub fn new() -> (c: Self)
        ensures
            c.wf(),
            c.configs().len() == 0,
    {
        ServerConfig { key_configs: Vec::new() }
    }

    /// Adds a key, with the algorithm pairs it may be used with; its key
    /// identifier is the number of keys before it.
    pub fn add_key_config(&mut self, key_pair: KeyPair, symmetric_algorithms: Vec<(KdfId, AeadId)>) -> (r: Result<(), Error>)
        requires
            old(self).wf(),
            old(self).configs().len() < 256,
            key_pair.wf(),
            config_publishable(
                KeyConfigV {
                    key_id: old(self).configs().len() as u8,
                    kem_id: key_pair.public_key.kem_id,
                    public_key: key_pair.public_key.bytes@,
                    symmetric_algorithms: symmetric_algorithms@,
                },
            ),
        ensures
            r is Ok,
            final(self).wf(),
            final(self).configs() == old(self).configs().push(
                ServerKeyConfig { key_id: old(self).configs().len() as u8, key: key_pair, symmetric_algorithms },
            ),
    {
        let key_id = self.key_configs.len() as u8;
        let key_config = ServerKeyConfig { key_id, key: key_pair, symmetric_algorithms };
        self.key_configs.push(key_config);
        Ok(())
    }

    /// The key pair that an encapsulated request names: its key identifier
    /// must be known, with the same KEM, and its algorithm pair must be one
    /// that the key is configured for.
    pub fn get_key_pair(&self, encap_header: &EncapHeader) -> (r: Result<&KeyPair, Error>)
        requires
            self.wf(),
        ensures
            encap_header.key_id >= self.configs().len() ==> r == Err::<&KeyPair, Error>(
                Error::InvalidData(Invalid::UnknownKeyId(encap_header.key_id)),
            ),
            encap_header.key_id < self.configs().len() ==> ({
                let c = self.configs()[encap_header.key_id as int];
                if encap_header.kem_id != c.key.public_key.kem_id {
                    r == Err::<&KeyPair, Error>(
                        Error::InvalidData(
                            Invalid::WrongKemId {
                                key_id: encap_header.key_id,
                                expected: c.key.public_key.kem_id,
                                got: encap_header.kem_id,
                            },
                        ),
                    )
                } else if !c.symmetric_algorithms@.contains((encap_header.kdf_id, encap_header.aead_id)) {
                    r == Err::<&KeyPair, Error>(
                        Error::InvalidData(
                            Invalid::UnsupportedAlgorithms {
                                key_id: encap_header.key_id,
                                kdf: encap_header.kdf_id,
                                aead: encap_header.aead_id,
                            },
                        ),
                    )
                } else {
                    r matches Ok(kp) && *kp == c.key
                }
            }),
    {
        let idx = encap_header.key_id as usize;
        if idx >= self.key_configs.len() {
            return Err(Error::InvalidData(Invalid::UnknownKeyId(encap_header.key_id)));
        }
        let key_config = &self.key_configs[idx];
        if encap_header.kem_id != key_config.key.public_key.kem_id {
            return Err(
                Error::InvalidData(
                    Invalid::WrongKemId {
                        key_id: encap_header.key_id,
                        expected: key_config.key.public_key.kem_id,
                        got: encap_header.kem_id,
                    },
                ),
            );
        }
        let mut i: usize = 0;
        let algs = &key_config.symmetric_algorithms;
        while i < algs.len()
            invariant
                idx == encap_header.key_id,
                idx < self.key_configs@.len(),
                *key_config == self.key_configs@[idx as int],
                *algs == key_config.symmetric_algorithms,
                encap_header.kem_id == key_config.key.public_key.kem_id,
                i <= algs@.len(),
                forall|j: int| 0 <= j < i ==> algs@[j] != (encap_header.kdf_id, encap_header.aead_id),
            decreases algs@.len() - i,
        {
            let (kdf, aead) = algs[i];
            if kdf == encap_header.kdf_id && aead == encap_header.aead_id {
                proof {
                    assert(algs@.contains((encap_header.kdf_id, encap_header.aead_id))) by {
                        assert(algs@[i as int] == (encap_header.kdf_id, encap_header.aead_id));
                    }
                }
                return Ok(&key_config.key);
            }
            i = i + 1;
        }
        proof {
            assert(!algs@.contains((encap_header.kdf_id, encap_header.aead_id)));
        }
        Err(
            Error::InvalidData(
                Invalid::UnsupportedAlgorithms {
                    key_id: encap_header.key_id,
                    kdf: encap_header.kdf_id,
                    aead: encap_header.aead_id,
                },
            ),
        )
    }
}

impl ServerKeyConfig {
    /// The length of the encoded configuration.
    pub fn encoded_len(&self) -> (n: usize)
        requires
            config_publishable(self.public_view()),
        ensures
            n == spec_key_config_bytes(self.public_view()).len(),
    {
        proof {
            lemma_key_config_len(self.public_view());
        }
        1 + 2 + self.key.public_key.bytes.len() + 2 + self.symmetric_algorithms.len() * 4
    }

    /// Appends the encoded configuration.
    pub fn put(&self, out: &mut Vec<u8>)
        requires
            config_publishable(self.public_view()),
        ensures
            final(out)@ == old(out)@ + spec_key_config_bytes(self.public_view()),
    {
        let ghost start = out@;
        out.push(self.key_id);
        put_u16(out, self.key.public_key.kem_id.to_u16());
        let mut pk = self.key.public_key.bytes.clone();
        assert(pk@ =~= self.key.public_key.bytes@);
        out.append(&mut pk);
        put_u16(out, (self.symmetric_algorithms.len() * 4) as u16);
        let ghost mid = out@;
        let algs = &self.symmetric_algorithms;
        let mut i: usize = 0;
        proof {
            assert(algs@.take(0) =~= Seq::<(KdfId, AeadId)>::empty());
            assert(mid + Seq::<u8>::empty() =~= mid);
        }
        while i < algs.len()
            invariant
                i <= algs@.len(),
                out@ == mid + spec_algorithms_bytes(algs@.take(i as int)),
            decreases algs@.len() - i,
        {
            let (kdf, aead) = algs[i];
            put_u16(out, kdf.to_u16());
            put_u16(out, aead.to_u16());
            proof {
                lemma_algorithms_bytes_push(algs@.take(i as int), (kdf, aead));
                assert(algs@.take(i + 1) =~= algs@.take(i as int).push((kdf, aead)));
                assert(out@ =~= mid + spec_algorithms_bytes(algs@.take(i + 1)));
            }
            i = i + 1;
        }
        proof {
            assert(algs@.take(i as int) =~= algs@);
            assert(final(out)@ =~= start + spec_key_config_bytes(self.public_view()));
        }
    }
}

proof fn lemma_algorithms_bytes_push(a: Seq<(KdfId, AeadId)>, x: (KdfId, AeadId))
    ensures
        spec_algorithms_bytes(a.push(x)) == spec_algorithms_bytes(a) + be16(kdf_code(x.0)) + be16(aead_code(x.1)),
    decreases a.len(),
{
    if a.len() == 0 {
        assert(a.push(x) =~= seq![x]);
        assert(seq![x].drop_first() =~= Seq::<(KdfId, AeadId)>::empty());
        assert(spec_algorithms_bytes(a) =~= Seq::<u8>::empty());
        assert(spec_algorithms_bytes(seq![x].drop_first()) =~= Seq::<u8>::empty());
        assert(Seq::<u8>::empty() + be16(kdf_code(x.0)) + be16(aead_code(x.1)) =~= be16(kdf_code(x.0)) + be16(
            aead_code(x.1),
        ) + Seq::<u8>::empty());
    } else {
        assert(a.push(x).drop_first() =~= a.drop_first().push(x));
        lemma_algorithms_bytes_push(a.drop_first(), x);
        assert(a.push(x)[0] == a[0]);
        let h = be16(kdf_code(a[0].0)) + be16(aead_code(a[0].1));
        assert(h + (spec_algorithms_bytes(a.drop_first()) + be16(kdf_code(x.0)) + be16(aead_code(x.1))) =~= (h
            + spec_algorithms_bytes(a.drop_first())) + be16(kdf_code(x.0)) + be16(aead_code(x.1)));
    }
}

proof fn lemma_configs_bytes_push(cs: Seq<KeyConfigV>, c: KeyConfigV)
    ensures
        spec_configs_bytes(cs.push(c)) == spec_configs_bytes(cs) + be16(spec_key_config_bytes(c).len() as u16)
            + spec_key_config_bytes(c),
    decreases cs.len(),
{
    let e = be16(spec_key_config_bytes(c).len() as u16) + spec_key_config_bytes(c);
    if cs.len() == 0 {
        assert(cs.push(c) =~= seq![c]);
        assert(seq![c].drop_first() =~= Seq::<KeyConfigV>::empty());
        assert(spec_configs_bytes(cs) =~= Seq::<u8>::empty());
        assert(spec_configs_bytes(seq![c].drop_first()) =~= Seq::<u8>::empty());
        assert(Seq::<u8>::empty() + be16(spec_key_config_bytes(c).len() as u16) + spec_key_config_bytes(c) =~= e
            + Seq::<u8>::empty());
    } else {
        assert(cs.push(c).drop_first() =~= cs.drop_first().push(c));
        lemma_configs_bytes_push(cs.drop_first(), c);
        assert(cs.push(c)[0] == cs[0]);
        let h = be16(spec_key_config_bytes(cs[0]).len() as u16) + spec_key_config_bytes(cs[0]);
        assert(h + (spec_configs_bytes(cs.drop_first()) + be16(spec_key_config_bytes(c).len() as u16)
            + spec_key_config_bytes(c)) =~= (h + spec_configs_bytes(cs.drop_first())) + be16(
            spec_key_config_bytes(c).len() as u16,
        ) + spec_key_config_bytes(c));
    }
}

/// The published key configurations of a gateway, each prefixed by its
/// length.
pub fn encode_config(config: &ServerConfig) -> (b: Vec<u8>)
    requires
        config.wf(),
    ensures
        b@ == spec_configs_bytes(server_configs_view(config.configs())),
{
    let mut out: Vec<u8> = Vec::new();
    let cs = &config.key_configs;
    let mut i: usize = 0;
    proof {
        assert(server_configs_view(cs@).take(0) =~= Seq::<KeyConfigV>::empty());
    }
    while i < cs.len()
        invariant
            config.wf(),
            cs@ == config.configs(),
            i <= cs@.len(),
            out@ == spec_configs_bytes(server_configs_view(cs@).take(i as int)),
        decreases cs@.len() - i,
    {
        let c = &cs[i];
        assert(config_publishable(c.public_view())) by {
            assert(config.configs()[i as int] == *c);
        }
        let n = c.encoded_len();
        put_u16(&mut out, n as u16);
        c.put(&mut out);
        proof {
            let v = server_configs_view(cs@);
            assert(v[i as int] == c.public_view());
            assert(v.take(i + 1) =~= v.take(i as int).push(c.public_view()));
            lemma_configs_bytes_push(v.take(i as int), c.public_view());
        }
        i = i + 1;
    }
    proof {
        assert(server_configs_view(cs@).take(i as int) =~= server_configs_view(cs@));
    }
    out
}

/// What opens an encapsulated request: its header, the private key it was
/// sealed to, its encapsulated key and the HPKE `info` strings.
pub struct RequestReceivingContext {
    pub encap_header: EncapHeader,
    pub private_key: Vec<u8>,
    pub encapped_key: Vec<u8>,
    pub request_info: Vec<u8>,
    pub response_info: Vec<u8>,
}

/// What seals the response to an encapsulated request.
pub struct ResponseSendingContext {
    pub inner: ResponseContext,
}

/// How reading a request's header ends on well-behaved input `d`: a
/// malformed header fails; a header must name a known key, with its KEM
/// and one of its algorithm pairs, and be followed by a whole encapsulated
/// key; after that the HPKE setup decides: the response secret is what
/// the receiver context exports, and the setup fails only where it does.
pub open spec fn spec_request_header_outcome(
    cs: Seq<ServerKeyConfig>,
    d: Seq<u8>,
    request_info: Seq<u8>,
    response_info: Seq<u8>,
    r: Result<(RequestReceivingContext, ResponseSendingContext), Error>,
) -> bool {
    if d.len() >= 7 && spec_header_of(d[0], be_at(d, 1, 2) as u16, be_at(d, 3, 2) as u16, be_at(d, 5, 2) as u16) is Ok {
        let h = spec_header_of(d[0], be_at(d, 1, 2) as u16, be_at(d, 3, 2) as u16, be_at(d, 5, 2) as u16)->Ok_0;
        if h.key_id >= cs.len() {
            r == Err::<(RequestReceivingContext, ResponseSendingContext), Error>(Error::InvalidData(Invalid::UnknownKeyId(h.key_id)))
        } else if h.kem_id != cs[h.key_id as int].key.public_key.kem_id {
            r == Err::<(RequestReceivingContext, ResponseSendingContext), Error>(Error::InvalidData(
                Invalid::WrongKemId { key_id: h.key_id, expected: cs[h.key_id as int].key.public_key.kem_id, got: h.kem_id },
            ))
        } else if !cs[h.key_id as int].symmetric_algorithms@.contains((h.kdf_id, h.aead_id)) {
            r == Err::<(RequestReceivingContext, ResponseSendingContext), Error>(
                Error::InvalidData(Invalid::UnsupportedAlgorithms { key_id: h.key_id, kdf: h.kdf_id, aead: h.aead_id }),
            )
        } else if d.len() < 7 + spec_public_key_len(h.kem_id) {
            r == Err::<(RequestReceivingContext, ResponseSendingContext), Error>(Error::ReadExactEof)
        } else {
            let n = spec_public_key_len(h.kem_id);
            let secret = spec_hpke_export(
                kem_code(h.kem_id),
                kdf_code(h.kdf_id),
                aead_code(h.aead_id),
                cs[h.key_id as int].key.private_key@,
                d.subrange(7, (7 + n) as int),
                spec_info(request_info, h),
                response_info,
                spec_secret_len(h.aead_id),
            );
            match secret {
                None => r == Err::<(RequestReceivingContext, ResponseSendingContext), Error>(
                    Error::InvalidData(Invalid::Setup),
                ),
                Some(s) => r matches Ok((req, resp)) && resp.inner.response_secret@ == s,
            }
        }
    } else {
        r is Err
    }
}

/// Reads the header and encapsulated key of a request, finds the key pair
/// it names, and sets up HPKE with it: the context that opens the request
/// and the one that seals the response.
pub fn decode_request_header(
    hpke_config: &ServerConfig,
    request_info_str: &str,
    response_info_str: &str,
    sb: &mut StreamBuf,
) -> (r: Result<(RequestReceivingContext, ResponseSendingContext), Error>)
    requires
        hpke_config.wf(),
        old(sb).wf(),
    ensures
        final(sb).wf(),
        r is Ok ==> final(sb).follows(old(sb)),
        r matches Ok((req, resp)) ==> ({
            let d = old(sb).data();
            let h = req.encap_header;
            let n = spec_public_key_len(h.kem_id);
            &&& d.len() >= 7 + n
            &&& spec_header_of(d[0], be_at(d, 1, 2) as u16, be_at(d, 3, 2) as u16, be_at(d, 5, 2) as u16) == Ok::<
                EncapHeader,
                Error,
            >(h)
            &&& h.key_id < hpke_config.configs().len()
            &&& req.private_key@ == hpke_config.configs()[h.key_id as int].key.private_key@
            &&& req.encapped_key@ == d.subrange(7, (7 + n) as int)
            &&& req.request_info@ == spec_info(request_info_str.spec_bytes(), h)
            &&& req.response_info@ == response_info_str.spec_bytes()
            &&& final(sb).data() == d.skip((7 + n) as int)
            &&& resp.inner.kdf_id == h.kdf_id && resp.inner.aead_id == h.aead_id
            &&& resp.inner.encapped_key@ == req.encapped_key@
            &&& resp.inner.response_secret@.len() == spec_secret_len(h.aead_id)
            &&& Some(resp.inner.response_secret@) == spec_hpke_export(
                kem_code(h.kem_id),
                kdf_code(h.kdf_id),
                aead_code(h.aead_id),
                req.private_key@,
                req.encapped_key@,
                req.request_info@,
                req.response_info@,
                spec_secret_len(h.aead_id),
            )
        }),
        old(sb).clean() ==> spec_request_header_outcome(
            hpke_config.configs(),
            old(sb).data(),
            request_info_str.spec_bytes(),
            response_info_str.spec_bytes(),
            r,
        ),
{
    let ghost d0 = old(sb).data();
    let encap_header = EncapHeader::decode(sb)?;
    let ghost st1 = *sb;
    let key_pair = hpke_config.get_key_pair(&encap_header)?;
    let enc_len = encap_header.kem_id.encapped_key_len();
    proof {
        if old(sb).clean() {
            lemma_unbounded_no_trip(st1.buffered().len(), st1.pending(), st1.limit(), enc_len as int);
        }
    }
    let encapped_key = sb.read_exact(enc_len)?;
    proof {
        sb.lemma_follows_trans(&st1, old(sb));
        assert(d0.skip(7).take(enc_len as int) =~= d0.subrange(7, 7 + enc_len));
        assert(d0.skip(7).skip(enc_len as int) =~= d0.skip(7 + enc_len));
    }
    let request_info = encap_header.encode_info(request_info_str);
    let response_info = vstd::slice::slice_to_vec(response_info_str.as_bytes());
    let slen = secret_len(encap_header.aead_id);
    let secret = match crate::ohttp::instance::dispatch_receiver_secret(
        encap_header.kem_id,
        encap_header.kdf_id,
        encap_header.aead_id,
        key_pair.private_key.as_slice(),
        encapped_key.as_slice(),
        request_info.as_slice(),
        response_info.as_slice(),
        slen,
    ) {
        Some(s) => s,
        None => return Err(Error::InvalidData(Invalid::Setup)),
    };
    let private_key = key_pair.private_key.clone();
    assert(private_key@ =~= key_pair.private_key@);
    let enc2 = encapped_key.clone();
    assert(enc2@ =~= encapped_key@);
    let req = RequestReceivingContext {
        encap_header,
        private_key,
        encapped_key,
        request_info,
        response_info,
    };
    let resp = ResponseSendingContext {
        inner: ResponseContext {
            kdf_id: encap_header.kdf_id,
            aead_id: encap_header.aead_id,
            encapped_key: enc2,
            response_secret: secret,
        },
    };
    Ok((req, resp))
}

/// What the gateway's HPKE receiver context for the request `ctx` opens of
/// `d`, a ciphertext followed by its 16-byte tag, with no associated data.
pub open spec fn request_opened(ctx: RequestReceivingContext, d: Seq<u8>) -> Option<Seq<u8>> {
    let h = ctx.encap_header;
    spec_hpke_open(
        kem_code(h.kem_id),
        kdf_code(h.kdf_id),
        aead_code(h.aead_id),
        ctx.private_key@,
        ctx.encapped_key@,
        ctx.request_info@,
        Seq::empty(),
        d.take(d.len() - 16),
        d.skip(d.len() - 16),
    )
}

impl RequestReceivingContext {
    /// Starts opening a chunked request: the sealed chunks that follow the
    /// header in `stream_buf`, each opened, when the machine asks, by an
    /// HPKE receiver context that the caller set up (in base mode) with
    /// this context's private key, encapsulated key and request `info`.
    pub fn decapsulate_chunked_content(self, stream_buf: StreamBuf) -> (o: ChunkedRequestOpener)
        requires
            stream_buf.wf(),
        ensures
            o.wf(),
            o.input() == stream_buf,
            o.state() is ChunkLen,
    {
        ChunkedRequestOpener::new(stream_buf)
    }

    /// Opens a non-chunked request: all that is left of the input, the
    /// ciphertext followed by its tag.
    pub fn decapsulate_non_chunked_content(self, sb: &mut StreamBuf) -> (r: Result<Vec<u8>, Error>)
        requires
            old(sb).wf(),
        ensures
            final(sb).wf(),
            r matches Ok(pt) ==> old(sb).end_error() is None && pt@.len() + 16 == old(sb).data().len(),
            old(sb).data().len() < 16 && old(sb).end_error() is None ==> r == Err::<Vec<u8>, Error>(
                Error::InvalidData(Invalid::OpenRequest),
            ),
            old(sb).data().len() >= 16 && old(sb).end_error() is None ==> ({
                let d = old(sb).data();
                let opened = request_opened(self, d);
                &&& match opened {
                    Some(pt) => r matches Ok(p) && p@ == pt,
                    None => r == Err::<Vec<u8>, Error>(Error::InvalidData(Invalid::OpenRequest)),
                }
            }),
            old(sb).end_error() matches Some(e) ==> r == Err::<Vec<u8>, Error>(e),
    {
        let ghost d = old(sb).data();
        let mut content = sb.read_to_end()?;
        if content.len() < 16 {
            return Err(Error::InvalidData(Invalid::OpenRequest));
        }
        let split = content.len() - 16;
        let tag = content.split_off(split);
        let h = self.encap_header;
        proof {
            assert(content@ =~= d.take(split as int));
            assert(tag@ =~= d.skip(split as int));
        }
        match crate::ohttp::instance::dispatch_open(
            h.kem_id,
            h.kdf_id,
            h.aead_id,
            self.private_key.as_slice(),
            self.encapped_key.as_slice(),
            self.request_info.as_slice(),
            Vec::new().as_slice(),
            content,
            tag.as_slice(),
        ) {
            Some(pt) => Ok(pt),
            None => Err(Error::InvalidData(Invalid::OpenRequest)),
        }
    }
}

impl ResponseSendingContext {
    /// Draws a response nonce (as long as the response secret) and derives
    /// the AEAD context of the response from it.
    pub fn derive_aead_state(&self) -> (r: (Vec<u8>, AeadContext))
        ensures
            r.0@.len() == self.inner.response_secret@.len(),
            r.1.wf(),
            r.1.count() == 0,
            r.1.aead() == self.inner.aead_id,
            r.1.key() == spec_response_key(self.inner.kdf_id, self.inner.aead_id, self.inner.encapped_key@,
                self.inner.response_secret@, r.0@),
            r.1.initial_nonce() == spec_response_nonce(self.inner.kdf_id, self.inner.aead_id,
                self.inner.encapped_key@, self.inner.response_secret@, r.0@),
    {
        let response_nonce = random_bytes(self.inner.response_secret.len());
        let ctx = self.inner.derive_aead_context(response_nonce.as_slice());
        (response_nonce, ctx)
    }

    /// Seals the whole content of `stream_buf`: the response nonce, the
    /// ciphertext, then the tag.
    pub fn encapsulate_non_chunked_content(self, stream_buf: StreamBuf) -> (e: EncapsulatedResponseStream)
        requires
            stream_buf.wf(),
        ensures
            e.wf(),
            e.state() is NonChunked,
            e.input() == stream_buf,
            e.chunk() matches Some(n) && n.len() == self.inner.response_secret@.len()
                && e.sealer().key() == spec_response_key(self.inner.kdf_id, self.inner.aead_id,
                self.inner.encapped_key@, self.inner.response_secret@, n)
                && e.sealer().initial_nonce() == spec_response_nonce(self.inner.kdf_id, self.inner.aead_id,
                self.inner.encapped_key@, self.inner.response_secret@, n),
            e.sealer().count() == 0,
            e.sealer().aead() == self.inner.aead_id,
    {
        let (response_nonce, ctx) = self.derive_aead_state();
        Encapsulated::non_chunked(ctx, response_nonce, stream_buf)
    }

    /// Seals the content of `stream_buf` chunk by chunk, after the response
    /// nonce.
    pub fn encapsulate_chunked_content(self, stream_buf: StreamBuf) -> (e: EncapsulatedResponseStream)
        requires
            stream_buf.wf(),
        ensures
            e.wf(),
            e.state() is ChunkLen,
            e.input() == stream_buf,
            e.chunk() matches Some(n) && n.len() == self.inner.response_secret@.len()
                && e.sealer().key() == spec_response_key(self.inner.kdf_id, self.inner.aead_id,
                self.inner.encapped_key@, self.inner.response_secret@, n)
                && e.sealer().initial_nonce() == spec_response_nonce(self.inner.kdf_id, self.inner.aead_id,
                self.inner.encapped_key@, self.inner.response_secret@, n),
            e.sealer().count() == 0,
            e.sealer().aead() == self.inner.aead_id,
    {
        let (response_nonce, ctx) = self.derive_aead_state();
        Encapsulated::chunked(ctx, response_nonce, stream_buf)
    }
}

} // verus!
