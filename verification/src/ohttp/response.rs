//! The keys of an encapsulated response (RFC 9458, section 4.4) and the
//! AEAD context that seals or opens its chunks, one nonce per chunk.
use vstd::prelude::*;
use crate::error::{Error, Invalid};
use crate::ohttp::crypto::{
    aes128gcm_open, aes128gcm_seal, aes256gcm_open, aes256gcm_seal, aead_lengths_ok, chacha_open, chacha_seal,
    hkdf_sha256, hkdf_sha384, hkdf_sha512, opt_bytes, spec_aes128gcm_open, spec_aes128gcm_seal,
    spec_aes256gcm_open, spec_aes256gcm_seal, spec_chacha_open, spec_chacha_seal, spec_hkdf_sha256,
    spec_hkdf_sha384, spec_hkdf_sha512,
};
use crate::ohttp::{spec_key_len, spec_nonce_len, AeadId, KdfId};
use crate::varint::{be_bytes, be_value, lemma_be_value_concat, lemma_be_bytes_of_value, lemma_be_value_bound, pow256};

verus! {

/// Byte-wise exclusive or of two strings of the same length.
pub open spec fn spec_xor(a: Seq<u8>, b: Seq<u8>) -> Seq<u8> {
    Seq::new(a.len(), |i: int| a[i] ^ b[i])
}

/// The nonce of the chunk numbered `i`: the initial nonce exclusive-or'd
/// with `i` written big-endian over the nonce's length.
pub open spec fn spec_chunk_nonce(initial: Seq<u8>, i: nat) -> Seq<u8> {
    spec_xor(initial, be_bytes(i, initial.len()))
}

/// The label of the response key (`"key"`).
pub open spec fn key_label() -> Seq<u8> {
    seq![107u8, 101u8, 121u8]
}

/// The label of the response nonce (`"nonce"`).
pub open spec fn nonce_label() -> Seq<u8> {
    seq![110u8, 111u8, 110u8, 99u8, 101u8]
}

/// HKDF with the hash of `kdf`.
pub open spec fn spec_hkdf(kdf: KdfId, salt: Seq<u8>, ikm: Seq<u8>, info: Seq<u8>, len: nat) -> Seq<u8> {
    match kdf {
        KdfId::HkdfSha256 => spec_hkdf_sha256(salt, ikm, info, len),
        KdfId::HkdfSha384 => spec_hkdf_sha384(salt, ikm, info, len),
        KdfId::HkdfSha512 => spec_hkdf_sha512(salt, ikm, info, len),
    }
}

/// Sealing with `aead`: ciphertext and tag.
pub open spec fn spec_aead_seal(aead: AeadId, key: Seq<u8>, nonce: Seq<u8>, aad: Seq<u8>, pt: Seq<u8>) -> Option<(Seq<u8>, Seq<u8>)> {
    match aead {
        AeadId::AesGcm128 => spec_aes128gcm_seal(key, nonce, aad, pt),
        AeadId::AesGcm256 => spec_aes256gcm_seal(key, nonce, aad, pt),
        AeadId::ChaCha20Poly1305 => spec_chacha_seal(key, nonce, aad, pt),
    }
}

/// Opening with `aead` a ciphertext followed by its 16-byte tag.
pub open spec fn spec_aead_open(aead: AeadId, key: Seq<u8>, nonce: Seq<u8>, aad: Seq<u8>, sealed: Seq<u8>) -> Option<Seq<u8>> {
    if sealed.len() < 16 {
        None
    } else {
        let ct = sealed.take(sealed.len() - 16);
        let tag = sealed.skip(sealed.len() - 16);
        match aead {
            AeadId::AesGcm128 => spec_aes128gcm_open(key, nonce, aad, ct, tag),
            AeadId::AesGcm256 => spec_aes256gcm_open(key, nonce, aad, ct, tag),
            AeadId::ChaCha20Poly1305 => spec_chacha_open(key, nonce, aad, ct, tag),
        }
    }
}

/// The key and nonce of a response: HKDF of the response secret, salted
/// with the encapsulated key followed by the response nonce, expanded with
/// the labels `"key"` and `"nonce"`.
pub open spec fn spec_response_key(kdf: KdfId, aead: AeadId, enc: Seq<u8>, secret: Seq<u8>, response_nonce: Seq<u8>) -> Seq<u8> {
    spec_hkdf(kdf, enc + response_nonce, secret, key_label(), spec_key_len(aead))
}

pub open spec fn spec_response_nonce(kdf: KdfId, aead: AeadId, enc: Seq<u8>, secret: Seq<u8>, response_nonce: Seq<u8>) -> Seq<u8> {
    spec_hkdf(kdf, enc + response_nonce, secret, nonce_label(), spec_nonce_len(aead))
}

/// A big-endian counter of chunks and the nonces it gives.
pub struct ChunkNonce {
    initial: Vec<u8>,
    counter: Vec<u8>,
    current: Vec<u8>,
}

proof fn lemma_be_value_all(k: nat, b: u8)
    requires
        b == 0 || b == 255,
    ensures
        be_value(Seq::new(k, |i: int| b)) == if b == 0 { 0 } else { (pow256(k) - 1) as nat },
    decreases k,
{
    if k > 0 {
        let s = Seq::new(k, |i: int| b);
        assert(s.drop_last() =~= Seq::new((k - 1) as nat, |i: int| b));
        lemma_be_value_all((k - 1) as nat, b);
        crate::varint::lemma_pow256_pos((k - 1) as nat);
    }
}

impl ChunkNonce {
    pub closed spec fn wf(&self) -> bool {
        &&& self.counter@.len() == self.initial@.len()
        &&& self.current@.len() == self.initial@.len()
    }

    /// The nonce the context was created with.
    pub closed spec fn initial(&self) -> Seq<u8> {
        self.initial@
    }

    /// How many nonces were handed out.
    pub closed spec fn count(&self) -> nat {
        be_value(self.counter@)
    }

    /// A counter over `aead_nonce`, at zero.
    pub fn new(aead_nonce: Vec<u8>) -> (c: Self)
        ensures
            c.wf(),
            c.initial() == aead_nonce@,
            c.count() == 0,
    {
        let n = aead_nonce.len();
        let counter = vec![0u8; n];
        proof {
            assert(counter@ =~= Seq::new(n as nat, |i: int| 0u8));
            lemma_be_value_all(n as nat, 0);
        }
        let initial = aead_nonce.clone();
        proof {
            assert(initial@ =~= aead_nonce@);
        }
        ChunkNonce { initial, counter, current: aead_nonce }
    }

    /// Adds one to the counter; fails, leaving it at zero, when it wraps.
    fn incr(&mut self) -> (r: Result<(), Error>)
        requires
            old(self).wf(),
        ensures
            final(self).wf(),
            final(self).initial() == old(self).initial(),
            final(self).current@ == old(self).current@,
            r is Ok <==> old(self).count() + 1 < pow256(old(self).initial().len()),
            r is Ok ==> final(self).count() == old(self).count() + 1,
            r matches Err(e) ==> e == Error::InvalidData(Invalid::MessageLimitReached),
    {
        let ghost c0 = self.counter@;
        let ghost n = c0.len();
        let mut i = self.counter.len();
        proof {
            assert(c0.skip(n as int) =~= Seq::new(0, |j: int| 0u8));
        }
        while i > 0
            invariant
                self.wf(),
                self.initial() == old(self).initial(),
                self.current@ == old(self).current@,
                c0 == old(self).counter@,
                n == c0.len(),
                self.counter@.len() == n,
                i <= n,
                self.counter@.take(i as int) == c0.take(i as int),
                self.counter@.skip(i as int) == Seq::new((n - i) as nat, |j: int| 0u8),
                c0.skip(i as int) == Seq::new((n - i) as nat, |j: int| 255u8),
            decreases i,
        {
            let b = self.counter[i - 1];
            assert(self.counter@.take(i as int)[i - 1] == self.counter@[i - 1]);
            assert(c0.take(i as int)[i - 1] == c0[i - 1]);
            let ghost before = self.counter@;
            if b < 255 {
                self.counter.set(i - 1, b + 1);
                proof {
                    let k = (n - i) as nat;
                    let p = c0.take(i - 1);
                    let s_old = c0;
                    let s_new = self.counter@;
                    assert(s_old =~= (p + seq![b]) + Seq::new(k, |j: int| 255u8)) by {
                        assert(c0.take(i as int) =~= p + seq![b]);
                        assert(c0 =~= c0.take(i as int) + c0.skip(i as int));
                    }
                    assert(s_new =~= (p + seq![(b + 1) as u8]) + Seq::new(k, |j: int| 0u8)) by {
                        assert(s_new =~= s_new.take(i as int) + s_new.skip(i as int));
                        assert(s_new.take(i as int) =~= p + seq![(b + 1) as u8]);
                    }
                    lemma_be_value_concat(p + seq![b], Seq::new(k, |j: int| 255u8));
                    lemma_be_value_concat(p + seq![(b + 1) as u8], Seq::new(k, |j: int| 0u8));
                    lemma_be_value_concat(p, seq![b]);
                    lemma_be_value_concat(p, seq![(b + 1) as u8]);
                    lemma_be_value_all(k, 255);
                    lemma_be_value_all(k, 0);
                    assert(pow256(1) == 256) by {
                        reveal_with_fuel(pow256, 2);
                    }
                    assert(be_value(Seq::<u8>::empty()) == 0);
                    assert(be_value(seq![b]) == b as nat) by {
                        assert(seq![b].drop_last() =~= Seq::<u8>::empty());
                    }
                    assert(be_value(seq![(b + 1) as u8]) == b + 1) by {
                        assert(seq![(b + 1) as u8].drop_last() =~= Seq::<u8>::empty());
                    }
                    lemma_be_value_bound(s_new);
                    crate::varint::lemma_pow256_pos(k);
                    let x = be_value(p + seq![b]);
                    let q = pow256(k);
                    assert((x + 1) * q + 0 == x * q + (q - 1) + 1) by (nonlinear_arith);
                }
                return Ok(());
            }
            self.counter.set(i - 1, 0);
            proof {
                assert(c0.skip(i - 1) =~= seq![255u8] + c0.skip(i as int));
                assert(self.counter@.skip(i - 1) =~= seq![0u8] + before.skip(i as int));
                assert(self.counter@.skip(i - 1) =~= Seq::new((n - i + 1) as nat, |j: int| 0u8));
                assert(c0.skip(i - 1) =~= Seq::new((n - i + 1) as nat, |j: int| 255u8));
                assert(self.counter@.take(i - 1) =~= c0.take(i - 1));
            }
            i = i - 1;
        }
        proof {
            assert(c0 =~= c0.skip(0));
            lemma_be_value_all(n, 255);
            assert(self.counter@ =~= self.counter@.skip(0));
            lemma_be_value_all(n, 0);
        }
        Err(Error::InvalidData(Invalid::MessageLimitReached))
    }

    /// The nonce of the next chunk; fails once the counter wraps.
    pub fn next(&mut self) -> (r: Result<Vec<u8>, Error>)
        requires
            old(self).wf(),
        ensures
            final(self).wf(),
            final(self).initial() == old(self).initial(),
            r is Ok <==> old(self).count() + 1 < pow256(old(self).initial().len()),
            r matches Ok(nonce) ==> nonce@ == spec_chunk_nonce(old(self).initial(), old(self).count())
                && final(self).count() == old(self).count() + 1,
            r matches Err(e) ==> e == Error::InvalidData(Invalid::MessageLimitReached),
    {
        let n = self.counter.len();
        let mut i: usize = 0;
        while i < n
            invariant
                self.wf(),
                self.initial() == old(self).initial(),
                self.counter@ == old(self).counter@,
                n == self.counter@.len(),
                i <= n,
                forall|j: int| 0 <= j < i ==> self.current@[j] == self.counter@[j] ^ self.initial@[j],
            decreases n - i,
        {
            let x = self.counter[i] ^ self.initial[i];
            self.current.set(i, x);
            i = i + 1;
        }
        let ghost cnt = self.count();
        proof {
            lemma_be_bytes_of_value(self.counter@);
            assert(self.current@ =~= spec_chunk_nonce(self.initial@, cnt)) by {
                assert forall|j: int| 0 <= j < n implies self.current@[j] == self.initial@[j] ^ be_bytes(cnt, n as nat)[j] by {
                    let a = self.counter@[j];
                    let b = self.initial@[j];
                    assert(a ^ b == b ^ a) by (bit_vector);
                }
            }
        }
        self.incr()?;
        let nonce = self.current.clone();
        assert(nonce@ =~= self.current@);
        Ok(nonce)
    }
}

/// Seals `pt` with `aead`, returning ciphertext and tag.
pub fn aead_seal(aead: AeadId, key: &[u8], nonce: &[u8], aad: &[u8], pt: Vec<u8>) -> (r: Option<(Vec<u8>, Vec<u8>)>)
    requires
        key@.len() == spec_key_len(aead),
        nonce@.len() == 12,
    ensures
        match r {
            Some((c, t)) => spec_aead_seal(aead, key@, nonce@, aad@, pt@) == Some((c@, t@)) && c@.len() == pt@.len()
                && t@.len() == 16,
            None => spec_aead_seal(aead, key@, nonce@, aad@, pt@) is None,
        },
        aead_lengths_ok(aad@, pt@) ==> r is Some,
{
    match aead {
        AeadId::AesGcm128 => aes128gcm_seal(key, nonce, aad, pt),
        AeadId::AesGcm256 => aes256gcm_seal(key, nonce, aad, pt),
        AeadId::ChaCha20Poly1305 => chacha_seal(key, nonce, aad, pt),
    }
}

/// Opens `sealed`, a ciphertext followed by its tag, with `aead`.
pub fn aead_open(aead: AeadId, key: &[u8], nonce: &[u8], aad: &[u8], sealed: Vec<u8>) -> (r: Option<Vec<u8>>)
    requires
        key@.len() == spec_key_len(aead),
        nonce@.len() == 12,
    ensures
        opt_bytes(r) == spec_aead_open(aead, key@, nonce@, aad@, sealed@),
        forall|pt: Seq<u8>|
            (#[trigger] spec_aead_seal(aead, key@, nonce@, aad@, pt)) matches Some((c, tg)) && tg.len() == 16 && c
                + tg == sealed@ ==> opt_bytes(r) == Some(pt),
{
    if sealed.len() < 16 {
        return None;
    }
    let ghost s = sealed@;
    let mut ct = sealed;
    let split = ct.len() - 16;
    let tag = ct.split_off(split);
    proof {
        assert(ct@ =~= s.take(split as int));
        assert(tag@ =~= s.skip(split as int));
    }
    let r = match aead {
        AeadId::AesGcm128 => aes128gcm_open(key, nonce, aad, ct, tag.as_slice()),
        AeadId::AesGcm256 => aes256gcm_open(key, nonce, aad, ct, tag.as_slice()),
        AeadId::ChaCha20Poly1305 => chacha_open(key, nonce, aad, ct, tag.as_slice()),
    };
    proof {
        assert forall|pt: Seq<u8>|
            (#[trigger] spec_aead_seal(aead, key@, nonce@, aad@, pt)) matches Some((c, tg)) && tg.len() == 16 && c
                + tg == s implies opt_bytes(r) == Some(pt) by {
            let (c, tg) = spec_aead_seal(aead, key@, nonce@, aad@, pt).unwrap();
            assert(c =~= (c + tg).take(split as int));
            assert(tg =~= (c + tg).skip(split as int));
        }
    }
    r
}

impl KdfId {
    /// The AEAD key and nonce of a response: HKDF of the response secret,
    /// salted with the encapsulated key followed by the response nonce.
    pub fn derive_aead_key_and_nonce(
        self,
        aead_id: AeadId,
        encapped_key: &[u8],
        response_secret: &[u8],
        response_nonce: &[u8],
    ) -> (r: (Vec<u8>, Vec<u8>))
        ensures
            r.0@ == spec_response_key(self, aead_id, encapped_key@, response_secret@, response_nonce@),
            r.1@ == spec_response_nonce(self, aead_id, encapped_key@, response_secret@, response_nonce@),
            r.0@.len() == spec_key_len(aead_id),
            r.1@.len() == spec_nonce_len(aead_id),
    {
        let key_len = aead_id.key_len();
        let nonce_len = aead_id.nonce_len();
        let mut salt = vstd::slice::slice_to_vec(encapped_key);
        let mut rn = vstd::slice::slice_to_vec(response_nonce);
        salt.append(&mut rn);
        let key_info = vec![107u8, 101u8, 121u8];
        let nonce_info = vec![110u8, 111u8, 110u8, 99u8, 101u8];
        proof {
            assert(salt@ =~= encapped_key@ + response_nonce@);
            assert(key_info@ =~= key_label());
            assert(nonce_info@ =~= nonce_label());
        }
        match self {
            KdfId::HkdfSha256 => (
                hkdf_sha256(salt.as_slice(), response_secret, key_info.as_slice(), key_len),
                hkdf_sha256(salt.as_slice(), response_secret, nonce_info.as_slice(), nonce_len),
            ),
            KdfId::HkdfSha384 => (
                hkdf_sha384(salt.as_slice(), response_secret, key_info.as_slice(), key_len),
                hkdf_sha384(salt.as_slice(), response_secret, nonce_info.as_slice(), nonce_len),
            ),
            KdfId::HkdfSha512 => (
                hkdf_sha512(salt.as_slice(), response_secret, key_info.as_slice(), key_len),
                hkdf_sha512(salt.as_slice(), response_secret, nonce_info.as_slice(), nonce_len),
            ),
        }
    }
}

/// The AEAD state of a response: the algorithm, its key and the counter of
/// chunk nonces.
pub struct AeadContext {
    aead_id: AeadId,
    aead_key: Vec<u8>,
    chunk_nonce: ChunkNonce,
}

impl AeadContext {
    pub closed spec fn wf(&self) -> bool {
        &&& self.chunk_nonce.wf()
        &&& self.aead_key@.len() == spec_key_len(self.aead_id)
        &&& self.chunk_nonce.initial().len() == 12
    }

    pub closed spec fn aead(&self) -> AeadId {
        self.aead_id
    }

    pub closed spec fn key(&self) -> Seq<u8> {
        self.aead_key@
    }

    pub closed spec fn initial_nonce(&self) -> Seq<u8> {
        self.chunk_nonce.initial()
    }

    /// How many chunks were sealed or opened.
    pub closed spec fn count(&self) -> nat {
        self.chunk_nonce.count()
    }

    /// The nonce of the next chunk.
    pub open spec fn next_nonce(&self) -> Seq<u8> {
        spec_chunk_nonce(self.initial_nonce(), self.count())
    }

    /// A fresh context.
    pub fn new(aead_id: AeadId, aead_key: Vec<u8>, aead_nonce: Vec<u8>) -> (c: Self)
        requires
            aead_key@.len() == spec_key_len(aead_id),
            aead_nonce@.len() == 12,
        ensures
            c.wf(),
            c.aead() == aead_id,
            c.key() == aead_key@,
            c.initial_nonce() == aead_nonce@,
            c.count() == 0,
    {
        AeadContext { aead_id, aead_key, chunk_nonce: ChunkNonce::new(aead_nonce) }
    }

    /// Seals the next chunk: its ciphertext and tag, under the next nonce.
    pub fn seal(&mut self, plaintext: Vec<u8>, aad: &[u8]) -> (r: Result<(Vec<u8>, Vec<u8>), Error>)
        requires
            old(self).wf(),
        ensures
            final(self).wf(),
            final(self).aead() == old(self).aead(),
            final(self).key() == old(self).key(),
            final(self).initial_nonce() == old(self).initial_nonce(),
            old(self).count() + 1 < pow256(12) ==> final(self).count() == old(self).count() + 1,
            old(self).count() + 1 >= pow256(12) ==> r == Err::<(Vec<u8>, Vec<u8>), Error>(
                Error::InvalidData(Invalid::MessageLimitReached),
            ),
            r matches Ok((c, t)) ==> spec_aead_seal(old(self).aead(), old(self).key(), old(self).next_nonce(), aad@, plaintext@)
                == Some((c@, t@)) && c@.len() == plaintext@.len() && t@.len() == 16,
            old(self).count() + 1 < pow256(12) && aead_lengths_ok(aad@, plaintext@) ==> r is Ok,
            old(self).count() + 1 < pow256(12) ==> (r is Err ==> spec_aead_seal(old(self).aead(), old(self).key(), old(self).next_nonce(), aad@, plaintext@) is None),
    {
        let nonce = self.chunk_nonce.next()?;
        match aead_seal(self.aead_id, self.aead_key.as_slice(), nonce.as_slice(), aad, plaintext) {
            Some(x) => Ok(x),
            None => Err(Error::InvalidData(Invalid::Seal)),
        }
    }

    /// Opens the next chunk, a ciphertext followed by its tag, under the
    /// next nonce.
    pub fn open(&mut self, sealed: Vec<u8>, aad: &[u8]) -> (r: Result<Vec<u8>, Error>)
        requires
            old(self).wf(),
        ensures
            final(self).wf(),
            final(self).aead() == old(self).aead(),
            final(self).key() == old(self).key(),
            final(self).initial_nonce() == old(self).initial_nonce(),
            old(self).count() + 1 < pow256(12) ==> final(self).count() == old(self).count() + 1,
            old(self).count() + 1 >= pow256(12) ==> r == Err::<Vec<u8>, Error>(
                Error::InvalidData(Invalid::MessageLimitReached),
            ),
            old(self).count() + 1 < pow256(12) ==> match spec_aead_open(old(self).aead(), old(self).key(), old(self).next_nonce(), aad@, sealed@) {
                Some(p) => r matches Ok(x) && x@ == p,
                None => r == Err::<Vec<u8>, Error>(Error::InvalidData(Invalid::Open)),
            },
            old(self).count() + 1 < pow256(12) ==> forall|pt: Seq<u8>|
                (#[trigger] spec_aead_seal(old(self).aead(), old(self).key(), old(self).next_nonce(), aad@, pt)) matches Some((c, tg))
                    && tg.len() == 16 && c + tg == sealed@ ==> (r matches Ok(x) && x@ == pt),
    {
        let nonce = self.chunk_nonce.next()?;
        match aead_open(self.aead_id, self.aead_key.as_slice(), nonce.as_slice(), aad, sealed) {
            Some(x) => Ok(x),
            None => Err(Error::InvalidData(Invalid::Open)),
        }
    }
}

/// `d` is a non-chunked response sealed for the context `c` with the
/// content `pt`: a response nonce as long as the response secret, then the
/// ciphertext and tag that the AEAD gives for `pt` under the key and first
/// chunk nonce that `c` derives from that response nonce, with no
/// associated data.
pub open spec fn response_sealed_for(c: ResponseContext, d: Seq<u8>, pt: Seq<u8>) -> bool {
    let l = c.response_secret@.len();
    let n = d.take(l as int);
    &&& d.len() == l + pt.len() + 16
    &&& spec_aead_seal(
        c.aead_id,
        spec_response_key(c.kdf_id, c.aead_id, c.encapped_key@, c.response_secret@, n),
        spec_chunk_nonce(spec_response_nonce(c.kdf_id, c.aead_id, c.encapped_key@, c.response_secret@, n), 0),
        Seq::empty(),
        pt,
    ) == Some((d.subrange(l as int, (l + pt.len()) as int), d.skip((l + pt.len()) as int)))
}

/// What the two ends of an exchange share to protect the response.
#[derive(Clone)]
pub struct ResponseContext {
    pub kdf_id: KdfId,
    pub aead_id: AeadId,
    pub encapped_key: Vec<u8>,
    pub response_secret: Vec<u8>,
}

impl ResponseContext {
    /// The AEAD context of a response with the given response nonce.
    pub fn derive_aead_context(&self, response_nonce: &[u8]) -> (c: AeadContext)
        ensures
            c.wf(),
            c.aead() == self.aead_id,
            c.key() == spec_response_key(self.kdf_id, self.aead_id, self.encapped_key@, self.response_secret@, response_nonce@),
            c.initial_nonce() == spec_response_nonce(self.kdf_id, self.aead_id, self.encapped_key@, self.response_secret@, response_nonce@),
            c.count() == 0,
    {
        let (aead_key, aead_nonce) = self.kdf_id.derive_aead_key_and_nonce(
            self.aead_id,
            self.encapped_key.as_slice(),
            self.response_secret.as_slice(),
            response_nonce,
        );
        AeadContext::new(self.aead_id, aead_key, aead_nonce)
    }
}

/// The response key schedule of RFC 9458 (section 4.4): the response key
/// and nonce are HKDF, with the suite's hash, of the response secret, salted
/// with the encapsulated key followed by the response nonce, expanded with
/// the labels "key" (to 16 bytes for AES-128-GCM, 32 for AES-256-GCM and
/// ChaCha20-Poly1305) and "nonce" (to 12 bytes).
pub proof fn law_response_key_schedule(kdf: KdfId, aead: AeadId, enc: Seq<u8>, secret: Seq<u8>, n: Seq<u8>)
    ensures
        ({
            let salt = enc + n;
            let key_len: nat = match aead {
                AeadId::AesGcm128 => 16,
                AeadId::AesGcm256 => 32,
                AeadId::ChaCha20Poly1305 => 32,
            };
            let key_info = seq![0x6bu8, 0x65u8, 0x79u8];
            let nonce_info = seq![0x6eu8, 0x6fu8, 0x6eu8, 0x63u8, 0x65u8];
            &&& spec_response_key(kdf, aead, enc, secret, n) == match kdf {
                KdfId::HkdfSha256 => spec_hkdf_sha256(salt, secret, key_info, key_len),
                KdfId::HkdfSha384 => spec_hkdf_sha384(salt, secret, key_info, key_len),
                KdfId::HkdfSha512 => spec_hkdf_sha512(salt, secret, key_info, key_len),
            }
            &&& spec_response_nonce(kdf, aead, enc, secret, n) == match kdf {
                KdfId::HkdfSha256 => spec_hkdf_sha256(salt, secret, nonce_info, 12),
                KdfId::HkdfSha384 => spec_hkdf_sha384(salt, secret, nonce_info, 12),
                KdfId::HkdfSha512 => spec_hkdf_sha512(salt, secret, nonce_info, 12),
            }
        }),
{
    assert(key_label() =~= seq![0x6bu8, 0x65u8, 0x79u8]);
    assert(nonce_label() =~= seq![0x6eu8, 0x6fu8, 0x6eu8, 0x63u8, 0x65u8]);
}

} // verus!
