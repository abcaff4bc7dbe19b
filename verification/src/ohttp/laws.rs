//! What holds across the gateway and the client: the key configurations a
//! gateway publishes read back, at the client, as the same configurations;
//! the gateway opens the requests the client seals, and both derive the
//! same response secret; the client opens the responses the gateway
//! seals; and the nonces of the chunks of a response are never reused.
use vstd::prelude::*;
use crate::ohttp::client::{spec_algorithms, spec_config_entries, spec_decode_key_config, spec_decoded_configs, KeyConfigV};
use crate::ohttp::server::{
    config_publishable, lemma_key_config_len, spec_algorithms_bytes, spec_configs_bytes, spec_key_config_bytes,
};
use crate::ohttp::{aead_code, be16, be_at, kdf_code, lemma_codes_roundtrip, AeadId, KdfId};
use crate::ohttp::response::{
    response_sealed_for, spec_aead_seal, spec_chunk_nonce, spec_response_key, spec_response_nonce, ResponseContext,
};
use crate::ohttp::client::{request_sealed, spec_secret_len};
use crate::ohttp::crypto::{spec_hpke_export, spec_hpke_open, spec_hpke_public};
use crate::ohttp::keys::{spec_public_of, KeyPair};
use crate::ohttp::server::ServerKeyConfig;
use crate::ohttp::{kem_code, spec_public_key_len, EncapHeader, KemId};
use crate::varint::{be_bytes, be_value, lemma_be_bytes_len, lemma_be_value_of_bytes, pow256};

verus! {

proof fn lemma_be16(x: u16, a: Seq<u8>, rest: Seq<u8>)
    ensures
        be_at(a + be16(x) + rest, a.len() as int, 2) == x,
        be16(x).len() == 2,
{
    lemma_be_bytes_len(x as nat, 2);
    assert(pow256(2) == 0x10000) by {
        reveal_with_fuel(pow256, 3);
    }
    lemma_be_value_of_bytes(x as nat, 2);
    let s = a + be16(x) + rest;
    assert(s.subrange(a.len() as int, (a.len() + 2) as int) =~= be16(x));
}

/// Algorithm pairs read back from their encoding.
proof fn lemma_algorithms_roundtrip(a: Seq<(KdfId, AeadId)>, rest: Seq<u8>)
    ensures
        spec_algorithms(spec_algorithms_bytes(a) + rest, a.len()) == Some(a),
    decreases a.len(),
{
    if a.len() == 0 {
        assert(a =~= Seq::<(KdfId, AeadId)>::empty());
    } else {
        let x = a[0];
        let t = a.drop_first();
        let kb = be16(kdf_code(x.0));
        let ab = be16(aead_code(x.1));
        let tail = spec_algorithms_bytes(t) + rest;
        let s = spec_algorithms_bytes(a) + rest;
        assert(s =~= kb + ab + tail);
        lemma_be16(kdf_code(x.0), Seq::empty(), ab + tail);
        assert(Seq::<u8>::empty() + kb + (ab + tail) =~= s);
        lemma_be16(aead_code(x.1), kb, tail);
        lemma_codes_roundtrip(crate::ohttp::KemId::X25519HkdfSha256, x.0, x.1);
        assert(s.skip(4) =~= tail);
        lemma_algorithms_roundtrip(t, rest);
        assert(seq![x] + t =~= a);
    }
}

/// A publishable key configuration reads back from its encoding.
pub proof fn lemma_key_config_roundtrip(c: KeyConfigV)
    requires
        config_publishable(c),
    ensures
        spec_decode_key_config(spec_key_config_bytes(c)) == Some(c),
{
    reveal(spec_decode_key_config);
    let s = spec_key_config_bytes(c);
    let n = c.public_key.len();
    let k = c.symmetric_algorithms.len();
    lemma_key_config_len(c);
    let kb = be16(kem_code(c.kem_id));
    let lb = be16((4 * k) as u16);
    let algs = spec_algorithms_bytes(c.symmetric_algorithms);
    lemma_be16(kem_code(c.kem_id), seq![c.key_id], c.public_key + lb + algs);
    assert(s =~= seq![c.key_id] + kb + (c.public_key + lb + algs));
    lemma_be16((4 * k) as u16, seq![c.key_id] + kb + c.public_key, algs);
    assert(s =~= (seq![c.key_id] + kb + c.public_key) + lb + algs);
    lemma_codes_roundtrip(c.kem_id, KdfId::HkdfSha256, AeadId::AesGcm128);
    assert(s.skip((5 + n) as int) =~= algs + Seq::<u8>::empty());
    lemma_algorithms_roundtrip(c.symmetric_algorithms, Seq::empty());
    assert((4 * k) / 4 == k);
    assert(s.subrange(3, (3 + n) as int) =~= c.public_key);
}

/// The entries of an encoded list of configurations.
pub open spec fn spec_config_entries_of(cs: Seq<KeyConfigV>) -> Seq<Seq<u8>> {
    Seq::new(cs.len(), |i: int| spec_key_config_bytes(cs[i]))
}

/// One length-prefixed entry, then the rest of the list.
proof fn lemma_entries_step(b: Seq<u8>, rest: Seq<u8>)
    requires
        b.len() <= 0xffff,
    ensures
        spec_config_entries(be16(b.len() as u16) + b + rest) == match spec_config_entries(rest) {
            Some(r) => Some(seq![b] + r),
            None => None,
        },
{
    let lb = be16(b.len() as u16);
    let s = lb + b + rest;
    lemma_be16(b.len() as u16, Seq::empty(), b + rest);
    assert(Seq::<u8>::empty() + lb + (b + rest) =~= s);
    assert(s.take(2) =~= s.subrange(0, 2));
    assert(s.subrange(2, (2 + b.len()) as int) =~= b);
    assert(s.skip((2 + b.len()) as int) =~= rest);
}

/// The key configurations that a gateway publishes (`encode_config`) are
/// read back by a client (`decode_config`) as the same configurations, in
/// the same order: key identifiers, KEMs, public keys and algorithm pairs.
pub proof fn law_config_roundtrip(cs: Seq<KeyConfigV>)
    requires
        forall|i: int| 0 <= i < cs.len() ==> config_publishable(#[trigger] cs[i]),
    ensures
        spec_config_entries(spec_configs_bytes(cs)) == Some(spec_config_entries_of(cs)),
        spec_decoded_configs(spec_config_entries_of(cs)) == cs,
    decreases cs.len(),
{
    let e = spec_config_entries_of(cs);
    if cs.len() == 0 {
        assert(e =~= Seq::<Seq<u8>>::empty());
        assert(cs =~= Seq::<KeyConfigV>::empty());
    } else {
        let c = cs[0];
        let t = cs.drop_first();
        assert forall|i: int| 0 <= i < t.len() implies config_publishable(#[trigger] t[i]) by {
            assert(t[i] == cs[i + 1]);
        }
        law_config_roundtrip(t);
        let b = spec_key_config_bytes(c);
        let rest = spec_configs_bytes(t);
        assert(spec_configs_bytes(cs) =~= be16(b.len() as u16) + b + rest);
        lemma_entries_step(b, rest);
        assert(spec_config_entries_of(t) =~= e.drop_first());
        assert(seq![b] + e.drop_first() =~= e);
        lemma_key_config_roundtrip(c);
        assert(e[0] == b);
        assert(seq![c] + t =~= cs);
    }
}

/// Two different chunks of a response are sealed under different nonces:
/// while the counter has not wrapped, no nonce is used twice under a key.
pub proof fn law_chunk_nonces_distinct(initial: Seq<u8>, i: nat, j: nat)
    requires
        i < pow256(initial.len()),
        j < pow256(initial.len()),
        i != j,
    ensures
        spec_chunk_nonce(initial, i) != spec_chunk_nonce(initial, j),
{
    let n = initial.len();
    lemma_be_bytes_len(i, n);
    lemma_be_bytes_len(j, n);
    lemma_be_value_of_bytes(i, n);
    lemma_be_value_of_bytes(j, n);
    let bi = be_bytes(i, n);
    let bj = be_bytes(j, n);
    if spec_chunk_nonce(initial, i) == spec_chunk_nonce(initial, j) {
        assert forall|k: int| 0 <= k < n implies bi[k] == bj[k] by {
            let a = initial[k];
            let x = bi[k];
            let y = bj[k];
            assert(spec_chunk_nonce(initial, i)[k] == spec_chunk_nonce(initial, j)[k]);
            assert((a ^ x) == (a ^ y) ==> x == y) by (bit_vector);
        }
        assert(bi =~= bj);
    }
}

/// The identifier of a KEM names the public keys of that KEM.
proof fn lemma_public_codes(k: KemId, sk: Seq<u8>)
    ensures
        spec_hpke_public(kem_code(k), sk) == spec_public_of(k, sk),
{
}

/// The gateway opens what the client sealed. Of an encapsulated request
/// sealed to the public key of a key pair, the rest after the header and
/// the encapsulated key, ciphertext then tag, opens with the private key,
/// the same request `info` and no associated data to the content; and the
/// gateway exports, with the response `info`, the very response secret
/// the client kept, so both protect the response alike.
pub proof fn law_request_roundtrip(
    h: EncapHeader,
    sk: Seq<u8>,
    pk: Seq<u8>,
    request_info: Seq<u8>,
    response_info: Seq<u8>,
    pt: Seq<u8>,
    bytes: Seq<u8>,
    secret: Seq<u8>,
)
    requires
        spec_public_of(h.kem_id, sk) == Some(pk),
        request_sealed(h, pk, request_info, response_info, pt, bytes, secret),
    ensures
        ({
            let n = spec_public_key_len(h.kem_id) as int;
            let enc = bytes.subrange(7, 7 + n);
            let rest = bytes.skip(7 + n);
            &&& rest.len() >= 16
            &&& spec_hpke_open(
                kem_code(h.kem_id),
                kdf_code(h.kdf_id),
                aead_code(h.aead_id),
                sk,
                enc,
                request_info,
                Seq::empty(),
                rest.take(rest.len() - 16),
                rest.skip(rest.len() - 16),
            ) == Some(pt)
            &&& spec_hpke_export(
                kem_code(h.kem_id),
                kdf_code(h.kdf_id),
                aead_code(h.aead_id),
                sk,
                enc,
                request_info,
                response_info,
                spec_secret_len(h.aead_id),
            ) == Some(secret)
        }),
{
    lemma_public_codes(h.kem_id, sk);
    let n = spec_public_key_len(h.kem_id) as int;
    let l = pt.len() as int;
    let enc = bytes.subrange(7, 7 + n);
    let rest = bytes.skip(7 + n);
    assert(rest.take(rest.len() - 16) =~= bytes.subrange(7 + n, 7 + n + l));
    assert(rest.skip(rest.len() - 16) =~= bytes.skip(7 + n + l));
    assert(spec_hpke_open(
        kem_code(h.kem_id),
        kdf_code(h.kdf_id),
        aead_code(h.aead_id),
        sk,
        enc,
        request_info,
        Seq::empty(),
        bytes.subrange(7 + n, 7 + n + l),
        bytes.skip(7 + n + l),
    ) == Some(pt));
}


/// The configurations of a gateway that starts with no key and is given
/// the key pairs and algorithm lists of `adds`, one `add_key_config` call
/// each, in order.
pub open spec fn spec_configs_after_adds(adds: Seq<(KeyPair, Vec<(KdfId, AeadId)>)>) -> Seq<ServerKeyConfig>
    decreases adds.len(),
{
    if adds.len() == 0 {
        Seq::empty()
    } else {
        let before = spec_configs_after_adds(adds.drop_last());
        before.push(
            ServerKeyConfig { key_id: before.len() as u8, key: adds.last().0, symmetric_algorithms: adds.last().1 },
        )
    }
}

/// Key identifiers are dense and follow the order of insertion: after `k`
/// keys are added to a new gateway (at most 256), the `i`-th configuration
/// has identifier `i`, with the `i`-th key pair and algorithm list.
pub proof fn law_key_ids_dense(adds: Seq<(KeyPair, Vec<(KdfId, AeadId)>)>)
    requires
        adds.len() <= 256,
    ensures
        spec_configs_after_adds(adds).len() == adds.len(),
        forall|i: int|
            0 <= i < adds.len() ==> #[trigger] spec_configs_after_adds(adds)[i] == (ServerKeyConfig {
                key_id: i as u8,
                key: adds[i].0,
                symmetric_algorithms: adds[i].1,
            }),
    decreases adds.len(),
{
    if adds.len() > 0 {
        law_key_ids_dense(adds.drop_last());
        let before = spec_configs_after_adds(adds.drop_last());
        assert forall|i: int| 0 <= i < adds.len() implies #[trigger] spec_configs_after_adds(adds)[i] == (ServerKeyConfig {
            key_id: i as u8,
            key: adds[i].0,
            symmetric_algorithms: adds[i].1,
        }) by {
            if i < adds.len() - 1 {
                assert(adds.drop_last()[i] == adds[i]);
            }
        }
    }
}

/// The client opens what the gateway sealed. Whatever response nonce `n`
/// the gateway drew, when both ends hold the same response context (the
/// same suite, encapsulated key and response secret, as the request law
/// gives them), the gateway's output for the content `pt` (`n`, then the
/// ciphertext and tag under the key and first chunk nonce derived from
/// `n`) is a response sealed for the client's context: the one the
/// client's `decapsulate_non_chunked_content` opens to `pt`.
pub proof fn law_response_roundtrip(
    gateway: ResponseContext,
    client: ResponseContext,
    n: Seq<u8>,
    pt: Seq<u8>,
    ct: Seq<u8>,
    tag: Seq<u8>,
)
    requires
        client.kdf_id == gateway.kdf_id,
        client.aead_id == gateway.aead_id,
        client.encapped_key@ == gateway.encapped_key@,
        client.response_secret@ == gateway.response_secret@,
        n.len() == gateway.response_secret@.len(),
        spec_aead_seal(
            gateway.aead_id,
            spec_response_key(gateway.kdf_id, gateway.aead_id, gateway.encapped_key@, gateway.response_secret@, n),
            spec_chunk_nonce(
                spec_response_nonce(gateway.kdf_id, gateway.aead_id, gateway.encapped_key@, gateway.response_secret@, n),
                0,
            ),
            Seq::empty(),
            pt,
        ) == Some((ct, tag)),
        ct.len() == pt.len(),
        tag.len() == 16,
    ensures
        response_sealed_for(client, n + ct + tag, pt),
{
    let d = n + ct + tag;
    assert(d.take(n.len() as int) =~= n);
    assert(d.subrange(n.len() as int, (n.len() + pt.len()) as int) =~= ct);
    assert(d.skip((n.len() + pt.len()) as int) =~= tag);
}

} // verus!
