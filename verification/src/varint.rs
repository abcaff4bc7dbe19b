//! QUIC variable-length integers (RFC 9000, section 16) and fixed-width
//! big-endian integers, as used by the binary HTTP and OHTTP wire formats.
//!
//! The byte-level work is done by the `octets` crate; this module states
//! what those calls compute and proves the facts the encoders and decoders
//! of this crate rest on (chiefly that decoding an encoding gives the value
//! back).
use vstd::prelude::*;

verus! {

/// Largest value a variable-length integer can hold (2^62 - 1).
pub const MAX_VAR_INT: u64 = 4611686018427387903;

/// 256 to the power `n`.
pub open spec fn pow256(n: nat) -> nat
    decreases n,
{
    if n == 0 {
        1
    } else {
        256 * pow256((n - 1) as nat)
    }
}

/// Value of a big-endian byte string.
pub open spec fn be_value(s: Seq<u8>) -> nat
    decreases s.len(),
{
    if s.len() == 0 {
        0
    } else {
        be_value(s.drop_last()) * 256 + s.last() as nat
    }
}

/// The `n` low-order bytes of `x`, most significant first.
pub open spec fn be_bytes(x: nat, n: nat) -> Seq<u8>
    decreases n,
{
    if n == 0 {
        Seq::empty()
    } else {
        be_bytes(x / 256, (n - 1) as nat).push((x % 256) as u8)
    }
}

/// Number of bytes of the encoding of `v`.
pub open spec fn spec_varint_len(v: u64) -> nat {
    if v <= 63 {
        1
    } else if v <= 16383 {
        2
    } else if v <= 1073741823 {
        4
    } else {
        8
    }
}

/// Number of bytes of an encoding whose first byte is `first`
/// (given by its two high bits).
pub open spec fn spec_varint_parse_len(first: u8) -> nat {
    if first < 64 {
        1
    } else if first < 128 {
        2
    } else if first < 192 {
        4
    } else {
        8
    }
}

/// The two-bit length prefix of an encoding of `len` bytes, placed in the
/// high bits of the encoded integer.
pub open spec fn varint_tag(len: nat) -> nat {
    if len == 1 {
        0
    } else if len == 2 {
        0x4000
    } else if len == 4 {
        0x8000_0000
    } else {
        0xc000_0000_0000_0000
    }
}

/// The encoding of `v`: `v` in `spec_varint_len(v)` big-endian bytes,
/// with the length prefix in the two high bits of the first byte.
pub open spec fn spec_varint_encode(v: u64) -> Seq<u8> {
    let len = spec_varint_len(v);
    be_bytes(v as nat + varint_tag(len), len)
}

/// Decoding of a variable-length integer at the start of `s`:
/// the value and the number of bytes it takes, or `None` when `s` is too
/// short to hold it.
pub open spec fn spec_varint_decode(s: Seq<u8>) -> Option<(u64, nat)> {
    if s.len() == 0 {
        None
    } else {
        let len = spec_varint_parse_len(s[0]);
        if s.len() < len {
            None
        } else {
            Some(((be_value(s.take(len as int)) - varint_tag(len)) as u64, len))
        }
    }
}

/// Decoding of a big-endian integer of `n` bytes at the start of `s`.
pub open spec fn spec_be_decode(s: Seq<u8>, n: nat) -> Option<nat> {
    if s.len() < n {
        None
    } else {
        Some(be_value(s.take(n as int)))
    }
}

// ---------------------------------------------------------------------------
// Lemmas on big-endian values.
// ---------------------------------------------------------------------------

pub proof fn lemma_pow256_pos(n: nat)
    ensures
        pow256(n) >= 1,
    decreases n,
{
    if n > 0 {
        lemma_pow256_pos((n - 1) as nat);
    }
}

pub proof fn lemma_be_bytes_len(x: nat, n: nat)
    ensures
        be_bytes(x, n).len() == n,
    decreases n,
{
    if n > 0 {
        lemma_be_bytes_len(x / 256, (n - 1) as nat);
    }
}

pub proof fn lemma_be_value_bound(s: Seq<u8>)
    ensures
        be_value(s) < pow256(s.len()),
    decreases s.len(),
{
    if s.len() > 0 {
        lemma_be_value_bound(s.drop_last());
        let a = be_value(s.drop_last());
        let p = pow256((s.len() - 1) as nat);
        assert(a * 256 + s.last() < p * 256) by (nonlinear_arith)
            requires
                a < p,
                s.last() < 256,
        ;
    }
}

/// Big-endian bytes read back as their value.
pub proof fn lemma_be_value_of_bytes(x: nat, n: nat)
    requires
        x < pow256(n),
    ensures
        be_value(be_bytes(x, n)) == x,
    decreases n,
{
    if n > 0 {
        let p = pow256((n - 1) as nat);
        assert(x / 256 < p) by (nonlinear_arith)
            requires
                x < 256 * p,
        ;
        lemma_be_value_of_bytes(x / 256, (n - 1) as nat);
        let b = be_bytes(x, n);
        assert(b.drop_last() =~= be_bytes(x / 256, (n - 1) as nat));
        assert((x / 256) * 256 + x % 256 == x) by (nonlinear_arith);
    }
}

/// A byte string is the big-endian bytes of its value.
pub proof fn lemma_be_bytes_of_value(s: Seq<u8>)
    ensures
        be_bytes(be_value(s), s.len()) =~= s,
    decreases s.len(),
{
    if s.len() > 0 {
        let a = be_value(s.drop_last());
        let v = a * 256 + s.last() as nat;
        assert(v / 256 == a && v % 256 == s.last() as nat) by (nonlinear_arith)
            requires
                v == a * 256 + s.last() as nat,
                s.last() < 256,
        ;
        lemma_be_bytes_of_value(s.drop_last());
        assert(s =~= s.drop_last().push(s.last()));
    }
}

/// The first byte of the big-endian bytes of `x`.
pub proof fn lemma_be_bytes_first(x: nat, n: nat)
    requires
        n >= 1,
        x < pow256(n),
    ensures
        be_bytes(x, n)[0] as nat == x / pow256((n - 1) as nat),
    decreases n,
{
    lemma_be_bytes_len(x, n);
    if n > 1 {
        let p = pow256((n - 2) as nat);
        assert(pow256((n - 1) as nat) == 256 * p);
        assert(pow256(n) == 256 * (256 * p));
        assert(x / 256 < 256 * p) by (nonlinear_arith)
            requires
                x < 256 * (256 * p),
        ;
        lemma_be_bytes_first(x / 256, (n - 1) as nat);
        lemma_be_bytes_len(x / 256, (n - 1) as nat);
        assert(x / 256 / p == x / (256 * p)) by {
            lemma_pow256_pos((n - 2) as nat);
            vstd::arithmetic::div_mod::lemma_div_denominator(x as int, 256, p as int);
        }
        assert(be_bytes(x, n)[0] == be_bytes(x / 256, (n - 1) as nat)[0]);
    } else {
        assert(pow256(1) == 256) by {
            reveal_with_fuel(pow256, 2);
        }
        assert(pow256(0) == 1);
        assert(be_bytes(x, 1) =~= seq![(x % 256) as u8]) by {
            reveal_with_fuel(be_bytes, 2);
        }
    }
}

/// Decoding a big-endian integer of `n` bytes reads back what
/// `be_bytes` wrote, whatever follows.
pub proof fn lemma_be_roundtrip(x: nat, n: nat, rest: Seq<u8>)
    requires
        x < pow256(n),
    ensures
        spec_be_decode(be_bytes(x, n) + rest, n) == Some(x),
{
    lemma_be_bytes_len(x, n);
    lemma_be_value_of_bytes(x, n);
    assert((be_bytes(x, n) + rest).take(n as int) =~= be_bytes(x, n));
}

/// The encoding of `v` takes `spec_varint_len(v)` bytes.
pub proof fn lemma_varint_encode_len(v: u64)
    ensures
        spec_varint_encode(v).len() == spec_varint_len(v),
        1 <= spec_varint_len(v) <= 8,
{
    lemma_be_bytes_len(v as nat + varint_tag(spec_varint_len(v)), spec_varint_len(v));
}

proof fn lemma_pow256_small()
    ensures
        pow256(0) == 1,
        pow256(1) == 256,
        pow256(2) == 0x1_0000,
        pow256(3) == 0x100_0000,
        pow256(4) == 0x1_0000_0000,
        pow256(7) == 0x100_0000_0000_0000,
        pow256(8) == 0x1_0000_0000_0000_0000,
{
    reveal_with_fuel(pow256, 9);
}

/// Decoding the encoding of `v`, whatever follows it, gives `v` and the
/// length of the encoding.
pub proof fn lemma_varint_roundtrip(v: u64, rest: Seq<u8>)
    requires
        v <= MAX_VAR_INT,
    ensures
        spec_varint_decode(spec_varint_encode(v) + rest) == Some((v, spec_varint_len(v))),
{
    let len = spec_varint_len(v);
    let x = v as nat + varint_tag(len);
    lemma_pow256_small();
    assert(x < pow256(len));
    lemma_varint_encode_len(v);
    let e = spec_varint_encode(v);
    let s = e + rest;
    lemma_be_bytes_first(x, len);
    assert(s[0] == e[0]);
    let f = e[0] as nat;
    if len == 1 {
        assert(f == x);
    } else if len == 2 {
        assert(f == x / 256);
        assert(64 <= x / 256 < 128) by (nonlinear_arith)
            requires x == v + 0x4000, 64 <= v <= 16383;
    } else if len == 4 {
        assert(f == x / 0x100_0000);
        assert(128 <= x / 0x100_0000 < 192) by (nonlinear_arith)
            requires x == v + 0x8000_0000, 16384 <= v <= 0x3fff_ffff;
    } else {
        assert(f == x / 0x100_0000_0000_0000);
        assert(192 <= x / 0x100_0000_0000_0000 < 256) by (nonlinear_arith)
            requires x == v + 0xc000_0000_0000_0000, 0x4000_0000 <= v <= 0x3fff_ffff_ffff_ffff;
    }
    assert(spec_varint_parse_len(s[0]) == len);
    lemma_be_value_of_bytes(x, len);
    assert(s.take(len as int) =~= e);
}

/// A decoded value is at most `MAX_VAR_INT`, and re-encoding it gives the
/// bytes it was decoded from when they are the shortest encoding.
pub proof fn lemma_varint_decode_bound(s: Seq<u8>)
    requires
        spec_varint_decode(s) is Some,
    ensures
        spec_varint_decode(s).unwrap().0 <= MAX_VAR_INT,
        1 <= spec_varint_decode(s).unwrap().1 <= 8,
        spec_varint_decode(s).unwrap().1 <= s.len(),
{
    let len = spec_varint_parse_len(s[0]);
    let t = s.take(len as int);
    lemma_pow256_small();
    lemma_be_value_bound(t);
    lemma_be_value_bound(t.drop_first());
    assert(t =~= seq![t[0]] + t.drop_first());
    lemma_be_value_concat(seq![t[0]], t.drop_first());
    reveal_with_fuel(be_value, 2);
    let b = be_value(t.drop_first());
    let p = pow256((len - 1) as nat);
    let f = t[0] as nat;
    assert(be_value(t) == f * p + b);
    let val = be_value(t) - varint_tag(len);
    if len == 1 {
        assert(be_value(t) == f);
        assert(0 <= val <= 63);
    } else if len == 2 {
        assert(64 <= f < 128);
        assert(0x4000 <= f * p + b <= 0x4000 + 16383) by (nonlinear_arith)
            requires 64 <= f < 128, p == 256, b < 256;
    } else if len == 4 {
        assert(0x8000_0000 <= f * p + b <= 0x8000_0000 + 0x3fff_ffff) by (nonlinear_arith)
            requires 128 <= f < 192, p == 0x100_0000, b < p;
    } else {
        assert(0xc000_0000_0000_0000 <= f * p + b <= 0xc000_0000_0000_0000 + 0x3fff_ffff_ffff_ffff) by (nonlinear_arith)
            requires 192 <= f < 256, p == 0x100_0000_0000_0000, b < p;
    }
}

/// The value of a concatenation.
pub proof fn lemma_be_value_concat(a: Seq<u8>, b: Seq<u8>)
    ensures
        be_value(a + b) == be_value(a) * pow256(b.len()) + be_value(b),
    decreases b.len(),
{
    if b.len() == 0 {
        assert(a + b =~= a);
        assert(pow256(0) == 1);
        assert(be_value(a) * 1 == be_value(a));
    } else {
        lemma_be_value_concat(a, b.drop_last());
        assert((a + b).drop_last() =~= a + b.drop_last());
        assert((a + b).last() == b.last());
        let x = be_value(a);
        let p = pow256((b.len() - 1) as nat);
        let y = be_value(b.drop_last());
        assert(pow256(b.len()) == 256 * p);
        assert(be_value(a + b) == be_value(a + b.drop_last()) * 256 + b.last());
        assert(be_value(a + b.drop_last()) == x * p + y);
        assert((x * p + y) * 256 + b.last() == x * (256 * p) + (y * 256 + b.last())) by (nonlinear_arith);
    }
}

// ---------------------------------------------------------------------------
// Calls into `octets`.
// ---------------------------------------------------------------------------

/// `octets::varint_len`: the number of bytes the encoding of `v` takes.
/// The function panics above `MAX_VAR_INT`, which `requires` rules out.
#[verifier::external_body]
pub(crate) fn varint_len(v: u64) -> (len: usize)
    requires
        v <= MAX_VAR_INT,
    ensures
        len == spec_varint_len(v),
{
    octets::varint_len(v)
}

/// `octets::OctetsMut::put_varint` on a buffer of exactly `varint_len(v)`
/// bytes: the encoding of `v`.
#[verifier::external_body]
pub(crate) fn encode_varint(v: u64) -> (out: Vec<u8>)
    requires
        v <= MAX_VAR_INT,
    ensures
        out@ == spec_varint_encode(v),
{
    let mut out = vec![0u8; octets::varint_len(v)];
    let _ = octets::OctetsMut::with_slice(&mut out).put_varint(v);
    out
}

/// `octets::Octets::get_varint` at the start of `s`: the value and the
/// offset after it, or `None` when `s` is too short (`BufferTooShortError`).
#[verifier::external_body]
pub(crate) fn decode_varint(s: &[u8]) -> (r: Option<(u64, usize)>)
    ensures
        match spec_varint_decode(s@) {
            Some((v, n)) => r == Some((v, n as usize)),
            None => r is None,
        },
{
    let mut o = octets::Octets::with_slice(s);
    match o.get_varint() {
        Ok(v) => Some((v, o.off())),
        Err(_) => None,
    }
}

/// `octets::Octets::get_u8` at the start of `s`.
#[verifier::external_body]
pub(crate) fn decode_u8(s: &[u8]) -> (r: Option<u8>)
    ensures
        match spec_be_decode(s@, 1) {
            Some(v) => r == Some(v as u8),
            None => r is None,
        },
{
    octets::Octets::with_slice(s).get_u8().ok()
}

/// `octets::Octets::get_u16` at the start of `s` (big-endian).
#[verifier::external_body]
pub(crate) fn decode_u16(s: &[u8]) -> (r: Option<u16>)
    ensures
        match spec_be_decode(s@, 2) {
            Some(v) => r == Some(v as u16),
            None => r is None,
        },
{
    octets::Octets::with_slice(s).get_u16().ok()
}

/// `octets::Octets::get_u32` at the start of `s` (big-endian).
#[verifier::external_body]
pub(crate) fn decode_u32(s: &[u8]) -> (r: Option<u32>)
    ensures
        match spec_be_decode(s@, 4) {
            Some(v) => r == Some(v as u32),
            None => r is None,
        },
{
    octets::Octets::with_slice(s).get_u32().ok()
}

/// `octets::Octets::get_u64` at the start of `s` (big-endian).
#[verifier::external_body]
pub(crate) fn decode_u64(s: &[u8]) -> (r: Option<u64>)
    ensures
        match spec_be_decode(s@, 8) {
            Some(v) => r == Some(v as u64),
            None => r is None,
        },
{
    octets::Octets::with_slice(s).get_u64().ok()
}

/// `octets::OctetsMut::put_u16` into a two-byte buffer: `v` big-endian.
#[verifier::external_body]
pub(crate) fn encode_u16(v: u16) -> (out: Vec<u8>)
    ensures
        out@ == be_bytes(v as nat, 2),
{
    let mut out = vec![0u8; 2];
    let _ = octets::OctetsMut::with_slice(&mut out).put_u16(v);
    out
}

} // verus!
