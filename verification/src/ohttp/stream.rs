//! Sealed content as a stream of chunks, and its opening.
//!
//! Non-chunked content is sealed whole: the initial chunk, the ciphertext,
//! then the tag. Chunked content (RFC 9458 chunked extension) is sealed
//! chunk by chunk: each non-empty chunk becomes its sealed length, its
//! ciphertext and its tag; the end of the content becomes a zero length
//! and the tag of an empty final chunk, sealed with the associated data
//! `"final"`.
use vstd::prelude::*;
use crate::error::{Error, Invalid};
use crate::ohttp::crypto::aead_lengths_ok;
use crate::ohttp::response::{spec_aead_open, spec_aead_seal, AeadContext};
use crate::stream_buf::{int_need, lemma_unbounded_no_trip, IntWidth, StreamBuf};
use crate::varint::{encode_varint, lemma_varint_decode_bound, spec_varint_decode, spec_varint_encode, MAX_VAR_INT};

verus! {

/// The associated data of the final chunk.
pub open spec fn final_label() -> Seq<u8> {
    seq![102u8, 105u8, 110u8, 97u8, 108u8]
}

/// The final chunk of a chunked message is sealed and opened with the
/// associated data "final", the five bytes 0x66 0x69 0x6e 0x61 0x6c, which
/// differs from the empty associated data of every other chunk: a final
/// chunk is never taken for an ordinary one, nor an ordinary one for it.
pub proof fn law_final_chunk_associated_data()
    ensures
        final_label() == seq![0x66u8, 0x69u8, 0x6eu8, 0x61u8, 0x6cu8],
        final_label() != Seq::<u8>::empty(),
{
    assert(final_label() =~= seq![0x66u8, 0x69u8, 0x6eu8, 0x61u8, 0x6cu8]);
    assert(final_label().len() == 5);
}

/// Where a sealing stream stands.
pub enum EncapState {
    /// The content is sealed whole.
    NonChunked,
    /// The next chunk of content is to be read.
    ChunkLen,
    /// The tag of the last sealed chunk is to be sent.
    Tag(Vec<u8>),
    Done,
}

/// The next chunk that the input yields, if any.
pub open spec fn spec_next_input_chunk(sb: StreamBuf) -> Option<Seq<u8>> {
    if sb.buffered().len() > 0 {
        Some(sb.buffered())
    } else if sb.pending().len() > 0 {
        Some(sb.pending()[0])
    } else {
        None
    }
}

/// A stream that seals the content of `stream_buf`.
pub struct Encapsulated {
    state: EncapState,
    sealer: AeadContext,
    chunk: Option<Vec<u8>>,
    stream_buf: StreamBuf,
}

impl Encapsulated {
    pub closed spec fn wf(&self) -> bool {
        self.sealer.wf() && self.stream_buf.wf()
    }

    pub closed spec fn state(&self) -> EncapState {
        self.state
    }

    pub closed spec fn sealer(&self) -> AeadContext {
        self.sealer
    }

    /// The chunk to send next, before anything else.
    pub closed spec fn chunk(&self) -> Option<Seq<u8>> {
        match self.chunk {
            Some(c) => Some(c@),
            None => None,
        }
    }

    pub closed spec fn input(&self) -> StreamBuf {
        self.stream_buf
    }

    /// Seals the content of `stream_buf` whole, after `initial_chunk`.
    pub fn non_chunked(sealer: AeadContext, initial_chunk: Vec<u8>, stream_buf: StreamBuf) -> (e: Self)
        requires
            sealer.wf(),
            stream_buf.wf(),
        ensures
            e.wf(),
            e.state() is NonChunked,
            e.sealer() == sealer,
            e.chunk() == Some(initial_chunk@),
            e.input() == stream_buf,
    {
        Encapsulated { state: EncapState::NonChunked, sealer, chunk: Some(initial_chunk), stream_buf }
    }

    /// Seals the content of `stream_buf` chunk by chunk, after
    /// `initial_chunk`.
    pub fn chunked(sealer: AeadContext, initial_chunk: Vec<u8>, stream_buf: StreamBuf) -> (e: Self)
        requires
            sealer.wf(),
            stream_buf.wf(),
        ensures
            e.wf(),
            e.state() is ChunkLen,
            e.sealer() == sealer,
            e.chunk() == Some(initial_chunk@),
            e.input() == stream_buf,
    {
        Encapsulated { state: EncapState::ChunkLen, sealer, chunk: Some(initial_chunk), stream_buf }
    }

    /// The next chunk of the sealed stream, or `None` at its end.
    pub fn next_chunk(&mut self) -> (r: Option<Result<Vec<u8>, Error>>)
        requires
            old(self).wf(),
        ensures
            final(self).wf(),
            final(self).sealer().aead() == old(self).sealer().aead(),
            final(self).sealer().key() == old(self).sealer().key(),
            final(self).sealer().initial_nonce() == old(self).sealer().initial_nonce(),
            old(self).chunk() matches Some(c) ==> (r matches Some(Ok(x)) && x@ == c) && final(self).chunk() is None
                && final(self).state() == old(self).state() && final(self).sealer() == old(self).sealer()
                && final(self).input() == old(self).input(),
            old(self).chunk() is None && old(self).state() is Done ==> r is None,
            old(self).chunk() is None ==> (old(self).state() matches EncapState::Tag(t) ==> (r matches Some(Ok(x))
                && x@ == t@ && final(self).state() is ChunkLen && final(self).chunk() is None)),
            old(self).chunk() is None && old(self).state() is NonChunked ==> ({
                let d = old(self).input().data();
                let nonce = old(self).sealer().next_nonce();
                &&& r matches Some(Ok(ct)) ==> old(self).input().end_error() is None && final(self).state() is Done
                    && (final(self).chunk() matches Some(tag) && spec_aead_seal(old(self).sealer().aead(),
                    old(self).sealer().key(), nonce, Seq::empty(), d) == Some((ct@, tag)))
                &&& old(self).input().end_error() is None && aead_lengths_ok(Seq::empty(), d)
                    && old(self).sealer().count() + 1 < crate::varint::pow256(12) ==> r matches Some(Ok(_))
            }),
            old(self).chunk() is None && old(self).state() is ChunkLen ==> ({
                let nonce = old(self).sealer().next_nonce();
                match spec_next_input_chunk(old(self).input()) {
                    None => r matches Some(Ok(x)) ==> x@ == spec_varint_encode(0) && final(self).state() is Done
                        && old(self).input().end_error() is None
                        && (final(self).chunk() matches Some(tag) && spec_aead_seal(old(self).sealer().aead(),
                        old(self).sealer().key(), nonce, final_label(), Seq::empty()) == Some((Seq::<u8>::empty(), tag))),
                    Some(c) => if c.len() == 0 {
                        r matches Some(Ok(x)) && x@ == c && final(self).state() is ChunkLen
                    } else {
                        r matches Some(Ok(x)) ==> x@ == spec_varint_encode((c.len() + 16) as u64)
                            && (final(self).state() matches EncapState::Tag(t)
                            && (final(self).chunk() matches Some(ct) && spec_aead_seal(
                            old(self).sealer().aead(), old(self).sealer().key(), nonce, Seq::empty(), c)
                            == Some((ct, t@))))
                    },
                }
            }),
            old(self).chunk() is None && old(self).state() is ChunkLen && old(self).sealer().count() + 1
                < crate::varint::pow256(12) ==> match spec_next_input_chunk(old(self).input()) {
                None => old(self).input().end_error() is None ==> (r matches Some(Ok(x)) && x@ == spec_varint_encode(0)),
                Some(c) => aead_lengths_ok(Seq::empty(), c) ==> (r matches Some(Ok(x)) && x@ == if c.len() == 0 {
                    c
                } else {
                    spec_varint_encode((c.len() + 16) as u64)
                }),
            },
    {
        if let Some(c) = self.chunk.take() {
            return Some(Ok(c));
        }
        let mut st = EncapState::Done;
        std::mem::swap(&mut st, &mut self.state);
        match st {
            EncapState::Done => None,
            EncapState::Tag(t) => {
                self.state = EncapState::ChunkLen;
                Some(Ok(t))
            },
            EncapState::NonChunked => {
                self.state = EncapState::NonChunked;
                let content = match self.stream_buf.read_to_end() {
                    Ok(c) => c,
                    Err(e) => return Some(Err(e)),
                };
                let no_aad: Vec<u8> = Vec::new();
                let (ct, tag) = match self.sealer.seal(content, no_aad.as_slice()) {
                    Ok(x) => x,
                    Err(e) => return Some(Err(e)),
                };
                self.chunk = Some(tag);
                self.state = EncapState::Done;
                Some(Ok(ct))
            },
            EncapState::ChunkLen => {
                self.state = EncapState::ChunkLen;
                let ghost sb0 = self.stream_buf;
                proof {
                    if sb0.buffered().len() == 0 && sb0.pending().len() > 0 {
                        crate::stream_buf::lemma_flatten_first(sb0.pending());
                    }
                }
                match self.stream_buf.next_chunk() {
                    None => {
                        let final_aad = vec![102u8, 105u8, 110u8, 97u8, 108u8];
                        assert(final_aad@ =~= final_label());
                        let (ct, tag) = match self.sealer.seal(Vec::new(), final_aad.as_slice()) {
                            Ok(x) => x,
                            Err(e) => return Some(Err(e)),
                        };
                        assert(ct@ =~= Seq::<u8>::empty());
                        self.chunk = Some(tag);
                        self.state = EncapState::Done;
                        Some(Ok(encode_varint(0)))
                    },
                    Some(Err(e)) => Some(Err(e)),
                    Some(Ok(chunk)) => {
                        if chunk.len() == 0 {
                            return Some(Ok(chunk));
                        }
                        let ghost c = chunk@;
                        let no_aad: Vec<u8> = Vec::new();
                        let (ct, tag) = match self.sealer.seal(chunk, no_aad.as_slice()) {
                            Ok(x) => x,
                            Err(e) => return Some(Err(e)),
                        };
                        if ct.len() as u64 > MAX_VAR_INT - 16 {
                            return Some(Err(Error::InvalidData(Invalid::Seal)));
                        }
                        let len = encode_varint(ct.len() as u64 + 16);
                        self.chunk = Some(ct);
                        self.state = EncapState::Tag(tag);
                        Some(Ok(len))
                    },
                }
            },
        }
    }
}

/// Where an opening stream stands.
pub enum DecapState {
    /// The length of the next sealed chunk is to be read.
    ChunkLen,
    /// A sealed chunk of this length is to be read; `None` for the final
    /// chunk, which runs to the end of the input.
    Chunk(Option<usize>),
    Done,
}

/// A stream that opens the sealed chunks of `stream_buf`.
pub struct Decapsulated {
    state: DecapState,
    opener: AeadContext,
    stream_buf: StreamBuf,
}

impl Decapsulated {
    pub closed spec fn wf(&self) -> bool {
        &&& self.opener.wf()
        &&& self.stream_buf.wf()
        &&& (self.state matches DecapState::Chunk(Some(l)) ==> l > 0)
    }

    pub closed spec fn state(&self) -> DecapState {
        self.state
    }

    pub closed spec fn opener(&self) -> AeadContext {
        self.opener
    }

    pub closed spec fn input(&self) -> StreamBuf {
        self.stream_buf
    }

    pub fn new(opener: AeadContext, stream_buf: StreamBuf) -> (d: Self)
        requires
            opener.wf(),
            stream_buf.wf(),
        ensures
            d.wf(),
            d.state() is ChunkLen,
            d.opener() == opener,
            d.input() == stream_buf,
    {
        Decapsulated { state: DecapState::ChunkLen, opener, stream_buf }
    }

    /// The next opened chunk, or `None` after the final one.
    pub fn next_chunk(&mut self) -> (r: Option<Result<Vec<u8>, Error>>)
        requires
            old(self).wf(),
        ensures
            final(self).wf(),
            final(self).opener().aead() == old(self).opener().aead(),
            final(self).opener().key() == old(self).opener().key(),
            final(self).opener().initial_nonce() == old(self).opener().initial_nonce(),
            r is None <==> old(self).state() is Done,
            old(self).state() is ChunkLen ==> ({
                let d = old(self).input().data();
                let o = old(self).opener();
                &&& r matches Some(Ok(pt)) ==> (spec_varint_decode(d) matches Some((l, n)) && if l == 0 {
                    old(self).input().end_error() is None && final(self).state() is Done
                        && spec_aead_open(o.aead(), o.key(), o.next_nonce(), final_label(), d.skip(n as int)) == Some(pt@)
                } else {
                    n + l <= d.len() && final(self).state() is ChunkLen
                        && final(self).input().data() == d.skip(n + l)
                        && spec_aead_open(o.aead(), o.key(), o.next_nonce(), Seq::empty(), d.subrange(n as int, n + l))
                        == Some(pt@)
                })
                &&& old(self).input().clean() && o.count() + 1 < crate::varint::pow256(12) ==> (
                    spec_varint_decode(d) matches Some((l, n)) && l <= usize::MAX && (if l == 0 {
                        spec_aead_open(o.aead(), o.key(), o.next_nonce(), final_label(), d.skip(n as int)) is Some
                    } else {
                        n + l <= d.len() && spec_aead_open(o.aead(), o.key(), o.next_nonce(), Seq::empty(),
                            d.subrange(n as int, n + l)) is Some
                    }) ==> r matches Some(Ok(_)))
            }),
            old(self).state() matches DecapState::Chunk(Some(len)) ==> ({
                let d = old(self).input().data();
                let o = old(self).opener();
                r matches Some(Ok(pt)) ==> len <= d.len() && final(self).state() is ChunkLen
                    && final(self).input().data() == d.skip(len as int)
                    && spec_aead_open(o.aead(), o.key(), o.next_nonce(), Seq::empty(), d.take(len as int)) == Some(pt@)
            }),
            old(self).state() matches DecapState::Chunk(None) ==> ({
                let d = old(self).input().data();
                let o = old(self).opener();
                r matches Some(Ok(pt)) ==> old(self).input().end_error() is None && final(self).state() is Done
                    && spec_aead_open(o.aead(), o.key(), o.next_nonce(), final_label(), d) == Some(pt@)
            }),
    {
        let ghost d0 = self.stream_buf.data();
        let ghost st0 = self.stream_buf;
        if let DecapState::Done = self.state {
            return None;
        }
        if let DecapState::ChunkLen = self.state {
            let len = match self.stream_buf.decode_varint_usize() {
                Ok(l) => l,
                Err(e) => return Some(Err(e)),
            };
            proof {
                lemma_varint_decode_bound(d0);
                if st0.clean() {
                    self.stream_buf.lemma_follows_clean(&st0);
                    let n = int_need(IntWidth::Varint, d0);
                    if len > 0 {
                        lemma_unbounded_no_trip(self.stream_buf.buffered().len(), self.stream_buf.pending(),
                            self.stream_buf.limit(), len as int);
                    }
                }
            }
            self.state = if len == 0 {
                DecapState::Chunk(None)
            } else {
                DecapState::Chunk(Some(len))
            };
        }
        let ghost d1 = self.stream_buf.data();
        let final_chunk = match self.state {
            DecapState::Chunk(None) => true,
            _ => false,
        };
        let (chunk, aad) = if final_chunk {
            let c = match self.stream_buf.read_to_end() {
                Ok(c) => c,
                Err(e) => return Some(Err(e)),
            };
            self.state = DecapState::Done;
            (c, vec![102u8, 105u8, 110u8, 97u8, 108u8])
        } else {
            let len = match self.state {
                DecapState::Chunk(Some(l)) => l,
                _ => 0,
            };
            let c = match self.stream_buf.read_exact(len) {
                Ok(c) => c,
                Err(e) => return Some(Err(e)),
            };
            self.state = DecapState::ChunkLen;
            proof {
                let n = int_need(IntWidth::Varint, d0);
                if old(self).state() is ChunkLen {
                    assert(d0.skip(n as int).take(len as int) =~= d0.subrange(n as int, n + len));
                    assert(d0.skip(n as int).skip(len as int) =~= d0.skip(n + len));
                }
            }
            (c, Vec::new())
        };
        proof {
            assert(final_chunk ==> aad@ =~= final_label());
            assert(!final_chunk ==> aad@ =~= Seq::<u8>::empty());
        }
        match self.opener.open(chunk, aad.as_slice()) {
            Ok(p) => Some(Ok(p)),
            Err(e) => Some(Err(e)),
        }
    }
}

/// The stream that seals a response.
pub type EncapsulatedResponseStream = Encapsulated;

/// The stream that opens a chunked response.
pub type DecapsulatedResponseStream = Decapsulated;

} // verus!
