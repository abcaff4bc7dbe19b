//! Chunked requests (the chunked extension of RFC 9458): the framing of
//! the chunks, as two state machines.
//!
//! The HPKE context that seals or opens the chunks, one after another at
//! increasing sequence numbers, is held by the caller: each machine says
//! which plaintext to seal or which sealed chunk to open, with which
//! associated data, and the caller hands back what its context gave. Each
//! non-empty chunk of content becomes its sealed length, its ciphertext and
//! its tag; the end of the content becomes a zero length and the sealing
//! of an empty final chunk with the associated data `"final"`.
use vstd::prelude::*;
use crate::error::{Error, Invalid};
use crate::ohttp::stream::{final_label, spec_next_input_chunk};
use crate::stream_buf::{int_need, lemma_unbounded_no_trip, IntWidth, StreamBuf};
use crate::varint::{
    encode_varint, lemma_varint_decode_bound, lemma_varint_encode_len, lemma_varint_roundtrip, spec_varint_decode,
    spec_varint_encode, MAX_VAR_INT,
};

verus! {

/// What the sealing machine asks for next.
pub enum SealStep {
    /// Bytes of the encapsulated request, to be sent as they are.
    Output(Vec<u8>),
    /// Seal the plaintext with the associated data at the next sequence
    /// number of the request's HPKE sender context, and hand the ciphertext
    /// and tag to `sealed`.
    Seal(Vec<u8>, Vec<u8>),
    /// The encapsulated request is complete.
    Done,
    /// The content could not be read.
    Failed(Error),
}

/// Where the sealing machine stands.
pub enum SealerState {
    /// The header and encapsulated key are to be sent.
    Initial(Vec<u8>),
    /// The next chunk of content is to be read.
    Read,
    /// A chunk of content is being sealed.
    AwaitChunk,
    /// The empty final chunk is being sealed.
    AwaitFinal,
    Done,
}

/// The sealing of a chunked request.
pub struct ChunkedRequestSealer {
    state: SealerState,
    stream_buf: StreamBuf,
}

impl ChunkedRequestSealer {
    pub closed spec fn state(&self) -> SealerState {
        self.state
    }

    pub closed spec fn input(&self) -> StreamBuf {
        self.stream_buf
    }

    pub open spec fn wf(&self) -> bool {
        self.input().wf()
    }

    /// A machine that first sends `initial_chunk`, then seals the content
    /// of `stream_buf` chunk by chunk.
    pub fn new(initial_chunk: Vec<u8>, stream_buf: StreamBuf) -> (s: Self)
        requires
            stream_buf.wf(),
        ensures
            s.wf(),
            s.input() == stream_buf,
            s.state() matches SealerState::Initial(c) && c@ == initial_chunk@,
    {
        ChunkedRequestSealer { state: SealerState::Initial(initial_chunk), stream_buf }
    }

    /// The next step; not while a seal is awaited.
    pub fn step(&mut self) -> (r: SealStep)
        requires
            old(self).wf(),
            !(old(self).state() is AwaitChunk),
            !(old(self).state() is AwaitFinal),
        ensures
            final(self).wf(),
            old(self).state() matches SealerState::Initial(c) ==> (r matches SealStep::Output(x) && x@ == c@)
                && final(self).state() is Read && final(self).input() == old(self).input(),
            old(self).state() is Done ==> r is Done && final(self).state() is Done,
            old(self).state() is Read ==> match spec_next_input_chunk(old(self).input()) {
                None => match old(self).input().end_error() {
                    Some(e) => r == SealStep::Failed(e) && final(self).state() is Done,
                    None => (r matches SealStep::Seal(p, aad) && p@.len() == 0 && aad@ == final_label())
                        && final(self).state() is AwaitFinal,
                },
                Some(c) => if c.len() == 0 {
                    (r matches SealStep::Output(x) && x@.len() == 0) && final(self).state() is Read
                } else {
                    (r matches SealStep::Seal(p, aad) && p@ == c && aad@.len() == 0) && final(self).state() is AwaitChunk
                },
            },
            old(self).state() is Read ==> (spec_next_input_chunk(old(self).input()) matches Some(c)
                ==> final(self).input().data() == old(self).input().data().skip(c.len() as int)),
    {
        let mut st = SealerState::Done;
        std::mem::swap(&mut st, &mut self.state);
        match st {
            SealerState::Initial(c) => {
                self.state = SealerState::Read;
                SealStep::Output(c)
            },
            SealerState::Done => SealStep::Done,
            SealerState::Read => {
                let ghost sb0 = self.stream_buf;
                proof {
                    if sb0.buffered().len() == 0 && sb0.pending().len() > 0 {
                        crate::stream_buf::lemma_flatten_first(sb0.pending());
                    }
                }
                match self.stream_buf.next_chunk() {
                    None => {
                        let final_aad = vec![102u8, 105u8, 110u8, 97u8, 108u8];
                        assert(final_aad@ =~= final_label());
                        self.state = SealerState::AwaitFinal;
                        SealStep::Seal(Vec::new(), final_aad)
                    },
                    Some(Err(e)) => SealStep::Failed(e),
                    Some(Ok(chunk)) => {
                        if chunk.len() == 0 {
                            self.state = SealerState::Read;
                            SealStep::Output(chunk)
                        } else {
                            self.state = SealerState::AwaitChunk;
                            SealStep::Seal(chunk, Vec::new())
                        }
                    },
                }
            },
            SealerState::AwaitChunk => SealStep::Done,
            SealerState::AwaitFinal => SealStep::Done,
        }
    }

    /// Takes the ciphertext and tag of the awaited seal and gives the bytes
    /// to send: the sealed length (ciphertext and tag), the ciphertext and
    /// the tag of a chunk of content; a zero length, then the ciphertext
    /// and tag, for the final chunk. A sealed length beyond the variable-
    /// length integers is refused.
    pub fn sealed(&mut self, ct: Vec<u8>, tag: Vec<u8>) -> (r: Result<Vec<u8>, Error>)
        requires
            old(self).wf(),
            old(self).state() is AwaitChunk || old(self).state() is AwaitFinal,
        ensures
            final(self).wf(),
            final(self).input() == old(self).input(),
            old(self).state() is AwaitFinal ==> (r matches Ok(x) && x@ == spec_varint_encode(0) + ct@ + tag@)
                && final(self).state() is Done,
            old(self).state() is AwaitChunk ==> if ct@.len() + tag@.len() <= MAX_VAR_INT {
                (r matches Ok(x) && x@ == spec_varint_encode((ct@.len() + tag@.len()) as u64) + ct@ + tag@)
                    && final(self).state() is Read
            } else {
                r == Err::<Vec<u8>, Error>(Error::InvalidData(Invalid::Seal)) && final(self).state() is Done
            },
    {
        let final_chunk = match self.state {
            SealerState::AwaitFinal => true,
            _ => false,
        };
        let len: u64 = if final_chunk {
            0
        } else {
            if ct.len() as u64 > MAX_VAR_INT || tag.len() as u64 > MAX_VAR_INT - ct.len() as u64 {
                self.state = SealerState::Done;
                return Err(Error::InvalidData(Invalid::Seal));
            }
            ct.len() as u64 + tag.len() as u64
        };
        let mut out = encode_varint(len);
        let ghost o = out@;
        let mut c = ct;
        out.append(&mut c);
        let mut t = tag;
        out.append(&mut t);
        self.state = if final_chunk {
            SealerState::Done
        } else {
            SealerState::Read
        };
        Ok(out)
    }
}

/// What the opening machine asks for next.
pub enum OpenStep {
    /// Open the sealed chunk (ciphertext then tag) with the associated data
    /// at the next sequence number of the request's HPKE receiver context,
    /// and hand the outcome to `opened`.
    Open(Vec<u8>, Vec<u8>),
    /// The request is complete.
    Done,
    /// The input could not be read as sealed chunks.
    Failed(Error),
}

/// Where the opening machine stands.
pub enum OpenerState {
    /// The length of the next sealed chunk is to be read.
    ChunkLen,
    /// A chunk of content is being opened.
    AwaitChunk,
    /// The final chunk is being opened.
    AwaitFinal,
    Done,
}

/// The opening of a chunked request.
pub struct ChunkedRequestOpener {
    state: OpenerState,
    stream_buf: StreamBuf,
}

impl ChunkedRequestOpener {
    pub closed spec fn state(&self) -> OpenerState {
        self.state
    }

    pub closed spec fn input(&self) -> StreamBuf {
        self.stream_buf
    }

    pub open spec fn wf(&self) -> bool {
        self.input().wf()
    }

    /// A machine that opens the sealed chunks of `stream_buf`.
    pub fn new(stream_buf: StreamBuf) -> (o: Self)
        requires
            stream_buf.wf(),
        ensures
            o.wf(),
            o.input() == stream_buf,
            o.state() is ChunkLen,
    {
        ChunkedRequestOpener { state: OpenerState::ChunkLen, stream_buf }
    }

    /// The next step; not while an opening is awaited. A chunk is its
    /// sealed length, then that many bytes; a zero length starts the final
    /// chunk, which runs to the end of the input.
    pub fn step(&mut self) -> (r: OpenStep)
        requires
            old(self).wf(),
            !(old(self).state() is AwaitChunk),
            !(old(self).state() is AwaitFinal),
        ensures
            final(self).wf(),
            old(self).state() is Done ==> r is Done && final(self).state() is Done,
            r is Done ==> old(self).state() is Done,
            old(self).state() is ChunkLen ==> ({
                let d = old(self).input().data();
                &&& r matches OpenStep::Open(c, aad) ==> (spec_varint_decode(d) matches Some((l, n)) && if l == 0 {
                    c@ == d.skip(n as int) && aad@ == final_label() && final(self).state() is AwaitFinal
                        && old(self).input().end_error() is None
                } else {
                    n + l <= d.len() && c@ == d.subrange(n as int, n + l) && aad@.len() == 0
                        && final(self).state() is AwaitChunk && final(self).input().data() == d.skip(n + l)
                })
                &&& r matches OpenStep::Failed(_) ==> final(self).state() is Done
                &&& old(self).input().clean() && (spec_varint_decode(d) matches Some((l, n)) && l <= usize::MAX && (
                    l == 0 || n + l <= d.len())) ==> r is Open
            }),
    {
        let ghost d0 = self.stream_buf.data();
        let ghost st0 = self.stream_buf;
        let mut st = OpenerState::Done;
        std::mem::swap(&mut st, &mut self.state);
        match st {
            OpenerState::ChunkLen => {},
            _ => return OpenStep::Done,
        }
        let len = match self.stream_buf.decode_varint_usize() {
            Ok(l) => l,
            Err(e) => return OpenStep::Failed(e),
        };
        proof {
            lemma_varint_decode_bound(d0);
            if st0.clean() {
                self.stream_buf.lemma_follows_clean(&st0);
                if len > 0 {
                    lemma_unbounded_no_trip(self.stream_buf.buffered().len(), self.stream_buf.pending(),
                        self.stream_buf.limit(), len as int);
                }
            }
        }
        if len == 0 {
            let c = match self.stream_buf.read_to_end() {
                Ok(c) => c,
                Err(e) => return OpenStep::Failed(e),
            };
            let final_aad = vec![102u8, 105u8, 110u8, 97u8, 108u8];
            assert(final_aad@ =~= final_label());
            self.state = OpenerState::AwaitFinal;
            OpenStep::Open(c, final_aad)
        } else {
            let c = match self.stream_buf.read_exact(len) {
                Ok(c) => c,
                Err(e) => return OpenStep::Failed(e),
            };
            proof {
                let n = int_need(IntWidth::Varint, d0);
                assert(d0.skip(n as int).take(len as int) =~= d0.subrange(n as int, n + len));
                assert(d0.skip(n as int).skip(len as int) =~= d0.skip(n + len));
            }
            self.state = OpenerState::AwaitChunk;
            OpenStep::Open(c, Vec::new())
        }
    }

    /// Takes the outcome of the awaited opening: the plaintext, or the
    /// refusal of a chunk that does not open.
    pub fn opened(&mut self, outcome: Option<Vec<u8>>) -> (r: Result<Vec<u8>, Error>)
        requires
            old(self).wf(),
            old(self).state() is AwaitChunk || old(self).state() is AwaitFinal,
        ensures
            final(self).wf(),
            final(self).input() == old(self).input(),
            match outcome {
                Some(p) => r matches Ok(x) && x@ == p@,
                None => r == Err::<Vec<u8>, Error>(Error::InvalidData(Invalid::OpenChunk)),
            },
            final(self).state() == (if old(self).state() is AwaitChunk && outcome is Some {
                OpenerState::ChunkLen
            } else {
                OpenerState::Done
            }),
    {
        let more = match self.state {
            OpenerState::AwaitChunk => true,
            _ => false,
        };
        match outcome {
            Some(p) => {
                self.state = if more {
                    OpenerState::ChunkLen
                } else {
                    OpenerState::Done
                };
                Ok(p)
            },
            None => {
                self.state = OpenerState::Done;
                Err(Error::InvalidData(Invalid::OpenChunk))
            },
        }
    }
}

/// What the sealing machine writes, the opening machine reads back: a
/// frame for a sealed chunk of content (its length, then the ciphertext
/// and tag `x`) is read as a length whose bytes are exactly `x`, with the
/// rest of the input after it; a final frame (a zero length, then `x`) is
/// read as a zero length followed by `x`, to the end of the input. So the
/// opener asks for the same sealed chunks, in the same order and with the
/// same associated data, as the sealer's caller produced.
pub proof fn law_chunk_frames_roundtrip(x: Seq<u8>, rest: Seq<u8>)
    requires
        x.len() <= MAX_VAR_INT,
    ensures
        ({
            let d = spec_varint_encode(x.len() as u64) + x + rest;
            spec_varint_decode(d) matches Some((l, n)) && l == x.len() && n + l <= d.len() && d.subrange(
                n as int,
                n + l,
            ) == x && d.skip(n + l) == rest
        }),
        ({
            let f = spec_varint_encode(0) + x;
            spec_varint_decode(f) matches Some((l, n)) && l == 0 && f.skip(n as int) == x
        }),
{
    let e = spec_varint_encode(x.len() as u64);
    lemma_varint_roundtrip(x.len() as u64, x + rest);
    lemma_varint_encode_len(x.len() as u64);
    let d = e + x + rest;
    assert(d =~= e + (x + rest));
    let n = e.len() as int;
    assert(d.subrange(n, n + x.len()) =~= x);
    assert(d.skip(n + x.len()) =~= rest);
    let z = spec_varint_encode(0);
    lemma_varint_roundtrip(0, x);
    lemma_varint_encode_len(0);
    assert((z + x).skip(z.len() as int) =~= x);
}

} // verus!
