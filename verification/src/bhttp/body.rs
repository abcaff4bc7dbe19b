//! The content of a decoded message, read frame by frame.
use vstd::prelude::*;
use crate::bhttp::{spec_body_content, spec_content_chunks, spec_known_length, BodyKind};
use crate::error::Error;
use crate::stream_buf::{int_need, IntWidth, StreamBuf};
use crate::varint::{lemma_varint_decode_bound, spec_varint_decode};

verus! {

/// The content of a message, read from the rest of its input.
pub struct DecodedBody {
    kind: BodyKind,
    stream_buf: StreamBuf,
}

/// Whether no more content can come in state `k`.
pub open spec fn spec_kind_done(k: BodyKind) -> bool {
    match k {
        BodyKind::KnownLength { remaining } => remaining == 0,
        BodyKind::IndeterminateLength { remaining_in_current_chunk } => remaining_in_current_chunk is None,
    }
}

/// `a` followed by the content `o`, if any.
pub open spec fn prepend(a: Seq<u8>, o: Option<Seq<u8>>) -> Option<Seq<u8>> {
    match o {
        Some(x) => Some(a + x),
        None => None,
    }
}

/// The content left in state `k` after `b` more bytes were read.
pub open spec fn kind_after(k: BodyKind, b: u64) -> BodyKind {
    match k {
        BodyKind::KnownLength { remaining } => BodyKind::KnownLength { remaining: (remaining - b) as u64 },
        BodyKind::IndeterminateLength { remaining_in_current_chunk } => BodyKind::IndeterminateLength {
            remaining_in_current_chunk: Some((remaining_in_current_chunk.unwrap() - b) as u64),
        },
    }
}

pub open spec fn kind_remaining(k: BodyKind) -> u64 {
    match k {
        BodyKind::KnownLength { remaining } => remaining,
        BodyKind::IndeterminateLength { remaining_in_current_chunk } => match remaining_in_current_chunk {
            Some(r) => r,
            None => 0,
        },
    }
}

/// Reading `b` bytes of the current run of content.
proof fn lemma_content_step(k: BodyKind, d: Seq<u8>, b: u64)
    requires
        kind_remaining(k) > 0,
        b <= kind_remaining(k),
        b <= d.len(),
        !(k matches BodyKind::IndeterminateLength { remaining_in_current_chunk: None }),
    ensures
        spec_body_content(k, d) == prepend(d.take(b as int), spec_body_content(kind_after(k, b), d.skip(b as int))),
{
    let r = kind_remaining(k);
    let d3 = d.skip(b as int);
    match k {
        BodyKind::KnownLength { remaining } => {
            if r <= d.len() {
                assert(d.take(b as int) + d3.take(r - b) =~= d.take(r as int));
            }
        },
        BodyKind::IndeterminateLength { .. } => {
            if r <= d.len() {
                assert(d3.skip(r - b) =~= d.skip(r as int));
                if r - b == 0 {
                    assert(d.take(b as int) =~= d.take(r as int));
                } else {
                    assert(d.take(b as int) + d3.take(r - b) =~= d.take(r as int));
                    match spec_content_chunks(d.skip(r as int)) {
                        Some(rest) => {
                            assert(d.take(b as int) + (d3.take(r - b) + rest) =~= d.take(r as int) + rest);
                        },
                        None => {},
                    }
                }
            }
        },
    }
}

/// Reading the length of the next chunk of indeterminate-length content.
proof fn lemma_content_chunk_start(d: Seq<u8>, next: u64, n: nat)
    requires
        spec_varint_decode(d) == Some((next, n)),
        next > 0,
    ensures
        spec_content_chunks(d) == spec_body_content(
            BodyKind::IndeterminateLength { remaining_in_current_chunk: Some(next) },
            d.skip(n as int),
        ),
{
    lemma_varint_decode_bound(d);
    let d2 = d.skip(n as int);
    if n + next <= d.len() {
        assert(d2.take(next as int) =~= d.subrange(n as int, n + next));
        assert(d2.skip(next as int) =~= d.skip(n + next));
    }
}

impl DecodedBody {
    pub closed spec fn kind(&self) -> BodyKind {
        self.kind
    }

    pub closed spec fn input(&self) -> StreamBuf {
        self.stream_buf
    }

    pub open spec fn wf(&self) -> bool {
        self.input().wf()
    }

    /// The content this body still yields, per the grammar.
    pub open spec fn content(&self) -> Option<Seq<u8>> {
        spec_body_content(self.kind(), self.input().data())
    }

    /// A measure that every frame decreases.
    pub open spec fn measure(&self) -> nat {
        self.input().data().len() + self.input().pending().len() + if self.kind() matches BodyKind::IndeterminateLength {
            remaining_in_current_chunk: Some(_),
        } {
            1nat
        } else {
            0nat
        }
    }

    /// Known-length content: its length (zero when the input is over),
    /// then the content.
    pub fn known_length(stream_buf: StreamBuf) -> (r: Result<Self, Error>)
        requires
            stream_buf.wf(),
        ensures
            r matches Ok(b) ==> b.wf() && (spec_known_length(stream_buf.data()) matches Some((len, n))
                && b.kind() == (BodyKind::KnownLength { remaining: len })
                && b.input().data() == stream_buf.data().skip(n as int)
                && b.input().follows(&stream_buf)),
            stream_buf.clean() ==> (r is Ok <==> spec_known_length(stream_buf.data()) is Some),
            stream_buf.clean() ==> (r matches Ok(b) ==> b.input().clean()),
            stream_buf.clean() ==> (r matches Err(e) ==> e == Error::FillBufEof),
            stream_buf.quiet() && spec_known_length(stream_buf.data()) is Some ==> r is Ok || r == Err::<Self, Error>(
                Error::MaxBufSize,
            ),
    {
        let mut stream_buf = stream_buf;
        let ghost st0 = stream_buf;
        let ghost mut st1 = stream_buf;
        let more = stream_buf.has_more_data()?;
        proof {
            st1 = stream_buf;
            if st0.quiet() {
                st0.lemma_dense_nonempty();
            }
        }
        let remaining = if more {
            match stream_buf.decode_int(IntWidth::Varint) {
                Ok(v) => v,
                Err(e) => {
                    proof {
                        if st0.clean() {
                            st1.lemma_follows_clean(&st0);
                            crate::stream_buf::lemma_unbounded_no_trip(st1.buffered().len(), st1.pending(), st1.limit(),
                                int_need(IntWidth::Varint, st1.data()) as int);
                        }
                        crate::stream_buf::lemma_varint_need(st1.data());
                    }
                    return Err(e);
                },
            }
        } else {
            0
        };
        proof {
            if more {
                if st0.clean() {
                    st1.lemma_follows_clean(&st0);
                    crate::stream_buf::lemma_unbounded_no_trip(st1.buffered().len(), st1.pending(), st1.limit(),
                        int_need(IntWidth::Varint, st1.data()) as int);
                }
                stream_buf.lemma_follows_trans(&st1, &st0);
                if spec_varint_decode(st0.data()) is Some {
                    lemma_varint_decode_bound(st0.data());
                }
            } else {
                assert(stream_buf.data().skip(0) =~= stream_buf.data());
            }
            if st0.clean() {
                stream_buf.lemma_follows_clean(&st0);
            }
        }
        Ok(DecodedBody { kind: BodyKind::KnownLength { remaining }, stream_buf })
    }

    /// Indeterminate-length content: chunks, each length-prefixed, up to a
    /// zero length or the end of the input.
    pub fn indeterminate_length(stream_buf: StreamBuf) -> (b: Self)
        requires
            stream_buf.wf(),
        ensures
            b.wf(),
            b.kind() == (BodyKind::IndeterminateLength { remaining_in_current_chunk: Some(0) }),
            b.input() == stream_buf,
    {
        DecodedBody { kind: BodyKind::IndeterminateLength { remaining_in_current_chunk: Some(0) }, stream_buf }
    }

    /// The state of the content.
    pub fn body_kind(&self) -> (k: BodyKind)
        ensures
            k == self.kind(),
    {
        self.kind
    }

    /// Whether no more content will come.
    pub fn is_end_stream(&self) -> (done: bool)
        ensures
            done == spec_kind_done(self.kind()),
    {
        match self.kind {
            BodyKind::KnownLength { remaining } => remaining == 0,
            BodyKind::IndeterminateLength { remaining_in_current_chunk } => remaining_in_current_chunk.is_none(),
        }
    }

    /// Bounds on the length of the content still to come: exact for
    /// known-length content, unknown otherwise.
    pub fn size_hint(&self) -> (h: (u64, Option<u64>))
        ensures
            h == match self.kind() {
                BodyKind::KnownLength { remaining } => (remaining, Some(remaining)),
                BodyKind::IndeterminateLength { .. } => (0u64, None::<u64>),
            },
    {
        match self.kind {
            BodyKind::KnownLength { remaining } => (remaining, Some(remaining)),
            BodyKind::IndeterminateLength { .. } => (0, None),
        }
    }

    /// The next frame of content, or `None` at its end.
    pub fn next_frame(&mut self) -> (r: Option<Result<Vec<u8>, Error>>)
        requires
            old(self).wf(),
        ensures
            final(self).wf(),
            r is None ==> old(self).content() == Some(Seq::<u8>::empty()) && spec_kind_done(final(self).kind()),
            r matches Some(Ok(b)) ==> old(self).content() == prepend(b@, final(self).content())
                && final(self).measure() < old(self).measure()
                && final(self).input().follows(&old(self).input()),
            old(self).input().clean() && old(self).content() is Some ==> !(r matches Some(Err(_))),
            old(self).input().clean() && (r matches Some(Ok(_))) ==> final(self).input().clean(),
            old(self).input().clean() ==> (r matches Some(Err(e)) ==> e == Error::FillBufEof),
            spec_kind_done(old(self).kind()) ==> r is None,
    {
        let ghost st0 = self.stream_buf;
        let ghost k0 = self.kind;
        let remaining: u64 = match self.kind {
            BodyKind::KnownLength { remaining } => {
                if remaining == 0 {
                    proof {
                        assert(st0.data().take(0) =~= Seq::<u8>::empty());
                    }
                    return None;
                }
                remaining
            },
            BodyKind::IndeterminateLength { remaining_in_current_chunk } => match remaining_in_current_chunk {
                None => return None,
                Some(r) => {
                    if r == 0 {
                        let more = match self.stream_buf.has_more_data() {
                            Ok(m) => m,
                            Err(e) => return Some(Err(e)),
                        };
                        let ghost st1 = self.stream_buf;
                        proof {
                            if st0.clean() {
                                st0.lemma_dense_nonempty();
                            }
                        }
                        let next = if !more {
                            0
                        } else {
                            match self.stream_buf.decode_int(IntWidth::Varint) {
                                Ok(v) => v,
                                Err(e) => {
                                    proof {
                                        if st0.clean() {
                                            st1.lemma_follows_clean(&st0);
                                            crate::stream_buf::lemma_unbounded_no_trip(st1.buffered().len(),
                                                st1.pending(), st1.limit(), int_need(IntWidth::Varint, st1.data()) as int);
                                        }
                                    }
                                    return Some(Err(e));
                                },
                            }
                        };
                        proof {
                            if more {
                                self.stream_buf.lemma_follows_trans(&st1, &st0);
                                lemma_varint_decode_bound(st0.data());
                            }
                        }
                        assert(self.stream_buf.follows(&st0));
                        if next == 0 {
                            self.kind = BodyKind::IndeterminateLength { remaining_in_current_chunk: None };
                            return None;
                        }
                        self.kind = BodyKind::IndeterminateLength { remaining_in_current_chunk: Some(next) };
                        proof {
                            if st0.clean() {
                                self.stream_buf.lemma_follows_clean(&st0);
                            }
                            let n = spec_varint_decode(st0.data()).unwrap().1;
                            assert(self.stream_buf.data() == st0.data().skip(n as int));
                            lemma_content_chunk_start(st0.data(), next, n);
                        }
                        next
                    } else {
                        r
                    }
                },
            },
        };
        let ghost st2 = self.stream_buf;
        let ghost k2 = self.kind;
        proof {
            if st2 == st0 {
                st0.lemma_follows_refl();
            }
        }
        let want: usize = if remaining > usize::MAX as u64 { usize::MAX } else { remaining as usize };
        let bytes = match self.stream_buf.read_at_most(want) {
            Ok(b) => b,
            Err(e) => {
                proof {
                    if st0.clean() {
                        st2.lemma_follows_clean(&st0);
                        st2.lemma_dense_nonempty();
                    }
                }
                return Some(Err(e));
            },
        };
        let n = bytes.len() as u64;
        let left = remaining - n;
        self.kind = match self.kind {
            BodyKind::KnownLength { .. } => BodyKind::KnownLength { remaining: left },
            BodyKind::IndeterminateLength { .. } => BodyKind::IndeterminateLength { remaining_in_current_chunk: Some(left) },
        };
        proof {
            self.stream_buf.lemma_follows_trans(&st2, &st0);
            if st0.clean() {
                self.stream_buf.lemma_follows_clean(&st0);
            }
            assert(self.kind == kind_after(k2, n));
            lemma_content_step(k2, st2.data(), n);
        }
        Some(Ok(bytes))
    }

    /// All the content that is left.
    pub fn collect(self) -> (r: Result<Vec<u8>, Error>)
        requires
            self.wf(),
        ensures
            r matches Ok(b) ==> self.content() == Some(b@),
            self.input().clean() ==> (r is Ok <==> self.content() is Some),
            self.input().clean() ==> (r matches Err(e) ==> e == Error::FillBufEof),
    {
        let mut body = self;
        let mut out: Vec<u8> = Vec::new();
        loop
            invariant
                body.wf(),
                self.content() == prepend(out@, body.content()),
                self.input().clean() ==> body.input().clean(),
            decreases body.measure(),
        {
            match body.next_frame() {
                None => {
                    proof {
                        assert(out@ + Seq::<u8>::empty() =~= out@);
                    }
                    return Ok(out);
                },
                Some(Err(e)) => {
                    return Err(e);
                },
                Some(Ok(b)) => {
                    let ghost o = out@;
                    let ghost bb = b@;
                    let mut b = b;
                    out.append(&mut b);
                    proof {
                        match body.content() {
                            Some(x) => {
                                assert(o + (bb + x) =~= out@ + x);
                            },
                            None => {},
                        }
                    }
                },
            }
        }
    }
}

} // verus!
