//! A byte buffer in front of a source of chunks, with bounded buffering.
//!
//! The source is the sequence of chunks an input stream yields, optionally
//! ending with an error. Reads take bytes from the buffer and pull more
//! chunks as they need them; before pulling, a read that still lacks bytes
//! refuses to go on once the buffer is larger than `max_buf_size`.
//!
//! The contracts speak of `data()`: the buffered bytes followed by those of
//! every chunk not pulled yet, i.e. what the reader still has to read.
use vstd::prelude::*;
use crate::error::{Error, ErrorKind};
use crate::varint::{
    be_value, decode_u16, decode_u32, decode_u64, decode_u8, decode_varint, lemma_be_value_bound, pow256,
    spec_varint_decode, spec_varint_parse_len,
};

verus! {

broadcast use vstd::seq_lib::group_seq_properties;

/// Default limit of the buffer (10 MiB).
pub const DEFAULT_MAX_BUF_SIZE: usize = 10485760;

/// Bytes of the chunks `p[0..j]`, counted from a buffer of `b` bytes.
pub open spec fn acc_len(b: nat, p: Seq<Seq<u8>>, j: int) -> int {
    (b + p.take(j).flatten().len()) as int
}

/// Whether a read that needs `k` bytes, from a buffer of `b` bytes with the
/// chunks `p` still to pull, meets the limit: at some point where it still
/// lacks bytes, the buffer holds more than `limit` bytes.
pub open spec fn trips_limit(b: nat, p: Seq<Seq<u8>>, limit: nat, k: int) -> bool {
    exists|j: int| 0 <= j <= p.len() && #[trigger] acc_len(b, p, j) < k && acc_len(b, p, j) > limit
}

/// The views of a sequence of chunks.
pub open spec fn chunk_views(v: Seq<Vec<u8>>) -> Seq<Seq<u8>> {
    Seq::new(v.len(), |i: int| v[i]@)
}

/// `a` is what is left of `b` once some of its first items are dropped.
pub open spec fn is_suffix(a: Seq<Seq<u8>>, b: Seq<Seq<u8>>) -> bool {
    a.len() <= b.len() && a == b.skip(b.len() - a.len())
}

/// No chunk is empty.
pub open spec fn dense(p: Seq<Seq<u8>>) -> bool {
    forall|i: int| 0 <= i < p.len() ==> (#[trigger] p[i]).len() > 0
}

/// The width of an integer read by `decode_int`.
#[derive(Clone, Copy, PartialEq, Eq, Debug)]
pub enum IntWidth {
    U8,
    U16,
    U32,
    U64,
    /// A QUIC variable-length integer.
    Varint,
}

/// Bytes that an integer of width `w` takes at the start of `data`.
pub open spec fn int_need(w: IntWidth, data: Seq<u8>) -> nat {
    match w {
        IntWidth::U8 => 1,
        IntWidth::U16 => 2,
        IntWidth::U32 => 4,
        IntWidth::U64 => 8,
        IntWidth::Varint => if data.len() == 0 { 1 } else { spec_varint_parse_len(data[0]) },
    }
}

/// The integer of width `w` at the start of `data` (when `data` holds it).
pub open spec fn int_value(w: IntWidth, data: Seq<u8>) -> u64 {
    match w {
        IntWidth::Varint => spec_varint_decode(data).unwrap().0,
        _ => be_value(data.take(int_need(w, data) as int)) as u64,
    }
}

pub struct StreamBuf {
    max_buf_size: usize,
    buf: Vec<u8>,
    source: Vec<Vec<u8>>,
    next: usize,
    source_error: Option<Error>,
}

impl StreamBuf {
    pub closed spec fn wf(&self) -> bool {
        &&& self.next <= self.source.len()
        &&& (self.source_error is None || self.source_error matches Some(Error::Source(_)))
    }

    /// The bytes read from the source and not consumed yet.
    pub closed spec fn buffered(&self) -> Seq<u8> {
        self.buf@
    }

    /// The chunks not pulled from the source yet.
    pub closed spec fn pending(&self) -> Seq<Seq<u8>> {
        chunk_views(self.source@).skip(self.next as int)
    }

    /// The error the source reports once its chunks are exhausted.
    pub closed spec fn end_error(&self) -> Option<Error> {
        self.source_error
    }

    /// The buffer limit.
    pub closed spec fn limit(&self) -> nat {
        self.max_buf_size as nat
    }

    /// Everything still to be read.
    pub open spec fn data(&self) -> Seq<u8> {
        self.buffered() + self.pending().flatten()
    }

    pub open spec fn trips(&self, k: int) -> bool {
        trips_limit(self.buffered().len(), self.pending(), self.limit(), k)
    }

    /// The limit can never be reached: all that is left fits in it.
    pub open spec fn unbounded(&self) -> bool {
        self.data().len() <= self.limit()
    }

    /// A buffer whose reads fail only on malformed or missing input: the
    /// limit cannot be reached, the source reports no error, and no chunk
    /// still to come is empty.
    pub open spec fn clean(&self) -> bool {
        &&& self.unbounded()
        &&& self.end_error() is None
        &&& dense(self.pending())
    }

    /// A buffer whose source reports no error and has no empty chunk still
    /// to come: its reads fail only on malformed or missing input, or on
    /// its limit.
    pub open spec fn quiet(&self) -> bool {
        &&& self.end_error() is None
        &&& dense(self.pending())
    }

    /// `self` is a later state of the reader `old`: it kept its limit and
    /// source error, pulled some chunks, and has read some bytes.
    pub open spec fn follows(&self, old: &Self) -> bool {
        &&& self.limit() == old.limit()
        &&& self.end_error() == old.end_error()
        &&& is_suffix(self.pending(), old.pending())
        &&& self.data().len() <= old.data().len()
    }

    /// Later states of a clean reader are clean.
    pub proof fn lemma_follows_clean(&self, old: &Self)
        requires
            old.clean(),
            self.follows(old),
        ensures
            self.clean(),
    {
        let a = self.pending();
        let b = old.pending();
        assert forall|i: int| 0 <= i < a.len() implies (#[trigger] a[i]).len() > 0 by {
            assert(a[i] == b[i + b.len() - a.len()]);
        }
    }

    /// Later states of a quiet reader are quiet.
    pub proof fn lemma_follows_quiet(&self, old: &Self)
        requires
            old.quiet(),
            self.follows(old),
        ensures
            self.quiet(),
    {
        let a = self.pending();
        let b = old.pending();
        assert forall|i: int| 0 <= i < a.len() implies (#[trigger] a[i]).len() > 0 by {
            assert(a[i] == b[i + b.len() - a.len()]);
        }
    }

    /// Following is transitive.
    pub proof fn lemma_follows_trans(&self, mid: &Self, old: &Self)
        requires
            self.follows(mid),
            mid.follows(old),
        ensures
            self.follows(old),
    {
        let a = self.pending();
        let b = mid.pending();
        let c = old.pending();
        assert(a =~= c.skip(c.len() - a.len()));
    }

    /// Every state follows itself.
    pub proof fn lemma_follows_refl(&self)
        ensures
            self.follows(self),
    {
        assert(self.pending() =~= self.pending().skip(0));
    }

    /// With no empty chunk to come, there is something to read exactly when
    /// bytes are buffered or a chunk is still to come.
    pub proof fn lemma_dense_nonempty(&self)
        requires
            dense(self.pending()),
        ensures
            (self.buffered().len() > 0 || self.pending().len() > 0) <==> self.data().len() > 0,
    {
        if self.pending().len() > 0 {
            lemma_flatten_first(self.pending());
        } else {
            assert(self.pending().flatten() =~= Seq::<u8>::empty());
        }
    }

    /// A buffer over the chunks of `source`, with the default limit.
    pub fn new(source: Vec<Vec<u8>>) -> (s: Self)
        ensures
            s.wf(),
            s.buffered() == Seq::<u8>::empty(),
            s.pending() == chunk_views(source@),
            s.end_error() is None,
            s.limit() == DEFAULT_MAX_BUF_SIZE,
    {
        let s = StreamBuf {
            max_buf_size: DEFAULT_MAX_BUF_SIZE,
            buf: Vec::new(),
            source,
            next: 0,
            source_error: None,
        };
        assert(s.pending() =~= chunk_views(source@));
        s
    }

    /// The same buffer, whose source reports an error of kind `kind` after
    /// its last chunk.
    pub fn with_source_error(self, kind: crate::error::ErrorKind) -> (s: Self)
        requires
            self.wf(),
        ensures
            s.wf(),
            s.buffered() == self.buffered(),
            s.pending() == self.pending(),
            s.end_error() == Some(Error::Source(kind)),
            s.limit() == self.limit(),
    {
        StreamBuf { source_error: Some(Error::Source(kind)), ..self }
    }

    /// A buffer holding `bytes`, with no further source, whose limit is the
    /// length of `bytes`.
    pub fn from_bytes(bytes: Vec<u8>) -> (s: Self)
        ensures
            s.wf(),
            s.buffered() == bytes@,
            s.pending() == Seq::<Seq<u8>>::empty(),
            s.end_error() is None,
            s.limit() == bytes@.len(),
            s.data() == bytes@,
            s.unbounded(),
    {
        let n = bytes.len();
        let s = StreamBuf { max_buf_size: n, buf: bytes, source: Vec::new(), next: 0, source_error: None };
        assert(s.pending() =~= Seq::<Seq<u8>>::empty());
        assert(s.data() =~= bytes@);
        s
    }

    /// Sets the limit of the buffer.
    pub fn max_buf_size(self, max_buf_size: usize) -> (s: Self)
        requires
            self.wf(),
        ensures
            s.wf(),
            s.buffered() == self.buffered(),
            s.pending() == self.pending(),
            s.end_error() == self.end_error(),
            s.limit() == max_buf_size,
    {
        StreamBuf { max_buf_size, ..self }
    }

    /// Number of buffered bytes.
    pub fn remaining(&self) -> (n: usize)
        ensures
            n == self.buffered().len(),
    {
        self.buf.len()
    }

    /// The buffered bytes.
    pub fn chunk(&self) -> (c: &[u8])
        ensures
            c@ == self.buffered(),
    {
        self.buf.as_slice()
    }

    /// Drops `cnt` buffered bytes.
    pub fn advance(&mut self, cnt: usize)
        requires
            old(self).wf(),
            cnt <= old(self).buffered().len(),
        ensures
            final(self).wf(),
            final(self).buffered() == old(self).buffered().skip(cnt as int),
            final(self).pending() == old(self).pending(),
            final(self).end_error() == old(self).end_error(),
            final(self).limit() == old(self).limit(),
    {
        let tail = self.buf.split_off(cnt);
        self.buf = tail;
    }

    /// Takes the next item of the source.
    fn pull(&mut self) -> (r: Option<Result<Vec<u8>, Error>>)
        requires
            old(self).wf(),
        ensures
            final(self).wf(),
            final(self).buffered() == old(self).buffered(),
            final(self).limit() == old(self).limit(),
            is_suffix(final(self).pending(), old(self).pending()),
            old(self).pending().len() > 0 ==> {
                &&& r matches Some(Ok(c)) && c@ == old(self).pending()[0]
                &&& final(self).pending() == old(self).pending().drop_first()
                &&& final(self).end_error() == old(self).end_error()
            },
            old(self).pending().len() == 0 ==> {
                &&& final(self).pending() == old(self).pending()
                &&& final(self).end_error() is None
                &&& match old(self).end_error() {
                    Some(e) => r == Some(Err::<Vec<u8>, Error>(e)),
                    None => r is None,
                }
            },
    {
        proof {
            lemma_suffix_refl(self.pending());
            if self.pending().len() > 0 {
                lemma_suffix_drop_first(self.pending(), self.pending());
            }
        }
        if self.next < self.source.len() {
            let c = self.source[self.next].clone();
            assert(c@ =~= self.source@[self.next as int]@);
            self.next = self.next + 1;
            assert(self.pending() =~= old(self).pending().drop_first());
            Some(Ok(c))
        } else {
            match self.source_error.take() {
                Some(e) => Some(Err(e)),
                None => None,
            }
        }
    }

    fn check_max_buf_size(&self) -> (r: Result<(), Error>)
        ensures
            r is Ok <==> self.buffered().len() <= self.limit(),
            r matches Err(e) ==> e == Error::MaxBufSize,
    {
        if self.buf.len() > self.max_buf_size {
            return Err(Error::MaxBufSize);
        }
        Ok(())
    }

    fn append(&mut self, more_data: Vec<u8>)
        requires
            old(self).wf(),
        ensures
            final(self).wf(),
            final(self).buffered() == old(self).buffered() + more_data@,
            final(self).pending() == old(self).pending(),
            final(self).end_error() == old(self).end_error(),
            final(self).limit() == old(self).limit(),
    {
        let mut more_data = more_data;
        self.buf.append(&mut more_data);
    }

    /// Reads exactly `len` bytes.
    pub fn read_exact(&mut self, len: usize) -> (r: Result<Vec<u8>, Error>)
        requires
            old(self).wf(),
        ensures
            final(self).wf(),
            final(self).limit() == old(self).limit(),
            r is Ok <==> !old(self).trips(len as int) && old(self).data().len() >= len,
            r is Ok ==> final(self).follows(old(self)),
            r matches Ok(b) ==> {
                &&& b@ == old(self).data().take(len as int)
                &&& final(self).data() == old(self).data().skip(len as int)
                &&& final(self).end_error() == old(self).end_error()
            },
            r matches Err(e) ==> {
                &&& final(self).data() == old(self).data()
                &&& if old(self).trips(len as int) {
                    e == Error::MaxBufSize
                } else {
                    match old(self).end_error() {
                        Some(x) => e == x,
                        None => e == Error::ReadExactEof,
                    }
                }
            },
    {
        let ghost d0 = self.data();
        let ghost t0 = self.trips(len as int);
        loop
            invariant
                self.wf(),
                self.limit() == old(self).limit(),
                self.data() == d0,
                self.end_error() == old(self).end_error(),
                self.trips(len as int) == t0,
                d0 == old(self).data(),
                t0 == old(self).trips(len as int),
                is_suffix(self.pending(), old(self).pending()),
            decreases self.pending().len(),
        {
            if self.buf.len() >= len {
                proof {
                    lemma_no_trip_when_filled(self.buffered().len(), self.pending(), self.limit(), len as int);
                    assert(self.buffered().take(len as int) =~= d0.take(len as int));
                }
                let mut out = self.buf.split_off(len);
                std::mem::swap(&mut self.buf, &mut out);
                proof {
                    assert(self.data() =~= d0.skip(len as int));
                }
                return Ok(out);
            }
            match self.check_max_buf_size() {
                Err(e) => {
                    proof {
                        assert(acc_len(self.buffered().len(), self.pending(), 0) == self.buffered().len()) by {
                            assert(self.pending().take(0) =~= Seq::<Seq<u8>>::empty());
                        }
                    }
                    return Err(e);
                },
                Ok(()) => {},
            }
            let missing_len = len - self.buf.len();
            let ghost b0 = self.buffered();
            let ghost p0 = self.pending();
            let item = self.pull();
            proof {
                lemma_suffix_trans(self.pending(), p0, old(self).pending());
            }
            match item {
                None => {
                    proof {
                        assert(p0.flatten() =~= Seq::<u8>::empty());
                        lemma_no_trip_at_end(b0.len(), p0, self.limit(), len as int);
                    }
                    return Err(Error::ReadExactEof);
                },
                Some(Err(e)) => {
                    proof {
                        assert(p0.flatten() =~= Seq::<u8>::empty());
                        lemma_no_trip_at_end(b0.len(), p0, self.limit(), len as int);
                    }
                    return Err(e);
                },
                Some(Ok(more_data)) => {
                    proof {
                        lemma_flatten_first(p0);
                        lemma_trip_shift(b0.len(), p0, self.limit(), len as int);
                    }
                    if more_data.len() >= missing_len {
                        let mut head = more_data;
                        let tail = head.split_off(missing_len);
                        self.buf.append(&mut head);
                        let mut out = tail;
                        std::mem::swap(&mut self.buf, &mut out);
                        proof {
                            lemma_no_trip_when_filled(b0.len() + p0[0].len(), p0.drop_first(), self.limit(), len as int);
                            lemma_trip_shift(b0.len(), p0, self.limit(), len as int);
                            assert(out@ =~= d0.take(len as int));
                            assert(self.data() =~= d0.skip(len as int));
                        }
                        return Ok(out);
                    }
                    self.append(more_data);
                    proof {
                        assert(self.data() =~= d0);
                    }
                },
            }
        }
    }

    /// Reads everything left.
    pub fn read_to_end(&mut self) -> (r: Result<Vec<u8>, Error>)
        requires
            old(self).wf(),
        ensures
            final(self).wf(),
            final(self).limit() == old(self).limit(),
            final(self).end_error() is None,
            match old(self).end_error() {
                None => r matches Ok(b) && b@ == old(self).data() && final(self).data() == Seq::<u8>::empty(),
                Some(e) => r == Err::<Vec<u8>, Error>(e) && final(self).data() == old(self).data(),
            },
    {
        let ghost d0 = self.data();
        loop
            invariant
                self.wf(),
                self.limit() == old(self).limit(),
                self.data() == d0,
                self.end_error() == old(self).end_error(),
                d0 == old(self).data(),
                is_suffix(self.pending(), old(self).pending()),
            decreases self.pending().len(),
        {
            let ghost p0 = self.pending();
            let ghost b0 = self.buffered();
            let item = self.pull();
            proof {
                lemma_suffix_trans(self.pending(), p0, old(self).pending());
            }
            match item {
                Some(Ok(more_data)) => {
                    proof {
                        lemma_flatten_first(p0);
                    }
                    self.append(more_data);
                    proof {
                        assert(self.data() =~= d0);
                    }
                },
                Some(Err(e)) => {
                    proof {
                        assert(p0.flatten() =~= Seq::<u8>::empty());
                        assert(self.data() =~= d0);
                    }
                    return Err(e);
                },
                None => {
                    let mut out = Vec::new();
                    std::mem::swap(&mut self.buf, &mut out);
                    proof {
                        assert(p0.flatten() =~= Seq::<u8>::empty());
                        assert(out@ =~= d0);
                        assert(self.data() =~= Seq::<u8>::empty());
                    }
                    return Ok(out);
                },
            }
        }
    }

    /// Whether there is more to read: `true` when bytes are buffered or a
    /// chunk (possibly empty) is still to come; the next chunk, if pulled,
    /// is buffered.
    pub fn has_more_data(&mut self) -> (r: Result<bool, Error>)
        requires
            old(self).wf(),
        ensures
            final(self).wf(),
            final(self).limit() == old(self).limit(),
            final(self).data() == old(self).data(),
            r == (if old(self).buffered().len() > 0 || old(self).pending().len() > 0 {
                Ok::<bool, Error>(true)
            } else {
                match old(self).end_error() {
                    Some(e) => Err(e),
                    None => Ok(false),
                }
            }),
            old(self).buffered().len() > 0 || old(self).pending().len() > 0 ==> final(self).end_error() == old(self).end_error(),
            r is Ok ==> final(self).follows(old(self)),
            r == Ok::<bool, Error>(false) ==> old(self).data().len() == 0,
            old(self).buffered().len() > 0 ==> final(self).buffered() == old(self).buffered() && final(self).pending()
                == old(self).pending(),
            old(self).buffered().len() == 0 && old(self).pending().len() > 0 ==> final(self).buffered()
                == old(self).pending()[0] && final(self).pending() == old(self).pending().drop_first(),
            old(self).buffered().len() == 0 && old(self).pending().len() == 0 ==> final(self).buffered().len() == 0
                && final(self).pending().len() == 0,
            final(self).end_error() is None ==> old(self).end_error() is None || !(old(self).buffered().len() > 0 || old(self).pending().len() > 0),
    {
        if self.buf.len() > 0 {
            return Ok(true);
        }
        let ghost p0 = self.pending();
        match self.pull() {
            Some(Ok(more_data)) => {
                proof {
                    lemma_flatten_first(p0);
                }
                self.buf = more_data;
                proof {
                    assert(self.data() =~= old(self).data());
                }
                Ok(true)
            },
            Some(Err(e)) => {
                proof {
                    assert(p0.flatten() =~= Seq::<u8>::empty());
                    assert(self.data() =~= old(self).data());
                }
                Err(e)
            },
            None => {
                proof {
                    assert(p0.flatten() =~= Seq::<u8>::empty());
                    assert(self.data() =~= old(self).data());
                }
                Ok(false)
            },
        }
    }

    /// Pulls one more chunk into the buffer, unless the buffer is already
    /// larger than the limit.
    pub fn fill_buf(&mut self) -> (r: Result<(), Error>)
        requires
            old(self).wf(),
        ensures
            final(self).wf(),
            final(self).limit() == old(self).limit(),
            final(self).data() == old(self).data(),
            r is Ok <==> old(self).buffered().len() <= old(self).limit() && old(self).pending().len() > 0,
            r is Ok ==> final(self).follows(old(self)),
            r is Ok ==> final(self).buffered() == old(self).buffered() + old(self).pending()[0]
                && final(self).pending() == old(self).pending().drop_first()
                && final(self).end_error() == old(self).end_error(),
            r matches Err(e) ==> if old(self).buffered().len() > old(self).limit() {
                e == Error::MaxBufSize && final(self).end_error() == old(self).end_error()
            } else {
                match old(self).end_error() {
                    Some(x) => e == x,
                    None => e == Error::FillBufEof,
                }
            },
    {
        self.check_max_buf_size()?;
        let ghost p0 = self.pending();
        match self.pull() {
            None => {
                proof {
                    assert(p0.flatten() =~= Seq::<u8>::empty());
                    assert(self.data() =~= old(self).data());
                }
                Err(Error::FillBufEof)
            },
            Some(Err(e)) => {
                proof {
                    assert(p0.flatten() =~= Seq::<u8>::empty());
                    assert(self.data() =~= old(self).data());
                }
                Err(e)
            },
            Some(Ok(more_data)) => {
                proof {
                    lemma_flatten_first(p0);
                }
                self.append(more_data);
                proof {
                    assert(self.data() =~= old(self).data());
                }
                Ok(())
            },
        }
    }

    /// Reads at most `len` bytes: what is buffered, or else what the next
    /// chunk brings.
    pub fn read_at_most(&mut self, len: usize) -> (r: Result<Vec<u8>, Error>)
        requires
            old(self).wf(),
        ensures
            final(self).wf(),
            final(self).limit() == old(self).limit(),
            r is Ok ==> final(self).follows(old(self)),
            r is Ok && len > 0 && old(self).buffered().len() == 0 ==> final(self).pending() == old(self).pending().drop_first(),
            r matches Ok(b) ==> {
                &&& b@.len() <= len
                &&& b@ == old(self).data().take(b@.len() as int)
                &&& final(self).data() == old(self).data().skip(b@.len() as int)
                &&& final(self).end_error() == old(self).end_error()
                &&& (len > 0 && old(self).buffered().len() > 0 ==> b@.len() == if len <= old(self).buffered().len() { len as nat } else { old(self).buffered().len() })
                &&& (len > 0 && old(self).buffered().len() == 0 ==> b@.len() == if len <= old(self).pending()[0].len() { len as nat } else { old(self).pending()[0].len() })
            },
            len == 0 ==> (r matches Ok(b) && b@.len() == 0),
            r is Err <==> len > 0 && old(self).buffered().len() == 0 && old(self).pending().len() == 0,
            r matches Err(e) ==> final(self).data() == old(self).data() && match old(self).end_error() {
                Some(x) => e == x,
                None => e == Error::FillBufEof,
            },
    {
        if len == 0 {
            return Ok(Vec::new());
        }
        if self.buf.len() == 0 {
            self.fill_buf()?;
        }
        let n = if len < self.buf.len() { len } else { self.buf.len() };
        let mut out = self.buf.split_off(n);
        std::mem::swap(&mut self.buf, &mut out);
        proof {
            assert(out@ =~= old(self).data().take(n as int));
            assert(self.data() =~= old(self).data().skip(n as int));
        }
        Ok(out)
    }

    /// The next chunk of input: the buffered bytes if any, else the next
    /// item of the source.
    pub fn next_chunk(&mut self) -> (r: Option<Result<Vec<u8>, Error>>)
        requires
            old(self).wf(),
        ensures
            final(self).wf(),
            final(self).limit() == old(self).limit(),
            old(self).buffered().len() > 0 ==> (r matches Some(Ok(c)) && c@ == old(self).buffered()
                && final(self).buffered().len() == 0 && final(self).pending() == old(self).pending()
                && final(self).end_error() == old(self).end_error()),
            old(self).buffered().len() == 0 && old(self).pending().len() > 0 ==> (r matches Some(Ok(c))
                && c@ == old(self).pending()[0] && final(self).buffered().len() == 0
                && final(self).pending() == old(self).pending().drop_first()
                && final(self).end_error() == old(self).end_error()),
            old(self).buffered().len() == 0 && old(self).pending().len() == 0 ==> final(self).data().len() == 0
                && final(self).end_error() is None && match old(self).end_error() {
                    Some(e) => r == Some(Err::<Vec<u8>, Error>(e)),
                    None => r is None,
                },
            r matches Some(Ok(c)) ==> c@ + final(self).data() == old(self).data(),
    {
        if self.buf.len() > 0 {
            let mut out = Vec::new();
            std::mem::swap(&mut self.buf, &mut out);
            proof {
                assert(out@ + self.data() =~= old(self).data());
            }
            return Some(Ok(out));
        }
        let ghost p0 = self.pending();
        let r = self.pull();
        proof {
            if p0.len() > 0 {
                lemma_flatten_first(p0);
                assert(self.data() =~= p0.drop_first().flatten());
                assert(self.buffered() =~= Seq::<u8>::empty());
            } else {
                assert(p0.flatten() =~= Seq::<u8>::empty());
                assert(self.data() =~= Seq::<u8>::empty());
            }
        }
        r
    }

    /// Reads an integer of width `w`, pulling chunks until the buffer holds
    /// all of its bytes.
    pub fn decode_int(&mut self, w: IntWidth) -> (r: Result<u64, Error>)
        requires
            old(self).wf(),
        ensures
            final(self).wf(),
            final(self).limit() == old(self).limit(),
            r is Ok <==> old(self).data().len() >= int_need(w, old(self).data())
                && !old(self).trips(int_need(w, old(self).data()) as int),
            r is Ok ==> final(self).follows(old(self)),
            r matches Ok(v) ==> {
                let n = int_need(w, old(self).data());
                &&& v == int_value(w, old(self).data())
                &&& final(self).data() == old(self).data().skip(n as int)
                &&& final(self).end_error() == old(self).end_error()
            },
            r matches Err(e) ==> {
                &&& final(self).data() == old(self).data()
                &&& if old(self).trips(int_need(w, old(self).data()) as int) {
                    e == Error::MaxBufSize
                } else {
                    match old(self).end_error() {
                        Some(x) => e == x,
                        None => e == Error::FillBufEof,
                    }
                }
            },
    {
        let ghost d0 = self.data();
        let ghost need = int_need(w, d0) as int;
        let ghost t0 = self.trips(need);
        loop
            invariant
                self.wf(),
                self.limit() == old(self).limit(),
                self.data() == d0,
                self.end_error() == old(self).end_error(),
                self.trips(need) == t0,
                d0 == old(self).data(),
                need == int_need(w, d0),
                t0 == old(self).trips(need),
                need >= 1,
                is_suffix(self.pending(), old(self).pending()),
            decreases self.pending().len(),
        {
            let got = match w {
                IntWidth::U8 => match decode_u8(self.buf.as_slice()) {
                    Some(v) => Some((v as u64, 1usize)),
                    None => None,
                },
                IntWidth::U16 => match decode_u16(self.buf.as_slice()) {
                    Some(v) => Some((v as u64, 2usize)),
                    None => None,
                },
                IntWidth::U32 => match decode_u32(self.buf.as_slice()) {
                    Some(v) => Some((v as u64, 4usize)),
                    None => None,
                },
                IntWidth::U64 => match decode_u64(self.buf.as_slice()) {
                    Some(v) => Some((v, 8usize)),
                    None => None,
                },
                IntWidth::Varint => decode_varint(self.buf.as_slice()),
            };
            proof {
                let b = self.buffered();
                if b.len() > 0 {
                    assert(b[0] == d0[0]);
                }
                assert(got is Some <==> b.len() >= need);
            }
            match got {
                Some((v, n)) => {
                    proof {
                        lemma_no_trip_when_filled(self.buffered().len(), self.pending(), self.limit(), need);
                        let b = self.buffered();
                        assert(b.take(need) =~= d0.take(need));
                        assert(n == need);
                        if w == IntWidth::Varint {
                            assert(b.take(b[0] as int) == b.take(b[0] as int));
                            assert(spec_varint_decode(b) == spec_varint_decode(d0));
                        } else {
                            let bv = be_value(b.take(need));
                            lemma_be_value_bound(b.take(need));
                            lemma_pow_bounds();
                        }
                    }
                    self.advance(n);
                    proof {
                        assert(self.data() =~= d0.skip(need));
                    }
                    return Ok(v);
                },
                None => {},
            }
            let ghost b0 = self.buffered();
            let ghost p0 = self.pending();
            let filled = self.fill_buf();
            proof {
                if filled is Ok {
                    lemma_suffix_trans(self.pending(), p0, old(self).pending());
                }
            }
            match filled {
                Err(e) => {
                    proof {
                        assert(acc_len(b0.len(), p0, 0) == b0.len()) by {
                            assert(p0.take(0) =~= Seq::<Seq<u8>>::empty());
                        }
                        if b0.len() <= self.limit() {
                            assert(p0.flatten() =~= Seq::<u8>::empty());
                            lemma_no_trip_at_end(b0.len(), p0, self.limit(), need);
                        }
                    }
                    return Err(e);
                },
                Ok(()) => {
                    proof {
                        lemma_trip_shift(b0.len(), p0, self.limit(), need);
                    }
                },
            }
        }
    }

    /// Reads a variable-length integer that must fit in `usize`.
    pub fn decode_varint_usize(&mut self) -> (r: Result<usize, Error>)
        requires
            old(self).wf(),
        ensures
            final(self).wf(),
            final(self).limit() == old(self).limit(),
            r is Ok ==> final(self).follows(old(self)),
            r matches Ok(v) ==> {
                let n = int_need(IntWidth::Varint, old(self).data());
                &&& spec_varint_decode(old(self).data()) == Some((v as u64, n))
                &&& final(self).data() == old(self).data().skip(n as int)
                &&& final(self).end_error() == old(self).end_error()
            },
            old(self).unbounded() ==> (r is Ok <==> (spec_varint_decode(old(self).data()) matches Some((v, _)) && v <= usize::MAX)),
            r matches Err(e) ==> e == Error::MaxBufSize ==> !old(self).unbounded(),
            old(self).unbounded() && old(self).end_error() is None ==> (r matches Err(e) ==> (e == Error::FillBufEof
                && spec_varint_decode(old(self).data()) is None) || (spec_varint_decode(old(self).data()) matches Some((v, _))
                && v > usize::MAX)),
            old(self).end_error() is None && (spec_varint_decode(old(self).data()) matches Some((v, _)) && v <= usize::MAX)
                ==> r is Ok || r == Err::<usize, Error>(Error::MaxBufSize),
    {
        proof {
            if self.unbounded() {
                lemma_unbounded_no_trip(self.buffered().len(), self.pending(), self.limit(), int_need(IntWidth::Varint, self.data()) as int);
            }
            lemma_varint_need(self.data());
        }
        let v = self.decode_int(IntWidth::Varint)?;
        if v > usize::MAX as u64 {
            return Err(Error::InvalidData(crate::error::Invalid::VarintTooLarge));
        }
        Ok(v as usize)
    }

    /// Reads a variable-length integer and then that many bytes.
    pub fn read_with_varint_length(&mut self) -> (r: Result<Vec<u8>, Error>)
        requires
            old(self).wf(),
        ensures
            final(self).wf(),
            final(self).limit() == old(self).limit(),
            r is Ok ==> final(self).follows(old(self)),
            r matches Ok(b) ==> {
                &&& spec_prefixed(old(self).data()) matches Some((x, n)) && b@ == x
                    && final(self).data() == old(self).data().skip(n as int)
                &&& final(self).end_error() == old(self).end_error()
            },
            old(self).unbounded() ==> (r is Ok <==> spec_prefixed(old(self).data()) is Some),
            r matches Err(e) ==> e == Error::MaxBufSize ==> !old(self).unbounded(),
            old(self).unbounded() && old(self).end_error() is None ==> (r matches Err(e) ==> e.spec_kind()
                == ErrorKind::UnexpectedEof || forall|t: Seq<u8>| #[trigger] spec_prefixed(old(self).data() + t) is None),
            old(self).end_error() is None && spec_prefixed(old(self).data()) is Some ==> r is Ok || r == Err::<
                Vec<u8>,
                Error,
            >(Error::MaxBufSize),
    {
        let ghost d0 = self.data();
        let ghost ub = self.unbounded();
        let len = match self.decode_varint_usize() {
            Ok(l) => l,
            Err(e) => {
                proof {
                    assert forall|t: Seq<u8>| spec_varint_decode(d0) matches Some((v, _)) && v > usize::MAX
                        implies #[trigger] spec_prefixed(d0 + t) is None by {
                        lemma_prefixed_extend(d0, t);
                    }
                }
                return Err(e);
            },
        };
        let ghost mid = *self;
        proof {
            if ub {
                assert(self.data().len() <= d0.len());
                lemma_unbounded_no_trip(self.buffered().len(), self.pending(), self.limit(), len as int);
            }
        }
        let r = self.read_exact(len);
        proof {
            let n = int_need(IntWidth::Varint, d0);
            if r is Ok {
                self.lemma_follows_trans(&mid, old(self));
                assert(d0.skip(n as int).take(len as int) =~= d0.subrange(n as int, n + len));
                assert(d0.skip(n as int).skip(len as int) =~= d0.skip(n + len));
            }
        }
        r
    }
}

/// A length-prefixed byte string at the start of `s`: the bytes and the
/// length of the whole prefix and string, when `s` holds them.
pub open spec fn spec_prefixed(s: Seq<u8>) -> Option<(Seq<u8>, nat)> {
    match spec_varint_decode(s) {
        Some((l, n)) => if n + l <= s.len() && l <= usize::MAX {
            Some((s.subrange(n as int, n + l), (n + l) as nat))
        } else {
            None
        },
        None => None,
    }
}

/// A variable-length integer that `d` holds whole reads the same with
/// more input after it.
pub proof fn lemma_varint_extend(d: Seq<u8>, t: Seq<u8>)
    ensures
        spec_varint_decode(d) is Some ==> spec_varint_decode(d + t) == spec_varint_decode(d),
{
    if spec_varint_decode(d) is Some {
        let len = spec_varint_parse_len(d[0]);
        assert((d + t)[0] == d[0]);
        assert((d + t).take(len as int) =~= d.take(len as int));
    }
}

/// A length-prefixed string that `d` holds whole reads the same with more
/// input after it; one whose length does not fit in `usize` is refused
/// whatever follows.
pub proof fn lemma_prefixed_extend(d: Seq<u8>, t: Seq<u8>)
    ensures
        spec_prefixed(d) is Some ==> spec_prefixed(d + t) == spec_prefixed(d),
        spec_varint_decode(d) matches Some((l, _)) && l > usize::MAX ==> spec_prefixed(d + t) is None,
{
    lemma_varint_extend(d, t);
    if let Some((l, n)) = spec_varint_decode(d) {
        if n + l <= d.len() {
            assert((d + t).subrange(n as int, n + l) =~= d.subrange(n as int, n + l));
        }
    }
}

/// Skipping into `d` and then appending `t` is appending and then skipping.
pub proof fn lemma_skip_extend(d: Seq<u8>, t: Seq<u8>, n: int)
    requires
        0 <= n <= d.len(),
    ensures
        (d + t).skip(n) == d.skip(n) + t,
{
    assert((d + t).skip(n) =~= d.skip(n) + t);
}

proof fn lemma_pow_bounds()
    ensures
        pow256(1) == 256,
        pow256(2) == 0x1_0000,
        pow256(4) == 0x1_0000_0000,
        pow256(8) == 0x1_0000_0000_0000_0000,
{
    reveal_with_fuel(pow256, 9);
}

pub proof fn lemma_varint_need(d: Seq<u8>)
    ensures
        spec_varint_decode(d) is Some <==> d.len() >= int_need(IntWidth::Varint, d),
        spec_varint_decode(d) matches Some((_, n)) ==> n == int_need(IntWidth::Varint, d),
{
}

pub proof fn lemma_suffix_refl(p: Seq<Seq<u8>>)
    ensures
        is_suffix(p, p),
{
    assert(p =~= p.skip(0));
}

pub proof fn lemma_suffix_trans(a: Seq<Seq<u8>>, b: Seq<Seq<u8>>, c: Seq<Seq<u8>>)
    requires
        is_suffix(a, b),
        is_suffix(b, c),
    ensures
        is_suffix(a, c),
{
    assert(a =~= c.skip(c.len() - a.len()));
}

pub proof fn lemma_suffix_drop_first(a: Seq<Seq<u8>>, b: Seq<Seq<u8>>)
    requires
        is_suffix(a, b),
        a.len() > 0,
    ensures
        is_suffix(a.drop_first(), b),
{
    assert(a.drop_first() =~= b.skip(b.len() - a.len() + 1));
}

/// Flattening a non-empty sequence of chunks.
pub proof fn lemma_flatten_first(p: Seq<Seq<u8>>)
    requires
        p.len() > 0,
    ensures
        p.flatten() == p[0] + p.drop_first().flatten(),
{
}

proof fn lemma_take_flatten_succ(p: Seq<Seq<u8>>, j: int)
    requires
        0 <= j < p.len(),
    ensures
        p.take(j + 1).flatten() == p[0] + p.drop_first().take(j).flatten(),
{
    let t = p.take(j + 1);
    assert(t.drop_first() =~= p.drop_first().take(j));
}

proof fn lemma_acc_monotone(b: nat, p: Seq<Seq<u8>>, i: int, j: int)
    requires
        0 <= i <= j <= p.len(),
    ensures
        acc_len(b, p, i) <= acc_len(b, p, j),
    decreases j - i,
{
    if i < j {
        lemma_acc_monotone(b, p, i, j - 1);
        vstd::seq_lib::lemma_flatten_concat(p.take(j - 1), seq![p[j - 1]]);
        assert(p.take(j) =~= p.take(j - 1) + seq![p[j - 1]]);
        seq![p[j - 1]].lemma_flatten_one_element();
    }
}

proof fn lemma_acc_total(b: nat, p: Seq<Seq<u8>>)
    ensures
        acc_len(b, p, p.len() as int) == b + p.flatten().len(),
{
    assert(p.take(p.len() as int) =~= p);
}

/// Once the buffer holds `k` bytes, no later point lacks bytes.
proof fn lemma_no_trip_when_filled(b: nat, p: Seq<Seq<u8>>, limit: nat, k: int)
    requires
        b >= k,
    ensures
        !trips_limit(b, p, limit, k),
{
    assert forall|j: int| 0 <= j <= p.len() implies !(#[trigger] acc_len(b, p, j) < k) by {
        lemma_acc_monotone(b, p, 0, j);
        assert(p.take(0) =~= Seq::<Seq<u8>>::empty());
    }
}

/// With no chunks left, a buffer within the limit cannot trip.
proof fn lemma_no_trip_at_end(b: nat, p: Seq<Seq<u8>>, limit: nat, k: int)
    requires
        p.len() == 0,
        b <= limit,
    ensures
        !trips_limit(b, p, limit, k),
{
    assert forall|j: int| 0 <= j <= p.len() implies !(#[trigger] acc_len(b, p, j) > limit) by {
        assert(p.take(j) =~= Seq::<Seq<u8>>::empty());
    }
}

/// Moving the first chunk into a buffer within the limit keeps the
/// answer of `trips_limit`.
proof fn lemma_trip_shift(b: nat, p: Seq<Seq<u8>>, limit: nat, k: int)
    requires
        p.len() > 0,
        b <= limit || b >= k,
    ensures
        trips_limit(b, p, limit, k) == trips_limit(b + p[0].len(), p.drop_first(), limit, k),
{
    let q = p.drop_first();
    let b1 = b + p[0].len();
    assert forall|j: int| 0 <= j <= q.len() implies acc_len(b1, q, j) == acc_len(b, p, j + 1) by {
        lemma_take_flatten_succ(p, j);
    }
    assert(acc_len(b, p, 0) == b) by {
        assert(p.take(0) =~= Seq::<Seq<u8>>::empty());
    }
    if trips_limit(b, p, limit, k) {
        let j = choose|j: int| 0 <= j <= p.len() && #[trigger] acc_len(b, p, j) < k && acc_len(b, p, j) > limit;
        assert(j >= 1);
        assert(acc_len(b1, q, j - 1) == acc_len(b, p, j));
    }
    if trips_limit(b1, q, limit, k) {
        let j = choose|j: int| 0 <= j <= q.len() && #[trigger] acc_len(b1, q, j) < k && acc_len(b1, q, j) > limit;
        assert(acc_len(b, p, j + 1) == acc_len(b1, q, j));
    }
}

/// A buffer whose limit covers all that is left never trips.
pub proof fn lemma_unbounded_no_trip(b: nat, p: Seq<Seq<u8>>, limit: nat, k: int)
    requires
        b + p.flatten().len() <= limit,
    ensures
        !trips_limit(b, p, limit, k),
{
    assert forall|j: int| 0 <= j <= p.len() implies !(#[trigger] acc_len(b, p, j) > limit) by {
        lemma_acc_monotone(b, p, j, p.len() as int);
        lemma_acc_total(b, p);
    }
}

} // verus!
