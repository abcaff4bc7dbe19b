//! Encoding of binary HTTP requests and responses.
//!
//! An encoded message is a stream of chunks: first the initial chunk, which
//! holds the framing indicator, the control data and the field section,
//! then one chunk per chunk of content (length-prefixed when the length of
//! the content is not known up front), then, for indeterminate-length
//! content, the content terminator.
use vstd::prelude::*;
use crate::bhttp::{
    fields_view, spec_field_lines_encode, spec_first_host, spec_indeterminate_response_head_encode,
    spec_known_response_head_encode, spec_prefixed_encode, spec_request_head_encode,
    spec_written_authority, Field, FieldV, RequestHead, RequestHeadV, ResponseHead, ResponseHeadV,
};
use crate::bhttp::decode::first_host;
use crate::error::{Error, Invalid};
use crate::stream_buf::{chunk_views, StreamBuf, DEFAULT_MAX_BUF_SIZE};
use crate::varint::{encode_varint, lemma_varint_encode_len, spec_varint_encode, varint_len, MAX_VAR_INT};

verus! {

/// Every name and value of `h` can be length-prefixed.
pub open spec fn fields_fit(h: Seq<FieldV>) -> bool {
    forall|i: int| 0 <= i < h.len() ==> (#[trigger] h[i]).0.len() <= MAX_VAR_INT && h[i].1.len() <= MAX_VAR_INT
}

/// Every part of the request head can be length-prefixed.
pub open spec fn request_fits(r: RequestHeadV) -> bool {
    &&& r.method.len() <= MAX_VAR_INT
    &&& r.scheme.len() <= MAX_VAR_INT
    &&& r.authority.len() <= MAX_VAR_INT
    &&& r.path.len() <= MAX_VAR_INT
    &&& fields_fit(r.headers)
}

/// The field lines of `a` then `b` encode as those of `a`, then those of `b`.
pub proof fn lemma_field_lines_encode_concat(a: Seq<FieldV>, b: Seq<FieldV>)
    ensures
        spec_field_lines_encode(a + b) == spec_field_lines_encode(a) + spec_field_lines_encode(b),
    decreases a.len(),
{
    if a.len() == 0 {
        assert(a + b =~= b);
        assert(Seq::<u8>::empty() + spec_field_lines_encode(b) =~= spec_field_lines_encode(b));
    } else {
        assert((a + b).drop_first() =~= a.drop_first() + b);
        assert((a + b)[0] == a[0]);
        lemma_field_lines_encode_concat(a.drop_first(), b);
    }
}

/// Appends `b`, length-prefixed, to `out`.
fn put_prefixed(out: &mut Vec<u8>, b: &[u8])
    requires
        b@.len() <= MAX_VAR_INT,
    ensures
        final(out)@ == old(out)@ + spec_prefixed_encode(b@),
{
    let mut len = encode_varint(b.len() as u64);
    out.append(&mut len);
    let mut bytes = vstd::slice::slice_to_vec(b);
    out.append(&mut bytes);
    assert(final(out)@ =~= old(out)@ + spec_prefixed_encode(b@));
}

/// Appends the field lines of `headers` to `out`, in order.
fn put_field_lines(out: &mut Vec<u8>, headers: &Vec<Field>)
    requires
        fields_fit(fields_view(headers@)),
    ensures
        final(out)@ == old(out)@ + spec_field_lines_encode(fields_view(headers@)),
{
    let ghost start = out@;
    let mut i: usize = 0;
    proof {
        assert(fields_view(headers@).take(0) =~= Seq::<FieldV>::empty());
        assert(start + Seq::<u8>::empty() =~= start);
    }
    while i < headers.len()
        invariant
            i <= headers@.len(),
            fields_fit(fields_view(headers@)),
            out@ == start + spec_field_lines_encode(fields_view(headers@).take(i as int)),
        decreases headers@.len() - i,
    {
        let ghost h = fields_view(headers@);
        let ghost before = out@;
        assert(h[i as int] == headers@[i as int]@);
        put_prefixed(out, headers[i].name.as_slice());
        put_prefixed(out, headers[i].value.as_slice());
        proof {
            let line = seq![h[i as int]];
            assert(h.take(i + 1) =~= h.take(i as int) + line);
            lemma_field_lines_encode_concat(h.take(i as int), line);
            assert(line.drop_first() =~= Seq::<FieldV>::empty());
            assert(line[0] == h[i as int]);
            assert(spec_field_lines_encode(line.drop_first()) =~= Seq::<u8>::empty());
            assert(spec_field_lines_encode(line) =~= spec_prefixed_encode(h[i as int].0) + spec_prefixed_encode(
                h[i as int].1,
            ));
            assert(out@ =~= start + spec_field_lines_encode(h.take(i + 1)));
        }
        i = i + 1;
    }
    assert(fields_view(headers@).take(i as int) =~= fields_view(headers@));
}

/// Whether two byte strings are equal.
fn bytes_eq(a: &[u8], b: &[u8]) -> (r: bool)
    ensures
        r == (a@ == b@),
{
    if a.len() != b.len() {
        return false;
    }
    let mut i: usize = 0;
    while i < a.len()
        invariant
            a@.len() == b@.len(),
            i <= a@.len(),
            forall|j: int| 0 <= j < i ==> a@[j] == b@[j],
        decreases a@.len() - i,
    {
        if a[i] != b[i] {
            return false;
        }
        i = i + 1;
    }
    assert(a@ =~= b@);
    true
}

/// The initial chunk of an indeterminate-length request: framing indicator
/// 2, control data (the authority left out when the first `host` field
/// holds it), field lines and the field section terminator. A request
/// without a scheme cannot be encoded.
pub fn initial_indeterminate_length_request_chunk(head: &RequestHead) -> (r: Result<Vec<u8>, Error>)
    requires
        request_fits(head@),
    ensures
        head.scheme@.len() == 0 ==> r == Err::<Vec<u8>, Error>(Error::InvalidData(Invalid::NoScheme)),
        head.scheme@.len() != 0 ==> (r matches Ok(b) && b@ == spec_request_head_encode(head@)),
{
    if head.scheme.len() == 0 {
        return Err(Error::InvalidData(Invalid::NoScheme));
    }
    let written: &[u8] = match first_host(&head.headers) {
        Some(host) => if bytes_eq(host.as_slice(), head.authority.as_slice()) {
            &[]
        } else {
            head.authority.as_slice()
        },
        None => head.authority.as_slice(),
    };
    assert(written@ == spec_written_authority(head@));
    let mut out = encode_varint(2);
    put_prefixed(&mut out, head.method.as_slice());
    put_prefixed(&mut out, head.scheme.as_slice());
    put_prefixed(&mut out, written);
    put_prefixed(&mut out, head.path.as_slice());
    put_field_lines(&mut out, &head.headers);
    let mut end = encode_varint(0);
    out.append(&mut end);
    Ok(out)
}

/// The initial chunk of an indeterminate-length response: framing
/// indicator 3, status, field lines and the field section terminator.
pub fn initial_indeterminate_length_response_chunk(head: &ResponseHead) -> (b: Vec<u8>)
    requires
        fields_fit(head@.headers),
    ensures
        b@ == spec_indeterminate_response_head_encode(head@),
{
    let mut out = encode_varint(3);
    let mut status = encode_varint(head.status as u64);
    out.append(&mut status);
    put_field_lines(&mut out, &head.headers);
    let mut end = encode_varint(0);
    out.append(&mut end);
    out
}

/// The initial chunk of a known-length response of `size` content bytes:
/// framing indicator 1, status, the length-prefixed field section and the
/// content length.
pub fn initial_known_length_response_chunk(head: &ResponseHead, size: u64) -> (b: Vec<u8>)
    requires
        fields_fit(head@.headers),
        spec_field_lines_encode(head@.headers).len() <= MAX_VAR_INT,
        size <= MAX_VAR_INT,
    ensures
        b@ == spec_known_response_head_encode(head@, size),
{
    let mut out = encode_varint(1);
    let mut status = encode_varint(head.status as u64);
    out.append(&mut status);
    let mut lines = Vec::new();
    put_field_lines(&mut lines, &head.headers);
    assert(lines@ =~= spec_field_lines_encode(head@.headers));
    put_prefixed(&mut out, lines.as_slice());
    let mut content_length = encode_varint(size);
    out.append(&mut content_length);
    assert(out@ =~= spec_known_response_head_encode(head@, size));
    out
}

/// How the content of an encoded message is framed.
#[derive(Clone, Copy, Debug, PartialEq, Eq)]
pub enum EncodedMessageKind {
    IndeterminateLength,
    KnownLength,
}

/// An item of a stream of chunks, by its bytes.
pub open spec fn item_view(i: Result<Vec<u8>, Error>) -> Result<Seq<u8>, Error> {
    match i {
        Ok(c) => Ok(c@),
        Err(e) => Err(e),
    }
}

pub open spec fn items_view(s: Seq<Result<Vec<u8>, Error>>) -> Seq<Result<Seq<u8>, Error>> {
    Seq::new(s.len(), |i: int| item_view(s[i]))
}

/// Every chunk of content can be length-prefixed.
pub open spec fn body_fits(s: Seq<Result<Seq<u8>, Error>>) -> bool {
    forall|i: int| 0 <= i < s.len() ==> ((#[trigger] s[i]) matches Ok(c) ==> c.len() <= MAX_VAR_INT)
}

/// What an item of content becomes: errors pass through; with
/// indeterminate-length framing a non-empty chunk is length-prefixed (an
/// empty one is passed on as it is).
pub open spec fn spec_encode_item(kind: EncodedMessageKind, i: Result<Seq<u8>, Error>) -> Result<Seq<u8>, Error> {
    match i {
        Err(e) => Err(e),
        Ok(c) => match kind {
            EncodedMessageKind::KnownLength => Ok(c),
            EncodedMessageKind::IndeterminateLength => if c.len() == 0 {
                Ok(c)
            } else {
                Ok(spec_prefixed_encode(c))
            },
        },
    }
}

/// The items of an encoded message: the initial chunk, if still there,
/// the encoded items of content, then, with indeterminate-length framing,
/// the content terminator.
pub open spec fn spec_encoded_items(
    kind: EncodedMessageKind,
    initial: Option<Seq<u8>>,
    body: Seq<Result<Seq<u8>, Error>>,
) -> Seq<Result<Seq<u8>, Error>> {
    let first = match initial {
        Some(c) => seq![Ok::<Seq<u8>, Error>(c)],
        None => Seq::empty(),
    };
    let last = match kind {
        EncodedMessageKind::IndeterminateLength => seq![Ok::<Seq<u8>, Error>(seq![0u8])],
        EncodedMessageKind::KnownLength => Seq::empty(),
    };
    first + Seq::new(body.len(), |i: int| spec_encode_item(kind, body[i])) + last
}

/// An encoded message: a stream of chunks.
pub struct EncodedMessage {
    kind: EncodedMessageKind,
    initial_chunk: Option<Vec<u8>>,
    body: Vec<Result<Vec<u8>, Error>>,
    end_of_content: bool,
}

impl EncodedMessage {
    pub closed spec fn spec_kind(&self) -> EncodedMessageKind {
        self.kind
    }

    pub closed spec fn wf(&self) -> bool {
        body_fits(items_view(self.body@))
    }

    /// The items this message still yields.
    pub closed spec fn output(&self) -> Seq<Result<Seq<u8>, Error>> {
        if self.end_of_content {
            Seq::empty()
        } else {
            spec_encoded_items(self.kind, crate::http_parts::opt_view(self.initial_chunk), items_view(self.body@))
        }
    }

    /// How the content is framed.
    pub fn kind(&self) -> (k: EncodedMessageKind)
        ensures
            k == self.spec_kind(),
    {
        self.kind
    }

    /// The next chunk, or `None` at the end of the message.
    pub fn next_chunk(&mut self) -> (r: Option<Result<Vec<u8>, Error>>)
        requires
            old(self).wf(),
        ensures
            final(self).wf(),
            final(self).spec_kind() == old(self).spec_kind(),
            old(self).output().len() == 0 ==> r is None && final(self).output().len() == 0,
            old(self).output().len() > 0 ==> (r matches Some(x) && item_view(x) == old(self).output()[0]
                && final(self).output() == old(self).output().drop_first()),
    {
        let ghost o = self.output();
        if self.end_of_content {
            return None;
        }
        if let Some(c) = self.initial_chunk.take() {
            proof {
                assert(self.output() =~= o.drop_first());
            }
            return Some(Ok(c));
        }
        if self.body.len() == 0 {
            self.end_of_content = true;
            proof {
                assert(items_view(old(self).body@) =~= Seq::<Result<Seq<u8>, Error>>::empty());
            }
            return match self.kind {
                EncodedMessageKind::IndeterminateLength => {
                    let t = vec![0u8];
                    assert(o =~= seq![Ok::<Seq<u8>, Error>(seq![0u8])]);
                    assert(t@ =~= seq![0u8]);
                    Some(Ok(t))
                },
                EncodedMessageKind::KnownLength => {
                    assert(o =~= Seq::<Result<Seq<u8>, Error>>::empty());
                    None
                },
            };
        }
        let ghost b0 = items_view(self.body@);
        let item = self.body.remove(0);
        proof {
            assert(items_view(self.body@) =~= b0.drop_first());
            assert(b0[0] == item_view(item));
            assert(self.output() =~= o.drop_first());
        }
        match item {
            Err(e) => Some(Err(e)),
            Ok(chunk) => match self.kind {
                EncodedMessageKind::KnownLength => Some(Ok(chunk)),
                EncodedMessageKind::IndeterminateLength => {
                    if chunk.len() == 0 {
                        return Some(Ok(chunk));
                    }
                    let mut out = Vec::new();
                    put_prefixed(&mut out, chunk.as_slice());
                    assert(out@ =~= spec_prefixed_encode(chunk@));
                    Some(Ok(out))
                },
            },
        }
    }
}

/// The bytes of the chunks of a stream, up to its first error.
pub open spec fn spec_stream_bytes(items: Seq<Result<Seq<u8>, Error>>) -> Seq<u8>
    decreases items.len(),
{
    if items.len() == 0 {
        Seq::empty()
    } else {
        match items[0] {
            Ok(c) => c + spec_stream_bytes(items.drop_first()),
            Err(_) => Seq::empty(),
        }
    }
}

/// The first error of a stream, if any.
pub open spec fn spec_stream_error(items: Seq<Result<Seq<u8>, Error>>) -> Option<Error>
    decreases items.len(),
{
    if items.len() == 0 {
        None
    } else {
        match items[0] {
            Ok(_) => spec_stream_error(items.drop_first()),
            Err(e) => Some(e),
        }
    }
}

impl EncodedMessage {
    /// All the chunks of the message, concatenated; the first error, if
    /// any.
    pub fn collect(self) -> (r: Result<Vec<u8>, Error>)
        requires
            self.wf(),
        ensures
            match spec_stream_error(self.output()) {
                Some(e) => r == Err::<Vec<u8>, Error>(e),
                None => r matches Ok(b) && b@ == spec_stream_bytes(self.output()),
            },
    {
        let ghost o0 = self.output();
        let mut m = self;
        let mut out: Vec<u8> = Vec::new();
        proof {
            assert(Seq::<u8>::empty() + spec_stream_bytes(o0) =~= spec_stream_bytes(o0));
        }
        loop
            invariant
                o0 == self.output(),
                m.wf(),
                spec_stream_error(o0) == spec_stream_error(m.output()),
                spec_stream_error(o0) is None ==> spec_stream_bytes(o0) == out@ + spec_stream_bytes(m.output()),
            decreases m.output().len(),
        {
            let ghost o = m.output();
            match m.next_chunk() {
                None => {
                    proof {
                        assert(out@ + Seq::<u8>::empty() =~= out@);
                    }
                    return Ok(out);
                },
                Some(Err(e)) => {
                    return Err(e);
                },
                Some(Ok(c)) => {
                    let ghost before = out@;
                    let mut cc = c;
                    let ghost cv = cc@;
                    out.append(&mut cc);
                    proof {
                        assert(o[0] == Ok::<Seq<u8>, Error>(cv));
                        assert(before + (cv + spec_stream_bytes(o.drop_first())) =~= out@ + spec_stream_bytes(
                            o.drop_first(),
                        ));
                    }
                },
            }
        }
    }
}

/// The chunks of a stream up to its first error.
pub open spec fn spec_ok_chunks(items: Seq<Result<Seq<u8>, Error>>) -> Seq<Seq<u8>>
    decreases items.len(),
{
    if items.len() == 0 {
        Seq::empty()
    } else {
        match items[0] {
            Ok(c) => seq![c] + spec_ok_chunks(items.drop_first()),
            Err(_) => Seq::empty(),
        }
    }
}

/// The chunks up to the first error hold the bytes up to it.
pub proof fn lemma_ok_chunks_bytes(items: Seq<Result<Seq<u8>, Error>>)
    ensures
        spec_ok_chunks(items).flatten() == spec_stream_bytes(items),
    decreases items.len(),
{
    if items.len() > 0 {
        lemma_ok_chunks_bytes(items.drop_first());
        if let Ok(c) = items[0] {
            let t = spec_ok_chunks(items.drop_first());
            assert((seq![c] + t).drop_first() =~= t);
            assert((seq![c] + t).first() == c);
        } else {
            assert(spec_ok_chunks(items) =~= Seq::<Seq<u8>>::empty());
        }
    } else {
        assert(spec_ok_chunks(items) =~= Seq::<Seq<u8>>::empty());
    }
}

impl EncodedMessage {
    /// The message as the source of a buffer: its chunks, then, where the
    /// message holds an error, that error's kind as the source's error.
    pub fn into_stream_buf(self) -> (sb: StreamBuf)
        requires
            self.wf(),
        ensures
            sb.wf(),
            sb.buffered() == Seq::<u8>::empty(),
            sb.pending() == spec_ok_chunks(self.output()),
            sb.end_error() == match spec_stream_error(self.output()) {
                Some(e) => Some(Error::Source(e.spec_kind())),
                None => None::<Error>,
            },
            sb.limit() == DEFAULT_MAX_BUF_SIZE,
    {
        let ghost o0 = self.output();
        let mut m = self;
        let mut chunks: Vec<Vec<u8>> = Vec::new();
        proof {
            assert(chunk_views(chunks@) + spec_ok_chunks(o0) =~= spec_ok_chunks(o0));
        }
        loop
            invariant
                o0 == self.output(),
                m.wf(),
                spec_stream_error(o0) == spec_stream_error(m.output()),
                spec_ok_chunks(o0) == chunk_views(chunks@) + spec_ok_chunks(m.output()),
            decreases m.output().len(),
        {
            let ghost o = m.output();
            match m.next_chunk() {
                None => {
                    let sb = StreamBuf::new(chunks);
                    proof {
                        assert(sb.pending() =~= spec_ok_chunks(o0));
                    }
                    return sb;
                },
                Some(Err(e)) => {
                    let ghost before = chunk_views(chunks@);
                    let sb = StreamBuf::new(chunks).with_source_error(e.kind());
                    proof {
                        assert(o[0] == Err::<Seq<u8>, Error>(e));
                        assert(before + Seq::<Seq<u8>>::empty() =~= before);
                    }
                    return sb;
                },
                Some(Ok(c)) => {
                    let ghost before = chunk_views(chunks@);
                    let ghost cv = c@;
                    chunks.push(c);
                    proof {
                        assert(o[0] == Ok::<Seq<u8>, Error>(cv));
                        assert(chunk_views(chunks@) =~= before.push(cv));
                        assert(before + (seq![cv] + spec_ok_chunks(o.drop_first())) =~= before.push(cv) + spec_ok_chunks(
                            o.drop_first(),
                        ));
                    }
                },
            }
        }
    }
}

/// Encodes a request as an indeterminate-length message: the initial
/// chunk, then each item of `body`. A request without a scheme cannot be
/// encoded.
pub fn encode_request(head: RequestHead, body: Vec<Result<Vec<u8>, Error>>) -> (r: Result<EncodedMessage, Error>)
    requires
        request_fits(head@),
        body_fits(items_view(body@)),
    ensures
        head.scheme@.len() == 0 ==> r == Err::<EncodedMessage, Error>(Error::InvalidData(Invalid::NoScheme)),
        head.scheme@.len() != 0 ==> (r matches Ok(m) && m.wf()
            && m.spec_kind() == EncodedMessageKind::IndeterminateLength
            && m.output() == spec_encoded_items(
                EncodedMessageKind::IndeterminateLength,
                Some(spec_request_head_encode(head@)),
                items_view(body@),
            )),
{
    let initial_chunk = initial_indeterminate_length_request_chunk(&head)?;
    Ok(EncodedMessage {
        kind: EncodedMessageKind::IndeterminateLength,
        initial_chunk: Some(initial_chunk),
        body,
        end_of_content: false,
    })
}

/// Encodes a response: as a known-length message when the exact length of
/// its content is known (`exact_size`), else as an indeterminate-length one.
pub fn encode_response(head: ResponseHead, body: Vec<Result<Vec<u8>, Error>>, exact_size: Option<u64>) -> (m: EncodedMessage)
    requires
        fields_fit(head@.headers),
        body_fits(items_view(body@)),
        exact_size matches Some(n) ==> n <= MAX_VAR_INT && spec_field_lines_encode(head@.headers).len() <= MAX_VAR_INT,
    ensures
        m.wf(),
        m.output() == match exact_size {
            Some(n) => spec_encoded_items(
                EncodedMessageKind::KnownLength,
                Some(spec_known_response_head_encode(head@, n)),
                items_view(body@),
            ),
            None => spec_encoded_items(
                EncodedMessageKind::IndeterminateLength,
                Some(spec_indeterminate_response_head_encode(head@)),
                items_view(body@),
            ),
        },
        m.spec_kind() == (if exact_size is Some {
            EncodedMessageKind::KnownLength
        } else {
            EncodedMessageKind::IndeterminateLength
        }),
{
    let (kind, initial_chunk) = match exact_size {
        Some(size) => (EncodedMessageKind::KnownLength, initial_known_length_response_chunk(&head, size)),
        None => (EncodedMessageKind::IndeterminateLength, initial_indeterminate_length_response_chunk(&head)),
    };
    EncodedMessage { kind, initial_chunk: Some(initial_chunk), body, end_of_content: false }
}

} // verus!
