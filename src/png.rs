use vstd::prelude::*;
use crate::bytes::{be32_bytes, be32_value, lemma_be32_value_of_bytes, push_all, read_be32};
use crate::chunk::{chunk_bytes, lemma_chunk_round_trip, parse_chunk, valid_chunk, Chunk, ChunkView};
use crate::chunk_type::{parse_type_text, ChunkType};
use crate::error::PngError;

verus! {

/// The eight bytes that open every PNG file.
pub const STANDARD_HEADER: [u8; 8] = [137, 80, 78, 71, 13, 10, 26, 10];

/// The PNG signature as a sequence.
pub open spec fn signature() -> Seq<u8> {
    seq![137u8, 80u8, 78u8, 71u8, 13u8, 10u8, 26u8, 10u8]
}

/// How many of the bytes `b` the first chunk in them takes: its declared
/// size where that many bytes are there, else all of them.
pub open spec fn chunk_span(b: Seq<u8>) -> int {
    if b.len() >= 4 && 12 + be32_value(b.subrange(0, 4)) <= b.len() {
        12 + be32_value(b.subrange(0, 4))
    } else {
        b.len() as int
    }
}

/// The chunks read one after another from `b` until it is used up.
pub open spec fn parse_chunks(b: Seq<u8>) -> Result<Seq<ChunkView>, PngError>
    decreases b.len(),
{
    if b.len() == 0 {
        Ok(Seq::empty())
    } else {
        let span = chunk_span(b);
        match parse_chunk(b.subrange(0, span)) {
            Err(e) => Err(e),
            Ok(c) => match parse_chunks(b.subrange(span, b.len() as int)) {
                Err(e) => Err(e),
                Ok(rest) => Ok(seq![c] + rest),
            },
        }
    }
}

/// What reading a PNG file from `b` gives: its chunks in order.
pub open spec fn parse_png(b: Seq<u8>) -> Result<Seq<ChunkView>, PngError> {
    if b.len() < 8 || b.subrange(0, 8) != signature() {
        Err(PngError::InvalidSignature)
    } else {
        parse_chunks(b.subrange(8, b.len() as int))
    }
}

/// The bytes of a chunk sequence, one chunk after another.
pub open spec fn chunks_bytes(cs: Seq<ChunkView>) -> Seq<u8>
    decreases cs.len(),
{
    if cs.len() == 0 {
        Seq::empty()
    } else {
        chunk_bytes(cs[0]) + chunks_bytes(cs.drop_first())
    }
}

/// The bytes of a PNG file holding these chunks.
pub open spec fn png_bytes(cs: Seq<ChunkView>) -> Seq<u8> {
    signature() + chunks_bytes(cs)
}

/// The position of the first chunk of type `kind`, if there is one.
pub open spec fn index_of_kind(cs: Seq<ChunkView>, kind: Seq<u8>) -> Option<int>
    decreases cs.len(),
{
    if cs.len() == 0 {
        None
    } else if cs[0].kind == kind {
        Some(0)
    } else {
        match index_of_kind(cs.drop_first(), kind) {
            Some(i) => Some(i + 1),
            None => None,
        }
    }
}

/// `acc` in front of what `r` holds, or the error of `r`.
pub open spec fn prepend(acc: Seq<ChunkView>, r: Result<Seq<ChunkView>, PngError>) -> Result<
    Seq<ChunkView>,
    PngError,
> {
    match r {
        Ok(rest) => Ok(acc + rest),
        Err(e) => Err(e),
    }
}

proof fn lemma_chunks_bytes_push(cs: Seq<ChunkView>, c: ChunkView)
    ensures
        chunks_bytes(cs.push(c)) == chunks_bytes(cs) + chunk_bytes(c),
    decreases cs.len(),
{
    if cs.len() == 0 {
        assert(cs.push(c).drop_first() =~= Seq::<ChunkView>::empty());
        assert(cs.push(c)[0] == c);
        assert(chunks_bytes(Seq::<ChunkView>::empty()) == Seq::<u8>::empty());
        assert(chunks_bytes(cs.push(c)) =~= chunk_bytes(c));
    } else {
        lemma_chunks_bytes_push(cs.drop_first(), c);
        assert(cs.push(c).drop_first() =~= cs.drop_first().push(c));
        assert(cs.push(c)[0] == cs[0]);
        assert(chunks_bytes(cs.push(c)) =~= chunks_bytes(cs) + chunk_bytes(c));
    }
}

proof fn lemma_index_of_kind(cs: Seq<ChunkView>, kind: Seq<u8>, i: int)
    requires
        0 <= i <= cs.len(),
        forall|j: int| 0 <= j < i ==> #[trigger] cs[j].kind != kind,
    ensures
        i < cs.len() && cs[i].kind == kind ==> index_of_kind(cs, kind) == Some(i),
        i == cs.len() ==> index_of_kind(cs, kind) is None,
    decreases cs.len(),
{
    if cs.len() > 0 && i > 0 {
        let t = cs.drop_first();
        assert forall|j: int| 0 <= j < i - 1 implies #[trigger] t[j].kind != kind by {
            assert(t[j] == cs[j + 1]);
        }
        lemma_index_of_kind(t, kind, i - 1);
    }
}

/// What `index_of_kind` finds: the first chunk of that type, or none when no
/// chunk has it.
pub proof fn lemma_index_of_kind_first(cs: Seq<ChunkView>, kind: Seq<u8>)
    ensures
        index_of_kind(cs, kind) is Some ==> ({
            let m = index_of_kind(cs, kind)->Some_0;
            &&& 0 <= m < cs.len()
            &&& cs[m].kind == kind
            &&& forall|j: int| 0 <= j < m ==> #[trigger] cs[j].kind != kind
        }),
        index_of_kind(cs, kind) is None ==> forall|j: int|
            0 <= j < cs.len() ==> #[trigger] cs[j].kind != kind,
    decreases cs.len(),
{
    if cs.len() > 0 && cs[0].kind != kind {
        let t = cs.drop_first();
        lemma_index_of_kind_first(t, kind);
        if index_of_kind(t, kind) is Some {
            let m = index_of_kind(t, kind)->Some_0;
            assert(cs[m + 1] == t[m]);
            assert forall|j: int| 0 <= j < m + 1 implies #[trigger] cs[j].kind != kind by {
                if j > 0 {
                    assert(cs[j] == t[j - 1]);
                }
            }
        } else {
            assert forall|j: int| 0 <= j < cs.len() implies #[trigger] cs[j].kind != kind by {
                if j > 0 {
                    assert(cs[j] == t[j - 1]);
                }
            }
        }
    }
}

proof fn lemma_first_chunk_span(c: ChunkView, rest: Seq<u8>)
    requires
        valid_chunk(c),
    ensures
        chunk_span(chunk_bytes(c) + rest) == chunk_bytes(c).len(),
        (chunk_bytes(c) + rest).subrange(0, chunk_bytes(c).len() as int) == chunk_bytes(c),
        (chunk_bytes(c) + rest).subrange(
            chunk_bytes(c).len() as int,
            (chunk_bytes(c) + rest).len() as int,
        ) == rest,
{
    let head = chunk_bytes(c);
    let b = head + rest;
    let len = c.data.len() as u32;
    assert(head.len() == 12 + c.data.len());
    assert(b.subrange(0, 4) =~= be32_bytes(len));
    lemma_be32_value_of_bytes(len);
    assert(b.subrange(0, head.len() as int) =~= head);
    assert(b.subrange(head.len() as int, b.len() as int) =~= rest);
}

/// Reading back the bytes of a sequence of chunks gives the same chunks.
pub proof fn lemma_chunks_round_trip(cs: Seq<ChunkView>)
    requires
        forall|i: int| 0 <= i < cs.len() ==> valid_chunk(#[trigger] cs[i]),
    ensures
        parse_chunks(chunks_bytes(cs)) == Ok::<Seq<ChunkView>, PngError>(cs),
    decreases cs.len(),
{
    if cs.len() == 0 {
        assert(chunks_bytes(cs) =~= Seq::<u8>::empty());
        assert(cs =~= Seq::<ChunkView>::empty());
    } else {
        let c = cs[0];
        let t = cs.drop_first();
        assert(valid_chunk(c));
        assert forall|i: int| 0 <= i < t.len() implies valid_chunk(#[trigger] t[i]) by {
            assert(t[i] == cs[i + 1]);
        }
        lemma_chunks_round_trip(t);
        let b = chunks_bytes(cs);
        assert(b == chunk_bytes(c) + chunks_bytes(t));
        lemma_first_chunk_span(c, chunks_bytes(t));
        lemma_chunk_round_trip(c);
        assert(seq![c] + t =~= cs);
    }
}

/// Reading back the bytes of a PNG file gives the same chunks, in order.
pub proof fn lemma_png_round_trip(cs: Seq<ChunkView>)
    requires
        forall|i: int| 0 <= i < cs.len() ==> valid_chunk(#[trigger] cs[i]),
    ensures
        parse_png(png_bytes(cs)) == Ok::<Seq<ChunkView>, PngError>(cs),
{
    let b = png_bytes(cs);
    assert(b.subrange(0, 8) =~= signature());
    assert(b.subrange(8, b.len() as int) =~= chunks_bytes(cs));
    lemma_chunks_round_trip(cs);
}

/// Reading bytes that do not start with the PNG signature fails with
/// `InvalidSignature`, whatever follows.
pub proof fn lemma_signature_gate(b: Seq<u8>)
    requires
        b.len() < 8 || b.subrange(0, 8) != signature(),
    ensures
        parse_png(b) == Err::<Seq<ChunkView>, PngError>(PngError::InvalidSignature),
{
}

/// Appending a chunk `a` and then a chunk `b` to chunks that hold no chunk of
/// `a`'s type, then removing the first chunk of `a`'s type, removes `a` and
/// leaves the earlier chunks followed by `b`.
pub proof fn lemma_append_then_remove(cs: Seq<ChunkView>, a: ChunkView, b: ChunkView)
    requires
        index_of_kind(cs, a.kind) is None,
    ensures
        index_of_kind(cs.push(a).push(b), a.kind) == Some(cs.len() as int),
        cs.push(a).push(b).remove(cs.len() as int) == cs.push(b),
{
    let s = cs.push(a).push(b);
    lemma_index_of_kind_first(cs, a.kind);
    assert forall|j: int| 0 <= j < cs.len() implies #[trigger] s[j].kind != a.kind by {
        assert(s[j] == cs[j]);
    }
    lemma_index_of_kind(s, a.kind, cs.len() as int);
    assert(s.remove(cs.len() as int) =~= cs.push(b));
}

/// Where two chunks share a type, removing the first chunk of that type takes
/// one at or before the earlier of them and keeps the later one.
pub proof fn lemma_remove_takes_earliest(cs: Seq<ChunkView>, i: int, j: int)
    requires
        0 <= i < j < cs.len(),
        cs[i].kind == cs[j].kind,
    ensures
        index_of_kind(cs, cs[i].kind) is Some,
        index_of_kind(cs, cs[i].kind)->Some_0 <= i,
        cs.remove(index_of_kind(cs, cs[i].kind)->Some_0)[j - 1] == cs[j],
{
    lemma_index_of_kind_first(cs, cs[i].kind);
}

/// A PNG file: the signature followed by an ordered sequence of chunks.
#[derive(Debug)]
pub struct Png {
    chunks: Vec<Chunk>,
}

impl View for Png {
    type V = Seq<ChunkView>;

    closed spec fn view(&self) -> Seq<ChunkView> {
        self.chunks@.map_values(|c: Chunk| c@)
    }
}

impl Png {
    /// A PNG file holding these chunks, in this order.
    pub fn from_chunks(chunks: Vec<Chunk>) -> (r: Png)
        ensures
            r@ == chunks@.map_values(|c: Chunk| c@),
    {
        Png { chunks }
    }

    /// Adds a chunk after all the others.
    pub fn append_chunk(&mut self, chunk: Chunk)
        ensures
            final(self)@ == old(self)@.push(chunk@),
    {
        self.chunks.push(chunk);
        assert(final(self)@ =~= old(self)@.push(chunk@));
    }

    /// Index of the first chunk whose type is `kind`, scanning in order.
    fn position_of(&self, kind: &ChunkType) -> (r: Option<usize>)
        ensures
            r is Some ==> index_of_kind(self@, kind@) == Some(r->Some_0 as int),
            r is Some ==> r->Some_0 < self@.len(),
            r is None ==> index_of_kind(self@, kind@) is None,
    {
        let mut i: usize = 0;
        while i < self.chunks.len()
            invariant
                0 <= i <= self.chunks@.len(),
                self@.len() == self.chunks@.len(),
                forall|j: int| 0 <= j < i ==> #[trigger] self@[j].kind != kind@,
            decreases self.chunks@.len() - i,
        {
            if self.chunks[i].chunk_type().same_code(kind) {
                proof {
                    lemma_index_of_kind(self@, kind@, i as int);
                }
                return Some(i);
            }
            i = i + 1;
        }
        proof {
            lemma_index_of_kind(self@, kind@, i as int);
        }
        None
    }

    /// Removes and returns the first chunk of the type named by `chunk_type`.
    pub fn remove_first_chunk(&mut self, chunk_type: &str) -> (r: Result<Chunk, PngError>)
        ensures
            parse_type_text(chunk_type@) is None ==> r == Err::<Chunk, PngError>(
                PngError::InvalidChunkType,
            ) && final(self)@ == old(self)@,
            parse_type_text(chunk_type@) is Some && index_of_kind(
                old(self)@,
                parse_type_text(chunk_type@)->Some_0,
            ) is None ==> r == Err::<Chunk, PngError>(PngError::ChunkNotFound) && final(self)@
                == old(self)@,
            parse_type_text(chunk_type@) is Some && index_of_kind(
                old(self)@,
                parse_type_text(chunk_type@)->Some_0,
            ) is Some ==> ({
                let i = index_of_kind(old(self)@, parse_type_text(chunk_type@)->Some_0)->Some_0;
                &&& r is Ok
                &&& r->Ok_0@ == old(self)@[i]
                &&& final(self)@ == old(self)@.remove(i)
            }),
    {
        let kind = match ChunkType::from_str(chunk_type) {
            Ok(k) => k,
            Err(e) => return Err(e),
        };
        match self.position_of(&kind) {
            Some(i) => {
                let c = self.chunks.remove(i);
                assert(final(self)@ =~= old(self)@.remove(i as int));
                Ok(c)
            },
            None => Err(PngError::ChunkNotFound),
        }
    }

    /// The first chunk of the type named by `chunk_type`, if there is one.
    pub fn chunk_by_type(&self, chunk_type: &str) -> (r: Option<&Chunk>)
        ensures
            r is Some <==> parse_type_text(chunk_type@) is Some && index_of_kind(
                self@,
                parse_type_text(chunk_type@)->Some_0,
            ) is Some,
            r is Some ==> r->Some_0@ == self@[index_of_kind(
                self@,
                parse_type_text(chunk_type@)->Some_0,
            )->Some_0],
    {
        let kind = match ChunkType::from_str(chunk_type) {
            Ok(k) => k,
            Err(_) => return None,
        };
        match self.position_of(&kind) {
            Some(i) => Some(&self.chunks[i]),
            None => None,
        }
    }

    /// The chunks, in order.
    pub fn chunks(&self) -> (r: &[Chunk])
        ensures
            r@.map_values(|c: Chunk| c@) == self@,
    {
        self.chunks.as_slice()
    }

    /// The file's bytes: the signature, then each chunk's bytes in order.
    pub fn as_bytes(&self) -> (r: Vec<u8>)
        ensures
            r@ == png_bytes(self@),
    {
        let mut out: Vec<u8> = Vec::new();
        push_all(&mut out, &STANDARD_HEADER);
        assert(out@ =~= signature());
        let mut i: usize = 0;
        while i < self.chunks.len()
            invariant
                0 <= i <= self.chunks@.len(),
                self@.len() == self.chunks@.len(),
                out@ == signature() + chunks_bytes(self@.take(i as int)),
            decreases self.chunks@.len() - i,
        {
            let b = self.chunks[i].as_bytes();
            push_all(&mut out, b.as_slice());
            proof {
                lemma_chunks_bytes_push(self@.take(i as int), self@[i as int]);
                assert(self@.take(i as int).push(self@[i as int]) =~= self@.take(i + 1));
            }
            i = i + 1;
        }
        assert(self@.take(i as int) =~= self@);
        out
    }

    /// Reads a PNG file: the signature, then chunks until the bytes are used up.
    pub fn try_from(bytes: &[u8]) -> (r: Result<Png, PngError>)
        ensures
            r is Ok <==> parse_png(bytes@) is Ok,
            r is Ok ==> parse_png(bytes@) == Ok::<Seq<ChunkView>, PngError>(r->Ok_0@),
            r is Err ==> parse_png(bytes@) == Err::<Seq<ChunkView>, PngError>(r->Err_0),
    {
        let n = bytes.len();
        if n < 8 {
            return Err(PngError::InvalidSignature);
        }
        let mut k: usize = 0;
        while k < 8
            invariant
                0 <= k <= 8,
                n == bytes@.len(),
                8 <= n,
                STANDARD_HEADER@ == signature(),
                forall|j: int| 0 <= j < k ==> bytes@[j] == #[trigger] signature()[j],
            decreases 8 - k,
        {
            if bytes[k] != STANDARD_HEADER[k] {
                assert(bytes@.subrange(0, 8)[k as int] != signature()[k as int]);
                return Err(PngError::InvalidSignature);
            }
            k = k + 1;
        }
        assert(bytes@.subrange(0, 8) =~= signature());
        let mut chunks: Vec<Chunk> = Vec::new();
        let mut pos: usize = 8;
        while pos < n
            invariant
                8 <= pos <= n,
                n == bytes@.len(),
                parse_png(bytes@) == prepend(
                    chunks@.map_values(|c: Chunk| c@),
                    parse_chunks(bytes@.subrange(pos as int, n as int)),
                ),
            decreases n - pos,
        {
            let ghost rest = bytes@.subrange(pos as int, n as int);
            let remaining = n - pos;
            let mut span = remaining;
            if remaining >= 4 {
                let declared = read_be32(bytes, pos);
                assert(rest.subrange(0, 4) =~= bytes@.subrange(pos as int, pos + 4));
                if remaining >= 12 && declared as usize <= remaining - 12 {
                    span = 12 + declared as usize;
                }
            }
            assert(span == chunk_span(rest));
            assert(rest.subrange(0, span as int) =~= bytes@.subrange(pos as int, pos + span));
            assert(rest.subrange(span as int, rest.len() as int) =~= bytes@.subrange(
                pos + span,
                n as int,
            ));
            let c = match Chunk::try_from(&bytes[pos..pos + span]) {
                Ok(c) => c,
                Err(e) => return Err(e),
            };
            let ghost before = chunks@.map_values(|c: Chunk| c@);
            chunks.push(c);
            assert(chunks@.map_values(|c: Chunk| c@) =~= before.push(c@));
            assert(before + (seq![c@] + parse_chunks(bytes@.subrange(pos + span, n as int))->Ok_0)
                =~= before.push(c@) + parse_chunks(bytes@.subrange(pos + span, n as int))->Ok_0);
            pos = pos + span;
        }
        assert(bytes@.subrange(n as int, n as int) =~= Seq::<u8>::empty());
        assert(chunks@.map_values(|c: Chunk| c@) + Seq::<ChunkView>::empty() =~= chunks@.map_values(
            |c: Chunk| c@,
        ));
        Ok(Png { chunks })
    }
}

} // verus!
