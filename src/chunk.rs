use vstd::prelude::*;
use vstd::slice::slice_to_vec;
use vstd::utf8::*;
use crate::bytes::{
    be32_bytes, be32_value, lemma_be32_bytes_of_value, lemma_be32_value_of_bytes, push_all,
    push_be32, read_be32,
};
use crate::chunk_type::{is_type_code, ChunkType};
use crate::error::PngError;
use crate::text::string_from_utf8;

verus! {

/// The CRC-32 (ISO-HDLC, the polynomial of zlib) of a byte sequence.
pub uninterp spec fn crc32_of(b: Seq<u8>) -> u32;

/// Relies on `crc::Crc::<u32>::checksum` with the `CRC_32_ISO_HDLC` algorithm:
/// its result depends on the bytes alone.
#[verifier::external_body]
fn crc32(b: &[u8]) -> (r: u32)
    ensures
        r == crc32_of(b@),
{
    crc::Crc::<u32>::new(&crc::CRC_32_ISO_HDLC).checksum(b)
}

/// A chunk as a value: its type code, its payload and its CRC.
pub struct ChunkView {
    pub kind: Seq<u8>,
    pub data: Seq<u8>,
    pub crc: u32,
}

/// The CRC that a chunk of this type and payload carries.
pub open spec fn chunk_crc(kind: Seq<u8>, data: Seq<u8>) -> u32 {
    crc32_of(kind + data)
}

/// What every chunk satisfies: a valid type code, a payload whose length fits
/// the length field, and the CRC of its type and payload.
pub open spec fn valid_chunk(c: ChunkView) -> bool {
    &&& is_type_code(c.kind)
    &&& c.data.len() <= u32::MAX
    &&& c.crc == chunk_crc(c.kind, c.data)
}

/// The on-disk form of a chunk: length, type, payload, CRC.
pub open spec fn chunk_bytes(c: ChunkView) -> Seq<u8> {
    be32_bytes(c.data.len() as u32) + c.kind + c.data + be32_bytes(c.crc)
}

/// What reading a chunk from exactly these bytes gives.
#[verifier::opaque]
pub open spec fn parse_chunk(b: Seq<u8>) -> Result<ChunkView, PngError> {
    if b.len() < 8 {
        Err(PngError::InvalidLength)
    } else if !is_type_code(b.subrange(4, 8)) {
        Err(PngError::InvalidChunkType)
    } else if b.len() < 12 || be32_value(b.subrange(0, 4)) != b.len() - 12 {
        Err(PngError::InvalidLength)
    } else if be32_value(b.subrange(b.len() - 4, b.len() as int)) != crc32_of(
        b.subrange(4, b.len() - 4),
    ) {
        Err(PngError::InvalidCrc)
    } else {
        Ok(
            ChunkView {
                kind: b.subrange(4, 8),
                data: b.subrange(8, b.len() - 4),
                crc: be32_value(b.subrange(b.len() - 4, b.len() as int)),
            },
        )
    }
}

/// The byte `x` with bit `k` flipped.
pub open spec fn flip_bit(x: u8, k: u8) -> u8 {
    x ^ (1u8 << k)
}

proof fn lemma_flip_changes(x: u8, k: u8)
    requires
        k < 8,
    ensures
        flip_bit(x, k) != x,
{
    assert(k < 8 ==> x ^ (1u8 << k) != x) by (bit_vector);
}

/// Reading back the bytes of a chunk gives the same type, payload and CRC.
pub proof fn lemma_chunk_round_trip(c: ChunkView)
    requires
        valid_chunk(c),
    ensures
        parse_chunk(chunk_bytes(c)) == Ok::<ChunkView, PngError>(c),
{
    reveal(parse_chunk);
    let b = chunk_bytes(c);
    let n = b.len();
    let len = c.data.len() as u32;
    assert(n == c.data.len() + 12);
    assert(b.subrange(0, 4) =~= be32_bytes(len));
    assert(b.subrange(4, 8) =~= c.kind);
    assert(b.subrange(8, n - 4) =~= c.data);
    assert(b.subrange(4, n - 4) =~= c.kind + c.data);
    assert(b.subrange(n - 4, n as int) =~= be32_bytes(c.crc));
    lemma_be32_value_of_bytes(len);
    lemma_be32_value_of_bytes(c.crc);
}

/// Two chunks with the same type and payload have the same CRC.
pub proof fn lemma_crc_determined(a: ChunkView, b: ChunkView)
    requires
        valid_chunk(a),
        valid_chunk(b),
        a.kind == b.kind,
        a.data == b.data,
    ensures
        a.crc == b.crc,
{
}

/// Flipping any single bit of the CRC field of a chunk's bytes makes reading
/// them fail with `InvalidCrc`.
pub proof fn lemma_crc_field_tamper(c: ChunkView, i: int, k: u8)
    requires
        valid_chunk(c),
        c.data.len() + 8 <= i < c.data.len() + 12,
        k < 8,
    ensures
        parse_chunk(chunk_bytes(c).update(i, flip_bit(chunk_bytes(c)[i], k)))
            == Err::<ChunkView, PngError>(PngError::InvalidCrc),
{
    reveal(parse_chunk);
    let b = chunk_bytes(c);
    let t = b.update(i, flip_bit(b[i], k));
    let n = b.len();
    lemma_chunk_round_trip(c);
    assert(t.subrange(0, 4) =~= b.subrange(0, 4));
    assert(t.subrange(4, 8) =~= b.subrange(4, 8));
    assert(t.subrange(4, n - 4) =~= b.subrange(4, n - 4));
    let stored = t.subrange(n - 4, n as int);
    lemma_be32_bytes_of_value(stored);
    lemma_be32_bytes_of_value(b.subrange(n - 4, n as int));
    lemma_flip_changes(b[i], k);
    if be32_value(stored) == c.crc {
        assert(stored[i - (n - 4)] != b.subrange(n - 4, n as int)[i - (n - 4)]);
        assert(false);
    }
}

/// Flipping a single bit of a chunk's payload in its bytes makes reading them
/// fail with `InvalidCrc` whenever the CRC of the altered type and payload
/// differs from the stored one.
pub proof fn lemma_payload_tamper(c: ChunkView, i: int, k: u8)
    requires
        valid_chunk(c),
        8 <= i < c.data.len() + 8,
        k < 8,
        crc32_of(c.kind + c.data.update(i - 8, flip_bit(c.data[i - 8], k))) != c.crc,
    ensures
        parse_chunk(chunk_bytes(c).update(i, flip_bit(chunk_bytes(c)[i], k)))
            == Err::<ChunkView, PngError>(PngError::InvalidCrc),
{
    reveal(parse_chunk);
    let b = chunk_bytes(c);
    let t = b.update(i, flip_bit(b[i], k));
    let n = b.len();
    let d = c.data.update(i - 8, flip_bit(c.data[i - 8], k));
    assert(n == c.data.len() + 12);
    assert(t.subrange(0, 4) =~= be32_bytes(c.data.len() as u32));
    assert(t.subrange(4, 8) =~= c.kind);
    assert(t.subrange(n - 4, n as int) =~= be32_bytes(c.crc));
    assert(b[i] == c.data[i - 8]);
    assert(t.subrange(4, n - 4) =~= c.kind + d);
    lemma_be32_value_of_bytes(c.data.len() as u32);
    lemma_be32_value_of_bytes(c.crc);
}

/// A PNG chunk: a type, a payload and the CRC computed over both.
#[derive(Debug)]
pub struct Chunk {
    chunk_type: ChunkType,
    data: Vec<u8>,
    crc: u32,
}

impl View for Chunk {
    type V = ChunkView;

    closed spec fn view(&self) -> ChunkView {
        ChunkView { kind: self.chunk_type@, data: self.data@, crc: self.crc }
    }
}

impl Chunk {
    #[verifier::type_invariant]
    pub(crate) open spec fn inv(self) -> bool {
        valid_chunk(self@)
    }

    /// A chunk of this type and payload, with their CRC.
    pub fn new(chunk_type: ChunkType, data: Vec<u8>) -> (r: Chunk)
        requires
            data@.len() <= u32::MAX,
        ensures
            r@.kind == chunk_type@,
            r@.data == data@,
            r@.crc == chunk_crc(chunk_type@, data@),
    {
        let kind = chunk_type.bytes();
        let mut input: Vec<u8> = Vec::new();
        push_all(&mut input, &kind);
        push_all(&mut input, data.as_slice());
        let crc = crc32(input.as_slice());
        Chunk { chunk_type, data, crc }
    }

    /// The payload's length in bytes.
    pub fn length(&self) -> (r: u32)
        ensures
            r == self@.data.len(),
    {
        proof {
            use_type_invariant(self);
        }
        self.data.len() as u32
    }

    /// The chunk's type.
    pub fn chunk_type(&self) -> (r: &ChunkType)
        ensures
            r@ == self@.kind,
    {
        &self.chunk_type
    }

    /// The payload.
    pub fn data(&self) -> (r: &[u8])
        ensures
            r@ == self@.data,
    {
        self.data.as_slice()
    }

    /// The CRC of the type and payload.
    pub fn crc(&self) -> (r: u32)
        ensures
            r == self@.crc,
            r == chunk_crc(self@.kind, self@.data),
    {
        proof {
            use_type_invariant(self);
        }
        self.crc
    }

    /// The payload read as UTF-8 text.
    pub fn data_as_string(&self) -> (r: Result<String, PngError>)
        ensures
            r is Ok <==> valid_utf8(self@.data),
            r is Ok ==> r->Ok_0@ == decode_utf8(self@.data),
            r is Err ==> r->Err_0 == PngError::InvalidUtf8,
    {
        match string_from_utf8(self.data.clone()) {
            Some(s) => Ok(s),
            None => Err(PngError::InvalidUtf8),
        }
    }

    /// The chunk's on-disk bytes: length, type, payload and CRC.
    pub fn as_bytes(&self) -> (r: Vec<u8>)
        ensures
            r@ == chunk_bytes(self@),
            r@.len() == self@.data.len() + 12,
    {
        proof {
            use_type_invariant(self);
        }
        let mut out: Vec<u8> = Vec::new();
        push_be32(&mut out, self.data.len() as u32);
        let kind = self.chunk_type.bytes();
        push_all(&mut out, &kind);
        push_all(&mut out, self.data.as_slice());
        push_be32(&mut out, self.crc);
        out
    }

    /// Reads a chunk from exactly these bytes, checking its type, its length
    /// and its CRC.
    pub fn try_from(bytes: &[u8]) -> (r: Result<Chunk, PngError>)
        ensures
            r is Ok <==> parse_chunk(bytes@) is Ok,
            r is Ok ==> parse_chunk(bytes@) == Ok::<ChunkView, PngError>(r->Ok_0@),
            r is Err ==> parse_chunk(bytes@) == Err::<ChunkView, PngError>(r->Err_0),
    {
        proof {
            reveal(parse_chunk);
        }
        let n = bytes.len();
        if n < 8 {
            return Err(PngError::InvalidLength);
        }
        let chunk_type = match ChunkType::try_from([bytes[4], bytes[5], bytes[6], bytes[7]]) {
            Ok(t) => t,
            Err(e) => {
                assert(bytes@.subrange(4, 8) =~= seq![bytes@[4], bytes@[5], bytes@[6], bytes@[7]]);
                return Err(e);
            },
        };
        assert(bytes@.subrange(4, 8) =~= chunk_type@);
        if n < 12 {
            return Err(PngError::InvalidLength);
        }
        let declared = read_be32(bytes, 0);
        if declared as usize != n - 12 {
            return Err(PngError::InvalidLength);
        }
        let stored = read_be32(bytes, n - 4);
        let computed = crc32(&bytes[4..n - 4]);
        if computed != stored {
            return Err(PngError::InvalidCrc);
        }
        let data = slice_to_vec(&bytes[8..n - 4]);
        assert(bytes@.subrange(4, n - 4) =~= chunk_type@ + data@);
        Ok(Chunk { chunk_type, data, crc: stored })
    }
}

} // verus!
