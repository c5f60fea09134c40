use vstd::prelude::*;
use vstd::utf8::*;
use crate::error::PngError;
use crate::text::string_from_utf8;

verus! {

/// An ASCII letter: `A-Z` or `a-z`.
pub open spec fn is_letter(b: u8) -> bool {
    (65 <= b <= 90) || (97 <= b <= 122)
}

/// Four bytes, each an ASCII letter: what a chunk type code is made of.
pub open spec fn is_type_code(b: Seq<u8>) -> bool {
    &&& b.len() == 4
    &&& is_letter(b[0])
    &&& is_letter(b[1])
    &&& is_letter(b[2])
    &&& is_letter(b[3])
}

/// An uppercase ASCII letter: one whose bit 5 is clear.
pub open spec fn is_upper(b: u8) -> bool {
    65 <= b <= 90
}

/// The text that a chunk type code reads as.
pub open spec fn type_text(b: Seq<u8>) -> Seq<char> {
    decode_utf8(b)
}

/// The chunk type code that a text names, if it names one.
pub open spec fn parse_type_text(s: Seq<char>) -> Option<Seq<u8>> {
    if is_type_code(encode_utf8(s)) {
        Some(encode_utf8(s))
    } else {
        None
    }
}

/// A PNG chunk type: four ASCII letters whose case carries the chunk's properties.
#[derive(Debug, Clone, Copy, PartialEq, Eq, Structural, PartialOrd, Ord, Hash)]
pub struct ChunkType {
    b0: u8,
    b1: u8,
    b2: u8,
    b3: u8,
}

impl View for ChunkType {
    type V = Seq<u8>;

    closed spec fn view(&self) -> Seq<u8> {
        seq![self.b0, self.b1, self.b2, self.b3]
    }
}

fn byte_is_letter(b: u8) -> (r: bool)
    ensures
        r == is_letter(b),
{
    (65 <= b && b <= 90) || (97 <= b && b <= 122)
}

/// Bit 5 of an ASCII letter tells its case: clear for uppercase, set for lowercase.
fn is_bit5_clear(b: u8) -> (r: bool)
    requires
        is_letter(b),
    ensures
        r == is_upper(b),
{
    let r = b & 32 == 0;
    assert(((65 <= b <= 90) || (97 <= b <= 122)) ==> ((b & 32 == 0) == (65 <= b <= 90)))
        by (bit_vector);
    r
}

/// Bytes that are all ASCII letters are valid UTF-8.
proof fn lemma_letters_valid_utf8(b: Seq<u8>)
    requires
        is_type_code(b),
    ensures
        valid_utf8(b),
{
    assert(b.subrange(0, 0) =~= Seq::<u8>::empty());
    assert forall|i: int| 0 <= i < 4 implies #[trigger] is_leading_byte_width_1(b[i]) by {
        assert(is_letter(b[i]));
    }
    partial_valid_utf8_extend_ascii_block(b, 0, 4);
    assert(b.subrange(0, 4) =~= b);
}

/// Reading a chunk type code as text and parsing that text gives the code back.
pub proof fn lemma_type_text_round_trip(b: Seq<u8>)
    requires
        is_type_code(b),
    ensures
        parse_type_text(type_text(b)) == Some(b),
{
    lemma_letters_valid_utf8(b);
    decode_utf8_encode_utf8(b);
}

impl ChunkType {
    #[verifier::type_invariant]
    closed spec fn inv(self) -> bool {
        is_type_code(self@)
    }

    /// The type made of these four bytes; fails unless each is an ASCII letter.
    pub fn try_from(bytes: [u8; 4]) -> (r: Result<ChunkType, PngError>)
        ensures
            r is Ok <==> is_type_code(bytes@),
            r is Ok ==> r->Ok_0@ == bytes@,
            r is Err ==> r->Err_0 == PngError::InvalidChunkType,
    {
        let mut i: usize = 0;
        while i < 4
            invariant
                0 <= i <= 4,
                bytes@.len() == 4,
                forall|j: int| 0 <= j < i ==> #[trigger] is_letter(bytes@[j]),
            decreases 4 - i,
        {
            if !byte_is_letter(bytes[i]) {
                return Err(PngError::InvalidChunkType);
            }
            i = i + 1;
        }
        let r = ChunkType { b0: bytes[0], b1: bytes[1], b2: bytes[2], b3: bytes[3] };
        assert(r@ =~= bytes@);
        Ok(r)
    }

    /// The type named by a text of exactly four ASCII letters.
    pub fn from_str(s: &str) -> (r: Result<ChunkType, PngError>)
        ensures
            r is Ok <==> parse_type_text(s@) is Some,
            r is Ok ==> Some(r->Ok_0@) == parse_type_text(s@),
            r is Err ==> r->Err_0 == PngError::InvalidChunkType,
    {
        let b = s.as_bytes();
        if b.len() != 4 {
            return Err(PngError::InvalidChunkType);
        }
        ChunkType::try_from([b[0], b[1], b[2], b[3]])
    }

    /// The four bytes of the type.
    pub fn bytes(&self) -> (r: [u8; 4])
        ensures
            r@ == self@,
            is_type_code(r@),
    {
        proof {
            use_type_invariant(self);
        }
        let r = [self.b0, self.b1, self.b2, self.b3];
        assert(r@ =~= self@);
        r
    }

    /// Whether two types have the same four bytes.
    pub fn same_code(&self, other: &ChunkType) -> (r: bool)
        ensures
            r == (self@ == other@),
    {
        let r = *self == *other;
        if !r {
            assert(self@[0] != other@[0] || self@[1] != other@[1] || self@[2] != other@[2]
                || self@[3] != other@[3]);
        } else {
            assert(self@ =~= other@);
        }
        r
    }

    /// The type as a four-letter text.
    pub fn to_string(&self) -> (r: String)
        ensures
            r@ == type_text(self@),
    {
        proof {
            use_type_invariant(self);
            lemma_letters_valid_utf8(self@);
        }
        let mut v: Vec<u8> = Vec::new();
        v.push(self.b0);
        v.push(self.b1);
        v.push(self.b2);
        v.push(self.b3);
        assert(v@ =~= self@);
        match string_from_utf8(v) {
            Some(s) => s,
            None => String::new(),
        }
    }

    /// A critical chunk has an uppercase first letter.
    pub fn is_critical(&self) -> (r: bool)
        ensures
            r == is_upper(self@[0]),
    {
        proof {
            use_type_invariant(self);
        }
        is_bit5_clear(self.b0)
    }

    /// A public chunk has an uppercase second letter.
    pub fn is_public(&self) -> (r: bool)
        ensures
            r == is_upper(self@[1]),
    {
        proof {
            use_type_invariant(self);
        }
        is_bit5_clear(self.b1)
    }

    /// The reserved bit is valid when the third letter is uppercase.
    pub fn is_reserved_bit_valid(&self) -> (r: bool)
        ensures
            r == is_upper(self@[2]),
    {
        proof {
            use_type_invariant(self);
        }
        is_bit5_clear(self.b2)
    }

    /// A chunk that is safe to copy has a lowercase fourth letter.
    pub fn is_safe_to_copy(&self) -> (r: bool)
        ensures
            r == !is_upper(self@[3]),
    {
        proof {
            use_type_invariant(self);
        }
        !is_bit5_clear(self.b3)
    }

    /// A type fit for general use: one whose reserved bit is valid.
    pub fn is_valid(&self) -> (r: bool)
        ensures
            r == is_upper(self@[2]),
    {
        self.is_reserved_bit_valid()
    }
}

} // verus!
