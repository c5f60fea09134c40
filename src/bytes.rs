use vstd::prelude::*;

verus! {

/// The big-endian `u32` held by four bytes.
pub open spec fn be32_value(s: Seq<u8>) -> u32 {
    (s[0] as u32) << 24u32 | (s[1] as u32) << 16u32 | (s[2] as u32) << 8u32 | (s[3] as u32)
}

/// The four bytes of `x`, most significant first.
pub open spec fn be32_bytes(x: u32) -> Seq<u8> {
    seq![(x >> 24u32) as u8, (x >> 16u32) as u8, (x >> 8u32) as u8, x as u8]
}

/// Writing a `u32` big-endian and reading it back gives the same value.
pub proof fn lemma_be32_value_of_bytes(x: u32)
    ensures
        be32_value(be32_bytes(x)) == x,
{
    let b = be32_bytes(x);
    assert(((((x >> 24u32) as u8) as u32) << 24u32 | (((x >> 16u32) as u8) as u32) << 16u32
        | (((x >> 8u32) as u8) as u32) << 8u32 | ((x as u8) as u32)) == x) by (bit_vector);
}

/// Reading four bytes big-endian and writing the value back gives the same bytes.
pub proof fn lemma_be32_bytes_of_value(s: Seq<u8>)
    requires
        s.len() == 4,
    ensures
        be32_bytes(be32_value(s)) == s,
{
    let (b0, b1, b2, b3) = (s[0], s[1], s[2], s[3]);
    let v = be32_value(s);
    assert(v == ((b0 as u32) << 24u32 | (b1 as u32) << 16u32 | (b2 as u32) << 8u32 | (b3 as u32)));
    assert((v >> 24u32) as u8 == b0 && (v >> 16u32) as u8 == b1 && (v >> 8u32) as u8 == b2
        && v as u8 == b3) by (bit_vector)
        requires
            v == ((b0 as u32) << 24u32 | (b1 as u32) << 16u32 | (b2 as u32) << 8u32 | (b3 as u32)),
    ;
    assert(be32_bytes(v) =~= s);
}

/// The big-endian `u32` at `at` in `b`.
pub(crate) fn read_be32(b: &[u8], at: usize) -> (r: u32)
    requires
        at + 4 <= b@.len(),
    ensures
        r == be32_value(b@.subrange(at as int, at + 4)),
{
    let s = Ghost(b@.subrange(at as int, at + 4));
    assert(s@[0] == b@[at as int] && s@[1] == b@[at + 1] && s@[2] == b@[at + 2] && s@[3] == b@[at
        + 3]);
    (b[at] as u32) << 24u32 | (b[at + 1] as u32) << 16u32 | (b[at + 2] as u32) << 8u32 | (b[at
        + 3] as u32)
}

/// Appends `x` to `out`, most significant byte first.
pub(crate) fn push_be32(out: &mut Vec<u8>, x: u32)
    ensures
        final(out)@ == old(out)@ + be32_bytes(x),
{
    out.push((x >> 24u32) as u8);
    out.push((x >> 16u32) as u8);
    out.push((x >> 8u32) as u8);
    out.push(x as u8);
    assert(final(out)@ =~= old(out)@ + be32_bytes(x));
}

/// Appends the bytes of `src` to `out`, in order.
pub(crate) fn push_all(out: &mut Vec<u8>, src: &[u8])
    ensures
        final(out)@ == old(out)@ + src@,
{
    let ghost start = out@;
    let mut i: usize = 0;
    while i < src.len()
        invariant
            0 <= i <= src@.len(),
            out@ == start + src@.subrange(0, i as int),
        decreases src@.len() - i,
    {
        out.push(src[i]);
        i = i + 1;
        assert(out@ =~= start + src@.subrange(0, i as int));
    }
    assert(src@.subrange(0, src@.len() as int) =~= src@);
}

} // verus!
