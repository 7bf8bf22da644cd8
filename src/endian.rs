use vstd::prelude::*;

verus! {

/// The four big-endian bytes of `n`.
pub open spec fn u32_be(n: u32) -> Seq<u8> {
    seq![(n >> 24) as u8, (n >> 16) as u8, (n >> 8) as u8, n as u8]
}

/// The number that four bytes spell, most significant first.
pub open spec fn be_u32(s: Seq<u8>) -> u32
    recommends
        s.len() == 4,
{
    ((s[0] as u32) << 24) | ((s[1] as u32) << 16) | ((s[2] as u32) << 8) | (s[3] as u32)
}

/// Reading back the bytes of a number gives the number.
pub proof fn lemma_be_u32_of_u32_be(n: u32)
    ensures
        be_u32(u32_be(n)) == n,
{
    let s = u32_be(n);
    let (a, b, c, d) = (s[0], s[1], s[2], s[3]);
    assert(a == (n >> 24) as u8 && b == (n >> 16) as u8 && c == (n >> 8) as u8 && d == n as u8);
    assert(((((n >> 24) as u8) as u32) << 24) | ((((n >> 16) as u8) as u32) << 16) | ((((n >> 8) as u8)
        as u32) << 8) | ((n as u8) as u32) == n) by (bit_vector);
}

/// Appends the four big-endian bytes of `n`.
pub fn push_u32_be(out: &mut Vec<u8>, n: u32)
    ensures
        final(out)@ == old(out)@ + u32_be(n),
{
    out.push((n >> 24) as u8);
    out.push((n >> 16) as u8);
    out.push((n >> 8) as u8);
    out.push(n as u8);
    proof {
        assert(final(out)@ =~= old(out)@ + u32_be(n));
    }
}

/// The number spelled by the four bytes of `b` that start at `at`.
pub fn read_u32_be(b: &[u8], at: usize) -> (r: u32)
    requires
        at + 4 <= b@.len(),
    ensures
        r == be_u32(b@.subrange(at as int, at + 4)),
{
    ((b[at] as u32) << 24) | ((b[at + 1] as u32) << 16) | ((b[at + 2] as u32) << 8) | (b[at
        + 3] as u32)
}

} // verus!
