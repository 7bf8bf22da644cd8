use vstd::prelude::*;

verus! {

/// The reflected CRC-32 polynomial of ISO 3309, as PNG uses it.
pub const POLY: u32 = 0xEDB88320;

/// One bit of the CRC-32 register update.
pub open spec fn crc_step(c: u32) -> u32 {
    if c & 1 == 1 {
        (c >> 1) ^ POLY
    } else {
        c >> 1
    }
}

/// `n` bit steps of the register.
pub open spec fn crc_steps(c: u32, n: nat) -> u32
    decreases n,
{
    if n == 0 {
        c
    } else {
        crc_step(crc_steps(c, (n - 1) as nat))
    }
}

/// The register after taking in one byte.
pub open spec fn crc_byte(c: u32, b: u8) -> u32 {
    crc_steps(c ^ (b as u32), 8)
}

/// The register after taking in the bytes of `s`, starting from `init`.
pub open spec fn crc_fold(init: u32, s: Seq<u8>) -> u32
    decreases s.len(),
{
    if s.len() == 0 {
        init
    } else {
        crc_byte(crc_fold(init, s.drop_last()), s.last())
    }
}

/// The CRC-32 of `s` (initial register all ones, result inverted).
pub open spec fn crc32(s: Seq<u8>) -> u32 {
    crc_fold(0xFFFF_FFFF, s) ^ 0xFFFF_FFFF
}

/// The register after taking in `bytes`, starting from `c`.
pub fn crc_update(c: u32, bytes: &[u8]) -> (r: u32)
    ensures
        r == crc_fold(c, bytes@),
{
    let mut reg: u32 = c;
    let mut i: usize = 0;
    while i < bytes.len()
        invariant
            i <= bytes@.len(),
            reg == crc_fold(c, bytes@.subrange(0, i as int)),
        decreases bytes@.len() - i,
    {
        proof {
            let s = bytes@.subrange(0, i + 1);
            assert(s.drop_last() =~= bytes@.subrange(0, i as int));
        }
        reg = reg ^ (bytes[i] as u32);
        let mut k: usize = 0;
        let start = Ghost(reg);
        while k < 8
            invariant
                k <= 8,
                reg == crc_steps(start@, k as nat),
            decreases 8 - k,
        {
            if reg & 1 == 1 {
                reg = (reg >> 1) ^ POLY;
            } else {
                reg = reg >> 1;
            }
            k = k + 1;
        }
        i = i + 1;
    }
    proof {
        assert(bytes@.subrange(0, bytes@.len() as int) =~= bytes@);
    }
    reg
}

/// Taking in `a + b` is taking in `a`, then `b`.
pub proof fn lemma_crc_fold_append(init: u32, a: Seq<u8>, b: Seq<u8>)
    ensures
        crc_fold(init, a + b) == crc_fold(crc_fold(init, a), b),
    decreases b.len(),
{
    if b.len() == 0 {
        assert(a + b =~= a);
    } else {
        assert((a + b).drop_last() =~= a + b.drop_last());
        lemma_crc_fold_append(init, a, b.drop_last());
    }
}

/// Distinct registers stay distinct after a bit step.
proof fn lemma_step_injective(x: u32, y: u32)
    requires
        x != y,
    ensures
        crc_step(x) != crc_step(y),
{
    assert((if x & 1 == 1 { (x >> 1) ^ 0xEDB88320u32 } else { x >> 1 }) != (if y & 1 == 1 {
        (y >> 1) ^ 0xEDB88320u32
    } else {
        y >> 1
    })) by (bit_vector)
        requires
            x != y,
    ;
}

/// Distinct registers stay distinct after any number of bit steps.
proof fn lemma_steps_injective(x: u32, y: u32, n: nat)
    requires
        x != y,
    ensures
        crc_steps(x, n) != crc_steps(y, n),
    decreases n,
{
    if n > 0 {
        lemma_steps_injective(x, y, (n - 1) as nat);
        lemma_step_injective(crc_steps(x, (n - 1) as nat), crc_steps(y, (n - 1) as nat));
    }
}

/// Two byte sequences that differ in exactly one position leave different
/// registers: a change confined to one byte is always detected.
pub proof fn lemma_crc_fold_one_byte(init: u32, s1: Seq<u8>, s2: Seq<u8>, j: int)
    requires
        s1.len() == s2.len(),
        0 <= j < s1.len(),
        s1[j] != s2[j],
        forall|k: int| 0 <= k < s1.len() && k != j ==> s1[k] == s2[k],
    ensures
        crc_fold(init, s1) != crc_fold(init, s2),
    decreases s1.len(),
{
    let last = s1.len() - 1;
    let r1 = crc_fold(init, s1.drop_last());
    let r2 = crc_fold(init, s2.drop_last());
    if j == last {
        assert(s1.drop_last() =~= s2.drop_last());
        let (a, b) = (s1.last(), s2.last());
        assert(r1 ^ (a as u32) != r1 ^ (b as u32)) by (bit_vector)
            requires
                a != b,
        ;
        lemma_steps_injective(r1 ^ (a as u32), r1 ^ (b as u32), 8);
    } else {
        lemma_crc_fold_one_byte(init, s1.drop_last(), s2.drop_last(), j);
        let c = s1.last();
        assert(s2.last() == c);
        assert(r1 ^ (c as u32) != r2 ^ (c as u32)) by (bit_vector)
            requires
                r1 != r2,
        ;
        lemma_steps_injective(r1 ^ (c as u32), r2 ^ (c as u32), 8);
    }
}

/// CRC-32 of two byte sequences that differ in exactly one position differs.
pub proof fn lemma_crc32_one_byte(s1: Seq<u8>, s2: Seq<u8>, j: int)
    requires
        s1.len() == s2.len(),
        0 <= j < s1.len(),
        s1[j] != s2[j],
        forall|k: int| 0 <= k < s1.len() && k != j ==> s1[k] == s2[k],
    ensures
        crc32(s1) != crc32(s2),
{
    let r1 = crc_fold(0xFFFF_FFFF, s1);
    let r2 = crc_fold(0xFFFF_FFFF, s2);
    lemma_crc_fold_one_byte(0xFFFF_FFFF, s1, s2, j);
    assert(r1 ^ 0xFFFF_FFFFu32 != r2 ^ 0xFFFF_FFFFu32) by (bit_vector)
        requires
            r1 != r2,
    ;
}

} // verus!
