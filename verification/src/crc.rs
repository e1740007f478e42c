//! CRC-32 as PNG uses it: the reflected polynomial `0xEDB88320`, a register
//! that starts at all ones, and a final inversion.
use vstd::prelude::*;

verus! {

/// The generator polynomial, bit-reversed.
pub const POLYNOMIAL: u32 = 0xEDB8_8320;

/// The register before any byte has been fed, and the mask of the final
/// inversion.
pub const ALL_ONES: u32 = 0xFFFF_FFFF;

/// One shift of the register: the lowest bit leaves, and the polynomial is
/// folded in if that bit was set.
pub open spec fn shift_once(reg: u32) -> u32 {
    if reg & 1 == 1 {
        (reg >> 1) ^ POLYNOMIAL
    } else {
        reg >> 1
    }
}

/// The register after `n` shifts.
pub open spec fn shift_bits(reg: u32, n: nat) -> u32
    decreases n,
{
    if n == 0 {
        reg
    } else {
        shift_once(shift_bits(reg, (n - 1) as nat))
    }
}

/// The register after one more byte of input.
pub open spec fn feed_byte(reg: u32, byte: u8) -> u32 {
    shift_bits(reg ^ (byte as u32), 8)
}

/// The register after every byte of `bytes`, first to last.
pub open spec fn feed(reg: u32, bytes: Seq<u8>) -> u32
    decreases bytes.len(),
{
    if bytes.len() == 0 {
        reg
    } else {
        feed_byte(feed(reg, bytes.drop_last()), bytes.last())
    }
}

/// The CRC-32 of `bytes`.
pub open spec fn crc32_spec(bytes: Seq<u8>) -> u32 {
    feed(ALL_ONES, bytes) ^ ALL_ONES
}

/// Feeding `a` and then `b` is feeding their concatenation.
pub proof fn lemma_feed_concat(reg: u32, a: Seq<u8>, b: Seq<u8>)
    ensures
        feed(feed(reg, a), b) == feed(reg, a + b),
    decreases b.len(),
{
    if b.len() == 0 {
        assert(a + b =~= a);
    } else {
        lemma_feed_concat(reg, a, b.drop_last());
        assert((a + b).drop_last() =~= a + b.drop_last());
        assert((a + b).last() == b.last());
    }
}

/// Feeds one byte into the register, bit by bit.
fn step_byte(reg: u32, byte: u8) -> (r: u32)
    ensures
        r == feed_byte(reg, byte),
{
    let start: u32 = reg ^ (byte as u32);
    let mut cur: u32 = start;
    let mut k: u8 = 0;
    while k < 8
        invariant
            k <= 8,
            cur == shift_bits(start, k as nat),
        decreases 8 - k,
    {
        cur = if cur & 1 == 1 {
            (cur >> 1) ^ POLYNOMIAL
        } else {
            cur >> 1
        };
        k += 1;
    }
    cur
}

/// Feeds a whole slice into the register.
pub fn feed_slice(reg: u32, bytes: &[u8]) -> (r: u32)
    ensures
        r == feed(reg, bytes@),
{
    let mut cur: u32 = reg;
    let mut i: usize = 0;
    while i < bytes.len()
        invariant
            i <= bytes.len(),
            cur == feed(reg, bytes@.take(i as int)),
        decreases bytes.len() - i,
    {
        assert(bytes@.take(i + 1).drop_last() =~= bytes@.take(i as int));
        cur = step_byte(cur, bytes[i]);
        i += 1;
    }
    assert(bytes@.take(i as int) =~= bytes@);
    cur
}

/// Computes the CRC-32 of `bytes`.
pub fn crc32(bytes: &[u8]) -> (r: u32)
    ensures
        r == crc32_spec(bytes@),
{
    feed_slice(ALL_ONES, bytes) ^ ALL_ONES
}

} // verus!
