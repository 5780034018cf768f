//! CRC-32 with the IEEE 802.3 polynomial, bit by bit, as U-Boot's `crc32`
//! command computes it: the host reruns it over the received bytes and
//! compares against the device's result.
use vstd::prelude::*;

verus! {

/// The reflected IEEE 802.3 polynomial.
pub const CRC32_POLY: u32 = 0xEDB8_8320;

/// The register every computation starts from.
pub const CRC32_INIT: u32 = 0xFFFF_FFFF;

/// One shift round of the register.
pub open spec fn crc32_step(crc: u32) -> u32 {
    if crc & 1 == 1 {
        (crc >> 1) ^ CRC32_POLY
    } else {
        crc >> 1
    }
}

/// `n` shift rounds of the register.
pub open spec fn crc32_rounds(crc: u32, n: nat) -> u32
    decreases n,
{
    if n == 0 {
        crc
    } else {
        crc32_rounds(crc32_step(crc), (n - 1) as nat)
    }
}

/// The register after absorbing one byte: the byte enters the low bits and
/// eight shift rounds follow.
pub open spec fn crc32_byte(crc: u32, b: u8) -> u32 {
    crc32_rounds(crc ^ (b as u32), 8)
}

/// The register after absorbing a byte sequence, oldest byte first.
pub open spec fn crc32_fold(crc: u32, s: Seq<u8>) -> u32
    decreases s.len(),
{
    if s.len() == 0 {
        crc
    } else {
        crc32_byte(crc32_fold(crc, s.drop_last()), s.last())
    }
}

/// The checksum of a byte sequence: fold from the all-ones register, then
/// complement.
pub open spec fn crc32_of(s: Seq<u8>) -> u32 {
    crc32_fold(CRC32_INIT, s) ^ 0xFFFF_FFFFu32
}

/// Absorbing a concatenation is absorbing its parts in turn.
pub proof fn lemma_crc32_fold_append(crc: u32, a: Seq<u8>, b: Seq<u8>)
    ensures
        crc32_fold(crc, a + b) == crc32_fold(crc32_fold(crc, a), b),
    decreases b.len(),
{
    if b.len() == 0 {
        assert(a + b =~= a);
    } else {
        lemma_crc32_fold_append(crc, a, b.drop_last());
        assert((a + b).drop_last() =~= a + b.drop_last());
        assert((a + b).last() == b.last());
    }
}

/// Absorb one byte into the running register.
pub fn crc32_update(crc: u32, b: u8) -> (r: u32)
    ensures
        r == crc32_byte(crc, b),
{
    let mut cur = crc ^ (b as u32);
    let mut n: usize = 0;
    while n < 8
        invariant
            n <= 8,
            cur == crc32_rounds(crc ^ (b as u32), n as nat),
        decreases 8 - n,
    {
        proof {
            lemma_crc32_rounds_snoc(crc ^ (b as u32), n as nat);
        }
        if cur & 1 == 1 {
            cur = (cur >> 1) ^ CRC32_POLY;
        } else {
            cur = cur >> 1;
        }
        n = n + 1;
    }
    cur
}

/// Appending one round to the iteration applies the step to the result.
proof fn lemma_crc32_rounds_snoc(crc: u32, n: nat)
    ensures
        crc32_rounds(crc, n + 1) == crc32_step(crc32_rounds(crc, n)),
    decreases n,
{
    if n == 0 {
        assert(crc32_rounds(crc, 1) == crc32_rounds(crc32_step(crc), 0));
        assert(crc32_rounds(crc32_step(crc), 0) == crc32_step(crc));
    } else {
        lemma_crc32_rounds_snoc(crc32_step(crc), (n - 1) as nat);
        assert(crc32_rounds(crc, n + 1) == crc32_rounds(crc32_step(crc), n));
        assert(crc32_rounds(crc, n) == crc32_rounds(crc32_step(crc), (n - 1) as nat));
    }
}

/// Absorb a byte slice into the running register.
pub fn crc32_update_bytes(crc: u32, s: &[u8]) -> (r: u32)
    ensures
        r == crc32_fold(crc, s@),
{
    let mut cur = crc;
    let mut i: usize = 0;
    while i < s.len()
        invariant
            i <= s@.len(),
            cur == crc32_fold(crc, s@.take(i as int)),
        decreases s@.len() - i,
    {
        proof {
            assert(s@.take(i + 1).drop_last() =~= s@.take(i as int));
            assert(s@.take(i + 1).last() == s@[i as int]);
        }
        cur = crc32_update(cur, s[i]);
        i = i + 1;
    }
    proof {
        assert(s@.take(s@.len() as int) =~= s@);
    }
    cur
}

/// The checksum of a whole byte slice.
pub fn crc32(s: &[u8]) -> (r: u32)
    ensures
        r == crc32_of(s@),
{
    crc32_update_bytes(CRC32_INIT, s) ^ 0xFFFF_FFFF
}

} // verus!
