//! The sim state fingerprint: an FNV-1a hash over 32-bit words of the
//! soldier columns on a fixed tick cadence, the bit-identity test for
//! refactors (equal hashes at equal ticks). The words of a float column
//! are its bit patterns; the byte columns of a soldier pack into one word.
use vstd::prelude::*;

verus! {

/// FNV-1a offset basis (64-bit).
pub const FNV_OFFSET: u64 = 0xcbf2_9ce4_8422_2325;

/// FNV-1a prime (64-bit).
pub const FNV_PRIME: u64 = 0x0000_0100_0000_01b3;

/// Ticks between two fingerprints unless another period is asked for.
pub const HASH_EVERY_DEFAULT: u32 = 150;

/// One FNV-1a step: fold the word in, then multiply modulo 2^64.
pub open spec fn fnv_step(h: u64, w: u32) -> u64 {
    (((h ^ (w as u64)) as nat * FNV_PRIME as nat) % 0x1_0000_0000_0000_0000nat) as u64
}

/// The FNV-1a hash of a word sequence.
pub open spec fn fnv(words: Seq<u32>) -> u64
    decreases words.len(),
{
    if words.len() == 0 {
        FNV_OFFSET
    } else {
        fnv_step(fnv(words.drop_last()), words.last())
    }
}

/// Hash the words in order.
pub fn fnv1a(words: &[u32]) -> (h: u64)
    ensures
        h == fnv(words@),
{
    let mut h: u64 = FNV_OFFSET;
    let mut i: usize = 0;
    while i < words.len()
        invariant
            i <= words.len(),
            h == fnv(words@.take(i as int)),
        decreases words.len() - i,
    {
        proof {
            assert(words@.take(i + 1).drop_last() =~= words@.take(i as int));
        }
        h = h ^ (words[i] as u64);
        h = h.wrapping_mul(FNV_PRIME);
        i = i + 1;
    }
    proof {
        assert(words@.take(words.len() as int) =~= words@);
    }
    h
}

/// A soldier's byte columns as one little-endian word: death timer, swing
/// state, swing timer, arrows.
pub fn soldier_word(death_t: u8, swing: u8, swing_t: u8, ammo: u8) -> (w: u32)
    ensures
        w == death_t + 256 * swing + 65536 * swing_t + 16777216 * ammo,
{
    death_t as u32 + 256 * (swing as u32) + 65536 * (swing_t as u32) + 16777216 * (ammo as u32)
}

/// The fingerprint period: the period asked for when it is above one,
/// else every `HASH_EVERY_DEFAULT` ticks.
pub fn hash_period(asked: u32) -> (every: u32)
    ensures
        every == if asked > 1 { asked } else { HASH_EVERY_DEFAULT },
        every > 1,
{
    if asked > 1 { asked } else { HASH_EVERY_DEFAULT }
}

/// Whether this tick takes a fingerprint.
pub fn hash_due(tick: u32, every: u32) -> (due: bool)
    requires
        every > 0,
    ensures
        due == (tick % every == 0),
{
    tick % every == 0
}

} // verus!
