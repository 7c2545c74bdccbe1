//! Small permuted congruential generator, and the per-connection stream key built on it.
use vstd::prelude::*;

verus! {

/// Multiplier of the generator's linear congruential step.
pub const PCG_MULTIPLIER: u64 = 6364136223846793005;

/// Increment of the generator's linear congruential step.
pub const PCG_INCREMENT: u64 = 3217;

/// Seconds that one stream key stays valid.
pub const KEY_PERIOD_SECS: u64 = 5;

/// The state after `s`: `s * PCG_MULTIPLIER + PCG_INCREMENT` modulo 2^64.
pub open spec fn pcg_next(s: u64) -> u64 {
    ((s as int * PCG_MULTIPLIER as int + PCG_INCREMENT as int) % 0x1_0000_0000_0000_0000) as u64
}

/// The 32-bit output drawn from state `s`: the xorshifted high bits, rotated right by the
/// top five bits of `s`.
pub open spec fn pcg_output(s: u64) -> u32 {
    let x = (((s >> 18u64) ^ s) >> 27u64) as u32;
    let rot = (s >> 59u64) as u32;
    (x >> rot) | (x << ((32 - rot) % 32) as u32)
}

/// The 64-bit output drawn from state `s`: two 32-bit outputs, the first in the high half.
pub open spec fn pcg_output_64(s: u64) -> u64 {
    ((pcg_output(s) as u64) << 32u64) | (pcg_output(pcg_next(s)) as u64)
}

/// Draws 32 bits and advances `seed` by one step.
pub fn rng_32(seed: &mut u64) -> (r: u32)
    ensures
        r == pcg_output(*old(seed)),
        *final(seed) == pcg_next(*old(seed)),
{
    let s = *seed;
    let m = s.wrapping_mul(PCG_MULTIPLIER);
    *seed = m.wrapping_add(PCG_INCREMENT);
    proof {
        let p = s as int * PCG_MULTIPLIER as int;
        let q = 0x1_0000_0000_0000_0000int;
        assert(m as int == p % q);
        assert(((p % q) + PCG_INCREMENT as int) % q == (p + PCG_INCREMENT as int) % q) by {
            vstd::arithmetic::div_mod::lemma_add_mod_noop(p, PCG_INCREMENT as int, q);
            vstd::arithmetic::div_mod::lemma_small_mod(PCG_INCREMENT as nat, q as nat);
        }
    }
    let x = (((s >> 18u64) ^ s) >> 27u64) as u32;
    let rot = (s >> 59u64) as u32;
    assert(rot < 32) by (bit_vector)
        requires rot == (s >> 59u64) as u32;
    (x >> rot) | (x << ((32 - rot) % 32))
}

/// Draws 64 bits, two 32-bit draws with the first in the high half, and advances `seed`
/// by two steps.
pub fn rng_64(seed: &mut u64) -> (r: u64)
    ensures
        r == pcg_output_64(*old(seed)),
        *final(seed) == pcg_next(pcg_next(*old(seed))),
{
    let left = rng_32(seed) as u64;
    let right = rng_32(seed) as u64;
    (left << 32u64) | right
}

/// The key that obfuscates a connection's stream: `hashkey` mixed with a draw seeded by the
/// number of whole `KEY_PERIOD_SECS` periods since the Unix epoch.
pub fn session_key(hashkey: u64, unix_secs: u64) -> (r: u64)
    ensures
        r == hashkey ^ pcg_output_64(unix_secs / KEY_PERIOD_SECS),
{
    let mut seed = unix_secs / KEY_PERIOD_SECS;
    hashkey ^ rng_64(&mut seed)
}

} // verus!
