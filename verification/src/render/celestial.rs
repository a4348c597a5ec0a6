//! Reproducible star placement draws.

use vstd::prelude::*;

verus! {

/// One step of the linear congruential generator that scatters stars:
/// multiply by 6364136223846793005 and add 1, modulo 2^64.
pub open spec fn star_lcg(seed: u64) -> u64 {
    ((seed as nat * 6364136223846793005nat + 1) % 0x1_0000_0000_0000_0000nat) as u64
}

/// Advance the star generator by one step.
pub fn next_star_seed(seed: u64) -> (r: u64)
    ensures
        r == star_lcg(seed),
{
    let m = seed.wrapping_mul(6364136223846793005);
    let r = m.wrapping_add(1);
    proof {
        let p = seed as nat * 6364136223846793005nat;
        let modulus = 0x1_0000_0000_0000_0000nat;
        assert(m == p % modulus);
        vstd::arithmetic::div_mod::lemma_add_mod_noop(p as int, 1, modulus as int);
        vstd::arithmetic::div_mod::lemma_small_mod(1, modulus);
        vstd::arithmetic::div_mod::lemma_mod_pos_bound(p as int, modulus as int);
        if m + 1 == modulus {
            vstd::arithmetic::div_mod::lemma_mod_self_0(modulus as int);
        } else {
            vstd::arithmetic::div_mod::lemma_small_mod((m + 1) as nat, modulus);
        }
    }
    r
}

/// The 31 high bits of a generator state: the value scaled into the unit
/// interval to place a star.
pub fn star_sample_bits(seed: u64) -> (r: u32)
    ensures
        r == seed / 0x2_0000_0000,
        r < 0x8000_0000,
{
    let r = (seed >> 33) as u32;
    proof {
        assert(r == seed / 0x2_0000_0000 && r < 0x8000_0000) by (bit_vector)
            requires
                r == (seed >> 33) as u32,
        ;
    }
    r
}

/// Four successive draws for one star (azimuth, elevation, size and
/// brightness), and the generator state after them.
pub fn draw_star(seed: u64) -> (r: (u64, [u32; 4]))
    ensures
        r.0 == star_lcg(star_lcg(star_lcg(star_lcg(seed)))),
        r.1@[0] == star_lcg(seed) / 0x2_0000_0000,
        r.1@[1] == star_lcg(star_lcg(seed)) / 0x2_0000_0000,
        r.1@[2] == star_lcg(star_lcg(star_lcg(seed))) / 0x2_0000_0000,
        r.1@[3] == star_lcg(star_lcg(star_lcg(star_lcg(seed)))) / 0x2_0000_0000,
{
    let s1 = next_star_seed(seed);
    let r1 = star_sample_bits(s1);
    let s2 = next_star_seed(s1);
    let r2 = star_sample_bits(s2);
    let s3 = next_star_seed(s2);
    let r3 = star_sample_bits(s3);
    let s4 = next_star_seed(s3);
    let r4 = star_sample_bits(s4);
    (s4, [r1, r2, r3, r4])
}

} // verus!
