//! Reading a random word out of a host-supplied seed.
//!
//! The host environment hands the engine an opaque byte string of
//! randomness per call.  The engine reads one 32-bit word out of it: the
//! seed is rotated left by `shift % len` bytes and the first four bytes of
//! the rotation are taken little-endian.  The word is a function of the
//! bytes and the shift alone, so everything downstream of the host call is
//! deterministic and verified.

use vstd::prelude::*;

verus! {

/// The word read from `seed` at byte rotation `shift % len`: the four bytes
/// there, little-endian.
pub open spec fn seed_word(seed: Seq<u8>, shift: nat) -> int {
    let n = seed.len();
    let i0 = shift % n;
    let i1 = (i0 + 1) % n;
    let i2 = (i1 + 1) % n;
    let i3 = (i2 + 1) % n;
    seed[i0 as int] + seed[i1 as int] * 0x100 + seed[i2 as int] * 0x1_0000 + seed[i3 as int]
        * 0x100_0000
}

/// The 32-bit random number taken from a host randomness seed, after
/// rotating the seed left by `shift_amount` bytes (modulo its length).
pub fn get_random_number(seed: &[u8], shift_amount: u32) -> (r: u32)
    requires
        seed@.len() >= 4,
    ensures
        r == seed_word(seed@, shift_amount as nat),
{
    let n = seed.len();
    let mut i: usize = (shift_amount as usize) % n;
    let b0 = seed[i];
    i = (i + 1) % n;
    let b1 = seed[i];
    i = (i + 1) % n;
    let b2 = seed[i];
    i = (i + 1) % n;
    let b3 = seed[i];
    b0 as u32 + b1 as u32 * 0x100 + b2 as u32 * 0x1_0000 + b3 as u32 * 0x100_0000
}

} // verus!
