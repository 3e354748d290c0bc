//! Randomness for point sampling.  The pipeline only needs a stream of
//! `u64` draws; any implementor of [`RandomSource`] will do.  A small
//! deterministic xorshift generator seeded from 16 bytes is provided, so a
//! fixed seed reproduces the same stream on every run.

use vstd::prelude::*;

verus! {

/// A supplier of uniform raw draws.  No distribution is promised at this
/// level; callers reduce a draw modulo the range they need.
pub trait RandomSource {
    /// The next raw draw.
    fn next_u64(&mut self) -> u64;
}

/// State of the xorshift128 generator: four 32-bit words, never all zero.
#[derive(Clone, Copy, Debug, PartialEq, Eq, Structural)]
pub struct XorShiftRng {
    pub x: u32,
    pub y: u32,
    pub z: u32,
    pub w: u32,
}

/// One xorshift128 step: the next state as a function of the current one.
pub open spec fn xorshift_step(s: XorShiftRng) -> XorShiftRng {
    let t = s.x ^ (s.x << 11u32);
    XorShiftRng { x: s.y, y: s.z, z: s.w, w: s.w ^ (s.w >> 19u32) ^ t ^ (t >> 8u32) }
}

/// A 32-bit word read little-endian from four seed bytes.
pub open spec fn word_from_bytes(b0: u8, b1: u8, b2: u8, b3: u8) -> u32 {
    (b0 as u32) | ((b1 as u32) << 8u32) | ((b2 as u32) << 16u32) | ((b3 as u32) << 24u32)
}

/// The generator state a 16-byte seed produces: four little-endian words,
/// replaced by a fixed nonzero state when all sixteen bytes are zero.
pub open spec fn seeded_state(seed: Seq<u8>) -> XorShiftRng {
    let s = XorShiftRng {
        x: word_from_bytes(seed[0], seed[1], seed[2], seed[3]),
        y: word_from_bytes(seed[4], seed[5], seed[6], seed[7]),
        z: word_from_bytes(seed[8], seed[9], seed[10], seed[11]),
        w: word_from_bytes(seed[12], seed[13], seed[14], seed[15]),
    };
    if s.x == 0 && s.y == 0 && s.z == 0 && s.w == 0 {
        XorShiftRng { x: 0xBAD5EED1, y: 0xBAD5EED3, z: 0xBAD5EED5, w: 0xBAD5EED7 }
    } else {
        s
    }
}

impl XorShiftRng {
    /// Builds a generator from a 16-byte seed.  Equal seeds give equal
    /// generators, so the whole pipeline is reproducible from the seed.
    pub fn from_seed(seed: [u8; 16]) -> (r: Self)
        ensures
            r == seeded_state(seed@),
    {
        let x = word(seed[0], seed[1], seed[2], seed[3]);
        let y = word(seed[4], seed[5], seed[6], seed[7]);
        let z = word(seed[8], seed[9], seed[10], seed[11]);
        let w = word(seed[12], seed[13], seed[14], seed[15]);
        if x == 0 && y == 0 && z == 0 && w == 0 {
            XorShiftRng { x: 0xBAD5EED1, y: 0xBAD5EED3, z: 0xBAD5EED5, w: 0xBAD5EED7 }
        } else {
            XorShiftRng { x, y, z, w }
        }
    }

    /// Advances the state by one xorshift128 step and returns the new `w`
    /// word.
    pub fn next_u32(&mut self) -> (r: u32)
        ensures
            *final(self) == xorshift_step(*old(self)),
            r == final(self).w,
    {
        let t = self.x ^ (self.x << 11u32);
        self.x = self.y;
        self.y = self.z;
        self.z = self.w;
        self.w = self.w ^ (self.w >> 19u32) ^ t ^ (t >> 8u32);
        self.w
    }
}

impl RandomSource for XorShiftRng {
    fn next_u64(&mut self) -> u64 {
        let hi = self.next_u32();
        let lo = self.next_u32();
        ((hi as u64) << 32u64) | (lo as u64)
    }
}

fn word(b0: u8, b1: u8, b2: u8, b3: u8) -> (r: u32)
    ensures
        r == word_from_bytes(b0, b1, b2, b3),
{
    (b0 as u32) | ((b1 as u32) << 8u32) | ((b2 as u32) << 16u32) | ((b3 as u32) << 24u32)
}

} // verus!
