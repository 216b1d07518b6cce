//! The Mersenne Twister generator MT19937 and a byte stream drawn from it.

use vstd::prelude::*;
use crate::bits::{be_byte, word_byte};

verus! {

/// Word `i` of the state that a seed gives: the seed itself, then each word
/// from the one before it.
pub open spec fn seed_word(seed: u32, i: int) -> u32
    decreases i,
{
    if i <= 0 {
        seed
    } else {
        let prev = seed_word(seed, i - 1);
        1812433253u32.wrapping_mul(prev ^ (prev >> 30)).wrapping_add(i as u32)
    }
}

/// The state that a seed gives.
pub open spec fn seed_state(seed: u32) -> Seq<u32> {
    Seq::new(624, |i: int| seed_word(seed, i))
}

/// The word that replaces word `i` of the state when it is drawn: the top
/// bit of word `i` and the low bits of the next word, shifted right and
/// marked where the lowest bit was set, xored with the word 397 places on.
pub open spec fn twist(state: Seq<u32>, i: int) -> u32 {
    let x = (state[i] & 0x8000_0000) | (state[(i + 1) % 624] & 0x7fff_ffff);
    let xa = if (x & 1) > 0 {
        (x >> 1) ^ 0x9908_b0df
    } else {
        x >> 1
    };
    state[(i + 397) % 624] ^ xa
}

/// The output made from a state word.
pub open spec fn temper(x: u32) -> u32 {
    let y1 = x ^ (x >> 11);
    let y2 = y1 ^ ((y1 << 7) & 0x9d2c_5680);
    let y3 = y2 ^ ((y2 << 15) & 0xefc6_0000);
    y3 ^ (y3 >> 18)
}

/// The generator: 624 words of state and the place of the next word to draw.
pub struct MersenneTwister {
    index: usize,
    state: [u32; 624],
}

impl MersenneTwister {
    /// The place of the next word to draw.
    pub closed spec fn index(&self) -> int {
        self.index as int
    }

    /// The words of the state.
    pub closed spec fn state(&self) -> Seq<u32> {
        self.state@
    }

    /// The place of the next word lies inside the state.
    pub open spec fn wf(&self) -> bool {
        0 <= self.index() < 624
    }

    /// A generator with the state that the seed gives.
    pub fn new(seed: u32) -> (r: Self)
        ensures
            r.wf(),
            r.index() == 0,
            r.state() == seed_state(seed),
    {
        let mut state: [u32; 624] = [0u32; 624];
        state[0] = seed;
        let mut seed: u32 = seed;
        let ghost seed0 = seed;
        let mut i: usize = 1;
        while i < 624
            invariant
                1 <= i <= 624,
                seed == seed_word(seed0, i - 1),
                forall|j: int| 0 <= j < i ==> state@[j] == seed_word(seed0, j),
            decreases 624 - i,
        {
            seed = 1812433253u32.wrapping_mul(seed ^ (seed >> 30)).wrapping_add(i as u32);
            state[i] = seed;
            i += 1;
        }
        assert(state@ =~= seed_state(seed0));
        Self { index: 0, state }
    }

    /// A generator with a copy of the given state, at its first word.
    pub fn from_state(state: &[u32; 624]) -> (r: Self)
        ensures
            r.wf(),
            r.index() == 0,
            r.state() == state@,
    {
        Self { index: 0, state: *state }
    }

    /// Draws the next number: the word at the current place is replaced by
    /// its twist, and the output is the tempered new word.
    pub fn get(&mut self) -> (r: u32)
        requires
            old(self).wf(),
        ensures
            final(self).wf(),
            r == temper(twist(old(self).state(), old(self).index())),
            final(self).state() == old(self).state().update(
                old(self).index(),
                twist(old(self).state(), old(self).index()),
            ),
            final(self).index() == (old(self).index() + 1) % 624,
    {
        let x: u32 = (self.state[self.index] & 0x8000_0000) | (self.state[(self.index + 1) % 624]
            & 0x7fff_ffff);
        let mut xa: u32 = x >> 1;
        if (x & 1) > 0 {
            xa = xa ^ 0x9908_b0df;
        }
        let x: u32 = self.state[(self.index + 397) % 624] ^ xa;
        self.state[self.index] = x;
        self.index = (self.index + 1) % 624;
        let mut y: u32 = x;
        y = y ^ (x >> 11);
        y = y ^ ((y << 7) & 0x9d2c_5680);
        y = y ^ ((y << 15) & 0xefc6_0000);
        y ^ (y >> 18)
    }
}

/// A stream of bytes: each number of a generator, most significant byte
/// first.
pub struct MersenneStream {
    twister: MersenneTwister,
    bytes: [u8; 4],
    index: usize,
}

impl MersenneStream {
    /// The generator behind the stream.
    pub closed spec fn twister(&self) -> MersenneTwister {
        self.twister
    }

    /// The bytes of the number drawn last.
    pub closed spec fn bytes(&self) -> Seq<u8> {
        self.bytes@
    }

    /// The place of the next byte among the four; four or more where a
    /// number has to be drawn first.
    pub closed spec fn index(&self) -> int {
        self.index as int
    }

    /// The generator is well formed and the place of the next byte is at most
    /// one past the last.
    pub open spec fn wf(&self) -> bool {
        self.twister().wf() && 0 <= self.index() <= 4
    }

    /// A stream over the generator of the seed, with no number drawn yet.
    pub fn new(seed: u16) -> (r: Self)
        ensures
            r.wf(),
            r.index() == 4,
            r.twister().index() == 0,
            r.twister().state() == seed_state(seed as u32),
    {
        Self { twister: MersenneTwister::new(seed as u32), bytes: [0u8; 4], index: 4 }
    }

    /// The next byte of the stream. Once the four bytes of a number are
    /// used, the next number is drawn.
    pub fn next(&mut self) -> (r: Option<u8>)
        requires
            old(self).wf(),
        ensures
            final(self).wf(),
            old(self).index() < 4 ==> {
                &&& r == Some(old(self).bytes()[old(self).index()])
                &&& final(self).index() == old(self).index() + 1
                &&& final(self).bytes() == old(self).bytes()
                &&& final(self).twister() == old(self).twister()
            },
            old(self).index() >= 4 ==> {
                let t = old(self).twister();
                let word = temper(twist(t.state(), t.index()));
                &&& r == Some(be_byte(word, 0))
                &&& final(self).index() == 1
                &&& final(self).bytes() == seq![
                    be_byte(word, 0),
                    be_byte(word, 1),
                    be_byte(word, 2),
                    be_byte(word, 3),
                ]
                &&& final(self).twister().state() == t.state().update(
                    t.index(),
                    twist(t.state(), t.index()),
                )
                &&& final(self).twister().index() == (t.index() + 1) % 624
            },
    {
        if self.index > 3 {
            let word = self.twister.get();
            self.bytes[0] = word_byte(word, 0);
            self.bytes[1] = word_byte(word, 1);
            self.bytes[2] = word_byte(word, 2);
            self.bytes[3] = word_byte(word, 3);
            self.index = 0;
            assert(self.bytes@ =~= seq![
                be_byte(word, 0),
                be_byte(word, 1),
                be_byte(word, 2),
                be_byte(word, 3),
            ]);
        }
        let byte = self.bytes[self.index];
        self.index += 1;
        Some(byte)
    }
}

} // verus!
