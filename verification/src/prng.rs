//! The xorshift64 generator that supplies both block contents and random
//! block choices.

use vstd::prelude::*;

verus! {

/// The seed every benchmark starts its generator from.
pub const SEED: u64 = 42;

/// One round of the xorshift64 recurrence.
pub open spec fn xorshift_step(x: u64) -> u64 {
    let a = x ^ (x << 13);
    let b = a ^ (a >> 7);
    b ^ (b << 17)
}

/// The generator state after `n` draws that started from state `s`. For
/// `n > 0` this is also the word returned by the `n`-th of those draws.
pub open spec fn state_after(s: u64, n: nat) -> u64
    decreases n,
{
    if n == 0 {
        s
    } else {
        xorshift_step(state_after(s, (n - 1) as nat))
    }
}

/// The low eight bits of a generated word: the only part used as content.
pub open spec fn low_byte(x: u64) -> u8 {
    (x & 0xff) as u8
}

/// The next `n` content bytes of a generator in state `s`: one byte per
/// generated word.
pub open spec fn stream(s: u64, n: nat) -> Seq<u8> {
    Seq::new(n, |i: int| low_byte(state_after(s, (i + 1) as nat)))
}

/// Drawing `a` words and then `b` more is the same as drawing `a + b`.
pub proof fn lemma_state_after_add(s: u64, a: nat, b: nat)
    ensures
        state_after(state_after(s, a), b) == state_after(s, a + b),
    decreases b,
{
    if b > 0 {
        lemma_state_after_add(s, a, (b - 1) as nat);
    }
}

/// The byte stream of `a + b` bytes splits into the first `a` bytes and the
/// `b` bytes that the advanced generator yields.
pub proof fn lemma_stream_split(s: u64, a: nat, b: nat)
    ensures
        stream(s, a + b) =~= stream(s, a) + stream(state_after(s, a), b),
{
    let whole = stream(s, a + b);
    let tail = stream(state_after(s, a), b);
    assert forall|i: int| a <= i < a + b implies #[trigger] whole[i] == tail[i - a] by {
        lemma_state_after_add(s, a, (i - a + 1) as nat);
    }
}

/// A xorshift64 generator. It remembers the seed it was made from and counts
/// its draws, so that every word it returns is a function of the two.
pub struct Xorshift64 {
    seed: u64,
    state: u64,
    draws: Ghost<nat>,
}

impl Xorshift64 {
    #[verifier::type_invariant]
    spec fn consistent(self) -> bool {
        self.state == state_after(self.seed, self.draws@)
    }

    /// The seed the generator was made from.
    pub closed spec fn seed(&self) -> u64 {
        self.seed
    }

    /// How many words have been drawn so far.
    pub closed spec fn draws(&self) -> nat {
        self.draws@
    }

    /// The current internal state.
    pub closed spec fn state(&self) -> u64 {
        self.state
    }

    /// Advances the generator and returns the new state.
    pub fn next_u64(&mut self) -> (word: u64)
        ensures
            word == xorshift_step(old(self).state()),
            word == state_after(old(self).seed(), old(self).draws() + 1),
            final(self).state() == word,
            final(self).seed() == old(self).seed(),
            final(self).draws() == old(self).draws() + 1,
    {
        proof {
            use_type_invariant(&*self);
        }
        let mut x = self.state;
        x ^= x << 13;
        x ^= x >> 7;
        x ^= x << 17;
        *self = Xorshift64 { seed: self.seed, state: x, draws: Ghost((self.draws@ + 1) as nat) };
        x
    }

    /// Draws one word and keeps its low byte.
    pub fn next_byte(&mut self) -> (byte: u8)
        ensures
            byte == low_byte(xorshift_step(old(self).state())),
            byte == low_byte(state_after(old(self).seed(), old(self).draws() + 1)),
            final(self).state() == xorshift_step(old(self).state()),
            final(self).seed() == old(self).seed(),
            final(self).draws() == old(self).draws() + 1,
    {
        let x = self.next_u64();
        (x & 0xff) as u8
    }

    /// Overwrites the first `len` bytes of `buffer` with the next `len`
    /// content bytes, one draw per byte. The rest of the buffer is untouched.
    pub fn fill(&mut self, buffer: &mut Vec<u8>, len: usize)
        requires
            len <= old(buffer).len(),
        ensures
            final(buffer).len() == old(buffer).len(),
            final(buffer)@.subrange(0, len as int) == stream(old(self).state(), len as nat),
            final(buffer)@.subrange(len as int, old(buffer).len() as int) == old(buffer)@.subrange(
                len as int,
                old(buffer).len() as int,
            ),
            final(self).state() == state_after(old(self).state(), len as nat),
            final(self).state() == state_after(old(self).seed(), old(self).draws() + len as nat),
            final(self).seed() == old(self).seed(),
            final(self).draws() == old(self).draws() + len,
    {
        let ghost start = self.state();
        proof {
            use_type_invariant(&*self);
            lemma_state_after_add(self.seed(), self.draws(), len as nat);
        }
        let mut j: usize = 0;
        while j < len
            invariant
                j <= len <= buffer.len(),
                buffer.len() == old(buffer).len(),
                self.state() == state_after(start, j as nat),
                self.seed() == old(self).seed(),
                self.draws() == old(self).draws() + j,
                start == old(self).state(),
                buffer@.subrange(0, j as int) == stream(start, j as nat),
                buffer@.subrange(len as int, buffer.len() as int) == old(buffer)@.subrange(
                    len as int,
                    buffer.len() as int,
                ),
            decreases len - j,
        {
            let ghost before = buffer@;
            let byte = self.next_byte();
            buffer[j] = byte;
            proof {
                assert(buffer@ == before.update(j as int, byte));
                assert(buffer@.subrange(0, j + 1) =~= before.subrange(0, j as int).push(byte));
                assert(stream(start, (j + 1) as nat) =~= stream(start, j as nat).push(byte));
                assert(buffer@.subrange(len as int, buffer.len() as int) =~= before.subrange(
                    len as int,
                    buffer.len() as int,
                ));
            }
            j += 1;
        }
    }
}

/// A generator that starts from `seed`.
pub fn xorshift64(seed: u64) -> (generator: Xorshift64)
    ensures
        generator.seed() == seed,
        generator.draws() == 0,
        generator.state() == seed,
{
    Xorshift64 { seed, state: seed, draws: Ghost(0) }
}

} // verus!
