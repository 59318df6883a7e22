//! Capability bitfield helpers.
//!
//! Each capability is a single bit in a flat array of `u32` words transmitted
//! with `LinkMess` / `LinkReply`. Bit `n` is stored in word `n / 32`, bit
//! `n % 32`.

use vstd::prelude::*;

pub mod common;
pub mod display;
pub mod main;

verus! {

/// Bit `cap` is set in the words.
pub open spec fn has_cap(words: Seq<u32>, cap: u32) -> bool {
    cap / 32 < words.len() && words[cap as int / 32] & (1u32 << (cap % 32)) != 0
}

/// The words with as many zero words behind them as bit `cap` needs.
pub open spec fn grown(words: Seq<u32>, cap: u32) -> Seq<u32> {
    if words.len() <= cap / 32 {
        words + Seq::new((cap / 32 + 1 - words.len()) as nat, |i: int| 0u32)
    } else {
        words
    }
}

/// The words with bit `cap` set.
pub open spec fn added(words: Seq<u32>, cap: u32) -> Seq<u32> {
    let g = grown(words, cap);
    g.update(cap as int / 32, g[cap as int / 32] | (1u32 << (cap % 32)))
}

/// The words after setting the first `n` of `caps`, from none.
pub open spec fn built(caps: Seq<u32>, n: nat) -> Seq<u32>
    decreases n,
{
    if n == 0 {
        Seq::empty()
    } else {
        added(built(caps, (n - 1) as nat), caps[n - 1])
    }
}

/// Resizable view over the cap word array.
#[derive(Debug, Clone, PartialEq, Eq)]
pub struct CapSet(pub Vec<u32>);

impl Default for CapSet {
    fn default() -> (s: Self)
        ensures
            s.0@ == Seq::<u32>::empty(),
    {
        Self::new()
    }
}

impl CapSet {
    pub fn new() -> (s: Self)
        ensures
            s.0@ == Seq::<u32>::empty(),
    {
        Self(Vec::new())
    }

    /// The set that holds exactly `caps`.
    pub fn with_caps<const N: usize>(caps: [u32; N]) -> (s: Self)
        ensures
            s.0@ == built(caps@, caps@.len()),
            forall|c: u32| #[trigger] has_cap(s.0@, c) <==> caps@.contains(c),
    {
        let mut s = Self::new();
        let mut i: usize = 0;
        while i < N
            invariant
                i <= N,
                caps@.len() == N,
                s.0@ == built(caps@, i as nat),
            decreases N - i,
        {
            s.set(caps[i]);
            i = i + 1;
        }
        proof {
            assert forall|c: u32| #[trigger] has_cap(s.0@, c) <==> caps@.contains(c) by {
                built_has(caps@, caps@.len(), c);
                assert(caps@.take(caps@.len() as int) =~= caps@);
            }
        }
        s
    }

    pub fn has(&self, cap: u32) -> (b: bool)
        ensures
            b == has_cap(self.0@, cap),
    {
        let word: usize = (cap / 32) as usize;
        let bit: u32 = cap % 32;
        word < self.0.len() && self.0[word] & (1u32 << bit) != 0
    }

    pub fn set(&mut self, cap: u32)
        ensures
            final(self).0@ == added(old(self).0@, cap),
    {
        let word: usize = (cap / 32) as usize;
        let bit: u32 = cap % 32;
        if self.0.len() <= word {
            self.0.resize(word + 1, 0);
        }
        assert(self.0@ =~= grown(old(self).0@, cap));
        let w: u32 = self.0[word];
        self.0[word] = w | (1u32 << bit);
        assert(self.0@ =~= added(old(self).0@, cap));
    }

    pub fn words(&self) -> (w: &[u32])
        ensures
            w@ == self.0@,
    {
        self.0.as_slice()
    }
}

proof fn lemma_bit(w: u32, a: u32, b: u32)
    requires
        a < 32,
        b < 32,
    ensures
        (w | (1u32 << a)) & (1u32 << b) != 0 <==> a == b || w & (1u32 << b) != 0,
        0u32 & (1u32 << b) == 0,
{
    assert((w | (1u32 << a)) & (1u32 << b) != 0 <==> a == b || w & (1u32 << b) != 0) by (bit_vector)
        requires
            a < 32,
            b < 32,
    ;
    assert(0u32 & (1u32 << b) == 0) by (bit_vector);
}

/// Setting a capability adds that one and no other.
pub proof fn added_has(words: Seq<u32>, a: u32, b: u32)
    ensures
        has_cap(added(words, a), b) <==> a == b || has_cap(words, b),
{
    let g = grown(words, a);
    let x = b as int / 32;
    lemma_bit(if x < g.len() { g[x] } else { 0 }, a % 32, b % 32);
    if x < words.len() {
        assert(g[x] == words[x]);
    } else if x < g.len() {
        assert(g[x] == 0);
    }
}

/// A set built from capabilities holds those and no other.
pub proof fn built_has(caps: Seq<u32>, n: nat, c: u32)
    requires
        n <= caps.len(),
    ensures
        has_cap(built(caps, n), c) <==> caps.take(n as int).contains(c),
    decreases n,
{
    if n > 0 {
        let before = caps.take(n - 1);
        let now = caps.take(n as int);
        built_has(caps, (n - 1) as nat, c);
        added_has(built(caps, (n - 1) as nat), caps[n - 1], c);
        if before.contains(c) {
            let k = choose|k: int| 0 <= k < before.len() && before[k] == c;
            assert(now[k] == c);
        }
        if now.contains(c) && c != caps[n - 1] {
            let k = choose|k: int| 0 <= k < now.len() && now[k] == c;
            assert(before[k] == c);
        }
        assert(now[n - 1] == caps[n - 1]);
    }
}

} // verus!
