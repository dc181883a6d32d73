//! The deterministic random source that orders training examples and picks
//! evaluation images: a SplitMix64 generator.

use vstd::prelude::*;

verus! {

broadcast use vstd::seq_lib::group_to_multiset_ensures;

/// The increment of the generator's state at each draw.
pub const GOLDEN_GAMMA: u64 = 0x9E37_79B9_7F4A_7C15;

/// The output that the generator gives for a state.
pub open spec fn mix(z: u64) -> u64 {
    let a = (z ^ (z >> 30u64)).wrapping_mul(0xBF58_476D_1CE4_E5B9);
    let b = (a ^ (a >> 27u64)).wrapping_mul(0x94D0_49BB_1331_11EB);
    b ^ (b >> 31u64)
}

/// A SplitMix64 generator; its view is its state.
pub struct Rng {
    state: u64,
}

impl View for Rng {
    type V = u64;

    closed spec fn view(&self) -> u64 {
        self.state
    }
}

/// What shuffling the first `i` entries of `values` from the back gives,
/// starting from generator state `state`: for each position `p` from `i - 1`
/// down to 1, the state advances by `GOLDEN_GAMMA`, `j` is the new state's
/// mix modulo `p + 1`, and the entries at `p` and `j` swap. The result is the
/// entries and the final state.
pub open spec fn shuffled(values: Seq<usize>, state: u64, i: nat) -> (Seq<usize>, u64)
    decreases i,
{
    if i <= 1 {
        (values, state)
    } else {
        let next = state.wrapping_add(GOLDEN_GAMMA);
        let last = i - 1;
        let j = (mix(next) % (i as u64)) as int;
        shuffled(
            values.update(last, values[j]).update(j, values[last]),
            next,
            (i - 1) as nat,
        )
    }
}

/// Swapping two entries keeps the multiset of entries.
proof fn lemma_swap_keeps_multiset(s: Seq<usize>, i: int, j: int)
    requires
        0 <= i < s.len(),
        0 <= j < s.len(),
    ensures
        s.update(i, s[j]).update(j, s[i]).to_multiset() =~= s.to_multiset(),
{
    let t = s.update(i, s[j]);
    vstd::seq_lib::to_multiset_update(s, i, s[j]);
    vstd::seq_lib::to_multiset_update(t, j, s[i]);
    assert(t[j] == s[j]);
    assert(s.to_multiset().count(s[i]) > 0);
    assert(t.update(j, s[i]).to_multiset() =~= s.to_multiset());
}

impl Rng {
    /// A generator whose state is `seed`.
    pub fn new(seed: u64) -> (res: Self)
        ensures
            res@ == seed,
    {
        Rng { state: seed }
    }

    /// Advances the state by `GOLDEN_GAMMA` and returns the mix of the new
    /// state.
    pub fn next_u64(&mut self) -> (res: u64)
        ensures
            final(self)@ == old(self)@.wrapping_add(GOLDEN_GAMMA),
            res == mix(final(self)@),
    {
        let state = self.state.wrapping_add(GOLDEN_GAMMA);
        self.state = state;
        let a = (state ^ (state >> 30u64)).wrapping_mul(0xBF58_476D_1CE4_E5B9);
        let b = (a ^ (a >> 27u64)).wrapping_mul(0x94D0_49BB_1331_11EB);
        b ^ (b >> 31u64)
    }

    /// A position below `n`: the next draw reduced modulo `n`.
    pub fn index(&mut self, n: usize) -> (res: usize)
        requires
            n > 0,
        ensures
            res < n,
            final(self)@ == old(self)@.wrapping_add(GOLDEN_GAMMA),
            res == mix(final(self)@) % (n as u64),
    {
        let draw = self.next_u64();
        (draw % (n as u64)) as usize
    }

    /// Puts `values` in a random order (Fisher-Yates, from the back): the
    /// result holds the same entries, each as often as before, in the order
    /// that `shuffled` gives, and the generator has drawn once per position
    /// from the last down to the second.
    pub fn shuffle(&mut self, values: &mut Vec<usize>)
        ensures
            (final(values)@, final(self)@) == shuffled(
                old(values)@,
                old(self)@,
                old(values)@.len(),
            ),
            final(values)@.len() == old(values)@.len(),
            final(values)@.to_multiset() == old(values)@.to_multiset(),
    {
        let ghost start_state = self@;
        let ghost original = values@;
        let mut i = values.len();
        while i > 1
            invariant
                i <= values@.len(),
                values@.len() == original.len(),
                values@.to_multiset() == original.to_multiset(),
                shuffled(values@, self@, i as nat) == shuffled(
                    original,
                    start_state,
                    original.len(),
                ),
            decreases i,
        {
            let ghost old_values = values@;
            let last = i - 1;
            let j = self.index(i);
            let a = values[last];
            let b = values[j];
            proof {
                lemma_swap_keeps_multiset(values@, last as int, j as int);
            }
            values.set(last, b);
            values.set(j, a);
            assert(values@ =~= old_values.update(last as int, old_values[j as int]).update(
                j as int,
                old_values[last as int],
            ));
            i = last;
        }
    }
}

} // verus!
