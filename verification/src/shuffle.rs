//! Deterministic, seeded shuffling of a dataset.
//!
//! A pass that shuffles with seed `s` computes a permutation that is a pure
//! function of `s` and the dataset length, so two passes built with the same
//! seed over the same dataset deliver the items in the same order.

use vstd::prelude::*;
use vstd::pervasive::VecAdditionalExecFns;
use vstd::seq_lib::group_to_multiset_ensures;

verus! {

/// Multiplier of the linear congruential generator driving the shuffle.
pub const LCG_MULTIPLIER: u64 = 6364136223846793005;

/// Increment of the linear congruential generator driving the shuffle.
pub const LCG_INCREMENT: u64 = 1442695040888963407;

/// The generator state that follows `state`: a pure function, which is what
/// makes shuffling reproducible.
pub open spec fn lcg_next_spec(state: u64) -> u64 {
    state.wrapping_mul(LCG_MULTIPLIER).wrapping_add(LCG_INCREMENT)
}

/// `s` with the items at `i` and `j` exchanged.
pub open spec fn seq_swap<I>(s: Seq<I>, i: int, j: int) -> Seq<I> {
    s.update(i, s[j]).update(j, s[i])
}

/// The remaining Fisher-Yates passes of a shuffle: positions `i` down to 1
/// each receive the item of a generator-chosen position at or below them.
pub open spec fn shuffle_step<I>(s: Seq<I>, state: u64, i: int) -> Seq<I>
    decreases i,
{
    if i <= 0 || i >= s.len() {
        s
    } else {
        let st = lcg_next_spec(state);
        let j = (st as int) % (i + 1);
        shuffle_step(seq_swap(s, i, j), st, i - 1)
    }
}

/// The order in which a pass shuffled with `seed` delivers the items of `s`.
pub open spec fn shuffle_of<I>(s: Seq<I>, seed: u64) -> Seq<I> {
    shuffle_step(s, seed, s.len() - 1)
}

/// Exchanging two items changes no multiset and no length.
pub proof fn lemma_seq_swap_multiset<I>(s: Seq<I>, i: int, j: int)
    requires
        0 <= i < s.len(),
        0 <= j < s.len(),
    ensures
        seq_swap(s, i, j).len() == s.len(),
        seq_swap(s, i, j).to_multiset() == s.to_multiset(),
{
    broadcast use group_to_multiset_ensures;

    let s1 = s.update(i, s[j]);
    assert(s1[j] == s[j]);
    assert(s1.to_multiset() == s.to_multiset().insert(s[j]).remove(s[i]));
    assert(seq_swap(s, i, j).to_multiset() == s1.to_multiset().insert(s[i]).remove(s1[j]));
    assert(s.to_multiset().insert(s[j]).remove(s[i]).insert(s[i]).remove(s[j]) =~= s
        .to_multiset());
}

/// A shuffle is a permutation: it neither loses nor duplicates an item.
pub proof fn lemma_shuffle_step_multiset<I>(s: Seq<I>, state: u64, i: int)
    ensures
        shuffle_step(s, state, i).len() == s.len(),
        shuffle_step(s, state, i).to_multiset() == s.to_multiset(),
    decreases i,
{
    if i <= 0 || i >= s.len() {
    } else {
        let st = lcg_next_spec(state);
        let j = (st as int) % (i + 1);
        lemma_seq_swap_multiset(s, i, j);
        lemma_shuffle_step_multiset(seq_swap(s, i, j), st, i - 1);
    }
}

/// A shuffled pass delivers exactly the dataset's items: same multiset,
/// same length, whatever the seed.
pub proof fn lemma_shuffle_of_multiset<I>(s: Seq<I>, seed: u64)
    ensures
        shuffle_of(s, seed).len() == s.len(),
        shuffle_of(s, seed).to_multiset() == s.to_multiset(),
{
    lemma_shuffle_step_multiset(s, seed, s.len() - 1);
}

/// Exchanges the items of `v` at `i` and `j`.
fn vec_swap<I>(v: &mut Vec<I>, i: usize, j: usize)
    requires
        i < old(v).len(),
        j < old(v).len(),
    ensures
        final(v)@ == seq_swap(old(v)@, i as int, j as int),
{
    let ghost orig = v@;
    if i != j {
        let mut tmp: I = v.remove(i);
        let jj: usize = if j < i {
            j
        } else {
            j - 1
        };
        v.set_and_swap(jj, &mut tmp);
        v.insert(i, tmp);
        proof {
            assert(v@ =~= seq_swap(orig, i as int, j as int));
        }
    } else {
        proof {
            assert(v@ =~= seq_swap(orig, i as int, j as int));
        }
    }
}

/// Reorders `items` by the permutation that `seed` determines. The result
/// is exactly `shuffle_of(items, seed)`: deterministic in the seed, and a
/// permutation of the input.
pub fn shuffle_vec<I>(items: Vec<I>, seed: u64) -> (r: Vec<I>)
    ensures
        r@ == shuffle_of(items@, seed),
        r@.to_multiset() == items@.to_multiset(),
        r@.len() == items@.len(),
{
    let ghost orig = items@;
    proof {
        lemma_shuffle_of_multiset(orig, seed);
    }
    let mut v = items;
    let n = v.len();
    if n <= 1 {
        return v;
    }
    let mut state: u64 = seed;
    let mut i: usize = n - 1;
    while i >= 1
        invariant
            v@.len() == n,
            n == orig.len(),
            2 <= n,
            i <= n - 1,
            shuffle_step(v@, state, i as int) == shuffle_of(orig, seed),
        decreases i,
    {
        let ghost v0 = v@;
        let ghost st0 = state;
        state = state.wrapping_mul(LCG_MULTIPLIER).wrapping_add(LCG_INCREMENT);
        let m: u64 = state % ((i as u64) + 1);
        let j: usize = m as usize;
        proof {
            assert(state == lcg_next_spec(st0));
            assert((state as int) % (i + 1) == m as int);
            assert(j < i + 1);
        }
        vec_swap(&mut v, i, j);
        proof {
            assert(shuffle_step(v0, st0, i as int) == shuffle_step(v@, state, i as int - 1));
        }
        i = i - 1;
    }
    v
}

} // verus!
